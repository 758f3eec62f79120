//! Equality and copies: what two values that are equal have in common, and
//! what a copy keeps.
use crate::bitmap::Bitmap;
use crate::buffer::{same_validity, Buffer, Element, NumericColumn};
use crate::column::{equal_models, Column};
use crate::float64::Float64;
use crate::key::{Dictionary, KeyColumn};
use crate::schema::{Field, RecordBatch, Schema};
use vstd::prelude::*;
use vstd::std_specs::cmp::PartialEqSpec;

verus! {

/// Bitmaps are equal exactly when they have one length and the same bits,
/// dictionaries when they have the same texts under the same codes.
pub proof fn lemma_equal_parts(a: Bitmap, b: Bitmap, c: Dictionary, d: Dictionary)
    ensures
        a.eq_spec(&b) <==> a@.len() == b@.len() && forall|i: int|
            0 <= i < a@.len() ==> #[trigger] a@[i] == b@[i],
        c.eq_spec(&d) <==> c@.len() == d@.len() && forall|i: int|
            0 <= i < c@.len() ==> #[trigger] c@[i] == d@[i],
{
    if a@.len() == b@.len() && forall|i: int| 0 <= i < a@.len() ==> #[trigger] a@[i] == b@[i] {
        assert(a@ =~= b@);
    }
    if c@.len() == d@.len() && forall|i: int| 0 <= i < c@.len() ==> #[trigger] c@[i] == d@[i] {
        assert(c@ =~= d@);
    }
}

/// Floats are equal by IEEE 754: the same number, the zeros the same, and
/// what is no number equal to nothing, itself included.
pub proof fn lemma_equal_floats(a: Float64, b: Float64)
    ensures
        a.eq_spec(&b) <==> !a.nan() && !b.nan() && (a.bits == b.bits || (a.magnitude() == 0
            && b.magnitude() == 0)),
{
}

/// Buffers are equal exactly when they have one length and equal elements.
pub proof fn lemma_equal_buffers(a: Buffer<Float64>, b: Buffer<Float64>, c: Buffer<i64>, d: Buffer<i64>)
    ensures
        a.eq_spec(&b) <==> a@.len() == b@.len() && forall|i: int|
            0 <= i < a@.len() ==> (#[trigger] a@[i]).same(b@[i]),
        c.eq_spec(&d) <==> c@.len() == d@.len() && forall|i: int|
            0 <= i < c@.len() ==> #[trigger] c@[i] == d@[i],
{
    if a.eq_spec(&b) {
        assert forall|i: int| 0 <= i < a@.len() implies (#[trigger] a@[i]).same(b@[i]) by {
            assert(a@[i].eq_spec(&b@[i]));
        }
    }
    if c.eq_spec(&d) {
        assert forall|i: int| 0 <= i < c@.len() implies #[trigger] c@[i] == d@[i] by {
            assert(c@[i].eq_spec(&d@[i]));
        }
    }
}

/// Columns are equal exactly when their values and their bits are; key
/// columns when their codes, bits and texts are.
pub proof fn lemma_equal_columns(
    a: NumericColumn<i64>,
    b: NumericColumn<i64>,
    c: KeyColumn,
    d: KeyColumn,
    e: Column,
    f: Column,
)
    ensures
        a.eq_spec(&b) <==> a.data() == b.data() && a.mask() == b.mask(),
        c.eq_spec(&d) <==> c.data() == d.data() && c.mask() == d.mask() && c.words() == d.words(),
        e.eq_spec(&f) <==> equal_models(e@, f@),
{
    if a.eq_spec(&b) {
        assert forall|i: int| 0 <= i < a.data().len() implies a.data()[i] == b.data()[i] by {
            assert(a.data()[i].eq_spec(&b.data()[i]));
        }
        assert(a.data() =~= b.data());
    }
}

/// Fields are equal exactly when name, type, nullability and annotation are;
/// schemas when they have the same fields in the same order.
pub proof fn lemma_equal_schemas(a: Field, b: Field, c: Schema, d: Schema)
    ensures
        a.eq_spec(&b) <==> a@.name == b@.name && a@.column_type == b@.column_type && a@.nullable
            == b@.nullable && a@.logical == b@.logical,
        c.eq_spec(&d) <==> c@.len() == d@.len() && forall|i: int|
            0 <= i < c@.len() ==> #[trigger] c@[i] == d@[i],
{
    if c@.len() == d@.len() && forall|i: int| 0 <= i < c@.len() ==> #[trigger] c@[i] == d@[i] {
        assert(c@ =~= d@);
    }
}

/// Batches are equal exactly when their schemas are and each column is equal
/// to the one in its place.
pub proof fn lemma_equal_batches(a: RecordBatch, b: RecordBatch)
    ensures
        a.eq_spec(&b) <==> a@.schema == b@.schema && a@.columns.len() == b@.columns.len() && forall|
            i: int,
        |
            0 <= i < a@.columns.len() ==> equal_models(#[trigger] a@.columns[i], b@.columns[i]),
{
}

/// Optional bitmaps are the same exactly when neither is there, or both are
/// with the same bits.
pub proof fn lemma_same_validity(a: Option<Bitmap>, b: Option<Bitmap>, same: bool)
    requires
        call_ensures(same_validity, (&a, &b), same),
    ensures
        same <==> match (a, b) {
            (Some(x), Some(y)) => x@ == y@,
            (None, None) => true,
            _ => false,
        },
{
}

/// A copy holds what was copied.
pub proof fn lemma_copies<T: Element>(
    bitmap: Bitmap,
    bits: Bitmap,
    buffer: Buffer<T>,
    elements: Buffer<T>,
    dictionary: Dictionary,
    words: Dictionary,
    column: Column,
    copied: Column,
    batch: RecordBatch,
    again: RecordBatch,
)
    requires
        call_ensures(Bitmap::clone, (&bitmap,), bits),
        call_ensures(Buffer::<T>::clone, (&buffer,), elements),
        call_ensures(Dictionary::clone, (&dictionary,), words),
        call_ensures(Column::clone, (&column,), copied),
        call_ensures(RecordBatch::clone, (&batch,), again),
    ensures
        bits@ == bitmap@,
        elements@ == buffer@,
        words@ == dictionary@,
        copied@ == column@,
        again@ == batch@,
{
}

} // verus!
