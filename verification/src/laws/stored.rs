//! Stored data: what a bitmap, a buffer, a dictionary, a column or a batch
//! gives back of what was put into it.
use crate::bitmap::{lemma_set_indices, Bitmap};
use crate::buffer::{Buffer, Element, NumericColumn};
use crate::cdata::array::{
    array_layout, export_array, import_array, import_batch, ArrowArray, ArrowBuffer,
};
use crate::cdata::format::{export_schema, ArrowSchema, ImportError};
use crate::cdata::stream::{ArrowArrayStream, StreamReader};
use crate::column::{Column, ColumnModel, ColumnType, KeyView, NumericData, NumericView};
use crate::harness::{verify_batch, verify_stream};
use crate::key::{encoded, Dictionary, KeyColumn};
use crate::laws::columns::{lemma_columns_agree, rows_agree};
use crate::laws::holds;
use crate::logical::LogicalType;
use crate::schema::{logically_equal, RecordBatch, Schema};
use vstd::prelude::*;
use vstd::utf8::encode_utf8;

verus! {

/// A bitmap made of bools has them as its bits, one made set or unset has
/// all or none; a bit reads as it is, and setting one changes it alone.
pub proof fn lemma_bits(
    bools: &[bool],
    len: usize,
    made: Bitmap,
    ones: Bitmap,
    zeros: Bitmap,
    i: int,
)
    requires
        call_ensures(Bitmap::from_bools, (bools,), made),
        call_ensures(Bitmap::new_set, (len,), ones),
        call_ensures(Bitmap::new_unset, (len,), zeros),
    ensures
        made@.len() == bools@.len() && ones@.len() == len && zeros@.len() == len,
        0 <= i < bools@.len() ==> made@[i] == bools@[i],
        0 <= i < len ==> ones@[i] && !zeros@[i],
{
}

/// Setting a bit changes it alone.
pub proof fn lemma_bit_set(bitmap: &mut Bitmap, index: usize, value: bool, i: int)
    requires
        index < old(bitmap)@.len(),
        0 <= i < old(bitmap)@.len(),
        call_ensures(Bitmap::set, (bitmap, index, value), ()),
    ensures
        final(bitmap)@.len() == old(bitmap)@.len(),
        final(bitmap)@[i] == (if i == index {
            value
        } else {
            old(bitmap)@[i]
        }),
{
}

/// A bit reads as it is, whether by itself or in the packed bytes: eight to a
/// byte, the first in the lowest place, and nothing behind the last.
pub proof fn lemma_bit_reads(
    bitmap: Bitmap,
    index: usize,
    bit: bool,
    bytes: &[u8],
    len: usize,
    k: int,
)
    requires
        index < bitmap@.len(),
        call_ensures(Bitmap::get, (&bitmap, index), bit),
        call_ensures(Bitmap::as_bytes, (&bitmap,), bytes),
        call_ensures(Bitmap::len, (&bitmap,), len),
        0 <= k < 8 * bytes@.len(),
    ensures
        bit == bitmap@[index as int],
        len == bitmap@.len(),
        bytes@.len() == (len + 7) / 8,
        (bytes@[k / 8] >> ((k % 8) as u8)) % 2 == 1 <==> k < len && bitmap@[k],
{
    crate::laws::columns::lemma_packed_in_place(bytes@, bitmap@, k);
}

/// The operations work bit by bit, the count is the number of set bits, and
/// the set positions are those of the set bits, each once and in order.
pub proof fn lemma_bit_operations(
    a: Bitmap,
    b: Bitmap,
    both: Bitmap,
    any: Bitmap,
    none: Bitmap,
    count: usize,
    indices: Vec<usize>,
    i: usize,
)
    requires
        a@.len() == b@.len(),
        call_ensures(Bitmap::and, (&a, &b), both),
        call_ensures(Bitmap::or, (&a, &b), any),
        call_ensures(Bitmap::not, (&a,), none),
        call_ensures(Bitmap::count_set, (&a,), count),
        call_ensures(Bitmap::iter_set, (&a,), indices),
        0 <= i < a@.len(),
    ensures
        both@.len() == a@.len() && any@.len() == a@.len() && none@.len() == a@.len(),
        both@[i as int] <==> a@[i as int] && b@[i as int],
        any@[i as int] <==> a@[i as int] || b@[i as int],
        none@[i as int] <==> !a@[i as int],
        count == a@.filter(|bit: bool| bit).len(),
        indices@.len() == count,
        a@[i as int] <==> indices@.contains(i),
        forall|j: int|
            0 <= j < indices@.len() ==> #[trigger] indices@[j] < a@.len() && a@[indices@[j] as int],
        forall|j: int, k: int|
            0 <= j < k < indices@.len() ==> #[trigger] indices@[j] < #[trigger] indices@[k],
{
    crate::laws::columns::lemma_bitwise(a@, b@, i as int);
    crate::laws::columns::lemma_count_is_number(a@);
    lemma_set_indices(a@);
    let places = indices@.map_values(|j: usize| j as int);
    assert forall|j: int| 0 <= j < indices@.len() implies #[trigger] indices@[j] < a@.len()
        && a@[indices@[j] as int] by {
        assert(places[j] == indices@[j]);
    }
    assert forall|j: int, k: int|
        0 <= j < k < indices@.len() implies #[trigger] indices@[j] < #[trigger] indices@[k] by {
        assert(places[j] < places[k]);
    }
    if a@[i as int] {
        let j = choose|j: int| 0 <= j < places.len() && places[j] == i;
        assert(indices@[j] == i);
    }
    if indices@.contains(i) {
        let j = choose|j: int| 0 <= j < indices@.len() && indices@[j] == i;
        assert(places[j] == indices@[j]);
        assert(indices@[j] < a@.len() && a@[indices@[j] as int]);
    }
}

/// A buffer holds what was put into it, in order.
pub proof fn lemma_buffers<T: Element>(values: &[T], made: Buffer<T>, slice: &[T], len: usize)
    requires
        call_ensures(Buffer::<T>::from_slice, (values,), made),
        call_ensures(Buffer::<T>::as_slice, (&made,), slice),
        call_ensures(Buffer::<T>::len, (&made,), len),
    ensures
        slice@ == values@,
        len == values@.len(),
{
}

/// What is pushed comes last, and what was there stays.
pub proof fn lemma_pushes<T: Element>(buffer: &mut Buffer<T>, value: T, i: int)
    requires
        call_ensures(Buffer::<T>::push, (buffer, value), ()),
        0 <= i <= old(buffer)@.len(),
    ensures
        final(buffer)@.len() == old(buffer)@.len() + 1,
        final(buffer)@[i] == (if i < old(buffer)@.len() {
            old(buffer)@[i]
        } else {
            value
        }),
{
}

/// What a buffer is extended by comes behind what was there, in order.
pub proof fn lemma_extensions<T: Element>(buffer: &mut Buffer<T>, values: &[T], i: int)
    requires
        call_ensures(Buffer::<T>::extend_from_slice, (buffer, values), ()),
        0 <= i < final(buffer)@.len(),
    ensures
        final(buffer)@.len() == old(buffer)@.len() + values@.len(),
        final(buffer)@[i] == (if i < old(buffer)@.len() {
            old(buffer)@[i]
        } else {
            values@[i - old(buffer)@.len()]
        }),
{
}

/// A column's row is valid exactly when there is no bitmap or its bit is set,
/// and the null count is the number of rows that are not.
pub proof fn lemma_column_validity<T: Element>(
    values: Buffer<T>,
    validity: Bitmap,
    nullable: NumericColumn<T>,
    whole: NumericColumn<T>,
    index: usize,
    valid: bool,
    always: bool,
    count: usize,
    none: usize,
)
    requires
        values@.len() == validity@.len(),
        index < values@.len(),
        call_ensures(NumericColumn::<T>::new_nullable, (values, validity), nullable),
        call_ensures(NumericColumn::<T>::new_non_null, (values,), whole),
        call_ensures(NumericColumn::<T>::is_valid, (&nullable, index), valid),
        call_ensures(NumericColumn::<T>::is_valid, (&whole, index), always),
        call_ensures(NumericColumn::<T>::null_count, (&nullable,), count),
        call_ensures(NumericColumn::<T>::null_count, (&whole,), none),
    ensures
        nullable.data() == values@ && whole.data() == values@,
        valid == validity@[index as int],
        always,
        count == validity@.filter(|bit: bool| !bit).len(),
        none == 0,
{
    crate::laws::columns::lemma_null_count(nullable.mask(), values@.len());
    assert(Seq::new(values@.len(), |i: int| holds(nullable.mask(), i)) =~= validity@);
    crate::laws::columns::lemma_null_count(None, values@.len());
    let all = Seq::new(values@.len(), |i: int| holds(None, i));
    lemma_all_hold(all);
}

/// Where every row holds a value, none does not.
proof fn lemma_all_hold(bits: Seq<bool>)
    requires
        forall|i: int| 0 <= i < bits.len() ==> bits[i],
    ensures
        bits.filter(|valid: bool| !valid).len() == 0,
    decreases bits.len(),
{
    reveal(Seq::filter);
    if bits.len() > 0 {
        lemma_all_hold(bits.drop_last());
    }
}

/// A view of a column, and a slice of a view, read the rows from their
/// offset on: values and validity both.
pub proof fn lemma_views<'a, T: Element>(
    column: &'a NumericColumn<T>,
    start: usize,
    rows: usize,
    view: NumericView<'a, T>,
    offset: usize,
    len: usize,
    slice: NumericView<'a, T>,
    values: &'a [T],
    index: usize,
    valid: bool,
)
    requires
        start + rows <= column.data().len(),
        offset + len <= rows,
        index < len,
        column.mask() matches Some(bits) ==> bits.len() == column.data().len(),
        call_ensures(NumericColumn::<T>::view, (column, start, rows), view),
        call_ensures(NumericView::<'a, T>::slice, (&view, offset, len), slice),
        call_ensures(NumericView::<'a, T>::values, (&slice,), values),
        call_ensures(NumericView::<'a, T>::is_valid, (&slice, index), valid),
    ensures
        values@.len() == len,
        values@[index as int] == column.data()[start + offset + index],
        valid == holds(column.mask(), start + offset + index),
{
}

/// A view's nulls are the rows of its window that hold no value.
pub proof fn lemma_view_nulls<'a, T: Element>(view: NumericView<'a, T>, count: usize)
    requires
        call_ensures(NumericView::<'a, T>::null_count, (&view,), count),
    ensures
        count == view.valid().filter(|bit: bool| !bit).len(),
{
    let bits = view.valid();
    crate::laws::columns::lemma_null_count(Some(bits), bits.len());
    assert(Seq::new(bits.len(), |i: int| holds(Some(bits), i)) =~= bits);
    assert(crate::buffer::valid_bits(Some(bits), bits.len()) =~= bits);
}

/// A key view reads the codes and the validity from its offset on, and the
/// column's own dictionary.
pub proof fn lemma_key_views<'a>(
    column: &'a KeyColumn,
    start: usize,
    rows: usize,
    view: KeyView<'a>,
    offset: usize,
    len: usize,
    slice: KeyView<'a>,
    codes: &'a [u32],
    dictionary: &'a Dictionary,
    index: usize,
    valid: bool,
)
    requires
        start + rows <= column.data().len(),
        offset + len <= rows,
        index < len,
        column.mask() matches Some(bits) ==> bits.len() == column.data().len(),
        call_ensures(KeyColumn::view, (column, start, rows), view),
        call_ensures(KeyView::<'a>::slice, (&view, offset, len), slice),
        call_ensures(KeyView::<'a>::codes, (&slice,), codes),
        call_ensures(KeyView::<'a>::dictionary, (&slice,), dictionary),
        call_ensures(KeyView::<'a>::is_valid, (&slice, index), valid),
    ensures
        codes@.len() == len,
        codes@[index as int] == column.data()[start + offset + index],
        dictionary@ == column.words(),
        valid == holds(column.mask(), start + offset + index),
{
}

/// A dictionary keeps what it had under its codes; a value that is interned
/// can be read under the code that comes back, and one that was there keeps
/// its code.
pub proof fn lemma_interning(dictionary: &mut Dictionary, value: &str, code: u32)
    requires
        old(dictionary)@.no_duplicates(),
        call_ensures(Dictionary::intern, (dictionary, value), code),
    ensures
        final(dictionary)@[code as int] == value@,
        code < final(dictionary)@.len(),
        old(dictionary)@.is_prefix_of(final(dictionary)@),
        old(dictionary)@.contains(value@) ==> final(dictionary)@ == old(dictionary)@,
        !old(dictionary)@.contains(value@) ==> code == old(dictionary)@.len()
            && final(dictionary)@.len() == old(dictionary)@.len() + 1,
        final(dictionary)@.no_duplicates(),
{
    let (before, after) = (old(dictionary)@, final(dictionary)@);
    if before.contains(value@) {
        assert(before.is_prefix_of(after));
    } else {
        assert(before.is_prefix_of(after));
        if code < before.len() {
            assert(before.contains(before[code as int]));
        }
        assert forall|i: int, j: int|
            0 <= i < after.len() && 0 <= j < after.len() && i != j implies after[i] != after[j] by {
            if i < before.len() && j < before.len() {
                assert(before[i] != before[j]);
            } else if i < before.len() {
                assert(before.contains(before[i]));
            } else {
                assert(before.contains(before[j]));
            }
        }
    }
}

/// A value's code is the one it is kept under, and none where it is not kept;
/// a code's value is the one in its place.
pub proof fn lemma_lookups(
    dictionary: Dictionary,
    value: &str,
    code: Option<u32>,
    found: u32,
    text: &str,
)
    requires
        found < dictionary@.len(),
        call_ensures(Dictionary::code_of, (&dictionary, value), code),
        call_ensures(Dictionary::value, (&dictionary, found), text),
    ensures
        code matches Some(c) ==> c < dictionary@.len() && dictionary@[c as int] == value@,
        code is None ==> forall|i: int|
            0 <= i < dictionary@.len() ==> #[trigger] dictionary@[i] != value@,
        text@ == dictionary@[found as int],
{
    if code is None {
        assert forall|i: int| 0 <= i < dictionary@.len() implies #[trigger] dictionary@[i]
            != value@ by {
            assert(dictionary@.contains(dictionary@[i]));
        }
    }
}

/// The bytes from a value's offset to the next one are the value's.
pub proof fn lemma_dictionary_bytes(dictionary: Dictionary, offsets: &[i32], bytes: &[u8], i: int)
    requires
        call_ensures(Dictionary::offsets, (&dictionary,), offsets),
        call_ensures(Dictionary::bytes, (&dictionary,), bytes),
        0 <= i < dictionary@.len(),
    ensures
        offsets@.len() == dictionary@.len() + 1,
        offsets@[0] == 0,
        offsets@[dictionary@.len() as int] == bytes@.len(),
        0 <= offsets@[i] <= offsets@[i + 1] <= bytes@.len(),
        bytes@.subrange(offsets@[i] as int, offsets@[i + 1] as int) == encode_utf8(dictionary@[i]),
{
    let words = dictionary@;
    crate::key::lemma_value_bytes(words, i);
    assert(offsets@[i] == encoded(words.take(i)).len());
    assert(offsets@[i + 1] == encoded(words.take(i + 1)).len());
    assert(offsets@[0] == encoded(words.take(0)).len());
    assert(offsets@[words.len() as int] == encoded(words.take(words.len() as int)).len());
    assert(words.take(words.len() as int) =~= words);
}

/// A key column made of values reads back as them, row by row, and its
/// dictionary has each value once, in the order they first come.
pub proof fn lemma_key_values(
    values: &[&str],
    column: KeyColumn,
    index: usize,
    text: Option<&str>,
    valid: bool,
)
    requires
        index < values@.len(),
        call_ensures(KeyColumn::from_values, (values,), column),
        call_ensures(KeyColumn::value_at, (&column, index), text),
        call_ensures(KeyColumn::is_valid, (&column, index), valid),
    ensures
        column.data().len() == values@.len(),
        text matches Some(text) && text@ == values@[index as int]@,
        valid,
{
    assert(column.row(index as int) == Some(values@[index as int]@));
}

/// A key row reads as the text behind its code where it is valid, and as
/// none where it is not.
pub proof fn lemma_key_rows(
    codes: Buffer<u32>,
    validity: Bitmap,
    dictionary: Dictionary,
    column: KeyColumn,
    index: usize,
    text: Option<&str>,
    count: usize,
)
    requires
        codes@.len() == validity@.len(),
        index < codes@.len(),
        call_ensures(KeyColumn::new_nullable, (codes, validity, dictionary), column),
        call_ensures(KeyColumn::value_at, (&column, index), text),
        call_ensures(KeyColumn::null_count, (&column,), count),
    ensures
        text is Some <==> validity@[index as int],
        text matches Some(text) ==> text@ == dictionary@[codes@[index as int] as int],
        count == validity@.filter(|bit: bool| !bit).len(),
{
    crate::laws::columns::lemma_null_count(column.mask(), codes@.len());
    assert(Seq::new(codes@.len(), |i: int| holds(column.mask(), i)) =~= validity@);
}

/// Codes are found dangling exactly when one has no value, and the first
/// that has none is named.
pub proof fn lemma_dangling_codes(
    codes: Buffer<u32>,
    dictionary: Dictionary,
    dangling: Option<u32>,
)
    requires
        call_ensures(KeyColumn::validate_codes, (&codes, &dictionary), dangling),
    ensures
        dangling is None <==> forall|i: int|
            0 <= i < codes@.len() ==> #[trigger] codes@[i] < dictionary@.len(),
        dangling matches Some(code) ==> exists|i: int|
            0 <= i < codes@.len() && #[trigger] codes@[i] == code && code >= dictionary@.len()
                && forall|j: int| 0 <= j < i ==> #[trigger] codes@[j] < dictionary@.len(),
{
    if let Some(code) = dangling {
        let i = choose|i: int|
            0 <= i < codes@.len() && #[trigger] codes@[i] == code && crate::key::codes_in_range(
                codes@.take(i),
                dictionary@.len(),
            );
        let before = codes@.take(i);
        assert forall|j: int| 0 <= j < i implies #[trigger] codes@[j] < dictionary@.len() by {
            assert(before[j] == codes@[j]);
        }
        assert(codes@[i] == code);
    }
}

/// An annotation is read from the parts it is stored as, and goes with
/// integers alone.
pub proof fn lemma_tags(
    tag: u8,
    payload: u8,
    logical: Option<LogicalType>,
    annotation: LogicalType,
    column_type: ColumnType,
    valid: bool,
)
    requires
        call_ensures(LogicalType::from_parts, (tag, payload), logical),
        call_ensures(LogicalType::valid_for, (&annotation, column_type), valid),
    ensures
        logical == Some(LogicalType::TimestampNs) <==> tag == 1,
        logical == Some(LogicalType::Decimal64 { scale: payload }) <==> tag == 2 && payload <= 18,
        logical is None <==> tag == 0 || tag > 2 || (tag == 2 && payload > 18),
        valid <==> column_type == ColumnType::I64,
{
    crate::laws::columns::lemma_annotation_parts(tag, payload);
}

/// A column says its type, its length and its nulls.
pub proof fn lemma_columns_say(
    column: Column,
    len: usize,
    kind: ColumnType,
    count: usize,
    has: bool,
)
    requires
        call_ensures(Column::len, (&column,), len),
        call_ensures(Column::column_type, (&column,), kind),
        call_ensures(Column::null_count, (&column,), count),
        call_ensures(Column::has_bitmap, (&column,), has),
    ensures
        match column@ {
            ColumnModel::F64 { floats, mask } => kind == ColumnType::F64 && len == floats.len()
                && has == (mask is Some),
            ColumnModel::I64 { integers, mask } => kind == ColumnType::I64 && len
                == integers.len() && has == (mask is Some),
            ColumnModel::Key { codes, mask, .. } => kind == ColumnType::Key && len == codes.len()
                && has == (mask is Some),
        },
        count == Seq::new(len as nat, |i: int| holds(column@.mask(), i)).filter(
            |valid: bool| !valid,
        ).len(),
{
    crate::laws::columns::lemma_null_count(column@.mask(), column@.rows());
}

/// What a column holds is what its parts hold.
pub proof fn lemma_columns_hold(data: NumericData, floats: NumericColumn<crate::float64::Float64>)
    ensures
        (NumericData::F64(floats))@ == (ColumnModel::F64 {
            floats: floats.data(),
            mask: floats.mask(),
        }),
        (Column::Numeric(data))@ == data@,
{
}

/// A batch is made of columns that bind, and reads back as them.
pub proof fn lemma_batches(
    schema: Schema,
    columns: Vec<Column>,
    failure: Option<String>,
    batch: RecordBatch,
    back: &[Column],
    rows: usize,
    i: int,
)
    requires
        call_ensures(RecordBatch::check, (&schema, &columns), failure),
        call_ensures(RecordBatch::new, (schema, columns), batch),
        call_ensures(RecordBatch::columns, (&batch,), back),
        call_ensures(RecordBatch::num_rows, (&batch,), rows),
        0 <= i < columns@.len(),
    ensures
        failure is None <==> {
            &&& schema@.len() == columns@.len()
            &&& forall|i: int|
                0 <= i < columns@.len() ==> (#[trigger] columns@[i])@.kind()
                    == schema@[i].column_type
            &&& forall|i: int, j: int|
                0 <= i < columns@.len() && 0 <= j < columns@.len() ==> (
                #[trigger] columns@[i])@.rows() == (#[trigger] columns@[j])@.rows()
            &&& forall|i: int|
                0 <= i < columns@.len() ==> ((#[trigger] columns@[i])@.mask() is Some
                    ==> schema@[i].nullable)
        },
        batch@.schema == schema@,
        back@.len() == columns@.len(),
        back@[i]@ == columns@[i]@,
        rows == columns@[0]@.rows(),
{
    let models = crate::schema::column_models(columns@);
    crate::laws::columns::lemma_binding(schema@, models);
    assert forall|j: int| 0 <= j < columns@.len() implies models[j] == (#[trigger] columns@[j])@ by {}
    let again = crate::schema::column_models(back@);
    assert(again[i] == back@[i]@);
    lemma_binding_models(schema@, columns@);
}

/// What binds, binds column by column.
proof fn lemma_binding_models(schema: Seq<crate::schema::FieldModel>, columns: Seq<Column>)
    ensures
        crate::schema::bind_failure(schema, crate::schema::column_models(columns)) is None <==> {
            &&& schema.len() == columns.len()
            &&& forall|i: int|
                0 <= i < columns.len() ==> (#[trigger] columns[i])@.kind() == schema[i].column_type
            &&& forall|i: int, j: int|
                0 <= i < columns.len() && 0 <= j < columns.len() ==> (
                #[trigger] columns[i])@.rows() == (#[trigger] columns[j])@.rows()
            &&& forall|i: int|
                0 <= i < columns.len() ==> ((#[trigger] columns[i])@.mask() is Some
                    ==> schema[i].nullable)
        },
{
    let models = crate::schema::column_models(columns);
    crate::laws::columns::lemma_binding(schema, models);
    assert(models.len() == columns.len());
    assert forall|j: int| 0 <= j < columns.len() implies #[trigger] models[j] == columns[j]@ by {}
    if crate::schema::bind_failure(schema, models) is None {
        assert forall|i: int| 0 <= i < columns.len() implies (#[trigger] columns[i])@.kind()
            == schema[i].column_type by {
            assert(models[i].kind() == schema[i].column_type);
        }
        assert forall|i: int, j: int|
            0 <= i < columns.len() && 0 <= j < columns.len() implies (
        #[trigger] columns[i])@.rows() == (#[trigger] columns[j])@.rows() by {
            assert(models[i].rows() == models[j].rows());
        }
        assert forall|i: int| 0 <= i < columns.len() implies ((#[trigger] columns[i])@.mask() is Some
            ==> schema[i].nullable) by {
            assert(models[i].mask() is Some ==> schema[i].nullable);
        }
    }
}

/// Batches are found equal exactly when their schemas are the same and their
/// columns agree row by row, each with the one in its place; a batch that
/// was to equal another is judged by this, and so is each of a stream.
pub proof fn lemma_verdicts(
    actual: RecordBatch,
    expected: RecordBatch,
    equal: bool,
    code: i32,
    refused: i32,
    error: ImportError,
)
    requires
        actual@.consistent(),
        expected@.consistent(),
        call_ensures(logically_equal, (&actual, &expected), equal),
        call_ensures(verify_batch, (&Ok(actual), &expected), code),
        call_ensures(verify_batch, (&Err(error), &expected), refused),
    ensures
        equal <==> {
            &&& actual@.schema == expected@.schema
            &&& actual@.columns.len() == expected@.columns.len()
            &&& forall|c: int|
                0 <= c < actual@.columns.len() ==> same_rows(
                    #[trigger] actual@.columns[c],
                    expected@.columns[c],
                )
        },
        code == (if equal {
            0i32
        } else {
            2
        }),
        refused == 1,
{
    crate::laws::columns::lemma_batches_agree(actual@, expected@);
    assert forall|c: int| 0 <= c < actual@.columns.len() && actual@.columns.len()
        == expected@.columns.len() implies (crate::schema::columns_agree(
        #[trigger] actual@.columns[c],
        expected@.columns[c],
    ) <==> same_rows(actual@.columns[c], expected@.columns[c])) by {
        lemma_columns_agree(actual@.columns[c], expected@.columns[c]);
    }
}

/// Two columns have one type and length, and agree in every row.
pub open spec fn same_rows(a: ColumnModel, e: ColumnModel) -> bool {
    &&& a.kind() == e.kind()
    &&& a.rows() == e.rows()
    &&& forall|i: int| 0 <= i < a.rows() ==> #[trigger] rows_agree(a, e, i)
}

/// A stream is judged good exactly when it yields as many batches as
/// expected, each agreeing with the one in its place.
pub proof fn lemma_stream_verdicts(
    batches: Vec<RecordBatch>,
    expected: &[RecordBatch],
    code: i32,
    error: ImportError,
    refused: i32,
)
    requires
        call_ensures(verify_stream, (&Ok(batches), expected), code),
        call_ensures(verify_stream, (&Err(error), expected), refused),
    ensures
        code == 0 <==> batches@.len() == expected@.len() && forall|i: int|
            0 <= i < batches@.len() ==> crate::schema::batches_agree(
                (#[trigger] batches@[i])@,
                expected@[i]@,
            ),
        code == 0 || code == 2,
        refused == 1,
{
}

/// What is exported as an array is imported as the batch that was exported:
/// the same schema, and in each column the same values, with a value in the
/// same rows.
pub proof fn lemma_crossing(
    batch: RecordBatch,
    described: ArrowSchema,
    exported: ArrowArray,
    imported: Result<RecordBatch, ImportError>,
    c: int,
)
    requires
        batch@.consistent(),
        crate::cdata::format::schema_exportable(batch@.schema),
        batch@.schema.len() <= usize::MAX,
        crate::schema::batch_rows(batch@.columns) <= usize::MAX,
        exists|schema: Schema|
            schema@ == batch@.schema && #[trigger] call_ensures(
                export_schema,
                (&schema,),
                described,
            ),
        call_ensures(export_array, (&batch,), exported),
        call_ensures(import_batch, (described, exported), imported),
        0 <= c < batch@.columns.len(),
    ensures
        imported matches Ok(back) && {
            &&& back@.schema == batch@.schema
            &&& back@.columns.len() == batch@.columns.len()
            &&& forall|i: int|
                0 <= i < batch@.columns[c].rows() ==> #[trigger] holds(back@.columns[c].mask(), i)
                    == holds(batch@.columns[c].mask(), i)
            &&& match (batch@.columns[c], back@.columns[c]) {
                (
                    ColumnModel::F64 { floats: x, .. },
                    ColumnModel::F64 { floats: y, .. },
                ) => x == y,
                (
                    ColumnModel::I64 { integers: x, .. },
                    ColumnModel::I64 { integers: y, .. },
                ) => x == y,
                (
                    ColumnModel::Key { codes: x, words: v, .. },
                    ColumnModel::Key { codes: y, words: w, .. },
                ) => x == y && v == w,
                _ => false,
            }
        },
{
    crate::cdata::array::lemma_batch_round_trip(described, exported, batch@);
    crate::laws::interchange::lemma_settled_batch(batch@, c);
    assert(batch@.columns[c].consistent());
    crate::laws::interchange::lemma_settled_column(batch@.columns[c]);
}

/// An array is imported with each row read from its own place: the child's
/// offset and the parent's, and the row.
pub proof fn lemma_array_rows(
    schema: Schema,
    array: ArrowArray,
    imported: Result<RecordBatch, ImportError>,
    c: int,
    i: int,
)
    requires
        array_layout(schema@, array),
        call_ensures(import_array, (&schema, array), imported),
        imported is Ok,
        0 <= c < schema@.len(),
        0 <= i < array.length,
        schema@[c].column_type != ColumnType::Key,
    ensures
        ({
            let child = array.children@[c];
            let place = child.offset + array.offset + i;
            let column = imported->Ok_0@.columns[c];
            &&& match (column, child.buffers@[1]) {
                (ColumnModel::F64 { floats, .. }, ArrowBuffer::F64(data)) => floats[i]
                    == data@[place],
                (ColumnModel::I64 { integers, .. }, ArrowBuffer::I64(data)) => integers[i]
                    == data@[place],
                _ => false,
            }
            &&& holds(column.mask(), i) == match child.buffers@[0] {
                ArrowBuffer::Bits(bytes) => bytes@[place / 8] & (1u8 << ((place % 8) as u8)) != 0,
                _ => true,
            }
        }),
{
    let batch = imported->Ok_0@;
    crate::laws::import::lemma_columns_in_place(schema@, array, batch.columns);
    let child = array.children@[c];
    let column = batch.columns[c];
    crate::laws::import::lemma_imported_validity(
        schema@[c],
        child,
        array.offset as nat,
        array.length as nat,
        column,
    );
    crate::laws::import::lemma_imported_rows(
        schema@[c],
        child,
        array.offset as nat,
        array.length as nat,
        column,
    );
    assert(holds(column.mask(), i) == holds(column.mask(), i));
    match column {
        ColumnModel::F64 { floats, .. } => {
            assert(floats[i] == floats[i]);
        },
        ColumnModel::I64 { integers, .. } => {
            assert(integers[i] == integers[i]);
        },
        _ => {},
    }
}

/// A stream hands out a batch of its own schema, refuses one of another, and
/// ends where there is none; a reader takes it so.
pub proof fn lemma_stream_hands_out(
    stream: &mut ArrowArrayStream,
    batch: RecordBatch,
    answer: (i32, ArrowArray),
)
    requires
        call_ensures(ArrowArrayStream::get_next, (stream, Some(&batch)), answer),
    ensures
        answer.0 == 0 <==> batch@.schema == old(stream).fields(),
        answer.1.live <==> batch@.schema == old(stream).fields(),
        batch@.schema == old(stream).fields() ==> answer.1.children@.len()
            == batch@.columns.len(),
        final(stream).fields() == old(stream).fields(),
        answer.0 != 0 ==> final(stream).error() is Some,
        answer.0 == 0 ==> final(stream).error() == old(stream).error(),
{
}

/// A stream that has nothing to hand over says so, without an error.
pub proof fn lemma_stream_ends(stream: &mut ArrowArrayStream, answer: (i32, ArrowArray))
    requires
        call_ensures(ArrowArrayStream::get_next, (stream, None), answer),
    ensures
        answer.0 == 0,
        !answer.1.live,
        final(stream).error() == old(stream).error(),
        final(stream).fields() == old(stream).fields(),
{
}

/// A released stream is live no longer.
pub proof fn lemma_stream_release(stream: &mut ArrowArrayStream)
    requires
        call_ensures(ArrowArrayStream::release, (stream,), ()),
    ensures
        !final(stream).is_live(),
        final(stream).fields() == old(stream).fields(),
{
}

/// A reader gives a batch for each array, under its own schema; nothing where
/// the stream has ended, and an error where a request failed.
pub proof fn lemma_reader_takes(
    reader: StreamReader,
    code: i32,
    array: ArrowArray,
    detail: Option<&str>,
    item: Option<Result<RecordBatch, ImportError>>,
)
    requires
        call_ensures(StreamReader::next, (&reader, code, array, detail), item),
    ensures
        item is None <==> code == 0 && !array.live,
        code != 0 ==> (item matches Some(Err(_))),
        item matches Some(Ok(batch)) ==> batch@.schema == reader.fields()
            && crate::cdata::array::array_spec(reader.fields(), array) == Ok::<
            Seq<ColumnModel>,
            Seq<char>,
        >(batch@.columns),
{
}

} // verus!
