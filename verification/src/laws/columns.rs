//! Bits, columns and batches: which rows are valid, what they hold, and when
//! two batches say the same.
use crate::bitmap::{bit_of, bits_and, bits_not, bits_or, count_true, packs};
use crate::buffer::{nulls, valid_bits};
use crate::column::{equal_models, window_of, ColumnModel, ColumnType};
use crate::key::{encoded, has_room, interned, keys_consistent};
use crate::laws::{holds, mentions};
use crate::logical::{parts_spec, LogicalType};
use crate::schema::{
    batch_rows, batches_agree, bind_failure, column_failure, columns_agree, first_failure,
    key_row, row_value, BatchModel, FieldModel,
};
use crate::text::decimal;
use vstd::prelude::*;
use vstd::utf8::encode_utf8;

verus! {

/// A bit is the byte, shifted down to it, modulo two.
pub proof fn lemma_bit_is_shifted_down(byte: u8, i: u8)
    requires
        i < 8,
    ensures
        bit_of(byte, i) <==> (byte >> i) % 2 == 1,
{
    assert((byte & (1u8 << i) != 0) <==> (byte >> i) % 2 == 1) by (bit_vector)
        requires
            i < 8,
    ;
}

/// Packed bits lie eight to a byte, the first in the lowest place, in no more
/// bytes than they need, and nothing is set behind them.
pub proof fn lemma_packed_in_place(bytes: Seq<u8>, bits: Seq<bool>, k: int)
    requires
        packs(bytes, bits),
        0 <= k < 8 * bytes.len(),
    ensures
        8 * bytes.len() >= bits.len(),
        8 * bytes.len() < bits.len() + 8,
        ((bytes[k / 8] >> ((k % 8) as u8)) % 2 == 1) <==> k < bits.len() && bits[k],
{
    lemma_bit_is_shifted_down(bytes[k / 8], (k % 8) as u8);
    assert(crate::bitmap::bit_at(bytes, k) == bit_of(bytes[k / 8], (k % 8) as u8));
}

/// The bitwise operations work bit by bit.
pub proof fn lemma_bitwise(a: Seq<bool>, b: Seq<bool>, i: int)
    requires
        a.len() == b.len(),
        0 <= i < a.len(),
    ensures
        bits_and(a, b).len() == a.len() && bits_or(a, b).len() == a.len() && bits_not(a).len()
            == a.len(),
        bits_and(a, b)[i] <==> a[i] && b[i],
        bits_or(a, b)[i] <==> a[i] || b[i],
        bits_not(a)[i] <==> !a[i],
{
}

/// The count of set bits is the number of bits that are set.
pub proof fn lemma_count_is_number(bits: Seq<bool>)
    ensures
        count_true(bits) == bits.filter(|bit: bool| bit).len(),
    decreases bits.len(),
{
    reveal(Seq::filter);
    if bits.len() > 0 {
        lemma_count_is_number(bits.drop_last());
    }
}

/// A row is valid exactly when there is no bitmap or its bit is set.
pub proof fn lemma_row_validity(mask: Option<Seq<bool>>, rows: nat, i: int)
    requires
        mask matches Some(bits) ==> bits.len() == rows,
        0 <= i < rows,
    ensures
        valid_bits(mask, rows).len() == rows,
        valid_bits(mask, rows)[i] == holds(mask, i),
{
}

/// The null count is the number of rows that hold no value.
pub proof fn lemma_null_count(mask: Option<Seq<bool>>, rows: nat)
    requires
        mask matches Some(bits) ==> bits.len() == rows,
    ensures
        nulls(mask, rows) == Seq::new(rows, |i: int| holds(mask, i)).filter(
            |valid: bool| !valid,
        ).len(),
{
    let bits = Seq::new(rows, |i: int| holds(mask, i));
    assert(bits =~= valid_bits(mask, rows));
    lemma_count_unset(bits);
}

/// The set bits and the others are all.
proof fn lemma_count_unset(bits: Seq<bool>)
    ensures
        count_true(bits) + bits.filter(|valid: bool| !valid).len() == bits.len(),
    decreases bits.len(),
{
    reveal(Seq::filter);
    if bits.len() > 0 {
        lemma_count_unset(bits.drop_last());
    }
}

/// A window's bits are those from its offset on.
pub proof fn lemma_window_bits(bits: Seq<bool>, offset: int, len: nat, i: int)
    requires
        0 <= i < len,
        0 <= offset,
        offset + len <= bits.len(),
    ensures
        window_of(bits, offset, len).len() == len,
        window_of(bits, offset, len)[i] == bits[offset + i],
{
}

/// What a column's model says of itself.
pub proof fn lemma_column_facts(column: ColumnModel)
    ensures
        match column {
            ColumnModel::F64 { floats, mask } => column.rows() == floats.len() && column.mask()
                == mask && column.kind() == ColumnType::F64,
            ColumnModel::I64 { integers, mask } => column.rows() == integers.len() && column.mask()
                == mask && column.kind() == ColumnType::I64,
            ColumnModel::Key { codes, mask, .. } => column.rows() == codes.len() && column.mask()
                == mask && column.kind() == ColumnType::Key,
        },
        column.consistent() ==> (column.mask() matches Some(bits) ==> bits.len() == column.rows()),
        column.consistent() ==> (column matches ColumnModel::Key { codes, words, .. } ==> (
        forall|i: int| 0 <= i < codes.len() ==> #[trigger] codes[i] < words.len()) && (forall|
            i: int,
            j: int,
        |
            0 <= i < j < words.len() ==> words[i] != words[j])),
{
    if column.consistent() {
        match column {
            ColumnModel::Key { codes, words, .. } => {
                assert forall|i: int, j: int| 0 <= i < j < words.len() implies words[i]
                    != words[j] by {}
            },
            _ => {},
        }
    }
}

/// A row's value is there exactly when the row is valid, and is then the one
/// in its place; a key's is the text behind its code.
pub proof fn lemma_row_values<T>(
    values: Seq<T>,
    codes: Seq<u32>,
    mask: Option<Seq<bool>>,
    words: Seq<Seq<char>>,
    row: int,
)
    requires
        values.len() == codes.len(),
        mask matches Some(bits) ==> bits.len() == values.len(),
        0 <= row < values.len(),
    ensures
        row_value(values, mask, row) is Some <==> holds(mask, row),
        row_value(values, mask, row) matches Some(value) ==> value == values[row],
        key_row(codes, mask, words, row) is Some <==> holds(mask, row),
        key_row(codes, mask, words, row) matches Some(text) ==> text == words[codes[row] as int],
{
}

/// Two columns agree exactly when they have one type and length, the same
/// rows hold a value, and those hold the same: floats by IEEE equality,
/// integers exactly, keys by their text whatever their codes. What lies
/// under nulls does not count.
pub proof fn lemma_columns_agree(a: ColumnModel, e: ColumnModel)
    requires
        a.consistent(),
        e.consistent(),
    ensures
        columns_agree(a, e) <==> {
            &&& a.kind() == e.kind()
            &&& a.rows() == e.rows()
            &&& forall|i: int| 0 <= i < a.rows() ==> #[trigger] rows_agree(a, e, i)
        },
{
    match (a, e) {
        (
            ColumnModel::F64 { floats: x, mask: m },
            ColumnModel::F64 { floats: y, mask: n },
        ) => {
            if x.len() == y.len() {
                assert forall|i: int| 0 <= i < x.len() implies (#[trigger] rows_agree(a, e, i)
                    <==> crate::schema::float_rows_agree(row_value(x, m, i), row_value(y, n, i)))
                    by {}
                if columns_agree(a, e) {
                    assert forall|i: int| 0 <= i < x.len() implies #[trigger] rows_agree(a, e, i) by {
                        assert(crate::schema::float_rows_agree(
                            row_value(x, m, i),
                            row_value(y, n, i),
                        ));
                    }
                }
                if forall|i: int| 0 <= i < x.len() ==> #[trigger] rows_agree(a, e, i) {
                    assert forall|i: int|
                        0 <= i < x.len() implies crate::schema::float_rows_agree(
                        #[trigger] row_value(x, m, i),
                        row_value(y, n, i),
                    ) by {
                        assert(rows_agree(a, e, i));
                    }
                }
            }
        },
        (
            ColumnModel::I64 { integers: x, mask: m },
            ColumnModel::I64 { integers: y, mask: n },
        ) => {
            if x.len() == y.len() {
                if columns_agree(a, e) {
                    assert forall|i: int| 0 <= i < x.len() implies #[trigger] rows_agree(a, e, i) by {
                        assert(row_value(x, m, i) == row_value(y, n, i));
                    }
                }
                if forall|i: int| 0 <= i < x.len() ==> #[trigger] rows_agree(a, e, i) {
                    assert forall|i: int| 0 <= i < x.len() implies #[trigger] row_value(x, m, i)
                        == row_value(y, n, i) by {
                        assert(rows_agree(a, e, i));
                    }
                }
            }
        },
        (
            ColumnModel::Key { codes: x, mask: m, words: v },
            ColumnModel::Key { codes: y, mask: n, words: w },
        ) => {
            if x.len() == y.len() {
                if columns_agree(a, e) {
                    assert forall|i: int| 0 <= i < x.len() implies #[trigger] rows_agree(a, e, i) by {
                        assert(key_row(x, m, v, i) == key_row(y, n, w, i));
                    }
                }
                if forall|i: int| 0 <= i < x.len() ==> #[trigger] rows_agree(a, e, i) {
                    assert forall|i: int| 0 <= i < x.len() implies #[trigger] key_row(x, m, v, i)
                        == key_row(y, n, w, i) by {
                        assert(rows_agree(a, e, i));
                    }
                }
            }
        },
        _ => {},
    }
}

/// Both columns are null in the row, or both hold the same value there.
pub open spec fn rows_agree(a: ColumnModel, e: ColumnModel, i: int) -> bool {
    match (a, e) {
        (
            ColumnModel::F64 { floats: x, mask: m },
            ColumnModel::F64 { floats: y, mask: n },
        ) => holds(m, i) == holds(n, i) && (holds(m, i) ==> x[i].same(y[i])),
        (
            ColumnModel::I64 { integers: x, mask: m },
            ColumnModel::I64 { integers: y, mask: n },
        ) => holds(m, i) == holds(n, i) && (holds(m, i) ==> x[i] == y[i]),
        (
            ColumnModel::Key { codes: x, mask: m, words: v },
            ColumnModel::Key { codes: y, mask: n, words: w },
        ) => holds(m, i) == holds(n, i) && (holds(m, i) ==> v[x[i] as int] == w[y[i] as int]),
        _ => false,
    }
}

/// Batches agree exactly when their schemas are the same and their columns
/// agree, each with the one in its place.
pub proof fn lemma_batches_agree(a: BatchModel, e: BatchModel)
    requires
        a.consistent(),
        e.consistent(),
    ensures
        batches_agree(a, e) <==> {
            &&& a.schema == e.schema
            &&& a.columns.len() == e.columns.len()
            &&& forall|i: int|
                0 <= i < a.columns.len() ==> columns_agree(#[trigger] a.columns[i], e.columns[i])
        },
{
    if a.columns.len() == e.columns.len() && a.columns.len() > 0 && (forall|i: int|
        0 <= i < a.columns.len() ==> columns_agree(#[trigger] a.columns[i], e.columns[i])) {
        assert(columns_agree(a.columns[0], e.columns[0]));
        assert(a.columns[0].consistent() && e.columns[0].consistent());
        lemma_columns_agree(a.columns[0], e.columns[0]);
    }
}

/// Columns bind to a schema exactly when there is one per field, each of its
/// field's type, all of one length, and none with a bitmap where its field
/// is `NOT NULL`.
pub proof fn lemma_binding(schema: Seq<FieldModel>, columns: Seq<ColumnModel>)
    ensures
        bind_failure(schema, columns) is None <==> {
            &&& schema.len() == columns.len()
            &&& forall|i: int|
                0 <= i < columns.len() ==> (#[trigger] columns[i]).kind() == schema[i].column_type
            &&& forall|i: int, j: int|
                0 <= i < columns.len() && 0 <= j < columns.len() ==> (#[trigger] columns[i]).rows()
                    == (#[trigger] columns[j]).rows()
            &&& forall|i: int|
                0 <= i < columns.len() ==> ((#[trigger] columns[i]).mask() is Some
                    ==> schema[i].nullable)
        },
{
    crate::schema::lemma_binds_iff_no_failure(schema, columns);
    if columns.len() > 0 {
        assert(batch_rows(columns) == columns[0].rows());
    }
}

/// Where columns do not bind, the first that does not is the one named.
pub proof fn lemma_first_failure_named(
    schema: Seq<FieldModel>,
    columns: Seq<ColumnModel>,
    k: int,
)
    requires
        schema.len() == columns.len(),
        0 <= k < columns.len(),
        forall|i: int|
            0 <= i < k ==> column_failure(schema[i], #[trigger] columns[i], columns[0].rows()) is
            None,
        column_failure(schema[k], columns[k], columns[0].rows()) is Some,
    ensures
        bind_failure(schema, columns) == column_failure(schema[k], columns[k], columns[0].rows()),
{
    lemma_failure_from(schema, columns, columns[0].rows(), 0, k);
}

/// The first failure from a place on is the next one there is.
proof fn lemma_failure_from(
    schema: Seq<FieldModel>,
    columns: Seq<ColumnModel>,
    rows: nat,
    from: int,
    k: int,
)
    requires
        schema.len() == columns.len(),
        0 <= from <= k < columns.len(),
        forall|i: int|
            from <= i < k ==> column_failure(schema[i], #[trigger] columns[i], rows) is None,
        column_failure(schema[k], columns[k], rows) is Some,
    ensures
        first_failure(schema, columns, rows, from) == column_failure(schema[k], columns[k], rows),
    decreases k - from,
{
    if from < k {
        assert(column_failure(schema[from], columns[from], rows) is None);
        lemma_failure_from(schema, columns, rows, from + 1, k);
    }
}

/// A value finds room exactly when the dictionary, with it, is no larger than
/// its offsets can say.
pub proof fn lemma_room(values: Seq<Seq<char>>, value: Seq<char>)
    requires
        encoded(values).len() <= 0x7FFF_FFFF,
    ensures
        has_room(values, value) <==> encoded(interned(values, value)).len() <= 0x7FFF_FFFF,
        values.contains(value) ==> interned(values, value) == values,
        !values.contains(value) ==> interned(values, value).len() == values.len() + 1 && encoded(
            interned(values, value),
        ) == encoded(values) + encode_utf8(value),
{
    if !values.contains(value) {
        assert(values.push(value).drop_last() =~= values);
    }
}

/// Annotations are stored under one for a timestamp and two for a decimal,
/// whose payload is its scale, at most eighteen.
pub proof fn lemma_annotation_parts(tag: u8, payload: u8)
    ensures
        parts_spec(tag, payload) is Some <==> tag == 1 || (tag == 2 && payload <= 18),
        parts_spec(tag, payload) matches Some(LogicalType::TimestampNs) ==> tag == 1,
        parts_spec(tag, payload) matches Some(LogicalType::Decimal64 { scale }) ==> tag == 2
            && scale == payload,
        (LogicalType::Decimal64 { scale: payload }).in_range() <==> payload <= 18,
        LogicalType::TimestampNs.in_range(),
{
}

/// Types are stored under zero, one and two.
pub proof fn lemma_type_tags(kind: ColumnType)
    ensures
        kind == ColumnType::F64 <==> kind.tag_spec() == 0,
        kind == ColumnType::I64 <==> kind.tag_spec() == 1,
        kind == ColumnType::Key <==> kind.tag_spec() == 2,
{
}

/// Columns are equal exactly when they are of one type, carry the same bits,
/// and hold equal values in every row, those under nulls too.
pub proof fn lemma_equal_columns(a: ColumnModel, b: ColumnModel)
    ensures
        equal_models(a, b) <==> match (a, b) {
            (
                ColumnModel::F64 { floats: x, mask: m },
                ColumnModel::F64 { floats: y, mask: n },
            ) => m == n && x.len() == y.len() && forall|i: int|
                0 <= i < x.len() ==> (#[trigger] x[i]).same(y[i]),
            (
                ColumnModel::I64 { integers: x, mask: m },
                ColumnModel::I64 { integers: y, mask: n },
            ) => m == n && x == y,
            (
                ColumnModel::Key { codes: x, mask: m, words: v },
                ColumnModel::Key { codes: y, mask: n, words: w },
            ) => m == n && x == y && v == w,
            _ => false,
        },
{
}

/// A key column keeps its invariant exactly when its bitmap has a bit per
/// row, every code a value, and its dictionary distinct values within the
/// range of offsets.
pub proof fn lemma_keys_kept(codes: Seq<u32>, mask: Option<Seq<bool>>, words: Seq<Seq<char>>)
    ensures
        keys_consistent(codes, mask, words) <==> {
            &&& mask matches Some(bits) ==> bits.len() == codes.len()
            &&& forall|i: int| 0 <= i < codes.len() ==> #[trigger] codes[i] < words.len()
            &&& forall|i: int, j: int|
                0 <= i < words.len() && 0 <= j < words.len() && i != j ==> words[i] != words[j]
            &&& encoded(words).len() <= 0x7FFF_FFFF
        },
{
}

/// What is said of a column that does not bind names its field, and the rows
/// where these are the reason.
pub proof fn lemma_failure_names_field(field: FieldModel, column: ColumnModel, rows: nat)
    ensures
        column_failure(field, column, rows) matches Some(text) ==> mentions(text, field.name),
        field.column_type == column.kind() && column.rows() != rows ==> mentions(
            column_failure(field, column, rows)->0,
            decimal(column.rows()),
        ),
{
    if let Some(text) = column_failure(field, column, rows) {
        if field.column_type != column.kind() {
            assert(text == "column '"@ + field.name + "' bound with wrong physical type"@);
        } else if column.rows() != rows {
            let tail = " rows, expected "@ + decimal(rows);
            let after = "' has "@ + decimal(column.rows()) + tail;
            assert(text =~= "column '"@ + field.name + after);
            let before = "column '"@ + field.name + "' has "@;
            assert(text =~= before + decimal(column.rows()) + tail);
        } else {
            assert(text == "NOT NULL column '"@ + field.name + "' carries a validity bitmap"@);
        }
    }
}

} // verus!
