//! Importing arrays: which physical row each logical row is read from.
use crate::bitmap::lemma_count_bounds;
use crate::buffer::valid_bits;
use crate::cdata::array::{
    array_spec, child_layout, codes_spec, column_spec, columns_spec, describes_column,
    dictionary_layout, dictionary_spec, geometry_spec, words_spec, ArrowArray, ArrowBuffer,
};
use crate::column::{ColumnModel, ColumnType};
use crate::laws::{holds, mentions};
use crate::schema::FieldModel;
use crate::text::decimal;
use vstd::prelude::*;
use vstd::utf8::{decode_utf8, valid_utf8};

verus! {

/// Row `i` of an imported column is valid exactly when bit `child.offset +
/// root_offset + i` of the validity buffer is set, or there is no such
/// buffer; and a bitmap is kept exactly when a row is null.
pub proof fn lemma_imported_validity(
    field: FieldModel,
    child: ArrowArray,
    root_offset: nat,
    rows: nat,
    column: ColumnModel,
)
    requires
        column_spec(field, child, root_offset, rows) == Ok::<ColumnModel, Seq<char>>(column),
    ensures
        child.live,
        child.length >= 0,
        child.offset >= 0,
        root_offset + rows <= child.length,
        column.mask() matches Some(bits) ==> bits.len() == rows && field.nullable,
        child.buffers@[0] matches ArrowBuffer::Bits(bytes) ==> {
            &&& forall|i: int|
                0 <= i < rows ==> #[trigger] holds(column.mask(), i) == (bytes@[(
                child.offset + root_offset + i) / 8] & (1u8 << (((child.offset + root_offset + i)
                    % 8) as u8)) != 0)
            &&& column.mask() is None <==> (forall|i: int|
                0 <= i < rows ==> bytes@[#[trigger] (child.offset + root_offset + i) / 8] & (1u8
                    << (((child.offset + root_offset + i) % 8) as u8)) != 0)
        },
        !(child.buffers@[0] is Bits) ==> column.mask() is None,
{
    let start = child.offset + root_offset;
    assert(geometry_spec(field, child, root_offset, rows) is Ok);
    let mask = geometry_spec(field, child, root_offset, rows)->Ok_0.1;
    assert(column.mask() == mask);
    match child.buffers@[0] {
        ArrowBuffer::Bits(bytes) => {
            let bits = Seq::new(rows, |i: int| crate::bitmap::bit_at(bytes@, start + i));
            lemma_count_bounds(bits);
            assert forall|i: int|
                0 <= i < rows implies #[trigger] holds(mask, i) == (bytes@[(child.offset
                + root_offset + i) / 8] & (1u8 << (((child.offset + root_offset + i) % 8) as u8))
                != 0) by {
                assert(bits[i] == crate::bitmap::bit_at(bytes@, start + i));
            }
            if mask is None {
                assert forall|i: int| 0 <= i < rows implies bytes@[#[trigger] (child.offset
                    + root_offset + i) / 8] & (1u8 << (((child.offset + root_offset + i) % 8)
                    as u8)) != 0 by {
                    assert(bits[i]);
                }
            } else {
                let k = choose|k: int| 0 <= k < rows && !bits[k];
                assert(!bits[k]);
                assert(bytes@[(child.offset + root_offset + k) / 8] & (1u8 << (((child.offset
                    + root_offset + k) % 8) as u8)) == 0);
            }
        },
        _ => {},
    }
}

/// Row `i` of an imported column is element `child.offset + root_offset + i`
/// of the data buffer. A key row that is null and has no value behind its
/// code gets the first code.
pub proof fn lemma_imported_rows(
    field: FieldModel,
    child: ArrowArray,
    root_offset: nat,
    rows: nat,
    column: ColumnModel,
)
    requires
        column_spec(field, child, root_offset, rows) == Ok::<ColumnModel, Seq<char>>(column),
        child_layout(field, child, root_offset, rows),
    ensures
        match column {
            ColumnModel::F64 { floats, .. } => {
                &&& field.column_type == ColumnType::F64
                &&& floats.len() == rows
                &&& forall|i: int|
                    0 <= i < rows ==> (child.buffers@[1] matches ArrowBuffer::F64(data)
                        && #[trigger] floats[i] == data@[child.offset + root_offset + i])
            },
            ColumnModel::I64 { integers, .. } => {
                &&& field.column_type == ColumnType::I64
                &&& integers.len() == rows
                &&& forall|i: int|
                    0 <= i < rows ==> (child.buffers@[1] matches ArrowBuffer::I64(data)
                        && #[trigger] integers[i] == data@[child.offset + root_offset + i])
            },
            ColumnModel::Key { codes, mask, words } => {
                &&& field.column_type == ColumnType::Key
                &&& codes.len() == rows
                &&& forall|i: int|
                    0 <= i < rows ==> (child.buffers@[1] matches ArrowBuffer::U32(data) && (
                    if data@[child.offset + root_offset + i] < words.len() {
                        #[trigger] codes[i] == data@[child.offset + root_offset + i]
                    } else {
                        codes[i] == 0 && mask is Some && !mask->0[i] && words.len() > 0
                    }))
            },
        },
{
    let start = child.offset + root_offset;
    match column {
        ColumnModel::Key { codes, mask, words } => {
            if rows > 0 {
                let data = child.buffers@[1]->U32_0@;
                let seen = crate::cdata::array::window(data, start, rows);
                lemma_safe_codes(field.name, seen, valid_bits(mask, rows), words.len(), rows);
                lemma_imported_validity(field, child, root_offset, rows, column);
                assert forall|i: int| 0 <= i < rows implies (if data[child.offset + root_offset + i]
                    < words.len() {
                    #[trigger] codes[i] == data[child.offset + root_offset + i]
                } else {
                    codes[i] == 0 && mask is Some && !mask->0[i] && words.len() > 0
                }) by {
                    assert(seen[i] == data[start + i]);
                }
            }
        },
        _ => {},
    }
}

/// Codes are taken over: one with a value behind it stays, and one without
/// is an error in a valid row and the first code in a null one.
pub proof fn lemma_safe_codes(
    name: Seq<char>,
    codes: Seq<u32>,
    valid: Seq<bool>,
    values: nat,
    n: nat,
)
    requires
        n <= codes.len(),
    ensures
        codes_spec(name, codes, valid, values, n) is Ok <==> (forall|i: int|
            0 <= i < n ==> #[trigger] codes[i] < values || (!valid[i] && values > 0)),
        codes_spec(name, codes, valid, values, n) matches Ok(safe) ==> safe.len() == n
            && forall|i: int|
            0 <= i < n ==> #[trigger] safe[i] == (if codes[i] < values {
                codes[i]
            } else {
                0u32
            }) && (codes[i] < values || (!valid[i] && values > 0)),
    decreases n,
{
    if n > 0 {
        lemma_safe_codes(name, codes, valid, values, (n - 1) as nat);
        if codes_spec(name, codes, valid, values, n) is Err {
            if codes_spec(name, codes, valid, values, (n - 1) as nat) is Ok {
                assert(!(codes[n - 1] < values || (!valid[n - 1] && values > 0)));
            } else {
                let k = choose|k: int|
                    0 <= k < n - 1 && !(#[trigger] codes[k] < values || (!valid[k] && values > 0));
                assert(!(codes[k] < values || (!valid[k] && values > 0)));
            }
        } else {
            assert forall|i: int| 0 <= i < n implies #[trigger] codes[i] < values || (!valid[i]
                && values > 0) by {
                if i < n - 1 {
                    let safe = codes_spec(name, codes, valid, values, (n - 1) as nat)->Ok_0;
                    assert(safe[i] == safe[i]);
                }
            }
        }
    }
}

/// The bytes between an offset and the next one.
pub open spec fn piece(offsets: Seq<i32>, data: Seq<u8>, p: int) -> Seq<u8> {
    data.subrange(offsets[p] as int, offsets[p + 1] as int)
}

/// The bytes between an offset and the next one are there, and are UTF-8.
pub open spec fn sound_piece(offsets: Seq<i32>, data: Seq<u8>, p: int) -> bool {
    0 <= offsets[p] <= offsets[p + 1] && valid_utf8(piece(offsets, data, p))
}

/// A value is like one before it.
pub open spec fn repeats(offsets: Seq<i32>, data: Seq<u8>, offset: int, p: int) -> bool {
    exists|q: int|
        offset <= q < p && decode_utf8(piece(offsets, data, p)) == decode_utf8(
            #[trigger] piece(offsets, data, q),
        )
}

/// A dictionary's value is what the bytes between its offset and the next
/// one decode to, and the values are taken over exactly when every one of
/// them is there, is UTF-8, and is like no other.
pub proof fn lemma_imported_words(offsets: Seq<i32>, data: Seq<u8>, offset: int, n: nat)
    requires
        0 <= offset,
        offset + n < offsets.len(),
    ensures
        words_spec(offsets, data, offset, n) matches Ok(words) ==> {
            &&& words.len() == n
            &&& words.no_duplicates()
            &&& forall|p: int|
                offset <= p < offset + n ==> #[trigger] sound_piece(offsets, data, p)
            &&& forall|p: int|
                offset <= p < offset + n ==> words[p - offset] == decode_utf8(
                    #[trigger] piece(offsets, data, p),
                )
        },
        words_spec(offsets, data, offset, n) is Err ==> exists|p: int|
            offset <= p < offset + n && (!#[trigger] sound_piece(offsets, data, p)
                || repeats(offsets, data, offset, p)),
    decreases n,
{
    if n > 0 {
        lemma_imported_words(offsets, data, offset, (n - 1) as nat);
        let p = offset + n - 1;
        let value = decode_utf8(piece(offsets, data, p));
        match words_spec(offsets, data, offset, (n - 1) as nat) {
            Ok(words) => {
                if words.contains(value) {
                    let i = choose|i: int| 0 <= i < words.len() && words[i] == value;
                    let q = offset + i;
                    assert(words[q - offset] == decode_utf8(piece(offsets, data, q)));
                    assert(repeats(offsets, data, offset, p));
                }
                if !sound_piece(offsets, data, p) || words.contains(value) {
                    assert(!sound_piece(offsets, data, p) || repeats(offsets, data, offset, p));
                } else {
                    let all = words.push(value);
                    assert(words_spec(offsets, data, offset, n) == Ok::<
                        Seq<Seq<char>>,
                        Seq<char>,
                    >(all));
                    assert forall|i: int, j: int|
                        0 <= i < all.len() && 0 <= j < all.len() && i != j implies all[i]
                        != all[j] by {
                        if i < n - 1 && j < n - 1 {
                            assert(words[i] != words[j]);
                        } else if i < n - 1 {
                            assert(words.contains(words[i]));
                        } else {
                            assert(words.contains(words[j]));
                        }
                    }
                }
            },
            Err(_) => {
                let k = choose|k: int|
                    offset <= k < offset + (n - 1) as nat && (!#[trigger] sound_piece(
                        offsets,
                        data,
                        k,
                    ) || repeats(offsets, data, offset, k));
                assert(sound_piece(offsets, data, k) ==> repeats(offsets, data, offset, k));
            },
        }
    }
}

/// A slice of an exported column, which has the column's own buffers and
/// says where it starts in them, reads back as the rows from there on.
pub proof fn lemma_slice_reads_tail(
    field: FieldModel,
    node: ArrowArray,
    column: ColumnModel,
    slice: ArrowArray,
)
    requires
        describes_column(node, column),
        column.consistent(),
        column.kind() == field.column_type,
        column.mask() is Some ==> field.nullable,
        column.rows() <= usize::MAX,
        slice.live,
        slice.buffers == node.buffers,
        slice.n_buffers == node.n_buffers,
        slice.dictionary == node.dictionary,
        0 <= slice.offset,
        slice.length == node.length - slice.offset,
        slice.length >= 0,
    ensures
        child_layout(field, slice, 0, slice.length as nat),
        column_spec(field, slice, 0, slice.length as nat) matches Ok(read) && {
            &&& forall|i: int|
                0 <= i < slice.length ==> #[trigger] holds(read.mask(), i) == holds(
                    column.mask(),
                    slice.offset + i,
                )
            &&& match (column, read) {
                (
                    ColumnModel::F64 { floats: whole, .. },
                    ColumnModel::F64 { floats: part, .. },
                ) => part.len() == slice.length && forall|i: int|
                    0 <= i < slice.length ==> #[trigger] part[i] == whole[slice.offset + i],
                (
                    ColumnModel::I64 { integers: whole, .. },
                    ColumnModel::I64 { integers: part, .. },
                ) => part.len() == slice.length && forall|i: int|
                    0 <= i < slice.length ==> #[trigger] part[i] == whole[slice.offset + i],
                (
                    ColumnModel::Key { codes: whole, words: known, .. },
                    ColumnModel::Key { codes: part, words, .. },
                ) => part.len() == slice.length && words == known && forall|i: int|
                    0 <= i < slice.length ==> #[trigger] part[i] == whole[slice.offset + i],
                _ => false,
            }
        },
{
    let rows = slice.length as nat;
    let start = slice.offset as int;
    crate::cdata::array::lemma_column_round_trip(field, node, column);
    match column {
        ColumnModel::Key { codes, mask, words } => {
            let data = node.buffers@[1]->U32_0@;
            let seen = crate::cdata::array::window(data, start, rows);
            assert forall|i: int| 0 <= i < rows implies #[trigger] seen[i] < words.len() by {
                assert(seen[i] == codes[start + i]);
            }
            let valid = valid_bits(geometry_spec(field, slice, 0, rows)->Ok_0.1, rows);
            lemma_safe_codes(field.name, seen, valid, words.len(), rows);
            assert(dictionary_layout(*node.dictionary->0));
            assert(dictionary_spec(*slice.dictionary->0) == Ok::<Seq<Seq<char>>, Seq<char>>(words));
        },
        _ => {},
    }
    assert(geometry_spec(field, slice, 0, rows) is Ok);
    assert(column_spec(field, slice, 0, rows) is Ok);
    let read = column_spec(field, slice, 0, rows)->Ok_0;
    assert(child_layout(field, slice, 0, rows));
    lemma_imported_rows(field, slice, 0, rows, read);
    lemma_imported_validity(field, slice, 0, rows, read);
    assert forall|i: int| 0 <= i < rows implies #[trigger] holds(read.mask(), i) == holds(
        column.mask(),
        start + i,
    ) by {
        match column.mask() {
            Some(bits) => {
                let bytes = node.buffers@[0]->Bits_0@;
                assert(crate::bitmap::bit_at(bytes, start + i) == bits[start + i]);
            },
            None => {},
        }
    }
}

/// The parent's offset and a child's own add up: only their sum says where
/// the rows start.
pub proof fn lemma_offsets_add(
    field: FieldModel,
    child: ArrowArray,
    moved: ArrowArray,
    root_offset: nat,
    rows: nat,
)
    requires
        child.live,
        moved.live,
        child.offset >= 0,
        moved.buffers == child.buffers,
        moved.n_buffers == child.n_buffers,
        moved.dictionary == child.dictionary,
        moved.offset == child.offset + root_offset,
        moved.length == rows,
        moved.offset <= usize::MAX,
        rows <= usize::MAX,
        root_offset + rows <= child.length <= usize::MAX,
    ensures
        column_spec(field, moved, 0, rows) == column_spec(field, child, root_offset, rows),
{
}

/// A numeric child is taken over exactly when it is live, its counts make
/// sense, it has the rows that are asked for, and it has no null row where
/// there must be none.
pub proof fn lemma_numeric_accepted(
    field: FieldModel,
    child: ArrowArray,
    root_offset: nat,
    rows: nat,
)
    requires
        field.column_type != ColumnType::Key,
        child.n_buffers == 2,
        child.buffers@.len() == 2,
        !(child.buffers@[1] is Null),
    ensures
        column_spec(field, child, root_offset, rows) is Ok <==> {
            &&& child.live
            &&& 0 <= child.length <= usize::MAX
            &&& 0 <= child.offset <= usize::MAX
            &&& root_offset + rows <= child.length
            &&& field.nullable || (child.buffers@[0] matches ArrowBuffer::Bits(bytes)
                ==> forall|i: int|
                0 <= i < rows ==> bytes@[#[trigger] (child.offset + root_offset + i) / 8] & (1u8
                    << (((child.offset + root_offset + i) % 8) as u8)) != 0)
        },
{
    let start = child.offset + root_offset;
    match child.buffers@[0] {
        ArrowBuffer::Bits(bytes) => {
            let bits = Seq::new(rows, |i: int| crate::bitmap::bit_at(bytes@, start + i));
            lemma_count_bounds(bits);
            if forall|i: int| 0 <= i < bits.len() ==> bits[i] {
                assert forall|i: int| 0 <= i < rows implies bytes@[#[trigger] (child.offset
                    + root_offset + i) / 8] & (1u8 << (((child.offset + root_offset + i) % 8)
                    as u8)) != 0 by {
                    assert(bits[i]);
                }
            } else {
                let k = choose|k: int| 0 <= k < bits.len() && !bits[k];
                assert(!bits[k]);
                assert(bytes@[(child.offset + root_offset + k) / 8] & (1u8 << (((child.offset
                    + root_offset + k) % 8) as u8)) == 0);
            }
        },
        _ => {},
    }
}

/// An array is taken over column by column: each field's column comes from
/// the child in its place, under the parent's offset and length.
pub proof fn lemma_columns_in_place(
    schema: Seq<FieldModel>,
    array: ArrowArray,
    columns: Seq<ColumnModel>,
)
    requires
        array_spec(schema, array) == Ok::<Seq<ColumnModel>, Seq<char>>(columns),
    ensures
        array.live,
        array.null_count <= 0,
        columns.len() == schema.len(),
        array.n_children == schema.len(),
        array.length >= 0 && array.offset >= 0,
        forall|i: int|
            0 <= i < schema.len() ==> column_spec(
                schema[i],
                array.children@[i],
                array.offset as nat,
                array.length as nat,
            ) == Ok::<ColumnModel, Seq<char>>(#[trigger] columns[i]),
{
    lemma_columns_each(
        schema,
        array.children@,
        array.offset as nat,
        array.length as nat,
        schema.len(),
    );
}

/// The first columns come from the first children.
proof fn lemma_columns_each(
    schema: Seq<FieldModel>,
    children: Seq<ArrowArray>,
    root_offset: nat,
    rows: nat,
    n: nat,
)
    ensures
        columns_spec(schema, children, root_offset, rows, n) matches Ok(columns) ==> columns.len()
            == n && forall|i: int|
            0 <= i < n ==> column_spec(schema[i], children[i], root_offset, rows) == Ok::<
                ColumnModel,
                Seq<char>,
            >(#[trigger] columns[i]),
    decreases n,
{
    if n > 0 {
        lemma_columns_each(schema, children, root_offset, rows, (n - 1) as nat);
    }
}

/// An array whose own counts make sense is taken over if every child is.
pub proof fn lemma_array_accepted(schema: Seq<FieldModel>, array: ArrowArray)
    requires
        array.live,
        array.n_children == schema.len(),
        schema.len() <= usize::MAX,
        0 <= array.length <= usize::MAX,
        0 <= array.offset <= usize::MAX,
        array.null_count <= 0,
        forall|i: int|
            0 <= i < schema.len() ==> column_spec(
                schema[i],
                #[trigger] array.children@[i],
                array.offset as nat,
                array.length as nat,
            ) is Ok,
    ensures
        array_spec(schema, array) is Ok,
{
    lemma_columns_accepted(
        schema,
        array.children@,
        array.offset as nat,
        array.length as nat,
        schema.len(),
    );
}

/// The first children are taken over if each is.
proof fn lemma_columns_accepted(
    schema: Seq<FieldModel>,
    children: Seq<ArrowArray>,
    root_offset: nat,
    rows: nat,
    n: nat,
)
    requires
        n <= schema.len(),
        forall|i: int|
            0 <= i < schema.len() ==> column_spec(
                schema[i],
                #[trigger] children[i],
                root_offset,
                rows,
            ) is Ok,
    ensures
        columns_spec(schema, children, root_offset, rows, n) is Ok,
    decreases n,
{
    if n > 0 {
        lemma_columns_accepted(schema, children, root_offset, rows, (n - 1) as nat);
        assert(column_spec(schema[n - 1], children[n - 1], root_offset, rows) is Ok);
    }
}

/// A column needs its two buffers, and its values where it has rows.
pub proof fn lemma_buffers_needed(
    field: FieldModel,
    child: ArrowArray,
    root_offset: nat,
    rows: nat,
)
    requires
        column_spec(field, child, root_offset, rows) is Ok,
    ensures
        child.n_buffers >= 2,
        rows > 0 ==> !(child.buffers@[1] is Null),
        field.column_type == ColumnType::Key ==> child.dictionary is Some,
{
}

/// A dictionary is taken over exactly when it is live, its counts make sense,
/// it has its three buffers and no nulls, and all its values can be.
pub proof fn lemma_dictionary_accepted(values: ArrowArray)
    requires
        values.length <= usize::MAX && values.offset <= usize::MAX && values.n_buffers <= usize::MAX,
        values.length > 0 ==> values.buffers@[1] is Offsets && values.buffers@[2] is Bytes,
    ensures
        dictionary_spec(values) is Ok <==> {
            &&& values.live
            &&& values.length >= 0 && values.offset >= 0
            &&& values.null_count <= 0
            &&& values.n_buffers >= 3
            &&& values.length > 0 ==> words_spec(
                values.buffers@[1]->Offsets_0@,
                values.buffers@[2]->Bytes_0@,
                values.offset as int,
                values.length as nat,
            ) is Ok
        },
{
}

/// A key child is taken over exactly when its dictionary is, and every code
/// in a valid row has a value, and any value is there for a null row whose
/// code has none.
pub proof fn lemma_key_accepted(
    field: FieldModel,
    child: ArrowArray,
    root_offset: nat,
    rows: nat,
    values: ArrowArray,
)
    requires
        field.column_type == ColumnType::Key,
        field.nullable,
        child.n_buffers == 2,
        child.buffers@.len() == 2,
        child.live,
        0 <= child.length <= usize::MAX,
        0 <= child.offset <= usize::MAX,
        root_offset + rows <= child.length,
        child.dictionary == Some(Box::new(values)),
        child.buffers@[0] is Null,
        child.buffers@[1] is U32,
        child.offset + root_offset + rows <= child.buffers@[1]->U32_0@.len(),
    ensures
        column_spec(field, child, root_offset, rows) is Ok <==> (dictionary_spec(values) matches Ok(
            words,
        ) && forall|i: int|
            0 <= i < rows ==> child.buffers@[1]->U32_0@[#[trigger] (child.offset + root_offset + i)]
                < words.len()),
{
    let start = child.offset + root_offset;
    let data = child.buffers@[1]->U32_0@;
    let seen = crate::cdata::array::window(data, start, rows);
    if let Ok(words) = dictionary_spec(values) {
        lemma_safe_codes(field.name, seen, valid_bits(None, rows), words.len(), rows);
        if column_spec(field, child, root_offset, rows) is Ok {
            assert forall|i: int| 0 <= i < rows implies data[#[trigger] (child.offset + root_offset
                + i)] < words.len() by {
                assert(seen[i] == data[start + i]);
            }
        } else {
            let k = choose|k: int|
                0 <= k < rows && !(#[trigger] seen[k] < words.len() || (!valid_bits(None, rows)[k]
                    && words.len() > 0));
            assert(seen[k] == data[child.offset + root_offset + k]);
        }
    }
}

/// Where a child cannot be taken over, the first that cannot be is the one
/// the error is of.
pub proof fn lemma_first_child_refused(
    schema: Seq<FieldModel>,
    children: Seq<ArrowArray>,
    root_offset: nat,
    rows: nat,
    n: nat,
    k: int,
)
    requires
        0 <= k < n,
        forall|i: int|
            0 <= i < k ==> column_spec(schema[i], #[trigger] children[i], root_offset, rows) is Ok,
        column_spec(schema[k], children[k], root_offset, rows) is Err,
    ensures
        columns_spec(schema, children, root_offset, rows, n) matches Err(error) && column_spec(
            schema[k],
            children[k],
            root_offset,
            rows,
        ) == Err::<ColumnModel, Seq<char>>(error),
    decreases n,
{
    if k < n - 1 {
        lemma_first_child_refused(schema, children, root_offset, rows, (n - 1) as nat, k);
    } else {
        lemma_columns_before(schema, children, root_offset, rows, k as nat);
    }
}

/// Children that can all be taken over are.
proof fn lemma_columns_before(
    schema: Seq<FieldModel>,
    children: Seq<ArrowArray>,
    root_offset: nat,
    rows: nat,
    n: nat,
)
    requires
        forall|i: int|
            0 <= i < n ==> column_spec(schema[i], #[trigger] children[i], root_offset, rows) is Ok,
    ensures
        columns_spec(schema, children, root_offset, rows, n) is Ok,
    decreases n,
{
    if n > 0 {
        lemma_columns_before(schema, children, root_offset, rows, (n - 1) as nat);
        assert(column_spec(schema[n - 1], children[n - 1], root_offset, rows) is Ok);
    }
}

/// The first code in a valid row without a value behind it is the one the
/// error names, with its column.
pub proof fn lemma_dangling_code_named(
    name: Seq<char>,
    codes: Seq<u32>,
    valid: Seq<bool>,
    values: nat,
    n: nat,
    k: int,
)
    requires
        0 <= k < n <= codes.len(),
        forall|i: int|
            0 <= i < k ==> #[trigger] codes[i] < values || (!valid[i] && values > 0),
        codes[k] >= values && valid[k],
    ensures
        codes_spec(name, codes, valid, values, n) matches Err(text) && mentions(text, name)
            && mentions(text, decimal(codes[k] as nat)),
    decreases n,
{
    if k < n - 1 {
        lemma_dangling_code_named(name, codes, valid, values, (n - 1) as nat, k);
    } else {
        lemma_safe_codes(name, codes, valid, values, k as nat);
        let text = codes_spec(name, codes, valid, values, n)->Err_0;
        let code = decimal(codes[k] as nat);
        let tail = " out of dictionary range "@ + decimal(values);
        let after = "': code "@ + code + tail;
        assert(text =~= "key column '"@ + name + after);
        let before = "key column '"@ + name + "': code "@;
        assert(text =~= before + code + tail);
    }
}

} // verus!
