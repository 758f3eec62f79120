//! Data: how a batch's columns are handed out through, and copied in from,
//! the C Data Interface.
use super::format::{
    describes_schema, export_schema, parse_schema, schema_exportable, schema_layout, schema_spec,
    ArrowSchema, ImportError,
};
use crate::bitmap::{bit_at, count_true, lemma_count_bounds, packs, Bitmap};
use crate::buffer::{nulls, valid_bits, Buffer, Element, NumericColumn};
use crate::column::{Column, ColumnModel, ColumnType, NumericData};
use crate::float64::Float64;
use crate::key::{
    codes_in_range, dictionary_valid, encoded, text_of, utf8_layout, Dictionary, KeyColumn,
};
use crate::schema::{
    batch_rows, column_models, field_models, BatchModel, Field, FieldModel, RecordBatch,
    Schema,
};
use crate::text::{decimal, push_size};
use std::sync::Arc;
use vstd::prelude::*;
use vstd::utf8::{decode_utf8, encode_utf8, valid_utf8};

verus! {

/// One buffer of an array: null, or typed by what the format says it holds.
/// Each is a handle to storage that others may share.
pub enum ArrowBuffer {
    /// A null pointer.
    Null,
    /// Validity bits, least significant first.
    Bits(Arc<Vec<u8>>),
    /// Floats.
    F64(Buffer<Float64>),
    /// Integers.
    I64(Buffer<i64>),
    /// Dictionary codes.
    U32(Buffer<u32>),
    /// Offsets of strings into their bytes.
    Offsets(Arc<Vec<i32>>),
    /// The bytes of strings.
    Bytes(Arc<Vec<u8>>),
}

/// An array: rows, buffers, and for a struct-typed root a child per field.
pub struct ArrowArray {
    /// Logical row count.
    pub length: i64,
    /// Null count, or -1 for unknown.
    pub null_count: i64,
    /// Logical offset into the buffers, in rows.
    pub offset: i64,
    /// Number of buffers.
    pub n_buffers: i64,
    /// Number of children.
    pub n_children: i64,
    /// The buffers; each may be null.
    pub buffers: Vec<ArrowBuffer>,
    /// Child arrays.
    pub children: Vec<ArrowArray>,
    /// Dictionary values, for dictionary-encoded fields.
    pub dictionary: Option<Box<ArrowArray>>,
    /// Not released yet.
    pub live: bool,
}

/// A count or position that this machine can hold.
pub open spec fn size_ok(n: i64) -> bool {
    0 <= n <= usize::MAX
}

/// The buffers an array has: none where the count makes no sense.
pub open spec fn buffer_count(array: ArrowArray) -> nat {
    if size_ok(array.n_buffers) {
        array.n_buffers as nat
    } else {
        0
    }
}

/// Why buffer `index` cannot be had, if so.
pub open spec fn buffer_failure(array: ArrowArray, index: nat, what: Seq<char>) -> Option<
    Seq<char>,
> {
    if index >= buffer_count(array) {
        Some(
            "expected "@ + what + " at buffer "@ + decimal(index) + ", but array has "@ + decimal(
                buffer_count(array),
            ) + " buffers"@,
        )
    } else {
        None
    }
}

/// The validity bits of `rows` rows from `start`, as the buffer holds them.
pub open spec fn read_bits(buffer: ArrowBuffer, start: int, rows: nat) -> Option<Seq<bool>> {
    match buffer {
        ArrowBuffer::Bits(bytes) => Some(Seq::new(rows, |i: int| bit_at(bytes@, start + i))),
        _ => None,
    }
}

/// A bitmap without nulls is dropped.
pub open spec fn settled_mask(mask: Option<Seq<bool>>) -> Option<Seq<bool>> {
    match mask {
        Some(bits) => if count_true(bits) == bits.len() {
            None
        } else {
            Some(bits)
        },
        None => None,
    }
}

/// Where a child's rows start and which are valid, or why they cannot be
/// read. The parent's offset applies to its children.
pub open spec fn geometry_spec(
    field: FieldModel,
    child: ArrowArray,
    root_offset: nat,
    rows: nat,
) -> Result<(int, Option<Seq<bool>>), Seq<char>> {
    if !child.live {
        Err("child array already released"@)
    } else if !size_ok(child.length) {
        Err("negative child length"@)
    } else if !size_ok(child.offset) {
        Err("negative child offset"@)
    } else if root_offset + rows > child.length {
        Err(
            "column '"@ + field.name + "': child length "@ + decimal(child.length as nat)
                + " < parent offset "@ + decimal(root_offset) + " + rows "@ + decimal(rows),
        )
    } else {
        let start = child.offset + root_offset;
        let mask = settled_mask(read_bits(child.buffers@[0], start, rows));
        if mask is Some && !field.nullable {
            Err("column '"@ + field.name + "' declared NOT NULL but has nulls"@)
        } else {
            Ok((start, mask))
        }
    }
}

/// `rows` elements from `start`.
pub open spec fn window<T>(data: Seq<T>, start: int, rows: nat) -> Seq<T> {
    if rows == 0 {
        Seq::empty()
    } else {
        data.subrange(start, start + rows)
    }
}

/// The floats of a buffer.
pub open spec fn floats_of(buffer: ArrowBuffer) -> Seq<Float64> {
    match buffer {
        ArrowBuffer::F64(data) => data@,
        _ => Seq::empty(),
    }
}

/// The integers of a buffer.
pub open spec fn integers_of(buffer: ArrowBuffer) -> Seq<i64> {
    match buffer {
        ArrowBuffer::I64(data) => data@,
        _ => Seq::empty(),
    }
}

/// The codes of a buffer.
pub open spec fn codes_of(buffer: ArrowBuffer) -> Seq<u32> {
    match buffer {
        ArrowBuffer::U32(data) => data@,
        _ => Seq::empty(),
    }
}

/// The offsets of a buffer.
pub open spec fn offsets_of(buffer: ArrowBuffer) -> Seq<i32> {
    match buffer {
        ArrowBuffer::Offsets(data) => data@,
        _ => Seq::empty(),
    }
}

/// The bytes of a buffer.
pub open spec fn bytes_of(buffer: ArrowBuffer) -> Seq<u8> {
    match buffer {
        ArrowBuffer::Bytes(data) => data@,
        _ => Seq::empty(),
    }
}

/// Why an array's data buffer cannot be read, if so.
pub open spec fn data_failure(child: ArrowArray, rows: nat) -> Option<Seq<char>> {
    if buffer_failure(child, 1, "data"@) is Some {
        buffer_failure(child, 1, "data"@)
    } else if child.buffers@[1] is Null && rows > 0 {
        Some("null data buffer"@)
    } else {
        None
    }
}

/// The first `n` values of a string array, or why one of them cannot be
/// taken over: offsets must not be negative or decrease, values must be
/// UTF-8 and distinct.
pub open spec fn words_spec(offsets: Seq<i32>, data: Seq<u8>, offset: int, n: nat) -> Result<
    Seq<Seq<char>>,
    Seq<char>,
>
    decreases n,
{
    if n == 0 {
        Ok(Seq::empty())
    } else {
        match words_spec(offsets, data, offset, (n - 1) as nat) {
            Err(error) => Err(error),
            Ok(words) => {
                let start = offsets[offset + n - 1];
                let end = offsets[offset + n];
                if start < 0 || end < 0 {
                    Err("negative utf8 offset"@)
                } else if end < start {
                    Err("utf8 offsets not monotone"@)
                } else if !valid_utf8(data.subrange(start as int, end as int)) {
                    Err("dictionary value is not UTF-8"@)
                } else if words.contains(decode_utf8(data.subrange(start as int, end as int))) {
                    Err("duplicate dictionary values are unsupported"@)
                } else {
                    Ok(words.push(decode_utf8(data.subrange(start as int, end as int))))
                }
            },
        }
    }
}

/// The values of a dictionary array, or why they cannot be taken over.
pub open spec fn dictionary_spec(values: ArrowArray) -> Result<Seq<Seq<char>>, Seq<char>> {
    if !values.live {
        Err("dictionary array already released"@)
    } else if !size_ok(values.length) {
        Err("negative dictionary length"@)
    } else if !size_ok(values.offset) {
        Err("negative dictionary offset"@)
    } else if values.null_count > 0 {
        Err("null dictionary values are unsupported"@)
    } else if buffer_failure(values, 1, "utf8 offsets"@) is Some {
        Err(buffer_failure(values, 1, "utf8 offsets"@)->0)
    } else if buffer_failure(values, 2, "utf8 data"@) is Some {
        Err(buffer_failure(values, 2, "utf8 data"@)->0)
    } else if values.length > 0 && (values.buffers@[1] is Null || values.buffers@[2] is Null) {
        Err("null utf8 buffer"@)
    } else {
        words_spec(
            offsets_of(values.buffers@[1]),
            bytes_of(values.buffers@[2]),
            values.offset as int,
            values.length as nat,
        )
    }
}

/// The first `n` codes made safe, or why one of them cannot be: a code under
/// a valid slot must have a value; one under a null slot is unspecified, so
/// a dangling one becomes the first.
pub open spec fn codes_spec(
    name: Seq<char>,
    codes: Seq<u32>,
    valid: Seq<bool>,
    values: nat,
    n: nat,
) -> Result<Seq<u32>, Seq<char>>
    decreases n,
{
    if n == 0 {
        Ok(Seq::empty())
    } else {
        match codes_spec(name, codes, valid, values, (n - 1) as nat) {
            Err(error) => Err(error),
            Ok(safe) => {
                let code = codes[n - 1];
                if code < values {
                    Ok(safe.push(code))
                } else if valid[n - 1] {
                    Err(
                        "key column '"@ + name + "': code "@ + decimal(code as nat)
                            + " out of dictionary range "@ + decimal(values),
                    )
                } else if values == 0 {
                    Err("key column '"@ + name + "': null rows but empty dictionary"@)
                } else {
                    Ok(safe.push(0u32))
                }
            },
        }
    }
}

/// What one child becomes, or why it cannot be imported.
pub open spec fn column_spec(
    field: FieldModel,
    child: ArrowArray,
    root_offset: nat,
    rows: nat,
) -> Result<ColumnModel, Seq<char>> {
    if buffer_failure(child, 0, "validity"@) is Some {
        Err(buffer_failure(child, 0, "validity"@)->0)
    } else {
        match geometry_spec(field, child, root_offset, rows) {
            Err(error) => Err(error),
            Ok((start, mask)) => if data_failure(child, rows) is Some {
                Err(data_failure(child, rows)->0)
            } else {
                let data = child.buffers@[1];
                match field.column_type {
                    ColumnType::F64 => Ok(
                        ColumnModel::F64 { floats: window(floats_of(data), start, rows), mask },
                    ),
                    ColumnType::I64 => Ok(
                        ColumnModel::I64 { integers: window(integers_of(data), start, rows), mask },
                    ),
                    ColumnType::Key => match child.dictionary {
                        None => Err(
                            "key column '"@ + field.name + "' has no dictionary array"@,
                        ),
                        Some(values) => match dictionary_spec(*values) {
                            Err(error) => Err(error),
                            Ok(words) => match codes_spec(
                                field.name,
                                window(codes_of(data), start, rows),
                                valid_bits(mask, rows),
                                words.len(),
                                rows,
                            ) {
                                Err(error) => Err(error),
                                Ok(codes) => Ok(ColumnModel::Key { codes, mask, words }),
                            },
                        },
                    },
                }
            },
        }
    }
}

/// What the first `n` children become, or the first failure.
pub open spec fn columns_spec(
    schema: Seq<FieldModel>,
    children: Seq<ArrowArray>,
    root_offset: nat,
    rows: nat,
    n: nat,
) -> Result<Seq<ColumnModel>, Seq<char>>
    decreases n,
{
    if n == 0 {
        Ok(Seq::empty())
    } else {
        match columns_spec(schema, children, root_offset, rows, (n - 1) as nat) {
            Err(error) => Err(error),
            Ok(columns) => match column_spec(schema[n - 1], children[n - 1], root_offset, rows) {
                Err(error) => Err(error),
                Ok(column) => Ok(columns.push(column)),
            },
        }
    }
}

/// The columns an array holds under a schema, or why it cannot be imported.
pub open spec fn array_spec(schema: Seq<FieldModel>, array: ArrowArray) -> Result<
    Seq<ColumnModel>,
    Seq<char>,
> {
    if !array.live {
        Err("array struct already released"@)
    } else if !size_ok(array.n_children) {
        Err("negative child count"@)
    } else if array.n_children != schema.len() {
        Err(
            "schema has "@ + decimal(schema.len()) + " fields but array has "@ + decimal(
                array.n_children as nat,
            ) + " children"@,
        )
    } else if !size_ok(array.length) {
        Err("negative length"@)
    } else if !size_ok(array.offset) {
        Err("negative offset"@)
    } else if array.null_count > 0 {
        Err("struct-level nulls are unsupported"@)
    } else {
        columns_spec(
            schema,
            array.children@,
            array.offset as nat,
            array.length as nat,
            schema.len(),
        )
    }
}

/// A dictionary array's buffers match its declared layout: as many as it
/// says, and while it is live one offset more than values, and bytes for
/// every value.
pub open spec fn dictionary_layout(values: ArrowArray) -> bool {
    let (offsets, data) = (offsets_of(values.buffers@[1]), bytes_of(values.buffers@[2]));
    let (offset, count) = (values.offset as int, values.length as int);
    &&& values.buffers@.len() == buffer_count(values)
    &&& values.live && size_ok(values.length) && size_ok(values.offset) && count > 0
        && values.buffers@.len() > 2 && values.buffers@[1] !is Null && values.buffers@[2]
        !is Null ==> {
        &&& values.buffers@[1] is Offsets
        &&& values.buffers@[2] is Bytes
        &&& offset + count < offsets.len()
        &&& forall|i: int|
            offset < i <= offset + count ==> 0 <= #[trigger] offsets[i] ==> offsets[i]
                <= data.len()
    }
}

/// A child's buffers match its declared layout: as many as it says, typed by
/// the field, and long enough for the rows.
pub open spec fn child_layout(
    field: FieldModel,
    child: ArrowArray,
    root_offset: nat,
    rows: nat,
) -> bool {
    let end = child.offset + root_offset + rows;
    &&& child.buffers@.len() == buffer_count(child)
    &&& child.live && size_ok(child.length) && size_ok(child.offset) && root_offset + rows
        <= child.length ==> {
        &&& child.buffers@.len() > 0 ==> match child.buffers@[0] {
            ArrowBuffer::Null => true,
            ArrowBuffer::Bits(bytes) => end <= 8 * bytes@.len(),
            _ => false,
        }
        &&& child.buffers@.len() > 1 && rows > 0 && !(child.buffers@[1] is Null) ==> match (
            field.column_type,
            child.buffers@[1],
        ) {
            (ColumnType::F64, ArrowBuffer::F64(data)) => end <= data@.len(),
            (ColumnType::I64, ArrowBuffer::I64(data)) => end <= data@.len(),
            (ColumnType::Key, ArrowBuffer::U32(data)) => end <= data@.len(),
            _ => false,
        }
        &&& field.column_type == ColumnType::Key ==> (child.dictionary matches Some(values)
            ==> dictionary_layout(*values))
    }
}

/// An array's children match their declared layout: the core contract of the
/// interface, which the consumer cannot check.
pub open spec fn array_layout(schema: Seq<FieldModel>, array: ArrowArray) -> bool {
    &&& array.live && size_ok(array.n_children) ==> array.children@.len() == array.n_children
    &&& array.live && size_ok(array.length) && size_ok(array.offset) && array.n_children
        == schema.len() ==> forall|i: int|
        0 <= i < schema.len() ==> child_layout(
            schema[i],
            #[trigger] array.children@[i],
            array.offset as nat,
            array.length as nat,
        )
}

/// A count or position from the interface.
fn as_size(n: i64) -> (size: Option<usize>)
    ensures
        match size {
            Some(s) => size_ok(n) && s == n,
            None => !size_ok(n),
        },
{
    if n < 0 || n as u64 > usize::MAX as u64 {
        None
    } else {
        Some(n as usize)
    }
}

/// Checks that an array has buffer `index`.
fn buffer_at(array: &ArrowArray, index: usize, what: &str) -> (found: Result<(), ImportError>)
    ensures
        match found {
            Ok(()) => buffer_failure(*array, index as nat, what@) is None,
            Err(error) => buffer_failure(*array, index as nat, what@) == Some(error@),
        },
{
    let n: usize = match as_size(array.n_buffers) {
        Some(n) => n,
        None => 0,
    };
    if index >= n {
        let mut text = String::from_str("expected ");
        text.append(what);
        text.append(" at buffer ");
        push_size(&mut text, index);
        text.append(", but array has ");
        push_size(&mut text, n);
        text.append(" buffers");
        return Err(ImportError::new(text.as_str()));
    }
    Ok(())
}

/// Reads bit `index` of a validity buffer.
fn validity_bit(bytes: &Vec<u8>, index: u128) -> (bit: bool)
    requires
        index < 8 * bytes@.len(),
    ensures
        bit == bit_at(bytes@, index as int),
{
    let count: usize = bytes.len();
    assert(index / 8 < count);
    let position: u8 = (index % 8) as u8;
    bytes[(index / 8) as usize] & (1u8 << position) != 0
}

/// Everything shared by the per-type importers.
struct ChildGeometry {
    /// Physical index of the first row to read.
    start: u64,
    /// Rebuilt bitmap, already offset-corrected; `None` for no nulls.
    validity: Option<Bitmap>,
}

/// Bounds-checked geometry and the validity bitmap of a child.
fn child_geometry(field: &Field, child: &ArrowArray, root_offset: usize, num_rows: usize) -> (found:
    Result<ChildGeometry, ImportError>)
    requires
        child_layout(field@, *child, root_offset as nat, num_rows as nat),
        child.buffers@.len() > 0,
    ensures
        match found {
            Ok(geometry) => geometry_spec(field@, *child, root_offset as nat, num_rows as nat)
                == Ok::<(int, Option<Seq<bool>>), Seq<char>>(
                (geometry.start as int, crate::buffer::mask_of(geometry.validity)),
            ),
            Err(error) => geometry_spec(field@, *child, root_offset as nat, num_rows as nat)
                == Err::<(int, Option<Seq<bool>>), Seq<char>>(error@),
        },
{
    if !child.live {
        return Err(ImportError::new("child array already released"));
    }
    let length: usize = match as_size(child.length) {
        Some(length) => length,
        None => {
            return Err(ImportError::new("negative child length"));
        },
    };
    let offset: usize = match as_size(child.offset) {
        Some(offset) => offset,
        None => {
            return Err(ImportError::new("negative child offset"));
        },
    };
    if root_offset > length || num_rows > length - root_offset {
        let mut text = String::from_str("column '");
        text.append(field.name());
        text.append("': child length ");
        push_size(&mut text, length);
        text.append(" < parent offset ");
        push_size(&mut text, root_offset);
        text.append(" + rows ");
        push_size(&mut text, num_rows);
        return Err(ImportError::new(text.as_str()));
    }
    let start: u64 = offset as u64 + root_offset as u64;
    let validity: Option<Bitmap> = match &child.buffers[0] {
        ArrowBuffer::Bits(bytes) => {
            let mut bools: Vec<bool> = Vec::new();
            let mut row: usize = 0;
            while row < num_rows
                invariant
                    row <= num_rows,
                    start + num_rows <= 8 * bytes@.len(),
                    bools@.len() == row,
                    forall|i: int|
                        0 <= i < row ==> #[trigger] bools@[i] == bit_at(bytes@, start + i),
                decreases num_rows - row,
            {
                bools.push(validity_bit(bytes, start as u128 + row as u128));
                row += 1;
            }
            let bitmap = Bitmap::from_bools(bools.as_slice());
            assert(bitmap@ =~= Seq::new(num_rows as nat, |i: int| bit_at(bytes@, start + i)));
            if bitmap.count_set() == num_rows {
                None
            } else {
                Some(bitmap)
            }
        },
        _ => None,
    };
    if validity.is_some() && !field.nullable() {
        let mut text = String::from_str("column '");
        text.append(field.name());
        text.append("' declared NOT NULL but has nulls");
        return Err(ImportError::new(text.as_str()));
    }
    Ok(ChildGeometry { start, validity })
}

/// Copies `rows` elements from `start`.
fn copy_window<T: Element>(data: &Buffer<T>, start: u64, rows: usize) -> (copy: Buffer<T>)
    requires
        rows > 0 ==> start + rows <= data@.len(),
    ensures
        copy@ == window(data@, start as int, rows as nat),
{
    if rows == 0 {
        return Buffer::new();
    }
    let slice: &[T] = data.as_slice();
    let len: usize = slice.len();
    assert(start + rows <= len);
    Buffer::from_slice(
        vstd::slice::slice_subrange(slice, start as usize, start as usize + rows),
    )
}

/// Checks that a child's data buffer can be read.
fn data_readable(child: &ArrowArray, rows: usize) -> (found: Result<(), ImportError>)
    requires
        child.buffers@.len() == buffer_count(*child),
    ensures
        match found {
            Ok(()) => data_failure(*child, rows as nat) is None,
            Err(error) => data_failure(*child, rows as nat) == Some(error@),
        },
{
    match buffer_at(child, 1, "data") {
        Ok(()) => {},
        Err(error) => {
            return Err(error);
        },
    }
    match &child.buffers[1] {
        ArrowBuffer::Null => {
            if rows > 0 {
                return Err(ImportError::new("null data buffer"));
            }
        },
        _ => {},
    }
    Ok(())
}

/// Encoding what bytes decode to gives the bytes back.
proof fn lemma_decoded_bytes(bytes: Seq<u8>)
    requires
        valid_utf8(bytes),
    ensures
        encode_utf8(decode_utf8(bytes)) == bytes,
{
    vstd::utf8::decode_utf8_encode_utf8(bytes);
}

/// A failure among the first values is the failure of all.
proof fn lemma_words_failure(offsets: Seq<i32>, data: Seq<u8>, offset: int, k: nat, n: nat)
    requires
        k <= n,
        words_spec(offsets, data, offset, k) is Err,
    ensures
        words_spec(offsets, data, offset, n) == words_spec(offsets, data, offset, k),
    decreases n - k,
{
    if k < n {
        lemma_words_failure(offsets, data, offset, k, (n - 1) as nat);
    }
}

/// A failure among the first codes is the failure of all.
proof fn lemma_codes_failure(
    name: Seq<char>,
    codes: Seq<u32>,
    valid: Seq<bool>,
    values: nat,
    k: nat,
    n: nat,
)
    requires
        k <= n,
        codes_spec(name, codes, valid, values, k) is Err,
    ensures
        codes_spec(name, codes, valid, values, n) == codes_spec(name, codes, valid, values, k),
    decreases n - k,
{
    if k < n {
        lemma_codes_failure(name, codes, valid, values, k, (n - 1) as nat);
    }
}

/// A failure among the first children is the failure of all.
proof fn lemma_columns_failure(
    schema: Seq<FieldModel>,
    children: Seq<ArrowArray>,
    root_offset: nat,
    rows: nat,
    k: nat,
    n: nat,
)
    requires
        k <= n,
        columns_spec(schema, children, root_offset, rows, k) is Err,
    ensures
        columns_spec(schema, children, root_offset, rows, n) == columns_spec(
            schema,
            children,
            root_offset,
            rows,
            k,
        ),
    decreases n - k,
{
    if k < n {
        lemma_columns_failure(schema, children, root_offset, rows, k, (n - 1) as nat);
    }
}

/// Rebuilds a [`Dictionary`] from a foreign string array.
fn import_dictionary_values(values: &ArrowArray) -> (imported: Result<Dictionary, ImportError>)
    requires
        dictionary_layout(*values),
    ensures
        match imported {
            Ok(dictionary) => dictionary_spec(*values) == Ok::<Seq<Seq<char>>, Seq<char>>(
                dictionary@,
            ),
            Err(error) => dictionary_spec(*values) == Err::<Seq<Seq<char>>, Seq<char>>(error@),
        },
{
    if !values.live {
        return Err(ImportError::new("dictionary array already released"));
    }
    let count: usize = match as_size(values.length) {
        Some(count) => count,
        None => {
            return Err(ImportError::new("negative dictionary length"));
        },
    };
    let offset: usize = match as_size(values.offset) {
        Some(offset) => offset,
        None => {
            return Err(ImportError::new("negative dictionary offset"));
        },
    };
    if values.null_count > 0 {
        return Err(ImportError::new("null dictionary values are unsupported"));
    }
    match buffer_at(values, 1, "utf8 offsets") {
        Ok(()) => {},
        Err(error) => {
            return Err(error);
        },
    }
    match buffer_at(values, 2, "utf8 data") {
        Ok(()) => {},
        Err(error) => {
            return Err(error);
        },
    }
    if count == 0 {
        return Ok(Dictionary::new());
    }
    match (&values.buffers[1], &values.buffers[2]) {
        (ArrowBuffer::Offsets(offsets), ArrowBuffer::Bytes(data)) => {
            import_words(offsets, data, offset, count)
        },
        _ => Err(ImportError::new("null utf8 buffer")),
    }
}

/// Interns `count` values of a string array, from position `offset` on.
fn import_words(offsets: &Vec<i32>, data: &Vec<u8>, offset: usize, count: usize) -> (imported:
    Result<Dictionary, ImportError>)
    requires
        offset + count < offsets@.len(),
        forall|i: int|
            offset < i <= offset + count ==> 0 <= #[trigger] offsets@[i] ==> offsets@[i]
                <= data@.len(),
    ensures
        match imported {
            Ok(dictionary) => words_spec(offsets@, data@, offset as int, count as nat) == Ok::<
                Seq<Seq<char>>,
                Seq<char>,
            >(dictionary@),
            Err(error) => words_spec(offsets@, data@, offset as int, count as nat) == Err::<
                Seq<Seq<char>>,
                Seq<char>,
            >(error@),
        },
{
    let mut dictionary = Dictionary::new();
    let mut index: usize = 0;
    let total: usize = offsets.len();
    while index < count
        invariant
            index <= count,
            total == offsets@.len(),
            offset + count < total,
            forall|i: int|
                offset < i <= offset + count ==> 0 <= #[trigger] offsets@[i] ==> offsets@[i]
                    <= data@.len(),
            words_spec(offsets@, data@, offset as int, index as nat) == Ok::<
                Seq<Seq<char>>,
                Seq<char>,
            >(dictionary@),
            index > 0 ==> 0 <= offsets@[offset as int],
            index > 0 ==> encoded(dictionary@).len() == offsets@[offset + index]
                - offsets@[offset as int],
            index == 0 ==> dictionary@.len() == 0,
            dictionary@.len() == index,
        decreases count - index,
    {
        let start: i32 = offsets[offset + index];
        let end: i32 = offsets[offset + index + 1];
        let ghost words = dictionary@;
        let ghost k = (index + 1) as nat;
        if start < 0 || end < 0 {
            proof {
                lemma_words_failure(offsets@, data@, offset as int, k, count as nat);
            }
            return Err(ImportError::new("negative utf8 offset"));
        }
        if end < start {
            proof {
                lemma_words_failure(offsets@, data@, offset as int, k, count as nat);
            }
            return Err(ImportError::new("utf8 offsets not monotone"));
        }
        assert(offsets@[offset + index + 1] == end);
        let bytes: &[u8] = vstd::slice::slice_subrange(
            data.as_slice(),
            start as usize,
            end as usize,
        );
        let value: &str = match text_of(bytes) {
            Some(value) => value,
            None => {
                proof {
                    lemma_words_failure(offsets@, data@, offset as int, k, count as nat);
                }
                return Err(ImportError::new("dictionary value is not UTF-8"));
            },
        };
        proof {
            lemma_decoded_bytes(bytes@);
            assert(encode_utf8(value@).len() == end - start);
            if index == 0 {
                assert(words =~= Seq::<Seq<char>>::empty());
                assert(encoded(words).len() == 0);
            }
        }
        if dictionary.code_of(value).is_some() {
            proof {
                lemma_words_failure(offsets@, data@, offset as int, k, count as nat);
            }
            return Err(ImportError::new("duplicate dictionary values are unsupported"));
        }
        dictionary.intern(value);
        proof {
            assert(dictionary@ == words.push(value@));
            assert(words.push(value@).drop_last() =~= words);
        }
        index += 1;
    }
    Ok(dictionary)
}

/// Imports a key column: codes, validity and dictionary.
fn import_key_column(
    field: &Field,
    child: &ArrowArray,
    root_offset: usize,
    num_rows: usize,
) -> (imported: Result<KeyColumn, ImportError>)
    requires
        field@.column_type == ColumnType::Key,
        buffer_failure(*child, 0, "validity"@) is None,
        child_layout(field@, *child, root_offset as nat, num_rows as nat),
    ensures
        match imported {
            Ok(column) => column_spec(field@, *child, root_offset as nat, num_rows as nat) == Ok::<
                ColumnModel,
                Seq<char>,
            >(
                ColumnModel::Key {
                    codes: column.data(),
                    mask: column.mask(),
                    words: column.words(),
                },
            ),
            Err(error) => column_spec(field@, *child, root_offset as nat, num_rows as nat) == Err::<
                ColumnModel,
                Seq<char>,
            >(error@),
        },
{
    let geometry: ChildGeometry = match child_geometry(field, child, root_offset, num_rows) {
        Ok(geometry) => geometry,
        Err(error) => {
            return Err(error);
        },
    };
    match data_readable(child, num_rows) {
        Ok(()) => {},
        Err(error) => {
            return Err(error);
        },
    }
    let codes: Buffer<u32> = match &child.buffers[1] {
        ArrowBuffer::U32(data) => copy_window(data, geometry.start, num_rows),
        _ => Buffer::new(),
    };
    assert(codes@ =~= window(codes_of(child.buffers@[1]), geometry.start as int, num_rows as nat));
    let dictionary: Dictionary = match &child.dictionary {
        Some(values) => match import_dictionary_values(values) {
            Ok(dictionary) => dictionary,
            Err(error) => {
                return Err(error);
            },
        },
        None => {
            let mut text = String::from_str("key column '");
            text.append(field.name());
            text.append("' has no dictionary array");
            return Err(ImportError::new(text.as_str()));
        },
    };
    let safe: Vec<u32> = match safe_codes(field, codes.as_slice(), &geometry.validity, &dictionary) {
        Ok(safe) => safe,
        Err(error) => {
            return Err(error);
        },
    };
    let buffer: Buffer<u32> = Buffer::from_vec(safe);
    Ok(
        match geometry.validity {
            Some(bitmap) => KeyColumn::new_nullable(buffer, bitmap, dictionary),
            None => KeyColumn::new_non_null(buffer, dictionary),
        },
    )
}

/// Checks every code under a valid slot, and replaces dangling codes under
/// null slots.
fn safe_codes(
    field: &Field,
    codes: &[u32],
    validity: &Option<Bitmap>,
    dictionary: &Dictionary,
) -> (safe: Result<Vec<u32>, ImportError>)
    requires
        crate::buffer::mask_of(*validity) matches Some(bits) ==> bits.len() == codes@.len(),
    ensures
        match safe {
            Ok(done) => codes_spec(
                field@.name,
                codes@,
                valid_bits(crate::buffer::mask_of(*validity), codes@.len()),
                dictionary@.len(),
                codes@.len(),
            ) == Ok::<Seq<u32>, Seq<char>>(done@) && done@.len() == codes@.len() && codes_in_range(
                done@,
                dictionary@.len(),
            ),
            Err(error) => codes_spec(
                field@.name,
                codes@,
                valid_bits(crate::buffer::mask_of(*validity), codes@.len()),
                dictionary@.len(),
                codes@.len(),
            ) == Err::<Seq<u32>, Seq<char>>(error@),
        },
{
    let ghost name = field@.name;
    let ghost valid = valid_bits(crate::buffer::mask_of(*validity), codes@.len());
    let mut safe: Vec<u32> = Vec::new();
    let len: usize = dictionary.len();
    let mut row: usize = 0;
    while row < codes.len()
        invariant
            row <= codes@.len(),
            len == dictionary@.len(),
            name == field@.name,
            valid == valid_bits(crate::buffer::mask_of(*validity), codes@.len()),
            crate::buffer::mask_of(*validity) matches Some(bits) ==> bits.len() == codes@.len(),
            safe@.len() == row,
            codes_in_range(safe@, len as nat),
            codes_spec(name, codes@, valid, len as nat, row as nat) == Ok::<Seq<u32>, Seq<char>>(
                safe@,
            ),
        decreases codes@.len() - row,
    {
        let code: u32 = codes[row];
        let is_valid: bool = match validity {
            Some(bitmap) => bitmap.get(row),
            None => true,
        };
        if code as usize >= len {
            if is_valid {
                let mut text = String::from_str("key column '");
                text.append(field.name());
                text.append("': code ");
                push_size(&mut text, code as usize);
                text.append(" out of dictionary range ");
                push_size(&mut text, len);
                proof {
                    lemma_codes_failure(
                        name,
                        codes@,
                        valid,
                        len as nat,
                        (row + 1) as nat,
                        codes@.len(),
                    );
                }
                return Err(ImportError::new(text.as_str()));
            }
            if len == 0 {
                let mut text = String::from_str("key column '");
                text.append(field.name());
                text.append("': null rows but empty dictionary");
                proof {
                    lemma_codes_failure(
                        name,
                        codes@,
                        valid,
                        len as nat,
                        (row + 1) as nat,
                        codes@.len(),
                    );
                }
                return Err(ImportError::new(text.as_str()));
            }
            safe.push(0);
        } else {
            safe.push(code);
        }
        row += 1;
    }
    Ok(safe)
}

/// Imports one child as a column.
fn import_column(field: &Field, child: &ArrowArray, root_offset: usize, num_rows: usize) -> (imported:
    Result<Column, ImportError>)
    requires
        child_layout(field@, *child, root_offset as nat, num_rows as nat),
    ensures
        match imported {
            Ok(column) => column_spec(field@, *child, root_offset as nat, num_rows as nat) == Ok::<
                ColumnModel,
                Seq<char>,
            >(column@),
            Err(error) => column_spec(field@, *child, root_offset as nat, num_rows as nat) == Err::<
                ColumnModel,
                Seq<char>,
            >(error@),
        },
{
    match buffer_at(child, 0, "validity") {
        Ok(()) => {},
        Err(error) => {
            return Err(error);
        },
    }
    match field.column_type() {
        ColumnType::Key => match import_key_column(field, child, root_offset, num_rows) {
            Ok(column) => Ok(Column::Key(column)),
            Err(error) => Err(error),
        },
        ColumnType::F64 => {
            let geometry: ChildGeometry = match child_geometry(
                field,
                child,
                root_offset,
                num_rows,
            ) {
                Ok(geometry) => geometry,
                Err(error) => {
                    return Err(error);
                },
            };
            match data_readable(child, num_rows) {
                Ok(()) => {},
                Err(error) => {
                    return Err(error);
                },
            }
            let values: Buffer<Float64> = match &child.buffers[1] {
                ArrowBuffer::F64(data) => copy_window(data, geometry.start, num_rows),
                _ => Buffer::new(),
            };
            assert(values@ =~= window(
                floats_of(child.buffers@[1]),
                geometry.start as int,
                num_rows as nat,
            ));
            Ok(Column::Numeric(NumericData::F64(make_numeric(values, geometry))))
        },
        ColumnType::I64 => {
            let geometry: ChildGeometry = match child_geometry(
                field,
                child,
                root_offset,
                num_rows,
            ) {
                Ok(geometry) => geometry,
                Err(error) => {
                    return Err(error);
                },
            };
            match data_readable(child, num_rows) {
                Ok(()) => {},
                Err(error) => {
                    return Err(error);
                },
            }
            let values: Buffer<i64> = match &child.buffers[1] {
                ArrowBuffer::I64(data) => copy_window(data, geometry.start, num_rows),
                _ => Buffer::new(),
            };
            assert(values@ =~= window(
                integers_of(child.buffers@[1]),
                geometry.start as int,
                num_rows as nat,
            ));
            Ok(Column::Numeric(NumericData::I64(make_numeric(values, geometry))))
        },
    }
}

/// A column of values, nullable where there are nulls.
fn make_numeric<T: Element>(values: Buffer<T>, geometry: ChildGeometry) -> (column: NumericColumn<
    T,
>)
    requires
        geometry.validity matches Some(bitmap) ==> bitmap@.len() == values@.len(),
    ensures
        column.data() == values@,
        column.mask() == crate::buffer::mask_of(geometry.validity),
{
    match geometry.validity {
        Some(bitmap) => NumericColumn::new_nullable(values, bitmap),
        None => NumericColumn::new_non_null(values),
    }
}

/// What a child becomes fits its field: the type, the rows, and validity
/// only where nulls are allowed.
proof fn lemma_column_fits(field: FieldModel, child: ArrowArray, root_offset: nat, rows: nat)
    requires
        child_layout(field, child, root_offset, rows),
        column_spec(field, child, root_offset, rows) is Ok,
    ensures
        ({
            let column = column_spec(field, child, root_offset, rows)->Ok_0;
            &&& column.kind() == field.column_type
            &&& column.rows() == rows
            &&& column.mask() is Some ==> field.nullable
        }),
{
    if field.column_type == ColumnType::Key {
        let (start, mask) = geometry_spec(field, child, root_offset, rows)->Ok_0;
        let words = dictionary_spec(*child.dictionary->0)->Ok_0;
        let codes = window(codes_of(child.buffers@[1]), start, rows);
        lemma_codes_length(field.name, codes, valid_bits(mask, rows), words.len(), rows);
    }
}

/// There are as many safe codes as codes.
proof fn lemma_codes_length(
    name: Seq<char>,
    codes: Seq<u32>,
    valid: Seq<bool>,
    values: nat,
    n: nat,
)
    ensures
        codes_spec(name, codes, valid, values, n) matches Ok(safe) ==> safe.len() == n,
    decreases n,
{
    if n > 0 {
        lemma_codes_length(name, codes, valid, values, (n - 1) as nat);
    }
}

/// Imports a foreign array against an already-parsed schema, borrowing only.
fn import_array_inner(schema: &Schema, array: &ArrowArray) -> (imported: Result<
    RecordBatch,
    ImportError,
>)
    requires
        array_layout(schema@, *array),
    ensures
        match imported {
            Ok(batch) => batch@.schema == schema@ && array_spec(schema@, *array) == Ok::<
                Seq<ColumnModel>,
                Seq<char>,
            >(batch@.columns),
            Err(error) => array_spec(schema@, *array) == Err::<Seq<ColumnModel>, Seq<char>>(
                error@,
            ),
        },
{
    if !array.live {
        return Err(ImportError::new("array struct already released"));
    }
    let n: usize = match as_size(array.n_children) {
        Some(n) => n,
        None => {
            return Err(ImportError::new("negative child count"));
        },
    };
    let fields: &[Field] = schema.fields();
    if n != fields.len() {
        let mut text = String::from_str("schema has ");
        push_size(&mut text, fields.len());
        text.append(" fields but array has ");
        push_size(&mut text, n);
        text.append(" children");
        return Err(ImportError::new(text.as_str()));
    }
    let num_rows: usize = match as_size(array.length) {
        Some(num_rows) => num_rows,
        None => {
            return Err(ImportError::new("negative length"));
        },
    };
    let root_offset: usize = match as_size(array.offset) {
        Some(root_offset) => root_offset,
        None => {
            return Err(ImportError::new("negative offset"));
        },
    };
    if array.null_count > 0 {
        return Err(ImportError::new("struct-level nulls are unsupported"));
    }
    let mut columns: Vec<Column> = Vec::new();
    let mut index: usize = 0;
    let ghost rows = num_rows as nat;
    assert(column_models(columns@) =~= Seq::<ColumnModel>::empty());
    while index < n
        invariant
            index <= n,
            n == fields@.len(),
            n == array.children@.len(),
            n == schema@.len(),
            rows == num_rows,
            field_models(fields@) == schema@,
            forall|i: int|
                0 <= i < schema@.len() ==> child_layout(
                    schema@[i],
                    #[trigger] array.children@[i],
                    root_offset as nat,
                    rows,
                ),
            array_spec(schema@, *array) == columns_spec(
                schema@,
                array.children@,
                root_offset as nat,
                rows,
                n as nat,
            ),
            columns_spec(schema@, array.children@, root_offset as nat, rows, index as nat) == Ok::<
                Seq<ColumnModel>,
                Seq<char>,
            >(column_models(columns@)),
            columns@.len() == index,
            forall|i: int|
                0 <= i < index ==> {
                    &&& (#[trigger] column_models(columns@)[i]).kind() == schema@[i].column_type
                    &&& column_models(columns@)[i].rows() == rows
                    &&& column_models(columns@)[i].mask() is Some ==> schema@[i].nullable
                },
        decreases n - index,
    {
        assert(schema@[index as int] == fields@[index as int]@);
        let ghost before = column_models(columns@);
        match import_column(&fields[index], &array.children[index], root_offset, num_rows) {
            Ok(column) => {
                proof {
                    lemma_column_fits(
                        schema@[index as int],
                        array.children@[index as int],
                        root_offset as nat,
                        rows,
                    );
                }
                columns.push(column);
                assert(column_models(columns@) =~= before.push(column@));
            },
            Err(error) => {
                proof {
                    lemma_columns_failure(
                        schema@,
                        array.children@,
                        root_offset as nat,
                        rows,
                        (index + 1) as nat,
                        n as nat,
                    );
                }
                return Err(error);
            },
        }
        index += 1;
    }
    Ok(RecordBatch::new(schema.clone(), columns))
}

/// Imports a foreign array against an already-parsed schema, copying, and
/// consumes the struct.
pub fn import_array(schema: &Schema, array: ArrowArray) -> (imported: Result<
    RecordBatch,
    ImportError,
>)
    requires
        array_layout(schema@, array),
    ensures
        match imported {
            Ok(batch) => batch@.schema == schema@ && array_spec(schema@, array) == Ok::<
                Seq<ColumnModel>,
                Seq<char>,
            >(batch@.columns),
            Err(error) => array_spec(schema@, array) == Err::<Seq<ColumnModel>, Seq<char>>(error@),
        },
{
    import_array_inner(schema, &array)
}

/// The batch a schema and an array stand for, or why there is none.
pub open spec fn batch_spec(schema: ArrowSchema, array: ArrowArray) -> Result<
    BatchModel,
    Seq<char>,
> {
    match schema_spec(schema) {
        Err(error) => Err(error),
        Ok(fields) => match array_spec(fields, array) {
            Err(error) => Err(error),
            Ok(columns) => Ok(BatchModel { schema: fields, columns }),
        },
    }
}

/// Imports a foreign (schema, array) pair into an owned [`RecordBatch`],
/// copying every buffer, and consumes both structs.
pub fn import_batch(schema: ArrowSchema, array: ArrowArray) -> (imported: Result<
    RecordBatch,
    ImportError,
>)
    requires
        schema_layout(schema),
        schema_spec(schema) matches Ok(fields) ==> array_layout(fields, array),
    ensures
        match imported {
            Ok(batch) => batch_spec(schema, array) == Ok::<BatchModel, Seq<char>>(batch@),
            Err(error) => batch_spec(schema, array) == Err::<BatchModel, Seq<char>>(error@),
        },
{
    match parse_schema(&schema) {
        Ok(parsed) => import_array(&parsed, array),
        Err(error) => Err(error),
    }
}

/// The bitmap's buffer, or none.
pub open spec fn describes_mask(buffer: ArrowBuffer, mask: Option<Seq<bool>>) -> bool {
    match mask {
        None => buffer is Null,
        Some(bits) => buffer matches ArrowBuffer::Bits(bytes) && packs(bytes@, bits),
    }
}

/// A node of its own: live, at offset zero, with its buffers and no children.
pub open spec fn is_node(node: ArrowArray, length: nat, null_count: int, buffers: nat) -> bool {
    &&& node.live
    &&& node.length == length
    &&& node.null_count == null_count
    &&& node.offset == 0
    &&& node.n_buffers == buffers
    &&& node.buffers@.len() == buffers
    &&& node.n_children == 0
    &&& node.children@.len() == 0
}

/// The string array of a dictionary: no validity (values are never null),
/// offsets, bytes.
pub open spec fn describes_words(node: ArrowArray, words: Seq<Seq<char>>) -> bool {
    &&& is_node(node, words.len(), 0, 3)
    &&& node.buffers@[0] is Null
    &&& node.buffers@[1] is Offsets
    &&& node.buffers@[2] is Bytes
    &&& utf8_layout(offsets_of(node.buffers@[1]), bytes_of(node.buffers@[2]), words)
    &&& node.dictionary is None
}

/// The node of one column: validity, then the values or codes, and for a key
/// column its dictionary beside them.
pub open spec fn describes_column(node: ArrowArray, column: ColumnModel) -> bool {
    &&& is_node(node, column.rows(), nulls(column.mask(), column.rows()), 2)
    &&& describes_mask(node.buffers@[0], column.mask())
    &&& match column {
        ColumnModel::F64 { floats, .. } => node.buffers@[1] is F64 && floats_of(node.buffers@[1])
            == floats && node.dictionary is None,
        ColumnModel::I64 { integers, .. } => node.buffers@[1] is I64 && integers_of(
            node.buffers@[1],
        ) == integers && node.dictionary is None,
        ColumnModel::Key { codes, words, .. } => node.buffers@[1] is U32 && codes_of(
            node.buffers@[1],
        ) == codes && (node.dictionary matches Some(values) && describes_words(*values, words)),
    }
}

/// The array of a batch: a struct-typed root with a child per column.
pub open spec fn describes_array(node: ArrowArray, columns: Seq<ColumnModel>) -> bool {
    &&& node.live
    &&& node.length == batch_rows(columns)
    &&& node.null_count == 0
    &&& node.offset == 0
    &&& node.n_buffers == 1
    &&& node.buffers@.len() == 1
    &&& node.buffers@[0] is Null
    &&& node.n_children == columns.len()
    &&& node.children@.len() == columns.len()
    &&& node.dictionary is None
    &&& forall|i: int|
        0 <= i < columns.len() ==> describes_column(#[trigger] node.children@[i], columns[i])
}

/// The counts of a batch fit the interface's.
pub open spec fn counts_exportable(columns: Seq<ColumnModel>) -> bool {
    columns.len() <= i64::MAX && batch_rows(columns) <= i64::MAX
}

impl ArrowArray {
    /// A blank struct, for out-parameters and end-of-stream markers.
    pub fn empty() -> (array: Self)
        ensures
            array.length == 0,
            array.null_count == 0,
            array.offset == 0,
            array.n_buffers == 0,
            array.n_children == 0,
            array.buffers@.len() == 0,
            array.children@.len() == 0,
            array.dictionary is None,
            !array.live,
    {
        ArrowArray {
            length: 0,
            null_count: 0,
            offset: 0,
            n_buffers: 0,
            n_children: 0,
            buffers: Vec::new(),
            children: Vec::new(),
            dictionary: None,
            live: false,
        }
    }

    /// Releases the struct: what it owns is gone, children and all, and it is
    /// no longer live. A second call changes nothing.
    pub fn release(&mut self)
        ensures
            !final(self).live,
            !old(self).live ==> *final(self) == *old(self),
            old(self).live ==> {
                &&& final(self).length == old(self).length
                &&& final(self).null_count == old(self).null_count
                &&& final(self).offset == old(self).offset
                &&& final(self).n_buffers == old(self).n_buffers
                &&& final(self).n_children == old(self).n_children
                &&& final(self).buffers@.len() == 0
                &&& final(self).children@.len() == 0
                &&& final(self).dictionary is None
            },
    {
        if !self.live {
            return ;
        }
        self.buffers = Vec::new();
        self.children = Vec::new();
        self.dictionary = None;
        self.live = false;
    }
}

/// Builds one exported array node.
fn new_array_node(
    length: usize,
    null_count: usize,
    buffers: Vec<ArrowBuffer>,
    children: Vec<ArrowArray>,
    dictionary: Option<Box<ArrowArray>>,
) -> (node: ArrowArray)
    requires
        length <= i64::MAX,
        null_count <= i64::MAX,
        buffers@.len() <= i64::MAX,
        children@.len() <= i64::MAX,
    ensures
        node.live,
        node.length == length,
        node.null_count == null_count,
        node.offset == 0,
        node.n_buffers == buffers@.len(),
        node.n_children == children@.len(),
        node.buffers == buffers,
        node.children == children,
        node.dictionary == dictionary,
{
    ArrowArray {
        length: length as i64,
        null_count: null_count as i64,
        offset: 0,
        n_buffers: buffers.len() as i64,
        n_children: children.len() as i64,
        buffers,
        children,
        dictionary,
        live: true,
    }
}

/// The validity buffer for an optional bitmap: null when absent.
fn validity_buffer(validity: Option<&Bitmap>) -> (buffer: ArrowBuffer)
    ensures
        describes_mask(
            buffer,
            match validity {
                Some(bitmap) => Some(bitmap@),
                None => None,
            },
        ),
{
    match validity {
        Some(bitmap) => ArrowBuffer::Bits(bitmap.shared_bytes()),
        None => ArrowBuffer::Null,
    }
}

/// Builds the exported node for one column.
fn column_node(column: &Column) -> (node: ArrowArray)
    requires
        column@.rows() <= i64::MAX,
    ensures
        describes_column(node, column@),
{
    let rows: usize = column.len();
    let null_count: usize = column.null_count();
    proof {
        crate::buffer::lemma_nulls_partition(column@.mask(), column@.rows());
    }
    match column {
        Column::Numeric(NumericData::F64(values)) => {
            let buffers: Vec<ArrowBuffer> = vec![
                validity_buffer(values.validity()),
                ArrowBuffer::F64(values.values().clone()),
            ];
            new_array_node(rows, null_count, buffers, Vec::new(), None)
        },
        Column::Numeric(NumericData::I64(values)) => {
            let buffers: Vec<ArrowBuffer> = vec![
                validity_buffer(values.validity()),
                ArrowBuffer::I64(values.values().clone()),
            ];
            new_array_node(rows, null_count, buffers, Vec::new(), None)
        },
        Column::Key(key) => key_node(key, rows, null_count),
    }
}

/// The exported node of a key column, its dictionary with it.
fn key_node(column: &KeyColumn, rows: usize, null_count: usize) -> (node: ArrowArray)
    requires
        rows <= i64::MAX,
        null_count <= rows,
        rows == column.data().len(),
        null_count == nulls(column.mask(), column.data().len()),
    ensures
        describes_column(
            node,
            ColumnModel::Key { codes: column.data(), mask: column.mask(), words: column.words() },
        ),
{
    let dictionary: &Dictionary = column.dictionary();
    let len: usize = dictionary.len();
    proof {
        crate::key::lemma_distinct_bound(dictionary@);
    }
    let strings: Vec<ArrowBuffer> = vec![
        ArrowBuffer::Null,
        ArrowBuffer::Offsets(dictionary.shared_offsets()),
        ArrowBuffer::Bytes(dictionary.shared_bytes()),
    ];
    let words: ArrowArray = new_array_node(len, 0, strings, Vec::new(), None);
    let buffers: Vec<ArrowBuffer> = vec![
        validity_buffer(column.validity()),
        ArrowBuffer::U32(column.codes().clone()),
    ];
    new_array_node(rows, null_count, buffers, Vec::new(), Some(Box::new(words)))
}

/// Exports a batch's data as a struct-typed root. Nothing is copied: every
/// buffer, validity and dictionary strings too, is shared with the batch.
pub fn export_array(batch: &RecordBatch) -> (node: ArrowArray)
    requires
        counts_exportable(batch@.columns),
    ensures
        describes_array(node, batch@.columns),
{
    let num_rows: usize = batch.num_rows();
    let columns: &[Column] = batch.columns();
    let mut children: Vec<ArrowArray> = Vec::new();
    let mut index: usize = 0;
    while index < columns.len()
        invariant
            index <= columns@.len(),
            column_models(columns@) == batch@.columns,
            batch@.consistent(),
            counts_exportable(batch@.columns),
            children@.len() == index,
            forall|i: int|
                0 <= i < index ==> describes_column(#[trigger] children@[i], batch@.columns[i]),
        decreases columns@.len() - index,
    {
        assert(batch@.columns[index as int] == columns@[index as int]@);
        children.push(column_node(&columns[index]));
        index += 1;
    }
    let buffers: Vec<ArrowBuffer> = vec![ArrowBuffer::Null];
    new_array_node(num_rows, 0, buffers, children, None)
}

/// Exports a batch as the (schema, array) struct pair that consumers expect.
pub fn export_batch(batch: &RecordBatch) -> (exported: (ArrowSchema, ArrowArray))
    requires
        schema_exportable(batch@.schema),
        counts_exportable(batch@.columns),
    ensures
        describes_schema(exported.0, batch@.schema),
        describes_array(exported.1, batch@.columns),
{
    (export_schema(batch.schema()), export_array(batch))
}

/// A column as it comes back: an all-set bitmap is dropped, all else stays.
pub open spec fn settled(column: ColumnModel) -> ColumnModel {
    match column {
        ColumnModel::F64 { floats, mask } => ColumnModel::F64 { floats, mask: settled_mask(mask) },
        ColumnModel::I64 { integers, mask } => ColumnModel::I64 {
            integers,
            mask: settled_mask(mask),
        },
        ColumnModel::Key { codes, mask, words } => ColumnModel::Key {
            codes,
            mask: settled_mask(mask),
            words,
        },
    }
}

/// A batch as it comes back.
pub open spec fn settled_batch(batch: BatchModel) -> BatchModel {
    BatchModel {
        schema: batch.schema,
        columns: batch.columns.map_values(|column: ColumnModel| settled(column)),
    }
}

/// A dictionary's string array reads back as its values.
proof fn lemma_words_round_trip(offsets: Seq<i32>, data: Seq<u8>, words: Seq<Seq<char>>, n: nat)
    requires
        utf8_layout(offsets, data, words),
        dictionary_valid(words),
        n <= words.len(),
    ensures
        words_spec(offsets, data, 0, n) == Ok::<Seq<Seq<char>>, Seq<char>>(words.take(n as int)),
    decreases n,
{
    if n == 0 {
        assert(words.take(0) =~= Seq::<Seq<char>>::empty());
    } else {
        let k = n - 1;
        lemma_words_round_trip(offsets, data, words, k as nat);
        crate::key::lemma_value_bytes(words, k);
        assert(offsets[k] == encoded(words.take(k)).len());
        assert(offsets[k + 1] == encoded(words.take(k + 1)).len());
        vstd::utf8::encode_utf8_valid_utf8(words[k]);
        vstd::utf8::encode_utf8_decode_utf8(words[k]);
        if words.take(k).contains(words[k]) {
            let j = choose|j: int| 0 <= j < k && words.take(k)[j] == words[k];
            assert(words[j] == words[k]);
        }
        assert(words.take(n as int) =~= words.take(k).push(words[k]));
    }
}

/// Codes in range come back unchanged.
proof fn lemma_codes_round_trip(
    name: Seq<char>,
    codes: Seq<u32>,
    valid: Seq<bool>,
    values: nat,
    n: nat,
)
    requires
        codes_in_range(codes, values),
        n <= codes.len(),
    ensures
        codes_spec(name, codes, valid, values, n) == Ok::<Seq<u32>, Seq<char>>(
            codes.take(n as int),
        ),
    decreases n,
{
    if n == 0 {
        assert(codes.take(0) =~= Seq::<u32>::empty());
    } else {
        lemma_codes_round_trip(name, codes, valid, values, (n - 1) as nat);
        assert(codes.take(n as int) =~= codes.take(n - 1).push(codes[n - 1]));
    }
}

/// A dictionary's node keeps the interface's layout and reads back.
proof fn lemma_dictionary_round_trip(node: ArrowArray, words: Seq<Seq<char>>)
    requires
        describes_words(node, words),
        dictionary_valid(words),
    ensures
        dictionary_layout(node),
        dictionary_spec(node) == Ok::<Seq<Seq<char>>, Seq<char>>(words),
{
    let offsets = offsets_of(node.buffers@[1]);
    let data = bytes_of(node.buffers@[2]);
    crate::key::lemma_distinct_bound(words);
    lemma_words_round_trip(offsets, data, words, words.len());
    assert(words.take(words.len() as int) =~= words);
    assert forall|i: int| 0 < i <= words.len() implies 0 <= #[trigger] offsets[i]
        && offsets[i] <= data.len() by {
        crate::key::lemma_offsets_monotone(words, i, words.len() as int);
        assert(offsets[i] == encoded(words.take(i)).len());
    }
}

/// A column's node keeps the interface's layout, and reads back as the
/// column, but for an all-set bitmap, which is dropped.
pub proof fn lemma_column_round_trip(field: FieldModel, node: ArrowArray, column: ColumnModel)
    requires
        describes_column(node, column),
        column.consistent(),
        column.kind() == field.column_type,
        column.mask() is Some ==> field.nullable,
        column.rows() <= usize::MAX,
    ensures
        child_layout(field, node, 0, column.rows()),
        column_spec(field, node, 0, column.rows()) == Ok::<ColumnModel, Seq<char>>(
            settled(column),
        ),
{
    let rows = column.rows();
    let mask = column.mask();
    match mask {
        Some(bits) => {
            let bytes = node.buffers@[0]->Bits_0@;
            assert(Seq::new(rows, |i: int| bit_at(bytes, 0 + i)) =~= bits);
        },
        None => {},
    }
    assert(read_bits(node.buffers@[0], 0, rows) == mask);
    match column {
        ColumnModel::F64 { floats, .. } => {
            assert(window(floats_of(node.buffers@[1]), 0, rows) =~= floats);
        },
        ColumnModel::I64 { integers, .. } => {
            assert(window(integers_of(node.buffers@[1]), 0, rows) =~= integers);
        },
        ColumnModel::Key { codes, words, .. } => {
            assert(window(codes_of(node.buffers@[1]), 0, rows) =~= codes);
            lemma_dictionary_round_trip(*node.dictionary->0, words);
            lemma_codes_round_trip(
                field.name,
                codes,
                valid_bits(settled_mask(mask), rows),
                words.len(),
                rows,
            );
            assert(codes.take(rows as int) =~= codes);
        },
    }
}

/// The first children read back as the first columns.
proof fn lemma_columns_round_trip(node: ArrowArray, batch: BatchModel, n: nat)
    requires
        describes_array(node, batch.columns),
        batch.consistent(),
        batch_rows(batch.columns) <= usize::MAX,
        n <= batch.columns.len(),
    ensures
        columns_spec(batch.schema, node.children@, 0, batch_rows(batch.columns), n) == Ok::<
            Seq<ColumnModel>,
            Seq<char>,
        >(settled_batch(batch).columns.take(n as int)),
    decreases n,
{
    let back = settled_batch(batch).columns;
    if n == 0 {
        assert(back.take(0) =~= Seq::<ColumnModel>::empty());
    } else {
        lemma_columns_round_trip(node, batch, (n - 1) as nat);
        let k = n - 1;
        assert(describes_column(node.children@[k], batch.columns[k]));
        assert(batch.columns[k].consistent());
        lemma_column_round_trip(batch.schema[k], node.children@[k], batch.columns[k]);
        assert(back.take(n as int) =~= back.take(k).push(back[k]));
    }
}

/// Export, then import: the batch that was exported comes back. The one
/// difference is that a bitmap without nulls is dropped; schema, values,
/// codes, dictionaries and every other bitmap are the same, bit for bit.
pub proof fn lemma_batch_round_trip(schema: ArrowSchema, array: ArrowArray, batch: BatchModel)
    requires
        describes_schema(schema, batch.schema),
        describes_array(array, batch.columns),
        batch.consistent(),
        schema_exportable(batch.schema),
        batch.schema.len() <= usize::MAX,
        batch_rows(batch.columns) <= usize::MAX,
    ensures
        schema_layout(schema),
        schema_spec(schema) == Ok::<Seq<FieldModel>, Seq<char>>(batch.schema),
        array_layout(batch.schema, array),
        batch_spec(schema, array) == Ok::<BatchModel, Seq<char>>(settled_batch(batch)),
{
    super::format::lemma_schema_round_trip(schema, batch.schema);
    lemma_columns_round_trip(array, batch, batch.columns.len());
    let back = settled_batch(batch).columns;
    assert(back.take(batch.columns.len() as int) =~= back);
    assert forall|i: int| 0 <= i < batch.schema.len() implies child_layout(
        batch.schema[i],
        #[trigger] array.children@[i],
        0,
        batch_rows(batch.columns),
    ) by {
        assert(describes_column(array.children@[i], batch.columns[i]));
        assert(batch.columns[i].consistent());
        lemma_column_round_trip(batch.schema[i], array.children@[i], batch.columns[i]);
    }
}

/// A batch none of whose bitmaps is all set comes back exactly.
pub proof fn lemma_round_trip_is_identity(batch: BatchModel)
    requires
        forall|i: int|
            0 <= i < batch.columns.len() ==> (#[trigger] batch.columns[i].mask() matches Some(bits)
                ==> count_true(bits) < bits.len()),
    ensures
        settled_batch(batch) == batch,
{
    assert forall|i: int| 0 <= i < batch.columns.len() implies settled(batch.columns[i])
        == batch.columns[i] by {
        let mask = batch.columns[i].mask();
        assert(mask matches Some(bits) ==> count_true(bits) < bits.len());
    }
    assert(settled_batch(batch).columns =~= batch.columns);
}

/// Whatever its bitmaps, a batch that comes back has the same valid rows
/// with the same values.
pub proof fn lemma_round_trip_keeps_rows(column: ColumnModel, row: int)
    requires
        column.consistent(),
        0 <= row < column.rows(),
    ensures
        settled(column).rows() == column.rows(),
        settled(column).kind() == column.kind(),
        valid_bits(settled(column).mask(), column.rows())[row] == valid_bits(
            column.mask(),
            column.rows(),
        )[row],
{
    match column.mask() {
        Some(bits) => {
            lemma_count_bounds(bits);
        },
        None => {},
    }
}

} // verus!
