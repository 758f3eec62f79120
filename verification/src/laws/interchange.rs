//! The C Data Interface: what exported structs hold, what descriptions stand
//! for, and what a stream's answers mean.
use crate::bitmap::lemma_count_bounds;
use crate::cdata::array::{
    array_spec, batch_spec, column_spec, describes_array, describes_column, describes_words,
    dictionary_layout, dictionary_spec, settled, settled_batch, ArrowArray, ArrowBuffer,
};
use crate::cdata::format::{
    child_spec, children_spec, decimal_spec, describes_field, describes_schema,
    is_decimal, schema_spec, ArrowSchema,
};
use crate::cdata::stream::{answer_spec, callback_failure, schema_answer_spec};
use crate::column::{ColumnModel, ColumnType};
use crate::laws::columns::lemma_null_count;
use crate::laws::holds;
use crate::laws::import::{lemma_imported_words, piece, sound_piece};
use crate::laws::numbers::lemma_signed_spells;
use crate::logical::LogicalType;
use crate::schema::{BatchModel, FieldModel};
use crate::text::{decimal, signed_decimal};
use vstd::prelude::*;
use vstd::utf8::{decode_utf8, decode_utf8_encode_utf8, encode_utf8, valid_utf8};

verus! {

/// An exported column has one row per row, counts its nulls, starts at its
/// first row, and holds the column's bits and values in their places.
pub proof fn lemma_exported_column(node: ArrowArray, column: ColumnModel)
    requires
        describes_column(node, column),
        column.consistent(),
    ensures
        node.live,
        node.length == column.rows(),
        node.null_count == Seq::new(column.rows(), |i: int| holds(column.mask(), i)).filter(
            |valid: bool| !valid,
        ).len(),
        node.offset == 0,
        node.n_buffers == 2 && node.buffers@.len() == 2,
        node.n_children == 0,
        column.mask() is None ==> node.buffers@[0] is Null,
        column.mask() matches Some(bits) ==> (node.buffers@[0] matches ArrowBuffer::Bits(bytes)
            && 8 * bytes@.len() >= bits.len() && forall|i: int|
            0 <= i < bits.len() ==> #[trigger] bits[i] == (bytes@[i / 8] & (1u8 << ((i % 8) as u8))
                != 0)),
        match column {
            ColumnModel::F64 { floats, .. } => node.dictionary is None && (
            node.buffers@[1] matches ArrowBuffer::F64(data) && data@ == floats),
            ColumnModel::I64 { integers, .. } => node.dictionary is None && (
            node.buffers@[1] matches ArrowBuffer::I64(data) && data@ == integers),
            ColumnModel::Key { codes, words, .. } => (node.dictionary matches Some(values)
                && describes_words(*values, words)) && (node.buffers@[1] matches ArrowBuffer::U32(
                data,
            ) && data@ == codes),
        },
{
    lemma_null_count(column.mask(), column.rows());
    if let Some(bits) = column.mask() {
        let bytes = node.buffers@[0]->Bits_0@;
        assert forall|i: int| 0 <= i < bits.len() implies #[trigger] bits[i] == (bytes[i / 8] & (
        1u8 << ((i % 8) as u8)) != 0) by {
            assert(crate::bitmap::bit_at(bytes, i) == bits[i]);
        }
    }
}

/// An exported dictionary has one value per word, none null: the bytes from
/// each offset to the next are the word's, and they are all the bytes.
pub proof fn lemma_exported_words(node: ArrowArray, words: Seq<Seq<char>>, i: int)
    requires
        describes_words(node, words),
        0 <= i < words.len(),
    ensures
        node.live,
        node.length == words.len(),
        node.null_count == 0,
        node.offset == 0,
        node.n_buffers == 3 && node.buffers@.len() == 3,
        node.buffers@[0] is Null,
        node.buffers@[1] matches ArrowBuffer::Offsets(offsets) && (
        node.buffers@[2] matches ArrowBuffer::Bytes(data) && {
            &&& offsets@.len() == words.len() + 1
            &&& offsets@[0] == 0
            &&& offsets@[words.len() as int] == data@.len()
            &&& 0 <= offsets@[i] <= offsets@[i + 1] <= data@.len()
            &&& data@.subrange(offsets@[i] as int, offsets@[i + 1] as int) == encode_utf8(words[i])
        }),
{
    let offsets = node.buffers@[1]->Offsets_0@;
    crate::key::lemma_value_bytes(words, i);
    assert(offsets[i] == crate::key::encoded(words.take(i)).len());
    assert(offsets[i + 1] == crate::key::encoded(words.take(i + 1)).len());
    assert(offsets[0] == crate::key::encoded(words.take(0)).len());
    assert(offsets[words.len() as int] == crate::key::encoded(
        words.take(words.len() as int),
    ).len());
    assert(words.take(words.len() as int) =~= words);
}

/// An exported batch is a struct without nulls of its own, at offset zero,
/// as long as its columns, with a child for each in its place.
pub proof fn lemma_exported_batch(node: ArrowArray, columns: Seq<ColumnModel>)
    requires
        describes_array(node, columns),
    ensures
        node.live,
        node.null_count == 0 && node.offset == 0,
        columns.len() > 0 ==> node.length == columns[0].rows(),
        columns.len() == 0 ==> node.length == 0,
        node.n_children == columns.len() && node.children@.len() == columns.len(),
        node.n_buffers == 1 && node.buffers@.len() == 1 && node.buffers@[0] is Null,
        forall|i: int|
            0 <= i < columns.len() ==> describes_column(#[trigger] node.children@[i], columns[i]),
{
}

/// The text of a decimal's format: eighteen digits, the scale, sixty-four
/// bits.
pub open spec fn decimal_format(scale: u8) -> Seq<char> {
    seq!['d', ':', '1', '8', ','] + decimal(scale as nat) + seq![',', '6', '4']
}

/// What decimals are written as.
pub proof fn lemma_decimal_format(scale: u8)
    ensures
        (LogicalType::Decimal64 { scale }).format_text() == decimal_format(scale),
        LogicalType::TimestampNs.format_text() == seq!['t', 's', 'n', ':'],
{
    reveal_strlit("d:");
    reveal_strlit(",");
    reveal_strlit(",64");
    reveal_strlit("tsn:");
    reveal_with_fuel(decimal, 3);
    assert(decimal(18) =~= seq!['1', '8']);
    assert((LogicalType::Decimal64 { scale }).format_text() =~= decimal_format(scale));
    assert(LogicalType::TimestampNs.format_text() =~= seq!['t', 's', 'n', ':']);
}

/// The literal formats, character by character.
pub proof fn lemma_formats()
    ensures
        "g"@ == seq!['g'],
        "l"@ == seq!['l'],
        "I"@ == seq!['I'],
        "u"@ == seq!['u'],
        "+s"@ == seq!['+', 's'],
        "tsn:"@ == seq!['t', 's', 'n', ':'],
        ""@ == Seq::<char>::empty(),
{
    reveal_strlit("g");
    reveal_strlit("l");
    reveal_strlit("I");
    reveal_strlit("u");
    reveal_strlit("+s");
    reveal_strlit("tsn:");
    reveal_strlit("");
    assert("g"@ =~= seq!['g']);
    assert("l"@ =~= seq!['l']);
    assert("I"@ =~= seq!['I']);
    assert("u"@ =~= seq!['u']);
    assert("+s"@ =~= seq!['+', 's']);
    assert("tsn:"@ =~= seq!['t', 's', 'n', ':']);
    assert(""@ =~= Seq::<char>::empty());
}

/// A field is described by its name, whether it is nullable, and the format
/// of its type and annotation; keys by the format of their codes, with that
/// of their texts in the dictionary.
pub proof fn lemma_described_field(node: ArrowSchema, field: FieldModel)
    requires
        describes_field(node, field),
    ensures
        node.live,
        node.name matches Some(name) && name@ == encode_utf8(field.name),
        node.flags == (if field.nullable {
            2i64
        } else {
            0
        }),
        node.n_children == 0,
        node.format matches Some(format) && match (field.column_type, field.logical) {
            (ColumnType::F64, _) => node.dictionary is None && format@ == encode_utf8(seq!['g']),
            (ColumnType::I64, None) => node.dictionary is None && format@ == encode_utf8(
                seq!['l'],
            ),
            (ColumnType::I64, Some(LogicalType::TimestampNs)) => node.dictionary is None && format@
                == encode_utf8(seq!['t', 's', 'n', ':']),
            (ColumnType::I64, Some(LogicalType::Decimal64 { scale })) => node.dictionary is None
                && format@ == encode_utf8(decimal_format(scale)),
            (ColumnType::Key, _) => format@ == encode_utf8(seq!['I']) && (
            node.dictionary matches Some(values) && (values.format matches Some(format) && format@
                == encode_utf8(seq!['u']))),
        },
{
    lemma_formats();
    if let Some(LogicalType::Decimal64 { scale }) = field.logical {
        lemma_decimal_format(scale);
    }
}

/// A schema is described by a struct with one child per field, in its place.
pub proof fn lemma_described_schema(node: ArrowSchema, schema: Seq<FieldModel>)
    requires
        describes_schema(node, schema),
    ensures
        node.live,
        node.format matches Some(format) && format@ == encode_utf8(seq!['+', 's']),
        node.n_children == schema.len() && node.children@.len() == schema.len(),
        forall|i: int|
            0 <= i < schema.len() ==> describes_field(#[trigger] node.children@[i], schema[i]),
{
    lemma_formats();
}

/// What comes back of a column: the same values, a value in the same rows,
/// and a bitmap exactly where there is a null.
pub proof fn lemma_settled_column(column: ColumnModel)
    requires
        column.consistent(),
    ensures
        match (column, settled(column)) {
            (
                ColumnModel::F64 { floats: before, .. },
                ColumnModel::F64 { floats: after, .. },
            ) => after == before,
            (
                ColumnModel::I64 { integers: before, .. },
                ColumnModel::I64 { integers: after, .. },
            ) => after == before,
            (
                ColumnModel::Key { codes: before, words: known, .. },
                ColumnModel::Key { codes: after, words, .. },
            ) => after == before && words == known,
            _ => false,
        },
        forall|i: int|
            0 <= i < column.rows() ==> #[trigger] holds(settled(column).mask(), i) == holds(
                column.mask(),
                i,
            ),
        settled(column).mask() is Some <==> exists|i: int|
            0 <= i < column.rows() && !#[trigger] holds(column.mask(), i),
        settled(column).mask() matches Some(bits) ==> bits.len() == column.rows(),
{
    if let Some(bits) = column.mask() {
        lemma_count_bounds(bits);
        if settled(column).mask() is Some {
            let k = choose|k: int| 0 <= k < bits.len() && !bits[k];
            assert(!holds(column.mask(), k));
        } else {
            assert forall|i: int| 0 <= i < column.rows() implies #[trigger] holds(
                column.mask(),
                i,
            ) by {
                assert(bits[i]);
            }
        }
    }
}

/// What comes back of a batch: the schema, and each column in its place.
pub proof fn lemma_settled_batch(batch: BatchModel, i: int)
    requires
        0 <= i < batch.columns.len(),
    ensures
        settled_batch(batch).schema == batch.schema,
        settled_batch(batch).columns.len() == batch.columns.len(),
        settled_batch(batch).columns[i] == settled(batch.columns[i]),
{
}

/// The texts of an imported key column are those of its dictionary, from the
/// dictionary's own offset on, as many as it says.
pub proof fn lemma_imported_dictionary(values: ArrowArray, words: Seq<Seq<char>>)
    requires
        dictionary_spec(values) == Ok::<Seq<Seq<char>>, Seq<char>>(words),
        dictionary_layout(values),
    ensures
        values.live,
        values.null_count <= 0,
        values.offset >= 0,
        words.len() == values.length,
        words.no_duplicates(),
        words.len() > 0 ==> (values.buffers@[1] matches ArrowBuffer::Offsets(offsets) && (
        values.buffers@[2] matches ArrowBuffer::Bytes(data) && (forall|p: int|
            values.offset <= p < values.offset + values.length ==> words[p - values.offset]
                == decode_utf8(#[trigger] piece(offsets@, data@, p))) && (forall|p: int|
            values.offset <= p < values.offset + values.length ==> #[trigger] sound_piece(
                offsets@,
                data@,
                p,
            )))),
{
    if values.length > 0 {
        let offsets = values.buffers@[1]->Offsets_0@;
        let data = values.buffers@[2]->Bytes_0@;
        lemma_imported_words(offsets, data, values.offset as int, values.length as nat);
    }
}

/// A key column takes its texts from its own dictionary.
pub proof fn lemma_imported_keys(
    field: FieldModel,
    child: ArrowArray,
    root_offset: nat,
    rows: nat,
    column: ColumnModel,
)
    requires
        column_spec(field, child, root_offset, rows) == Ok::<ColumnModel, Seq<char>>(column),
        column is Key,
    ensures
        child.dictionary matches Some(values) && dictionary_spec(*values) == Ok::<
            Seq<Seq<char>>,
            Seq<char>,
        >(column->words),
{
}

/// The bytes are the text's.
pub open spec fn spells(bytes: Option<Vec<u8>>, text: Seq<char>) -> bool {
    bytes matches Some(bytes) && bytes@ == encode_utf8(text)
}

/// The bytes are a text's, whichever.
pub open spec fn is_text(bytes: Option<Vec<u8>>) -> bool {
    bytes matches Some(bytes) && valid_utf8(bytes@)
}

/// A description that is read as a field has the field's name, flags and
/// format: nothing is a field but what export writes for one, save that the
/// name may be missing.
pub proof fn lemma_parsed_field(child: ArrowSchema, field: FieldModel)
    requires
        child_spec(child) == Ok::<FieldModel, Seq<char>>(field),
    ensures
        child.name is None ==> field.name == Seq::<char>::empty(),
        child.name is Some ==> spells(child.name, field.name),
        field.nullable <==> child.flags & 2 != 0,
        match (field.column_type, field.logical) {
            (ColumnType::F64, None) => child.dictionary is None && spells(child.format, seq!['g']),
            (ColumnType::I64, None) => child.dictionary is None && spells(child.format, seq!['l']),
            (ColumnType::I64, Some(LogicalType::TimestampNs)) => child.dictionary is None && spells(
                child.format,
                seq!['t', 's', 'n', ':'],
            ),
            (ColumnType::I64, Some(LogicalType::Decimal64 { scale })) => child.dictionary is None
                && scale <= 18 && spells(child.format, decimal_format(scale)),
            (ColumnType::Key, None) => spells(child.format, seq!['I']) && (
            child.dictionary matches Some(values) && spells(values.format, seq!['u'])),
            _ => false,
        },
{
    lemma_formats();
    if let Some(bytes) = child.name {
        decode_utf8_encode_utf8(bytes@);
    }
    let bytes = child.format->0@;
    decode_utf8_encode_utf8(bytes);
    if let Some(LogicalType::Decimal64 { scale }) = field.logical {
        let text = decode_utf8(bytes);
        assert(decimal_spec(text) is Some);
        let s = choose|s: u8| is_decimal(text, s);
        assert(is_decimal(text, s));
        lemma_decimal_format(s);
    }
}

/// A description is read as a field wherever its name is a text or missing
/// and its format one of a field's.
pub proof fn lemma_fields_accepted(child: ArrowSchema, scale: u8)
    requires
        child.name is None || is_text(child.name),
        ({
            ||| child.dictionary is None && spells(child.format, seq!['g'])
            ||| child.dictionary is None && spells(child.format, seq!['l'])
            ||| child.dictionary is None && spells(child.format, seq!['t', 's', 'n', ':'])
            ||| child.dictionary is None && scale <= 18 && spells(
                child.format,
                decimal_format(scale),
            )
            ||| spells(child.format, seq!['I']) && (child.dictionary matches Some(values) && spells(
                values.format,
                seq!['u'],
            ))
        }),
    ensures
        child_spec(child) is Ok,
{
    lemma_formats();
    let bytes = child.format->0@;
    lemma_text_is_valid(seq!['g']);
    lemma_text_is_valid(seq!['l']);
    lemma_text_is_valid(seq!['I']);
    lemma_text_is_valid(seq!['u']);
    lemma_text_is_valid(seq!['t', 's', 'n', ':']);
    lemma_text_is_valid(decimal_format(scale));
    if child.dictionary is None && scale <= 18 && spells(child.format, decimal_format(scale)) {
        lemma_decimal_format(scale);
        assert(is_decimal(decode_utf8(bytes), scale));
        assert(decimal_spec(decode_utf8(bytes)) is Some);
        reveal_strlit("d:");
        let (head, tail) = (
            seq!['d', ':'],
            seq!['1', '8', ','] + decimal(scale as nat) + seq![',', '6', '4'],
        );
        assert("d:"@ =~= head);
        assert(decimal_format(scale) =~= head + tail);
        lemma_encoded_prefix(head, tail);
    }
}

/// A text's bytes are valid, and decode to it.
proof fn lemma_text_is_valid(text: Seq<char>)
    ensures
        valid_utf8(encode_utf8(text)),
        decode_utf8(encode_utf8(text)) == text,
{
    vstd::utf8::encode_utf8_valid_utf8(text);
    vstd::utf8::encode_utf8_decode_utf8(text);
}

/// A text's bytes begin with those of its beginning.
proof fn lemma_encoded_prefix(head: Seq<char>, tail: Seq<char>)
    ensures
        encode_utf8(head).is_prefix_of(encode_utf8(head + tail)),
    decreases head.len(),
{
    let whole = head + tail;
    if head.len() > 0 {
        assert(whole.drop_first() =~= head.drop_first() + tail);
        lemma_encoded_prefix(head.drop_first(), tail);
        let first = vstd::utf8::encode_scalar(head[0] as u32);
        assert(encode_utf8(head) =~= first + encode_utf8(head.drop_first()));
        assert(encode_utf8(whole) =~= first + encode_utf8(whole.drop_first()));
    }
}

/// Children are read one by one: each field comes from the child in its
/// place, and all are read exactly when each is.
pub proof fn lemma_children_in_place(children: Seq<ArrowSchema>, n: nat)
    requires
        n <= children.len(),
    ensures
        children_spec(children, n) is Ok <==> forall|i: int|
            0 <= i < n ==> child_spec(#[trigger] children[i]) is Ok,
        children_spec(children, n) matches Ok(fields) ==> fields.len() == n && forall|i: int|
            0 <= i < n ==> child_spec(children[i]) == Ok::<FieldModel, Seq<char>>(
                #[trigger] fields[i],
            ),
    decreases n,
{
    if n > 0 {
        lemma_children_in_place(children, (n - 1) as nat);
    }
}

/// A description is read as a schema exactly when it is live, a struct, its
/// child count makes sense, and every child is read as a field.
pub proof fn lemma_schemas_accepted(schema: ArrowSchema)
    requires
        schema.n_children <= usize::MAX,
    ensures
        schema_spec(schema) is Ok <==> schema.live && spells(schema.format, seq!['+', 's'])
            && schema.n_children >= 0 && children_spec(
            schema.children@,
            schema.n_children as nat,
        ) is Ok,
        schema_spec(schema) is Ok ==> schema_spec(schema) == children_spec(
            schema.children@,
            schema.n_children as nat,
        ),
{
    lemma_formats();
    lemma_text_is_valid("+s"@);
}

/// A batch is imported exactly when its schema and its array are, and is
/// then made of both.
pub proof fn lemma_batches_imported(schema: ArrowSchema, array: ArrowArray)
    ensures
        batch_spec(schema, array) is Ok <==> (schema_spec(schema) matches Ok(fields) && array_spec(
            fields,
            array,
        ) is Ok),
        batch_spec(schema, array) matches Ok(batch) ==> schema_spec(schema) == Ok::<
            Seq<FieldModel>,
            Seq<char>,
        >(batch.schema) && array_spec(batch.schema, array) == Ok::<Seq<ColumnModel>, Seq<char>>(
            batch.columns,
        ),
{
}

/// A stream has ended exactly when a request succeeds and gives nothing; a
/// batch is read exactly when it succeeds and gives an array that can be
/// imported; and a request that fails is an error, whatever it gives.
pub proof fn lemma_stream_answers(
    schema: Seq<FieldModel>,
    code: i32,
    array: ArrowArray,
    opening: ArrowSchema,
    detail: Option<&str>,
)
    ensures
        answer_spec(schema, code, array, detail) is None <==> code == 0 && !array.live,
        answer_spec(schema, code, array, detail) matches Some(Ok(columns)) ==> code == 0
            && array.live && array_spec(schema, array) == Ok::<Seq<ColumnModel>, Seq<char>>(columns),
        code == 0 && array.live && array_spec(schema, array) is Ok ==> (answer_spec(
            schema,
            code,
            array,
            detail,
        ) matches Some(Ok(_))),
        schema_answer_spec(code, opening, detail) is Ok <==> code == 0 && schema_spec(opening)
            is Ok,
        schema_answer_spec(code, opening, detail) matches Ok(fields) ==> schema_spec(opening) == Ok::<
            Seq<FieldModel>,
            Seq<char>,
        >(fields),
{
}

/// Where a child is not read as a field, the first that is not is the one
/// the error is of.
pub proof fn lemma_first_field_refused(children: Seq<ArrowSchema>, n: nat, k: int)
    requires
        0 <= k < n <= children.len(),
        forall|i: int| 0 <= i < k ==> child_spec(#[trigger] children[i]) is Ok,
        child_spec(children[k]) is Err,
    ensures
        children_spec(children, n) matches Err(error) && child_spec(children[k]) == Err::<
            FieldModel,
            Seq<char>,
        >(error),
    decreases n,
{
    if k < n - 1 {
        lemma_first_field_refused(children, (n - 1) as nat, k);
    } else {
        lemma_children_in_place(children, k as nat);
    }
}

/// A failed request is reported by its callback, its code and the stream's
/// own words: reports of one callback and one detail have one code.
pub proof fn lemma_failures_tell(what: Seq<char>, first: i32, second: i32, detail: &str)
    ensures
        what.is_prefix_of(callback_failure(what, first, Some(detail))),
        callback_failure(what, first, Some(detail)).skip(
            callback_failure(what, first, Some(detail)).len() - detail@.len(),
        ) == detail@,
        callback_failure(what, first, Some(detail)) == callback_failure(
            what,
            second,
            Some(detail),
        ) ==> first == second,
{
    let (one, two) = (
        callback_failure(what, first, Some(detail)),
        callback_failure(what, second, Some(detail)),
    );
    let (head, tail) = (what + " failed ("@, "): "@ + detail@);
    assert(one.skip(one.len() - detail@.len()) =~= detail@);
    assert(one =~= head + signed_decimal(first as int) + tail);
    assert(two =~= head + signed_decimal(second as int) + tail);
    if one == two {
        let (a, b) = (head.len() as int, one.len() - tail.len());
        assert(one.subrange(a, b) =~= signed_decimal(first as int));
        assert(two.subrange(a, b) =~= signed_decimal(second as int));
        lemma_signed_spells(first as int);
        lemma_signed_spells(second as int);
    }
}

} // verus!
