//! Type descriptions: how a schema is written for, and read from, the C Data
//! Interface.
use crate::column::ColumnType;
use crate::key::text_of;
use crate::logical::{LogicalType, DECIMAL64_PRECISION};
use crate::schema::{field_models, Field, FieldModel, Schema};
use crate::text::decimal;
use vstd::prelude::*;
use vstd::utf8::{decode_utf8, encode_utf8, is_ascii_chars, valid_utf8};

verus! {

/// `ArrowSchema.flags` bit: the field may hold nulls.
pub const ARROW_FLAG_NULLABLE: i64 = 2;

/// A failure while importing foreign C Data structs.
///
/// Import errors are results, not panics: the data crossed a process
/// boundary and its shape is not ours to promise.
#[derive(Debug, Clone, PartialEq, Eq)]
pub struct ImportError(String);

impl View for ImportError {
    type V = Seq<char>;

    closed spec fn view(&self) -> Seq<char> {
        self.0@
    }
}

impl ImportError {
    /// An error with this message.
    pub fn new(message: &str) -> (error: ImportError)
        ensures
            error@ == message@,
    {
        ImportError(message.to_owned())
    }

    /// The error as text for a reader.
    pub fn to_text(&self) -> (text: String)
        ensures
            text@ == "arrow import: "@ + self@,
    {
        let mut text = String::from_str("arrow import: ");
        text.append(self.0.as_str());
        text
    }
}

/// A type description. Children describe the fields of a struct-typed root;
/// a dictionary-encoded field describes its values' type beside its own.
pub struct ArrowSchema {
    /// Format string, or null.
    pub format: Option<Vec<u8>>,
    /// Field name, or null.
    pub name: Option<Vec<u8>>,
    /// Bit flags.
    pub flags: i64,
    /// Number of children.
    pub n_children: i64,
    /// Child type descriptions.
    pub children: Vec<ArrowSchema>,
    /// Dictionary value type, for dictionary-encoded fields.
    pub dictionary: Option<Box<ArrowSchema>>,
    /// Not released yet.
    pub live: bool,
}

/// The bytes of an optional C string.
pub open spec fn c_bytes(text: Option<Vec<u8>>) -> Option<Seq<u8>> {
    match text {
        Some(bytes) => Some(bytes@),
        None => None,
    }
}

/// A live node's children array has as many entries as it says.
pub open spec fn schema_layout(schema: ArrowSchema) -> bool {
    schema.live && schema.n_children >= 0 ==> schema.children@.len() == schema.n_children
}

/// The text of a C string, or why there is none.
pub open spec fn cstr_spec(text: Option<Seq<u8>>) -> Result<Seq<char>, Seq<char>> {
    match text {
        None => Err("unexpected null string"@),
        Some(bytes) => if valid_utf8(bytes) {
            Ok(decode_utf8(bytes))
        } else {
            Err("string is not UTF-8"@)
        },
    }
}

/// Whether a format is the one that export renders for a decimal of `scale`.
pub open spec fn is_decimal(format: Seq<char>, scale: u8) -> bool {
    scale <= DECIMAL64_PRECISION && format == (LogicalType::Decimal64 { scale }).format_text()
}

/// The annotation a decimal format stands for: the one that export renders
/// as exactly this text, if there is one.
pub open spec fn decimal_spec(format: Seq<char>) -> Option<LogicalType> {
    if exists|scale: u8| is_decimal(format, scale) {
        Some(LogicalType::Decimal64 { scale: choose|scale: u8| is_decimal(format, scale) })
    } else {
        None
    }
}

/// The field that a description's name, format, flags and dictionary format
/// stand for, or why there is none.
pub open spec fn field_spec(
    name: Option<Seq<u8>>,
    format: Option<Seq<u8>>,
    flags: i64,
    dictionary: Option<Option<Seq<u8>>>,
) -> Result<FieldModel, Seq<char>> {
    let named = if name is None {
        Ok(Seq::<char>::empty())
    } else {
        cstr_spec(name)
    };
    match named {
        Err(error) => Err(error),
        Ok(name) => match cstr_spec(format) {
            Err(error) => Err(error),
            Ok(text) => {
                let bytes = format->0;
                let nullable = flags & ARROW_FLAG_NULLABLE != 0;
                match dictionary {
                    None => if bytes == encode_utf8("g"@) {
                        Ok(
                            FieldModel {
                                name,
                                column_type: ColumnType::F64,
                                nullable,
                                logical: None,
                            },
                        )
                    } else if bytes == encode_utf8("l"@) {
                        Ok(
                            FieldModel {
                                name,
                                column_type: ColumnType::I64,
                                nullable,
                                logical: None,
                            },
                        )
                    } else if bytes == encode_utf8("tsn:"@) {
                        Ok(
                            FieldModel {
                                name,
                                column_type: ColumnType::I64,
                                nullable,
                                logical: Some(LogicalType::TimestampNs),
                            },
                        )
                    } else if encode_utf8("d:"@).is_prefix_of(bytes) {
                        match decimal_spec(text) {
                            Some(logical) => Ok(
                                FieldModel {
                                    name,
                                    column_type: ColumnType::I64,
                                    nullable,
                                    logical: Some(logical),
                                },
                            ),
                            None => Err("unsupported decimal format '"@ + text + "'"@),
                        }
                    } else {
                        Err("unsupported format '"@ + text + "' for field '"@ + name + "'"@)
                    },
                    Some(values) => if bytes != encode_utf8("I"@) {
                        Err(
                            "unsupported dictionary index format '"@ + text
                                + "' (u32 'I' only)"@,
                        )
                    } else {
                        match cstr_spec(values) {
                            Err(error) => Err(error),
                            Ok(values_text) => if values->0 != encode_utf8("u"@) {
                                Err(
                                    "unsupported dictionary value format '"@ + values_text
                                        + "' (utf8 'u' only)"@,
                                )
                            } else {
                                Ok(
                                    FieldModel {
                                        name,
                                        column_type: ColumnType::Key,
                                        nullable,
                                        logical: None,
                                    },
                                )
                            },
                        }
                    },
                }
            },
        },
    }
}

/// The format of a description's dictionary, if it has one.
pub open spec fn dictionary_format(child: ArrowSchema) -> Option<Option<Seq<u8>>> {
    match child.dictionary {
        Some(dictionary) => Some(c_bytes(dictionary.format)),
        None => None,
    }
}

/// The field that a child description stands for.
pub open spec fn child_spec(child: ArrowSchema) -> Result<FieldModel, Seq<char>> {
    field_spec(c_bytes(child.name), c_bytes(child.format), child.flags, dictionary_format(child))
}

/// The fields of the first `n` children, or the first failure.
pub open spec fn children_spec(children: Seq<ArrowSchema>, n: nat) -> Result<
    Seq<FieldModel>,
    Seq<char>,
>
    decreases n,
{
    if n == 0 {
        Ok(Seq::empty())
    } else {
        match children_spec(children, (n - 1) as nat) {
            Err(error) => Err(error),
            Ok(fields) => match child_spec(children[n - 1]) {
                Err(error) => Err(error),
                Ok(field) => Ok(fields.push(field)),
            },
        }
    }
}

/// The schema that a description stands for, or why there is none.
pub open spec fn schema_spec(schema: ArrowSchema) -> Result<Seq<FieldModel>, Seq<char>> {
    if !schema.live {
        Err("schema struct already released"@)
    } else {
        match cstr_spec(c_bytes(schema.format)) {
            Err(error) => Err(error),
            Ok(text) => if schema.format->0@ != encode_utf8("+s"@) {
                Err("expected struct root '+s', got '"@ + text + "'"@)
            } else if schema.n_children < 0 || schema.n_children > usize::MAX {
                Err("negative child count"@)
            } else {
                children_spec(schema.children@, schema.n_children as nat)
            },
        }
    }
}

/// Whether two byte sequences are equal.
pub(crate) fn same_bytes(a: &[u8], b: &[u8]) -> (same: bool)
    ensures
        same == (a@ == b@),
{
    if a.len() != b.len() {
        return false;
    }
    let mut index: usize = 0;
    while index < a.len()
        invariant
            index <= a@.len(),
            a@.len() == b@.len(),
            forall|i: int| 0 <= i < index ==> a@[i] == b@[i],
        decreases a@.len() - index,
    {
        if a[index] != b[index] {
            return false;
        }
        index += 1;
    }
    assert(a@ =~= b@);
    true
}

/// Whether some bytes begin with others.
fn starts_with(bytes: &[u8], prefix: &[u8]) -> (starts: bool)
    ensures
        starts == prefix@.is_prefix_of(bytes@),
{
    if prefix.len() > bytes.len() {
        return false;
    }
    let head: &[u8] = vstd::slice::slice_subrange(bytes, 0, prefix.len());
    assert(head@ =~= bytes@.subrange(0, prefix@.len() as int));
    same_bytes(prefix, head)
}

/// A C string's text.
fn cstr(text: &Option<Vec<u8>>) -> (read: Result<&str, ImportError>)
    ensures
        match read {
            Ok(s) => cstr_spec(c_bytes(*text)) == Ok::<Seq<char>, Seq<char>>(s@),
            Err(error) => cstr_spec(c_bytes(*text)) == Err::<Seq<char>, Seq<char>>(error@),
        },
{
    match text {
        None => Err(ImportError::new("unexpected null string")),
        Some(bytes) => match text_of(bytes.as_slice()) {
            Some(s) => Ok(s),
            None => Err(ImportError::new("string is not UTF-8")),
        },
    }
}

/// Parses a decimal format; only the exact text that export renders is
/// accepted.
pub fn parse_decimal(format: &str) -> (logical: Result<LogicalType, ImportError>)
    ensures
        match logical {
            Ok(annotation) => annotation is Decimal64 && annotation.in_range() && format@
                == annotation.format_text(),
            Err(error) => (forall|scale: u8| !is_decimal(format@, scale)) && error@
                == "unsupported decimal format '"@ + format@ + "'"@,
        },
        logical matches Ok(annotation) ==> decimal_spec(format@) == Some(annotation),
        logical is Err ==> decimal_spec(format@) is None,
{
    let mut scale: u8 = 0;
    while scale <= DECIMAL64_PRECISION
        invariant
            scale <= DECIMAL64_PRECISION + 1,
            forall|s: u8| s < scale ==> !is_decimal(format@, s),
        decreases DECIMAL64_PRECISION + 1 - scale,
    {
        let annotation = LogicalType::Decimal64 { scale };
        let rendered: String = annotation.c_data_format();
        if same_bytes(format.as_bytes(), rendered.as_str().as_bytes()) {
            proof {
                vstd::utf8::encode_utf8_decode_utf8(format@);
                vstd::utf8::encode_utf8_decode_utf8(rendered@);
                assert(is_decimal(format@, scale));
                lemma_decimal_found(format@, scale);
            }
            return Ok(annotation);
        }
        scale += 1;
    }
    let mut text = String::from_str("unsupported decimal format '");
    text.append(format);
    text.append("'");
    Err(ImportError(text))
}

/// Reads one field-level description.
pub fn parse_field(child: &ArrowSchema) -> (field: Result<Field, ImportError>)
    ensures
        match field {
            Ok(f) => child_spec(*child) == Ok::<FieldModel, Seq<char>>(f@),
            Err(error) => child_spec(*child) == Err::<FieldModel, Seq<char>>(error@),
        },
{
    let name: &str = if child.name.is_none() {
        proof {
            reveal_strlit("");
            assert(""@ =~= Seq::<char>::empty());
        }
        ""
    } else {
        match cstr(&child.name) {
            Ok(name) => name,
            Err(error) => {
                return Err(error);
            },
        }
    };
    let format: &str = match cstr(&child.format) {
        Ok(format) => format,
        Err(error) => {
            return Err(error);
        },
    };
    let bytes: &[u8] = format.as_bytes();
    proof {
        vstd::utf8::decode_utf8_encode_utf8(child.format->0@);
        assert(bytes@ == child.format->0@);
    }
    let nullable: bool = child.flags & ARROW_FLAG_NULLABLE != 0;
    match &child.dictionary {
        None => {
            if same_bytes(bytes, "g".as_bytes()) {
                Ok(Field::new(name, ColumnType::F64, nullable))
            } else if same_bytes(bytes, "l".as_bytes()) {
                Ok(Field::new(name, ColumnType::I64, nullable))
            } else if same_bytes(bytes, "tsn:".as_bytes()) {
                Ok(
                    Field::new(name, ColumnType::I64, nullable).with_logical(
                        LogicalType::TimestampNs,
                    ),
                )
            } else if starts_with(bytes, "d:".as_bytes()) {
                match parse_decimal(format) {
                    Ok(logical) => Ok(
                        Field::new(name, ColumnType::I64, nullable).with_logical(logical),
                    ),
                    Err(error) => Err(error),
                }
            } else {
                let mut text = String::from_str("unsupported format '");
                text.append(format);
                text.append("' for field '");
                text.append(name);
                text.append("'");
                Err(ImportError(text))
            }
        },
        Some(dictionary) => {
            if !same_bytes(bytes, "I".as_bytes()) {
                let mut text = String::from_str("unsupported dictionary index format '");
                text.append(format);
                text.append("' (u32 'I' only)");
                return Err(ImportError(text));
            }
            match cstr(&dictionary.format) {
                Ok(values) => {
                    proof {
                        vstd::utf8::decode_utf8_encode_utf8(dictionary.format->0@);
                    }
                    if !same_bytes(values.as_bytes(), "u".as_bytes()) {
                        let mut text = String::from_str("unsupported dictionary value format '");
                        text.append(values);
                        text.append("' (utf8 'u' only)");
                        return Err(ImportError(text));
                    }
                    Ok(Field::new(name, ColumnType::Key, nullable))
                },
                Err(error) => Err(error),
            }
        },
    }
}

/// A failure among the first children is the failure of all.
proof fn lemma_children_failure(children: Seq<ArrowSchema>, k: nat, n: nat)
    requires
        k <= n,
        children_spec(children, k) is Err,
    ensures
        children_spec(children, n) == children_spec(children, k),
    decreases n - k,
{
    if k < n {
        lemma_children_failure(children, k, (n - 1) as nat);
    }
}

/// Parses a foreign schema into ours, borrowing only.
pub fn parse_schema(schema: &ArrowSchema) -> (parsed: Result<Schema, ImportError>)
    requires
        schema_layout(*schema),
    ensures
        match parsed {
            Ok(s) => schema_spec(*schema) == Ok::<Seq<FieldModel>, Seq<char>>(s@),
            Err(error) => schema_spec(*schema) == Err::<Seq<FieldModel>, Seq<char>>(error@),
        },
{
    if !schema.live {
        return Err(ImportError::new("schema struct already released"));
    }
    let format: &str = match cstr(&schema.format) {
        Ok(format) => format,
        Err(error) => {
            return Err(error);
        },
    };
    proof {
        vstd::utf8::decode_utf8_encode_utf8(schema.format->0@);
    }
    if !same_bytes(format.as_bytes(), "+s".as_bytes()) {
        let mut text = String::from_str("expected struct root '+s', got '");
        text.append(format);
        text.append("'");
        return Err(ImportError(text));
    }
    if schema.n_children < 0 {
        return Err(ImportError::new("negative child count"));
    }
    let n: usize = schema.children.len();
    let mut fields: Vec<Field> = Vec::new();
    let mut index: usize = 0;
    assert(field_models(fields@) =~= Seq::<FieldModel>::empty());
    while index < n
        invariant
            index <= n,
            n == schema.children@.len(),
            n == schema.n_children,
            schema_spec(*schema) == children_spec(schema.children@, n as nat),
            children_spec(schema.children@, index as nat) == Ok::<Seq<FieldModel>, Seq<char>>(
                field_models(fields@),
            ),
        decreases n - index,
    {
        match parse_field(&schema.children[index]) {
            Ok(field) => {
                let ghost before = fields@;
                fields.push(field);
                assert(field_models(fields@) =~= field_models(before).push(field@));
            },
            Err(error) => {
                proof {
                    lemma_children_failure(schema.children@, (index + 1) as nat, n as nat);
                }
                return Err(error);
            },
        }
        index += 1;
    }
    Ok(Schema::new(fields))
}

/// The format text of a field.
pub open spec fn format_text(field: FieldModel) -> Seq<char> {
    match field.column_type {
        ColumnType::F64 => "g"@,
        ColumnType::I64 => match field.logical {
            Some(logical) => logical.format_text(),
            None => "l"@,
        },
        ColumnType::Key => "I"@,
    }
}

/// What a field must be for the interface to carry it: no NUL in its name,
/// and an annotation in range.
pub open spec fn field_exportable(field: FieldModel) -> bool {
    &&& !field.name.contains('\0')
    &&& field.logical matches Some(logical) ==> logical.in_range()
}

/// Every field can cross the interface, and the child count fits it.
pub open spec fn schema_exportable(schema: Seq<FieldModel>) -> bool {
    &&& schema.len() <= i64::MAX
    &&& forall|i: int| 0 <= i < schema.len() ==> field_exportable(#[trigger] schema[i])
}

/// A description without children or dictionary.
pub open spec fn is_leaf(node: ArrowSchema, format: Seq<char>, name: Seq<char>, flags: i64) -> bool {
    &&& node.live
    &&& c_bytes(node.format) == Some(encode_utf8(format))
    &&& c_bytes(node.name) == Some(encode_utf8(name))
    &&& node.flags == flags
    &&& node.n_children == 0
    &&& node.children@.len() == 0
}

/// The description of one field.
pub open spec fn describes_field(node: ArrowSchema, field: FieldModel) -> bool {
    &&& is_leaf(
        node,
        format_text(field),
        field.name,
        if field.nullable {
            ARROW_FLAG_NULLABLE
        } else {
            0
        },
    )
    &&& field.column_type == ColumnType::Key ==> (node.dictionary matches Some(values) && is_leaf(
        *values,
        "u"@,
        ""@,
        0,
    ) && values.dictionary is None)
    &&& field.column_type != ColumnType::Key ==> node.dictionary is None
}

/// The description of a schema: a struct-typed root whose children describe
/// the fields.
pub open spec fn describes_schema(node: ArrowSchema, schema: Seq<FieldModel>) -> bool {
    &&& node.live
    &&& c_bytes(node.format) == Some(encode_utf8("+s"@))
    &&& c_bytes(node.name) == Some(encode_utf8(""@))
    &&& node.flags == 0
    &&& node.n_children == schema.len()
    &&& node.children@.len() == schema.len()
    &&& node.dictionary is None
    &&& forall|i: int|
        0 <= i < schema.len() ==> describes_field(#[trigger] node.children@[i], schema[i])
}

/// The format string for one field.
///
/// A dictionary-encoded field's own format is that of its codes; the value
/// type rides on the dictionary.
pub fn field_format(field: &Field) -> (format: String)
    requires
        field@.logical matches Some(logical) ==> logical.in_range(),
    ensures
        format@ == format_text(field@),
{
    match field.column_type() {
        ColumnType::F64 => String::from_str("g"),
        ColumnType::I64 => match field.logical() {
            Some(logical) => logical.c_data_format(),
            None => String::from_str("l"),
        },
        ColumnType::Key => String::from_str("I"),
    }
}

/// A fresh copy of a text's bytes.
fn bytes_of(text: &str) -> (bytes: Vec<u8>)
    ensures
        bytes@ == encode_utf8(text@),
{
    vstd::slice::slice_to_vec(text.as_bytes())
}

impl ArrowSchema {
    /// A blank struct, for out-parameters: not a live export.
    pub fn empty() -> (schema: Self)
        ensures
            schema.format is None,
            schema.name is None,
            schema.flags == 0,
            schema.n_children == 0,
            schema.children@.len() == 0,
            schema.dictionary is None,
            !schema.live,
    {
        ArrowSchema {
            format: None,
            name: None,
            flags: 0,
            n_children: 0,
            children: Vec::new(),
            dictionary: None,
            live: false,
        }
    }

    /// Releases the struct: what it owns is gone, children and all, and it is
    /// no longer live. A second call changes nothing.
    pub fn release(&mut self)
        ensures
            !final(self).live,
            !old(self).live ==> *final(self) == *old(self),
            old(self).live ==> {
                &&& final(self).format is None
                &&& final(self).name is None
                &&& final(self).flags == old(self).flags
                &&& final(self).n_children == old(self).n_children
                &&& final(self).children@.len() == 0
                &&& final(self).dictionary is None
            },
    {
        if !self.live {
            return ;
        }
        self.format = None;
        self.name = None;
        self.children = Vec::new();
        self.dictionary = None;
        self.live = false;
    }
}

/// Builds one exported schema node.
fn new_schema_node(
    format: &str,
    name: &str,
    flags: i64,
    children: Vec<ArrowSchema>,
    dictionary: Option<Box<ArrowSchema>>,
) -> (node: ArrowSchema)
    requires
        children@.len() <= i64::MAX,
    ensures
        node.live,
        c_bytes(node.format) == Some(encode_utf8(format@)),
        c_bytes(node.name) == Some(encode_utf8(name@)),
        node.flags == flags,
        node.n_children == children@.len(),
        node.children == children,
        node.dictionary == dictionary,
{
    ArrowSchema {
        format: Some(bytes_of(format)),
        name: Some(bytes_of(name)),
        flags,
        n_children: children.len() as i64,
        children,
        dictionary,
        live: true,
    }
}

/// Exports a schema as a struct-typed root whose children are the fields.
pub fn export_schema(schema: &Schema) -> (node: ArrowSchema)
    requires
        schema_exportable(schema@),
    ensures
        describes_schema(node, schema@),
{
    let fields: &[Field] = schema.fields();
    let mut children: Vec<ArrowSchema> = Vec::new();
    let mut index: usize = 0;
    while index < fields.len()
        invariant
            index <= fields@.len(),
            field_models(fields@) == schema@,
            schema_exportable(schema@),
            children@.len() == index,
            forall|i: int|
                0 <= i < index ==> describes_field(#[trigger] children@[i], schema@[i]),
        decreases fields@.len() - index,
    {
        let field: &Field = &fields[index];
        assert(schema@[index as int] == field@);
        let flags: i64 = if field.nullable() {
            ARROW_FLAG_NULLABLE
        } else {
            0
        };
        let dictionary: Option<Box<ArrowSchema>> = match field.column_type() {
            ColumnType::Key => Some(Box::new(new_schema_node("u", "", 0, Vec::new(), None))),
            _ => None,
        };
        let format: String = field_format(field);
        children.push(
            new_schema_node(format.as_str(), field.name(), flags, Vec::new(), dictionary),
        );
        index += 1;
    }
    new_schema_node("+s", "", 0, children, None)
}

/// A number in decimal is at least one ASCII character.
proof fn lemma_decimal_ascii(n: nat)
    ensures
        is_ascii_chars(decimal(n)),
        decimal(n).len() > 0,
    decreases n,
{
    if n >= 10 {
        lemma_decimal_ascii(n / 10);
    }
}

/// A format that export renders for some scale stands for that scale alone.
proof fn lemma_decimal_found(format: Seq<char>, scale: u8)
    requires
        is_decimal(format, scale),
    ensures
        decimal_spec(format) == Some(LogicalType::Decimal64 { scale }),
{
    let found = choose|other: u8| is_decimal(format, other);
    assert(is_decimal(format, found));
    crate::logical::lemma_formats_distinct(
        LogicalType::Decimal64 { scale: found },
        LogicalType::Decimal64 { scale },
    );
}

/// A decimal format reads back as its annotation.
proof fn lemma_decimal_round_trip(scale: u8)
    requires
        scale <= DECIMAL64_PRECISION,
    ensures
        ({
            let text = (LogicalType::Decimal64 { scale }).format_text();
            &&& encode_utf8("d:"@).is_prefix_of(encode_utf8(text))
            &&& encode_utf8(text).len() > 4
            &&& decimal_spec(text) == Some(LogicalType::Decimal64 { scale })
        }),
{
    reveal_strlit("d:");
    reveal_strlit(",");
    reveal_strlit(",64");
    let precision = decimal(DECIMAL64_PRECISION as nat);
    let digits = decimal(scale as nat);
    lemma_decimal_ascii(DECIMAL64_PRECISION as nat);
    lemma_decimal_ascii(scale as nat);
    let text = (LogicalType::Decimal64 { scale }).format_text();
    assert(text =~= "d:"@ + precision + ","@ + digits + ",64"@);
    assert(is_ascii_chars(text));
    vstd::utf8::is_ascii_chars_encode_utf8(text);
    vstd::utf8::is_ascii_chars_encode_utf8("d:"@);
    let bytes = encode_utf8(text);
    assert(encode_utf8("d:"@).is_prefix_of(bytes)) by {
        assert(bytes[0] == text[0] as u8 && bytes[1] == text[1] as u8);
        assert(encode_utf8("d:"@) =~= bytes.subrange(0, 2));
    }
    assert(is_decimal(text, scale));
    lemma_decimal_found(text, scale);
}

/// Short literals encode to their characters.
proof fn lemma_literal_bytes()
    ensures
        encode_utf8("g"@) == seq![0x67u8],
        encode_utf8("l"@) == seq![0x6Cu8],
        encode_utf8("tsn:"@) == seq![0x74u8, 0x73u8, 0x6Eu8, 0x3Au8],
        encode_utf8("d:"@) == seq![0x64u8, 0x3Au8],
        encode_utf8("I"@) == seq![0x49u8],
        encode_utf8("u"@) == seq![0x75u8],
{
    reveal_strlit("g");
    reveal_strlit("l");
    reveal_strlit("tsn:");
    reveal_strlit("d:");
    reveal_strlit("I");
    reveal_strlit("u");
    vstd::utf8::is_ascii_chars_encode_utf8("g"@);
    vstd::utf8::is_ascii_chars_encode_utf8("l"@);
    vstd::utf8::is_ascii_chars_encode_utf8("tsn:"@);
    vstd::utf8::is_ascii_chars_encode_utf8("d:"@);
    vstd::utf8::is_ascii_chars_encode_utf8("I"@);
    vstd::utf8::is_ascii_chars_encode_utf8("u"@);
    assert(encode_utf8("g"@) =~= seq![0x67u8]) by {
        assert("g"@[0] as u8 == 0x67);
    }
    assert(encode_utf8("l"@) =~= seq![0x6Cu8]) by {
        assert("l"@[0] as u8 == 0x6C);
    }
    assert(encode_utf8("tsn:"@) =~= seq![0x74u8, 0x73u8, 0x6Eu8, 0x3Au8]) by {
        assert("tsn:"@[0] as u8 == 0x74 && "tsn:"@[1] as u8 == 0x73 && "tsn:"@[2] as u8 == 0x6E
            && "tsn:"@[3] as u8 == 0x3A);
    }
    assert(encode_utf8("d:"@) =~= seq![0x64u8, 0x3Au8]) by {
        assert("d:"@[0] as u8 == 0x64 && "d:"@[1] as u8 == 0x3A);
    }
    assert(encode_utf8("I"@) =~= seq![0x49u8]) by {
        assert("I"@[0] as u8 == 0x49);
    }
    assert(encode_utf8("u"@) =~= seq![0x75u8]) by {
        assert("u"@[0] as u8 == 0x75);
    }
}

/// Text that was written reads back.
proof fn lemma_text_round_trip(text: Seq<char>)
    ensures
        cstr_spec(Some(encode_utf8(text))) == Ok::<Seq<char>, Seq<char>>(text),
{
    vstd::utf8::encode_utf8_valid_utf8(text);
    vstd::utf8::encode_utf8_decode_utf8(text);
}

/// A field's description reads back as the field: name, type, nullability
/// and annotation survive.
pub proof fn lemma_field_round_trip(node: ArrowSchema, field: FieldModel)
    requires
        describes_field(node, field),
        field_exportable(field),
        field.consistent(),
    ensures
        child_spec(node) == Ok::<FieldModel, Seq<char>>(field),
{
    lemma_text_round_trip(field.name);
    lemma_text_round_trip(format_text(field));
    lemma_text_round_trip("u"@);
    lemma_literal_bytes();
    assert(2i64 & 2i64 != 0 && 0i64 & 2i64 == 0) by (bit_vector);
    match field.column_type {
        ColumnType::I64 => {
            match field.logical {
                Some(LogicalType::Decimal64 { scale }) => {
                    lemma_decimal_round_trip(scale);
                    let bytes = encode_utf8(format_text(field));
                    assert(bytes[0] == encode_utf8("d:"@)[0]);
                },
                Some(LogicalType::TimestampNs) => {},
                None => {},
            }
        },
        _ => {},
    }
}

/// A schema's description reads back as the schema.
pub proof fn lemma_schema_round_trip(node: ArrowSchema, schema: Seq<FieldModel>)
    requires
        describes_schema(node, schema),
        schema_exportable(schema),
        schema.len() <= usize::MAX,
        forall|i: int| 0 <= i < schema.len() ==> (#[trigger] schema[i]).consistent(),
    ensures
        schema_layout(node),
        schema_spec(node) == Ok::<Seq<FieldModel>, Seq<char>>(schema),
{
    lemma_text_round_trip("+s"@);
    lemma_children_round_trip(node, schema, schema.len());
    assert(schema.take(schema.len() as int) =~= schema);
}

/// The first children read back as the first fields.
proof fn lemma_children_round_trip(node: ArrowSchema, schema: Seq<FieldModel>, n: nat)
    requires
        describes_schema(node, schema),
        schema_exportable(schema),
        n <= schema.len(),
        forall|i: int| 0 <= i < schema.len() ==> (#[trigger] schema[i]).consistent(),
    ensures
        children_spec(node.children@, n) == Ok::<Seq<FieldModel>, Seq<char>>(
            schema.take(n as int),
        ),
    decreases n,
{
    if n == 0 {
        assert(schema.take(0) =~= Seq::<FieldModel>::empty());
    } else {
        lemma_children_round_trip(node, schema, (n - 1) as nat);
        assert(describes_field(node.children@[n - 1], schema[n - 1]));
        assert(schema[n - 1].consistent() && field_exportable(schema[n - 1]));
        lemma_field_round_trip(node.children@[n - 1], schema[n - 1]);
        assert(schema.take(n as int) =~= schema.take(n - 1).push(schema[n - 1]));
    }
}

} // verus!
