//! The C data boundary: exports, imports, and streams.
use std::sync::Arc;
use tallydb::bitmap::Bitmap;
use tallydb::buffer::{Buffer, NumericColumn};
use tallydb::cdata::array::{
    export_array, export_batch, import_array, import_batch, ArrowArray, ArrowBuffer,
};
use tallydb::cdata::format::{
    export_schema, field_format, parse_decimal, parse_field, parse_schema, ArrowSchema, ImportError,
};
use tallydb::cdata::stream::{export_stream, ArrowArrayStream, StreamReader, EINVAL};
use tallydb::column::{Column, ColumnType, NumericData};
use tallydb::float64::Float64;
use tallydb::key::{Dictionary, KeyColumn};
use tallydb::logical::LogicalType;
use tallydb::schema::{Field, RecordBatch, Schema};

fn floats(values: &[f64]) -> Buffer<Float64> {
    let bits: Vec<Float64> = values.iter().map(|v| Float64::from_bits(v.to_bits())).collect();
    Buffer::from_vec(bits)
}

fn i64s(values: &[i64]) -> Column {
    Column::Numeric(NumericData::I64(NumericColumn::new_non_null(Buffer::from_slice(values))))
}

fn test_batch() -> RecordBatch {
    let schema = Schema::new(vec![
        Field::new("ts", ColumnType::I64, false).with_logical(LogicalType::TimestampNs),
        Field::new("sym", ColumnType::Key, false),
        Field::new("px", ColumnType::F64, true),
        Field::new("qty", ColumnType::I64, false),
    ]);
    RecordBatch::new(
        schema,
        vec![
            i64s(&[1_000, 2_000, 3_000]),
            Column::Key(KeyColumn::from_values(&["AAPL", "MSFT", "AAPL"])),
            Column::Numeric(NumericData::F64(NumericColumn::new_nullable(
                floats(&[101.5, 0.0, 99.25]),
                Bitmap::from_bools(&[true, false, true]),
            ))),
            i64s(&[10, 20, 30]),
        ],
    )
}

/// Imports and takes the error's text.
fn refused(schema: ArrowSchema, array: ArrowArray) -> String {
    match import_batch(schema, array) {
        Ok(_) => panic!("the import went through"),
        Err(error) => error.to_text(),
    }
}

fn round_trip(batch: &RecordBatch) -> RecordBatch {
    let (schema, array) = export_batch(batch);
    match import_batch(schema, array) {
        Ok(imported) => imported,
        Err(error) => panic!("{}", error.to_text()),
    }
}

#[test]
fn self_round_trip_preserves_batch() {
    let batch = test_batch();
    assert!(round_trip(&batch) == batch);
}

#[test]
fn release_is_idempotent() {
    let (mut schema, mut array) = export_batch(&test_batch());
    array.release();
    array.release();
    schema.release();
    schema.release();
    assert!(!schema.live);
    assert!(!array.live);
}

#[test]
fn empty_batch_round_trips() {
    let schema = Schema::new(vec![
        Field::new("x", ColumnType::F64, false),
        Field::new("k", ColumnType::Key, false),
    ]);
    let batch = RecordBatch::new(
        schema,
        vec![
            Column::Numeric(NumericData::F64(NumericColumn::new_non_null(Buffer::new()))),
            Column::Key(KeyColumn::from_values(&[])),
        ],
    );
    assert!(round_trip(&batch) == batch);
}

#[test]
fn nullable_key_round_trips() {
    let mut dict = Dictionary::new();
    dict.intern("only");
    let schema = Schema::new(vec![Field::new("k", ColumnType::Key, true)]);
    let batch = RecordBatch::new(
        schema,
        vec![Column::Key(KeyColumn::new_nullable(
            Buffer::from_slice(&[0, 0, 0]),
            Bitmap::from_bools(&[true, false, true]),
            dict,
        ))],
    );
    assert!(round_trip(&batch) == batch);
}

#[test]
fn logical_annotations_survive_round_trip() {
    let schema = Schema::new(vec![
        Field::new("ts", ColumnType::I64, false).with_logical(LogicalType::TimestampNs),
        Field::new("amt", ColumnType::I64, false).with_logical(LogicalType::Decimal64 { scale: 2 }),
    ]);
    let batch = RecordBatch::new(schema, vec![i64s(&[1, 2]), i64s(&[199, 250])]);
    let imported = round_trip(&batch);
    assert!(imported == batch);
    assert_eq!(
        imported.schema().fields()[1].logical(),
        Some(LogicalType::Decimal64 { scale: 2 })
    );
}

fn slice_batch(i: i64) -> RecordBatch {
    let schema = Schema::new(vec![Field::new("x", ColumnType::F64, false)]);
    RecordBatch::new(
        schema,
        vec![Column::Numeric(NumericData::F64(NumericColumn::new_non_null(floats(&[
            i as f64,
            i as f64 + 0.5,
        ]))))],
    )
}

/// Drives a stream to its end: the schema, then every answer.
fn drive(
    mut stream: ArrowArrayStream,
    batches: &[RecordBatch],
) -> (StreamReader, Vec<Result<RecordBatch, ImportError>>) {
    assert!(stream.live());
    let reader = match StreamReader::new(0, &stream.get_schema(), None) {
        Ok(reader) => reader,
        Err(error) => panic!("{}", error.to_text()),
    };
    let mut items = Vec::new();
    let mut position = 0;
    loop {
        let (code, array) = stream.get_next(batches.get(position));
        position += 1;
        match reader.next(code, array, stream.get_last_error()) {
            Some(item) => items.push(item),
            None => break,
        }
        if code != 0 {
            break;
        }
    }
    stream.release();
    assert!(!stream.live());
    (reader, items)
}

#[test]
fn stream_round_trips_batches_in_order() {
    let batches: Vec<RecordBatch> = (0..3).map(slice_batch).collect();
    let schema = batches[0].schema().clone();
    let (reader, items) = drive(export_stream(schema.clone()), &batches);
    assert_eq!(reader.schema(), &schema);
    assert_eq!(items.len(), 3);
    for (item, batch) in items.iter().zip(&batches) {
        match item {
            Ok(read) => assert!(read == batch),
            Err(error) => panic!("{}", error.to_text()),
        }
    }
}

#[test]
fn stream_rejects_mismatched_batch_schema() {
    let schema_a = Schema::new(vec![Field::new("a", ColumnType::F64, false)]);
    let schema_b = Schema::new(vec![Field::new("b", ColumnType::I64, false)]);
    let odd_batch = RecordBatch::new(schema_b, vec![i64s(&[1])]);
    let mut stream = export_stream(schema_a);
    let (code, array) = stream.get_next(Some(&odd_batch));
    assert_eq!(code, EINVAL);
    assert!(!array.live);
    let reader = match StreamReader::new(0, &stream.get_schema(), None) {
        Ok(reader) => reader,
        Err(error) => panic!("{}", error.to_text()),
    };
    match reader.next(code, array, stream.get_last_error()) {
        Some(Err(error)) => assert!(error.to_text().contains("schema differs")),
        _ => panic!("one item, an error"),
    }
}

#[test]
fn dropping_exports_unconsumed_frees_them() {
    let (mut schema, mut array) = export_batch(&test_batch());
    schema.release();
    array.release();
    assert!(schema.children.is_empty() && array.children.is_empty());
    let mut stream = export_stream(Schema::new(vec![Field::new("x", ColumnType::F64, false)]));
    stream.release();
    assert!(!stream.live());
}

/// A type description with nothing below it.
fn node(format: &str, name: &str, flags: i64) -> ArrowSchema {
    ArrowSchema {
        format: Some(format.as_bytes().to_vec()),
        name: Some(name.as_bytes().to_vec()),
        flags,
        n_children: 0,
        children: Vec::new(),
        dictionary: None,
        live: true,
    }
}

#[test]
fn import_rejects_non_struct_root() {
    let schema = node("g", "x", 0);
    let array = export_array(&RecordBatch::new(Schema::new(vec![]), vec![]));
    assert!(refused(schema, array).contains("expected struct root"));
}

#[test]
fn import_rejects_released_structs() {
    let (mut schema, mut array) = export_batch(&test_batch());
    schema.release();
    array.release();
    assert!(refused(schema, array).contains("released"));
    let (schema, mut array) = export_batch(&test_batch());
    array.release();
    assert_eq!(refused(schema, array), "arrow import: array struct already released");
    assert_eq!(
        refused(ArrowSchema::empty(), ArrowArray::empty()),
        "arrow import: schema struct already released"
    );
}

#[test]
fn a_child_behind_an_offset_reads_from_there() {
    let (schema, mut array) = export_batch(&test_batch());
    array.offset = 1;
    array.length = 2;
    let imported = match import_batch(schema, array) {
        Ok(imported) => imported,
        Err(error) => panic!("{}", error.to_text()),
    };
    assert_eq!(imported.num_rows(), 2);
    match &imported.columns()[0] {
        Column::Numeric(NumericData::I64(ts)) => {
            assert_eq!(ts.values().as_slice(), &[2_000, 3_000]);
        }
        _ => panic!("integers"),
    }
    match &imported.columns()[1] {
        Column::Key(sym) => {
            assert_eq!(sym.value_at(0), Some("MSFT"));
            assert_eq!(sym.value_at(1), Some("AAPL"));
        }
        _ => panic!("keys"),
    }
    match &imported.columns()[2] {
        Column::Numeric(NumericData::F64(px)) => {
            assert!(!px.is_valid(0));
            assert!(px.is_valid(1));
        }
        _ => panic!("floats"),
    }
}

#[test]
fn an_all_set_bitmap_is_dropped_on_the_way() {
    let schema = Schema::new(vec![Field::new("x", ColumnType::I64, true)]);
    let column = Column::Numeric(NumericData::I64(NumericColumn::new_nullable(
        Buffer::from_slice(&[4i64, 5]),
        Bitmap::new_set(2),
    )));
    let imported = round_trip(&RecordBatch::new(schema, vec![column]));
    assert!(!imported.columns()[0].has_bitmap());
    assert_eq!(imported.columns()[0].null_count(), 0);
}

#[test]
fn malformed_arrays_are_refused() {
    let spoil = |change: fn(&mut ArrowArray)| {
        let (schema, mut array) = export_batch(&test_batch());
        change(&mut array);
        refused(schema, array)
    };
    assert!(spoil(|a| a.length = -1).contains("negative length"));
    assert!(spoil(|a| a.offset = -1).contains("negative offset"));
    assert!(spoil(|a| a.null_count = 1).contains("struct-level nulls are unsupported"));
    assert!(spoil(|a| a.n_children = 3).contains("schema has 4 fields but array has 3 children"));
    assert!(spoil(|a| a.children[0].live = false).contains("child array already released"));
    assert!(spoil(|a| a.children[0].length = -1).contains("negative child length"));
    assert!(spoil(|a| a.children[0].offset = -1).contains("negative child offset"));
    assert!(spoil(|a| a.children[0].length = 2).contains("'ts': child length 2"));
    assert!(spoil(|a| a.children[0].buffers[1] = ArrowBuffer::Null).contains("null data buffer"));
    assert!(spoil(|a| a.children[1].dictionary = None).contains("has no dictionary array"));
    assert!(spoil(|a| {
        if let Some(dictionary) = &mut a.children[1].dictionary {
            dictionary.null_count = 1;
        }
    })
    .contains("null dictionary values are unsupported"));
    assert!(spoil(|a| {
        a.children[1].buffers[1] = ArrowBuffer::U32(Buffer::from_slice(&[0, 2, 1]));
    })
    .contains("out of dictionary range"));
    assert!(spoil(|a| {
        if let Some(dictionary) = &mut a.children[1].dictionary {
            dictionary.buffers[1] = ArrowBuffer::Offsets(Arc::new(vec![0, 4, 2]));
        }
    })
    .contains("utf8 offsets not monotone"));
    assert!(spoil(|a| {
        if let Some(dictionary) = &mut a.children[1].dictionary {
            dictionary.buffers[2] = ArrowBuffer::Bytes(Arc::new(b"SAMESAME".to_vec()));
        }
    })
    .contains("duplicate dictionary values are unsupported"));
    assert!(spoil(|a| {
        if let Some(dictionary) = &mut a.children[1].dictionary {
            dictionary.buffers[2] = ArrowBuffer::Bytes(Arc::new(vec![0xFF; 8]));
        }
    })
    .contains("dictionary value is not UTF-8"));
    assert!(spoil(|a| {
        a.children[0].null_count = 1;
        a.children[0].buffers[0] = ArrowBuffer::Bits(Arc::new(vec![0b0000_0101]));
    })
    .contains("declared NOT NULL but has nulls"));
}

#[test]
fn formats_are_read_back() {
    let exported = export_schema(test_batch().schema());
    match parse_schema(&exported) {
        Ok(schema) => assert_eq!(&schema, test_batch().schema()),
        Err(error) => panic!("{}", error.to_text()),
    }
    assert_eq!(field_format(&Field::new("x", ColumnType::F64, false)), "g");
    assert_eq!(field_format(&Field::new("x", ColumnType::I64, false)), "l");
    assert_eq!(field_format(&Field::new("x", ColumnType::Key, false)), "I");
    match parse_field(&node("l", "n", 0)) {
        Ok(field) => assert_eq!(field, Field::new("n", ColumnType::I64, false)),
        Err(error) => panic!("{}", error.to_text()),
    }
    match parse_field(&node("g", "n", 2)) {
        Ok(field) => assert!(field.nullable()),
        Err(error) => panic!("{}", error.to_text()),
    }
}

#[test]
fn odd_formats_are_refused() {
    let refusal = |child: ArrowSchema| match parse_field(&child) {
        Ok(_) => panic!("the field went through"),
        Err(error) => error.to_text(),
    };
    assert_eq!(
        refusal(node("i", "n", 0)),
        "arrow import: unsupported format 'i' for field 'n'"
    );
    let mut wide = node("L", "k", 0);
    wide.dictionary = Some(Box::new(node("u", "", 0)));
    assert!(refusal(wide).contains("unsupported dictionary index format 'L' (u32 'I' only)"));
    let mut large = node("I", "k", 0);
    large.dictionary = Some(Box::new(node("U", "", 0)));
    assert!(refusal(large).contains("unsupported dictionary value format 'U' (utf8 'u' only)"));
    let mut nameless = node("g", "x", 0);
    nameless.name = Some(vec![0xC0]);
    assert!(refusal(nameless).contains("string is not UTF-8"));
    let mut formatless = node("g", "x", 0);
    formatless.format = None;
    assert!(refusal(formatless).contains("unexpected null string"));
    assert_eq!(parse_decimal("d:18,2,64"), Ok(LogicalType::Decimal64 { scale: 2 }));
    for scale in 0..=18u8 {
        let annotation = LogicalType::Decimal64 { scale };
        assert_eq!(parse_decimal(&annotation.c_data_format()), Ok(annotation));
    }
    for odd in [
        "d:18,19,64",
        "d:17,2,64",
        "d:18,2,128",
        "d:18,2",
        "d:18,x,64",
        "d:+18,2,64",
        "d:018,2,64",
        "d:18,02,64",
        "d:18,+2,64",
        "d:18,2,64,",
        "d:18,,64",
        "d:18, 2,64",
        "d:",
        "tsn:",
        "",
    ] {
        match parse_decimal(odd) {
            Ok(_) => panic!("{odd}"),
            Err(error) => assert!(error.to_text().contains("unsupported decimal format")),
        }
    }
}

#[test]
fn stream_failures_carry_their_detail() {
    let reader = StreamReader::new(5, &ArrowSchema::empty(), Some("gone"));
    match reader {
        Ok(_) => panic!("the stream opened"),
        Err(error) => assert_eq!(error.to_text(), "arrow import: get_schema failed (5): gone"),
    }
    match StreamReader::new(7, &ArrowSchema::empty(), None) {
        Ok(_) => panic!("the stream opened"),
        Err(error) => assert!(error.to_text().contains("(no error detail)")),
    }
    assert!(StreamReader::check_callbacks(true, true).is_ok());
    assert!(StreamReader::check_callbacks(false, true).is_err());
    assert!(StreamReader::check_callbacks(true, false).is_err());
    assert!(!ArrowArrayStream::empty().live());
}

#[test]
fn a_batch_reads_under_the_schema_it_was_written_with() {
    let batch = test_batch();
    match import_array(batch.schema(), export_array(&batch)) {
        Ok(imported) => assert!(imported == batch),
        Err(error) => panic!("{}", error.to_text()),
    }
}

#[test]
fn export_is_zero_copy() {
    let batch = test_batch();
    let Column::Numeric(NumericData::F64(px)) = &batch.columns()[2] else {
        unreachable!()
    };
    let (schema, array) = export_batch(&batch);
    assert!(schema.live);
    // The exported data buffer is the column's buffer.
    let ArrowBuffer::F64(data) = &array.children[2].buffers[1] else {
        panic!("floats")
    };
    assert_eq!(data.as_slice().as_ptr(), px.values().as_slice().as_ptr());
}

#[test]
fn validity_and_strings_are_shared_too() {
    let mut dictionary = Dictionary::new();
    dictionary.intern("a");
    dictionary.intern("b");
    let keys = KeyColumn::new_nullable(
        Buffer::from_slice(&[0, 1, 0]),
        Bitmap::from_bools(&[true, true, false]),
        dictionary,
    );
    let batch = RecordBatch::new(
        Schema::new(vec![Field::new("k", ColumnType::Key, true)]),
        vec![Column::Key(keys)],
    );
    let array = export_array(&batch);
    let Column::Key(held) = &batch.columns()[0] else {
        unreachable!()
    };
    let child = &array.children[0];
    let ArrowBuffer::Bits(bits) = &child.buffers[0] else {
        panic!("bits")
    };
    assert_eq!(
        bits.as_ptr(),
        held.validity().unwrap().as_bytes().as_ptr()
    );
    let words = child.dictionary.as_ref().unwrap();
    let (ArrowBuffer::Offsets(offsets), ArrowBuffer::Bytes(bytes)) =
        (&words.buffers[1], &words.buffers[2])
    else {
        panic!("strings")
    };
    assert_eq!(offsets.as_ptr(), held.dictionary().offsets().as_ptr());
    assert_eq!(bytes.as_ptr(), held.dictionary().bytes().as_ptr());
}

#[test]
fn a_released_dictionary_is_refused() {
    let (schema, mut array) = export_batch(&test_batch());
    match &mut array.children[1].dictionary {
        Some(dictionary) => {
            dictionary.live = false;
            dictionary.buffers[1] = ArrowBuffer::Offsets(Arc::new(Vec::new()));
            dictionary.buffers[2] = ArrowBuffer::Bytes(Arc::new(Vec::new()));
        }
        None => panic!("a dictionary"),
    }
    assert!(refused(schema, array).contains("dictionary array already released"));
}
