//! Logical types and schemas.
use tallydb::bitmap::Bitmap;
use tallydb::buffer::{Buffer, NumericColumn};
use tallydb::column::{Column, ColumnType, NumericData};
use tallydb::float64::Float64;
use tallydb::key::KeyColumn;
use tallydb::logical::{LogicalType, DECIMAL64_PRECISION};
use tallydb::schema::{logically_equal, Field, RecordBatch, Schema};

#[test]
fn tags_are_frozen() {
    assert_eq!(LogicalType::TimestampNs.tag(), 1);
    assert_eq!(LogicalType::Decimal64 { scale: 0 }.tag(), 2);
}

#[test]
fn from_parts_round_trips_and_rejects() {
    for lt in [
        LogicalType::TimestampNs,
        LogicalType::Decimal64 { scale: 0 },
        LogicalType::Decimal64 { scale: 2 },
        LogicalType::Decimal64 {
            scale: DECIMAL64_PRECISION,
        },
    ] {
        let payload = match lt {
            LogicalType::Decimal64 { scale } => scale,
            _ => 0,
        };
        assert_eq!(LogicalType::from_parts(lt.tag(), payload), Some(lt));
    }
    assert_eq!(LogicalType::from_parts(0, 0), None);
    assert_eq!(LogicalType::from_parts(3, 0), None);
    assert_eq!(LogicalType::from_parts(2, DECIMAL64_PRECISION + 1), None);
}

#[test]
fn annotations_apply_to_i64_only() {
    for lt in [
        LogicalType::TimestampNs,
        LogicalType::Decimal64 { scale: 4 },
    ] {
        assert!(lt.valid_for(ColumnType::I64));
        assert!(!lt.valid_for(ColumnType::F64));
        assert!(!lt.valid_for(ColumnType::Key));
    }
}

#[test]
fn format_strings_match_arrow_c_data_spec() {
    assert_eq!(LogicalType::TimestampNs.c_data_format(), "tsn:");
    assert_eq!(
        LogicalType::Decimal64 { scale: 0 }.c_data_format(),
        "d:18,0,64"
    );
    assert_eq!(
        LogicalType::Decimal64 { scale: 18 }.c_data_format(),
        "d:18,18,64"
    );
}

fn f64_column(values: &[f64]) -> Column {
    let floats: Vec<Float64> = values.iter().map(|v| Float64::from_bits(v.to_bits())).collect();
    Column::Numeric(NumericData::F64(NumericColumn::new_non_null(Buffer::from_vec(floats))))
}

#[test]
fn empty_batch_is_fine() {
    let batch = RecordBatch::new(Schema::new(vec![]), vec![]);
    assert_eq!(batch.num_rows(), 0);
}

#[test]
fn columns_that_do_not_bind_are_told() {
    let key = Schema::new(vec![Field::new("k", ColumnType::Key, false)]);
    let failure = RecordBatch::check(&key, &vec![f64_column(&[1.0])]).unwrap();
    assert!(failure.contains("wrong physical type"), "{failure}");

    let two = Schema::new(vec![
        Field::new("a", ColumnType::F64, false),
        Field::new("b", ColumnType::F64, false),
    ]);
    let ragged = vec![f64_column(&[1.0, 2.0]), f64_column(&[1.0])];
    let failure = RecordBatch::check(&two, &ragged).unwrap();
    assert!(failure.contains("expected 2"), "{failure}");

    let one = Schema::new(vec![Field::new("a", ColumnType::F64, false)]);
    let masked = Column::Numeric(NumericData::F64(NumericColumn::new_nullable(
        Buffer::from_slice(&[Float64::from_bits(1.0f64.to_bits())]),
        Bitmap::new_set(1),
    )));
    let failure = RecordBatch::check(&one, &vec![masked]).unwrap();
    assert!(failure.contains("carries a validity bitmap"), "{failure}");

    assert_eq!(RecordBatch::check(&two, &vec![f64_column(&[1.0]), f64_column(&[2.0])]), None);
    assert!(RecordBatch::check(&two, &vec![f64_column(&[1.0])]).is_some());
}

#[test]
fn fields_keep_what_they_are_given() {
    let field = Field::new("ts", ColumnType::I64, false).with_logical(LogicalType::TimestampNs);
    assert_eq!(field.name(), "ts");
    assert_eq!(field.column_type(), ColumnType::I64);
    assert!(!field.nullable());
    assert_eq!(field.logical(), Some(LogicalType::TimestampNs));
    assert_eq!(Field::new("x", ColumnType::F64, true).logical(), None);
}

#[test]
fn values_under_nulls_do_not_matter_logically() {
    let schema = Schema::new(vec![Field::new("x", ColumnType::I64, true)]);
    let column = |values: &[i64], bits: &[bool]| {
        Column::Numeric(NumericData::I64(NumericColumn::new_nullable(
            Buffer::from_slice(values),
            Bitmap::from_bools(bits),
        )))
    };
    let a = RecordBatch::new(schema.clone(), vec![column(&[1, 7], &[true, false])]);
    let b = RecordBatch::new(schema.clone(), vec![column(&[1, 9], &[true, false])]);
    let c = RecordBatch::new(schema, vec![column(&[1, 9], &[true, true])]);
    assert!(logically_equal(&a, &b));
    assert!(a != b);
    assert!(!logically_equal(&a, &c));
    let keys = Schema::new(vec![Field::new("k", ColumnType::Key, false)]);
    let k = RecordBatch::new(keys.clone(), vec![Column::Key(KeyColumn::from_values(&["a"]))]);
    let l = RecordBatch::new(keys, vec![Column::Key(KeyColumn::from_values(&["b"]))]);
    assert!(logically_equal(&k, &k.clone()));
    assert!(!logically_equal(&k, &l));
}

#[test]
fn formats_tell_annotations_apart() {
    let mut formats = vec![LogicalType::TimestampNs.c_data_format()];
    for scale in 0..=18u8 {
        formats.push(LogicalType::Decimal64 { scale }.c_data_format());
    }
    for (i, format) in formats.iter().enumerate() {
        assert_eq!(formats.iter().position(|other| other == format), Some(i));
    }
}
