//! Verdicts of the round-trip harness.
use tallydb::buffer::{Buffer, NumericColumn};
use tallydb::cdata::array::{export_batch, import_batch};
use tallydb::cdata::format::ImportError;
use tallydb::column::{Column, ColumnType, NumericData};
use tallydb::harness::{verify_batch, verify_stream, IMPORT_FAILED, MISMATCH, OK, PANICKED};
use tallydb::schema::{Field, RecordBatch, Schema};

fn batch(values: &[i64]) -> RecordBatch {
    RecordBatch::new(
        Schema::new(vec![Field::new("n", ColumnType::I64, false)]),
        vec![Column::Numeric(NumericData::I64(NumericColumn::new_non_null(Buffer::from_slice(
            values,
        ))))],
    )
}

#[test]
fn batches_are_judged_against_what_was_expected() {
    let (schema, array) = export_batch(&batch(&[1, 2]));
    let imported = import_batch(schema, array);
    assert_eq!(verify_batch(&imported, &batch(&[1, 2])), OK);
    assert_eq!(verify_batch(&imported, &batch(&[1, 3])), MISMATCH);
    assert_eq!(verify_batch(&Err(ImportError::new("gone")), &batch(&[1])), IMPORT_FAILED);
    assert_eq!((OK, IMPORT_FAILED, MISMATCH, PANICKED), (0, 1, 2, 3));
}

#[test]
fn streams_are_judged_batch_by_batch() {
    let expected = [batch(&[0, 1]), batch(&[10, 11]), batch(&[20, 21])];
    let same = Ok(vec![batch(&[0, 1]), batch(&[10, 11]), batch(&[20, 21])]);
    assert_eq!(verify_stream(&same, &expected), OK);
    let short = Ok(vec![batch(&[0, 1]), batch(&[10, 11])]);
    assert_eq!(verify_stream(&short, &expected), MISMATCH);
    let swapped = Ok(vec![batch(&[10, 11]), batch(&[0, 1]), batch(&[20, 21])]);
    assert_eq!(verify_stream(&swapped, &expected), MISMATCH);
    assert_eq!(verify_stream(&Err(ImportError::new("gone")), &expected), IMPORT_FAILED);
}
