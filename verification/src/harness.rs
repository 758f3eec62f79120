//! Verdicts of the round-trip harness: what importing another
//! implementation's data came to, as a code for the other side.
use crate::cdata::format::ImportError;
use crate::schema::{batches_agree, logically_equal, RecordBatch};
use vstd::prelude::*;

verus! {

/// The data came across as expected.
pub const OK: i32 = 0;

/// The data was refused.
pub const IMPORT_FAILED: i32 = 1;

/// The data came across, but is not what was expected.
pub const MISMATCH: i32 = 2;

/// The import panicked.
pub const PANICKED: i32 = 3;

/// The verdict on a batch that was to equal `expected`.
pub fn verify_batch(imported: &Result<RecordBatch, ImportError>, expected: &RecordBatch) -> (code:
    i32)
    ensures
        code == match imported {
            Ok(batch) => if batches_agree(batch@, expected@) {
                OK
            } else {
                MISMATCH
            },
            Err(_) => IMPORT_FAILED,
        },
{
    match imported {
        Ok(batch) => {
            if logically_equal(batch, expected) {
                OK
            } else {
                MISMATCH
            }
        },
        Err(_) => IMPORT_FAILED,
    }
}

/// As many batches as expected, each logically equal to its counterpart.
pub open spec fn all_agree(batches: Seq<RecordBatch>, expected: Seq<RecordBatch>) -> bool {
    batches.len() == expected.len() && forall|i: int|
        0 <= i < batches.len() ==> batches_agree((#[trigger] batches[i])@, expected[i]@)
}

/// The verdict on a stream that was to yield exactly `expected`.
pub fn verify_stream(read: &Result<Vec<RecordBatch>, ImportError>, expected: &[RecordBatch]) -> (
    code: i32)
    ensures
        code == match read {
            Ok(batches) => if all_agree(batches@, expected@) {
                OK
            } else {
                MISMATCH
            },
            Err(_) => IMPORT_FAILED,
        },
{
    match read {
        Ok(batches) => {
            if batches.len() != expected.len() {
                return MISMATCH;
            }
            for i in 0..batches.len()
                invariant
                    batches@.len() == expected@.len(),
                    *read matches Ok(held) && held@ == batches@,
                    forall|j: int|
                        0 <= j < i ==> batches_agree((#[trigger] batches@[j])@, expected@[j]@),
            {
                if !logically_equal(&batches[i], &expected[i]) {
                    assert(!batches_agree(batches@[i as int]@, expected@[i as int]@));
                    return MISMATCH;
                }
            }
            OK
        },
        Err(_) => IMPORT_FAILED,
    }
}

} // verus!
