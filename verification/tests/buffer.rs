//! Buffers and numeric columns.
use tallydb::bitmap::Bitmap;
use tallydb::buffer::{Buffer, NumericColumn};
use tallydb::float64::Float64;

fn float(value: f64) -> Float64 {
    Float64::from_bits(value.to_bits())
}

fn floats(values: &[f64]) -> Vec<Float64> {
    values.iter().map(|&value| float(value)).collect()
}

#[test]
fn from_slice_and_clone_are_independent_copies() {
    let a = Buffer::from_slice(&floats(&[1.0, 2.0, 3.0]));
    let mut b = a.clone();
    b.as_mut_slice()[0] = float(9.0);
    assert_eq!(a[0], float(1.0));
    assert_eq!(b[0], float(9.0));
    assert_ne!(a, b);
}

#[test]
fn clone_shares_until_mutation() {
    let mut a = Buffer::from_slice(&[1i64, 2, 3]);
    let b = a.clone();
    // Both handles read the same allocation.
    assert_eq!(a.as_slice().as_ptr(), b.as_slice().as_ptr());
    // Mutating one copies; the other keeps its elements in place.
    let b_ptr = b.as_slice().as_ptr();
    a.push(4);
    assert_ne!(a.as_slice().as_ptr(), b.as_slice().as_ptr());
    assert_eq!(b.as_slice().as_ptr(), b_ptr);
    assert_eq!(b.as_slice(), &[1, 2, 3]);
    assert_eq!(a.as_slice(), &[1, 2, 3, 4]);
}

#[test]
fn non_null_column_has_no_bitmap() {
    let col = NumericColumn::new_non_null(Buffer::from_slice(&[1i64, 2, 3]));
    assert!(col.validity().is_none());
    assert_eq!(col.null_count(), 0);
    assert!(col.is_valid(2));
}

#[test]
fn a_new_buffer_is_empty() {
    let buf = Buffer::<Float64>::new();
    assert!(buf.is_empty());
    assert_eq!(buf.as_slice(), &[] as &[Float64]);
    assert!(Buffer::<u32>::with_capacity(17).is_empty());
    assert!(Buffer::<i64>::default().is_empty());
}

#[test]
fn buffers_match_a_list() {
    let mut buf = Buffer::<i64>::new();
    let mut model: Vec<i64> = Vec::new();
    for i in 0..200i64 {
        buf.push(i * 3 - 50);
        model.push(i * 3 - 50);
        let chunk: Vec<i64> = (0..i % 5).collect();
        buf.extend_from_slice(&chunk);
        model.extend_from_slice(&chunk);
    }
    assert_eq!(buf.as_slice(), model.as_slice());
    assert_eq!(buf.len(), model.len());
    assert_eq!(Buffer::from_vec(model.clone()), buf);
}

#[test]
fn clone_pairs_stay_independent() {
    let mut a = Buffer::from_slice(&[7i64, 8]);
    let mut b = a.clone();
    let mut model_a = vec![7i64, 8];
    let mut model_b = vec![7i64, 8];
    for step in 0..20i64 {
        if step % 3 == 0 {
            a.push(step);
            model_a.push(step);
        } else {
            b.push(step);
            model_b.push(step);
        }
    }
    assert_eq!(a.as_slice(), model_a.as_slice());
    assert_eq!(b.as_slice(), model_b.as_slice());
}

#[test]
fn nulls_and_valid_rows_partition_the_column() {
    let bits = [true, false, false, true, true, false, true];
    let values = floats(&[0.0, 1.0, 2.0, 3.0, 4.0, 5.0, 6.0]);
    let col = NumericColumn::new_nullable(Buffer::from_vec(values), Bitmap::from_bools(&bits));
    let valid = (0..col.len()).filter(|&i| col.is_valid(i)).count();
    assert_eq!(col.null_count(), 3);
    assert_eq!(valid + col.null_count(), col.len());
    assert_eq!(col.validity(), Some(&Bitmap::from_bools(&bits)));
}

#[test]
fn columns_compare_by_value_and_validity() {
    let dense = NumericColumn::new_non_null(Buffer::from_slice(&[1i64, 2]));
    let masked = NumericColumn::new_nullable(Buffer::from_slice(&[1i64, 2]), Bitmap::new_set(2));
    assert_eq!(dense, dense.clone());
    assert_ne!(dense, masked);
    let nan = NumericColumn::new_non_null(Buffer::from_slice(&floats(&[f64::NAN])));
    assert_ne!(nan, nan.clone());
}
