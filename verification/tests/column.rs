//! Columns and views.
use tallydb::bitmap::Bitmap;
use tallydb::buffer::{Buffer, NumericColumn};
use tallydb::column::{check_range, Column, ColumnType, NumericData};
use tallydb::float64::Float64;
use tallydb::key::KeyColumn;

fn f64_col(n: usize) -> NumericColumn<Float64> {
    let values: Vec<Float64> = (0..n).map(|i| Float64::from_bits((i as f64).to_bits())).collect();
    NumericColumn::new_non_null(Buffer::from_vec(values))
}

#[test]
fn type_tags_are_frozen() {
    assert_eq!(ColumnType::F64.tag(), 0);
    assert_eq!(ColumnType::I64.tag(), 1);
    assert_eq!(ColumnType::Key.tag(), 2);
    for t in [ColumnType::F64, ColumnType::I64, ColumnType::Key] {
        assert_eq!(ColumnType::from_tag(t.tag()), Some(t));
    }
    assert_eq!(ColumnType::from_tag(3), None);
    assert_eq!(ColumnType::from_tag(u8::MAX), None);
}

#[test]
fn column_type_matches_variant() {
    let f = Column::Numeric(NumericData::F64(f64_col(1)));
    let i = Column::Numeric(NumericData::I64(NumericColumn::new_non_null(Buffer::from_slice(
        &[1i64],
    ))));
    let k = Column::Key(KeyColumn::from_values(&["x"]));
    assert_eq!(f.column_type(), ColumnType::F64);
    assert_eq!(i.column_type(), ColumnType::I64);
    assert_eq!(k.column_type(), ColumnType::Key);
    for c in [&f, &i, &k] {
        assert_eq!(c.len(), 1);
        assert_eq!(c.null_count(), 0);
        assert!(!c.has_bitmap());
    }
}

#[test]
fn view_is_zero_copy() {
    let col = f64_col(100);
    let view = col.view(10, 20);
    assert_eq!(view.len(), 20);
    // The view's first element is the column's element 10: no copy.
    assert!(std::ptr::eq(view.values().as_ptr(), &col.values()[10]));
}

#[test]
fn empty_and_full_views() {
    let col = f64_col(5);
    assert!(col.view(0, 0).is_empty());
    assert!(col.view(5, 0).is_empty());
    assert_eq!(col.view(0, 5).values(), col.values().as_slice());
}

#[test]
fn view_sees_validity_through_offset() {
    let values: Vec<Float64> = (0..8).map(|i| Float64::from_bits((i as f64).to_bits())).collect();
    let col = NumericColumn::new_nullable(
        Buffer::from_vec(values),
        Bitmap::from_bools(&[true, false, true, true, false, true, true, true]),
    );
    let view = col.view(1, 4);
    assert!(!view.is_valid(0));
    assert!(view.is_valid(1));
    assert_eq!(view.null_count(), 2);
    assert_eq!(view.slice(1, 2).null_count(), 0);
}

#[test]
fn key_view_shares_dictionary() {
    let col = KeyColumn::from_values(&["a", "b", "c", "b", "a"]);
    let view = col.view(2, 3);
    assert_eq!(view.codes(), &[2, 1, 0]);
    assert!(std::ptr::eq(view.dictionary(), col.dictionary()));
    assert!(std::ptr::eq(view.codes().as_ptr(), &col.codes()[2]));
    assert_eq!(view.slice(1, 1).codes(), &[1]);
    assert!(view.is_valid(0));
}

#[test]
fn nested_views_match_direct_slices() {
    let data: Vec<i64> = (0..64).collect();
    let col = NumericColumn::new_non_null(Buffer::from_slice(&data));
    let mut start = 0;
    let mut len = 64;
    let mut view = col.view(0, 64);
    for step in 0..6 {
        let off = (step * 5 + 3) % (len + 1);
        let sub = len - off;
        view = view.slice(off, sub);
        start += off;
        len = sub;
        assert_eq!(view.values(), &data[start..start + len]);
    }
}

#[test]
fn ranges_past_the_end_are_told() {
    assert!(!check_range(3, 3, 5));
    assert!(check_range(3, 2, 5));
    assert!(check_range(5, 0, 5));
    assert!(!check_range(usize::MAX, 1, 5));
}
