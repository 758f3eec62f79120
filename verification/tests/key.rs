//! Dictionaries and key columns.
use tallydb::bitmap::Bitmap;
use tallydb::buffer::Buffer;
use tallydb::key::{Dictionary, KeyColumn};

#[test]
fn empty_dictionary() {
    let dict = Dictionary::new();
    assert!(dict.is_empty());
    assert_eq!(dict.offsets(), &[0]);
    assert_eq!(dict.bytes(), &[] as &[u8]);
    assert_eq!(dict.code_of("anything"), None);
}

#[test]
fn interning_is_idempotent_and_codes_are_stable() {
    let mut dict = Dictionary::new();
    let a = dict.intern("alpha");
    let b = dict.intern("beta");
    assert_eq!(dict.intern("alpha"), a);
    assert_eq!(dict.len(), 2);
    let c = dict.intern("gamma");
    assert_eq!((a, b, c), (0, 1, 2));
    assert_eq!(dict.value(a), "alpha");
    assert_eq!(dict.value(b), "beta");
}

#[test]
fn empty_string_is_a_distinct_value() {
    let mut dict = Dictionary::new();
    let empty = dict.intern("");
    let x = dict.intern("x");
    assert_eq!(dict.value(empty), "");
    assert_eq!(dict.value(x), "x");
    assert_eq!(dict.offsets(), &[0, 0, 1]);
}

#[test]
fn nullable_key_column_reads_nulls() {
    let mut dict = Dictionary::new();
    dict.intern("v");
    let col = KeyColumn::new_nullable(
        Buffer::from_slice(&[0, 0]),
        Bitmap::from_bools(&[true, false]),
        dict,
    );
    assert_eq!(col.null_count(), 1);
    assert_eq!(col.value_at(0), Some("v"));
    assert_eq!(col.value_at(1), None);
}

#[test]
fn interning_matches_a_list_of_distinct_values() {
    let mut dict = Dictionary::new();
    let mut model: Vec<String> = Vec::new();
    for step in 0..300usize {
        let value = format!("v{}é", (step * step) % 41);
        let code = dict.intern(&value);
        let expect = match model.iter().position(|m| *m == value) {
            Some(i) => i,
            None => {
                model.push(value.clone());
                model.len() - 1
            }
        };
        assert_eq!(code as usize, expect);
    }
    assert_eq!(dict.len(), model.len());
    for (i, value) in model.iter().enumerate() {
        assert_eq!(dict.value(i as u32), value.as_str());
        assert_eq!(dict.code_of(value), Some(i as u32));
    }
    assert_eq!(dict.offsets()[0], 0);
    assert!(dict.offsets().windows(2).all(|w| w[0] <= w[1]));
    assert_eq!(*dict.offsets().last().unwrap() as usize, dict.bytes().len());
    let copy = dict.clone();
    assert!(copy == dict);
    assert_eq!(copy.code_of(&model[3]), Some(3));
}

#[test]
fn a_key_column_round_trips_every_row() {
    let values = ["AAPL", "MSFT", "", "AAPL", "TSLA", ""];
    let col = KeyColumn::from_values(&values);
    assert_eq!(col.len(), values.len());
    assert_eq!(col.null_count(), 0);
    for (i, value) in values.iter().enumerate() {
        assert_eq!(col.value_at(i), Some(*value));
    }
    assert_eq!(col.dictionary().len(), 4);
    assert_eq!(col.codes().as_slice(), &[0, 1, 2, 0, 3, 2]);
}

#[test]
fn dangling_codes_are_found() {
    let mut dict = Dictionary::new();
    dict.intern("only");
    assert_eq!(KeyColumn::validate_codes(&Buffer::from_slice(&[0, 1]), &dict), Some(1));
    assert_eq!(KeyColumn::validate_codes(&Buffer::from_slice(&[0, 0]), &dict), None);
}
