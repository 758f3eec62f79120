//! The value map: reads, writes, coercions and results. Each test does what
//! a script would: it indexes views, writes slots, and returns a value.
use tallydb::bitmap::Bitmap;
use tallydb::float64::Float64;
use tallydb::key::Dictionary;
use tallydb::lua::state::{bind_inputs, LuaState, Ran};
use tallydb::lua::values::{
    check_alive, check_handle, check_view, element_index, input_index, input_method, key_code_of,
    key_text, mask_index, read_result, view_sum, write_refusal, ColumnView, Handle, LuaValue,
    OutputColumn, Reply, ReturnType, ScalarValue, ViewMethod, ViewSum,
};
use tallydb::lua::vector::{null_arithmetic, vector_binary, Argument};

fn float(value: f64) -> Float64 {
    Float64::from_bits(value.to_bits())
}

fn floats(values: &[f64]) -> Vec<Float64> {
    values.iter().map(|&value| float(value)).collect()
}

fn to_f64(value: Float64) -> f64 {
    f64::from_bits(value.to_bits())
}

fn f64s<'a>(values: &'a [Float64], validity: Option<&'a Bitmap>) -> ColumnView<'a> {
    ColumnView::F64 {
        floats: values,
        validity,
    }
}

fn i64s<'a>(values: &'a [i64], validity: Option<&'a Bitmap>) -> ColumnView<'a> {
    ColumnView::I64 {
        integers: values,
        validity,
    }
}

/// What a reply is once a script holds it.
fn held(reply: Reply) -> LuaValue {
    match reply {
        Reply::Nil => LuaValue::Nil,
        Reply::Null => LuaValue::Null,
        Reply::Number(value) => LuaValue::Number(value),
        Reply::Integer(value) => LuaValue::Integer(value),
        Reply::Boolean(value) => LuaValue::Boolean(value),
        Reply::Text(text) => LuaValue::Text(text.into_bytes()),
    }
}

fn read(view: &ColumnView<'_>, index: i64) -> LuaValue {
    held(input_index(view, Some(index)).unwrap())
}

fn f64_output(len: usize) -> OutputColumn {
    OutputColumn::F64 {
        floats: floats(&vec![0.0; len]),
        validity: Bitmap::new_unset(len),
    }
}

fn i64_output(len: usize) -> OutputColumn {
    OutputColumn::I64 {
        integers: vec![0; len],
        validity: Bitmap::new_unset(len),
    }
}

fn write(output: &mut OutputColumn, index: i64, value: LuaValue) -> Result<(), &'static str> {
    output.write(true, Some(index), &value)
}

fn bits(output: &OutputColumn) -> Vec<bool> {
    let validity = match output {
        OutputColumn::F64 { validity, .. } => validity,
        OutputColumn::I64 { validity, .. } => validity,
        OutputColumn::Key { validity, .. } => validity,
    };
    (0..validity.len()).map(|i| validity.get(i)).collect()
}

fn f64_values(output: &OutputColumn) -> Vec<f64> {
    match output {
        OutputColumn::F64 { floats, .. } => floats.iter().map(|&v| to_f64(v)).collect(),
        _ => panic!("a float output"),
    }
}

fn i64_values(output: &OutputColumn) -> Vec<i64> {
    match output {
        OutputColumn::I64 { integers, .. } => integers.clone(),
        _ => panic!("an integer output"),
    }
}

#[test]
fn f64_view_is_zero_copy_and_reads_exactly() {
    let source: Vec<f64> = (0..1000).map(|i| f64::from(i) * 0.25 - 100.0).collect();
    let values = floats(&source);
    let view = f64s(&values, None);
    let mut sum = 0.0;
    for i in 1..=view.len() as i64 {
        match read(&view, i) {
            LuaValue::Number(value) => sum += to_f64(value),
            _ => panic!("a float"),
        }
    }
    let expected: f64 = source.iter().sum();
    assert_eq!(
        read_result(&LuaValue::Number(float(sum)), ReturnType::F64),
        Ok(ScalarValue::F64(float(expected)))
    );
    // The view is the buffer itself.
    match view {
        ColumnView::F64 { floats, .. } => assert_eq!(floats.as_ptr(), values.as_ptr()),
        _ => panic!("a float view"),
    }
}

#[test]
fn i64_view_crosses_exactly_beyond_2_pow_53() {
    let values: Vec<i64> = vec![9_007_199_254_740_993, -9_007_199_254_740_993];
    let view = i64s(&values, None);
    let first = match read(&view, 1) {
        LuaValue::Integer(value) => value,
        _ => panic!("an integer"),
    };
    assert_eq!(
        read_result(&LuaValue::Integer(first - 9_007_199_254_740_992), ReturnType::I64),
        Ok(ScalarValue::I64(1))
    );
    match &view {
        ColumnView::I64 { integers, .. } => assert_eq!(integers.as_ptr(), values.as_ptr()),
        _ => panic!("integers"),
    }
}

#[test]
fn output_writes_land_in_the_callers_buffer() {
    let values = floats(&[1.0, 2.0, 3.0]);
    let view = f64s(&values, None);
    let out = floats(&[0.0; 3]);
    let pointer = out.as_ptr();
    let mut output = OutputColumn::F64 {
        floats: out,
        validity: Bitmap::new_unset(3),
    };
    output.bind();
    for i in 1..=3 {
        match read(&view, i) {
            LuaValue::Number(value) => {
                write(&mut output, i, LuaValue::Number(float(to_f64(value) * 2.0))).unwrap();
            }
            _ => panic!("a float"),
        }
    }
    assert_eq!(f64_values(&output), [2.0, 4.0, 6.0]);
    // The buffer that was handed in is the one that was filled, and it comes
    // back.
    match output {
        OutputColumn::F64 { floats, validity } => {
            assert_eq!(floats.as_ptr(), pointer);
            assert_eq!(validity.count_set(), 3);
        }
        _ => panic!("floats"),
    }
}

#[test]
fn null_reads_as_sentinel_and_propagates_through_arithmetic() {
    let values = floats(&[1.0, 2.0, 3.0]);
    let validity = Bitmap::from_bools(&[true, false, true]);
    let view = f64s(&values, Some(&validity));
    // Adding the sentinel to a number gives the sentinel.
    assert!(matches!(read(&view, 2), LuaValue::Null));
    assert!(matches!(
        null_arithmetic(&Argument::Number(float(1.0)), &Argument::Null),
        Ok(None)
    ));
    assert_eq!(read_result(&LuaValue::Null, ReturnType::F64), Ok(ScalarValue::Null));
    // The guarded sum skips it.
    let mut sum = 0.0;
    for i in 1..=3 {
        if let LuaValue::Number(value) = read(&view, i) {
            sum += to_f64(value);
        }
    }
    assert_eq!(
        read_result(&LuaValue::Number(float(sum)), ReturnType::F64),
        Ok(ScalarValue::F64(float(4.0)))
    );
}

#[test]
fn nan_and_null_stay_distinct() {
    let values = floats(&[f64::NAN, 5.0]);
    let validity = Bitmap::from_bools(&[true, false]);
    let view = f64s(&values, Some(&validity));
    let mut nulls = 0;
    let mut nans = 0;
    for i in 1..=2 {
        match read(&view, i) {
            LuaValue::Null => nulls += 1,
            LuaValue::Number(value) if value.is_nan() => nans += 1,
            _ => {}
        }
    }
    assert_eq!(
        read_result(&LuaValue::Integer(nulls * 10 + nans), ReturnType::I64),
        Ok(ScalarValue::I64(11)),
        "one NULL and one NaN"
    );
}

#[test]
fn sentinel_propagates_over_the_integer_subtype() {
    let sum = null_arithmetic(&Argument::Integer(9_007_199_254_740_993), &Argument::Null);
    assert!(matches!(sum, Ok(None)));
    assert_eq!(read_result(&LuaValue::Null, ReturnType::I64), Ok(ScalarValue::Null));
}

#[test]
fn declared_type_is_enforced_not_inferred() {
    let three = LuaValue::Integer(3);
    assert_eq!(read_result(&three, ReturnType::F64), Ok(ScalarValue::F64(float(3.0))));
    assert_eq!(read_result(&three, ReturnType::I64), Ok(ScalarValue::I64(3)));
    let error = read_result(&LuaValue::Number(float(2.5)), ReturnType::I64).unwrap_err();
    assert!(error.contains("does not fit i64 exactly"), "{error}");
    let error = read_result(&LuaValue::Integer(9_007_199_254_740_993), ReturnType::F64)
        .unwrap_err();
    assert!(error.contains("does not fit f64 exactly"), "{error}");
    assert_eq!(
        read_result(&LuaValue::Number(float(4.0 / 2.0)), ReturnType::I64),
        Ok(ScalarValue::I64(2))
    );
}

#[test]
fn scalar_key_results_are_refused() {
    let error = read_result(&LuaValue::Text(b"AAPL".to_vec()), ReturnType::Key).unwrap_err();
    assert!(error.contains("output column"), "{error}");
}

#[test]
fn output_coercion_is_exact_or_loud() {
    let mut output = i64_output(1);
    output.bind();
    write(&mut output, 1, LuaValue::Number(float(2.0))).unwrap();
    assert_eq!((i64_values(&output)[0], bits(&output)[0]), (2, true));
    output.bind();
    write(&mut output, 1, LuaValue::Boolean(true)).unwrap();
    assert_eq!((i64_values(&output)[0], bits(&output)[0]), (1, true));
    let error = write(&mut output, 1, LuaValue::Number(float(2.5))).unwrap_err();
    assert!(error.contains("does not fit i64 exactly"), "{error}");

    let mut output = f64_output(1);
    let error = write(&mut output, 1, LuaValue::Boolean(true)).unwrap_err();
    assert!(error.contains("boolean maps to i64"), "{error}");
    let error = write(&mut output, 1, LuaValue::Text(b"x".to_vec())).unwrap_err();
    assert!(error.contains("produces a key"), "{error}");
    let error = write(&mut output, 1, LuaValue::Integer(9_007_199_254_740_993)).unwrap_err();
    assert!(error.contains("does not fit f64 exactly"), "{error}");

    let mut output = OutputColumn::Key {
        codes: vec![0],
        validity: Bitmap::new_unset(1),
        dictionary: Dictionary::new(),
    };
    let error = write(&mut output, 1, LuaValue::Integer(1)).unwrap_err();
    assert!(error.contains("only a string produces a key"), "{error}");
    let error = write(&mut output, 1, LuaValue::Text(vec![0xFF])).unwrap_err();
    assert!(error.contains("valid UTF-8"), "{error}");
}

#[test]
fn output_nulls_unwritten_slots_and_readback() {
    let mut output = OutputColumn::F64 {
        floats: floats(&[0.0; 4]),
        validity: Bitmap::new_set(4),
    };
    output.bind();
    write(&mut output, 1, LuaValue::Number(float(1.5))).unwrap();
    write(&mut output, 2, LuaValue::Null).unwrap();
    write(&mut output, 3, LuaValue::Nil).unwrap();
    assert!(matches!(output.read(Some(2)), Ok(Reply::Null)));
    match output.read(Some(1)) {
        Ok(Reply::Number(value)) => {
            write(&mut output, 1, LuaValue::Number(float(to_f64(value) + 40.5))).unwrap();
        }
        _ => panic!("a float"),
    }
    assert_eq!(f64_values(&output)[0], 42.0);
    assert_eq!(
        bits(&output),
        [true, false, false, false],
        "explicit NULL, nil, and unwritten slots all come back NULL"
    );
}

#[test]
fn key_elements_read_as_codes_with_lazy_text() {
    let codes = [0u32, 1, 0];
    let mut dictionary = Dictionary::new();
    dictionary.intern("AAPL");
    dictionary.intern("MSFT");
    let view = ColumnView::Key {
        codes: &codes,
        validity: None,
        dictionary: &dictionary,
    };
    assert_eq!(read_result(&read(&view, 2), ReturnType::I64), Ok(ScalarValue::I64(1)));
    match key_text(&view, Some(2)) {
        Ok(Reply::Text(text)) => assert_eq!(text, "MSFT"),
        _ => panic!("a text"),
    }
    let code = held(key_code_of(&view, &LuaValue::Text(b"MSFT".to_vec())).unwrap());
    assert_eq!(read_result(&code, ReturnType::I64), Ok(ScalarValue::I64(1)));
    let absent = held(key_code_of(&view, &LuaValue::Text(b"TSLA".to_vec())).unwrap());
    assert!(matches!(absent, LuaValue::Nil));
    assert_eq!(read_result(&absent, ReturnType::I64), Ok(ScalarValue::Null));
    assert_eq!(
        key_code_of(&view, &LuaValue::Integer(3)).err(),
        Some("code_of expects a string literal")
    );
}

#[test]
fn key_column_round_trips_through_text() {
    let codes = [0u32, 1, 0, 0];
    let validity = Bitmap::from_bools(&[true, false, true, true]);
    let mut dictionary = Dictionary::new();
    dictionary.intern("AAPL");
    dictionary.intern("MSFT");
    let view = ColumnView::Key {
        codes: &codes,
        validity: Some(&validity),
        dictionary: &dictionary,
    };
    let mut output = OutputColumn::Key {
        codes: vec![99; 4],
        validity: Bitmap::new_unset(4),
        dictionary: Dictionary::new(),
    };
    output.bind();
    for i in 1..=4 {
        let text = held(key_text(&view, Some(i)).unwrap());
        write(&mut output, i, text).unwrap();
    }
    match output {
        OutputColumn::Key {
            codes: out_codes,
            validity: out_validity,
            dictionary: out_dictionary,
        } => {
            for i in 0..4 {
                assert_eq!(out_validity.get(i), validity.get(i), "slot {i}");
                if validity.get(i) {
                    assert_eq!(
                        out_dictionary.value(out_codes[i]),
                        dictionary.value(codes[i]),
                        "slot {i}"
                    );
                }
            }
            assert_eq!(out_dictionary.len(), 1);
        }
        _ => panic!("a key output"),
    }
}

#[test]
fn sum_skips_nulls_and_matches_sql_semantics() {
    let values = floats(&[10.0, 20.0, 30.0, 40.0]);
    let validity = Bitmap::from_bools(&[true, false, true, false]);
    match view_sum(&f64s(&values, Some(&validity))) {
        Ok(ViewSum::Floats(terms)) => {
            let total: f64 = terms.iter().map(|&v| to_f64(v)).sum();
            assert_eq!(total, 40.0);
        }
        _ => panic!("floats to add"),
    }
    let all_null = Bitmap::new_unset(4);
    assert!(matches!(view_sum(&f64s(&values, Some(&all_null))), Ok(ViewSum::Null)));
    let big = [9_007_199_254_740_993i64, 2];
    match view_sum(&i64s(&big, None)) {
        Ok(ViewSum::Integer(total)) => assert_eq!(total, 9_007_199_254_740_995),
        _ => panic!("an integer"),
    }
    let overflowing = [i64::MAX, 1];
    match view_sum(&i64s(&overflowing, None)) {
        Err(error) => assert!(error.contains("overflows"), "{error}"),
        Ok(_) => panic!("an overflow"),
    }
    let codes = [0u32];
    let mut dictionary = Dictionary::new();
    dictionary.intern("AAPL");
    let keys = ColumnView::Key {
        codes: &codes,
        validity: None,
        dictionary: &dictionary,
    };
    match view_sum(&keys) {
        Err(error) => assert!(error.contains("not arithmetic"), "{error}"),
        Ok(_) => panic!("keys have no sum"),
    }
}

#[test]
fn mask_reads_validity_out_of_band() {
    let values = floats(&[1.0, 2.0, 3.0]);
    let validity = Bitmap::from_bools(&[true, false, true]);
    let count = |view: ColumnView<'_>| {
        (1..=view.len() as i64)
            .filter(|&i| matches!(mask_index(&view, Some(i)), Ok(Reply::Boolean(true))))
            .count()
    };
    assert_eq!(count(f64s(&values, Some(&validity))), 2);
    assert_eq!(count(f64s(&values, None)), 3);
}

#[test]
fn f64_identity_preserves_values_nan_and_null() {
    let values = floats(&[f64::NAN, 1.5, 0.0]);
    let validity = Bitmap::from_bools(&[true, true, false]);
    let view = f64s(&values, Some(&validity));
    let mut output = f64_output(3);
    output.bind();
    for i in 1..=3 {
        write(&mut output, i, read(&view, i)).unwrap();
    }
    let out = f64_values(&output);
    assert!(out[0].is_nan(), "NaN is a value and survives");
    assert_eq!(out[1], 1.5);
    assert_eq!(bits(&output), [true, true, false], "NULL survives as NULL");
}

#[test]
fn i64_identity_is_exact_beyond_2_pow_53() {
    let values = [9_007_199_254_740_993i64, i64::MIN, 7];
    let validity = Bitmap::from_bools(&[true, true, false]);
    let view = i64s(&values, Some(&validity));
    let mut output = i64_output(3);
    output.bind();
    for i in 1..=3 {
        write(&mut output, i, read(&view, i)).unwrap();
    }
    assert_eq!(i64_values(&output)[..2], values[..2], "bit-exact, no float hop");
    assert!(!bits(&output)[2]);
}

#[test]
fn views_and_masks_poison_after_their_call() {
    let mut state = LuaState::new(0);
    let born = state.generation();
    assert!(check_alive(born, state.generation()).is_ok());
    state
        .eval_scalar(Ok(Ran::Returned(LuaValue::Integer(0))), ReturnType::I64)
        .unwrap();
    let error = check_alive(born, state.generation()).unwrap_err();
    assert!(error.contains("outside its call"), "{error}");
}

#[test]
fn a_detached_method_rechecks_the_view_type() {
    let codes = [0u32, 1];
    let mut dictionary = Dictionary::new();
    dictionary.intern("AAPL");
    dictionary.intern("MSFT");
    let values = floats(&[1.0, 2.0]);
    let numeric = f64s(&values, None);
    let keys = ColumnView::Key {
        codes: &codes,
        validity: None,
        dictionary: &dictionary,
    };
    // A method found on one view and called on another.
    assert!(matches!(input_method(&numeric, b"sum"), Ok(ViewMethod::Sum)));
    match view_sum(&keys) {
        Err(error) => assert!(error.contains("not arithmetic"), "{error}"),
        Ok(_) => panic!("keys have no sum"),
    }
    assert!(matches!(input_method(&keys, b"text"), Ok(ViewMethod::Text)));
    match key_text(&numeric, Some(1)) {
        Err(error) => assert!(error.contains("key-view methods"), "{error}"),
        Ok(_) => panic!("numbers have no text"),
    }
}

#[test]
fn view_misuse_fails_loudly() {
    let values = floats(&[1.0, 2.0]);
    let view = f64s(&values, None);
    for index in [3, 0, -1, i64::MAX] {
        match input_index(&view, Some(index)) {
            Err(error) => assert!(error.contains("out of range"), "{error}"),
            Ok(_) => panic!("{index}"),
        }
    }
    match input_method(&view, b"median") {
        Err(error) => assert!(error.contains("no such view method"), "{error}"),
        Ok(_) => panic!("no such method"),
    }
    match input_method(&view, b"text") {
        Err(error) => assert!(error.contains("key-view methods"), "{error}"),
        Ok(_) => panic!("numbers have no text"),
    }
    // Input views are read-only.
    let error = write_refusal(Handle::View).unwrap();
    assert!(error.contains("read-only"), "{error}");
    assert_eq!(write_refusal(Handle::Output), None);
    let mut output = f64_output(2);
    let error = output.write(false, None, &LuaValue::Number(float(1.0))).unwrap_err();
    assert!(error.contains("must be an integer"), "{error}");
    assert_eq!(element_index(None, 2), Err("view index must be an integer"));
    assert_eq!(element_index(Some(2), 2), Ok(1));
}

#[test]
fn validity_length_mismatch_is_loud() {
    let values = floats(&[1.0, 2.0, 3.0]);
    let validity = Bitmap::from_bools(&[true, false]);
    let view = f64s(&values, Some(&validity));
    let error = bind_inputs(&[("\"v\"".to_owned(), view)]).unwrap_err();
    assert!(error.contains("2 bits for 3 values"), "{error}");
    assert_eq!(error, "column \"v\": validity has 2 bits for 3 values");
    assert!(check_view("\"v\"", &f64s(&values, None)).is_ok());
    // The first misfit is the one that is told.
    let good = f64s(&values, None);
    let error = bind_inputs(&[("\"a\"".to_owned(), good), ("\"b\"".to_owned(), view)]).unwrap_err();
    assert!(error.contains("\"b\""), "{error}");
}

#[test]
fn a_refused_write_changes_nothing() {
    let mut output = i64_output(2);
    output.bind();
    write(&mut output, 1, LuaValue::Integer(7)).unwrap();
    assert!(write(&mut output, 1, LuaValue::Number(float(0.5))).is_err());
    assert!(write(&mut output, 3, LuaValue::Integer(1)).is_err());
    assert_eq!(i64_values(&output), [7, 0]);
    assert_eq!(bits(&output), [true, false]);
}

#[test]
fn a_key_view_never_meets_arithmetic() {
    let codes = [0u32];
    let mut dictionary = Dictionary::new();
    dictionary.intern("AAPL");
    let view = ColumnView::Key {
        codes: &codes,
        validity: None,
        dictionary: &dictionary,
    };
    let argument = Argument::View {
        view,
        born: 3,
        generation: 3,
    };
    assert_eq!(
        vector_binary(&argument, &Argument::Number(float(1.0))).err(),
        Some("keys are not arithmetic (codes are identities)")
    );
}

#[test]
fn accessors_take_their_own_handles_in_their_own_call() {
    assert_eq!(check_handle(Handle::View, true, 4, 4), Ok(()));
    assert_eq!(check_handle(Handle::View, true, 4, 5), Err("view used outside its call"));
    assert_eq!(check_handle(Handle::Mask, true, 4, 5), Err("view used outside its call"));
    assert_eq!(check_handle(Handle::Output, false, 4, 4), Err("output accessor on a non-output"));
    assert_eq!(check_handle(Handle::View, false, 4, 4), Err("view accessor on a non-view"));
    assert_eq!(check_handle(Handle::Mask, false, 4, 4), Err("mask accessor on a non-mask"));
    // Vectors outlive the call that made them.
    assert_eq!(check_handle(Handle::Vector, true, 4, 5), Ok(()));
    assert_eq!(check_handle(Handle::Vector, false, 4, 5), Err("vector accessor on a non-vector"));
}

#[test]
fn binding_clears_validity_and_nothing_else() {
    let mut output = OutputColumn::F64 {
        floats: floats(&[1.5, 2.5]),
        validity: Bitmap::new_set(7),
    };
    output.bind();
    assert_eq!(f64_values(&output), [1.5, 2.5]);
    assert_eq!(bits(&output), [false, false]);
    // Marking a slot null leaves its value, too.
    write(&mut output, 1, LuaValue::Number(float(3.5))).unwrap();
    write(&mut output, 1, LuaValue::Null).unwrap();
    assert_eq!(f64_values(&output), [3.5, 2.5]);
    assert_eq!(bits(&output), [false, false]);
    let mut dictionary = Dictionary::new();
    dictionary.intern("AAPL");
    let mut keys = OutputColumn::Key {
        codes: vec![0, 0],
        validity: Bitmap::new_unset(0),
        dictionary,
    };
    keys.bind();
    match keys {
        OutputColumn::Key {
            codes,
            validity,
            dictionary,
        } => {
            assert_eq!(codes, [0, 0]);
            assert_eq!(validity, Bitmap::new_unset(2));
            assert_eq!(dictionary.len(), 1);
        }
        _ => panic!("keys"),
    }
}
