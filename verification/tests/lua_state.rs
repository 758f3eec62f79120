//! Calls, host functions, messages, and driving scripts.
use std::sync::{Arc, Mutex};
use tallydb::bitmap::Bitmap;
use tallydb::float64::Float64;
use tallydb::key::Dictionary;
use tallydb::lua::driver::{
    append_reply, append_request, query_reply, query_request, result_name, QueryReply,
    ResultColumns, ScriptHost, ScriptValue, SqlOutcome, Statement,
};
use tallydb::lua::host::{
    check_registration, has_nul, host_arguments, host_reply, HostFunction, Outcome, MAX_ARGS,
};
use tallydb::lua::log::{mask_summary, message_of, view_summary, LogSink};
use tallydb::lua::state::{error_text, LuaState, Ran};
use tallydb::lua::trial::{NullableView, OutputView, TrialValue};
use tallydb::lua::values::{
    check_alive, input_index, key_text, ColumnView, LuaValue, Reply, ReturnType, ScalarValue,
};
use tallydb::lua::vector::{vector_binary, Argument};

fn float(value: f64) -> Float64 {
    Float64::from_bits(value.to_bits())
}

fn floats(values: &[f64]) -> Vec<Float64> {
    values.iter().map(|&value| float(value)).collect()
}

fn to_f64(value: Float64) -> f64 {
    f64::from_bits(value.to_bits())
}

fn f64s<'a>(values: &'a [Float64], validity: Option<&'a Bitmap>) -> ColumnView<'a> {
    ColumnView::F64 {
        floats: values,
        validity,
    }
}

fn argument(view: ColumnView<'_>) -> Argument<'_> {
    Argument::View {
        view,
        born: 0,
        generation: 0,
    }
}

fn text(value: &str) -> LuaValue {
    LuaValue::Text(value.as_bytes().to_vec())
}

/// Files a chunk that compiled.
fn compiled(state: &mut LuaState) -> tallydb::lua::state::Chunk {
    match state.compile(Ran::Returned(())) {
        Ok(chunk) => chunk,
        Err(error) => panic!("{error}"),
    }
}

#[test]
fn compiling_does_not_run_and_a_chunk_runs_many_times() {
    let mut state = LuaState::new(0);
    let before = state.generation();
    let chunk = compiled(&mut state);
    // Compiling is no call.
    assert_eq!(state.generation(), before);
    assert_eq!(chunk.key(), "tallydb.chunk.0");
    for expected in 1..=3 {
        assert!(state.check_chunk(&chunk).is_ok());
        assert_eq!(
            state.eval_scalar(Ok(Ran::Returned(LuaValue::Integer(expected))), ReturnType::I64),
            Ok(ScalarValue::I64(expected))
        );
    }
    let failed = Ran::Failed(Some(b"[string \"script\"]:1: unexpected symbol".to_vec()));
    let error = state.compile(failed).unwrap_err();
    assert!(error.contains("load"), "{error}");
    assert_eq!(compiled(&mut state).key(), "tallydb.chunk.1");
    assert_eq!(
        state.eval_scalar(Ok(Ran::Returned(LuaValue::Integer(1))), ReturnType::I64),
        Ok(ScalarValue::I64(1))
    );
}

#[test]
fn a_chunk_from_another_interpreter_is_refused() {
    let mut first = LuaState::new(1);
    let mut second = LuaState::new(2);
    let chunk = compiled(&mut first);
    let refused = second.check_chunk(&chunk).unwrap_err();
    let error = second.eval_scalar(Err(refused), ReturnType::I64).unwrap_err();
    assert!(error.contains("different interpreter"), "{error}");
}

#[test]
fn script_errors_return_as_values_and_state_survives() {
    let mut state = LuaState::new(0);
    let failed = Ran::Failed(Some(b"deliberate".to_vec()));
    let error = state.eval_scalar(Ok(failed), ReturnType::F64).unwrap_err();
    assert!(error.contains("deliberate"), "{error}");
    assert_eq!(error, "run: deliberate");
    assert_eq!(
        state.eval_scalar(Ok(Ran::Returned(LuaValue::Integer(42))), ReturnType::I64),
        Ok(ScalarValue::I64(42))
    );
    let unspoken = state.eval_scalar(Ok(Ran::Failed(None)), ReturnType::F64).unwrap_err();
    assert_eq!(unspoken, "run: error object is not a string");
}

#[test]
fn error_texts_replace_what_is_not_utf8() {
    assert_eq!(error_text("run", &Some(vec![b'a', 0xFF, b'b'])), "run: a\u{FFFD}b");
    assert_eq!(error_text("load", &Some("é".as_bytes().to_vec())), "load: é");
    assert_eq!(error_text("load", &None), "load: error object is not a string");
}

/// A sink that keeps what it is given.
struct Capture(Arc<Mutex<Vec<String>>>);

impl LogSink for Capture {
    fn log(&self, message: &str) {
        self.0.lock().unwrap().push(message.to_owned());
    }
}

#[test]
fn log_routes_to_the_installed_sink_and_summarizes_views() {
    let messages = Arc::new(Mutex::new(Vec::new()));
    let sink = Capture(messages.clone());
    let values = floats(&[0.25, 0.5, 0.75]);
    let view = f64s(&values, None);
    let pieces = [
        b"x:".to_vec(),
        b"42".to_vec(),
        b"1.5".to_vec(),
        b"nil".to_vec(),
        b"NULL".to_vec(),
        view_summary(&view).into_bytes(),
        mask_summary(&view).into_bytes(),
    ];
    sink.log(&message_of(&pieces));
    let captured = messages.lock().unwrap();
    assert_eq!(captured.len(), 1);
    assert_eq!(
        captured[0],
        "x:\t42\t1.5\tnil\tNULL\tf64 view, len 3\tmask, len 3"
    );
    assert!(!captured[0].contains("0.25"), "no buffer dump");
}

#[test]
fn messages_join_their_pieces() {
    assert_eq!(message_of(&[]), "");
    assert_eq!(message_of(&[b"one".to_vec()]), "one");
    assert_eq!(message_of(&[Vec::new(), Vec::new()]), "\t");
    assert_eq!(message_of(&[vec![0xFF], b"b".to_vec()]), "\u{FFFD}\tb");
    let integers = [1i64, 2];
    let view = ColumnView::I64 {
        integers: &integers,
        validity: None,
    };
    assert_eq!(view_summary(&view), "i64 view, len 2");
}

/// Sums its one argument and records where it was.
struct PointerProbe(Arc<Mutex<usize>>);

impl HostFunction for PointerProbe {
    fn arity(&self) -> usize {
        1
    }
    fn call(&self, args: &[&[Float64]]) -> Result<Option<Float64>, String> {
        *self.0.lock().unwrap() = args[0].as_ptr() as usize;
        Ok(Some(float(args[0].iter().map(|&v| to_f64(v)).sum())))
    }
}

#[test]
fn host_functions_see_the_engine_buffer_itself() {
    let seen = Arc::new(Mutex::new(0usize));
    let probe = PointerProbe(seen.clone());
    check_registration("probe", probe.arity()).unwrap();
    let source: Vec<f64> = (0..64).map(|i| f64::from(i) * 0.5).collect();
    let values = floats(&source);
    let slices = host_arguments(probe.arity(), &[argument(f64s(&values, None))]).unwrap();
    let outcome = match probe.call(&slices) {
        Ok(value) => Outcome::Returned(value),
        Err(error) => Outcome::Failed(error),
    };
    match host_reply(outcome) {
        Ok(Reply::Number(value)) => assert_eq!(to_f64(value), source.iter().sum::<f64>()),
        _ => panic!("a float"),
    }
    // The function was handed the bound buffer itself.
    assert_eq!(*seen.lock().unwrap(), values.as_ptr() as usize);
}

#[test]
fn host_function_outcomes_map_to_null_error_and_contained_panic() {
    assert!(matches!(host_reply(Outcome::Returned(None)), Ok(Reply::Null)));
    match host_reply(Outcome::Failed("op declined".to_owned())) {
        Err(error) => assert!(error.contains("op declined"), "{error}"),
        Ok(_) => panic!("an error"),
    }
    match host_reply(Outcome::Panicked) {
        Err(error) => assert!(error.contains("panicked"), "{error}"),
        Ok(_) => panic!("an error"),
    }
}

#[test]
fn host_function_misuse_fails_loudly() {
    let values = floats(&[1.0, 2.0]);
    let dense = argument(f64s(&values, None));
    let error = host_arguments(1, &[dense, dense]).unwrap_err();
    assert!(error.contains("wrong number"), "{error}");
    let error = host_arguments(1, &[Argument::Integer(3)]).unwrap_err();
    assert!(error.contains("column views"), "{error}");
    let integers = [1i64, 2];
    let view = ColumnView::I64 {
        integers: &integers,
        validity: None,
    };
    let error = host_arguments(1, &[argument(view)]).unwrap_err();
    assert!(error.contains("f64 views"), "{error}");
    let validity = Bitmap::from_bools(&[true, false]);
    let error = host_arguments(1, &[argument(f64s(&values, Some(&validity)))]).unwrap_err();
    assert!(error.contains("NULL"), "{error}");
    let stale = Argument::View {
        view: f64s(&values, None),
        born: 0,
        generation: 1,
    };
    let error = host_arguments(2, &[dense, stale]).unwrap_err();
    assert!(error.contains("outside its call"), "{error}");
    // Registration bounds the arity and the name.
    assert_eq!(
        check_registration("wide", 99).unwrap_err(),
        "host function 'wide' takes 99 arguments; supported range is 1..=8"
    );
    assert!(check_registration("none", 0).is_err());
    assert!(check_registration("most", MAX_ARGS).is_ok());
    assert_eq!(
        check_registration("a\0b", 1).unwrap_err(),
        "function name 'a\0b' contains an interior NUL"
    );
    assert!(has_nul("\0") && !has_nul("é"));
}

/// A fixed query result: one float column, one integer column beyond the
/// floats' exact range, one key column.
struct FakeResult {
    px: Vec<Float64>,
    ts: Vec<i64>,
    codes: Vec<u32>,
    dictionary: Dictionary,
}

impl ResultColumns for FakeResult {
    fn rows(&self) -> usize {
        self.px.len()
    }
    fn columns(&self) -> Vec<(String, ColumnView<'_>)> {
        vec![
            (
                "px".to_owned(),
                ColumnView::F64 {
                    floats: &self.px,
                    validity: None,
                },
            ),
            (
                "ts".to_owned(),
                ColumnView::I64 {
                    integers: &self.ts,
                    validity: None,
                },
            ),
            (
                "sym".to_owned(),
                ColumnView::Key {
                    codes: &self.codes,
                    validity: None,
                    dictionary: &self.dictionary,
                },
            ),
        ]
    }
}

/// Records every row appended; queries return the fixture.
struct FakeHost {
    appended: Vec<(String, Vec<(String, ScriptValue)>)>,
}

impl ScriptHost for FakeHost {
    fn statement(&mut self, sql: &str) -> Result<SqlOutcome, String> {
        if sql.starts_with("SELECT") {
            let mut dictionary = Dictionary::new();
            let codes = vec![dictionary.intern("ES"), dictionary.intern("NQ")];
            Ok(SqlOutcome::Rows(Box::new(FakeResult {
                px: floats(&[101.5, 99.25]),
                ts: vec![(1 << 53) + 1, (1 << 53) + 2],
                codes,
                dictionary,
            })))
        } else if sql.starts_with("DELETE") {
            Ok(SqlOutcome::Affected(3))
        } else if sql.starts_with("CREATE") {
            Ok(SqlOutcome::Done)
        } else {
            Err(format!("unsupported statement: {sql}"))
        }
    }

    fn append(&mut self, table: &str, row: &[(String, ScriptValue)]) -> Result<u64, String> {
        self.appended.push((table.to_owned(), row.to_vec()));
        Ok(41 + self.appended.len() as u64)
    }
}

/// One call of `query`: the columns of a result, or the reply's value.
fn query(
    state: &LuaState,
    host: &mut FakeHost,
    arguments: &[LuaValue],
) -> Result<(Option<Box<dyn ResultColumns>>, QueryReply), String> {
    let sql = query_request(state.driving(), arguments).map_err(|m| m.to_owned())?;
    match host.statement(sql) {
        Ok(SqlOutcome::Rows(result)) => {
            let reply = query_reply(Outcome::Returned(Statement::Rows(result.rows())))?;
            Ok((Some(result), reply))
        }
        Ok(SqlOutcome::Affected(count)) => {
            Ok((None, query_reply(Outcome::Returned(Statement::Affected(count)))?))
        }
        Ok(SqlOutcome::Done) => Ok((None, query_reply(Outcome::Returned(Statement::Done))?)),
        Err(error) => Ok((None, query_reply(Outcome::Failed(error))?)),
    }
}

/// One call of `append`.
fn append(
    state: &LuaState,
    host: &mut FakeHost,
    table: &str,
    row: &[(LuaValue, LuaValue)],
) -> Result<Reply, String> {
    let name = text(table);
    let (table, values) =
        append_request(state.driving(), 2, &name, Some(row)).map_err(|m| m.to_owned())?;
    match host.append(table, &values) {
        Ok(id) => append_reply(Outcome::Returned(id)),
        Err(error) => append_reply(Outcome::Failed(error)),
    }
}

fn held(reply: Reply) -> LuaValue {
    match reply {
        Reply::Nil => LuaValue::Nil,
        Reply::Null => LuaValue::Null,
        Reply::Number(value) => LuaValue::Number(value),
        Reply::Integer(value) => LuaValue::Integer(value),
        Reply::Boolean(value) => LuaValue::Boolean(value),
        Reply::Text(text) => LuaValue::Text(text.into_bytes()),
    }
}

#[test]
fn a_script_queries_computes_and_feeds_back_exactly() {
    let mut host = FakeHost {
        appended: Vec::new(),
    };
    let mut state = LuaState::new(0);
    state.begin_driving();
    let (result, reply) =
        query(&state, &mut host, &[text("SELECT px, ts, sym FROM ticks")]).unwrap();
    assert!(matches!(reply, QueryReply::Columns(2)));
    let result = result.unwrap();
    let columns = result.columns();
    let (px, ts, sym) = (columns[0].1, columns[1].1, columns[2].1);
    assert_eq!(px.len(), 2);
    match input_index(&ts, Some(2)) {
        Ok(Reply::Integer(value)) => assert_eq!(value, (1 << 53) + 2),
        _ => panic!("an integer"),
    }
    let double: Vec<LuaValue> = vector_binary(&argument(px), &argument(px))
        .unwrap()
        .iter()
        .map(|row| match row {
            Some((a, b)) => LuaValue::Number(float(to_f64(*a) + to_f64(*b))),
            None => LuaValue::Null,
        })
        .collect();
    for (i, value) in double.into_iter().enumerate() {
        let index = Some(i as i64 + 1);
        let row = [
            (text("ts"), held(input_index(&ts, index).unwrap())),
            (text("v"), value),
            (text("sym"), held(key_text(&sym, index).unwrap())),
            (text("gap"), LuaValue::Null),
        ];
        match append(&state, &mut host, "signals", &row) {
            Ok(Reply::Integer(id)) => assert_eq!(id, 42 + i as i64),
            _ => panic!("a row id"),
        }
    }
    match query(&state, &mut host, &[text("DELETE FROM ticks WHERE px < 0")]) {
        Ok((None, QueryReply::Value(Reply::Integer(3)))) => {}
        _ => panic!("three rows"),
    }
    match query(&state, &mut host, &[text("CREATE TABLE x (ts BIGINT ORDERING KEY)")]) {
        Ok((None, QueryReply::Value(Reply::Boolean(true)))) => {}
        _ => panic!("true"),
    }
    assert!(state.run_driver(Ok(Ran::Returned(()))).is_ok());
    assert_eq!(host.appended.len(), 2);
    let (table, row) = &host.appended[0];
    assert_eq!(table, "signals");
    let field = |name: &str| {
        row.iter()
            .find(|(key, _)| key == name)
            .map(|(_, value)| value.clone())
            .unwrap()
    };
    assert_eq!(field("ts"), ScriptValue::I64((1 << 53) + 1));
    assert_eq!(field("v"), ScriptValue::F64(float(203.0)));
    assert_eq!(field("sym"), ScriptValue::Text("ES".to_owned()));
    assert_eq!(field("gap"), ScriptValue::Null);
}

#[test]
fn kernels_cannot_reenter_the_engine() {
    let state = LuaState::new(0);
    let arguments = [text("SELECT 1")];
    let error = query_request(state.driving(), &arguments).unwrap_err();
    assert!(
        error.contains("kernels cannot re-enter the engine"),
        "unexpected: {error}"
    );
    let error = append_request(state.driving(), 2, &text("t"), Some(&[])).unwrap_err();
    assert!(error.contains("kernels cannot re-enter the engine"), "{error}");
}

#[test]
fn result_views_poison_when_the_driving_call_ends() {
    let mut host = FakeHost {
        appended: Vec::new(),
    };
    let mut state = LuaState::new(0);
    state.begin_driving();
    let born = state.generation();
    let (result, _) = query(&state, &mut host, &[text("SELECT px FROM t")]).unwrap();
    assert!(result.is_some());
    state.run_driver(Ok(Ran::Returned(()))).unwrap();
    assert!(!state.driving());
    state.begin_driving();
    let error = check_alive(born, state.generation()).unwrap_err();
    assert!(
        error.contains("outside its call"),
        "stale result view must be poisoned, got: {error}"
    );
}

#[test]
fn host_errors_and_misuse_are_loud_lua_errors() {
    let mut host = FakeHost {
        appended: Vec::new(),
    };
    let mut state = LuaState::new(0);
    state.begin_driving();
    match query(&state, &mut host, &[text("UPDATE nope")]) {
        Err(error) => assert!(error.contains("unsupported statement"), "got: {error}"),
        Ok(_) => panic!("an error"),
    }
    match query(&state, &mut host, &[LuaValue::Integer(42)]) {
        Err(error) => assert!(error.contains("one SQL string"), "got: {error}"),
        Ok(_) => panic!("an error"),
    }
    match append(&state, &mut host, "t", &[(text("px"), LuaValue::Other)]) {
        Err(error) => assert!(
            error.contains("index one element"),
            "whole views must not append silently, got: {error}"
        ),
        Ok(_) => panic!("an error"),
    }
    // The state survives all of it.
    assert!(state.run_driver(Ok(Ran::Returned(()))).is_ok());
    let failed = state.run_driver(Ok(Ran::Failed(Some(b"boom".to_vec()))));
    assert_eq!(failed, Err("run: boom".to_owned()));
    assert_eq!(state.run_driver(Err("refused".to_owned())), Err("refused".to_owned()));
}

#[test]
fn malformed_rows_name_the_first_fault() {
    let table = text("t");
    let refusal = |row: &[(LuaValue, LuaValue)]| {
        append_request(true, 2, &table, Some(row)).err().unwrap()
    };
    assert_eq!(
        refusal(&[(LuaValue::Integer(1), LuaValue::Integer(2))]),
        "append: row keys are column names (strings)"
    );
    assert_eq!(
        refusal(&[(LuaValue::Text(vec![0xFF]), LuaValue::Integer(2))]),
        "append: column name is not valid UTF-8"
    );
    let bad_value = refusal(&[
        (text("a"), LuaValue::Boolean(true)),
        (LuaValue::Integer(1), LuaValue::Integer(2)),
    ]);
    assert!(bad_value.starts_with("append: row values are numbers"), "{bad_value}");
    assert!(refusal(&[(text("a"), LuaValue::Text(vec![0xFF]))]).contains("row values"));
    assert_eq!(
        append_request(true, 2, &table, None).err(),
        Some("append takes a table name and a row table")
    );
    assert_eq!(
        append_request(true, 3, &table, Some(&[])).err(),
        Some("append takes a table name and a row table")
    );
    assert_eq!(
        append_request(true, 2, &LuaValue::Integer(1), Some(&[])).err(),
        Some("append takes a table name and a row table")
    );
    assert_eq!(
        append_request(true, 2, &LuaValue::Text(vec![0xFF]), Some(&[])).err(),
        Some("argument is not valid UTF-8")
    );
    assert_eq!(query_request(true, &[]).err(), Some("query takes one SQL string"));
    assert_eq!(
        query_request(true, &[LuaValue::Text(vec![0xC0])]).err(),
        Some("argument is not valid UTF-8")
    );
}

#[test]
fn host_panics_and_large_counts_reach_the_script() {
    match query_reply(Outcome::Panicked) {
        Err(error) => assert_eq!(error, "query host panicked"),
        Ok(_) => panic!("an error"),
    }
    match append_reply(Outcome::Panicked) {
        Err(error) => assert_eq!(error, "append host panicked"),
        Ok(_) => panic!("an error"),
    }
    for count in [0u64, 1, i64::MAX as u64, 1 << 63, u64::MAX] {
        match query_reply(Outcome::Returned(Statement::Affected(count))) {
            Ok(QueryReply::Value(Reply::Integer(value))) => assert_eq!(value, count as i64),
            _ => panic!("an integer"),
        }
    }
    assert_eq!(result_name("px"), "px");
    assert_eq!(result_name("p\0x"), "result");
}

#[test]
fn calls_end_alike_on_success_and_on_error() {
    let mut state = LuaState::new(9);
    let mut seen = vec![state.generation()];
    state
        .eval_scalar(Ok(Ran::Returned(LuaValue::Nil)), ReturnType::F64)
        .unwrap();
    seen.push(state.generation());
    assert!(state.eval_scalar(Err("refused".to_owned()), ReturnType::F64).is_err());
    seen.push(state.generation());
    assert!(state.run_driver(Ok(Ran::Failed(None))).is_err());
    seen.push(state.generation());
    assert_eq!(seen, [0, 1, 2, 3]);
}

#[test]
fn r1b_nan_and_null_are_distinguishable() {
    let values = floats(&[f64::NAN, 5.0]);
    let valid = [true, false];
    let view = NullableView {
        values: &values,
        valid: &valid,
    };
    let mut nils = 0.0;
    let mut nans = 0.0;
    for i in 1..=2 {
        match view.index(Some(i)) {
            Ok(Reply::Nil) => nils += 1.0,
            Ok(Reply::Number(value)) if value.is_nan() => nans += 1.0,
            _ => {}
        }
    }
    assert_eq!(nils * 10.0 + nans, 11.0, "exactly one nil and one NaN, kept distinct");
}

#[test]
fn r2_output_nil_marks_null_not_delete() {
    let values = floats(&[10.0, 20.0, 30.0]);
    let valid = [true, true, true];
    let view = NullableView {
        values: &values,
        valid: &valid,
    };
    let mut out = OutputView::new(3);
    let element = |i: i64| match view.index(Some(i)) {
        Ok(Reply::Number(value)) => TrialValue::Number(value),
        Ok(Reply::Nil) => TrialValue::Nil,
        _ => TrialValue::Other,
    };
    out.newindex(Some(1), &element(1)).unwrap();
    out.newindex(Some(2), &TrialValue::Nil).unwrap();
    out.newindex(Some(3), &element(3)).unwrap();
    let read: Vec<Option<f64>> = (1..=3)
        .map(|i| match out.index(Some(i)) {
            Ok(Reply::Number(value)) => Some(to_f64(value)),
            _ => None,
        })
        .collect();
    assert_eq!(read, [Some(10.0), None, Some(30.0)], "middle marked null");
    assert_eq!(out.len(), 3);
    assert_eq!(
        out.newindex(Some(1), &TrialValue::Other),
        Err("output expects a number or nil")
    );
    assert_eq!(out.newindex(None, &TrialValue::Nil), Err("output index must be an integer"));
    assert_eq!(out.newindex(Some(4), &TrialValue::Nil), Err("output index out of range"));
}

#[test]
fn r3_trailing_mean_skipping_nulls_is_expressible() {
    let source = [2.0, 4.0, 6.0, 8.0];
    let values = floats(&source);
    let valid = [true, false, true, true];
    let view = NullableView {
        values: &values,
        valid: &valid,
    };
    let mut out = OutputView::new(4);
    for i in 1..=4i64 {
        let mut sum = 0.0;
        let mut n = 0;
        for j in (i - 1).max(1)..=i {
            if let Ok(Reply::Number(value)) = view.index(Some(j)) {
                sum += to_f64(value);
                n += 1;
            }
        }
        let value = if n == 0 {
            TrialValue::Nil
        } else {
            TrialValue::Number(float(sum / f64::from(n)))
        };
        out.newindex(Some(i), &value).unwrap();
    }
    for i in 0..4usize {
        let lo = i.saturating_sub(1);
        let mut sum = 0.0;
        let mut n = 0;
        for j in lo..=i {
            if valid[j] {
                sum += source[j];
                n += 1;
            }
        }
        match out.index(Some(i as i64 + 1)) {
            Ok(Reply::Number(value)) => {
                assert!((to_f64(value) - sum / f64::from(n)).abs() < 1e-12, "row {i}");
            }
            Ok(Reply::Nil) => assert_eq!(n, 0),
            _ => panic!("a slot"),
        }
    }
}
