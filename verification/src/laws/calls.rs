//! Calls from scripts: what each gives back of what it was given, whichever
//! way it comes to it.
use crate::float64::Float64;
use crate::laws::series::{
    arithmetic, dense, exact_over, is_exactly, length, meeting_rows, value_at, worth,
};
use crate::laws::values::{bit_set, lemma_valid_values_filter, total};
use crate::lua::driver::{
    append_reply, append_request, query_reply, query_request, result_name, QueryReply, ScriptValue,
    Statement,
};
use crate::lua::host::{
    check_registration, f64_view_slice, host_arguments, host_reply, Outcome,
};
use crate::lua::log::message_of;
use crate::lua::state::bind_inputs;
use crate::lua::trial::NullableView;
use crate::lua::values::{
    check_alive, check_handle, element_index, input_index, input_method, key_code_of, key_text,
    mask_index, read_result, view_sum, write_refusal, ColumnView, Handle, LuaValue, OutputColumn,
    Reply, ReturnType, ScalarValue, ViewMethod, ViewSum,
};
use crate::lua::vector::{
    entry_at, ewma_column, frame_check, lag, null_arithmetic, operand, read_column_result,
    rolling_column, rolling_pair, series_steps, spread_step, sum_step, vector_binary,
    vector_negate, Argument, ColumnResult, Entry, FrameCheck, Operand, SpreadStep, SumStep, Vector,
};
use vstd::prelude::*;
use vstd::utf8::{decode_utf8_encode_utf8, encode_utf8, valid_utf8};

verus! {

/// The values of the first `n` rows that hold one, in their order.
pub open spec fn held<T>(values: Seq<T>, validity: Option<&crate::bitmap::Bitmap>, n: nat) -> Seq<
    T,
> {
    Seq::new(n, |i: int| (values[i], bit_set(validity, i))).filter(
        |pair: (T, bool)| pair.1,
    ).map_values(|pair: (T, bool)| pair.0)
}

/// A sum is that of the rows that hold a value, each with its sign, and null
/// where none does; it fails only where adding them up in order leaves the
/// range of integers. Floats are handed on, in order.
pub proof fn lemma_sums(view: ColumnView<'_>, sum: Result<ViewSum, &'static str>)
    requires
        view.aligned(),
        call_ensures(view_sum, (&view,), sum),
    ensures
        match view {
            ColumnView::I64 { integers, validity } => {
                let values = held(integers@, validity, integers@.len());
                match sum {
                    Ok(ViewSum::Integer(added)) => added == total(values) && values.len() > 0,
                    Ok(ViewSum::Null) => values.len() == 0,
                    Ok(ViewSum::Floats(_)) => false,
                    Err(_) => exists|k: int|
                        0 <= k <= values.len() && !(i64::MIN <= total(#[trigger] values.take(k))
                            <= i64::MAX),
                }
            },
            ColumnView::F64 { floats, validity } => {
                let values = held(floats@, validity, floats@.len());
                match sum {
                    Ok(ViewSum::Floats(list)) => list@ == values && values.len() > 0,
                    Ok(ViewSum::Null) => values.len() == 0,
                    _ => false,
                }
            },
            ColumnView::Key { .. } => sum is Err,
        },
{
    let valid = crate::buffer::valid_bits(view.mask(), view.rows());
    match view {
        ColumnView::I64 { integers, validity } => {
            lemma_valid_values_filter(integers@, valid, integers@.len());
            assert(Seq::new(integers@.len(), |i: int| (integers@[i], valid[i])) =~= Seq::new(
                integers@.len(),
                |i: int| (integers@[i], bit_set(validity, i)),
            ));
            crate::laws::values::lemma_sum_adds_up(held(integers@, validity, integers@.len()));
        },
        ColumnView::F64 { floats, validity } => {
            lemma_valid_values_filter(floats@, valid, floats@.len());
            assert(Seq::new(floats@.len(), |i: int| (floats@[i], valid[i])) =~= Seq::new(
                floats@.len(),
                |i: int| (floats@[i], bit_set(validity, i)),
            ));
        },
        _ => {},
    }
}

/// Reading a view gives the element the index counts to, from one: its
/// value, its code, or null where its bit is unset. Its mask says which.
pub proof fn lemma_reads(
    view: ColumnView<'_>,
    index: i64,
    element: Result<Reply, &'static str>,
    masked: Result<Reply, &'static str>,
)
    requires
        view.aligned(),
        call_ensures(input_index, (&view, Some(index)), element),
        call_ensures(mask_index, (&view, Some(index)), masked),
    ensures
        element is Ok <==> 1 <= index <= view.rows(),
        masked is Ok <==> 1 <= index <= view.rows(),
        element is Ok ==> match view {
            ColumnView::F64 { floats, validity } => masked == Ok::<Reply, &'static str>(
                Reply::Boolean(bit_set(validity, index - 1)),
            ) && element == Ok::<Reply, &'static str>(
                if bit_set(validity, index - 1) {
                    Reply::Number(floats@[index - 1])
                } else {
                    Reply::Null
                },
            ),
            ColumnView::I64 { integers, validity } => masked == Ok::<Reply, &'static str>(
                Reply::Boolean(bit_set(validity, index - 1)),
            ) && element == Ok::<Reply, &'static str>(
                if bit_set(validity, index - 1) {
                    Reply::Integer(integers@[index - 1])
                } else {
                    Reply::Null
                },
            ),
            ColumnView::Key { codes, validity, .. } => masked == Ok::<Reply, &'static str>(
                Reply::Boolean(bit_set(validity, index - 1)),
            ) && element == Ok::<Reply, &'static str>(
                if bit_set(validity, index - 1) {
                    Reply::Integer(codes@[index - 1] as i64)
                } else {
                    Reply::Null
                },
            ),
        },
{
    if 1 <= index <= view.rows() {
        crate::laws::values::lemma_element_reads(view, index - 1);
    }
}

/// The text of a key element is the dictionary's under its code, or null
/// where the element is; only key views have texts.
pub proof fn lemma_texts(view: ColumnView<'_>, index: i64, reply: Result<Reply, &'static str>)
    requires
        view.aligned(),
        call_ensures(key_text, (&view, Some(index)), reply),
    ensures
        match view {
            ColumnView::Key { codes, validity, dictionary } => match reply {
                Ok(Reply::Text(text)) => 1 <= index <= codes@.len() && bit_set(validity, index - 1)
                    && codes@[index - 1] < dictionary@.len() && text@
                    == dictionary@[codes@[index - 1] as int],
                Ok(Reply::Null) => 1 <= index <= codes@.len() && !bit_set(validity, index - 1),
                Ok(_) => false,
                Err(_) => index < 1 || index > codes@.len() || (bit_set(validity, index - 1)
                    && codes@[index - 1] >= dictionary@.len()),
            },
            _ => reply is Err,
        },
{
    if 1 <= index <= view.rows() {
        crate::laws::values::lemma_element_reads(view, index - 1);
    }
}

/// The code of a literal is the one its text is kept under, nil where the
/// dictionary does not have it.
pub proof fn lemma_codes(view: ColumnView<'_>, literal: LuaValue, reply: Result<Reply, &'static str>)
    requires
        call_ensures(key_code_of, (&view, &literal), reply),
    ensures
        reply is Ok <==> view is Key && literal is Text,
        reply matches Ok(reply) ==> (view matches ColumnView::Key { dictionary, .. } && match reply {
            Reply::Integer(code) => 0 <= code < dictionary@.len() && encode_utf8(
                dictionary@[code as int],
            ) == literal->Text_0@,
            Reply::Nil => forall|i: int|
                0 <= i < dictionary@.len() ==> encode_utf8(#[trigger] dictionary@[i])
                    != literal->Text_0@,
            _ => false,
        }),
{
    if let ColumnView::Key { dictionary, .. } = view {
        if let LuaValue::Text(bytes) = literal {
            if valid_utf8(bytes@) {
                decode_utf8_encode_utf8(bytes@);
            }
            if reply == Ok::<Reply, &'static str>(Reply::Nil) {
                assert forall|i: int| 0 <= i < dictionary@.len() implies encode_utf8(
                    #[trigger] dictionary@[i],
                ) != bytes@ by {
                    vstd::utf8::encode_utf8_valid_utf8(dictionary@[i]);
                    vstd::utf8::encode_utf8_decode_utf8(dictionary@[i]);
                    assert(dictionary@.contains(dictionary@[i]));
                }
            }
        }
    }
}

/// The methods of a view: every view has a mask, numbers a sum, and keys
/// texts and codes.
pub proof fn lemma_methods(
    view: ColumnView<'_>,
    name: &[u8],
    method: Result<ViewMethod, &'static str>,
)
    requires
        call_ensures(input_method, (&view, name), method),
    ensures
        method matches Ok(found) ==> name@ == encode_utf8(
            match found {
                ViewMethod::Mask => "mask"@,
                ViewMethod::Sum => "sum"@,
                ViewMethod::Text => "text"@,
                ViewMethod::CodeOf => "code_of"@,
            },
        ) && (found is Sum ==> !(view is Key)) && (found is Text || found is CodeOf ==> view is
        Key),
        name@ == encode_utf8("mask"@) ==> method == Ok::<ViewMethod, &'static str>(
            ViewMethod::Mask,
        ),
        name@ == encode_utf8("sum"@) && !(view is Key) ==> method is Ok,
        (name@ == encode_utf8("text"@) || name@ == encode_utf8("code_of"@)) && view is Key
            ==> method is Ok,
{
    lemma_names_differ();
}

/// The methods' names differ.
proof fn lemma_names_differ()
    ensures
        encode_utf8("mask"@) != encode_utf8("sum"@),
        encode_utf8("mask"@) != encode_utf8("text"@),
        encode_utf8("mask"@) != encode_utf8("code_of"@),
        encode_utf8("sum"@) != encode_utf8("text"@),
        encode_utf8("sum"@) != encode_utf8("code_of"@),
        encode_utf8("text"@) != encode_utf8("code_of"@),
{
    reveal_strlit("mask");
    reveal_strlit("sum");
    reveal_strlit("text");
    reveal_strlit("code_of");
    vstd::utf8::encode_utf8_decode_utf8("mask"@);
    vstd::utf8::encode_utf8_decode_utf8("sum"@);
    vstd::utf8::encode_utf8_decode_utf8("text"@);
    vstd::utf8::encode_utf8_decode_utf8("code_of"@);
    assert("mask"@[0] == 'm' && "sum"@[0] == 's' && "text"@[0] == 't' && "code_of"@[0] == 'c');
}

/// Only the output takes writes, a view is good in the call it was bound in,
/// and an accessor takes its own handles alone.
pub proof fn lemma_handles(
    handle: Handle,
    own: bool,
    born: u64,
    generation: u64,
    refused: Option<&'static str>,
    alive: Result<(), &'static str>,
    checked: Result<(), &'static str>,
)
    requires
        call_ensures(write_refusal, (handle,), refused),
        call_ensures(check_alive, (born, generation), alive),
        call_ensures(check_handle, (handle, own, born, generation), checked),
    ensures
        refused is None <==> handle is Output,
        alive is Ok <==> born == generation,
        checked is Ok <==> own && (handle is Vector || born == generation),
{
}

/// A slot of an output reads back as its value where it is valid, as null
/// where it is not.
pub proof fn lemma_output_reads_back(
    output: OutputColumn,
    index: i64,
    reply: Result<Reply, &'static str>,
)
    requires
        output.aligned(),
        call_ensures(OutputColumn::read, (&output, Some(index)), reply),
    ensures
        reply is Ok <==> 1 <= index <= output.rows(),
        reply is Ok ==> reply == Ok::<Reply, &'static str>(
            match output {
                OutputColumn::F64 { floats, validity } => if validity@[index - 1] {
                    Reply::Number(floats@[index - 1])
                } else {
                    Reply::Null
                },
                OutputColumn::I64 { integers, validity } => if validity@[index - 1] {
                    Reply::Integer(integers@[index - 1])
                } else {
                    Reply::Null
                },
                OutputColumn::Key { codes, validity, .. } => if validity@[index - 1] {
                    Reply::Integer(codes@[index - 1] as i64)
                } else {
                    Reply::Null
                },
            },
        ),
{
}

/// A scalar result is the number returned, exactly, under the declared type:
/// null for nil and the sentinel, one and zero for true and false among
/// integers, and an error where the value is not of the type.
pub proof fn lemma_scalars(
    value: LuaValue,
    declared: ReturnType,
    result: Result<ScalarValue, String>,
)
    requires
        call_ensures(read_result, (&value, declared), result),
    ensures
        declared == ReturnType::Key ==> result is Err,
        (result matches Ok(ScalarValue::Null)) <==> declared != ReturnType::Key && (value is Nil
            || value is Null),
        result matches Ok(ScalarValue::F64(v)) ==> declared == ReturnType::F64 && match value {
            LuaValue::Number(w) => v == w,
            LuaValue::Integer(n) => is_exactly(v, n),
            _ => false,
        },
        result matches Ok(ScalarValue::I64(n)) ==> declared == ReturnType::I64 && match value {
            LuaValue::Number(v) => v.is_integer(n as int),
            LuaValue::Integer(m) => n == m,
            LuaValue::Boolean(truth) => (n == 1 && truth) || (n == 0 && !truth),
            _ => false,
        },
        declared == ReturnType::F64 && value is Number ==> result is Ok,
        declared == ReturnType::I64 && (value is Integer || value is Boolean) ==> result is Ok,
{
    let words = Seq::<Seq<char>>::empty();
    crate::laws::values::lemma_null_fills(value, declared, words);
    match value {
        LuaValue::Integer(n) => {
            crate::laws::values::lemma_integer_fills(n, words);
        },
        LuaValue::Number(v) => {
            crate::laws::values::lemma_float_fills(v, words);
        },
        LuaValue::Boolean(truth) => {
            crate::laws::values::lemma_boolean_fills(truth, words);
        },
        _ => {},
    }
}

/// An operator on columns hands out, row by row, what both sides are worth,
/// or null where either is null.
pub proof fn lemma_operators(
    lhs: Argument<'_>,
    rhs: Argument<'_>,
    rows: Result<Vec<Option<(Float64, Float64)>>, &'static str>,
)
    requires
        lhs.aligned(),
        rhs.aligned(),
        call_ensures(vector_binary, (&lhs, &rhs), rows),
    ensures
        rows is Ok <==> {
            &&& arithmetic(lhs) && arithmetic(rhs)
            &&& length(lhs) is Some || length(rhs) is Some
            &&& length(lhs) is Some && length(rhs) is Some ==> length(lhs) == length(rhs)
            &&& exact_over(lhs, meeting_rows(lhs, rhs))
            &&& exact_over(rhs, meeting_rows(lhs, rhs))
        },
        rows matches Ok(rows) ==> {
            &&& rows@.len() == meeting_rows(lhs, rhs)
            &&& forall|i: int|
                0 <= i < rows@.len() ==> (#[trigger] rows@[i] matches Some(pair) ==> worth(
                    lhs,
                    i,
                    Some(pair.0),
                ) && worth(rhs, i, Some(pair.1)))
            &&& forall|i: int|
                0 <= i < rows@.len() ==> (#[trigger] rows@[i] is None <==> worth(lhs, i, None)
                    || worth(rhs, i, None))
        },
{
    crate::laws::series::lemma_operator_lines_up(lhs, rhs);
}

/// Negating a column keeps its nulls and flips the sign of every value;
/// negating twice changes nothing.
pub proof fn lemma_negations(
    argument: Argument<'_>,
    negated: Result<Vector, &'static str>,
    again: Result<Vector, &'static str>,
)
    requires
        argument.aligned(),
        call_ensures(vector_negate, (&argument,), negated),
        negated is Ok,
        call_ensures(vector_negate, (&Argument::Vector(&negated->Ok_0),), again),
    ensures
        length(argument) == Some(negated->Ok_0@.len()),
        again matches Ok(back) && back@.len() == negated->Ok_0@.len() && forall|i: int|
            0 <= i < back@.len() ==> worth(argument, i, #[trigger] back@[i]),
{
    crate::laws::series::lemma_negation_flips(argument);
    let once = Argument::Vector(&negated->Ok_0);
    crate::laws::series::lemma_negation_flips(once);
    assert(arithmetic(once) && length(once) is Some);
    assert forall|i: int| 0 <= i < length(once)->0 implies #[trigger]
        crate::laws::series::exact_at(once, i) by {}
    let (rows, back) = (negated->Ok_0@, again->Ok_0@);
    assert forall|i: int| 0 <= i < back.len() implies worth(argument, i, #[trigger] back[i]) by {
        assert(back[i] is None <==> worth(once, i, None));
        assert(rows[i] is None <==> worth(argument, i, None));
    }
}

/// Lag gives a column moved down by the distance: nulls first, then the
/// column from its first row on, less what was pushed out.
pub proof fn lemma_lags(
    x: Argument<'_>,
    distance: Option<i64>,
    shifted: Result<Vector, &'static str>,
)
    requires
        x.aligned(),
        call_ensures(lag, (&x, distance), shifted),
    ensures
        shifted is Ok ==> dense(x) && (distance matches Some(k) && k >= 1),
        dense(x) && exact_over(x, length(x)->0) && (distance matches Some(k) && k >= 1)
            ==> shifted is Ok,
        shifted matches Ok(vector) ==> {
            let k = distance->0;
            &&& length(x) == Some(vector@.len())
            &&& forall|i: int| 0 <= i < k && i < vector@.len() ==> #[trigger] vector@[i] is None
            &&& forall|i: int|
                k <= i < vector@.len() ==> (#[trigger] vector@[i] matches Some(v) && value_at(
                    x,
                    i - k,
                    v,
                ))
        },
{
    crate::laws::series::lemma_lag_moves_down(x, distance);
}

/// The transforms that compare neighbours are handed each row with the one
/// before it, and null for the first.
pub proof fn lemma_steps(
    x: Argument<'_>,
    rows: Result<Vec<Option<(Float64, Float64)>>, &'static str>,
)
    requires
        x.aligned(),
        call_ensures(series_steps, (&x,), rows),
    ensures
        dense(x) && exact_over(x, length(x)->0) ==> rows is Ok,
        rows matches Ok(rows) ==> {
            &&& length(x) == Some(rows@.len())
            &&& rows@.len() > 0 ==> rows@[0] is None
            &&& forall|i: int|
                1 <= i < rows@.len() ==> (#[trigger] rows@[i] matches Some(pair) && value_at(
                    x,
                    i,
                    pair.0,
                ) && value_at(x, i - 1, pair.1))
        },
{
    crate::laws::series::lemma_steps_compare_neighbours(x);
}

/// Windows run over what their columns are worth, in order, under the width
/// asked for, and smoothing under the factor asked for.
pub proof fn lemma_windows(
    x: Argument<'_>,
    y: Argument<'_>,
    window: Option<i64>,
    alpha: Option<Float64>,
    one: Result<(Vec<Float64>, u64), &'static str>,
    two: Result<(Vec<Float64>, Vec<Float64>, u64), &'static str>,
    smoothed: Result<(Vec<Float64>, Float64), &'static str>,
)
    requires
        x.aligned(),
        y.aligned(),
        call_ensures(rolling_column, (&x, window), one),
        call_ensures(rolling_pair, (&x, &y, window), two),
        call_ensures(ewma_column, (&x, alpha), smoothed),
    ensures
        one is Ok <==> dense(x) && exact_over(x, length(x)->0) && (window matches Some(w) && w
            >= 1),
        one matches Ok(read) ==> window == Some(read.1 as i64) && length(x) == Some(
            read.0@.len(),
        ) && forall|i: int| 0 <= i < read.0@.len() ==> value_at(x, i, #[trigger] read.0@[i]),
        two is Ok <==> dense(x) && dense(y) && length(x) == length(y) && exact_over(
            x,
            length(x)->0,
        ) && exact_over(y, length(y)->0) && (window matches Some(w) && w >= 1),
        two matches Ok(read) ==> window == Some(read.2 as i64) && length(x) == Some(
            read.0@.len(),
        ) && length(y) == Some(read.1@.len()) && (forall|i: int|
            0 <= i < read.0@.len() ==> value_at(x, i, #[trigger] read.0@[i])) && (forall|i: int|
            0 <= i < read.1@.len() ==> value_at(y, i, #[trigger] read.1@[i])),
        smoothed matches Ok(read) ==> alpha == Some(read.1) && length(x) == Some(read.0@.len())
            && forall|i: int| 0 <= i < read.0@.len() ==> value_at(x, i, #[trigger] read.0@[i]),
        smoothed is Ok <==> dense(x) && exact_over(x, length(x)->0) && (alpha matches Some(factor)
            && factor.finite() && 0 < factor.scaled() <= (Float64 {
            bits: 0x3FF0_0000_0000_0000,
        }).scaled()),
{
    crate::laws::series::lemma_rolling_reads(x, window);
    crate::laws::series::lemma_rolling_pair_reads(x, y, window);
    crate::laws::series::lemma_smoothing_reads(x, alpha);
    crate::float64::lemma_one();
}

/// A returned column is read row by row: a vector's elements, a view's
/// values with null where its bit is unset; nil is no column.
pub proof fn lemma_returns(value: Argument<'_>, column: Result<ColumnResult, &'static str>)
    requires
        value.aligned(),
        call_ensures(read_column_result, (&value,), column),
    ensures
        column is Ok <==> value is Nil || ((value is Vector || value is View) && arithmetic(value)
            && exact_over(value, length(value)->0)),
        match column {
            Ok(ColumnResult::Nothing) => value is Nil,
            Ok(ColumnResult::Elements(elements)) => length(value) == Some(elements@.len())
                && forall|i: int|
                0 <= i < elements@.len() ==> worth(value, i, #[trigger] elements@[i]),
            Ok(ColumnResult::Dense(values)) => length(value) == Some(values@.len()) && forall|
                i: int,
            |
                0 <= i < values@.len() ==> value_at(value, i, #[trigger] values@[i]),
            Err(_) => true,
        },
{
    crate::laws::series::lemma_returned_column(value);
    if let Ok(ColumnResult::Dense(values)) = column {
        let rows = (ColumnResult::Dense(values))@->0;
        assert forall|i: int| 0 <= i < values@.len() implies value_at(
            value,
            i,
            #[trigger] values@[i],
        ) by {
            assert(rows[i] == Some(values@[i]));
        }
    }
}

/// Arithmetic with the sentinel gives nulls, as many as the first column has
/// rows, or the sentinel where there is no column.
pub proof fn lemma_sentinels(
    lhs: Argument<'_>,
    rhs: Argument<'_>,
    result: Result<Option<Vector>, &'static str>,
)
    requires
        call_ensures(null_arithmetic, (&lhs, &rhs), result),
    ensures
        match result {
            Ok(Some(vector)) => (match length(lhs) {
                Some(n) => vector@.len() == n,
                None => length(rhs) == Some(vector@.len()),
            }) && forall|i: int| 0 <= i < vector@.len() ==> #[trigger] vector@[i] is None,
            Ok(None) => length(lhs) is None && length(rhs) is None,
            Err(_) => (lhs matches Argument::View { born, generation, .. } && born != generation)
                || (rhs matches Argument::View { born, generation, .. } && born != generation),
        },
{
    crate::laws::series::lemma_sentinel_arithmetic(lhs, rhs);
}

/// A running sum covers the last rows, as many as the width at most: the one
/// that leaves is a width behind, and it starts over at every multiple of the
/// width, from the frame's first row.
pub proof fn lemma_sum_steps(offset: usize, width: u64, step: SumStep)
    requires
        width >= 1,
        offset < usize::MAX,
        call_ensures(sum_step, (offset, width), step),
    ensures
        step.rows <= width && step.rows <= offset + 1,
        step.rows == width || step.rows == offset + 1,
        step.leaves is Some <==> offset >= width,
        step.leaves matches Some(row) ==> row + width == offset,
        step.recompute_from is Some <==> (offset + 1) % (width as int) == 0,
        step.recompute_from matches Some(row) ==> row + step.rows == offset + 1,
{
}

/// Running moments shift by a row of their frame: while the last one taken
/// is in it, one row joins and the one a width behind leaves; else they start
/// over from the frame's first row, about the row itself.
pub proof fn lemma_spread_steps(
    offset: usize,
    width: u64,
    anchored: Option<usize>,
    step: SpreadStep,
)
    requires
        width >= 1,
        offset < usize::MAX,
        anchored matches Some(row) ==> row <= offset,
        call_ensures(spread_step, (offset, width, anchored), step),
    ensures
        step.rows == width || step.rows == offset + 1,
        step.rows <= width && step.rows <= offset + 1,
        step.rebuild_from is None <==> (anchored matches Some(row) && offset < row + width),
        step.rebuild_from matches Some(row) ==> row + step.rows == offset + 1 && step.anchored
            == offset && step.leaves is None,
        step.rebuild_from is None ==> anchored == Some(step.anchored) && (step.leaves is Some
            <==> offset >= width) && (step.leaves matches Some(row) ==> row + width == offset),
        step.anchored <= offset < step.anchored + width,
{
}

/// A frame is watched for terms that are not finite: they are counted, and
/// where all its terms are finite but the one that left is not, or the totals
/// are not, it starts over from its first row.
pub proof fn lemma_frame_checks(
    terms: &[Float64],
    offset: usize,
    width: u64,
    odd: usize,
    running: &[Float64],
    check: FrameCheck,
)
    requires
        width >= 1,
        offset < terms@.len(),
        call_ensures(frame_check, (terms, offset, width, odd, running), check),
    ensures
        check.odd == 0 <==> forall|row: int|
            0 <= row <= offset && offset < row + width ==> (#[trigger] terms@[row]).finite(),
        check.restart_from is Some <==> check.odd == 0 && ((offset >= width && !terms@[offset
            - width].finite()) || exists|i: int|
            0 <= i < running@.len() && !(#[trigger] running@[i]).finite()),
        check.restart_from matches Some(row) ==> row <= offset && offset < row + width && (row == 0
            || row + width == offset + 1),
{
    crate::laws::series::lemma_frames_watched(terms@, offset as nat, width as nat, running@);
}

/// A host function's outcome reaches the script as it is: its value, null
/// for none, and an error for a failure or a panic.
pub proof fn lemma_host_replies(
    outcome: Outcome<Option<Float64>>,
    reply: Result<Reply, String>,
)
    requires
        call_ensures(host_reply, (outcome,), reply),
    ensures
        match outcome {
            Outcome::Returned(Some(v)) => reply == Ok::<Reply, String>(Reply::Number(v)),
            Outcome::Returned(None) => reply == Ok::<Reply, String>(Reply::Null),
            Outcome::Failed(text) => reply matches Err(said) && said@ == text@,
            Outcome::Panicked => reply is Err,
        },
{
}

/// A statement's outcome reaches the script as it is: the rows affected, the
/// rows of the columns, true where there is no result, an error for a failure
/// or a panic. Counts below the integers' limit cross unchanged.
pub proof fn lemma_query_replies(
    outcome: Outcome<Statement>,
    reply: Result<QueryReply, String>,
    appended: Outcome<u64>,
    id: Result<Reply, String>,
)
    requires
        call_ensures(query_reply, (outcome,), reply),
        call_ensures(append_reply, (appended,), id),
    ensures
        match outcome {
            Outcome::Returned(Statement::Affected(count)) => count <= i64::MAX ==> (reply matches Ok(
                QueryReply::Value(Reply::Integer(n)),
            ) && n == count),
            Outcome::Returned(Statement::Rows(rows)) => rows <= i64::MAX ==> (reply matches Ok(
                QueryReply::Columns(n),
            ) && n == rows),
            Outcome::Returned(Statement::Done) => reply matches Ok(
                QueryReply::Value(Reply::Boolean(truth)),
            ) && truth,
            Outcome::Failed(text) => reply matches Err(said) && said@ == text@,
            Outcome::Panicked => reply is Err,
        },
        match appended {
            Outcome::Returned(row) => row <= i64::MAX ==> (id matches Ok(Reply::Integer(n)) && n
                == row),
            Outcome::Failed(text) => id matches Err(said) && said@ == text@,
            Outcome::Panicked => id is Err,
        },
{
}

/// The statement that is run is the string `query` was given.
pub proof fn lemma_query_requests(
    driving: bool,
    arguments: &[LuaValue],
    sql: Result<&str, &'static str>,
)
    requires
        call_ensures(query_request, (driving, arguments), sql),
    ensures
        sql is Ok <==> driving && arguments@.len() == 1 && (arguments@[0] matches LuaValue::Text(
            bytes,
        ) && valid_utf8(bytes@)),
        sql matches Ok(sql) ==> (arguments@[0] matches LuaValue::Text(bytes) && encode_utf8(sql@)
            == bytes@),
{
    crate::laws::scripts::lemma_queries(driving, arguments@);
}

/// The row that is appended has an entry for each of the script's, in order:
/// the column's name, and the value in its own kind.
pub proof fn lemma_append_requests(
    driving: bool,
    count: usize,
    table: LuaValue,
    row: &[(LuaValue, LuaValue)],
    request: Result<(&str, Vec<(String, ScriptValue)>), &'static str>,
    i: int,
)
    requires
        call_ensures(append_request, (driving, count, &table, Some(row)), request),
        request is Ok,
        0 <= i < row@.len(),
    ensures
        driving && count == 2,
        table matches LuaValue::Text(bytes) && encode_utf8(request->Ok_0.0@) == bytes@,
        request->Ok_0.1@.len() == row@.len(),
        row@[i].0 matches LuaValue::Text(bytes) && encode_utf8(request->Ok_0.1@[i].0@) == bytes@,
        match request->Ok_0.1@[i].1 {
            ScriptValue::Null => row@[i].1 is Null,
            ScriptValue::I64(n) => row@[i].1 == LuaValue::Integer(n),
            ScriptValue::F64(v) => row@[i].1 == LuaValue::Number(v),
            ScriptValue::Text(text) => row@[i].1 matches LuaValue::Text(bytes) && encode_utf8(text@)
                == bytes@,
        },
{
    crate::laws::scripts::lemma_appends(driving, count as nat, table, true);
    let values = request->Ok_0.1;
    if let LuaValue::Text(bytes) = table {
        decode_utf8_encode_utf8(bytes@);
    }
    assert(values@[i].0@ == values@[i].0@);
    crate::laws::scripts::lemma_row_entries(row@[i]);
}

/// A host function is handed as many columns as it takes, each the values of
/// the argument in its place.
pub proof fn lemma_host_arguments(
    arity: usize,
    arguments: &[Argument<'_>],
    slices: Result<Vec<&[Float64]>, &'static str>,
    i: int,
)
    requires
        call_ensures(host_arguments, (arity, arguments), slices),
        slices is Ok,
        0 <= i < arity,
    ensures
        arguments@.len() == arity,
        slices->Ok_0@.len() == arity,
        arguments@[i] matches Argument::View { view: ColumnView::F64 { floats, .. }, .. }
            && slices->Ok_0@[i]@ == floats@,
{
    let given = slices->Ok_0@;
    assert(crate::lua::host::slice_spec(arguments@[i]) == Ok::<Seq<Float64>, Seq<char>>(
        given[i]@,
    ));
    crate::laws::scripts::lemma_host_takes_floats(arguments@[i]);
}

/// The values a host function is handed are those of a float view of its own
/// call whose rows all hold one.
pub proof fn lemma_host_slices(
    argument: Argument<'_>,
    slice: Result<&[Float64], &'static str>,
    i: int,
)
    requires
        call_ensures(f64_view_slice, (&argument,), slice),
        slice is Ok,
        0 <= i < slice->Ok_0@.len(),
    ensures
        argument matches Argument::View {
            view: ColumnView::F64 { floats, validity },
            born,
            generation,
        } && born == generation && slice->Ok_0@ == floats@ && bit_set(validity, i),
{
    crate::laws::scripts::lemma_host_takes_floats(argument);
    if let Argument::View { view: ColumnView::F64 { floats, validity }, .. } = argument {
        if validity is Some {
            let bits = validity->0@;
            assert(bits[i]);
        }
    }
}

/// A host function is registered exactly when it takes one to eight columns
/// and its name holds no NUL; a result column goes by its own name, unless
/// that holds one.
pub proof fn lemma_names(
    name: &str,
    arity: usize,
    checked: Result<(), String>,
    named: &str,
)
    requires
        call_ensures(check_registration, (name, arity), checked),
        call_ensures(result_name, (name,), named),
    ensures
        checked is Ok <==> 1 <= arity <= 8 && !name@.contains('\0'),
        !name@.contains('\0') ==> named@ == name@,
        name@.contains('\0') ==> named@ == "result"@,
{
}

/// Inputs are bound exactly when every bitmap among them has one bit per
/// value.
pub proof fn lemma_bindings(inputs: &[(String, ColumnView<'_>)], bound: Result<(), String>)
    requires
        call_ensures(bind_inputs, (inputs,), bound),
    ensures
        bound is Ok <==> forall|i: int|
            0 <= i < inputs@.len() ==> ((#[trigger] inputs@[i]).1.mask() matches Some(bits)
                ==> bits.len() == inputs@[i].1.rows()),
{
    crate::laws::scripts::lemma_inputs_bind(inputs@, inputs@.len());
}

/// In the trial form an element reads as its value where it is flagged, and
/// as nil where it is not.
pub proof fn lemma_trial_views(
    view: NullableView<'_>,
    index: i64,
    reply: Result<Reply, &'static str>,
    offset: Result<usize, &'static str>,
    len: usize,
)
    requires
        view.aligned(),
        call_ensures(NullableView::index, (&view, Some(index)), reply),
        call_ensures(element_index, (Some(index), len), offset),
    ensures
        reply is Ok <==> 1 <= index <= view.values@.len(),
        reply is Ok ==> reply == Ok::<Reply, &'static str>(
            if view.valid@[index - 1] {
                Reply::Number(view.values@[index - 1])
            } else {
                Reply::Nil
            },
        ),
        offset is Ok <==> 1 <= index <= len,
        offset matches Ok(at) ==> at + 1 == index,
{
}

/// A message of one piece of UTF-8 is that piece.
pub proof fn lemma_messages(pieces: &[Vec<u8>], message: String)
    requires
        call_ensures(message_of, (pieces,), message),
    ensures
        pieces@.len() == 0 ==> message@.len() == 0,
        pieces@.len() == 1 ==> message@ == crate::text::lossy_text(pieces@[0]@),
        pieces@.len() > 1 ==> exists|rest: Seq<char>|
            message@ == #[trigger] (crate::text::lossy_text(pieces@[0]@) + seq!['\t'] + rest),
{
    let texts = crate::lua::log::lossy_texts(pieces@);
    if pieces@.len() > 1 {
        let (first, second) = (texts.take(1), texts.skip(1));
        assert(texts =~= first + second);
        assert(first =~= seq![crate::text::lossy_text(pieces@[0]@)]);
        crate::laws::scripts::lemma_messages_join(first, second, texts[0]);
        let rest = crate::lua::log::joined(second);
        assert(message@ == crate::text::lossy_text(pieces@[0]@) + seq!['\t'] + rest);
    }
}

/// An operand's element is what the argument is worth in the row, and the
/// operand is dense exactly when no row is null.
pub proof fn lemma_elements<'a>(
    argument: Argument<'a>,
    read: Result<Operand<'a>, &'static str>,
    offset: usize,
    element: Result<Option<Float64>, &'static str>,
    without_nulls: bool,
)
    requires
        argument.aligned(),
        call_ensures(operand, (&argument,), read),
        read is Ok,
        length(argument) matches Some(n) && offset < n,
        call_ensures(Operand::<'a>::element, (&read->Ok_0, offset), element),
        call_ensures(Operand::<'a>::is_dense, (&read->Ok_0,), without_nulls),
    ensures
        arithmetic(argument),
        element is Ok <==> crate::laws::series::exact_at(argument, offset as int),
        element matches Ok(value) ==> worth(argument, offset as int, value),
        without_nulls <==> forall|i: int|
            0 <= i < length(argument)->0 ==> !#[trigger] worth(argument, i, None),
{
    crate::laws::series::lemma_operand_worth(argument);
    let model = read->Ok_0@;
    let entries = model->Column_0;
    assert(entry_at(model, offset as int) == entries[offset as int]);
    assert forall|i: int| 0 <= i < entries.len() implies (#[trigger] worth(argument, i, None)
        <==> entries[i] == Entry::Null) by {
        assert(entry_at(model, i) == entries[i]);
    }
    if without_nulls {
        assert forall|i: int| 0 <= i < entries.len() implies !#[trigger] worth(
            argument,
            i,
            None,
        ) by {
            assert(entries[i] != Entry::Null);
        }
    } else {
        let k = choose|k: int| 0 <= k < entries.len() && entries[k] == Entry::Null;
        assert(worth(argument, k, None));
    }
}

/// A vector holds the elements it was made of, in order, and an index counts
/// to them from one.
pub proof fn lemma_vectors(
    elements: Vec<Option<Float64>>,
    vector: Vector,
    index: i64,
    reply: Result<Reply, &'static str>,
    count: usize,
    blank: Vector,
    i: int,
)
    requires
        call_ensures(Vector::new, (elements,), vector),
        call_ensures(Vector::index, (&vector, Some(index)), reply),
        call_ensures(Vector::nulls, (count,), blank),
    ensures
        vector@ == elements@,
        reply is Ok <==> 1 <= index <= elements@.len(),
        reply is Ok ==> reply == Ok::<Reply, &'static str>(
            match elements@[index - 1] {
                Some(v) => Reply::Number(v),
                None => Reply::Null,
            },
        ),
        blank@.len() == count,
        0 <= i < count ==> blank@[i] is None,
{
}

/// A view says its length, which of its elements are valid, and whether all
/// are.
pub proof fn lemma_views_say(
    view: ColumnView<'_>,
    len: usize,
    index: usize,
    valid: bool,
    without_nulls: bool,
    key: bool,
)
    requires
        view.aligned(),
        index < view.rows(),
        call_ensures(ColumnView::len, (&view,), len),
        call_ensures(ColumnView::is_valid, (&view, index), valid),
        call_ensures(ColumnView::is_dense, (&view,), without_nulls),
        call_ensures(ColumnView::is_key, (&view,), key),
    ensures
        key <==> view is Key,
        match view {
            ColumnView::F64 { floats, validity } => len == floats@.len() && valid == bit_set(
                validity,
                index as int,
            ) && (without_nulls <==> forall|i: int|
                0 <= i < floats@.len() ==> #[trigger] bit_set(validity, i)),
            ColumnView::I64 { integers, validity } => len == integers@.len() && valid == bit_set(
                validity,
                index as int,
            ) && (without_nulls <==> forall|i: int|
                0 <= i < integers@.len() ==> #[trigger] bit_set(validity, i)),
            ColumnView::Key { codes, validity, .. } => len == codes@.len() && valid == bit_set(
                validity,
                index as int,
            ) && (without_nulls <==> forall|i: int|
                0 <= i < codes@.len() ==> #[trigger] bit_set(validity, i)),
        },
{
    let validity = match view {
        ColumnView::F64 { validity, .. } => validity,
        ColumnView::I64 { validity, .. } => validity,
        ColumnView::Key { validity, .. } => validity,
    };
    assert forall|i: int| 0 <= i < view.rows() implies view.valid(i) == #[trigger] bit_set(
        validity,
        i,
    ) by {}
    if without_nulls {
        assert forall|i: int| 0 <= i < view.rows() implies #[trigger] bit_set(validity, i) by {
            assert(view.valid(i));
        }
    } else {
        let k = choose|k: int| 0 <= k < view.rows() && !view.valid(k);
        assert(!bit_set(validity, k));
    }
}

/// An argument is fit for use unless it is a view whose bitmap has not a bit
/// per value.
pub proof fn lemma_fit_arguments(argument: Argument<'_>)
    ensures
        argument.aligned() <==> (argument matches Argument::View { view, .. } ==> (
        view.mask() matches Some(bits) ==> bits.len() == view.rows())),
{
}

} // verus!
