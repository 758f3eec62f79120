//! Calls between scripts and their host: what fills an output, which
//! arguments are taken, and what is said.
use crate::float64::{exact_int, Float64};
use crate::lua::driver::{
    append_refusal, count_integer, entry_spec, first_malformed, query_spec, ScriptModel,
};
use crate::lua::host::{first_refusal, registration_failure, slice_spec};
use crate::lua::log::{joined, summary_text};
use crate::lua::state::{failure_text, first_misfit, first_unfit, returned_cell, wrote};
use crate::lua::trial::{trial_cell, trial_index};
use crate::lua::values::{ColumnView, LuaValue, OutputColumn, ReplyModel, ReturnType};
use crate::lua::vector::Argument;
use crate::text::{decimal, lemma_decimal_unique, lossy_text};
use vstd::prelude::*;
use vstd::utf8::{decode_utf8_encode_utf8, encode_utf8, valid_utf8};

verus! {

/// A slot of the type can hold the element: a null always, and a value where
/// the slot takes floats, or integers and the value is one of them.
pub open spec fn fits(slot: ReturnType, element: Option<Float64>) -> bool {
    element is None || slot == ReturnType::F64 || (slot == ReturnType::I64 && exists|n: i64|
        element->0.is_integer(n as int))
}

/// A slot reads as the element: null for a null, the very float, or the
/// integer it equals.
pub open spec fn reads_as(slot: ReturnType, cell: ReplyModel, element: Option<Float64>) -> bool {
    match element {
        None => cell == ReplyModel::Null,
        Some(value) => if slot == ReturnType::F64 {
            cell == ReplyModel::Number(value)
        } else {
            cell matches ReplyModel::Integer(n) && value.is_integer(n as int)
        },
    }
}

/// An element that fits a slot gives it a value that reads as the element.
proof fn lemma_cell_reads(slot: ReturnType, element: Option<Float64>)
    requires
        slot != ReturnType::Key,
    ensures
        returned_cell(slot, element) is Some <==> fits(slot, element),
        returned_cell(slot, element) matches Some(cell) ==> reads_as(slot, cell, element),
{
    if slot == ReturnType::I64 && element is Some {
        let value = element->0;
        if exists|n: i64| value.is_integer(n as int) {
            let n = choose|n: i64| value.is_integer(n as int);
            assert(exact_int(value) == Some(n));
        }
    }
}

/// The rows before the first that does not fit all fit.
proof fn lemma_unfit_is_first(slot: ReturnType, elements: Seq<Option<Float64>>, from: nat)
    requires
        slot != ReturnType::Key,
        from <= elements.len(),
    ensures
        from <= first_unfit(slot, elements, from) <= elements.len(),
        forall|i: int|
            from <= i < first_unfit(slot, elements, from) ==> fits(slot, #[trigger] elements[i]),
        first_unfit(slot, elements, from) < elements.len() ==> !fits(
            slot,
            elements[first_unfit(slot, elements, from) as int],
        ),
    decreases elements.len() - from,
{
    if from < elements.len() {
        lemma_cell_reads(slot, elements[from as int]);
        if returned_cell(slot, elements[from as int]) is Some {
            lemma_unfit_is_first(slot, elements, from + 1);
        }
    }
}

/// A returned column is taken exactly when the output holds numbers, it has
/// a row for each slot, and every element fits; each slot then reads as its
/// element.
pub proof fn lemma_returned_column_fills(
    elements: Seq<Option<Float64>>,
    before: OutputColumn,
    after: OutputColumn,
    result: Result<(), String>,
)
    requires
        wrote(Some(elements), before, after, result),
    ensures
        result is Ok <==> {
            &&& before.slot() != ReturnType::Key
            &&& elements.len() == before.rows()
            &&& forall|i: int|
                0 <= i < elements.len() ==> fits(before.slot(), #[trigger] elements[i])
        },
        result is Ok ==> after.slot() == before.slot() && after.cells().len() == elements.len() && (
        forall|i: int|
            0 <= i < elements.len() ==> reads_as(
                before.slot(),
                #[trigger] after.cells()[i],
                elements[i],
            )),
{
    if before.slot() != ReturnType::Key && elements.len() == before.rows() {
        lemma_unfit_is_first(before.slot(), elements, 0);
        if result is Ok {
            assert forall|i: int| 0 <= i < elements.len() implies reads_as(
                before.slot(),
                #[trigger] after.cells()[i],
                elements[i],
            ) by {
                lemma_cell_reads(before.slot(), elements[i]);
                assert(fits(before.slot(), elements[i]));
            }
        }
    }
}

/// A returned column that is refused changes no slot from the first element
/// that does not fit on, and none at all where the output holds keys or the
/// numbers of rows differ.
pub proof fn lemma_refused_column_stops(
    elements: Seq<Option<Float64>>,
    before: OutputColumn,
    after: OutputColumn,
    result: Result<(), String>,
    k: int,
)
    requires
        before.aligned(),
        wrote(Some(elements), before, after, result),
        0 <= k < before.rows(),
        before.slot() == ReturnType::Key || elements.len() != before.rows() || exists|i: int|
            0 <= i <= k && !fits(before.slot(), #[trigger] elements[i]),
    ensures
        result is Err,
        after.cells()[k] == before.cells()[k],
        after.stored()[k] == before.stored()[k],
        after.bits()[k] == before.bits()[k],
{
    if before.slot() != ReturnType::Key && elements.len() == before.rows() {
        lemma_unfit_is_first(before.slot(), elements, 0);
        let i = choose|i: int| 0 <= i <= k && !fits(before.slot(), #[trigger] elements[i]);
        assert(first_unfit(before.slot(), elements, 0) <= i);
    } else {
        lemma_same_reads(before, after);
    }
}

/// An output that holds what another does reads as it does.
proof fn lemma_same_reads(before: OutputColumn, after: OutputColumn)
    requires
        after.same(before),
    ensures
        after.cells() == before.cells(),
{
    assert(before.stored().len() == before.rows());
    assert(after.stored().len() == after.rows());
    assert(after.cells() =~= before.cells());
}

/// Without a returned column what the script wrote stands.
pub proof fn lemma_writes_stand(before: OutputColumn, after: OutputColumn, result: Result<(), String>)
    requires
        wrote(None, before, after, result),
    ensures
        result is Ok,
        after.cells() == before.cells(),
{
    lemma_same_reads(before, after);
}

/// Inputs are bound exactly when every bitmap among them has one bit per
/// value.
pub proof fn lemma_inputs_bind(inputs: Seq<(String, ColumnView<'_>)>, n: nat)
    requires
        n <= inputs.len(),
    ensures
        first_misfit(inputs, n) is None <==> forall|i: int|
            0 <= i < n ==> ((#[trigger] inputs[i]).1.mask() matches Some(bits) ==> bits.len()
                == inputs[i].1.rows()),
    decreases n,
{
    if n > 0 {
        lemma_inputs_bind(inputs, (n - 1) as nat);
    }
}

/// A host function takes exactly the float views of its own call whose rows
/// all hold a value, and is handed the view's values.
pub proof fn lemma_host_takes_floats(argument: Argument<'_>)
    ensures
        slice_spec(argument) is Ok <==> (argument matches Argument::View { view, born, generation }
            && born == generation && view is F64 && forall|i: int|
            0 <= i < view->floats@.len() ==> #[trigger] view.valid(i)),
        slice_spec(argument) matches Ok(values) ==> (argument matches Argument::View { view, .. }
            && (view matches ColumnView::F64 { floats, validity } && values == floats@ && (forall|
            i: int,
        |
            0 <= i < values.len() ==> validity is None || #[trigger] validity->0@[i]))),
{
    if let Argument::View { view, born, generation } = argument {
        if let ColumnView::F64 { floats, validity } = view {
            assert(view.rows() == floats@.len());
            if slice_spec(argument) is Ok && validity is Some {
                assert forall|i: int| 0 <= i < floats@.len() implies #[trigger] validity->0@[i] by {
                    assert(view.valid(i));
                }
            }
        }
    }
}

/// The arguments of a host function are taken exactly when each is.
pub proof fn lemma_host_takes_all(arguments: Seq<Argument<'_>>, n: nat)
    requires
        n <= arguments.len(),
    ensures
        first_refusal(arguments, n) is None <==> forall|i: int|
            0 <= i < n ==> slice_spec(#[trigger] arguments[i]) is Ok,
    decreases n,
{
    if n > 0 {
        lemma_host_takes_all(arguments, (n - 1) as nat);
    }
}

/// A host function is registered exactly when it takes one to eight columns
/// and its name holds no NUL.
pub proof fn lemma_registrations(name: Seq<char>, arity: nat)
    ensures
        registration_failure(name, arity) is None <==> 1 <= arity <= 8 && forall|i: int|
            0 <= i < name.len() ==> #[trigger] name[i] != '\0',
{
    if name.contains('\0') {
        let i = choose|i: int| 0 <= i < name.len() && name[i] == '\0';
        assert(name[i] == '\0');
    }
}

/// A statement is run exactly when a driving call is going on and `query`
/// was given one string of valid UTF-8: that string.
pub proof fn lemma_queries(driving: bool, arguments: Seq<LuaValue>)
    ensures
        query_spec(driving, arguments) is Ok <==> driving && arguments.len() == 1 && (
        arguments[0] matches LuaValue::Text(bytes) && valid_utf8(bytes@)),
        query_spec(driving, arguments) matches Ok(sql) ==> (arguments[0] matches LuaValue::Text(
            bytes,
        ) && encode_utf8(sql) == bytes@),
{
    if let LuaValue::Text(bytes) = arguments[0] {
        if valid_utf8(bytes@) {
            decode_utf8_encode_utf8(bytes@);
        }
    }
}

/// An entry of a row is taken exactly when its key is a string and its value
/// null, a number or a string, strings of valid UTF-8; the name, and the
/// value in its own kind, cross unchanged.
pub proof fn lemma_row_entries(entry: (LuaValue, LuaValue))
    ensures
        entry_spec(entry) is Ok <==> (entry.0 matches LuaValue::Text(name) && valid_utf8(name@)) && (
        entry.1 is Null || entry.1 is Integer || entry.1 is Number || (
        entry.1 matches LuaValue::Text(bytes) && valid_utf8(bytes@))),
        entry_spec(entry) matches Ok((name, value)) ==> {
            &&& entry.0 matches LuaValue::Text(bytes) && encode_utf8(name) == bytes@
            &&& match value {
                ScriptModel::Null => entry.1 is Null,
                ScriptModel::I64(n) => entry.1 == LuaValue::Integer(n),
                ScriptModel::F64(v) => entry.1 == LuaValue::Number(v),
                ScriptModel::Text(text) => entry.1 matches LuaValue::Text(bytes) && encode_utf8(text)
                    == bytes@,
            }
        },
{
    if let LuaValue::Text(bytes) = entry.0 {
        if valid_utf8(bytes@) {
            decode_utf8_encode_utf8(bytes@);
        }
    }
    if let LuaValue::Text(bytes) = entry.1 {
        if valid_utf8(bytes@) {
            decode_utf8_encode_utf8(bytes@);
        }
    }
}

/// A row is taken exactly when each of its entries is.
pub proof fn lemma_rows_taken(entries: Seq<(LuaValue, LuaValue)>, n: nat)
    requires
        n <= entries.len(),
    ensures
        first_malformed(entries, n) is None <==> forall|i: int|
            0 <= i < n ==> entry_spec(#[trigger] entries[i]) is Ok,
    decreases n,
{
    if n > 0 {
        lemma_rows_taken(entries, (n - 1) as nat);
    }
}

/// `append` reads a row exactly when a driving call is going on and it was
/// given a table's name, a string of valid UTF-8, and a row.
pub proof fn lemma_appends(driving: bool, count: nat, table: LuaValue, is_row: bool)
    ensures
        append_refusal(driving, count, table, is_row) is None <==> driving && count == 2 && is_row
            && (table matches LuaValue::Text(bytes) && valid_utf8(bytes@)),
{
}

/// Counts cross to scripts as the integer of sixty-four bits that differs
/// from them by a multiple of its range.
pub proof fn lemma_counts_wrap(count: u64)
    ensures
        i64::MIN <= count_integer(count as int) <= i64::MAX,
        (count - count_integer(count as int)) % 0x1_0000_0000_0000_0000 == 0,
{
}

/// A message is its pieces in order with a tab between each two: one piece
/// is itself, none is nothing, and messages join by a tab.
pub proof fn lemma_messages_join(first: Seq<Seq<char>>, second: Seq<Seq<char>>, one: Seq<char>)
    requires
        first.len() > 0,
        second.len() > 0,
    ensures
        joined(Seq::<Seq<char>>::empty()) == Seq::<char>::empty(),
        joined(seq![one]) == one,
        joined(first + second) == joined(first) + seq!['\t'] + joined(second),
    decreases second.len(),
{
    reveal_strlit("\t");
    assert("\t"@ =~= seq!['\t']);
    let all = first + second;
    assert(all.drop_last() =~= first + second.drop_last());
    assert(all.last() == second.last());
    if second.len() == 1 {
        assert(first + second.drop_last() =~= first);
        assert(joined(all) =~= joined(first) + seq!['\t'] + joined(second));
    } else {
        lemma_messages_join(first, second.drop_last(), one);
        assert(joined(all) =~= joined(first) + seq!['\t'] + joined(second));
    }
}

/// The kind of a view.
pub open spec fn kind_of(view: ColumnView<'_>) -> int {
    match view {
        ColumnView::F64 { .. } => 0,
        ColumnView::I64 { .. } => 1,
        ColumnView::Key { .. } => 2,
    }
}

/// A view's summary tells its type and its length, so views of one summary
/// agree in both.
pub proof fn lemma_summaries_tell(a: ColumnView<'_>, b: ColumnView<'_>)
    requires
        summary_text(a) == summary_text(b),
    ensures
        kind_of(a) == kind_of(b),
        a.rows() == b.rows(),
{
    reveal_strlit("f64 view, len ");
    reveal_strlit("i64 view, len ");
    reveal_strlit("key view, len ");
    let (first, second) = (summary_text(a), summary_text(b));
    assert(first[0] == (if a is F64 {
        'f'
    } else if a is I64 {
        'i'
    } else {
        'k'
    }));
    assert(second[0] == (if b is F64 {
        'f'
    } else if b is I64 {
        'i'
    } else {
        'k'
    }));
    assert(summary_text(a).skip(14) =~= decimal(a.rows()));
    assert(summary_text(b).skip(14) =~= decimal(b.rows()));
    lemma_decimal_unique(a.rows(), b.rows());
}

/// In the trial form too, indices count from one, and a slot reads as its
/// value where it is flagged and as nil where it is not.
pub proof fn lemma_trial_reads(
    index: i64,
    values: Seq<Float64>,
    valid: Seq<bool>,
    not_integer: Seq<char>,
    out_of_range: Seq<char>,
)
    requires
        values.len() == valid.len(),
    ensures
        match trial_index(Some(index), values.len(), not_integer, out_of_range) {
            Ok(offset) => 0 <= offset < values.len() && offset + 1 == index && (
            if valid[offset] {
                trial_cell(values, valid, offset) == ReplyModel::Number(values[offset])
            } else {
                trial_cell(values, valid, offset) == ReplyModel::Nil
            }),
            Err(text) => text == out_of_range && (index <= 0 || index > values.len()),
        },
        trial_index(None, values.len(), not_integer, out_of_range) == Err::<int, Seq<char>>(
            not_integer,
        ),
{
}

/// Of the inputs that do not bind the first is the one that is named.
pub proof fn lemma_first_misfit_named(inputs: Seq<(String, ColumnView<'_>)>, n: nat, k: int)
    requires
        0 <= k < n <= inputs.len(),
        forall|i: int|
            0 <= i < k ==> ((#[trigger] inputs[i]).1.mask() matches Some(bits) ==> bits.len()
                == inputs[i].1.rows()),
        inputs[k].1.mask() matches Some(bits) && bits.len() != inputs[k].1.rows(),
    ensures
        first_misfit(inputs, n) matches Some(text) && exists|rest: Seq<char>|
            text == #[trigger] ("column "@ + inputs[k].0@ + rest),
    decreases n,
{
    if k < n - 1 {
        lemma_first_misfit_named(inputs, (n - 1) as nat, k);
    } else {
        lemma_inputs_bind(inputs, k as nat);
        let bits = inputs[k].1.mask()->0;
        let rest = ": validity has "@ + decimal(bits.len()) + " bits for "@ + decimal(
            inputs[k].1.rows(),
        ) + " values"@;
        assert(first_misfit(inputs, n)->0 =~= "column "@ + inputs[k].0@ + rest);
    }
}

/// Of the arguments a host function does not take the first is the one that
/// the error is of.
pub proof fn lemma_first_refusal_told(arguments: Seq<Argument<'_>>, n: nat, k: int)
    requires
        0 <= k < n <= arguments.len(),
        forall|i: int| 0 <= i < k ==> slice_spec(#[trigger] arguments[i]) is Ok,
        slice_spec(arguments[k]) is Err,
    ensures
        first_refusal(arguments, n) matches Some(message) && slice_spec(arguments[k]) == Err::<
            Seq<Float64>,
            Seq<char>,
        >(message),
    decreases n,
{
    if k < n - 1 {
        lemma_first_refusal_told(arguments, (n - 1) as nat, k);
    } else {
        lemma_host_takes_all(arguments, k as nat);
    }
}

/// Of a row's entries that are not taken the first is the one that the error
/// is of.
pub proof fn lemma_first_malformed_told(entries: Seq<(LuaValue, LuaValue)>, n: nat, k: int)
    requires
        0 <= k < n <= entries.len(),
        forall|i: int| 0 <= i < k ==> entry_spec(#[trigger] entries[i]) is Ok,
        entry_spec(entries[k]) is Err,
    ensures
        first_malformed(entries, n) matches Some(message) && entry_spec(entries[k]) == Err::<
            (Seq<char>, ScriptModel),
            Seq<char>,
        >(message),
    decreases n,
{
    if k < n - 1 {
        lemma_first_malformed_told(entries, (n - 1) as nat, k);
    } else {
        lemma_rows_taken(entries, k as nat);
    }
}

/// A failure's text begins with the stage it came at and ends with what the
/// interpreter said.
pub proof fn lemma_failures_say(stage: Seq<char>, message: Seq<u8>)
    ensures
        stage.is_prefix_of(failure_text(stage, Some(message))),
        failure_text(stage, Some(message)).skip(
            failure_text(stage, Some(message)).len() - lossy_text(message).len(),
        ) == lossy_text(message),
        stage.is_prefix_of(failure_text(stage, None)),
{
    let text = failure_text(stage, Some(message));
    assert(text.skip(text.len() - lossy_text(message).len()) =~= lossy_text(message));
}

} // verus!
