//! Whole columns in scripts: which values meet in an operator, a window or a
//! transform, and which rows are null.
use crate::float64::{all_finite, exact_float, Float64};
use crate::laws::values::bit_set;
use crate::lua::values::ColumnView;
use crate::lua::vector::{
    binary_spec, count_spec, dense_spec, dense_values, entry_at, ewma_spec, exact_rows, frame,
    frame_start, frame_terms, lag_spec, leaving, lemma_odd_bound, negate_spec, null_spec,
    odd_terms, operand_spec, returned_spec, rolling_pair_spec, rolling_spec, smoothing, spoiled,
    stale, steps_spec, view_entries, Argument, Entry, OperandModel,
};
use vstd::prelude::*;

verus! {

/// The float is the integer, with its sign.
pub open spec fn is_exactly(v: Float64, n: i64) -> bool {
    v.is_integer(n as int) && v.negative() == (n < 0)
}

/// What an argument is worth in row `i`: a number is the same in every row,
/// the sentinel is null in every row, a vector and a view are worth what they
/// hold there, and a view is null where its validity bit is unset, whatever
/// lies under it. Integers are worth the float that they are exactly.
pub open spec fn worth(argument: Argument<'_>, i: int, value: Option<Float64>) -> bool {
    match argument {
        Argument::Number(v) => value == Some(v),
        Argument::Integer(n) => value matches Some(v) && is_exactly(v, n),
        Argument::Null => value is None,
        Argument::Vector(vector) => value == vector@[i],
        Argument::View { view, .. } => match view {
            ColumnView::F64 { floats, validity } => if bit_set(validity, i) {
                value == Some(floats@[i])
            } else {
                value is None
            },
            ColumnView::I64 { integers, validity } => if bit_set(validity, i) {
                value matches Some(v) && is_exactly(v, integers@[i])
            } else {
                value is None
            },
            ColumnView::Key { .. } => false,
        },
        _ => false,
    }
}

/// How many rows an argument has: a column has its own, all else none.
pub open spec fn length(argument: Argument<'_>) -> Option<nat> {
    match argument {
        Argument::Vector(vector) => Some(vector@.len()),
        Argument::View { view: ColumnView::F64 { floats, .. }, .. } => Some(floats@.len()),
        Argument::View { view: ColumnView::I64 { integers, .. }, .. } => Some(integers@.len()),
        _ => None,
    }
}

/// The argument can stand in arithmetic: a number, the sentinel, a vector, or
/// a numeric view in the call it was bound in.
pub open spec fn arithmetic(argument: Argument<'_>) -> bool {
    match argument {
        Argument::Number(_) => true,
        Argument::Integer(n) => exists|v: Float64| is_exactly(v, n),
        Argument::Null => true,
        Argument::Vector(_) => true,
        Argument::View { view, born, generation } => born == generation && !(view is Key),
        _ => false,
    }
}

/// Row `i` of the argument has a worth: it holds no integer that is no float.
pub open spec fn exact_at(argument: Argument<'_>, i: int) -> bool {
    match argument {
        Argument::View { view: ColumnView::I64 { integers, validity }, .. } => bit_set(validity, i)
            ==> exists|v: Float64| is_exactly(v, integers@[i]),
        _ => true,
    }
}

/// The first `n` rows of the argument have a worth.
pub open spec fn exact_over(argument: Argument<'_>, n: nat) -> bool {
    forall|i: int| 0 <= i < n ==> #[trigger] exact_at(argument, i)
}

/// The rows in which two arguments meet: those of a column among them.
pub open spec fn meeting_rows(lhs: Argument<'_>, rhs: Argument<'_>) -> nat {
    match length(lhs) {
        Some(n) => n,
        None => match length(rhs) {
            Some(n) => n,
            None => 0,
        },
    }
}

/// What an argument is as an operand agrees with what it is worth.
pub proof fn lemma_operand_worth(argument: Argument<'_>)
    requires
        argument.aligned(),
    ensures
        operand_spec(argument) is Ok <==> arithmetic(argument),
        operand_spec(argument) matches Ok(operand) ==> {
            &&& length(argument) matches Some(n) ==> (operand matches OperandModel::Column(entries)
                && entries.len() == n)
            &&& length(argument) is None ==> !(operand is Column)
            &&& forall|i: int|
                (length(argument) matches Some(n) ==> 0 <= i < n) ==> {
                    &&& #[trigger] entry_at(operand, i) == Entry::Inexact <==> !exact_at(argument, i)
                    &&& entry_at(operand, i) == Entry::Null <==> worth(argument, i, None)
                    &&& entry_at(operand, i) matches Entry::Value(v) ==> worth(argument, i, Some(v))
                }
        },
{
    assert forall|n: i64| #[trigger] exact_float(n as int) is Some <==> exists|v: Float64|
        is_exactly(v, n) by {
        if exists|v: Float64| is_exactly(v, n) {
            let v = choose|v: Float64| is_exactly(v, n);
            assert(v.is_integer(n as int) && v.negative() == (n < 0));
        }
        if exact_float(n as int) is Some {
            let v = exact_float(n as int)->0;
            assert(v.is_integer(n as int) && v.negative() == (n < 0));
            assert(is_exactly(v, n));
        }
    }
    assert forall|n: i64| #[trigger] exact_float(n as int) is Some implies is_exactly(
        exact_float(n as int)->0,
        n,
    ) by {
        let v = exact_float(n as int)->0;
        assert(v.is_integer(n as int) && v.negative() == (n < 0));
    }
    match argument {
        Argument::View { view, born, generation } => {
            if born == generation && !(view is Key) {
                let entries = view_entries(view);
                assert forall|i: int| 0 <= i < entries.len() implies {
                    &&& #[trigger] entry_at(OperandModel::Column(entries), i) == Entry::Inexact
                        <==> !exact_at(argument, i)
                    &&& entry_at(OperandModel::Column(entries), i) == Entry::Null <==> worth(
                        argument,
                        i,
                        None,
                    )
                    &&& entry_at(OperandModel::Column(entries), i) matches Entry::Value(v)
                        ==> worth(argument, i, Some(v))
                } by {
                    crate::laws::values::lemma_element_reads(view, i);
                }
            }
        },
        Argument::Vector(vector) => {},
        Argument::Integer(n) => {
            assert(exact_float(n as int) is Some <==> exists|v: Float64| is_exactly(v, n));
        },
        _ => {},
    }
}

/// An operator lines up what its arguments are worth in each row: both
/// values, or null where either side is null. It runs exactly when both
/// sides can stand in arithmetic, at least one is a column, columns agree on
/// their length, and no row holds an integer that is no float.
pub proof fn lemma_operator_lines_up(lhs: Argument<'_>, rhs: Argument<'_>)
    requires
        lhs.aligned(),
        rhs.aligned(),
    ensures
        binary_spec(lhs, rhs) matches Ok(rows) ==> {
            &&& length(lhs) matches Some(n) ==> rows.len() == n
            &&& length(rhs) matches Some(n) ==> rows.len() == n
            &&& forall|i: int|
                0 <= i < rows.len() ==> (#[trigger] rows[i] matches Some(pair) ==> worth(
                    lhs,
                    i,
                    Some(pair.0),
                ) && worth(rhs, i, Some(pair.1)))
            &&& forall|i: int|
                0 <= i < rows.len() ==> (#[trigger] rows[i] is None <==> worth(lhs, i, None)
                    || worth(rhs, i, None))
        },
        binary_spec(lhs, rhs) is Ok <==> {
            &&& arithmetic(lhs) && arithmetic(rhs)
            &&& length(lhs) is Some || length(rhs) is Some
            &&& length(lhs) is Some && length(rhs) is Some ==> length(lhs) == length(rhs)
            &&& exact_over(lhs, meeting_rows(lhs, rhs))
            &&& exact_over(rhs, meeting_rows(lhs, rhs))
        },
{
    lemma_operand_worth(lhs);
    lemma_operand_worth(rhs);
    if arithmetic(lhs) && arithmetic(rhs) {
        let (a, b) = (operand_spec(lhs)->Ok_0, operand_spec(rhs)->Ok_0);
        if (length(lhs) is Some || length(rhs) is Some) && (length(lhs) is Some && length(
            rhs,
        ) is Some ==> length(lhs) == length(rhs)) {
            let n = meeting_rows(lhs, rhs);
            lemma_exact_rows(lhs, a, n);
            lemma_exact_rows(rhs, b, n);
        }
    }
}

/// The rows of an operand are exact where the argument's are.
proof fn lemma_exact_rows(argument: Argument<'_>, operand: OperandModel, n: nat)
    requires
        argument.aligned(),
        operand_spec(argument) == Ok::<OperandModel, Seq<char>>(operand),
        length(argument) matches Some(m) ==> n <= m,
    ensures
        exact_rows(operand, n) <==> exact_over(argument, n),
{
    lemma_operand_worth(argument);
    if exact_rows(operand, n) {
        assert forall|i: int| 0 <= i < n implies #[trigger] exact_at(argument, i) by {
            assert(entry_at(operand, i) != Entry::Inexact);
        }
    }
    if exact_over(argument, n) {
        assert forall|i: int| 0 <= i < n implies #[trigger] entry_at(operand, i)
            != Entry::Inexact by {
            assert(exact_at(argument, i));
        }
    }
}

/// Negation flips the sign of every value, bit for bit, and keeps nulls. It
/// takes columns alone.
pub proof fn lemma_negation_flips(argument: Argument<'_>)
    requires
        argument.aligned(),
    ensures
        negate_spec(argument) is Ok <==> arithmetic(argument) && length(argument) is Some
            && exact_over(argument, length(argument)->0),
        negate_spec(argument) matches Ok(rows) ==> {
            &&& length(argument) == Some(rows.len())
            &&& forall|i: int|
                0 <= i < rows.len() ==> (#[trigger] rows[i] is None <==> worth(argument, i, None))
            &&& forall|i: int|
                0 <= i < rows.len() ==> (#[trigger] rows[i] matches Some(v) ==> worth(
                    argument,
                    i,
                    Some(
                        Float64 {
                            bits: if v.bits >= 0x8000_0000_0000_0000 {
                                (v.bits - 0x8000_0000_0000_0000) as u64
                            } else {
                                (v.bits + 0x8000_0000_0000_0000) as u64
                            },
                        },
                    ),
                ))
        },
{
    lemma_operand_worth(argument);
    if arithmetic(argument) && length(argument) is Some {
        let operand = operand_spec(argument)->Ok_0;
        let entries = operand->Column_0;
        lemma_exact_rows(argument, operand, entries.len());
        if exact_rows(operand, entries.len()) {
            let rows = negate_spec(argument)->Ok_0;
            assert forall|i: int| 0 <= i < rows.len() implies (#[trigger] rows[i] is None <==> worth(
                argument,
                i,
                None,
            )) by {
                assert(entry_at(operand, i) != Entry::Inexact);
            }
            assert forall|i: int| 0 <= i < rows.len() implies (#[trigger] rows[i] matches Some(v)
                ==> worth(
                argument,
                i,
                Some(
                    Float64 {
                        bits: if v.bits >= 0x8000_0000_0000_0000 {
                            (v.bits - 0x8000_0000_0000_0000) as u64
                        } else {
                            (v.bits + 0x8000_0000_0000_0000) as u64
                        },
                    },
                ),
            )) by {
                match entry_at(operand, i) {
                    Entry::Value(x) => {
                        let v = x.negated();
                        assert(rows[i] == Some(v));
                        assert(x.bits == (if v.bits >= 0x8000_0000_0000_0000 {
                            (v.bits - 0x8000_0000_0000_0000) as u64
                        } else {
                            (v.bits + 0x8000_0000_0000_0000) as u64
                        }));
                    },
                    _ => {},
                }
            }
        }
    }
}

/// The argument is a column without nulls.
pub open spec fn dense(argument: Argument<'_>) -> bool {
    &&& arithmetic(argument)
    &&& length(argument) is Some
    &&& forall|i: int| 0 <= i < length(argument)->0 ==> !#[trigger] worth(argument, i, None)
}

/// A row of the argument is worth this float.
pub open spec fn value_at(argument: Argument<'_>, i: int, v: Float64) -> bool {
    worth(argument, i, Some(v))
}

/// What a column without nulls is as entries.
proof fn lemma_dense_entries(argument: Argument<'_>)
    requires
        argument.aligned(),
    ensures
        dense_spec(argument) is Ok <==> dense(argument),
        dense_spec(argument) matches Ok(entries) ==> {
            &&& length(argument) == Some(entries.len())
            &&& forall|i: int|
                0 <= i < entries.len() ==> (#[trigger] entries[i] == Entry::Inexact <==> !exact_at(
                    argument,
                    i,
                ))
            &&& forall|i: int| 0 <= i < entries.len() ==> #[trigger] entries[i] != Entry::Null
            &&& forall|i: int|
                0 <= i < entries.len() ==> (#[trigger] entries[i] matches Entry::Value(v)
                    ==> value_at(argument, i, v))
        },
        dense_spec(argument) matches Ok(entries) ==> {
            &&& dense_values(entries) is Ok <==> exact_over(argument, entries.len())
            &&& dense_values(entries) matches Ok(values) ==> values.len() == entries.len()
                && forall|i: int|
                0 <= i < values.len() ==> value_at(argument, i, #[trigger] values[i])
        },
{
    lemma_operand_worth(argument);
    if arithmetic(argument) && length(argument) is Some {
        let operand = operand_spec(argument)->Ok_0;
        let entries = operand->Column_0;
        assert forall|i: int| 0 <= i < entries.len() implies #[trigger] entries[i] == entry_at(
            operand,
            i,
        ) by {}
        assert forall|i: int| 0 <= i < entries.len() implies (#[trigger] worth(argument, i, None)
            <==> entries[i] == Entry::Null) by {
            assert(entry_at(operand, i) == entries[i]);
        }
        if dense_spec(argument) is Ok {
            assert forall|i: int| 0 <= i < entries.len() implies !#[trigger] worth(
                argument,
                i,
                None,
            ) by {
                assert(entries[i] != Entry::Null);
            }
        }
        if dense(argument) {
            assert forall|i: int| 0 <= i < entries.len() implies #[trigger] entries[i]
                != Entry::Null by {
                assert(!worth(argument, i, None));
            }
            assert(dense_spec(argument) == Ok::<Seq<Entry>, Seq<char>>(entries));
            if dense_values(entries) is Ok {
                let values = dense_values(entries)->Ok_0;
                assert forall|i: int| 0 <= i < entries.len() implies #[trigger] exact_at(
                    argument,
                    i,
                ) by {
                    assert(entries[i] != Entry::Inexact);
                }
                assert forall|i: int| 0 <= i < values.len() implies value_at(
                    argument,
                    i,
                    #[trigger] values[i],
                ) by {
                    assert(entries[i] != Entry::Inexact && entries[i] != Entry::Null);
                    assert(entries[i] == Entry::Value(values[i]));
                }
            }
            if exact_over(argument, entries.len()) {
                assert forall|i: int| 0 <= i < entries.len() implies #[trigger] entries[i]
                    != Entry::Inexact by {
                    assert(exact_at(argument, i));
                }
            }
        }
    }
}

/// A rolling combinator runs on what its column is worth, row by row, and
/// takes columns without nulls, of exact values, under a positive width.
pub proof fn lemma_rolling_reads(x: Argument<'_>, window: Option<i64>)
    requires
        x.aligned(),
    ensures
        rolling_spec(x, window) is Ok <==> dense(x) && exact_over(x, length(x)->0) && (
        window matches Some(w) && w >= 1),
        rolling_spec(x, window) matches Ok(read) ==> {
            &&& window matches Some(w) && read.1 == w
            &&& length(x) == Some(read.0.len())
            &&& forall|i: int|
                0 <= i < read.0.len() ==> value_at(x, i, #[trigger] read.0[i])
        },
{
    lemma_dense_entries(x);
}

/// A rolling combinator over two columns runs on what both are worth in each
/// row; they have one length.
pub proof fn lemma_rolling_pair_reads(x: Argument<'_>, y: Argument<'_>, window: Option<i64>)
    requires
        x.aligned(),
        y.aligned(),
    ensures
        rolling_pair_spec(x, y, window) is Ok <==> dense(x) && dense(y) && length(x) == length(y)
            && exact_over(x, length(x)->0) && exact_over(y, length(y)->0) && (
        window matches Some(w) && w >= 1),
        rolling_pair_spec(x, y, window) matches Ok(read) ==> {
            &&& window matches Some(w) && read.2 == w
            &&& length(x) == Some(read.0.len())
            &&& length(y) == Some(read.1.len())
            &&& forall|i: int|
                0 <= i < read.0.len() ==> value_at(x, i, #[trigger] read.0[i])
            &&& forall|i: int|
                0 <= i < read.1.len() ==> value_at(y, i, #[trigger] read.1[i])
        },
{
    lemma_dense_entries(x);
    lemma_dense_entries(y);
}

/// Smoothing runs on what its column is worth, under a factor above zero and
/// at most one.
pub proof fn lemma_smoothing_reads(x: Argument<'_>, alpha: Option<Float64>)
    requires
        x.aligned(),
    ensures
        ewma_spec(x, alpha) is Ok <==> dense(x) && exact_over(x, length(x)->0) && (
        alpha matches Some(factor) && smoothing(factor)),
        ewma_spec(x, alpha) matches Ok(read) ==> {
            &&& alpha == Some(read.1)
            &&& length(x) == Some(read.0.len())
            &&& forall|i: int|
                0 <= i < read.0.len() ==> value_at(x, i, #[trigger] read.0[i])
        },
        alpha matches Some(factor) ==> (smoothing(factor) <==> factor.finite() && 0
            < factor.scaled() <= crate::float64::one_scaled()),
{
    lemma_dense_entries(x);
    if alpha is Some {
        lemma_smoothing_range(alpha->0);
    }
}

/// A smoothing factor is a finite float above zero and at most one.
pub proof fn lemma_smoothing_range(factor: Float64)
    ensures
        smoothing(factor) <==> factor.finite() && 0 < factor.scaled()
            <= crate::float64::one_scaled(),
{
    let zero = Float64 { bits: 0 };
    let one = Float64 { bits: 0x3FF0_0000_0000_0000 };
    crate::float64::lemma_one();
    assert(zero.scaled() == 0) by {
        assert(crate::float64::magnitude_scaled(0) == 0);
    }
    if factor.finite() {
        crate::float64::lemma_order_is_exact(zero, factor);
        crate::float64::lemma_order_is_exact(factor, one);
    }
}

/// Lag moves a column down: its first `k` rows are null, and row `i + k` is
/// worth what row `i` of the column is.
pub proof fn lemma_lag_moves_down(x: Argument<'_>, distance: Option<i64>)
    requires
        x.aligned(),
    ensures
        lag_spec(x, distance) is Ok ==> dense(x) && (distance matches Some(k) && k >= 1),
        dense(x) && exact_over(x, length(x)->0) && (distance matches Some(k) && k >= 1)
            ==> lag_spec(x, distance) is Ok,
        lag_spec(x, distance) matches Ok(rows) ==> {
            let k = distance->0;
            &&& length(x) == Some(rows.len())
            &&& forall|i: int| 0 <= i < k && i < rows.len() ==> #[trigger] rows[i] is None
            &&& forall|i: int|
                k <= i < rows.len() ==> (#[trigger] rows[i] matches Some(v) && value_at(
                    x,
                    i - k,
                    v,
                ))
        },
{
    lemma_dense_entries(x);
    if dense(x) && count_spec(distance) is Ok {
        let entries = dense_spec(x)->Ok_0;
        let back = count_spec(distance)->Ok_0;
        if exact_over(x, entries.len()) {
            assert forall|i: int| 0 <= i < entries.len() implies #[trigger] entries[i]
                != Entry::Inexact by {
                assert(exact_at(x, i));
            }
        }
        if lag_spec(x, distance) is Ok {
            let rows = lag_spec(x, distance)->Ok_0;
            assert forall|i: int| back <= i < rows.len() implies (#[trigger] rows[i] matches Some(v)
                && value_at(x, i - back, v)) by {
                assert(entries[i] != Entry::Inexact && entries[i - back] != Entry::Inexact);
                assert(entries[i - back] != Entry::Null);
            }
        }
    }
}

/// A column moved down by one, without its head, is the column without its
/// last row.
pub proof fn lemma_lag_keeps_values(x: Argument<'_>, values: Seq<Float64>)
    requires
        x.aligned(),
        rolling_spec(x, Some(1)) matches Ok(read) && read.0 == values,
        values.len() > 0,
    ensures
        lag_spec(x, Some(1)) matches Ok(rows) && rows.len() == values.len() && rows[0] is None
            && rows.skip(1) == values.drop_last().map_values(|v: Float64| Some(v)),
{
    lemma_dense_entries(x);
    lemma_rolling_reads(x, Some(1));
    lemma_lag_moves_down(x, Some(1));
    let rows = lag_spec(x, Some(1))->Ok_0;
    let entries = dense_spec(x)->Ok_0;
    let tail = values.drop_last().map_values(|v: Float64| Some(v));
    assert forall|i: int| 0 <= i < tail.len() implies rows.skip(1)[i] == tail[i] by {
        assert(exact_at(x, i));
        assert(entries[i] != Entry::Inexact && entries[i] != Entry::Null);
        assert(rows[i + 1] is Some);
        lemma_worth_unique(x, i, rows[i + 1]->0, values[i]);
    }
    assert(rows.skip(1) =~= tail);
}

/// An argument is worth one thing in a row.
pub proof fn lemma_worth_unique(argument: Argument<'_>, i: int, a: Float64, b: Float64)
    requires
        value_at(argument, i, a),
        value_at(argument, i, b),
    ensures
        a == b,
        !worth(argument, i, None),
{
    match argument {
        Argument::Integer(n) => {
            crate::float64::lemma_exact_value_unique(a, b);
        },
        Argument::View { view: ColumnView::I64 { .. }, .. } => {
            crate::float64::lemma_exact_value_unique(a, b);
        },
        _ => {},
    }
}

/// The transforms that compare neighbours see each row but the first with the
/// one before it; what they compare with is the column moved down by one.
pub proof fn lemma_steps_compare_neighbours(x: Argument<'_>)
    requires
        x.aligned(),
    ensures
        steps_spec(x) is Ok ==> dense(x),
        dense(x) && exact_over(x, length(x)->0) ==> steps_spec(x) is Ok,
        steps_spec(x) matches Ok(rows) ==> {
            &&& length(x) == Some(rows.len())
            &&& rows.len() > 0 ==> rows[0] is None
            &&& forall|i: int|
                1 <= i < rows.len() ==> (#[trigger] rows[i] matches Some(pair) && value_at(
                    x,
                    i,
                    pair.0,
                ) && value_at(x, i - 1, pair.1))
        },
        steps_spec(x) matches Ok(rows) ==> (lag_spec(x, Some(1)) matches Ok(moved) && moved.len()
            == rows.len() && forall|i: int|
            0 <= i < rows.len() ==> moved[i] == (match #[trigger] rows[i] {
                Some(pair) => Some(pair.1),
                None => None::<Float64>,
            })),
{
    lemma_dense_entries(x);
    if dense(x) {
        let entries = dense_spec(x)->Ok_0;
        if exact_over(x, entries.len()) {
            assert forall|i: int| 0 <= i < entries.len() implies #[trigger] entries[i]
                != Entry::Inexact by {
                assert(exact_at(x, i));
            }
        }
        if steps_spec(x) is Ok {
            let rows = steps_spec(x)->Ok_0;
            assert forall|i: int| 1 <= i < rows.len() implies (#[trigger] rows[i] matches Some(pair)
                && value_at(x, i, pair.0) && value_at(x, i - 1, pair.1)) by {
                assert(entries[i] != Entry::Inexact && entries[i - 1] != Entry::Inexact);
                assert(entries[i] != Entry::Null && entries[i - 1] != Entry::Null);
            }
        }
    }
}

/// A returned column is what was returned, row by row: a vector as it is, a
/// numeric view with null where its validity bit is unset.
pub proof fn lemma_returned_column(value: Argument<'_>)
    requires
        value.aligned(),
    ensures
        returned_spec(value) is Ok <==> value is Nil || ((value is Vector || value is View)
            && arithmetic(value) && exact_over(value, length(value)->0)),
        returned_spec(value) == Ok::<Option<Seq<Option<Float64>>>, Seq<char>>(None) <==> value is
        Nil,
        returned_spec(value) matches Ok(Some(rows)) ==> {
            &&& length(value) == Some(rows.len())
            &&& forall|i: int| 0 <= i < rows.len() ==> worth(value, i, #[trigger] rows[i])
        },
{
    lemma_operand_worth(value);
    match value {
        Argument::View { view, born, generation } => {
            if born == generation && !(view is Key) {
                let operand = operand_spec(value)->Ok_0;
                let entries = operand->Column_0;
                lemma_exact_rows(value, operand, entries.len());
                if exact_rows(operand, entries.len()) {
                    let rows = returned_spec(value)->Ok_0->0;
                    assert forall|i: int| 0 <= i < rows.len() implies worth(
                        value,
                        i,
                        #[trigger] rows[i],
                    ) by {
                        assert(entry_at(operand, i) == entries[i]);
                        assert(entry_at(operand, i) != Entry::Inexact);
                    }
                }
            }
        },
        _ => {},
    }
}

/// The sentinel's own arithmetic: a view of another call is refused, a column
/// on either side gives as many nulls as it has rows, and with no column the
/// result is the sentinel.
pub proof fn lemma_sentinel_arithmetic(lhs: Argument<'_>, rhs: Argument<'_>)
    ensures
        null_spec(lhs, rhs) is Err <==> (lhs matches Argument::View { born, generation, .. } && born
            != generation) || (rhs matches Argument::View { born, generation, .. } && born
            != generation),
        null_spec(lhs, rhs) matches Ok(None) ==> length(lhs) is None && length(rhs) is None,
        null_spec(lhs, rhs) matches Ok(Some(rows)) ==> {
            &&& length(lhs) is Some ==> length(lhs) == Some(rows.len())
            &&& length(lhs) is None ==> length(rhs) == Some(rows.len())
            &&& forall|i: int| 0 <= i < rows.len() ==> #[trigger] rows[i] is None
        },
{
}

/// A frame is the row it ends at and those before it, as many as the width
/// at most.
pub proof fn lemma_frame_trails(offset: nat, width: nat, row: int)
    requires
        width >= 1,
    ensures
        frame(offset, width).contains(row) <==> 0 <= row <= offset && offset - row < width,
        frame_start(offset, width) <= offset,
        frame(offset, width).contains(frame_start(offset, width) as int),
        row < frame_start(offset, width) ==> !frame(offset, width).contains(row),
{
}

/// The row that leaves at `offset` is the one that was in the frame before
/// and is not in it any more; there is at most one.
pub proof fn lemma_leaving_row(offset: nat, width: nat, row: int)
    requires
        width >= 1,
        offset >= 1,
    ensures
        leaving(offset, width) == Some(row) <==> frame((offset - 1) as nat, width).contains(row)
            && !frame(offset, width).contains(row),
        leaving(0, width) is None,
{
}

/// A shift is due to be taken anew exactly when the one there is would leave
/// the frame, or there is none.
pub proof fn lemma_shift_due(anchored: Option<usize>, offset: nat, width: nat)
    requires
        width >= 1,
        anchored matches Some(row) ==> row <= offset,
    ensures
        stale(anchored, offset, width) <==> !(anchored matches Some(row) && frame(
            offset,
            width,
        ).contains(row as int)),
{
}

/// A frame is rid of what is not finite exactly when all its rows are; it is
/// then spoiled where the row that left is not, or what is running is not.
pub proof fn lemma_frames_watched(
    terms: Seq<Float64>,
    offset: nat,
    width: nat,
    running: Seq<Float64>,
)
    requires
        width >= 1,
        offset < terms.len(),
    ensures
        odd_terms(frame_terms(terms, offset, width)) == 0 <==> forall|row: int|
            0 <= row <= offset && offset < row + width ==> (#[trigger] terms[row]).finite(),
        spoiled(terms, offset, width, running) <==> odd_terms(frame_terms(terms, offset, width)) == 0
            && ((offset >= width && !terms[offset - width].finite()) || exists|i: int|
            0 <= i < running.len() && !(#[trigger] running[i]).finite()),
{
    let now = frame_terms(terms, offset, width);
    let start = frame_start(offset, width) as int;
    lemma_odd_bound(now);
    if all_finite(now) {
        assert forall|row: int| 0 <= row <= offset && offset < row + width implies (
        #[trigger] terms[row]).finite() by {
            assert(now[row - start] == terms[row]);
        }
    } else {
        let k = choose|k: int| 0 <= k < now.len() && !(#[trigger] now[k]).finite();
        assert(now[k] == terms[start + k]);
    }
    if !all_finite(running) {
        let k = choose|k: int| 0 <= k < running.len() && !(#[trigger] running[k]).finite();
        assert(!running[k].finite());
    }
}

/// The terms that are not finite are counted, each once.
pub proof fn lemma_odd_counts(terms: Seq<Float64>)
    ensures
        odd_terms(terms) == terms.filter(|term: Float64| !term.finite()).len(),
    decreases terms.len(),
{
    reveal(Seq::filter);
    if terms.len() > 0 {
        lemma_odd_counts(terms.drop_last());
    }
}

} // verus!
