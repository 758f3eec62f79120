//! Calls that change something: an output, an interpreter's bookkeeping, a
//! generator; and the steps of a solver.
use crate::compute::blas::{BlasError, NativeBlas};
use crate::compute::lapack::{
    ColMajor, ComputeError, LeastSquaresStage, NativeLapack, RoutineReply,
};
use crate::corpus::{
    drawn, is_order, next_state, order_of, state_after, Draws, Spec, SplitMix64,
};
use crate::float64::{unit_float, Float64};
use crate::key::Dictionary;
use crate::laws::numbers::drawn_before;
use crate::laws::scripts::{fits, reads_as};
use crate::laws::series::{is_exactly, length, worth};
use crate::lua::state::{write_column_result, Chunk, LuaState, Ran};
use crate::lua::trial::{OutputView, TrialValue};
use crate::lua::values::{
    coerce, Coerced, LuaValue, OutputColumn, ReplyModel, ReturnType, ScalarValue,
};
use crate::lua::vector::{Argument, ColumnResult};
use vstd::prelude::*;
use vstd::utf8::{encode_utf8, valid_utf8};

verus! {

/// What a script's value fills a slot with: null for nil and the sentinel,
/// the number itself, exactly, one for true and zero for false among
/// integers, and for a string the code its text has from then on.
pub proof fn lemma_coercions(
    value: LuaValue,
    slot: ReturnType,
    dictionary: &mut Dictionary,
    filled: Result<Coerced, &'static str>,
)
    requires
        old(dictionary)@.no_duplicates(),
        old(dictionary)@.len() < u32::MAX,
        call_ensures(coerce, (&value, slot, dictionary), filled),
    ensures
        filled == Ok::<Coerced, &'static str>(Coerced::Null) <==> value is Nil || value is Null,
        match filled {
            Ok(Coerced::F64(v)) => slot == ReturnType::F64 && match value {
                LuaValue::Number(w) => v == w,
                LuaValue::Integer(n) => is_exactly(v, n),
                _ => false,
            },
            Ok(Coerced::I64(n)) => slot == ReturnType::I64 && match value {
                LuaValue::Number(v) => v.is_integer(n as int),
                LuaValue::Integer(m) => n == m,
                LuaValue::Boolean(truth) => (n == 1 && truth) || (n == 0 && !truth),
                _ => false,
            },
            Ok(Coerced::KeyCode(code)) => slot == ReturnType::Key && (
            value matches LuaValue::Text(bytes) && code < final(dictionary)@.len() && encode_utf8(
                final(dictionary)@[code as int],
            ) == bytes@),
            _ => true,
        },
        slot == ReturnType::F64 && value is Number ==> filled is Ok,
        slot == ReturnType::I64 && (value is Integer || value is Boolean) ==> filled is Ok,
        old(dictionary)@.is_prefix_of(final(dictionary)@),
        final(dictionary)@ != old(dictionary)@ ==> slot == ReturnType::Key && value is Text && filled
            is Ok,
{
    let words = old(dictionary)@;
    crate::laws::values::lemma_null_fills(value, slot, words);
    match value {
        LuaValue::Integer(n) => {
            crate::laws::values::lemma_integer_fills(n, words);
        },
        LuaValue::Number(v) => {
            crate::laws::values::lemma_float_fills(v, words);
        },
        LuaValue::Boolean(truth) => {
            crate::laws::values::lemma_boolean_fills(truth, words);
        },
        LuaValue::Text(bytes) => {
            crate::laws::values::lemma_text_fills(value, words);
            if valid_utf8(bytes@) {
                vstd::utf8::decode_utf8_encode_utf8(bytes@);
            }
        },
        _ => {},
    }
    assert(words.is_prefix_of(final(dictionary)@));
}

/// A write that is taken changes the slot it points at, and no other: it
/// reads as null for nil and the sentinel, and as the number written, exactly,
/// otherwise. One that is refused changes none.
pub proof fn lemma_writes(
    output: &mut OutputColumn,
    is_number: bool,
    index: i64,
    value: LuaValue,
    written: Result<(), &'static str>,
    k: int,
)
    requires
        old(output).aligned(),
        call_ensures(OutputColumn::write, (output, is_number, Some(index), &value), written),
        0 <= k < old(output).rows(),
    ensures
        final(output).cells().len() == old(output).rows(),
        written is Ok ==> is_number && 1 <= index <= old(output).rows(),
        written is Err || k != index - 1 ==> final(output).cells()[k] == old(output).cells()[k],
        written is Ok && k == index - 1 ==> match final(output).cells()[k] {
            ReplyModel::Null => value is Nil || value is Null,
            ReplyModel::Number(v) => *old(output) is F64 && match value {
                LuaValue::Number(w) => v == w,
                LuaValue::Integer(n) => is_exactly(v, n),
                _ => false,
            },
            ReplyModel::Integer(n) => match value {
                LuaValue::Number(v) => *old(output) is I64 && v.is_integer(n as int),
                LuaValue::Integer(m) => *old(output) is I64 && n == m,
                LuaValue::Boolean(truth) => *old(output) is I64 && ((n == 1 && truth) || (n == 0
                    && !truth)),
                LuaValue::Text(_) => *old(output) is Key,
                _ => false,
            },
            _ => false,
        },
        is_number && 1 <= index <= old(output).rows() && (value is Nil || value is Null)
            ==> written is Ok,
        is_number && 1 <= index <= old(output).rows() && *old(output) is F64 && value is Number
            ==> written is Ok,
        is_number && 1 <= index <= old(output).rows() && *old(output) is I64 && (value is Integer
            || value is Boolean) ==> written is Ok,
{
    let (before, after) = (*old(output), *final(output));
    let (slot, words) = (before.slot(), before.words());
    assert(before.stored().len() == before.rows());
    assert(after.stored().len() == after.rows());
    crate::laws::values::lemma_null_fills(value, slot, words);
    match value {
        LuaValue::Integer(n) => {
            crate::laws::values::lemma_integer_fills(n, words);
        },
        LuaValue::Number(v) => {
            crate::laws::values::lemma_float_fills(v, words);
        },
        LuaValue::Boolean(truth) => {
            crate::laws::values::lemma_boolean_fills(truth, words);
        },
        _ => {},
    }
    if after.same(before) {
        assert(after.cells() =~= before.cells());
    }
}

/// A string written to a key output is kept in its dictionary, under the code
/// the slot reads as; what the dictionary had stays, and a refused write adds
/// nothing to it.
pub proof fn lemma_key_writes(
    output: &mut OutputColumn,
    index: i64,
    bytes: Vec<u8>,
    written: Result<(), &'static str>,
)
    requires
        old(output).aligned(),
        *old(output) is Key,
        old(output).words().no_duplicates(),
        old(output).words().len() < u32::MAX,
        call_ensures(
            OutputColumn::write,
            (output, true, Some(index), &LuaValue::Text(bytes)),
            written,
        ),
    ensures
        written is Ok ==> valid_utf8(bytes@) && 1 <= index <= old(output).rows() && (
        final(output).cells()[index - 1] matches ReplyModel::Integer(code) && 0 <= code
            < final(output).words().len() && encode_utf8(final(output).words()[code as int])
            == bytes@),
        old(output).words().is_prefix_of(final(output).words()),
        written is Err ==> final(output).words() == old(output).words(),
{
    let (before, after) = (*old(output), *final(output));
    let value = LuaValue::Text(bytes);
    crate::laws::values::lemma_text_fills(value, before.words());
    if valid_utf8(bytes@) {
        vstd::utf8::decode_utf8_encode_utf8(bytes@);
    }
    assert(before.words().is_prefix_of(after.words()));
}

/// A bound output is null in every slot, whatever it was, and keeps its
/// values and its dictionary.
pub proof fn lemma_binds(output: &mut OutputColumn, k: int)
    requires
        call_ensures(OutputColumn::bind, (output,), ()),
        0 <= k < old(output).rows(),
    ensures
        final(output).cells().len() == old(output).rows(),
        final(output).cells()[k] == ReplyModel::Null,
        !final(output).bits()[k],
        final(output).stored() == old(output).stored(),
        final(output).words() == old(output).words(),
{
}

/// A returned column fills an output exactly when it has a row for each
/// slot, the output holds numbers, and every element fits; each slot then
/// reads as its element.
pub proof fn lemma_column_results(
    elements: Vec<Option<Float64>>,
    output: &mut OutputColumn,
    result: Result<(), String>,
)
    requires
        old(output).aligned(),
        call_ensures(
            write_column_result,
            (ColumnResult::Elements(elements), output),
            result,
        ),
    ensures
        result is Ok <==> {
            &&& !(*old(output) is Key)
            &&& elements@.len() == old(output).rows()
            &&& forall|i: int|
                0 <= i < elements@.len() ==> fits(old(output).slot(), #[trigger] elements@[i])
        },
        result is Ok ==> forall|i: int|
            0 <= i < elements@.len() ==> reads_as(
                old(output).slot(),
                #[trigger] final(output).cells()[i],
                elements@[i],
            ),
{
    crate::laws::scripts::lemma_returned_column_fills(
        elements@,
        *old(output),
        *final(output),
        result,
    );
}

/// Every call that ends moves the generation on and ends the driving; its
/// result is the script's value under the declared type, and a failure is an
/// error.
pub proof fn lemma_scalar_runs(
    state: &mut LuaState,
    ran: Result<Ran<LuaValue>, String>,
    declared: ReturnType,
    result: Result<ScalarValue, String>,
)
    requires
        call_ensures(LuaState::eval_scalar, (state, ran, declared), result),
    ensures
        final(state).identity() == old(state).identity(),
        final(state).compiled() == old(state).compiled(),
        final(state).era() != old(state).era(),
        !final(state).is_driving(),
        !(ran matches Ok(Ran::Returned(_))) ==> result is Err,
        ran matches Err(text) ==> (result matches Err(said) && said@ == text@),
        ran matches Ok(Ran::Returned(value)) ==> {
            &&& declared == ReturnType::Key ==> result is Err
            &&& (result matches Ok(ScalarValue::Null)) <==> declared != ReturnType::Key && (value is
            Nil || value is Null)
            &&& result matches Ok(ScalarValue::F64(v)) ==> declared == ReturnType::F64 && match value {
                LuaValue::Number(w) => v == w,
                LuaValue::Integer(n) => is_exactly(v, n),
                _ => false,
            }
            &&& result matches Ok(ScalarValue::I64(n)) ==> declared == ReturnType::I64 && match value {
                LuaValue::Number(v) => v.is_integer(n as int),
                LuaValue::Integer(m) => n == m,
                LuaValue::Boolean(truth) => (n == 1 && truth) || (n == 0 && !truth),
                _ => false,
            }
        },
{
    if let Ok(Ran::Returned(value)) = ran {
        let words = Seq::<Seq<char>>::empty();
        crate::laws::values::lemma_null_fills(value, declared, words);
        match value {
            LuaValue::Integer(n) => {
                crate::laws::values::lemma_integer_fills(n, words);
            },
            LuaValue::Number(v) => {
                crate::laws::values::lemma_float_fills(v, words);
            },
            LuaValue::Boolean(truth) => {
                crate::laws::values::lemma_boolean_fills(truth, words);
            },
            _ => {},
        }
    }
}

/// A call that fills an output moves the generation on too. A column that
/// the script returned is the output's from then on, row by row as far as it
/// was worth something there; without one the script's writes stand, and a
/// failure leaves the output alone.
pub proof fn lemma_column_runs(
    state: &mut LuaState,
    ran: Result<Ran<Argument<'_>>, String>,
    output: &mut OutputColumn,
    result: Result<(), String>,
)
    requires
        ran matches Ok(Ran::Returned(value)) ==> value.aligned() && old(output).aligned(),
        call_ensures(LuaState::eval_column, (state, ran, output), result),
    ensures
        final(state).era() != old(state).era(),
        !final(state).is_driving(),
        !(ran matches Ok(Ran::Returned(_))) ==> result is Err && *final(output) == *old(output),
        ran matches Ok(Ran::Returned(value)) ==> {
            &&& value is Nil ==> result is Ok && final(output).cells() == old(output).cells()
            &&& result is Ok && !(value is Nil) ==> {
                &&& length(value) == Some(old(output).rows())
                &&& final(output).cells().len() == old(output).rows()
                &&& forall|i: int|
                    0 <= i < old(output).rows() ==> filled_from(
                        value,
                        old(output).slot(),
                        #[trigger] final(output).cells()[i],
                        i,
                    )
            }
        },
{
    if let Ok(Ran::Returned(value)) = ran {
        crate::laws::series::lemma_returned_column(value);
        let (before, after) = (*old(output), *final(output));
        match crate::lua::vector::returned_spec(value) {
            Ok(Some(elements)) => {
                crate::laws::scripts::lemma_returned_column_fills(elements, before, after, result);
                if result is Ok {
                    assert forall|i: int| 0 <= i < before.rows() implies filled_from(
                        value,
                        before.slot(),
                        #[trigger] after.cells()[i],
                        i,
                    ) by {
                        assert(worth(value, i, elements[i]));
                        assert(reads_as(before.slot(), after.cells()[i], elements[i]));
                    }
                }
            },
            Ok(None) => {
                crate::laws::scripts::lemma_writes_stand(before, after, result);
            },
            Err(_) => {},
        }
    }
}

/// A slot reads as what the column is worth in row `i`.
pub open spec fn filled_from(
    value: Argument<'_>,
    slot: ReturnType,
    cell: ReplyModel,
    i: int,
) -> bool {
    exists|element: Option<Float64>|
        #[trigger] worth(value, i, element) && reads_as(slot, cell, element)
}

/// A chunk that compiled belongs to the interpreter that compiled it, has a
/// key of its own, and runs there alone.
pub proof fn lemma_chunks(
    state: &mut LuaState,
    loaded: Ran<()>,
    chunk: Result<Chunk, String>,
    other: LuaState,
    checked: Result<(), String>,
)
    requires
        call_ensures(LuaState::compile, (state, loaded), chunk),
        loaded is Returned,
        call_ensures(LuaState::check_chunk, (&other, &chunk->Ok_0), checked),
    ensures
        chunk is Ok,
        final(state).compiled() == old(state).compiled() + 1,
        final(state).era() == old(state).era(),
        checked is Ok <==> other.identity() == old(state).identity(),
{
}

/// Two chunks compiled one after the other are kept under different keys.
pub proof fn lemma_chunk_keys(
    state: &mut LuaState,
    next: &mut LuaState,
    first: Result<Chunk, String>,
    second: Result<Chunk, String>,
)
    requires
        call_ensures(LuaState::compile, (state, Ran::Returned(())), first),
        *final(state) == *old(next),
        call_ensures(LuaState::compile, (next, Ran::Returned(())), second),
    ensures
        first is Ok && second is Ok,
        first->Ok_0.name() != second->Ok_0.name(),
        first->Ok_0.owner() == second->Ok_0.owner(),
{
    let n = old(state).compiled();
    if crate::lua::state::chunk_key(n) == crate::lua::state::chunk_key(n + 1) {
        crate::lua::state::lemma_chunk_keys_distinct(n, n + 1);
    }
}

/// `query` and `append` are allowed from the start of a driving call to its
/// end, however it ends.
pub proof fn lemma_driving(
    state: &mut LuaState,
    later: &mut LuaState,
    ran: Result<Ran<()>, String>,
    done: Result<(), String>,
)
    requires
        call_ensures(LuaState::begin_driving, (state,), ()),
        *final(state) == *old(later),
        call_ensures(LuaState::run_driver, (later, ran), done),
    ensures
        final(state).is_driving(),
        final(state).era() == old(state).era(),
        !final(later).is_driving(),
        final(later).era() != old(state).era(),
        done is Ok <==> (ran matches Ok(Ran::Returned(_))),
{
}

/// In the trial form a write changes the slot it points at, and no other:
/// nil marks it null, a number fills it, anything else is refused.
pub proof fn lemma_trial_writes(
    output: &mut OutputView,
    index: i64,
    value: TrialValue,
    written: Result<(), &'static str>,
    k: int,
)
    requires
        call_ensures(OutputView::newindex, (output, Some(index), &value), written),
        0 <= k < old(output).cells().len(),
    ensures
        written is Ok <==> 1 <= index <= old(output).cells().len() && !(value is Other),
        final(output).cells().len() == old(output).cells().len(),
        written is Err || k != index - 1 ==> final(output).cells()[k] == old(output).cells()[k],
        written is Ok && k == index - 1 ==> final(output).cells()[k] == match value {
            TrialValue::Number(v) => ReplyModel::Number(v),
            _ => ReplyModel::Nil,
        },
{
}

/// A generator's numbers are those of its states, one after the other: a
/// number, a fraction of one made of its top bits, or its remainder.
pub proof fn lemma_generators(
    seed: u64,
    generator: SplitMix64,
    first: &mut SplitMix64,
    second: &mut SplitMix64,
    third: &mut SplitMix64,
    number: u64,
    fraction: Float64,
    bound: u64,
    below: u64,
)
    requires
        bound > 0,
        call_ensures(SplitMix64::new, (seed,), generator),
        *old(first) == generator,
        call_ensures(SplitMix64::next_u64, (first,), number),
        *final(first) == *old(second),
        call_ensures(SplitMix64::next_f64, (second,), fraction),
        *final(second) == *old(third),
        call_ensures(SplitMix64::next_range, (third, bound), below),
    ensures
        number == drawn(seed),
        fraction == unit_float(drawn(state_after(seed, 1))),
        below == drawn(state_after(seed, 2)) % bound,
        below < bound,
        final(third).at() == state_after(seed, 3),
{
    reveal_with_fuel(state_after, 4);
    assert(next_state(seed) == state_after(seed, 1));
}

/// What is generated has the rows asked for, in order of their timestamps
/// from the start on, with keys below the cardinality and a walk for each
/// key; and each row is delivered once.
pub proof fn lemma_generated(spec: Spec, draws: Option<Draws>)
    requires
        spec.key_cardinality > 0,
        call_ensures(Spec::generate, (&spec,), draws),
    ensures
        draws matches Some(d) ==> {
            &&& d.rows@.len() == spec.rows
            &&& d.walks@.len() == spec.key_cardinality
            &&& forall|i: int|
                0 <= i < d.walks@.len() ==> #[trigger] d.walks@[i] == unit_float(
                    drawn(state_after(spec.seed, i as nat)),
                )
            &&& d.rows@.len() > 0 ==> d.rows@[0].ts == spec.start
            &&& forall|i: int|
                0 <= i < d.rows@.len() ==> (#[trigger] d.rows@[i]).key < spec.key_cardinality
            &&& forall|i: int, j: int|
                0 <= i <= j < d.rows@.len() ==> (#[trigger] d.rows@[i]).ts <= (
                #[trigger] d.rows@[j]).ts
            &&& is_order(d.order@.map_values(|i: usize| i as int), d.rows@.len())
            &&& d.order@.map_values(|i: usize| i as int) == order_of(
                spec,
                state_after(spec.seed, drawn_before(spec, d.rows@, spec.rows as nat)),
            )
        },
{
    let n = spec.rows as nat;
    crate::corpus::lemma_rows_ordered(spec, n);
    crate::laws::numbers::lemma_draws_counted(spec, n);
    if crate::corpus::progress(spec, n) is Some {
        crate::laws::numbers::lemma_rows_continue(spec, 0, n);
    }
}

/// The factorization's answer is kept exactly when it succeeded and its
/// coefficients are finite; the problem goes on to the singular values
/// otherwise, whose answer is kept exactly when they succeeded. Coefficients
/// are the first values left behind, and a workspace has at least one
/// element.
pub proof fn lemma_least_squares(
    backend: NativeLapack,
    stage: LeastSquaresStage,
    reply: RoutineReply,
    n: usize,
    next: LeastSquaresStage,
)
    requires
        stage is Factorization || stage is SingularValues ==> n <= reply.rhs@.len(),
        call_ensures(NativeLapack::least_squares_stage, (&backend, stage, reply, n), next),
    ensures
        next matches LeastSquaresStage::Solved(coefficients) ==> stage == next || {
            &&& stage is Factorization || stage is SingularValues
            &&& reply.info == 0
            &&& coefficients@.len() == n
            &&& forall|i: int| 0 <= i < n ==> #[trigger] coefficients@[i] == reply.rhs@[i]
            &&& stage is Factorization ==> forall|i: int|
                0 <= i < n ==> (#[trigger] coefficients@[i]).finite()
        },
        stage is Factorization ==> next is Solved || next is SizeSingularValues,
        stage is Factorization && reply.info == 0 && (forall|i: int|
            0 <= i < n ==> (#[trigger] reply.rhs@[i]).finite()) ==> next is Solved,
        stage is SingularValues ==> (next is Solved <==> reply.info == 0),
        stage is SizeFactorization ==> (next is Factorization <==> reply.info == 0),
        stage is SizeSingularValues ==> (next is SingularValues <==> reply.info == 0),
        next matches LeastSquaresStage::Factorization { workspace } ==> stage == next || (workspace
            >= 1 && (reply.workspace >= 1 ==> workspace == reply.workspace)),
        next matches LeastSquaresStage::SingularValues { workspace, indices } ==> stage == next || (
        workspace >= 1 && indices >= 1 && (reply.workspace >= 1 ==> workspace == reply.workspace)
            && (reply.indices >= 1 ==> indices == reply.indices)),
        next matches LeastSquaresStage::Failed(error) ==> stage == next || (
        error matches ComputeError::Lapack { info, .. } && info == reply.info && info != 0),
{
    let kept = reply.rhs@.take(n as int);
    if stage is Factorization && reply.info == 0 && (forall|i: int|
        0 <= i < n ==> (#[trigger] reply.rhs@[i]).finite()) {
        assert forall|i: int| 0 <= i < kept.len() implies (#[trigger] kept[i]).finite() by {
            assert(kept[i] == reply.rhs@[i]);
        }
    }
}

/// The singular values' right-hand side is `b`, padded with zeros to the
/// larger side; the coefficients are the first values left behind.
pub proof fn lemma_singular_values(
    backend: NativeLapack,
    a: ColMajor<'_>,
    b: &[Float64],
    rhs: Result<(i32, Vec<Float64>), ComputeError>,
    i: int,
)
    requires
        b@.len() == a.rows(),
        call_ensures(NativeLapack::singular_value_rhs, (&backend, &a, b), rhs),
        rhs is Ok,
        0 <= i < rhs->Ok_0.1@.len(),
    ensures
        rhs->Ok_0.1@.len() == rhs->Ok_0.0,
        rhs->Ok_0.0 >= a.rows() && rhs->Ok_0.0 >= a.cols(),
        rhs->Ok_0.0 == a.rows() || rhs->Ok_0.0 == a.cols(),
        rhs->Ok_0.1@[i] == (if i < b@.len() {
            b@[i]
        } else {
            Float64 { bits: 0 }
        }),
{
}

/// A factor is the matrix on and below its diagonal, and zero above it.
pub proof fn lemma_factors(
    backend: NativeLapack,
    factored: Vec<Float64>,
    n: usize,
    factor: Vec<Float64>,
    row: nat,
    col: nat,
)
    requires
        factored@.len() == n * n,
        row < n,
        col < n,
        call_ensures(NativeLapack::cholesky_factor, (&backend, factored, n), factor),
    ensures
        factor@.len() == n * n,
        factor@[(col * n + row) as int] == (if row >= col {
            factored@[(col * n + row) as int]
        } else {
            Float64 { bits: 0 }
        }),
{
    crate::laws::numbers::lemma_lower_triangle(factored@, n as nat, row, col);
}

/// The routines are told the problem's own dimensions, where its shapes go
/// together.
pub proof fn lemma_dimensions(
    blas: NativeBlas,
    lapack: NativeLapack,
    a: ColMajor<'_>,
    b: &[Float64],
    len: usize,
    m: usize,
    k: usize,
    n: usize,
    other: usize,
    dot: Result<i32, BlasError>,
    matvec: Result<(i32, i32), BlasError>,
    matmat: Result<(i32, i32, i32), BlasError>,
    solve: Result<(usize, i32), ComputeError>,
    squares: Result<(i32, i32), ComputeError>,
)
    requires
        call_ensures(NativeBlas::dot_dims, (&blas, len, other), dot),
        call_ensures(NativeBlas::matvec_dims, (&blas, len, m, n, other), matvec),
        call_ensures(NativeBlas::matmat_dims, (&blas, len, m, k, other, n), matmat),
        call_ensures(NativeLapack::linear_solve_dims, (&lapack, &a, b), solve),
        call_ensures(NativeLapack::least_squares_dims, (&lapack, &a, b), squares),
    ensures
        dot is Ok <==> len == other && len < 0x8000_0000,
        dot matches Ok(d) ==> d == len,
        matvec is Ok <==> len == m * n && other == n && 0 < m < 0x8000_0000 && 0 < n < 0x8000_0000,
        matvec matches Ok(d) ==> d.0 == m && d.1 == n,
        matmat is Ok <==> len == m * k && other == k * n && 0 < m < 0x8000_0000 && 0 < k
            < 0x8000_0000 && 0 < n < 0x8000_0000,
        matmat matches Ok(d) ==> d.0 == m && d.1 == k && d.2 == n,
        solve is Ok <==> a.rows() == a.cols() && b@.len() == a.rows() && 0 < a.rows()
            < 0x8000_0000,
        solve matches Ok(d) ==> d.0 == a.rows() && d.1 == a.rows(),
        squares is Ok <==> 0 < a.cols() <= a.rows() < 0x8000_0000 && b@.len() == a.rows(),
        squares matches Ok(d) ==> d.0 == a.rows() && d.1 == a.cols(),
{
    crate::laws::numbers::lemma_shapes(m as nat, k as nat, n as nat, len as nat, other as nat);
    crate::laws::numbers::lemma_shapes(m as nat, k as nat, m as nat, len as nat, other as nat);
    crate::laws::numbers::lemma_shapes(m as nat, k as nat, k as nat, len as nat, other as nat);
    crate::laws::numbers::lemma_shapes(a.rows(), 0, a.cols(), 0, b@.len());
}

} // verus!
