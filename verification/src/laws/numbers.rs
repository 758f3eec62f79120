//! Numbers: what a float's bits stand for, how numbers are spelled, the
//! shapes of matrix problems, and what a seed's draws come to.
use crate::compute::blas;
use crate::compute::lapack;
use crate::compute::linalg::lemma_column_major;
use crate::corpus::{
    delivery, drawn, is_late, mix, next_state, next_ts, order_of, progress, row_at, state_after,
    Draw, Spec,
};
use crate::float64::{
    exact_float, exact_int, lemma_one, lemma_order_is_exact, lemma_unit_below_one,
    magnitude_scaled, one_scaled, unit_float, Float64,
};
use crate::text::{decimal, digit, label_text, signed_decimal};
use vstd::arithmetic::power2::{lemma_pow2_adds, pow2};
use vstd::prelude::*;

verus! {

/// A float's sign is its top bit, and its magnitude the others; it is finite
/// below the largest exponent, and no number above the infinities.
pub proof fn lemma_float_bits(value: Float64)
    ensures
        value.negative() <==> value.bits >= 0x8000_0000_0000_0000,
        value.magnitude() == value.bits % 0x8000_0000_0000_0000,
        value.finite() <==> value.bits % 0x8000_0000_0000_0000 < 0x7FF0_0000_0000_0000,
        value.nan() <==> value.bits % 0x8000_0000_0000_0000 > 0x7FF0_0000_0000_0000,
        value.scaled() == (if value.bits >= 0x8000_0000_0000_0000 {
            -magnitude_scaled(value.magnitude())
        } else {
            magnitude_scaled(value.magnitude())
        }),
{
}

/// The first magnitudes are a unit apart, up to the second binade's end, and
/// from the first binade on the next exponent stands for twice the value.
pub proof fn lemma_magnitudes_double(magnitude: int)
    requires
        magnitude >= 0,
    ensures
        magnitude <= 0x20_0000_0000_0000 ==> magnitude_scaled(magnitude) == magnitude,
        magnitude >= 0x10_0000_0000_0000 ==> magnitude_scaled(magnitude + 0x10_0000_0000_0000) == 2
            * magnitude_scaled(magnitude),
{
    let h = 0x10_0000_0000_0000int;
    vstd::arithmetic::power2::lemma2_to64();
    if h <= magnitude < 2 * h {
        assert(magnitude / h == 1);
        assert((magnitude % h + h) * pow2(0) == magnitude % h + h) by (nonlinear_arith)
            requires
                pow2(0) == 1,
        ;
    }
    if magnitude == 2 * h {
        assert(magnitude / h == 2 && magnitude % h == 0);
        assert((0 + h) * pow2(1) == 2 * h);
    }
    if magnitude >= h {
        let (e, f) = (magnitude / h, magnitude % h);
        assert((magnitude + h) / h == e + 1 && (magnitude + h) % h == f);
        lemma_pow2_adds((e - 1) as nat, 1);
        let p = pow2((e - 1) as nat) as int;
        assert(pow2(e as nat) == p * 2);
        assert((f + h) * (p * 2) == 2 * ((f + h) * p)) by (nonlinear_arith);
    }
}

/// A float is the integer `n` exactly when it is `n` times the float one.
pub proof fn lemma_integers_are_multiples(value: Float64, n: int)
    ensures
        value.is_integer(n) <==> value.finite() && value.scaled() == n * (Float64 {
            bits: 0x3FF0_0000_0000_0000,
        }).scaled(),
        (Float64 { bits: 0x3FF0_0000_0000_0000 }).is_integer(1),
        (Float64 { bits: 0 }).is_integer(0),
        (Float64 { bits: 0x8000_0000_0000_0000 }).is_integer(0),
{
    lemma_one();
    assert(magnitude_scaled(0) == 0);
    assert(0 * one_scaled() == 0);
}

/// Integers and floats cross exactly, with their sign, or not at all.
pub proof fn lemma_exact_crossings(n: i64, v: Float64)
    ensures
        exact_float(n as int) matches Some(w) ==> w.is_integer(n as int) && w.negative() == (n < 0),
        exact_float(n as int) is None ==> forall|w: Float64|
            !(#[trigger] w.is_integer(n as int) && w.negative() == (n < 0)),
        exact_int(v) matches Some(m) ==> v.is_integer(m as int),
        exact_int(v) is None ==> forall|m: i64| !#[trigger] v.is_integer(m as int),
{
}

/// Negation flips the sign bit alone: it is undone by itself, keeps what is
/// finite and what is no number, and negates the value.
pub proof fn lemma_negation(value: Float64)
    ensures
        value.negated() != value,
        value.negated().negated() == value,
        (value.negated().bits - value.bits) % 0x8000_0000_0000_0000 == 0,
        value.negated().finite() == value.finite(),
        value.negated().nan() == value.nan(),
        value.negated().scaled() == -value.scaled(),
{
}

/// Floats that are numbers compare in one of three ways, and in the way of
/// their exact values where they are finite; what is no number compares in
/// none. The two zeros are the same.
pub proof fn lemma_comparisons(a: Float64, b: Float64)
    ensures
        a.nan() || b.nan() ==> !a.same(b) && !a.below(b) && !b.below(a),
        !a.nan() && !b.nan() ==> a.same(b) || a.below(b) || b.below(a),
        !(a.below(b) && b.below(a)),
        !(a.below(b) && a.same(b)),
        a.same(b) <==> b.same(a),
        !a.nan() ==> a.same(a),
        a.finite() && b.finite() ==> (a.same(b) <==> a.scaled() == b.scaled()),
        a.finite() && b.finite() ==> (a.below(b) <==> a.scaled() < b.scaled()),
        a.finite() ==> a.below(Float64 { bits: 0x7FF0_0000_0000_0000 }),
        a.finite() ==> (Float64 { bits: 0xFFF0_0000_0000_0000 }).below(a),
        (Float64 { bits: 0 }).same(Float64 { bits: 0x8000_0000_0000_0000 }),
{
    if a.finite() && b.finite() {
        lemma_order_is_exact(a, b);
    }
}

/// A uniform float is its number's top fifty-three bits over two to the
/// fifty-third.
pub proof fn lemma_units(u: u64)
    ensures
        unit_float(u).scaled() * 0x20_0000_0000_0000 == (u / 2048) * one_scaled(),
        unit_float(u).finite(),
        !unit_float(u).negative(),
        unit_float(u).below(Float64 { bits: 0x3FF0_0000_0000_0000 }),
{
    crate::float64::lemma_unit_exists(u);
    lemma_unit_below_one(u);
    assert(u >> 11 == u / 2048) by (bit_vector);
    lemma_pow2_adds(1021, 53);
    vstd::arithmetic::power2::lemma2_to64_rest();
    let (top, weight) = ((u >> 11) as int, pow2(1021) as int);
    assert(one_scaled() == weight * 0x20_0000_0000_0000);
    assert((top * weight) * 0x20_0000_0000_0000 == top * (weight * 0x20_0000_0000_0000))
        by (nonlinear_arith);
}

/// The number a text of digits spells.
pub open spec fn spelled(text: Seq<char>) -> int
    decreases text.len(),
{
    if text.len() == 0 {
        0
    } else {
        10 * spelled(text.drop_last()) + (text.last() as int - '0' as int)
    }
}

/// A number in decimal spells the number, in digits only, and does not start
/// with a zero unless it is zero.
pub proof fn lemma_decimal_spells(n: nat)
    ensures
        spelled(decimal(n)) == n,
        decimal(n).len() > 0,
        forall|i: int| 0 <= i < decimal(n).len() ==> '0' <= #[trigger] decimal(n)[i] <= '9',
        decimal(n)[0] == '0' <==> n == 0,
        n == 0 ==> decimal(n).len() == 1,
    decreases n,
{
    assert(digit(n % 10) as int - '0' as int == n % 10);
    if n < 10 {
        assert(decimal(n).drop_last() =~= Seq::<char>::empty());
        assert(spelled(Seq::<char>::empty()) == 0);
        assert(decimal(n).last() == digit(n));
    } else {
        lemma_decimal_spells(n / 10);
        assert(decimal(n).drop_last() =~= decimal(n / 10));
        assert(decimal(n).last() == digit(n % 10));
        assert(n / 10 > 0);
    }
}

/// A signed number has a minus sign exactly where it is negative, and spells
/// its magnitude behind it.
pub proof fn lemma_signed_spells(n: int)
    ensures
        n >= 0 ==> spelled(signed_decimal(n)) == n && signed_decimal(n)[0] != '-',
        n < 0 ==> signed_decimal(n)[0] == '-' && spelled(signed_decimal(n).skip(1)) == -n,
{
    if n >= 0 {
        lemma_decimal_spells(n as nat);
        assert('0' <= decimal(n as nat)[0]);
    } else {
        lemma_decimal_spells((-n) as nat);
        assert(signed_decimal(n).skip(1) =~= decimal((-n) as nat));
    }
}

/// A label is `K` and at least three digits that spell the key, four or more
/// only where the key needs them.
pub proof fn lemma_labels(key: nat)
    ensures
        label_text(key)[0] == 'K',
        spelled(label_text(key).skip(1)) == key,
        label_text(key).len() >= 4,
        label_text(key).len() > 4 <==> key >= 1000,
{
    reveal_strlit("K");
    reveal_strlit("0");
    reveal_strlit("00");
    let rest = label_text(key).skip(1);
    lemma_decimal_spells(key);
    lemma_digits(key);
    if key < 10 {
        assert(rest =~= seq!['0', '0'] + decimal(key));
        assert(rest.drop_last() =~= seq!['0', '0']);
        assert(seq!['0', '0'].drop_last() =~= seq!['0']);
        assert(seq!['0'].drop_last() =~= Seq::<char>::empty());
        assert(spelled(Seq::<char>::empty()) == 0);
        assert(spelled(seq!['0']) == 0);
        assert(spelled(seq!['0', '0']) == 0);
        assert(rest.last() == digit(key));
    } else if key < 100 {
        lemma_decimal_spells(key / 10);
        assert(decimal(key).drop_last() =~= decimal(key / 10));
        assert(rest =~= seq!['0'] + decimal(key));
        assert(rest.drop_last() =~= seq!['0', digit(key / 10)]);
        assert(rest.drop_last().drop_last() =~= seq!['0']);
        assert(seq!['0'].drop_last() =~= Seq::<char>::empty());
        assert(spelled(Seq::<char>::empty()) == 0);
        assert(spelled(seq!['0']) == 0);
        assert(rest.drop_last().last() == digit(key / 10));
        assert(rest.last() == digit(key % 10));
        assert(spelled(rest.drop_last()) == key / 10);
    } else {
        assert(rest =~= decimal(key));
    }
}

/// A number has as many digits as the powers of ten it reaches.
proof fn lemma_digits(n: nat)
    ensures
        n < 10 ==> decimal(n).len() == 1,
        10 <= n < 100 ==> decimal(n).len() == 2,
        100 <= n < 1000 ==> decimal(n).len() == 3,
        n >= 1000 ==> decimal(n).len() >= 4,
    decreases n,
{
    if n >= 10 {
        lemma_digits(n / 10);
    }
}

/// Matrix problems are taken exactly when their shapes go together: slices
/// of one length, matrices of as many values as they have positions, no side
/// empty, and every dimension within thirty-two bits.
pub proof fn lemma_shapes(m: nat, k: nat, n: nat, a: nat, b: nat)
    ensures
        blas::dimension_failure(n) is None <==> n < 0x8000_0000,
        lapack::dimension_failure(n) is None <==> n < 0x8000_0000,
        blas::dot_failure(a, b) is None <==> a == b && a < 0x8000_0000,
        blas::matvec_shape_failure(a, m, n, b) is None <==> a == m * n && b == n && m > 0 && n > 0,
        blas::matmat_shape_failure(a, m, k, b, n) is None <==> a == m * k && b == k * n && m > 0 && k
            > 0 && n > 0,
        lapack::rhs_failure(b, m) is None <==> b == m,
        lapack::solve_failure(m, n, b) is None <==> m == n && b == m && 0 < m < 0x8000_0000,
        lapack::least_squares_failure(m, n, b) is None <==> 0 < n <= m < 0x8000_0000 && b == m,
{
}

/// A failure comes from the first of two that has one.
pub proof fn lemma_first_failure(first: Option<Seq<char>>, second: Option<Seq<char>>)
    ensures
        blas::either(first, second) is None <==> first is None && second is None,
        first is Some ==> blas::either(first, second) == first,
        first is None ==> blas::either(first, second) == second,
{
}

/// A square matrix is factored exactly when it has a side within thirty-two
/// bits.
pub proof fn lemma_square_shapes(rows: nat, cols: nat, what: Seq<char>)
    ensures
        lapack::square_failure(rows, cols, what) is None <==> rows == cols && 0 < rows
            < 0x8000_0000,
{
}

/// In a lower triangle each element on or below the diagonal is the
/// matrix's, and each above it is zero.
pub proof fn lemma_lower_triangle(values: Seq<Float64>, n: nat, row: nat, col: nat)
    requires
        values.len() == n * n,
        row < n,
        col < n,
    ensures
        lapack::lower_triangle(values, n).len() == n * n,
        col * n + row < n * n,
        row >= col ==> lapack::lower_triangle(values, n)[(col * n + row) as int] == values[(col * n
            + row) as int],
        row < col ==> lapack::lower_triangle(values, n)[(col * n + row) as int].bits == 0,
{
    lemma_column_major(n, n, row, col, row, col);
    let i = (col * n + row) as int;
    vstd::arithmetic::div_mod::lemma_fundamental_div_mod_converse(
        i,
        n as int,
        col as int,
        row as int,
    );
}

/// A workspace has the length asked for, and at least one element.
pub proof fn lemma_workspaces(queried: i32)
    ensures
        lapack::workspace_of(queried) >= 1,
        queried > 0 ==> lapack::workspace_of(queried) == queried,
        queried <= 1 ==> lapack::workspace_of(queried) == 1,
{
}

/// The states of a generator are its seed and the multiples of one step
/// behind it, in sixty-four bits.
pub proof fn lemma_states_step(state: u64, draws: nat)
    ensures
        state_after(state, draws) == (state + draws * 0x9E37_79B9_7F4A_7C15)
            % 0x1_0000_0000_0000_0000,
        next_state(state) == (state + 0x9E37_79B9_7F4A_7C15) % 0x1_0000_0000_0000_0000,
    decreases draws,
{
    if draws > 0 {
        lemma_states_step(state, (draws - 1) as nat);
        let step = 0x9E37_79B9_7F4A_7C15int;
        let before = state_after(state, (draws - 1) as nat) as int;
        assert(draws * step == (draws - 1) * step + step) by (nonlinear_arith);
        vstd::arithmetic::div_mod::lemma_add_mod_noop(
            state + (draws - 1) * step,
            step,
            0x1_0000_0000_0000_0000,
        );
        assert(next_state(before as u64) == (before + step) % 0x1_0000_0000_0000_0000);
    }
}

/// Draws follow on: those after some more are those after all of them.
pub proof fn lemma_states_follow(state: u64, first: nat, more: nat)
    ensures
        state_after(state_after(state, first), more) == state_after(state, first + more),
    decreases more,
{
    if more > 0 {
        lemma_states_follow(state, first, (more - 1) as nat);
    }
}

/// Without jitter timestamps lie the cadence apart, or coincide where it is
/// negative, and no number is drawn for them; with it the gap is what was
/// drawn, from the cadence less the jitter on.
pub proof fn lemma_timestamps(spec: Spec, ts: i64, state: u64)
    ensures
        spec.jitter <= 0 && spec.cadence >= 0 ==> next_ts(spec, ts as int, state) == (if ts
            + spec.cadence <= i64::MAX {
            Some(ts + spec.cadence)
        } else {
            None
        }),
        spec.jitter <= 0 && spec.cadence < 0 ==> next_ts(spec, ts as int, state) == Some(ts as int),
        0 < spec.jitter <= spec.cadence ==> (next_ts(spec, ts as int, state) matches Some(next)
            ==> next - ts - (spec.cadence - spec.jitter) == drawn(state) as int % (2 * spec.jitter
            + 1) && next <= i64::MAX),
        0 < spec.jitter <= spec.cadence && spec.cadence + spec.jitter + ts <= i64::MAX
            && spec.cadence + spec.jitter <= i64::MAX ==> next_ts(spec, ts as int, state) is Some,
{
    if spec.jitter > 0 {
        vstd::arithmetic::div_mod::lemma_mod_bound(drawn(state) as int, 2 * spec.jitter + 1);
    }
}

/// A row's key, its step, whether it is null and its noise come from one
/// draw each, in this order.
pub proof fn lemma_row_draws(spec: Spec, ts: i64, state: u64)
    requires
        spec.key_cardinality > 0,
    ensures
        ({
            let row = row_at(spec, ts as int, state);
            &&& row.ts == ts
            &&& row.key == drawn(state) % (spec.key_cardinality as u64)
            &&& row.step == unit_float(drawn(state_after(state, 1)))
            &&& row.noise is None <==> unit_float(drawn(state_after(state, 2))).below(
                spec.null_density,
            )
            &&& row.noise matches Some(noise) ==> noise == unit_float(
                drawn(state_after(state, 3)),
            )
        }),
{
    reveal_with_fuel(state_after, 4);
}

/// The first row is at the start, and longer corpora continue shorter ones.
pub proof fn lemma_rows_continue(spec: Spec, m: nat, n: nat)
    requires
        m <= n,
        progress(spec, n) is Some,
    ensures
        progress(spec, m) is Some,
        progress(spec, n)->0.rows.len() == n,
        progress(spec, n)->0.rows.take(m as int) == progress(spec, m)->0.rows,
        n > 0 ==> progress(spec, n)->0.rows[0].ts == spec.start,
    decreases n,
{
    if n > 0 {
        let before = progress(spec, (n - 1) as nat);
        let after = progress(spec, n)->0.rows;
        assert(before is Some);
        lemma_rows_continue(
            spec,
            if m < n {
                m
            } else {
                (n - 1) as nat
            },
            (n - 1) as nat,
        );
        assert(after.take(n - 1) =~= before->0.rows);
        if m < n {
            assert(after.take(m as int) =~= before->0.rows.take(m as int));
        } else {
            assert(after.take(m as int) =~= after);
        }
    } else {
        assert(progress(spec, n)->0.rows.take(0) =~= Seq::empty());
    }
}

/// A position behind those that had their chance is as it was.
proof fn lemma_untouched(rows: nat, late: spec_fn(int) -> bool, k: nat, i: int)
    requires
        k < i < rows,
    ensures
        delivery(rows, late, k).len() == rows,
        delivery(rows, late, k)[i] == i,
    decreases k,
{
    if k > 0 {
        lemma_untouched(rows, late, (k - 1) as nat, i);
    }
}

/// A position is settled once the row there, and the one after it, had
/// their chance.
proof fn lemma_settles(rows: nat, late: spec_fn(int) -> bool, k: nat, i: int)
    requires
        0 <= i < k < rows,
    ensures
        delivery(rows, late, k).len() == rows,
        delivery(rows, late, k)[i] == delivery(rows, late, (i + 1) as nat)[i],
    decreases k,
{
    if i + 1 < k {
        lemma_settles(rows, late, (k - 1) as nat, i);
    } else {
        crate::corpus::lemma_delivery_is_order(rows, late, k);
    }
}

/// A row that waits behind a run of late rows is the one the run began with.
proof fn lemma_carried(rows: nat, late: spec_fn(int) -> bool, q: int, p: int)
    requires
        0 <= q <= p < rows,
        forall|i: int| q <= i < p ==> #[trigger] late(i),
        q == 0 || !late(q - 1),
    ensures
        delivery(rows, late, p as nat).len() == rows,
        delivery(rows, late, p as nat)[p] == q,
    decreases p,
{
    if p == q {
        if p > 0 {
            lemma_untouched(rows, late, (p - 1) as nat, p);
        }
    } else {
        lemma_carried(rows, late, q, p - 1);
        assert(late(p - 1));
    }
}

/// A late row lets its successor pass: where the row due at a position is
/// late, the next one is delivered there.
pub proof fn lemma_late_rows_yield(rows: nat, late: spec_fn(int) -> bool, k: nat, p: int)
    requires
        0 <= p < k < rows,
        late(p),
    ensures
        delivery(rows, late, k)[p] == p + 1,
{
    lemma_settles(rows, late, k, p);
    lemma_untouched(rows, late, p as nat, p + 1);
    crate::corpus::lemma_delivery_is_order(rows, late, p as nat);
}

/// A row that is late comes at the end of its run of late rows: rows `q` to
/// `p` late but the last, it is row `q` that is delivered at `p`. A row that
/// is not late, behind one that is not, keeps its place.
pub proof fn lemma_late_rows_land(rows: nat, late: spec_fn(int) -> bool, k: nat, q: int, p: int)
    requires
        0 <= q <= p <= k < rows,
        forall|i: int| q <= i < p ==> #[trigger] late(i),
        q == 0 || !late(q - 1),
        p == k || !late(p),
    ensures
        delivery(rows, late, k)[p] == q,
{
    lemma_carried(rows, late, q, p);
    if p < k {
        lemma_settles(rows, late, k, p);
    }
}

/// Where no row can be late the order of delivery is that of generation, and
/// where each must be the first row comes last and all others one place
/// sooner.
pub proof fn lemma_orders(spec: Spec, state: u64, p: int)
    requires
        0 <= p < spec.rows,
    ensures
        !(Float64 { bits: 0 }).below(spec.disorder_fraction) ==> order_of(spec, state)[p] == p,
        !spec.disorder_fraction.nan() && !spec.disorder_fraction.below(
            Float64 { bits: 0x3FF0_0000_0000_0000 },
        ) ==> order_of(spec, state)[p] == (if p < spec.rows - 1 {
            p + 1
        } else {
            0
        }),
        order_of(spec, state).len() == spec.rows,
{
    let late = |i: int| is_late(spec, state, i);
    let last = (spec.rows - 1) as nat;
    crate::corpus::lemma_delivery_is_order(spec.rows as nat, late, last);
    if !spec.disorder_fraction.nan() && !spec.disorder_fraction.below(
        Float64 { bits: 0x3FF0_0000_0000_0000 },
    ) {
        assert forall|i: int| 0 <= i < last implies #[trigger] late(i) by {
            lemma_unit_below_one(drawn(state_after(state, i as nat)));
        }
        if p < last {
            assert(late(p));
            lemma_late_rows_yield(spec.rows as nat, late, last, p);
        } else {
            lemma_late_rows_land(spec.rows as nat, late, last, 0, p);
        }
    }
}

/// Whether a row is late is decided by its own draw: it is where the number
/// drawn is below the fraction.
pub proof fn lemma_lateness(spec: Spec, state: u64, i: nat)
    ensures
        is_late(spec, state, i as int) <==> unit_float(drawn(state_after(state, i))).below(
            spec.disorder_fraction,
        ),
{
}

/// An odd factor with an inverse keeps numbers apart, in sixty-four bits.
proof fn lemma_factor_injective(a: u64, b: u64, factor: u64, inverse: u64)
    requires
        factor * inverse % 0x1_0000_0000_0000_0000 == 1,
        a * factor % 0x1_0000_0000_0000_0000 == b * factor % 0x1_0000_0000_0000_0000,
    ensures
        a == b,
{
    lemma_factor_undone(a, factor, inverse);
    lemma_factor_undone(b, factor, inverse);
}

/// A factor's inverse undoes it.
proof fn lemma_factor_undone(a: u64, factor: u64, inverse: u64)
    requires
        factor * inverse % 0x1_0000_0000_0000_0000 == 1,
    ensures
        (a * factor % 0x1_0000_0000_0000_0000) * inverse % 0x1_0000_0000_0000_0000 == a,
{
    let range = 0x1_0000_0000_0000_0000int;
    let (x, f, g) = (a as int, factor as int, inverse as int);
    vstd::arithmetic::div_mod::lemma_mul_mod_noop_left(x * f, g, range);
    assert((x * f) * g == x * (f * g)) by (nonlinear_arith);
    vstd::arithmetic::div_mod::lemma_mul_mod_noop_right(x, f * g, range);
    assert(x * 1 == x);
    vstd::arithmetic::div_mod::lemma_small_mod(a as nat, range as nat);
}

/// Different states stand for different numbers, so a generator repeats no
/// number until it has gone through all of them.
pub proof fn lemma_numbers_differ(a: u64, b: u64)
    requires
        mix(a) == mix(b),
    ensures
        a == b,
{
    let first = 0xBF58_476D_1CE4_E5B9u64;
    let second = 0x94D0_49BB_1331_11EBu64;
    let (xa, xb) = (a ^ (a >> 30), b ^ (b >> 30));
    let ya = vstd::wrapping::u64_specs::wrapping_mul(xa, first);
    let yb = vstd::wrapping::u64_specs::wrapping_mul(xb, first);
    let (ua, ub) = (ya ^ (ya >> 27), yb ^ (yb >> 27));
    let za = vstd::wrapping::u64_specs::wrapping_mul(ua, second);
    let zb = vstd::wrapping::u64_specs::wrapping_mul(ub, second);
    assert(za ^ (za >> 31) == zb ^ (zb >> 31));
    assert(za == zb) by (bit_vector)
        requires
            za ^ (za >> 31) == zb ^ (zb >> 31),
    ;
    assert(0x94D0_49BB_1331_11EBint * 0x319642B2D24D8EC3int % 0x1_0000_0000_0000_0000 == 1);
    lemma_factor_injective(ua, ub, second, 0x319642B2D24D8EC3);
    assert(ya == yb) by (bit_vector)
        requires
            ya ^ (ya >> 27) == yb ^ (yb >> 27),
    ;
    assert(0xBF58_476D_1CE4_E5B9int * 0x96DE1B173F119089int % 0x1_0000_0000_0000_0000 == 1);
    lemma_factor_injective(xa, xb, first, 0x96DE1B173F119089);
    assert(a == b) by (bit_vector)
        requires
            a ^ (a >> 30) == b ^ (b >> 30),
    ;
}

/// The rows that hold a second value.
pub open spec fn noisy(rows: Seq<Draw>) -> nat {
    rows.filter(|row: Draw| row.noise is Some).len()
}

/// Where the `n`th row's draws begin: behind one for each key, three for each
/// row before it and one more for each of these with a second value, and with
/// jitter one for each timestamp after the first.
pub open spec fn drawn_before(spec: Spec, rows: Seq<Draw>, n: nat) -> nat {
    spec.key_cardinality as nat + 3 * n + noisy(rows) + (if spec.jitter > 0 && n > 0 {
        (n - 1) as nat
    } else {
        0
    })
}

/// Every number is drawn once: after `n` rows the generator stands behind
/// all that these drew, and the next row draws from there.
pub proof fn lemma_draws_counted(spec: Spec, n: nat)
    ensures
        progress(spec, n) matches Some(done) ==> done.state == state_after(
            spec.seed,
            drawn_before(spec, done.rows, n),
        ),
        progress(spec, n + 1) matches Some(done) ==> {
            let before = progress(spec, n)->0;
            let start = drawn_before(spec, before.rows, n) + (if spec.jitter > 0 && n > 0 {
                1nat
            } else {
                0nat
            });
            done.rows == before.rows.push(
                row_at(spec, done.ts, state_after(spec.seed, start)),
            )
        },
    decreases n,
{
    reveal(Seq::filter);
    if n > 0 {
        lemma_draws_counted(spec, (n - 1) as nat);
        if progress(spec, n) is Some {
            let before = progress(spec, (n - 1) as nat)->0;
            let done = progress(spec, n)->0;
            let row = done.rows.last();
            assert(done.rows.drop_last() =~= before.rows);
            let start = drawn_before(spec, before.rows, (n - 1) as nat) + (if spec.jitter > 0 && n
                > 1 {
                1nat
            } else {
                0nat
            });
            lemma_states_follow(
                spec.seed,
                start,
                if row.noise is None {
                    3
                } else {
                    4
                },
            );
        }
    }
}

/// Trade ticks are asked for by rows and seed, have thirty-two keys, are
/// delivered in order, and have no nulls; their timestamps never coincide.
pub proof fn lemma_ticks(rows: usize, seed: u64, spec: Spec, state: u64, n: nat, p: int)
    requires
        call_ensures(Spec::ticks, (rows, seed), spec),
        0 <= p < rows,
    ensures
        spec.rows == rows && spec.seed == seed && spec.key_cardinality == 32,
        0 < spec.jitter < spec.cadence,
        order_of(spec, state)[p] == p,
        progress(spec, n) matches Some(done) ==> forall|i: int|
            0 <= i < done.rows.len() ==> (#[trigger] done.rows[i]).noise is Some,
{
    lemma_orders(spec, state, p);
    crate::corpus::lemma_no_nulls(spec, n);
}

/// Telemetry is asked for by rows and seed, has eight keys, and timestamps
/// that never coincide; its nulls and its late rows are some, and not all.
pub proof fn lemma_telemetry(rows: usize, seed: u64, spec: Spec)
    requires
        call_ensures(Spec::telemetry, (rows, seed), spec),
    ensures
        spec.rows == rows && spec.seed == seed && spec.key_cardinality == 8,
        0 < spec.jitter < spec.cadence,
        (Float64 { bits: 0 }).below(spec.null_density),
        spec.null_density.below(Float64 { bits: 0x3FF0_0000_0000_0000 }),
        (Float64 { bits: 0 }).below(spec.disorder_fraction),
        spec.disorder_fraction.below(spec.null_density),
        spec.null_density.scaled() == 2 * spec.disorder_fraction.scaled(),
{
    lemma_magnitudes_double(spec.disorder_fraction.magnitude());
}

} // verus!
