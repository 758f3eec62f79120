//! Seeded synthetic data: ordered timestamps, low-cardinality keys and
//! values, with late arrivals and nulls as parameters.
//!
//! A corpus is a function of its [`Spec`] alone: same spec, same rows, on
//! every platform. What is drawn is decided here, from the seed: each row's
//! timestamp and key, the uniform numbers its values are made of, which rows
//! are null and which arrive late.
use crate::float64::{is_unit, lemma_unit_below_one, unit_float, unit_from, Float64, ONE};
use vstd::prelude::*;

verus! {

/// One generated row.
#[derive(Clone, Copy, PartialEq, Debug)]
pub struct Row {
    /// The ordering key: roughly sorted across the generated sequence.
    pub ts: i64,
    /// Which key this row belongs to.
    pub key: u32,
    /// The primary value: a per-key random walk.
    pub value: Float64,
    /// A second, nullable value, linearly related to the first plus noise.
    pub aux: Option<Float64>,
}

/// A generator specification: the corpus is a function of this.
#[derive(Clone, Copy, PartialEq, Debug)]
pub struct Spec {
    /// Rows to generate.
    pub rows: usize,
    /// Seed; every number drawn derives from it.
    pub seed: u64,
    /// Distinct keys.
    pub key_cardinality: u32,
    /// First timestamp.
    pub start: i64,
    /// Mean gap between consecutive rows.
    pub cadence: i64,
    /// Uniform jitter half-width applied to each gap, which never falls below
    /// zero.
    pub jitter: i64,
    /// Fraction of rows delivered late: each such row swaps behind the row
    /// that follows it.
    pub disorder_fraction: Float64,
    /// Probability that the second value is null on any given row.
    pub null_density: Float64,
}

/// What one step adds to the generator's state.
pub const GOLDEN: u64 = 0x9E37_79B9_7F4A_7C15;

/// The generator's state one step on.
pub open spec fn next_state(state: u64) -> u64 {
    vstd::wrapping::u64_specs::wrapping_add(state, GOLDEN)
}

/// The number a state stands for.
pub open spec fn mix(state: u64) -> u64 {
    let a = vstd::wrapping::u64_specs::wrapping_mul(state ^ (state >> 30), 0xBF58_476D_1CE4_E5B9);
    let b = vstd::wrapping::u64_specs::wrapping_mul(a ^ (a >> 27), 0x94D0_49BB_1331_11EB);
    b ^ (b >> 31)
}

/// The number drawn from a state: that of the next one.
pub open spec fn drawn(state: u64) -> u64 {
    mix(next_state(state))
}

/// SplitMix64: tiny, and exactly reproducible everywhere.
pub struct SplitMix64 {
    state: u64,
}

impl SplitMix64 {
    /// The state.
    pub closed spec fn at(&self) -> u64 {
        self.state
    }

    /// A generator from its seed.
    pub fn new(seed: u64) -> (generator: Self)
        ensures
            generator.at() == seed,
    {
        SplitMix64 { state: seed }
    }

    /// The next number.
    pub fn next_u64(&mut self) -> (number: u64)
        ensures
            number == drawn(old(self).at()),
            final(self).at() == next_state(old(self).at()),
    {
        self.state = self.state.wrapping_add(GOLDEN);
        let mut z: u64 = self.state;
        z = (z ^ (z >> 30)).wrapping_mul(0xBF58_476D_1CE4_E5B9);
        z = (z ^ (z >> 27)).wrapping_mul(0x94D0_49BB_1331_11EB);
        z ^ (z >> 31)
    }

    /// Uniform in `[0, 1)`, from the top fifty-three bits of a number.
    pub fn next_f64(&mut self) -> (value: Float64)
        ensures
            value == unit_float(drawn(old(self).at())),
            is_unit(value, drawn(old(self).at())),
            final(self).at() == next_state(old(self).at()),
    {
        unit_from(self.next_u64())
    }

    /// Uniform in `[0, bound)`, but for a negligible bias.
    pub fn next_range(&mut self, bound: u64) -> (number: u64)
        requires
            bound > 0,
        ensures
            number == drawn(old(self).at()) % bound,
            number < bound,
            final(self).at() == next_state(old(self).at()),
    {
        self.next_u64() % bound
    }
}

/// What is drawn for one row: the values follow from it by arithmetic.
#[derive(Clone, Copy, Debug)]
pub struct Draw {
    /// The timestamp.
    pub ts: i64,
    /// The key.
    pub key: u32,
    /// The uniform number behind the walk's step.
    pub step: Float64,
    /// The uniform number behind the second value's noise; `None` where that
    /// value is null.
    pub noise: Option<Float64>,
}

/// Everything that is drawn for a corpus.
pub struct Draws {
    /// The uniform numbers behind each key's first value.
    pub walks: Vec<Float64>,
    /// What is drawn for each row, in the order of generation.
    pub rows: Vec<Draw>,
    /// The order of delivery: which row comes at each position.
    pub order: Vec<usize>,
}

/// The state after some draws.
pub open spec fn state_after(state: u64, draws: nat) -> u64
    decreases draws,
{
    if draws == 0 {
        state
    } else {
        next_state(state_after(state, (draws - 1) as nat))
    }
}

/// How far generation has come: the generator's state, the last timestamp,
/// and the rows so far.
pub struct Progress {
    /// The generator's state.
    pub state: u64,
    /// The last timestamp.
    pub ts: int,
    /// The rows so far.
    pub rows: Seq<Draw>,
}

/// The timestamp after `ts`, unless one of the numbers on the way to it is
/// out of range: the gap is the cadence plus the jitter drawn, and never
/// negative.
pub open spec fn next_ts(spec: Spec, ts: int, state: u64) -> Option<int> {
    let offset = if spec.jitter > 0 {
        drawn(state) as int % (2 * spec.jitter + 1)
    } else {
        0
    };
    let jitter = if spec.jitter > 0 {
        offset - spec.jitter
    } else {
        0
    };
    let gap = spec.cadence + jitter;
    let next = if gap > 0 {
        ts + gap
    } else {
        ts
    };
    if offset <= i64::MAX && i64::MIN <= gap <= i64::MAX && next <= i64::MAX {
        Some(next)
    } else {
        None
    }
}

/// The generator's state after a timestamp was drawn.
pub open spec fn state_after_ts(spec: Spec, state: u64) -> u64 {
    if spec.jitter > 0 {
        next_state(state)
    } else {
        state
    }
}

/// What is drawn for a row whose timestamp is known.
pub open spec fn row_at(spec: Spec, ts: int, state: u64) -> Draw {
    let second = next_state(state);
    let third = next_state(second);
    Draw {
        ts: ts as i64,
        key: (drawn(state) % spec.key_cardinality as u64) as u32,
        step: unit_float(drawn(second)),
        noise: if unit_float(drawn(third)).below(spec.null_density) {
            None
        } else {
            Some(unit_float(drawn(next_state(third))))
        },
    }
}

/// How far generation has come after `n` rows, unless a timestamp is out of
/// range.
pub open spec fn progress(spec: Spec, n: nat) -> Option<Progress>
    decreases n,
{
    if n == 0 {
        Some(
            Progress {
                state: state_after(spec.seed, spec.key_cardinality as nat),
                ts: spec.start as int,
                rows: Seq::empty(),
            },
        )
    } else {
        match progress(spec, (n - 1) as nat) {
            None => None,
            Some(before) => {
                let ts = if n == 1 {
                    Some(before.ts)
                } else {
                    next_ts(spec, before.ts, before.state)
                };
                let state = if n == 1 {
                    before.state
                } else {
                    state_after_ts(spec, before.state)
                };
                match ts {
                    None => None,
                    Some(ts) => {
                        let row = row_at(spec, ts, state);
                        Some(
                            Progress {
                                state: state_after(
                                    state,
                                    if row.noise is None {
                                        3
                                    } else {
                                        4
                                    },
                                ),
                                ts,
                                rows: before.rows.push(row),
                            },
                        )
                    },
                }
            },
        }
    }
}

/// Two positions of a sequence swapped.
pub open spec fn swapped(order: Seq<int>, i: int, j: int) -> Seq<int> {
    order.update(i, order[j]).update(j, order[i])
}

/// The order of delivery after the first `k` rows had their chance to be
/// late: each that is swaps behind its successor.
pub open spec fn delivery(rows: nat, late: spec_fn(int) -> bool, k: nat) -> Seq<int>
    decreases k,
{
    if k == 0 {
        Seq::new(rows, |i: int| i)
    } else {
        let before = delivery(rows, late, (k - 1) as nat);
        if late(k - 1) {
            swapped(before, k - 1, k as int)
        } else {
            before
        }
    }
}

/// Whether row `i` is late, by the number drawn for it.
pub open spec fn is_late(spec: Spec, state: u64, i: int) -> bool {
    unit_float(drawn(state_after(state, i as nat))).below(spec.disorder_fraction)
}

/// The order of delivery.
pub open spec fn order_of(spec: Spec, state: u64) -> Seq<int> {
    if (Float64 { bits: 0 }).below(spec.disorder_fraction) && spec.rows > 0 {
        delivery(spec.rows as nat, |i: int| is_late(spec, state, i), (spec.rows - 1) as nat)
    } else {
        Seq::new(spec.rows as nat, |i: int| i)
    }
}

/// Every row is delivered exactly once.
pub open spec fn is_order(order: Seq<int>, rows: nat) -> bool {
    &&& order.len() == rows
    &&& forall|i: int| 0 <= i < rows ==> 0 <= #[trigger] order[i] < rows
    &&& forall|i: int, j: int|
        0 <= i < j < rows ==> #[trigger] order[i] != #[trigger] order[j]
}

/// However many rows are late, every row is delivered exactly once.
pub proof fn lemma_delivery_is_order(rows: nat, late: spec_fn(int) -> bool, k: nat)
    requires
        k < rows || k == 0,
    ensures
        is_order(delivery(rows, late, k), rows),
    decreases k,
{
    if k > 0 {
        lemma_delivery_is_order(rows, late, (k - 1) as nat);
    }
}

/// A failure among the first rows is the failure of all.
proof fn lemma_progress_failure(spec: Spec, k: nat, n: nat)
    requires
        k <= n,
        progress(spec, k) is None,
    ensures
        progress(spec, n) is None,
    decreases n - k,
{
    if k < n {
        lemma_progress_failure(spec, k, (n - 1) as nat);
    }
}

/// Rows as generated are ordered by their timestamps, and their keys are
/// within the cardinality.
pub proof fn lemma_rows_ordered(spec: Spec, n: nat)
    requires
        spec.key_cardinality > 0,
    ensures
        progress(spec, n) matches Some(done) ==> {
            &&& done.rows.len() == n
            &&& forall|i: int| 0 <= i < n ==> (#[trigger] done.rows[i]).key < spec.key_cardinality
            &&& forall|i: int, j: int|
                0 <= i <= j < n ==> (#[trigger] done.rows[i]).ts <= (#[trigger] done.rows[j]).ts
            &&& n > 0 ==> done.rows[n - 1].ts == done.ts
            &&& i64::MIN <= done.ts <= i64::MAX
        },
    decreases n,
{
    if n > 0 {
        lemma_rows_ordered(spec, (n - 1) as nat);
    }
}

/// The gap between row `i` and the row after it.
pub open spec fn gap_after(rows: Seq<Draw>, i: int) -> int {
    rows[i + 1].ts - rows[i].ts
}

/// Consecutive rows, as generated, lie the cadence apart, give or take the
/// jitter, and never less than nothing.
pub proof fn lemma_gaps(spec: Spec, n: nat)
    requires
        spec.key_cardinality > 0,
    ensures
        progress(spec, n) matches Some(done) ==> forall|i: int|
            0 <= i < n - 1 ==> gap_within(spec, #[trigger] gap_after(done.rows, i)),
    decreases n,
{
    if n > 1 && progress(spec, n) is Some {
        let m = (n - 1) as nat;
        lemma_gaps(spec, m);
        lemma_rows_ordered(spec, m);
        lemma_rows_ordered(spec, n);
        lemma_last_row(spec, n);
        let before = progress(spec, m)->0;
        let after = progress(spec, n)->0;
        lemma_rows_of(after.rows, before.rows);
        lemma_gap_drawn(spec, before.ts, before.state);
        assert forall|i: int| 0 <= i < n - 1 implies gap_within(
            spec,
            #[trigger] gap_after(after.rows, i),
        ) by {
            if i < n - 2 {
                assert(gap_after(after.rows, i) == gap_after(before.rows, i));
            } else {
                assert(before.rows[m - 1].ts == before.ts);
                assert(after.rows[n - 1].ts == after.ts);
            }
        }
    }
}

/// The timestamp drawn after another lies a gap behind it.
proof fn lemma_gap_drawn(spec: Spec, ts: int, state: u64)
    ensures
        next_ts(spec, ts, state) matches Some(next) ==> gap_within(spec, next - ts),
{
    if spec.jitter > 0 {
        let bound = 2 * spec.jitter + 1;
        vstd::arithmetic::div_mod::lemma_mod_bound(drawn(state) as int, bound);
        let drift = drawn(state) as int % bound - spec.jitter;
        assert(floored(spec.cadence + drift) >= 0);
    } else {
        assert(floored(spec.cadence + 0) >= 0);
    }
}

/// A gap is the cadence, give or take the jitter, or nothing where that is
/// negative.
pub open spec fn gap_within(spec: Spec, gap: int) -> bool {
    let jitter = if spec.jitter > 0 {
        spec.jitter as int
    } else {
        0
    };
    exists|drift: int|
        -jitter <= drift <= jitter && gap == #[trigger] floored(spec.cadence + drift)
}

/// A number, or zero where it is negative.
pub open spec fn floored(n: int) -> int {
    if n > 0 {
        n
    } else {
        0
    }
}

/// What one row's draws are, after the rows before it.
proof fn lemma_last_row(spec: Spec, n: nat)
    requires
        n > 0,
        progress(spec, n) is Some,
    ensures
        progress(spec, (n - 1) as nat) is Some,
        progress(spec, n)->0.rows.len() > 0,
        progress(spec, n)->0.rows.drop_last() == progress(spec, (n - 1) as nat)->0.rows,
        n > 1 ==> next_ts(
            spec,
            progress(spec, (n - 1) as nat)->0.ts,
            progress(spec, (n - 1) as nat)->0.state,
        ) == Some(progress(spec, n)->0.ts),
        ({
            let before = progress(spec, (n - 1) as nat)->0;
            let state = if n == 1 {
                before.state
            } else {
                state_after_ts(spec, before.state)
            };
            (progress(spec, n)->0.rows.last().noise is None) == unit_float(
                drawn(next_state(next_state(state))),
            ).below(spec.null_density)
        }),
{
    let before = progress(spec, (n - 1) as nat)->0;
    assert(progress(spec, n)->0.rows.drop_last() =~= before.rows);
}

/// Without a positive null density no row is null.
pub proof fn lemma_no_nulls(spec: Spec, n: nat)
    requires
        !(Float64 { bits: 0 }).below(spec.null_density),
    ensures
        progress(spec, n) matches Some(done) ==> forall|i: int|
            0 <= i < done.rows.len() ==> (#[trigger] done.rows[i]).noise is Some,
    decreases n,
{
    if n > 0 {
        lemma_no_nulls(spec, (n - 1) as nat);
        if progress(spec, n) is Some {
            lemma_last_row(spec, n);
            let before = progress(spec, (n - 1) as nat)->0;
            let state = if n == 1 {
                before.state
            } else {
                state_after_ts(spec, before.state)
            };
            crate::float64::lemma_unit_exists(drawn(next_state(next_state(state))));
            lemma_rows_of(progress(spec, n)->0.rows, before.rows);
        }
    }
}

/// With a null density of one, or more, every row is null.
pub proof fn lemma_all_nulls(spec: Spec, n: nat)
    requires
        !spec.null_density.nan(),
        !spec.null_density.below(Float64 { bits: ONE }),
    ensures
        progress(spec, n) matches Some(done) ==> forall|i: int|
            0 <= i < done.rows.len() ==> (#[trigger] done.rows[i]).noise is None,
    decreases n,
{
    if n > 0 {
        lemma_all_nulls(spec, (n - 1) as nat);
        if progress(spec, n) is Some {
            lemma_last_row(spec, n);
            let before = progress(spec, (n - 1) as nat)->0;
            let state = if n == 1 {
                before.state
            } else {
                state_after_ts(spec, before.state)
            };
            lemma_unit_below_one(drawn(next_state(next_state(state))));
            lemma_rows_of(progress(spec, n)->0.rows, before.rows);
        }
    }
}

/// Rows are those before the last one, and the last one.
proof fn lemma_rows_of(rows: Seq<Draw>, before: Seq<Draw>)
    requires
        rows.len() > 0,
        rows.drop_last() == before,
    ensures
        rows.len() == before.len() + 1,
        forall|i: int|
            0 <= i < rows.len() ==> #[trigger] rows[i] == if i < before.len() {
                before[i]
            } else {
                rows.last()
            },
{
    assert(rows =~= rows.drop_last().push(rows.last()));
}

impl Spec {
    /// Trade-tick shape: irregular bursty gaps, thirty-two symbols, fully
    /// ordered, no nulls.
    pub fn ticks(rows: usize, seed: u64) -> (spec: Spec)
        ensures
            spec == (Spec {
                rows,
                seed,
                key_cardinality: 32,
                start: 1_700_000_000_000_000_000,
                cadence: 1_000_000,
                jitter: 999_999,
                disorder_fraction: Float64 { bits: 0 },
                null_density: Float64 { bits: 0 },
            }),
    {
        Spec {
            rows,
            seed,
            key_cardinality: 32,
            start: 1_700_000_000_000_000_000,
            cadence: 1_000_000,
            jitter: 999_999,
            disorder_fraction: Float64 { bits: 0 },
            null_density: Float64 { bits: 0 },
        }
    }

    /// Sensor-telemetry shape: steady cadence with small jitter, eight
    /// sensors, occasional nulls (two in a hundred), occasional late arrivals
    /// (one in a hundred).
    pub fn telemetry(rows: usize, seed: u64) -> (spec: Spec)
        ensures
            spec == (Spec {
                rows,
                seed,
                key_cardinality: 8,
                start: 1_700_000_000_000_000_000,
                cadence: 1_000_000_000,
                jitter: 5_000_000,
                disorder_fraction: Float64 { bits: 0x3F84_7AE1_47AE_147B },
                null_density: Float64 { bits: 0x3F94_7AE1_47AE_147B },
            }),
    {
        Spec {
            rows,
            seed,
            key_cardinality: 8,
            start: 1_700_000_000_000_000_000,
            cadence: 1_000_000_000,
            jitter: 5_000_000,
            disorder_fraction: Float64 { bits: 0x3F84_7AE1_47AE_147B },
            null_density: Float64 { bits: 0x3F94_7AE1_47AE_147B },
        }
    }

    /// Draws this spec's rows: `None` exactly where a timestamp, or a number
    /// on the way to it, is out of range.
    pub fn generate(&self) -> (draws: Option<Draws>)
        requires
            self.key_cardinality > 0,
        ensures
            match draws {
                Some(d) => progress(*self, self.rows as nat) matches Some(done) && {
                    &&& d.rows@ == done.rows
                    &&& d.walks@ == Seq::new(
                        self.key_cardinality as nat,
                        |i: int| unit_float(drawn(state_after(self.seed, i as nat))),
                    )
                    &&& d.order@.map_values(|i: usize| i as int) == order_of(*self, done.state)
                    &&& is_order(d.order@.map_values(|i: usize| i as int), d.rows@.len())
                },
                None => progress(*self, self.rows as nat) is None,
            },
    {
        let mut generator = SplitMix64::new(self.seed);
        let mut walks: Vec<Float64> = Vec::new();
        let mut index: u32 = 0;
        while index < self.key_cardinality
            invariant
                index <= self.key_cardinality,
                generator.at() == state_after(self.seed, index as nat),
                walks@ == Seq::new(
                    index as nat,
                    |i: int| unit_float(drawn(state_after(self.seed, i as nat))),
                ),
            decreases self.key_cardinality - index,
        {
            walks.push(generator.next_f64());
            index += 1;
            assert(walks@ =~= Seq::new(
                index as nat,
                |i: int| unit_float(drawn(state_after(self.seed, i as nat))),
            ));
        }
        let mut ts: i64 = self.start;
        let mut rows: Vec<Draw> = Vec::new();
        while rows.len() < self.rows
            invariant
                rows@.len() <= self.rows,
                self.key_cardinality > 0,
                progress(*self, rows@.len()) == Some(
                    Progress { state: generator.at(), ts: ts as int, rows: rows@ },
                ),
            decreases self.rows - rows@.len(),
        {
            let ghost n = rows@.len() + 1;
            if rows.len() > 0 {
                match self.advance(&mut generator, ts) {
                    Some(next) => {
                        ts = next;
                    },
                    None => {
                        proof {
                            lemma_progress_failure(*self, n, self.rows as nat);
                        }
                        return None;
                    },
                }
            }
            let row: Draw = self.draw_row(&mut generator, ts);
            rows.push(row);
            proof {
                reveal_with_fuel(state_after, 5);
            }
        }
        let order: Vec<usize> = self.delivery_order(&mut generator);
        Some(Draws { walks, rows, order })
    }

    /// The timestamp after `ts`.
    fn advance(&self, generator: &mut SplitMix64, ts: i64) -> (next: Option<i64>)
        ensures
            final(generator).at() == state_after_ts(*self, old(generator).at()),
            match next {
                Some(t) => next_ts(*self, ts as int, old(generator).at()) == Some(t as int),
                None => next_ts(*self, ts as int, old(generator).at()) is None,
            },
    {
        let jitter: i64 = if self.jitter > 0 {
            let offset: u64 = generator.next_range(2 * (self.jitter as u64) + 1);
            if offset > 0x7FFF_FFFF_FFFF_FFFF {
                return None;
            }
            offset as i64 - self.jitter
        } else {
            0
        };
        match self.cadence.checked_add(jitter) {
            Some(gap) => if gap > 0 {
                ts.checked_add(gap)
            } else {
                Some(ts)
            },
            None => None,
        }
    }

    /// Draws what a row is made of.
    fn draw_row(&self, generator: &mut SplitMix64, ts: i64) -> (row: Draw)
        requires
            self.key_cardinality > 0,
        ensures
            row == row_at(*self, ts as int, old(generator).at()),
            final(generator).at() == state_after(
                old(generator).at(),
                if row.noise is None {
                    3
                } else {
                    4
                },
            ),
    {
        proof {
            reveal_with_fuel(state_after, 5);
        }
        let key: u32 = generator.next_range(self.key_cardinality as u64) as u32;
        let step: Float64 = generator.next_f64();
        let noise: Option<Float64> = if generator.next_f64().less_than(self.null_density) {
            None
        } else {
            Some(generator.next_f64())
        };
        Draw { ts, key, step, noise }
    }

    /// The order of delivery: late rows swap behind their successors.
    fn delivery_order(&self, generator: &mut SplitMix64) -> (order: Vec<usize>)
        ensures
            order@.map_values(|i: usize| i as int) == order_of(*self, old(generator).at()),
            is_order(order@.map_values(|i: usize| i as int), self.rows as nat),
    {
        let ghost state = generator.at();
        let ghost late = |i: int| is_late(*self, state, i);
        let mut order: Vec<usize> = Vec::new();
        while order.len() < self.rows
            invariant
                order@.len() <= self.rows,
                forall|i: int| 0 <= i < order@.len() ==> #[trigger] order@[i] == i,
            decreases self.rows - order@.len(),
        {
            let position: usize = order.len();
            order.push(position);
        }
        assert(order@.map_values(|i: usize| i as int) =~= delivery(self.rows as nat, late, 0));
        let zero = Float64 { bits: 0 };
        if zero.less_than(self.disorder_fraction) && self.rows > 0 {
            let mut index: usize = 0;
            while index < self.rows - 1
                invariant
                    self.rows > 0,
                    index <= self.rows - 1,
                    order@.len() == self.rows,
                    late == (|i: int| is_late(*self, state, i)),
                    generator.at() == state_after(state, index as nat),
                    order@.map_values(|i: usize| i as int) == delivery(
                        self.rows as nat,
                        late,
                        index as nat,
                    ),
                decreases self.rows - index,
            {
                let ghost before = order@;
                if generator.next_f64().less_than(self.disorder_fraction) {
                    let first: usize = order[index];
                    let second: usize = order[index + 1];
                    order.set(index, second);
                    order.set(index + 1, first);
                    assert(order@.map_values(|i: usize| i as int) =~= swapped(
                        before.map_values(|i: usize| i as int),
                        index as int,
                        index + 1,
                    ));
                }
                index += 1;
            }
            proof {
                lemma_delivery_is_order(self.rows as nat, late, (self.rows - 1) as nat);
            }
        } else {
            proof {
                lemma_delivery_is_order(self.rows as nat, late, 0);
            }
        }
        order
    }
}

} // verus!
