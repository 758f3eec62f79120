//! IEEE 754 binary64 values, held as their bit patterns.
//!
//! The exact value of a finite float is an integer multiple of the smallest
//! positive one, so contracts speak of that multiple ([`Float64::scaled`]):
//! a finite float and an integer `n` are equal exactly when the float's
//! multiple is `n` times that of one.
use vstd::arithmetic::power2::{lemma_pow2_adds, lemma_pow2_pos, lemma_pow2_strictly_increases, pow2};
use vstd::prelude::*;

verus! {

/// Weight of the sign bit.
pub const SIGN: u64 = 0x8000_0000_0000_0000;

/// Number of fraction patterns per exponent, and the implicit leading bit.
pub const HIDDEN: u64 = 0x0010_0000_0000_0000;

/// The bit pattern of one.
pub const ONE: u64 = 0x3FF0_0000_0000_0000;

/// The exponent field of the infinities and the NaNs.
pub const SPECIAL: u64 = 2047;

/// The multiple of the smallest positive float that a magnitude (a bit
/// pattern without its sign) stands for.
pub open spec fn magnitude_scaled(magnitude: int) -> int {
    let exponent = magnitude / HIDDEN as int;
    let fraction = magnitude % HIDDEN as int;
    if exponent == 0 {
        fraction
    } else {
        (fraction + HIDDEN) * pow2((exponent - 1) as nat)
    }
}

/// The multiple of the smallest positive float that one is.
pub open spec fn one_scaled() -> int {
    pow2(1074) as int
}

/// A binary64 value.
#[derive(Clone, Copy, Debug)]
pub struct Float64 {
    /// The bit pattern: sign, eleven exponent bits, fifty-two fraction bits.
    pub bits: u64,
}

impl Float64 {
    /// Whether the sign bit is set.
    pub open spec fn negative(self) -> bool {
        self.bits >= SIGN
    }

    /// The bit pattern without its sign.
    pub open spec fn magnitude(self) -> int {
        if self.negative() {
            self.bits - SIGN
        } else {
            self.bits as int
        }
    }

    /// Neither infinite nor NaN.
    pub open spec fn finite(self) -> bool {
        self.magnitude() < SPECIAL * HIDDEN
    }

    /// Not a number.
    pub open spec fn nan(self) -> bool {
        self.magnitude() > SPECIAL * HIDDEN
    }

    /// The exact value of a finite float, as a multiple of the smallest
    /// positive one.
    pub open spec fn scaled(self) -> int {
        if self.negative() {
            -magnitude_scaled(self.magnitude())
        } else {
            magnitude_scaled(self.magnitude())
        }
    }

    /// The float stands for the integer `n`, exactly.
    pub open spec fn is_integer(self, n: int) -> bool {
        self.finite() && self.scaled() == n * one_scaled()
    }

    /// The position of a value that is no NaN in the order of the floats.
    pub open spec fn rank(self) -> int {
        if self.negative() {
            -self.magnitude()
        } else {
            self.magnitude()
        }
    }

    /// IEEE equality: no NaN equals anything, and the two zeros are equal.
    pub open spec fn same(self, other: Float64) -> bool {
        !self.nan() && !other.nan() && self.rank() == other.rank()
    }

    /// IEEE order: no NaN is below or above anything.
    pub open spec fn below(self, other: Float64) -> bool {
        !self.nan() && !other.nan() && self.rank() < other.rank()
    }

    /// The float with this bit pattern.
    pub fn from_bits(bits: u64) -> (value: Float64)
        ensures
            value.bits == bits,
    {
        Float64 { bits }
    }

    /// This float's bit pattern.
    pub fn to_bits(self) -> (bits: u64)
        ensures
            bits == self.bits,
    {
        self.bits
    }

    /// Whether the value is neither infinite nor NaN.
    pub fn is_finite(self) -> (finite: bool)
        ensures
            finite == self.finite(),
    {
        (self.bits % SIGN) / HIDDEN < SPECIAL
    }

    /// Whether the value is a NaN.
    pub fn is_nan(self) -> (nan: bool)
        ensures
            nan == self.nan(),
    {
        self.bits % SIGN > SPECIAL * HIDDEN
    }

    /// Whether this value is less than `other`, in IEEE's order.
    pub fn less_than(self, other: Float64) -> (less: bool)
        ensures
            less == self.below(other),
    {
        if self.is_nan() || other.is_nan() {
            return false;
        }
        let a: u64 = self.bits % SIGN;
        let b: u64 = other.bits % SIGN;
        if self.bits >= SIGN {
            if other.bits >= SIGN {
                b < a
            } else {
                a > 0 || b > 0
            }
        } else {
            other.bits < SIGN && a < b
        }
    }

    /// The float with the other sign.
    pub open spec fn negated(self) -> Float64 {
        if self.negative() {
            Float64 { bits: (self.bits - SIGN) as u64 }
        } else {
            Float64 { bits: (self.bits + SIGN) as u64 }
        }
    }

    /// The value with its sign flipped.
    pub fn negate(self) -> (negated: Float64)
        ensures
            negated == self.negated(),
            negated.magnitude() == self.magnitude(),
            negated.negative() == !self.negative(),
    {
        if self.bits >= SIGN {
            Float64 { bits: self.bits - SIGN }
        } else {
            Float64 { bits: self.bits + SIGN }
        }
    }
}

/// None of some values is infinite or NaN.
pub open spec fn all_finite(values: Seq<Float64>) -> bool {
    forall|i: int| 0 <= i < values.len() ==> (#[trigger] values[i]).finite()
}

/// Whether none of some values is infinite or NaN.
pub fn are_finite(values: &[Float64]) -> (finite: bool)
    ensures
        finite == all_finite(values@),
{
    for i in 0..values.len()
        invariant
            forall|j: int| 0 <= j < i ==> (#[trigger] values@[j]).finite(),
    {
        if !values[i].is_finite() {
            assert(!values@[i as int].finite());
            return false;
        }
    }
    true
}

impl vstd::std_specs::cmp::PartialEqSpecImpl for Float64 {
    open spec fn obeys_eq_spec() -> bool {
        true
    }

    open spec fn eq_spec(&self, other: &Self) -> bool {
        self.same(*other)
    }
}

impl PartialEq for Float64 {
    fn eq(&self, other: &Self) -> (equal: bool) {
        assert(self.bits % SIGN == self.magnitude());
        assert(other.bits % SIGN == other.magnitude());
        !self.is_nan() && !other.is_nan() && (self.bits == other.bits || (self.bits % SIGN == 0
            && other.bits % SIGN == 0))
    }
}

/// Larger magnitudes stand for larger values.
pub proof fn lemma_magnitude_order(a: int, b: int)
    requires
        0 <= a < b,
    ensures
        magnitude_scaled(a) < magnitude_scaled(b),
{
    let h = HIDDEN as int;
    let (ea, fa) = (a / h, a % h);
    let (eb, fb) = (b / h, b % h);
    assert(a == ea * h + fa && b == eb * h + fb && 0 <= fa < h && 0 <= fb < h);
    assert(0 <= ea <= eb);
    if eb > 0 {
        let weight_b = pow2((eb - 1) as nat) as int;
        lemma_pow2_pos((eb - 1) as nat);
        if ea == 0 {
            assert((fb + h) * weight_b >= fb + h) by (nonlinear_arith)
                requires
                    weight_b >= 1,
                    fb + h >= 0,
            ;
        } else {
            let weight_a = pow2((ea - 1) as nat) as int;
            lemma_pow2_pos((ea - 1) as nat);
            if ea == eb {
                assert((fa + h) * weight_a < (fb + h) * weight_a) by (nonlinear_arith)
                    requires
                        fa < fb,
                        weight_a >= 1,
                ;
            } else {
                lemma_pow2_adds((ea - 1) as nat, (eb - ea) as nat);
                let step = pow2((eb - ea) as nat) as int;
                lemma_pow2_pos((eb - ea) as nat);
                assert(step >= 2) by {
                    lemma_pow2_strictly_increases(0, (eb - ea) as nat);
                    vstd::arithmetic::power2::lemma2_to64();
                }
                assert(weight_b == weight_a * step);
                assert((fa + h) * weight_a < (fb + h) * weight_b) by (nonlinear_arith)
                    requires
                        weight_b == weight_a * step,
                        step >= 2,
                        weight_a >= 1,
                        0 <= fa < h,
                        0 <= fb,
                ;
            }
        }
    }
}

/// On finite values IEEE's equality and order are those of the exact values.
pub proof fn lemma_order_is_exact(a: Float64, b: Float64)
    requires
        a.finite(),
        b.finite(),
    ensures
        a.same(b) <==> a.scaled() == b.scaled(),
        a.below(b) <==> a.scaled() < b.scaled(),
{
    let (ma, mb) = (a.magnitude(), b.magnitude());
    assert(magnitude_scaled(0) == 0);
    if ma > 0 {
        lemma_magnitude_order(0, ma);
    }
    if mb > 0 {
        lemma_magnitude_order(0, mb);
    }
    if ma < mb {
        lemma_magnitude_order(ma, mb);
    }
    if mb < ma {
        lemma_magnitude_order(mb, ma);
    }
}

/// An odd multiple of a smaller power of two is no multiple of a larger one.
proof fn lemma_odd_not_even(s: int, t: int, low: nat, high: nat)
    requires
        s % 2 != 0,
        low < high,
    ensures
        s * pow2(low) != t * pow2(high),
{
    if s * pow2(low) == t * pow2(high) {
        lemma_pow2_adds(low, (high - low) as nat);
        lemma_pow2_adds(1, (high - low - 1) as nat);
        vstd::arithmetic::power2::lemma2_to64();
        lemma_pow2_pos(low);
        let (p, q) = (pow2(low) as int, pow2((high - low - 1) as nat) as int);
        assert(pow2(high) == p * (2 * q));
        assert(s == t * (2 * q)) by (nonlinear_arith)
            requires
                s * p == t * (p * (2 * q)),
                p > 0,
        ;
        assert(s == 2 * (t * q)) by (nonlinear_arith)
            requires
                s == t * (2 * q),
        ;
        assert(s % 2 == 0);
    }
}

/// The zeroth power of two changes nothing.
proof fn lemma_times_pow2_zero(s: int)
    ensures
        s * pow2(0) == s,
{
    vstd::arithmetic::power2::lemma2_to64();
    let one = pow2(0) as int;
    assert(s * one == s) by (nonlinear_arith)
        requires
            one == 1,
    ;
}

/// Doubling moves one factor of two between the parts of a product.
proof fn lemma_shift_factor(s: int, e: nat)
    ensures
        (2 * s) * pow2(e) == s * pow2(e + 1),
{
    lemma_pow2_adds(e, 1);
    vstd::arithmetic::power2::lemma2_to64();
    let p = pow2(e) as int;
    assert((2 * s) * p == s * (p * 2)) by (nonlinear_arith);
}

/// An odd number of more than fifty-three bits, times a power of two, is no
/// finite float.
proof fn lemma_too_wide(s: int, e: nat, m: int)
    requires
        s % 2 != 0,
        s >= 2 * HIDDEN,
        0 <= m < SPECIAL * HIDDEN,
    ensures
        magnitude_scaled(m) != s * pow2(e),
{
    let h = HIDDEN as int;
    let exponent = m / h;
    let fraction = m % h;
    let (t, w) = if exponent == 0 {
        (fraction, 0nat)
    } else {
        (fraction + h, (exponent - 1) as nat)
    };
    lemma_times_pow2_zero(t);
    assert(magnitude_scaled(m) == t * pow2(w));
    if e < w {
        lemma_odd_not_even(s, t, e, w);
    } else {
        if w < e {
            lemma_pow2_strictly_increases(w, e);
        }
        lemma_pow2_pos(w);
        let (pw, pe) = (pow2(w) as int, pow2(e) as int);
        assert(t * pw < s * pe) by (nonlinear_arith)
            requires
                0 <= t < s,
                0 < pw <= pe,
        ;
    }
}

/// A float of at least twice the largest `i64` power of two stands for no
/// `i64`.
proof fn lemma_out_of_range(float: Float64, s: int, e: nat)
    requires
        float.finite(),
        magnitude_scaled(float.magnitude()) == s * pow2(e),
        s > SIGN,
        e >= 1074,
    ensures
        forall|n: i64| !#[trigger] float.is_integer(n as int),
{
    if e > 1074 {
        lemma_pow2_strictly_increases(1074, e);
    }
    lemma_pow2_pos(1074);
    let (one, weight) = (one_scaled(), pow2(e) as int);
    assert forall|n: i64| !#[trigger] float.is_integer(n as int) by {
        assert(s * weight > n * one && s * weight > -(n * one)) by (nonlinear_arith)
            requires
                s > 0x8000_0000_0000_0000int,
                weight >= one > 0,
                -0x8000_0000_0000_0000int <= n < 0x8000_0000_0000_0000int,
        ;
    }
}

/// The magnitude that stands for `a` times the `unit`-th power of two, if
/// there is one. The units that occur keep clear of the subnormal numbers
/// and of overflow.
fn encode(a: u64, unit: u64) -> (magnitude: Option<u64>)
    requires
        1000 <= unit <= 1100,
    ensures
        match magnitude {
            Some(m) => m < SPECIAL * HIDDEN && magnitude_scaled(m as int) == a * pow2(unit as nat),
            None => forall|m: int|
                0 <= m < SPECIAL * HIDDEN ==> #[trigger] magnitude_scaled(m) != a * pow2(
                    unit as nat,
                ),
        },
        a < 2 * HIDDEN ==> magnitude is Some,
        a == 0 ==> magnitude == Some(0u64),
{
    if a == 0 {
        return Some(0);
    }
    let mut s: u64 = a;
    let mut e: u64 = unit;
    proof {
        vstd::arithmetic::power2::lemma2_to64();
        vstd::arithmetic::power2::lemma2_to64_rest();
    }
    while s < HIDDEN
        invariant
            0 < a,
            1000 <= unit <= 1100,
            unit - 53 <= e <= unit,
            e == unit ==> s == a,
            e < unit ==> s < 2 * HIDDEN,
            s >= pow2((unit - e) as nat),
            s * pow2(e as nat) == a * pow2(unit as nat),
        decreases 2 * HIDDEN - s,
    {
        proof {
            lemma_shift_factor(s as int, (e - 1) as nat);
            lemma_pow2_adds((unit - e) as nat, 1);
            vstd::arithmetic::power2::lemma2_to64();
            vstd::arithmetic::power2::lemma2_to64_rest();
            if unit - e >= 53 {
                assert(pow2(53) == 2 * HIDDEN);
            }
            lemma_pow2_pos((unit - e) as nat);
        }
        s = s * 2;
        e = e - 1;
        proof {
            if unit - e > 53 {
                lemma_pow2_strictly_increases(53, (unit - e) as nat);
                assert(pow2(53) == 2 * HIDDEN);
            }
        }
    }
    while s >= 2 * HIDDEN
        invariant
            0 < a,
            1000 <= unit <= 1100,
            unit - 53 <= e <= unit + 64,
            HIDDEN <= s,
            s >= 2 * HIDDEN ==> e >= unit,
            e > unit ==> s * pow2((e - unit) as nat) == a,
            e == unit ==> s == a,
            e < unit ==> s < 2 * HIDDEN,
            s * pow2(e as nat) == a * pow2(unit as nat),
            a < 2 * HIDDEN ==> s < 2 * HIDDEN,
        decreases s,
    {
        if s % 2 == 1 {
            proof {
                assert forall|m: int| 0 <= m < SPECIAL * HIDDEN implies #[trigger] magnitude_scaled(
                    m,
                ) != a * pow2(unit as nat) by {
                    lemma_too_wide(s as int, e as nat, m);
                }
            }
            return None;
        }
        let ghost before = s;
        s = s / 2;
        proof {
            assert(before == 2 * s);
            lemma_shift_factor(s as int, e as nat);
            lemma_shift_factor(s as int, (e - unit) as nat);
            lemma_times_pow2_zero(before as int);
            let weight = pow2((e + 1 - unit) as nat) as int;
            assert(s * weight == a);
            assert(weight <= a) by (nonlinear_arith)
                requires
                    s * weight == a,
                    s >= 1,
                    weight >= 0,
            ;
            if e + 1 - unit > 64 {
                lemma_pow2_strictly_increases(64, (e + 1 - unit) as nat);
                vstd::arithmetic::power2::lemma2_to64_rest();
            }
        }
        e = e + 1;
    }
    let magnitude: u64 = (e + 1) * HIDDEN + (s - HIDDEN);
    assert(magnitude as int / HIDDEN as int == e + 1);
    assert(magnitude as int % HIDDEN as int == s - HIDDEN);
    Some(magnitude)
}

/// The float that stands for an integer exactly, if there is one. Zero is
/// the positive one.
pub open spec fn exact_float(n: int) -> Option<Float64> {
    if exists|v: Float64| v.is_integer(n) && v.negative() == (n < 0) {
        Some(choose|v: Float64| v.is_integer(n) && v.negative() == (n < 0))
    } else {
        None
    }
}

/// The `i64` that a float stands for exactly, if there is one.
pub open spec fn exact_int(v: Float64) -> Option<i64> {
    if exists|n: i64| v.is_integer(n as int) {
        Some(choose|n: i64| v.is_integer(n as int))
    } else {
        None
    }
}

/// A float that stands for an integer, with its sign, is the one.
proof fn lemma_exact_float(v: Float64, n: int)
    requires
        v.is_integer(n),
        v.negative() == (n < 0),
    ensures
        exact_float(n) == Some(v),
{
    let w = choose|w: Float64| w.is_integer(n) && w.negative() == (n < 0);
    assert(v.is_integer(n) && v.negative() == (n < 0));
    lemma_exact_value_unique(v, w);
}

/// An integer that a float stands for is the one.
proof fn lemma_exact_int(v: Float64, n: i64)
    requires
        v.is_integer(n as int),
    ensures
        exact_int(v) == Some(n),
{
    let m = choose|m: i64| v.is_integer(m as int);
    assert(v.is_integer(m as int));
    lemma_pow2_pos(1074);
    let one = one_scaled();
    assert(m == n) by (nonlinear_arith)
        requires
            m * one == n * one,
            one > 0,
    ;
}

/// No conversion loses anything: an integer that fills a float comes back as
/// itself.
pub proof fn lemma_conversion_round_trip(n: i64)
    ensures
        exact_float(n as int) matches Some(v) ==> exact_int(v) == Some(n),
{
    if exact_float(n as int) is Some {
        lemma_exact_int(exact_float(n as int)->0, n);
    }
}

/// The exact conversion of an integer, or `None` where rounding would occur
/// (beyond plus or minus the fifty-third power of two not every integer is
/// representable).
pub fn int_as_f64_exact(integer: i64) -> (value: Option<Float64>)
    ensures
        match value {
            Some(v) => v.is_integer(integer as int),
            None => forall|v: Float64| !#[trigger] v.is_integer(integer as int),
        },
        value == exact_float(integer as int),
        -2 * HIDDEN < integer < 2 * HIDDEN ==> value is Some,
{
    let a: u64 = if integer >= 0 {
        integer as u64
    } else if integer == i64::MIN {
        SIGN
    } else {
        (-integer) as u64
    };
    match encode(a, 1074) {
        Some(magnitude) => {
            let bits: u64 = if integer < 0 {
                magnitude + SIGN
            } else {
                magnitude
            };
            let v = Float64 { bits };
            proof {
                assert(v.magnitude() == magnitude);
                let one = one_scaled();
                assert((-(a as int)) * one == -(a * one)) by (nonlinear_arith);
                lemma_exact_float(v, integer as int);
            }
            Some(v)
        },
        None => {
            proof {
                assert forall|v: Float64| !#[trigger] v.is_integer(integer as int) by {
                    let m = v.magnitude();
                    let one = one_scaled();
                    if v.is_integer(integer as int) {
                        assert(0 <= m < SPECIAL * HIDDEN);
                        assert(magnitude_scaled(m) != a * pow2(1074));
                        lemma_pow2_pos(1074);
                        assert(a > 0);
                        assert((-(a as int)) * one == -(a * one)) by (nonlinear_arith);
                        assert(a * one > 0) by (nonlinear_arith)
                            requires
                                a > 0,
                                one > 0,
                        ;
                        assert(magnitude_scaled(m) >= 0) by {
                            if m > 0 {
                                lemma_magnitude_order(0, m);
                            }
                        }
                    }
                }
            }
            None
        },
    }
}

/// The exact conversion to an integer: integral and in range, or `None`. The
/// infinities and the NaNs have none.
pub fn float_as_i64_exact(float: Float64) -> (value: Option<i64>)
    ensures
        match value {
            Some(n) => float.is_integer(n as int),
            None => forall|n: i64| !#[trigger] float.is_integer(n as int),
        },
        value == exact_int(float),
{
    let value: Option<i64> = integral_value(float);
    proof {
        if let Some(n) = value {
            lemma_exact_int(float, n);
        }
    }
    value
}

/// The integer a float stands for, if it is an `i64`.
fn integral_value(float: Float64) -> (value: Option<i64>)
    ensures
        match value {
            Some(n) => float.is_integer(n as int),
            None => forall|n: i64| !#[trigger] float.is_integer(n as int),
        },
{
    let magnitude: u64 = float.bits % SIGN;
    let exponent: u64 = magnitude / HIDDEN;
    let fraction: u64 = magnitude % HIDDEN;
    if exponent == SPECIAL {
        return None;
    }
    if magnitude == 0 {
        return Some(0);
    }
    let mut s: u64 = if exponent == 0 {
        fraction
    } else {
        fraction + HIDDEN
    };
    let mut e: u64 = if exponent == 0 {
        0
    } else {
        exponent - 1
    };
    let ghost exact = magnitude_scaled(magnitude as int);
    proof {
        vstd::arithmetic::power2::lemma2_to64();
        vstd::arithmetic::power2::lemma2_to64_rest();
        assert(float.magnitude() == magnitude);
        lemma_times_pow2_zero(s as int);
        assert(exact == s * pow2(e as nat));
    }
    while e < 1074
        invariant
            e <= 2046,
            0 < s,
            s < 2 * HIDDEN,
            float.finite(),
            exact == magnitude_scaled(float.magnitude()),
            exact == s * pow2(e as nat),
        decreases 2046 - e,
    {
        if s % 2 == 1 {
            proof {
                assert forall|n: i64| !#[trigger] float.is_integer(n as int) by {
                    lemma_odd_not_even(s as int, n as int, e as nat, 1074);
                    lemma_odd_not_even(s as int, -(n as int), e as nat, 1074);
                    let one = one_scaled();
                    assert((-(n as int)) * one == -(n * one)) by (nonlinear_arith);
                }
            }
            return None;
        }
        let ghost before = s;
        s = s / 2;
        proof {
            assert(before == 2 * s);
            lemma_shift_factor(s as int, e as nat);
        }
        e = e + 1;
    }
    while e > 1074
        invariant
            1074 <= e <= 2046,
            0 < s <= SIGN,
            float.finite(),
            exact == magnitude_scaled(float.magnitude()),
            exact == s * pow2(e as nat),
        decreases e,
    {
        if s > SIGN / 2 {
            proof {
                lemma_shift_factor(s as int, (e - 1) as nat);
                lemma_out_of_range(float, 2 * s as int, (e - 1) as nat);
            }
            return None;
        }
        proof {
            lemma_shift_factor(s as int, (e - 1) as nat);
        }
        s = s * 2;
        e = e - 1;
    }
    let ghost one = one_scaled();
    assert((-(s as int)) * one == -(s * one)) by (nonlinear_arith);
    if float.bits >= SIGN {
        if s == SIGN {
            Some(i64::MIN)
        } else {
            Some(-(s as i64))
        }
    } else {
        if s == SIGN {
            proof {
                lemma_pow2_pos(1074);
                assert forall|n: i64| !#[trigger] float.is_integer(n as int) by {
                    assert(n * one != s * one) by (nonlinear_arith)
                        requires
                            one > 0,
                            n != s,
                    ;
                }
            }
            None
        } else {
            Some(s as i64)
        }
    }
}

/// The float is the top fifty-three bits of `u`, as a fraction of one: in
/// `[0, 1)`.
pub open spec fn is_unit(value: Float64, u: u64) -> bool {
    &&& !value.negative()
    &&& value.finite()
    &&& value.scaled() == (u >> 11) as int * pow2(1021)
}

/// The uniform float in `[0, 1)` that `u` stands for.
pub open spec fn unit_float(u: u64) -> Float64 {
    choose|value: Float64| is_unit(value, u)
}

/// Two floats of one sign with one exact value are the same.
pub proof fn lemma_exact_value_unique(a: Float64, b: Float64)
    requires
        a.finite(),
        b.finite(),
        a.negative() == b.negative(),
        a.scaled() == b.scaled(),
    ensures
        a == b,
{
    let (ma, mb) = (a.magnitude(), b.magnitude());
    if ma < mb {
        lemma_magnitude_order(ma, mb);
    }
    if mb < ma {
        lemma_magnitude_order(mb, ma);
    }
}

/// A number of at most fifty-three bits times a power of two has a magnitude,
/// where `room` doublings bring it to full width.
proof fn lemma_magnitude_exists(s: int, e: nat, room: nat) -> (m: int)
    requires
        0 < s < 2 * HIDDEN,
        s * pow2(room) >= HIDDEN,
        room <= e <= 1100,
    ensures
        0 <= m < SPECIAL * HIDDEN,
        magnitude_scaled(m) == s * pow2(e),
    decreases room,
{
    let h = HIDDEN as int;
    if s >= h {
        let m = (e + 1) * h + (s - h);
        assert(m / h == e + 1 && m % h == s - h);
        m
    } else {
        lemma_times_pow2_zero(s);
        lemma_shift_factor(s, (e - 1) as nat);
        lemma_shift_factor(s, (room - 1) as nat);
        lemma_magnitude_exists(2 * s, (e - 1) as nat, (room - 1) as nat)
    }
}

/// Every number has its uniform float, and it is not negative.
pub proof fn lemma_unit_exists(u: u64)
    ensures
        is_unit(unit_float(u), u),
        unit_float(u).rank() >= 0,
        !unit_float(u).nan(),
{
    assert(u >> 11 < 0x20_0000_0000_0000) by (bit_vector);
    let top = (u >> 11) as int;
    let m = if top == 0 {
        0
    } else {
        vstd::arithmetic::power2::lemma2_to64();
        vstd::arithmetic::power2::lemma2_to64_rest();
        let full = pow2(52) as int;
        assert(full == HIDDEN);
        assert(top * full >= full) by (nonlinear_arith)
            requires
                top >= 1,
                full > 0,
        ;
        lemma_magnitude_exists(top, 1021, 52)
    };
    let value = Float64 { bits: m as u64 };
    assert(magnitude_scaled(0) == 0);
    assert(0 * pow2(1021) == 0);
    assert(is_unit(value, u));
}

/// The float one stands for the integer one.
pub proof fn lemma_one()
    ensures
        (Float64 { bits: ONE }).finite(),
        (Float64 { bits: ONE }).scaled() == one_scaled(),
        (Float64 { bits: ONE }).is_integer(1),
{
    vstd::arithmetic::power2::lemma2_to64();
    vstd::arithmetic::power2::lemma2_to64_rest();
    let one = Float64 { bits: ONE };
    lemma_pow2_adds(52, 1022);
    assert(one.magnitude() / (HIDDEN as int) == 1023 && one.magnitude() % (HIDDEN as int) == 0);
    assert(one.scaled() == HIDDEN * pow2(1022));
}

/// A uniform float is below one.
pub proof fn lemma_unit_below_one(u: u64)
    ensures
        unit_float(u).below(Float64 { bits: ONE }),
{
    lemma_unit_exists(u);
    assert(u >> 11 < 0x20_0000_0000_0000) by (bit_vector);
    vstd::arithmetic::power2::lemma2_to64();
    vstd::arithmetic::power2::lemma2_to64_rest();
    let one = Float64 { bits: ONE };
    let weight = pow2(1021) as int;
    lemma_pow2_pos(1021);
    lemma_pow2_adds(53, 1021);
    lemma_pow2_adds(52, 1022);
    assert(one.magnitude() / (HIDDEN as int) == 1023 && one.magnitude() % (HIDDEN as int) == 0);
    assert(one.scaled() == HIDDEN * pow2(1022));
    assert(one.scaled() == pow2(53) * weight);
    assert((u >> 11) as int * weight < pow2(53) as int * weight) by (nonlinear_arith)
        requires
            (u >> 11) as int * 1 < pow2(53) as int,
            weight > 0,
    ;
    lemma_order_is_exact(unit_float(u), one);
}

/// The top fifty-three bits of `u` as a fraction of one.
pub fn unit_from(u: u64) -> (value: Float64)
    ensures
        value == unit_float(u),
        is_unit(value, u),
{
    let top: u64 = u >> 11;
    assert(u >> 11 < 0x20_0000_0000_0000) by (bit_vector);
    match encode(top, 1021) {
        Some(magnitude) => {
            let value = Float64 { bits: magnitude };
            proof {
                assert(is_unit(value, u));
                lemma_exact_value_unique(value, unit_float(u));
            }
            value
        },
        None => Float64 { bits: 0 },
    }
}

} // verus!
