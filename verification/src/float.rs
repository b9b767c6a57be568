//! Floats as IEEE-754 binary64 bit patterns, and what can be decided on the bits.
//!
//! A float value is a `u64`: one sign bit, eleven exponent bits, fifty-two
//! fraction bits. Sign, zero, finiteness, the IEEE ordering and the conversions
//! to and from 64-bit integers are computed here with integer arithmetic.
//! Addition, multiplication and the other rounding operations are not: they
//! are named by [`FloatOp`] and carried out by the embedding program.

use vstd::arithmetic::div_mod::lemma_div_by_multiple;
use vstd::prelude::*;
use vstd::arithmetic::power2::{
    lemma2_to64, lemma2_to64_rest, lemma_pow2_adds, lemma_pow2_pos,
    lemma_pow2_strictly_increases, lemma_pow2_unfold, pow2,
};

verus! {

/// The sign bit of a float.
pub const SIGN_BIT: u64 = 0x8000_0000_0000_0000;

/// Positive infinity.
pub const INFINITY_BITS: u64 = 0x7FF0_0000_0000_0000;

/// The float `1.0`.
pub const ONE_BITS: u64 = 0x3FF0_0000_0000_0000;

/// The difference between `1.0` and the next larger float, `2^-52`.
pub const EPSILON_BITS: u64 = 0x3CB0_0000_0000_0000;

/// `2^52`: the weight of the implicit leading bit of a normal float's significand.
pub const HIDDEN_BIT: u64 = 0x0010_0000_0000_0000;

/// The float operations that round, which the embedding program performs.
#[derive(Debug, Clone, Copy, PartialEq, Eq, Structural)]
pub enum FloatOp {
    Add,
    Sub,
    Mul,
    Div,
    Rem,
    Pow,
}

/// The bits of `bits` without its sign.
pub open spec fn magnitude(bits: u64) -> u64 {
    if bits >= SIGN_BIT {
        (bits - SIGN_BIT) as u64
    } else {
        bits
    }
}

/// Whether the sign bit is set.
pub open spec fn is_negative(bits: u64) -> bool {
    bits >= SIGN_BIT
}

/// Whether the bits are a NaN.
pub open spec fn is_nan(bits: u64) -> bool {
    magnitude(bits) > INFINITY_BITS
}

/// Neither infinite nor NaN.
pub open spec fn is_finite(bits: u64) -> bool {
    magnitude(bits) < INFINITY_BITS
}

/// Positive or negative zero.
pub open spec fn is_zero(bits: u64) -> bool {
    magnitude(bits) == 0
}

/// The float with the opposite sign.
pub open spec fn negated(bits: u64) -> u64 {
    if bits >= SIGN_BIT {
        (bits - SIGN_BIT) as u64
    } else {
        (bits + SIGN_BIT) as u64
    }
}

/// An integer that orders the floats other than NaN as IEEE comparison does:
/// both zeros map to 0, and a larger float maps to a larger key.
pub open spec fn order_key(bits: u64) -> int {
    if is_negative(bits) {
        -(magnitude(bits) as int)
    } else {
        magnitude(bits) as int
    }
}

/// IEEE `<`: false when either side is NaN.
pub open spec fn less(a: u64, b: u64) -> bool {
    !is_nan(a) && !is_nan(b) && order_key(a) < order_key(b)
}

/// IEEE `<=`: false when either side is NaN.
pub open spec fn less_equal(a: u64, b: u64) -> bool {
    !is_nan(a) && !is_nan(b) && order_key(a) <= order_key(b)
}

/// Whether the absolute value of `diff` is below `2^-52`; false for NaN.
pub open spec fn within_epsilon(diff: u64) -> bool {
    magnitude(diff) < EPSILON_BITS
}

/// The float for a boolean: `1.0` or `0.0`.
pub open spec fn of_bool(b: bool) -> u64 {
    if b {
        ONE_BITS
    } else {
        0
    }
}

/// The position of the highest set bit of `m`: the `k` with `2^k <= m < 2^(k+1)`.
pub open spec fn floor_log2(m: nat) -> nat
    decreases m,
{
    if m <= 1 {
        0
    } else {
        1 + floor_log2(m / 2)
    }
}

/// The significand, in `[2^52, 2^53]`, of the float nearest to `m > 0` whose
/// highest set bit is bit `k`: `m` scaled to 53 bits, ties rounded to even.
pub open spec fn rounded_significand(m: nat, k: nat) -> nat {
    if k <= 52 {
        m * pow2((52 - k) as nat)
    } else {
        let d = pow2((k - 52) as nat);
        let q = m / d;
        let r = m % d;
        if 2 * r > d || (2 * r == d && q % 2 == 1) {
            q + 1
        } else {
            q
        }
    }
}

/// The float nearest to the integer `v`, ties to even.
pub open spec fn of_int(v: i64) -> u64 {
    if v == 0 {
        0
    } else {
        let m: nat = if v < 0 { (-(v as int)) as nat } else { v as nat };
        let k = floor_log2(m);
        let sign: nat = if v < 0 { SIGN_BIT as nat } else { 0 };
        (sign + (k + 1023) * HIDDEN_BIT + (rounded_significand(m, k) - HIDDEN_BIT)) as u64
    }
}

/// The integer part of a float that is not NaN, rounded toward zero.
pub open spec fn truncated(bits: u64) -> int {
    let mag = magnitude(bits);
    let e = (mag / HIDDEN_BIT) as int;
    let frac = (mag % HIDDEN_BIT) as int;
    if e < 1023 {
        0
    } else {
        let m = frac + HIDDEN_BIT;
        let abs = if e >= 1075 {
            m * pow2((e - 1075) as nat)
        } else {
            m / (pow2((1075 - e) as nat) as int)
        };
        if is_negative(bits) {
            -abs
        } else {
            abs
        }
    }
}

/// The integer for a float: its integer part, brought into the 64-bit range;
/// 0 for NaN.
pub open spec fn to_int(bits: u64) -> i64 {
    if is_nan(bits) {
        0
    } else if truncated(bits) > i64::MAX {
        i64::MAX
    } else if truncated(bits) < i64::MIN {
        i64::MIN
    } else {
        truncated(bits) as i64
    }
}

/// The integer zero converts to the float zero.
pub proof fn lemma_zero_of_int()
    ensures
        of_int(0) == 0,
        is_zero(of_int(0)),
{
}

/// The bits of the float without its sign: its absolute value.
pub fn float_magnitude(bits: u64) -> (r: u64)
    ensures
        r == magnitude(bits),
        r < SIGN_BIT,
{
    if bits >= SIGN_BIT {
        bits - SIGN_BIT
    } else {
        bits
    }
}

/// Whether the float is a NaN.
pub fn float_is_nan(bits: u64) -> (r: bool)
    ensures
        r == is_nan(bits),
{
    float_magnitude(bits) > INFINITY_BITS
}

/// Whether the float is neither infinite nor a NaN.
pub fn float_is_finite(bits: u64) -> (r: bool)
    ensures
        r == is_finite(bits),
{
    float_magnitude(bits) < INFINITY_BITS
}

/// Whether the float is positive or negative zero.
pub fn float_is_zero(bits: u64) -> (r: bool)
    ensures
        r == is_zero(bits),
{
    float_magnitude(bits) == 0
}

/// The float with the opposite sign.
pub fn float_negate(bits: u64) -> (r: u64)
    ensures
        r == negated(bits),
        magnitude(r) == magnitude(bits),
        is_negative(r) != is_negative(bits),
{
    if bits >= SIGN_BIT {
        bits - SIGN_BIT
    } else {
        bits + SIGN_BIT
    }
}

/// IEEE `a < b`.
pub fn float_less(a: u64, b: u64) -> (r: bool)
    ensures
        r == less(a, b),
{
    if float_is_nan(a) || float_is_nan(b) {
        return false;
    }
    let ma = float_magnitude(a);
    let mb = float_magnitude(b);
    if a >= SIGN_BIT {
        if b >= SIGN_BIT {
            ma > mb
        } else {
            ma > 0 || mb > 0
        }
    } else {
        if b >= SIGN_BIT {
            false
        } else {
            ma < mb
        }
    }
}

/// IEEE `a <= b`.
pub fn float_less_equal(a: u64, b: u64) -> (r: bool)
    ensures
        r == less_equal(a, b),
{
    if float_is_nan(a) || float_is_nan(b) {
        return false;
    }
    let ma = float_magnitude(a);
    let mb = float_magnitude(b);
    if a >= SIGN_BIT {
        if b >= SIGN_BIT {
            ma >= mb
        } else {
            true
        }
    } else {
        if b >= SIGN_BIT {
            ma == 0 && mb == 0
        } else {
            ma <= mb
        }
    }
}

/// Whether the absolute value of the float is below `2^-52`.
pub fn float_within_epsilon(diff: u64) -> (r: bool)
    ensures
        r == within_epsilon(diff),
{
    float_magnitude(diff) < EPSILON_BITS
}

/// The float for a boolean: `1.0` or `0.0`.
pub fn float_of_bool(b: bool) -> (r: u64)
    ensures
        r == of_bool(b),
{
    if b {
        ONE_BITS
    } else {
        0
    }
}

/// `2^n` for `n < 64`.
fn power_of_two(n: u32) -> (r: u64)
    requires
        n < 64,
    ensures
        r == pow2(n as nat),
        r >= 1,
{
    let mut r: u64 = 1;
    let mut i: u32 = 0;
    proof {
        lemma2_to64();
    }
    while i < n
        invariant
            i <= n,
            n < 64,
            r == pow2(i as nat),
            r >= 1,
        decreases n - i,
    {
        proof {
            lemma_pow2_unfold((i + 1) as nat);
            lemma_pow2_strictly_increases((i + 1) as nat, 64);
            lemma2_to64_rest();
        }
        r = r * 2;
        i = i + 1;
    }
    r
}

/// When `2^k <= m < 2^(k+1)`, the highest set bit of `m` is bit `k`.
proof fn lemma_floor_log2_bounds(m: nat, k: nat)
    requires
        pow2(k) <= m < pow2(k + 1),
    ensures
        floor_log2(m) == k,
    decreases k,
{
    lemma2_to64();
    if k == 0 {
        lemma_pow2_unfold(1);
        assert(m == 1);
    } else {
        lemma_pow2_unfold(k);
        lemma_pow2_unfold(k + 1);
        lemma_pow2_pos((k - 1) as nat);
        assert(m >= 2);
        lemma_floor_log2_bounds(m / 2, (k - 1) as nat);
    }
}

/// The float nearest to `v`, ties to even.
pub fn float_of_int(v: i64) -> (r: u64)
    ensures
        r == of_int(v),
{
    if v == 0 {
        return 0;
    }
    let sign: u64 = if v < 0 { SIGN_BIT } else { 0 };
    let m: u64 = if v == i64::MIN {
        SIGN_BIT
    } else if v < 0 {
        (-v) as u64
    } else {
        v as u64
    };
    let mut k: u32 = 0;
    let mut p: u64 = 1;
    proof {
        lemma2_to64();
        lemma2_to64_rest();
    }
    while k < 63 && m / 2 >= p
        invariant
            k <= 63,
            p == pow2(k as nat),
            p <= m,
            m <= SIGN_BIT,
        decreases 63 - k,
    {
        proof {
            lemma_pow2_unfold((k + 1) as nat);
        }
        p = p * 2;
        k = k + 1;
    }
    proof {
        lemma_pow2_unfold((k + 1) as nat);
        if k == 63 {
            assert(pow2(64) == 0x1_0000_0000_0000_0000);
        }
        assert(m < pow2((k + 1) as nat));
        lemma_floor_log2_bounds(m as nat, k as nat);
    }
    let body: u64 = if k <= 52 {
        let scale = power_of_two(52 - k);
        proof {
            lemma_pow2_adds(k as nat, (52 - k) as nat);
            lemma_pow2_adds((k + 1) as nat, (52 - k) as nat);
            assert(pow2(52) == HIDDEN_BIT);
            assert(pow2(53) == 2 * HIDDEN_BIT);
            assert(p * scale == HIDDEN_BIT);
            assert(m * scale >= p * scale) by (nonlinear_arith)
                requires
                    m >= p,
                    scale >= 1,
            ;
            assert(m * scale < pow2((k + 1) as nat) * scale) by (nonlinear_arith)
                requires
                    m < pow2((k + 1) as nat),
                    scale >= 1,
            ;
        }
        m * scale
    } else {
        let d = power_of_two(k - 52);
        let q = m / d;
        let rem = m % d;
        proof {
            lemma_pow2_adds(52, (k - 52) as nat);
            lemma_pow2_adds(53, (k - 52) as nat);
            assert(pow2(52) == HIDDEN_BIT);
            assert(pow2(53) == 2 * HIDDEN_BIT);
            assert(HIDDEN_BIT * d == p);
            assert(2 * HIDDEN_BIT * d == pow2((k + 1) as nat));
            assert(q >= HIDDEN_BIT) by (nonlinear_arith)
                requires
                    q == m / d,
                    d >= 1,
                    m >= HIDDEN_BIT * d,
            ;
            assert(q < 2 * HIDDEN_BIT) by (nonlinear_arith)
                requires
                    q == m / d,
                    d >= 1,
                    m < 2 * HIDDEN_BIT * d,
            ;
        }
        let half = d / 2;
        let up = rem > half || (rem == half && d % 2 == 0 && q % 2 == 1);
        proof {
            lemma_pow2_unfold((k - 52) as nat);
            assert(d % 2 == 0);
            assert(2 * half == d);
        }
        if up {
            q + 1
        } else {
            q
        }
    };
    assert(body == rounded_significand(m as nat, k as nat));
    assert(HIDDEN_BIT <= body <= 2 * HIDDEN_BIT);
    sign + (k as u64 + 1023) * HIDDEN_BIT + (body - HIDDEN_BIT)
}

/// The integer part of a float, brought into the 64-bit range; 0 for NaN.
pub fn float_to_int(bits: u64) -> (r: i64)
    ensures
        r == to_int(bits),
{
    let mag = float_magnitude(bits);
    if mag > INFINITY_BITS {
        return 0;
    }
    let negative = bits >= SIGN_BIT;
    let e = mag / HIDDEN_BIT;
    let frac = mag % HIDDEN_BIT;
    if e < 1023 {
        return 0;
    }
    let m = frac + HIDDEN_BIT;
    proof {
        lemma2_to64();
        lemma2_to64_rest();
    }
    if e >= 1086 {
        proof {
            if e > 1086 {
                lemma_pow2_strictly_increases(11, (e - 1075) as nat);
            }
            assert(pow2(11) == 2048);
            assert(m * pow2((e - 1075) as nat) >= HIDDEN_BIT * 2048) by (nonlinear_arith)
                requires
                    m >= HIDDEN_BIT,
                    pow2((e - 1075) as nat) >= 2048,
            ;
        }
        return if negative { i64::MIN } else { i64::MAX };
    }
    let abs: u64 = if e >= 1075 {
        let scale = power_of_two((e - 1075) as u32);
        proof {
            if e < 1085 {
                lemma_pow2_strictly_increases((e - 1075) as nat, 10);
            }
            assert(scale <= 1024);
            assert(m * scale < 2 * HIDDEN_BIT * 1024) by (nonlinear_arith)
                requires
                    m < 2 * HIDDEN_BIT,
                    scale <= 1024,
            ;
        }
        m * scale
    } else {
        let d = power_of_two((1075 - e) as u32);
        m / d
    };
    if negative {
        if abs >= SIGN_BIT {
            i64::MIN
        } else {
            -(abs as i64)
        }
    } else {
        if abs >= SIGN_BIT {
            i64::MAX
        } else {
            abs as i64
        }
    }
}

/// The highest set bit of `m >= 1` is bit `floor_log2(m)`.
proof fn lemma_floor_log2_is_highest(m: nat)
    requires
        m >= 1,
    ensures
        pow2(floor_log2(m)) <= m < pow2(floor_log2(m) + 1),
    decreases m,
{
    lemma2_to64();
    if m == 1 {
        lemma_pow2_unfold(1);
    } else {
        lemma_floor_log2_is_highest(m / 2);
        let k = floor_log2(m / 2);
        lemma_pow2_unfold(k + 1);
        lemma_pow2_unfold(k + 2);
    }
}

/// An integer of at most 53 bits is a float exactly: converting it to a
/// float and back gives the integer.
pub proof fn law_small_integers_are_exact(v: i64)
    requires
        -0x20_0000_0000_0000 <= v <= 0x20_0000_0000_0000,
    ensures
        to_int(of_int(v)) == v,
        is_finite(of_int(v)),
{
    lemma2_to64();
    lemma2_to64_rest();
    if v != 0 {
        let m: nat = if v < 0 { (-(v as int)) as nat } else { v as nat };
        let k = floor_log2(m);
        lemma_floor_log2_is_highest(m);
        if k > 53 {
            lemma_pow2_strictly_increases(53, k);
        }
        assert(k <= 53);
        let body = rounded_significand(m, k);
        if k <= 52 {
            let scale = pow2((52 - k) as nat);
            lemma_pow2_pos((52 - k) as nat);
            lemma_pow2_adds(k, (52 - k) as nat);
            lemma_pow2_adds(k + 1, (52 - k) as nat);
            assert(m * scale >= pow2(k) * scale) by (nonlinear_arith)
                requires
                    m >= pow2(k),
                    scale >= 1,
            ;
            assert(m * scale < pow2(k + 1) * scale) by (nonlinear_arith)
                requires
                    m < pow2(k + 1),
                    scale >= 1,
            ;
            assert(HIDDEN_BIT <= body < 2 * HIDDEN_BIT);
            lemma_div_by_multiple(m as int, scale as int);
        } else {
            lemma_pow2_unfold(1);
            assert(m == 0x20_0000_0000_0000);
            assert(body == HIDDEN_BIT);
        }
        let sign: nat = if v < 0 { SIGN_BIT as nat } else { 0 };
        let tail = body - HIDDEN_BIT;
        let bits = of_int(v);
        assert(bits == sign + (k + 1023) * HIDDEN_BIT + tail);
        let mag = magnitude(bits);
        assert(mag == (k + 1023) * HIDDEN_BIT + tail);
        assert(mag / HIDDEN_BIT == k + 1023 && mag % HIDDEN_BIT == tail) by (nonlinear_arith)
            requires
                mag == (k + 1023) * HIDDEN_BIT + tail,
                0 <= tail < HIDDEN_BIT,
                HIDDEN_BIT == 0x0010_0000_0000_0000,
        ;
        let e = (mag / HIDDEN_BIT) as int;
        let full = (mag % HIDDEN_BIT) as int + HIDDEN_BIT;
        assert(e == k + 1023 && full == body);
        assert(is_negative(bits) == (v < 0));
        if k >= 52 {
            assert(pow2(0) == 1 && pow2(1) == 2);
            assert((e - 1075) as nat == k - 52);
            if k == 52 {
                assert(body == m * pow2(0));
                assert(m * 1 == m);
            }
            assert(full * pow2((e - 1075) as nat) == m) by (nonlinear_arith)
                requires
                    k == 52 ==> full == m && pow2((e - 1075) as nat) == 1,
                    k == 53 ==> full * 2 == m && pow2((e - 1075) as nat) == 2,
                    k == 52 || k == 53,
            ;
        } else {
            let scale = pow2((52 - k) as nat);
            assert((1075 - e) as nat == 52 - k);
            assert(full / (scale as int) == m) by {
                lemma_div_by_multiple(m as int, scale as int);
            }
        }
        assert(truncated(bits) == (if v < 0 { -(m as int) } else { m as int }));
    }
}

} // verus!
