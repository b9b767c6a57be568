//! 64-bit integer arithmetic that wraps and tells when it overflowed.

use vstd::arithmetic::div_mod::{lemma_mul_mod_noop_left, lemma_mul_mod_noop_right};
use vstd::arithmetic::power::{lemma_pow0, lemma_pow1, lemma_pow_mod_noop, lemma_pow_multiplies, pow};
use vstd::prelude::*;

verus! {

/// Whether `x` can be held in 64 bits.
pub open spec fn fits(x: int) -> bool {
    i64::MIN <= x <= i64::MAX
}

/// The 64-bit integer that is congruent to `x` modulo `2^64`.
pub open spec fn wrapped(x: int) -> i64 {
    let m = x % 0x1_0000_0000_0000_0000;
    if m >= 0x8000_0000_0000_0000 {
        (m - 0x1_0000_0000_0000_0000) as i64
    } else {
        m as i64
    }
}

/// The quotient of `x` by `d`, rounded toward zero.
pub open spec fn truncating_quotient(x: int, d: int) -> int
    recommends
        d != 0,
{
    if x >= 0 && d > 0 {
        x / d
    } else if x < 0 && d < 0 {
        (-x) / (-d)
    } else if x < 0 {
        -((-x) / d)
    } else {
        -(x / (-d))
    }
}

/// The remainder of `x` by `d` that has the sign of `x`.
pub open spec fn truncating_remainder(x: int, d: int) -> int
    recommends
        d != 0,
{
    if x >= 0 && d > 0 {
        x % d
    } else if x < 0 && d < 0 {
        -((-x) % (-d))
    } else if x < 0 {
        -((-x) % d)
    } else {
        x % (-d)
    }
}

/// Multiplying a power that does not fit in 64 bits by a base of at least 2 in
/// absolute value gives one that does not fit either.
proof fn lemma_power_stays_out(x: int, k: nat, e: nat)
    requires
        x >= 2 || x <= -2,
        k <= e,
        !fits(pow(x, k)),
    ensures
        !fits(pow(x, e)),
    decreases e - k,
{
    if k < e {
        let p = pow(x, k);
        assert(pow(x, k + 1) == x * p) by {
            reveal(pow);
        }
        assert(!fits(x * p)) by (nonlinear_arith)
            requires
                x >= 2 || x <= -2,
                p > 0x7FFF_FFFF_FFFF_FFFF || p < -0x8000_0000_0000_0000,
        ;
        lemma_power_stays_out(x, k + 1, e);
    }
}

proof fn lemma_power_of_small_base(x: int, e: nat)
    requires
        -1 <= x <= 1,
    ensures
        -1 <= pow(x, e) <= 1,
    decreases e,
{
    reveal(pow);
    if e > 0 {
        lemma_power_of_small_base(x, (e - 1) as nat);
        let p = pow(x, (e - 1) as nat);
        assert(-1 <= x * p <= 1) by (nonlinear_arith)
            requires
                -1 <= x <= 1,
                -1 <= p <= 1,
        ;
    }
}

proof fn lemma_multiply_step(r: int, base: int, n: nat, m: int)
    requires
        n > 0,
        m > 0,
    ensures
        (((r * base) % m) * pow(base, (n - 1) as nat)) % m == (r * pow(base, n)) % m,
{
    let p = pow(base, (n - 1) as nat);
    assert(pow(base, n) == base * p) by {
        reveal(pow);
    }
    assert(r * (base * p) == (r * base) * p) by (nonlinear_arith);
    lemma_mul_mod_noop_left(r * base, p, m);
}

proof fn lemma_square_step(r: int, base: int, n: nat, m: int)
    requires
        n % 2 == 0,
        m > 0,
    ensures
        (r * pow((base * base) % m, n / 2)) % m == (r * pow(base, n)) % m,
{
    let k = n / 2;
    assert(pow(base, 2) == base * base) by {
        reveal_with_fuel(pow, 3);
    }
    lemma_pow_multiplies(base, 2, k);
    assert(2 * k == n);
    assert(pow(base * base, k) == pow(base, n));
    lemma_pow_mod_noop(base * base, k, m);
    let a = pow((base * base) % m, k);
    let b = pow(base * base, k);
    lemma_mul_mod_noop_right(r, a, m);
    lemma_mul_mod_noop_right(r, b, m);
}

/// `x + y`, wrapped, and whether it overflowed.
pub fn overflowing_add(x: i64, y: i64) -> (r: (i64, bool))
    ensures
        r.0 == wrapped(x + y),
        r.1 == !fits(x + y),
{
    (x.wrapping_add(y), x.checked_add(y).is_none())
}

/// `x - y`, wrapped, and whether it overflowed.
pub fn overflowing_sub(x: i64, y: i64) -> (r: (i64, bool))
    ensures
        r.0 == wrapped(x - y),
        r.1 == !fits(x - y),
{
    (x.wrapping_sub(y), x.checked_sub(y).is_none())
}

/// `x * y`, wrapped, and whether it overflowed.
pub fn overflowing_mul(x: i64, y: i64) -> (r: (i64, bool))
    ensures
        r.0 == wrapped(x * y),
        r.1 == !fits(x * y),
{
    (x.wrapping_mul(y), x.checked_mul(y).is_none())
}

/// `-x`, wrapped, and whether it overflowed.
pub fn overflowing_neg(x: i64) -> (r: (i64, bool))
    ensures
        r.0 == wrapped(-x),
        r.1 == !fits(-x),
{
    if x == i64::MIN {
        (i64::MIN, true)
    } else {
        (-x, false)
    }
}

/// The quotient of `x` by `d != 0`, rounded toward zero and wrapped, and
/// whether it overflowed.
pub fn overflowing_div(x: i64, d: i64) -> (r: (i64, bool))
    requires
        d != 0,
    ensures
        r.0 == wrapped(truncating_quotient(x as int, d as int)),
        r.1 == !fits(truncating_quotient(x as int, d as int)),
{
    match x.checked_div(d) {
        Some(q) => (q, false),
        None => {
            assert(x == i64::MIN && d == -1) by {
                if !(x == i64::MIN && d == -1) {
                    lemma_quotient_fits(x as int, d as int);
                }
            }
            (i64::MIN, true)
        },
    }
}

/// The remainder of `x` by `d != 0` that has the sign of `x`, and whether the
/// division overflowed.
pub fn overflowing_rem(x: i64, d: i64) -> (r: (i64, bool))
    requires
        d != 0,
    ensures
        r.0 == truncating_remainder(x as int, d as int),
        r.1 == !fits(truncating_quotient(x as int, d as int)),
{
    proof {
        if !(x == i64::MIN && d == -1) {
            lemma_quotient_fits(x as int, d as int);
        }
    }
    match x.checked_rem(d) {
        Some(m) => (m, false),
        None => (0, true),
    }
}

/// A quotient is no larger in absolute value than what was divided, so it
/// fits unless it is `-2^63 / -1`.
proof fn lemma_quotient_fits(x: int, d: int)
    requires
        fits(x),
        fits(d),
        d != 0,
        !(x == i64::MIN && d == -1),
    ensures
        fits(truncating_quotient(x, d)),
        fits(truncating_remainder(x, d)),
{
    let ax = if x < 0 { -x } else { x };
    let ad = if d < 0 { -d } else { d };
    assert(0 <= ax / ad <= ax && 0 <= ax % ad < ad) by (nonlinear_arith)
        requires
            ax >= 0,
            ad > 0,
    ;
    if ad == 1 {
        assert(ax / ad == ax) by (nonlinear_arith)
            requires
                ad == 1,
        ;
    } else {
        assert(ax / ad <= ax / 2) by (nonlinear_arith)
            requires
                ax >= 0,
                ad >= 2,
        ;
    }
}

/// `x` to the power `e`, wrapped, and whether it overflowed.
pub fn overflowing_pow(x: i64, e: u32) -> (r: (i64, bool))
    ensures
        r.0 == wrapped(pow(x as int, e as nat)),
        r.1 == !fits(pow(x as int, e as nat)),
{
    let ghost target = pow(x as int, e as nat);
    let ghost m: int = 0x1_0000_0000_0000_0000;
    let start: u64 = if x >= 0 {
        x as u64
    } else {
        u64::MAX - ((-(x + 1)) as u64)
    };
    assert(start == (x as int) % m);
    let mut base: u64 = start;
    let mut acc: u64 = 1;
    let mut n: u32 = e;
    proof {
        lemma_pow_mod_noop(x as int, e as nat, m);
        assert(1 * pow(base as int, n as nat) == pow(base as int, n as nat));
    }
    while n > 0
        invariant
            m == 0x1_0000_0000_0000_0000,
            (acc * pow(base as int, n as nat)) % m == target % m,
        decreases n,
    {
        if n % 2 == 1 {
            proof {
                lemma_multiply_step(acc as int, base as int, n as nat, m);
            }
            acc = acc.wrapping_mul(base);
            n = n - 1;
        } else {
            proof {
                lemma_square_step(acc as int, base as int, n as nat, m);
            }
            base = base.wrapping_mul(base);
            n = n / 2;
        }
    }
    proof {
        lemma_pow0(base as int);
        assert(acc * 1 == acc);
    }
    let value: i64 = if acc >= 0x8000_0000_0000_0000 {
        -((u64::MAX - acc) as i64) - 1
    } else {
        acc as i64
    };
    assert(value == wrapped(target));
    let overflowed = if e == 0 {
        proof {
            lemma_pow0(x as int);
        }
        false
    } else if -1 <= x && x <= 1 {
        proof {
            lemma_power_of_small_base(x as int, e as nat);
        }
        false
    } else {
        let mut exact: i64 = x;
        let mut k: u32 = 1;
        let mut out = false;
        proof {
            lemma_pow1(x as int);
        }
        while k < e && !out
            invariant
                x >= 2 || x <= -2,
                1 <= k <= e,
                !out ==> exact == pow(x as int, k as nat),
                out ==> !fits(pow(x as int, e as nat)),
            decreases e - k, if out { 0int } else { 1int },
        {
            proof {
                assert(pow(x as int, (k + 1) as nat) == x * pow(x as int, k as nat)) by {
                    reveal(pow);
                }
            }
            match exact.checked_mul(x) {
                Some(next) => {
                    assert(x * exact == exact * x) by (nonlinear_arith);
                    exact = next;
                    k = k + 1;
                },
                None => {
                    proof {
                        assert(x * exact == exact * x) by (nonlinear_arith);
                        lemma_power_stays_out(x as int, (k + 1) as nat, e as nat);
                    }
                    out = true;
                },
            }
        }
        out
    };
    (value, overflowed)
}

} // verus!
