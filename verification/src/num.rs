//! Saturating fixed-point arithmetic on `i128` scalars.
//!
//! A scalar stores a real quantity times [`SCALE`]. Sums, differences and
//! products that leave the `i128` range clamp to the nearest representable
//! value, division truncates toward zero, and [`isqrt`] is the floor square
//! root, so each operation has a single exact mathematical description.

use vstd::prelude::*;

verus! {

/// Number of fixed-point units per base unit: quantities hold millionths.
pub const SCALE: i128 = 1_000_000;

/// Clamp an unbounded integer to the `i128` range.
pub open spec fn sat_i(x: int) -> int {
    if x > i128::MAX {
        i128::MAX as int
    } else if x < i128::MIN {
        i128::MIN as int
    } else {
        x
    }
}

/// Truncated (round-toward-zero) integer division, total except for `b == 0`.
pub open spec fn tdiv(a: int, b: int) -> int
    recommends
        b != 0,
{
    if a == 0 {
        0
    } else if a > 0 && b > 0 {
        a / b
    } else if a < 0 && b < 0 {
        (a * -1) / (b * -1)
    } else if a < 0 {
        ((a * -1) / b) * -1
    } else {
        (a / (b * -1)) * -1
    }
}

/// `r` is the floor square root of `n`.
pub open spec fn is_sqrt(n: int, r: int) -> bool {
    0 <= r && r * r <= n && n < (r + 1) * (r + 1)
}

/// The floor square root of `n`, well defined for `n >= 0`
/// (see `lemma_sqrt_exists` and `lemma_sqrt_unique`).
pub open spec fn sqrt_floor(n: int) -> int {
    choose|r: int| is_sqrt(n, r)
}

/// A nonnegative integer has a floor square root, and `sqrt_floor` returns it.
pub proof fn lemma_sqrt_exists(n: int)
    requires
        n >= 0,
    ensures
        is_sqrt(n, sqrt_floor(n)),
    decreases n,
{
    if n == 0 {
        assert(is_sqrt(0, 0));
    } else {
        lemma_sqrt_exists(n - 1);
        let r = sqrt_floor(n - 1);
        if (r + 1) * (r + 1) <= n {
            assert(is_sqrt(n, r + 1)) by (nonlinear_arith)
                requires
                    is_sqrt(n - 1, r),
                    (r + 1) * (r + 1) <= n,
            ;
        } else {
            assert(is_sqrt(n, r));
        }
    }
}

/// Floor square roots are unique.
pub proof fn lemma_sqrt_unique(n: int, r1: int, r2: int)
    requires
        is_sqrt(n, r1),
        is_sqrt(n, r2),
    ensures
        r1 == r2,
{
    assert(r1 == r2) by (nonlinear_arith)
        requires
            is_sqrt(n, r1),
            is_sqrt(n, r2),
    ;
}

/// Any witness of `is_sqrt` is the value of `sqrt_floor`.
pub proof fn lemma_sqrt_is(n: int, r: int)
    requires
        is_sqrt(n, r),
    ensures
        sqrt_floor(n) == r,
{
    lemma_sqrt_exists(n);
    lemma_sqrt_unique(n, r, sqrt_floor(n));
}

/// Saturating addition.
pub fn sat_add(a: i128, b: i128) -> (r: i128)
    ensures
        r == sat_i(a + b),
{
    match a.checked_add(b) {
        Some(s) => s,
        None => {
            if a > 0 {
                i128::MAX
            } else {
                i128::MIN
            }
        },
    }
}

/// Saturating subtraction.
pub fn sat_sub(a: i128, b: i128) -> (r: i128)
    ensures
        r == sat_i(a - b),
{
    match a.checked_sub(b) {
        Some(s) => s,
        None => {
            if b < 0 {
                i128::MAX
            } else {
                i128::MIN
            }
        },
    }
}

/// Saturating multiplication.
pub fn sat_mul(a: i128, b: i128) -> (r: i128)
    ensures
        r == sat_i(a * b),
{
    match a.checked_mul(b) {
        Some(p) => p,
        None => {
            proof {
                assert(a != 0 && b != 0);
                if a > 0 && b > 0 {
                    assert(a * b > 0) by (nonlinear_arith)
                        requires
                            a > 0,
                            b > 0,
                    ;
                } else if a < 0 && b < 0 {
                    assert(a * b > 0) by (nonlinear_arith)
                        requires
                            a < 0,
                            b < 0,
                    ;
                } else {
                    assert(a * b < 0) by (nonlinear_arith)
                        requires
                            a != 0,
                            b != 0,
                            !(a > 0 && b > 0),
                            !(a < 0 && b < 0),
                    ;
                }
            }
            if (a > 0) == (b > 0) {
                i128::MAX
            } else {
                i128::MIN
            }
        },
    }
}

/// Saturating truncated division; the one overflowing case,
/// `i128::MIN / -1`, clamps to `i128::MAX`.
pub fn div_t(a: i128, b: i128) -> (r: i128)
    requires
        b != 0,
    ensures
        r == sat_i(tdiv(a as int, b as int)),
{
    proof {
        lemma_tdiv_in_range(a as int, b as int);
    }
    match a.checked_div(b) {
        Some(q) => q,
        None => i128::MAX,
    }
}

/// Truncated division of `i128` operands cannot go below `i128::MIN`.
proof fn lemma_tdiv_in_range(a: int, b: int)
    requires
        i128::MIN <= a <= i128::MAX,
        b != 0,
    ensures
        tdiv(a, b) >= i128::MIN,
{
    lemma_tdiv_magnitude(a, b);
}

/// A truncated quotient of a nonnegative dividend by a positive divisor is
/// nonnegative and no larger than the dividend.
pub proof fn lemma_tdiv_nonneg(a: int, b: int)
    requires
        a >= 0,
        b > 0,
    ensures
        0 <= tdiv(a, b) <= a,
{
    lemma_tdiv_magnitude(a, b);
    if a > 0 {
        assert(a / b >= 0) by (nonlinear_arith)
            requires
                a > 0,
                b > 0,
        ;
    }
}

/// The magnitude of a truncated quotient is at most the magnitude of the
/// dividend.
pub proof fn lemma_tdiv_magnitude(a: int, b: int)
    requires
        b != 0,
    ensures
        tdiv(a, b) <= if a >= 0 {
            a
        } else {
            -a
        },
        tdiv(a, b) >= if a >= 0 {
            -a
        } else {
            a
        },
{
    if a == 0 {
    } else if a > 0 && b > 0 {
        assert(0 <= a / b <= a) by (nonlinear_arith)
            requires
                a > 0,
                b > 0,
        ;
    } else if a < 0 && b < 0 {
        assert(0 <= (a * -1) / (b * -1) <= a * -1) by (nonlinear_arith)
            requires
                a < 0,
                b < 0,
        ;
    } else if a < 0 {
        assert(0 <= (a * -1) / b <= a * -1) by (nonlinear_arith)
            requires
                a < 0,
                b > 0,
        ;
    } else {
        assert(0 <= a / (b * -1) <= a) by (nonlinear_arith)
            requires
                a > 0,
                b < 0,
        ;
    }
}

/// Truncated division is odd in its dividend.
pub proof fn lemma_tdiv_odd(a: int, b: int)
    requires
        b != 0,
    ensures
        tdiv(-a, b) == -tdiv(a, b),
{
    if a == 0 {
    } else if a > 0 && b > 0 {
        assert(tdiv(-a, b) == ((-a * -1) / b) * -1);
        assert(-a * -1 == a);
    } else if a > 0 && b < 0 {
        assert(tdiv(a, b) == (a / (b * -1)) * -1);
        assert(tdiv(-a, b) == (-a * -1) / (b * -1));
        assert(-a * -1 == a);
    } else if a < 0 && b > 0 {
        assert(tdiv(a, b) == ((a * -1) / b) * -1);
        assert(tdiv(-a, b) == (-a) / b);
        assert(-a == a * -1);
    } else {
        assert(tdiv(a, b) == (a * -1) / (b * -1));
        assert(tdiv(-a, b) == ((-a) / (b * -1)) * -1);
        assert(-a == a * -1);
    }
}

/// A truncated quotient whose dividend is bounded by `b * c` is bounded by
/// `c`.
pub proof fn lemma_tdiv_bound(a: int, b: int, c: int)
    requires
        b > 0,
        c >= 0,
        -(b * c) <= a <= b * c,
    ensures
        -c <= tdiv(a, b) <= c,
{
    vstd::arithmetic::div_mod::lemma_div_by_multiple(c, b);
    assert(c * b == b * c) by (nonlinear_arith);
    if a == 0 {
    } else if a > 0 {
        vstd::arithmetic::div_mod::lemma_div_is_ordered(a, b * c, b);
        vstd::arithmetic::div_mod::lemma_div_pos_is_pos(a, b);
    } else {
        assert(tdiv(a, b) == ((a * -1) / b) * -1);
        assert(a * -1 <= b * c);
        vstd::arithmetic::div_mod::lemma_div_is_ordered(a * -1, b * c, b);
        vstd::arithmetic::div_mod::lemma_div_pos_is_pos(a * -1, b);
    }
}

/// For a nonnegative dividend, truncated division is floor division:
/// the quotient times the divisor falls within one divisor below the
/// dividend.
pub proof fn lemma_tdiv_trunc(a: int, b: int)
    requires
        a >= 0,
        b > 0,
    ensures
        tdiv(a, b) >= 0,
        b * tdiv(a, b) <= a,
        a < b * tdiv(a, b) + b,
{
    if a == 0 {
    } else {
        assert(tdiv(a, b) == a / b);
        vstd::arithmetic::div_mod::lemma_fundamental_div_mod(a, b);
        vstd::arithmetic::div_mod::lemma_mod_division_less_than_divisor(a, b);
        vstd::arithmetic::div_mod::lemma_div_pos_is_pos(a, b);
    }
}

/// Floor square root of a nonnegative `i128`.
pub fn isqrt(n: i128) -> (r: i128)
    requires
        n >= 0,
    ensures
        is_sqrt(n as int, r as int),
        r == sqrt_floor(n as int),
{
    let nu: u128 = n as u128;
    let mut lo: u128 = 0;
    let mut hi: u128 = 0x1_0000_0000_0000_0000;
    proof {
        assert((0x1_0000_0000_0000_0000 as int) * (0x1_0000_0000_0000_0000 as int) > nu as int)
            by (nonlinear_arith)
            requires
                nu <= u128::MAX,
        ;
    }
    while hi - lo > 1
        invariant
            0 <= lo < hi <= 0x1_0000_0000_0000_0000,
            nu == n,
            (lo as int) * (lo as int) <= nu as int,
            (nu as int) < (hi as int) * (hi as int),
        decreases hi - lo,
    {
        let mid: u128 = lo + (hi - lo) / 2;
        proof {
            assert((mid as int) * (mid as int) < u128::MAX as int) by (nonlinear_arith)
                requires
                    0 <= mid < 0x1_0000_0000_0000_0000,
            ;
        }
        if mid * mid <= nu {
            lo = mid;
        } else {
            hi = mid;
        }
    }
    proof {
        assert(is_sqrt(n as int, lo as int));
        lemma_sqrt_is(n as int, lo as int);
    }
    lo as i128
}

} // verus!
