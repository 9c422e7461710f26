//! Fixed-point arithmetic over `i64`/`u64` values counted in
//! millionths of a world unit, with truncating (round-toward-zero)
//! rounding, and an exact integer square root.

use vstd::prelude::*;
use vstd::arithmetic::div_mod::lemma_div_is_ordered;
use vstd::arithmetic::mul::lemma_mul_upper_bound;
use vstd::arithmetic::mul::lemma_mul_inequality;

verus! {

/// Number of fixed-point steps per world unit: all lengths, times,
/// speeds and energies in this crate are integers counted in
/// millionths of a unit.
pub const SCALE: i64 = 1_000_000;

/// Magnitude of an integer.
pub open spec fn iabs(x: int) -> int {
    if x >= 0 {
        x
    } else {
        -x
    }
}

/// Truncating (round-toward-zero) division, the rounding that every
/// fixed-point quotient in this crate uses. For a non-negative
/// dividend it agrees with floor division.
pub open spec fn tdiv(x: int, d: int) -> int {
    if x >= 0 {
        x / d
    } else {
        -((-x) / d)
    }
}

/// `a * b / d` rounded toward zero.
pub open spec fn muldiv(a: int, b: int, d: int) -> int {
    tdiv(a * b, d)
}

/// Floor of the real square root, defined by counting up.
pub open spec fn sqrt_floor(n: nat) -> nat
    decreases n,
{
    if n == 0 {
        0
    } else {
        let r = sqrt_floor((n - 1) as nat);
        if (r + 1) * (r + 1) <= n {
            r + 1
        } else {
            r
        }
    }
}

/// `sqrt_floor(n)` is the unique `r` with `r * r <= n < (r + 1) * (r + 1)`.
pub proof fn lemma_sqrt_floor_bounds(n: nat)
    ensures
        sqrt_floor(n) * sqrt_floor(n) <= n,
        n < (sqrt_floor(n) + 1) * (sqrt_floor(n) + 1),
    decreases n,
{
    if n == 0 {
        assert(sqrt_floor(0) == 0);
        assert((sqrt_floor(n) + 1) * (sqrt_floor(n) + 1) == 1) by (nonlinear_arith)
            requires
                sqrt_floor(n) == 0,
        ;
    } else {
        lemma_sqrt_floor_bounds((n - 1) as nat);
        let r = sqrt_floor((n - 1) as nat);
        let s = sqrt_floor(n);
        if (r + 1) * (r + 1) <= n {
            assert(s == r + 1);
            assert(n - 1 < (r + 1) * (r + 1));
            assert(n == (r + 1) * (r + 1));
            assert((r + 2) * (r + 2) > (r + 1) * (r + 1)) by (nonlinear_arith);
            assert(s * s <= n);
            assert(n < (s + 1) * (s + 1));
        } else {
            assert(s == r);
            assert(s * s <= n);
            assert(n < (s + 1) * (s + 1));
        }
    }
}

/// Any `r` meeting the square-root bracket equals `sqrt_floor(n)`.
pub proof fn lemma_sqrt_floor_unique(n: nat, r: nat)
    requires
        r * r <= n,
        n < (r + 1) * (r + 1),
    ensures
        r == sqrt_floor(n),
{
    lemma_sqrt_floor_bounds(n);
    let s = sqrt_floor(n);
    if r < s {
        assert((r + 1) * (r + 1) <= s * s) by (nonlinear_arith)
            requires
                r + 1 <= s,
        ;
    }
    if s < r {
        assert((s + 1) * (s + 1) <= r * r) by (nonlinear_arith)
            requires
                s + 1 <= r,
        ;
    }
}

/// A square below `n` has its root below `sqrt_floor(n)`.
pub proof fn lemma_sqrt_floor_covers(n: nat, x: nat)
    requires
        x * x <= n,
    ensures
        x <= sqrt_floor(n),
{
    lemma_sqrt_floor_bounds(n);
    let s = sqrt_floor(n);
    if s < x {
        assert((s + 1) * (s + 1) <= x * x) by (nonlinear_arith)
            requires
                s + 1 <= x,
        ;
    }
}

/// Bound a truncated product-quotient by the bounds of its factors.
pub proof fn lemma_muldiv_bound(a: int, b: int, d: int, ab: int, bb: int)
    requires
        0 <= a <= ab,
        0 <= b <= bb,
        0 < d,
    ensures
        0 <= muldiv(a, b, d) <= ab * bb / d,
{
    lemma_mul_upper_bound(a, ab, b, bb);
    assert(0 <= a * b) by (nonlinear_arith)
        requires
            0 <= a && 0 <= b,
    ;
    lemma_div_is_ordered(a * b, ab * bb, d);
    assert(a * b / d >= 0) by {
        lemma_div_is_ordered(0, a * b, d);
    }
}

/// Truncated quotients of non-negative values respect the order of
/// their dividends.
pub proof fn lemma_muldiv_ordered(a: int, b1: int, b2: int, d: int)
    requires
        0 <= a,
        0 <= b1 <= b2,
        0 < d,
    ensures
        muldiv(a, b1, d) <= muldiv(a, b2, d),
{
    lemma_mul_inequality(b1, b2, a);
    assert(0 <= a * b1) by (nonlinear_arith)
        requires
            0 <= a && 0 <= b1,
    ;
    lemma_div_is_ordered(a * b1, a * b2, d);
    assert(a * b1 == b1 * a) by (nonlinear_arith);
    assert(a * b2 == b2 * a) by (nonlinear_arith);
}

/// `a * b / d` on non-negative 64-bit values, exact against the
/// mathematical quotient; the product is formed in 128 bits.
pub fn mul_div_u(a: u64, b: u64, d: u64) -> (r: u64)
    requires
        0 < d,
        a * b / (d as int) <= u64::MAX,
    ensures
        r == a * b / (d as int),
{
    proof {
        lemma_mul_upper_bound(a as int, u64::MAX as int, b as int, u64::MAX as int);
    }
    let p: u128 = (a as u128) * (b as u128);
    let q: u128 = p / (d as u128);
    q as u64
}

/// `a * b / d` rounded toward zero on signed values, through unsigned
/// magnitudes, so that the result is exactly `muldiv(a, b, d)`.
pub fn mul_div_s(a: i64, b: i64, d: i64) -> (r: i64)
    requires
        0 < d,
        iabs(a as int) <= i64::MAX,
        iabs(b as int) <= i64::MAX,
        muldiv(iabs(a as int), iabs(b as int), d as int) <= i64::MAX,
    ensures
        r == muldiv(a as int, b as int, d as int),
        iabs(r as int) <= iabs(a as int) * iabs(b as int) / (d as int),
{
    let ma: u64 = if a >= 0 {
        a as u64
    } else {
        (-a) as u64
    };
    let mb: u64 = if b >= 0 {
        b as u64
    } else {
        (-b) as u64
    };
    proof {
        lemma_muldiv_bound(ma as int, mb as int, d as int, ma as int, mb as int);
    }
    let mq: u64 = mul_div_u(ma, mb, d as u64);
    let neg: bool = (a < 0) != (b < 0);
    proof {
        assert(ma as int * mb as int == iabs(a as int * b as int)) by (nonlinear_arith)
            requires
                ma == iabs(a as int) && mb == iabs(b as int),
        ;
        if neg {
            assert(a as int * b as int <= 0) by (nonlinear_arith)
                requires
                    (a < 0 && b >= 0) || (a >= 0 && b < 0),
            ;
        } else {
            assert(a as int * b as int >= 0) by (nonlinear_arith)
                requires
                    (a < 0 && b < 0) || (a >= 0 && b >= 0),
            ;
        }
    }
    if neg {
        -(mq as i64)
    } else {
        mq as i64
    }
}

/// Floor of the square root of a 64-bit value, by bisection.
pub fn isqrt(n: u64) -> (r: u64)
    ensures
        r == sqrt_floor(n as nat),
        r * r <= n,
        n < (r + 1) * (r + 1),
        r <= 4_294_967_296,
        n >= 1 ==> r >= 1,
{
    let mut lo: u64 = 0;
    let mut hi: u64 = 4_294_967_296;
    proof {
        assert((hi as int) * (hi as int) > n as int) by (nonlinear_arith)
            requires
                hi == 4_294_967_296 && n <= u64::MAX,
        ;
    }
    while lo + 1 < hi
        invariant
            lo < hi <= 4_294_967_296,
            lo * lo <= n,
            n < hi * hi,
        decreases hi - lo,
    {
        let mid: u64 = lo + (hi - lo) / 2;
        proof {
            assert((mid as int) * (mid as int) <= 0x1_0000_0000_0000_0000) by (nonlinear_arith)
                requires
                    mid <= 4_294_967_296,
            ;
        }
        let sq: u128 = (mid as u128) * (mid as u128);
        if sq <= n as u128 {
            lo = mid;
        } else {
            hi = mid;
        }
    }
    proof {
        lemma_sqrt_floor_unique(n as nat, lo as nat);
        assert((0 + 1) * (0 + 1) == 1) by (nonlinear_arith);
    }
    lo
}

} // verus!
