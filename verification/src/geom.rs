//! Toroidal wrapping and fixed-point heading vectors: normalisation
//! toward a point, and small rotations used for movement jitter.

use vstd::prelude::*;
use vstd::arithmetic::div_mod::lemma_div_by_multiple;
use vstd::arithmetic::div_mod::lemma_div_is_ordered;
use vstd::arithmetic::mul::lemma_mul_inequality;
use crate::fixed::SCALE;
use crate::fixed::iabs;
use crate::fixed::muldiv;
use crate::fixed::tdiv;
use crate::fixed::sqrt_floor;
use crate::fixed::mul_div_s;
use crate::fixed::isqrt;
use crate::fixed::lemma_sqrt_floor_covers;
use crate::agent::MAX_DIM;

verus! {

/// Toroidal wrap of one coordinate: a point past either edge of
/// `[-w, w]` reappears at the opposite edge, the same tick.
pub open spec fn wrap_spec(v: int, w: int) -> int {
    if v > w {
        -w
    } else if v < -w {
        w
    } else {
        v
    }
}

/// Wraps one coordinate at the half-extent `w`; the result always
/// lies in `[-w, w]`.
pub fn wrap_coord(v: i64, w: i64) -> (r: i64)
    requires
        1 <= w <= MAX_DIM,
    ensures
        r == wrap_spec(v as int, w as int),
        -w <= r <= w,
{
    if v > w {
        -w
    } else if v < -w {
        w
    } else {
        v
    }
}

/// The fixed-point unit vector pointing the way `(dx, dy)` points:
/// both components are scaled by `SCALE` over the rounded-down length
/// of `(dx, dy)`. The zero vector is sent to the unit east vector.
pub open spec fn norm_spec(dx: int, dy: int) -> (int, int) {
    let d2 = dx * dx + dy * dy;
    if d2 == 0 {
        (SCALE as int, 0int)
    } else {
        let m = sqrt_floor(d2 as nat);
        (tdiv(dx * SCALE, m as int), tdiv(dy * SCALE, m as int))
    }
}

/// The rounded-down length of a vector is at least the magnitude of
/// each component.
proof fn lemma_root_dominates(dx: int, dy: int)
    requires
        dx * dx + dy * dy > 0,
    ensures
        iabs(dx) <= sqrt_floor((dx * dx + dy * dy) as nat),
        iabs(dy) <= sqrt_floor((dx * dx + dy * dy) as nat),
{
    let d2 = (dx * dx + dy * dy) as nat;
    assert(iabs(dx) * iabs(dx) == dx * dx) by (nonlinear_arith);
    assert(iabs(dy) * iabs(dy) == dy * dy) by (nonlinear_arith);
    assert(dx * dx >= 0 && dy * dy >= 0) by (nonlinear_arith);
    lemma_sqrt_floor_covers(d2, iabs(dx) as nat);
    lemma_sqrt_floor_covers(d2, iabs(dy) as nat);
}

/// When `|v| <= m`, dividing `v * SCALE` by `m` stays within one
/// fixed-point unit either way.
proof fn lemma_component_bound(v: int, m: int)
    requires
        iabs(v) <= m,
        1 <= m,
    ensures
        -SCALE <= tdiv(v * SCALE, m) <= SCALE,
        0 <= muldiv(iabs(v), SCALE as int, m) <= SCALE,
        iabs(tdiv(v * SCALE, m)) <= SCALE,
{
    assert(iabs(v) * SCALE >= 0) by (nonlinear_arith)
        requires
            iabs(v) >= 0,
    ;
    lemma_mul_inequality(iabs(v), m, SCALE as int);
    lemma_div_is_ordered(iabs(v) * SCALE, m * SCALE, m);
    assert(m * SCALE == SCALE * m) by (nonlinear_arith);
    lemma_div_by_multiple(SCALE as int, m);
    lemma_div_is_ordered(0, iabs(v) * SCALE, m);
    assert(iabs(v) * SCALE / m <= SCALE);
    assert(0 <= iabs(v) * SCALE / m);
    assert(muldiv(iabs(v), SCALE as int, m) == iabs(v) * SCALE / m);
    if v >= 0 {
        assert(v * SCALE >= 0) by (nonlinear_arith)
            requires
                v >= 0,
        ;
        assert(tdiv(v * SCALE, m) == iabs(v) * SCALE / m);
    } else {
        assert(v * SCALE <= 0) by (nonlinear_arith)
            requires
                v <= 0,
        ;
        assert(-(v * SCALE) == (-v) * SCALE) by (nonlinear_arith);
        assert(iabs(v) == -v);
        assert(tdiv(v * SCALE, m) == -(iabs(v) * SCALE / m));
    }
}

/// Unit heading toward `(dx, dy)`, exactly `norm_spec`.
pub fn normalize_dir(dx: i64, dy: i64) -> (r: (i64, i64))
    requires
        -2 * MAX_DIM <= dx <= 2 * MAX_DIM,
        -2 * MAX_DIM <= dy <= 2 * MAX_DIM,
    ensures
        (r.0 as int, r.1 as int) == norm_spec(dx as int, dy as int),
        -SCALE <= r.0 <= SCALE,
        -SCALE <= r.1 <= SCALE,
{
    let mx: u64 = if dx >= 0 {
        dx as u64
    } else {
        (-dx) as u64
    };
    let my: u64 = if dy >= 0 {
        dy as u64
    } else {
        (-dy) as u64
    };
    proof {
        assert(mx as int * mx as int == dx as int * dx as int) by (nonlinear_arith)
            requires
                mx == iabs(dx as int),
        ;
        assert(my as int * my as int == dy as int * dy as int) by (nonlinear_arith)
            requires
                my == iabs(dy as int),
        ;
        assert(mx as int * mx as int <= 2 * MAX_DIM * (2 * MAX_DIM)) by (nonlinear_arith)
            requires
                0 <= mx <= 2 * MAX_DIM,
        ;
        assert(my as int * my as int <= 2 * MAX_DIM * (2 * MAX_DIM)) by (nonlinear_arith)
            requires
                0 <= my <= 2 * MAX_DIM,
        ;
        assert(2 * MAX_DIM * (2 * MAX_DIM) == 4_000_000_000_000_000_000) by (nonlinear_arith);
    }
    let d2: u64 = mx * mx + my * my;
    if d2 == 0 {
        (SCALE, 0)
    } else {
        let m: u64 = isqrt(d2);
        proof {
            lemma_root_dominates(dx as int, dy as int);
            lemma_component_bound(dx as int, m as int);
            lemma_component_bound(dy as int, m as int);
        }
        let nx: i64 = mul_div_s(dx, SCALE, m as i64);
        let ny: i64 = mul_div_s(dy, SCALE, m as i64);
        (nx, ny)
    }
}

/// Rotation of the unit heading `(ux, uy)` by the angle whose sine is
/// `s / SCALE`: the rotated vector is formed with the matching
/// rounded-down cosine and then re-normalised.
pub open spec fn rot_spec(ux: int, uy: int, s: int) -> (int, int) {
    let c = sqrt_floor((SCALE * SCALE - s * s) as nat) as int;
    norm_spec(tdiv(ux * c - uy * s, SCALE as int), tdiv(ux * s + uy * c, SCALE as int))
}

/// Rotates a unit heading, exactly `rot_spec`.
pub fn rotate_dir(ux: i64, uy: i64, s: i64) -> (r: (i64, i64))
    requires
        -SCALE <= ux <= SCALE,
        -SCALE <= uy <= SCALE,
        -SCALE <= s <= SCALE,
    ensures
        (r.0 as int, r.1 as int) == rot_spec(ux as int, uy as int, s as int),
        -SCALE <= r.0 <= SCALE,
        -SCALE <= r.1 <= SCALE,
{
    proof {
        assert(forall|a: i64, b: i64|
            -SCALE <= a <= SCALE && -SCALE <= b <= SCALE ==> -(SCALE * SCALE)
                <= #[trigger] (a as int * b as int) <= SCALE * SCALE) by (nonlinear_arith);
        assert(s as int * s as int >= 0) by (nonlinear_arith);
        assert(SCALE * SCALE == 1_000_000_000_000) by (nonlinear_arith);
    }
    let c64: u64 = isqrt((SCALE * SCALE - s * s) as u64);
    proof {
        assert(c64 as int * c64 as int <= SCALE * SCALE ==> 0 <= c64 <= SCALE)
            by (nonlinear_arith);
    }
    let c: i64 = c64 as i64;
    let px: i64 = ux * c - uy * s;
    let py: i64 = ux * s + uy * c;
    proof {
        assert(px as int * 1 == px as int);
        assert(py as int * 1 == py as int);
        assert(iabs(px as int) * 1 == iabs(px as int));
        assert(iabs(py as int) * 1 == iabs(py as int));
        assert(iabs(px as int) <= 2_000_000_000_000);
        assert(iabs(py as int) <= 2_000_000_000_000);
    }
    let vx: i64 = mul_div_s(px, 1, SCALE);
    let vy: i64 = mul_div_s(py, 1, SCALE);
    proof {
        lemma_div_is_ordered(iabs(px as int), 2_000_000_000_000, SCALE as int);
        lemma_div_is_ordered(iabs(py as int), 2_000_000_000_000, SCALE as int);
        assert(iabs(vx as int) <= 2_000_000);
        assert(iabs(vy as int) <= 2_000_000);
    }
    normalize_dir(vx, vy)
}

} // verus!
