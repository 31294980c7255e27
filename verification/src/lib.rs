//! Reconstruction of spatially ordered text and table structure from the
//! drawing operators of a page description stream.
//!
//! All page geometry is carried in fixed-point coordinates: one unit is a
//! thousandth of a page unit, so the arithmetic of the layout engine is
//! exact integer arithmetic. Values computed past [`COORD_LIMIT`] are
//! clamped to it; the clamping is part of every contract.

use vstd::prelude::*;

pub mod boxes;
pub mod chars;
pub mod cluster;
pub mod err;
pub mod font;
pub mod geom;
pub mod ops;
pub mod page;
pub mod order;
pub mod tounicode;

verus! {

/// One page unit, expressed in coordinate steps (thousandths of a unit).
pub const MILLI: i64 = 1000;

/// Largest magnitude, in thousandths of a page unit, that any coordinate
/// handled by the engine may take.
pub const COORD_LIMIT: i64 = 1_000_000_000_000;

/// Clamps a mathematical value into the coordinate range the engine supports.
pub open spec fn clamp(v: int) -> int {
    if v < -COORD_LIMIT {
        -COORD_LIMIT as int
    } else if v > COORD_LIMIT {
        COORD_LIMIT as int
    } else {
        v
    }
}

/// True when a value lies inside the supported coordinate range.
pub open spec fn in_range(v: int) -> bool {
    -COORD_LIMIT <= v <= COORD_LIMIT
}

/// Division that truncates toward zero, the rounding used throughout the
/// engine when a product of fixed-point values is scaled back down.
pub open spec fn tdiv(a: int, d: int) -> int
    recommends
        d > 0,
{
    if a >= 0 {
        a / d
    } else {
        -((-a) / d)
    }
}

/// The sum of two coordinates, clamped into the supported range.
pub fn add_clamped(a: i64, b: i64) -> (r: i64)
    ensures
        r == clamp(a + b),
{
    let s: i128 = a as i128 + b as i128;
    if s < -(COORD_LIMIT as i128) {
        -COORD_LIMIT
    } else if s > COORD_LIMIT as i128 {
        COORD_LIMIT
    } else {
        s as i64
    }
}

/// The difference of two coordinates, clamped into the supported range.
pub fn sub_clamped(a: i64, b: i64) -> (r: i64)
    ensures
        r == clamp(a - b),
{
    let s: i128 = a as i128 - b as i128;
    if s < -(COORD_LIMIT as i128) {
        -COORD_LIMIT
    } else if s > COORD_LIMIT as i128 {
        COORD_LIMIT
    } else {
        s as i64
    }
}

/// `a * b / d` with truncation toward zero, clamped into the supported
/// range. This is the scaling step of every fixed-point product.
pub fn mul_div_clamped(a: i64, b: i64, d: u64) -> (r: i64)
    requires
        d > 0,
    ensures
        r == clamp(tdiv(a as int * b as int, d as int)),
{
    proof {
        assert((a as int) * (b as int) <= 0x8000_0000_0000_0000 * 0x8000_0000_0000_0000
            && (a as int) * (b as int) >= -(0x8000_0000_0000_0000 * 0x8000_0000_0000_0000))
            by (nonlinear_arith)
            requires
                (a as int) >= -0x8000_0000_0000_0000,
                (a as int) < 0x8000_0000_0000_0000,
                (b as int) >= -0x8000_0000_0000_0000,
                (b as int) < 0x8000_0000_0000_0000,
        ;
    }
    let p: i128 = a as i128 * b as i128;
    scale_down(p, d)
}

/// `a * b * c / d` with truncation toward zero, clamped into the supported
/// range. The three factors must already be in range, so that the double
/// product cannot exceed the working precision.
pub fn mul3_div_clamped(a: i64, b: i64, c: i64, d: u64) -> (r: i64)
    requires
        d > 0,
        in_range(a as int),
        in_range(b as int),
        in_range(c as int),
    ensures
        r == clamp(tdiv(a as int * b as int * c as int, d as int)),
{
    proof {
        assert((a as int) * (b as int) <= COORD_LIMIT as int * COORD_LIMIT as int
            && (a as int) * (b as int) >= -(COORD_LIMIT as int * COORD_LIMIT as int))
            by (nonlinear_arith)
            requires
                in_range(a as int),
                in_range(b as int),
        ;
    }
    let p1: i128 = a as i128 * b as i128;
    proof {
        let l2 = COORD_LIMIT as int * COORD_LIMIT as int;
        assert(p1 as int * (c as int) <= l2 * COORD_LIMIT as int
            && p1 as int * (c as int) >= -(l2 * COORD_LIMIT as int))
            by (nonlinear_arith)
            requires
                (p1 as int) >= -l2,
                (p1 as int) <= l2,
                in_range(c as int),
                l2 == COORD_LIMIT as int * COORD_LIMIT as int,
        ;
    }
    let p2: i128 = p1 * c as i128;
    scale_down(p2, d)
}

/// Divides a wide intermediate product by `d`, truncating toward zero, and
/// clamps the quotient into the coordinate range.
fn scale_down(p: i128, d: u64) -> (r: i64)
    requires
        d > 0,
        p > -0x8000_0000_0000_0000_0000_0000_0000_0000,
    ensures
        r == clamp(tdiv(p as int, d as int)),
{
    if p >= 0 {
        let q: u128 = p as u128 / d as u128;
        if q > COORD_LIMIT as u128 {
            COORD_LIMIT
        } else {
            q as i64
        }
    } else {
        let m: u128 = (-p) as u128;
        let q: u128 = m / d as u128;
        if q > COORD_LIMIT as u128 {
            -COORD_LIMIT
        } else {
            -(q as i64)
        }
    }
}

} // verus!
