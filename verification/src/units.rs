//! Fixed-point representation of the continuous quantities of the world.
//!
//! World coordinates, lengths and ratios are held as whole multiples of
//! `1 / UNIT`: the real number `r` is stored as the integer `r * UNIT`.
//! All geometry is then exact integer arithmetic, and every contract in this
//! crate is stated over mathematical integers in these units.
//!
//! A coordinate is an `i32`, so the world reaches a little over 214 748
//! world units from its origin along each axis. Where a length is scaled by
//! a ratio, the product is rounded toward zero; a division that finds the
//! cell of a point rounds down.

use vstd::prelude::*;

verus! {

/// Number of fixed-point steps in one world unit (and in the ratio 1.0).
pub const UNIT: i32 = 10_000;

/// Length, in fixed-point steps, below which a displacement counts as no
/// movement at all: one thousandth of a world unit.
pub const EPSILON: i32 = 10;

/// A point of the continuous world, in fixed-point steps per axis.
#[derive(Clone, Copy, Debug, PartialEq, Eq, Structural)]
pub struct WorldPos {
    pub x: i32,
    pub y: i32,
}

impl WorldPos {
    /// The point with the given fixed-point coordinates.
    pub fn new(x: i32, y: i32) -> (p: WorldPos)
        ensures
            p.x == x,
            p.y == y,
    {
        WorldPos { x, y }
    }
}

/// The discrete coordinates of one cell of a grid.
#[derive(Clone, Copy, Debug, PartialEq, Eq, Structural)]
pub struct GridPos {
    pub x: i32,
    pub y: i32,
}

impl GridPos {
    /// The cell in column `x` and row `y`.
    pub fn new(x: i32, y: i32) -> (p: GridPos)
        ensures
            p.x == x,
            p.y == y,
    {
        GridPos { x, y }
    }
}

/// The integer nearest to `v` that an `i32` can hold.
pub open spec fn saturate_i32(v: int) -> int {
    if v < i32::MIN {
        i32::MIN as int
    } else if v > i32::MAX {
        i32::MAX as int
    } else {
        v
    }
}

/// The quotient `a / b` rounded toward negative infinity lies between
/// `a` and zero, and is the one integer `q` with `q * b <= a < (q + 1) * b`.
pub proof fn lemma_floor_div(a: int, b: int)
    requires
        b > 0,
    ensures
        (a / b) * b <= a < (a / b) * b + b,
        a >= 0 ==> 0 <= a / b <= a,
        a < 0 ==> a <= a / b < 0,
{
    assert((a / b) * b <= a < (a / b) * b + b && (a >= 0 ==> 0 <= a / b <= a) && (a < 0 ==> a <= a
        / b < 0)) by (nonlinear_arith)
        requires
            b > 0,
    ;
}

/// Any integer `q` with `q * b <= a < (q + 1) * b` is the floor quotient.
pub proof fn lemma_floor_div_unique(a: int, b: int, q: int)
    requires
        b > 0,
        q * b <= a < q * b + b,
    ensures
        a / b == q,
{
    assert(a / b == q) by (nonlinear_arith)
        requires
            b > 0,
            q * b <= a < q * b + b,
    ;
}

/// Floor division is monotone in the dividend.
pub proof fn lemma_floor_div_monotone(a: int, c: int, b: int)
    requires
        b > 0,
        a <= c,
    ensures
        a / b <= c / b,
{
    assert(a / b <= c / b) by (nonlinear_arith)
        requires
            b > 0,
            a <= c,
    ;
}

/// `a / b` rounded toward negative infinity.
pub(crate) fn floor_div(a: i64, b: i64) -> (q: i64)
    requires
        b > 0,
    ensures
        q == a as int / b as int,
{
    proof {
        lemma_floor_div(a as int, b as int);
    }
    a.checked_div_euclid(b).unwrap()
}

/// `a / b` rounded toward negative infinity, on wide integers.
pub(crate) fn floor_div_wide(a: i128, b: i128) -> (q: i128)
    requires
        b > 0,
    ensures
        q == a as int / b as int,
{
    proof {
        lemma_floor_div(a as int, b as int);
    }
    a.checked_div_euclid(b).unwrap()
}

/// Narrows a wide integer to `i32`, stopping at the nearest bound.
pub(crate) fn saturate(v: i64) -> (r: i32)
    ensures
        r == saturate_i32(v as int),
{
    if v < i32::MIN as i64 {
        i32::MIN
    } else if v > i32::MAX as i64 {
        i32::MAX
    } else {
        v as i32
    }
}

} // verus!
