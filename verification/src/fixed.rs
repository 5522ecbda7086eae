//! Fixed-point numbers and three-component vectors.
//!
//! Every length, speed, duration, probability and score in this crate is an
//! integer count of millionths. A full unit is [`SCALE`] steps, so `1.5` is
//! held as `1_500_000` and every operation on such numbers is exact integer
//! arithmetic with an explicitly stated rounding.

use vstd::prelude::*;

verus! {

/// Number of fixed-point steps in one unit.
pub const SCALE: i64 = 1_000_000;

/// A point or a direction in space, one fixed-point coordinate per axis.
#[derive(Clone, Copy, Debug, PartialEq, Eq, Structural)]
pub struct Vec3 {
    pub x: i64,
    pub y: i64,
    pub z: i64,
}

impl Vec3 {
    /// Every coordinate lies in `[-limit, limit]`.
    pub open spec fn within(self, limit: int) -> bool {
        &&& -limit <= self.x <= limit
        &&& -limit <= self.y <= limit
        &&& -limit <= self.z <= limit
    }

    pub fn new(x: i64, y: i64, z: i64) -> (v: Vec3)
        ensures
            v == (Vec3 { x, y, z }),
    {
        Vec3 { x, y, z }
    }

    pub fn zero() -> (v: Vec3)
        ensures
            v == (Vec3 { x: 0, y: 0, z: 0 }),
    {
        Vec3 { x: 0, y: 0, z: 0 }
    }

    /// Tells at run time whether every coordinate lies in `[-limit, limit]`.
    pub fn is_within(&self, limit: i64) -> (b: bool)
        requires
            limit >= 0,
        ensures
            b == self.within(limit as int),
    {
        -limit <= self.x && self.x <= limit && -limit <= self.y && self.y <= limit && -limit
            <= self.z && self.z <= limit
    }
}

/// `value / SCALE`, rounded towards negative infinity.
pub open spec fn scaled_down(value: int) -> int {
    value / (SCALE as int)
}

/// The weighted mean `(a * weight + b * (SCALE - weight)) / SCALE`, rounded
/// towards negative infinity. `weight` is the share of `a`, in millionths.
pub open spec fn blend_spec(a: int, b: int, weight: int) -> int {
    scaled_down(a * weight + b * (SCALE - weight))
}

/// Divides a scaled product by [`SCALE`], rounding towards negative infinity
/// for either sign of `value`.
pub fn scale_down(value: i128) -> (q: i128)
    ensures
        q == scaled_down(value as int),
{
    let scale: i128 = SCALE as i128;
    let truncated: i128 = value / scale;
    let rest: i128 = value % scale;
    if rest < 0 {
        truncated - 1
    } else {
        truncated
    }
}

/// A weighted mean never leaves the interval spanned by its two arguments.
pub proof fn lemma_blend_between(a: int, b: int, weight: int)
    requires
        0 <= weight <= SCALE,
    ensures
        a <= b ==> a <= blend_spec(a, b, weight) <= b,
        b <= a ==> b <= blend_spec(a, b, weight) <= a,
{
    let s = SCALE as int;
    let total = a * weight + b * (s - weight);
    if a <= b {
        assert(a * s <= total <= b * s) by (nonlinear_arith)
            requires
                a <= b,
                0 <= weight <= s,
                total == a * weight + b * (s - weight),
        ;
    } else {
        assert(b * s <= total <= a * s) by (nonlinear_arith)
            requires
                b <= a,
                0 <= weight <= s,
                total == a * weight + b * (s - weight),
        ;
    }
}

/// Computes [`blend_spec`] without intermediate overflow.
pub fn blend(a: i64, b: i64, weight: u32) -> (r: i64)
    requires
        weight <= SCALE,
    ensures
        r == blend_spec(a as int, b as int, weight as int),
{
    let w: i128 = weight as i128;
    let rest: i128 = SCALE as i128 - w;
    assert(-0x8000_0000_0000_0000 * 1_000_000 <= (a as int) * (w as int) <= 0x8000_0000_0000_0000
        * 1_000_000) by (nonlinear_arith)
        requires
            -0x8000_0000_0000_0000 <= (a as int) < 0x8000_0000_0000_0000,
            0 <= (w as int) <= 1_000_000,
    ;
    assert(-0x8000_0000_0000_0000 * 1_000_000 <= (b as int) * (rest as int)
        <= 0x8000_0000_0000_0000 * 1_000_000) by (nonlinear_arith)
        requires
            -0x8000_0000_0000_0000 <= (b as int) < 0x8000_0000_0000_0000,
            0 <= (rest as int) <= 1_000_000,
    ;
    let total: i128 = (a as i128) * w + (b as i128) * rest;
    let q: i128 = scale_down(total);
    proof {
        lemma_blend_between(a as int, b as int, weight as int);
    }
    q as i64
}

} // verus!
