//! Movement with reflecting walls, and the countdown of short-lived
//! individuals.

use crate::fixed::{scale_down, scaled_down, Vec3, SCALE};
use vstd::prelude::*;

verus! {

/// The velocity of an individual that moves, in units per time unit.
#[derive(Clone, Copy, Debug, PartialEq, Eq, Structural)]
pub struct Mover {
    pub velocity: Vec3,
}

/// A one-shot countdown; `remaining` is the time left, in millionths of a
/// time unit.
#[derive(Clone, Copy, Debug, PartialEq, Eq, Structural)]
pub struct Lifetime {
    pub remaining: u64,
}

/// Where one coordinate would be after `delta` without any wall:
/// `position + velocity * delta`, the product rounded down to a millionth.
pub open spec fn axis_target(position: int, velocity: int, delta: int) -> int {
    position + scaled_down(velocity * delta)
}

/// One coordinate and its velocity after `delta`, with walls at `-bound` and
/// `bound`: a coordinate that would pass a wall stops at the wall and its
/// velocity changes sign.
pub open spec fn axis_step(position: int, velocity: int, delta: int, bound: int) -> (int, int) {
    let target = axis_target(position, velocity, delta);
    if target > bound {
        (bound, -velocity)
    } else if target < -bound {
        (-bound, -velocity)
    } else {
        (target, velocity)
    }
}

/// The position after one step of [`axis_step`] on every axis.
pub open spec fn moved_position(position: Vec3, velocity: Vec3, delta: int, bound: int) -> Vec3 {
    Vec3 {
        x: axis_step(position.x as int, velocity.x as int, delta, bound).0 as i64,
        y: axis_step(position.y as int, velocity.y as int, delta, bound).0 as i64,
        z: axis_step(position.z as int, velocity.z as int, delta, bound).0 as i64,
    }
}

/// The velocity after one step of [`axis_step`] on every axis.
pub open spec fn moved_velocity(position: Vec3, velocity: Vec3, delta: int, bound: int) -> Vec3 {
    Vec3 {
        x: axis_step(position.x as int, velocity.x as int, delta, bound).1 as i64,
        y: axis_step(position.y as int, velocity.y as int, delta, bound).1 as i64,
        z: axis_step(position.z as int, velocity.z as int, delta, bound).1 as i64,
    }
}

/// After a step every coordinate lies between the walls. A coordinate that
/// would have passed a wall sits on that wall with its velocity negated once;
/// any other coordinate has moved freely and keeps its velocity.
pub proof fn lemma_step_stays_between_walls(position: int, velocity: int, delta: int, bound: int)
    requires
        0 <= bound,
    ensures
        -bound <= axis_step(position, velocity, delta, bound).0 <= bound,
        axis_target(position, velocity, delta) > bound ==> axis_step(
            position,
            velocity,
            delta,
            bound,
        ) == (bound, -velocity),
        axis_target(position, velocity, delta) < -bound ==> axis_step(
            position,
            velocity,
            delta,
            bound,
        ) == (-bound, -velocity),
        -bound <= axis_target(position, velocity, delta) <= bound ==> axis_step(
            position,
            velocity,
            delta,
            bound,
        ) == (axis_target(position, velocity, delta), velocity),
{
}

fn integrate_axis(position: i64, velocity: i64, delta: u64, bound: i64) -> (r: (i64, i64))
    requires
        0 <= bound,
        velocity > i64::MIN,
    ensures
        (r.0 as int, r.1 as int) == axis_step(
            position as int,
            velocity as int,
            delta as int,
            bound as int,
        ),
        r.1 > i64::MIN,
{
    assert(-0x8000_0000_0000_0000 * 0x1_0000_0000_0000_0000 < (velocity as int) * (delta as int)
        < 0x8000_0000_0000_0000 * 0x1_0000_0000_0000_0000) by (nonlinear_arith)
        requires
            -0x8000_0000_0000_0000 < (velocity as int) < 0x8000_0000_0000_0000,
            0 <= (delta as int) < 0x1_0000_0000_0000_0000,
    ;
    let travelled: i128 = scale_down(velocity as i128 * delta as i128);
    let target: i128 = position as i128 + travelled;
    if target > bound as i128 {
        (bound, -velocity)
    } else if target < -(bound as i128) {
        (-bound, -velocity)
    } else {
        (target as i64, velocity)
    }
}

impl Mover {
    /// The velocity can be negated on every axis.
    pub open spec fn wf(self) -> bool {
        self.velocity.within(i64::MAX as int)
    }

    /// Tells at run time whether the velocity can be negated on every axis.
    pub fn is_valid(&self) -> (b: bool)
        ensures
            b == self.wf(),
    {
        self.velocity.x > i64::MIN && self.velocity.y > i64::MIN && self.velocity.z > i64::MIN
    }

    /// Moves `position` by `velocity * delta`, reflecting at the walls of
    /// the cube `[-bound, bound]³`, and returns the new position. The
    /// velocity changes sign on each axis on which a wall was hit.
    pub fn integrate(&mut self, position: Vec3, delta: u64, bound: i64) -> (moved: Vec3)
        requires
            old(self).wf(),
            0 <= bound,
        ensures
            moved == moved_position(position, old(self).velocity, delta as int, bound as int),
            final(self).velocity == moved_velocity(
                position,
                old(self).velocity,
                delta as int,
                bound as int,
            ),
            moved.within(bound as int),
            final(self).wf(),
    {
        let x: (i64, i64) = integrate_axis(position.x, self.velocity.x, delta, bound);
        let y: (i64, i64) = integrate_axis(position.y, self.velocity.y, delta, bound);
        let z: (i64, i64) = integrate_axis(position.z, self.velocity.z, delta, bound);
        self.velocity = Vec3 { x: x.1, y: y.1, z: z.1 };
        Vec3 { x: x.0, y: y.0, z: z.0 }
    }
}

impl Lifetime {
    /// The countdown reaches zero within `delta`.
    pub open spec fn expires_within(self, delta: int) -> bool {
        delta >= self.remaining
    }

    /// Starts a countdown of `duration` millionths of a time unit.
    pub fn new(duration: u64) -> (lifetime: Lifetime)
        ensures
            lifetime.remaining == duration,
    {
        Lifetime { remaining: duration }
    }

    /// Advances the countdown by `delta` and tells whether it has run out.
    pub fn tick(&mut self, delta: u64) -> (finished: bool)
        ensures
            finished == old(self).expires_within(delta as int),
            finished ==> final(self).remaining == 0,
            !finished ==> final(self).remaining == old(self).remaining - delta,
    {
        if delta >= self.remaining {
            self.remaining = 0;
            true
        } else {
            self.remaining = self.remaining - delta;
            false
        }
    }
}

} // verus!
