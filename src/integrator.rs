//! Gravity and the motion of particles over one time step.
use vstd::prelude::*;

use crate::particle::{Particle, ParticleVelocity, POS_LIMIT, VEL_LIMIT};
use crate::vector::{Vec3, abs, clamp, within, lemma_mul_abs_bound, clamp_exec};

verus! {

/// The velocity a particle moves with in this step: its pending velocity
/// if it has one, else its own.
pub open spec fn resolved(p: Particle, pending: Option<Vec3>) -> Vec3 {
    match pending {
        Some(v) => v,
        None => p.vel(),
    }
}

/// The velocity after gravity: `g` (mm/s^2) times `dt` (ms) is taken off
/// the vertical component, in micrometres per second.
pub open spec fn after_gravity(v: Vec3, g: int, dt: int) -> Vec3 {
    Vec3 { y: clamp(v.y - g * dt, VEL_LIMIT as int) as i64, ..v }
}

/// A position moved by `v` (um/s) for `dt` (ms), in nanometres.
pub open spec fn moved(p: Vec3, v: Vec3, dt: int) -> Vec3 {
    Vec3 {
        x: clamp(p.x + v.x * dt, POS_LIMIT as int) as i64,
        y: clamp(p.y + v.y * dt, POS_LIMIT as int) as i64,
        z: clamp(p.z + v.z * dt, POS_LIMIT as int) as i64,
    }
}

/// One explicit Euler step: gravity first, then the move with the new velocity.
pub open spec fn integrated(p: Particle, pending: Option<Vec3>, g: int, dt: int) -> Particle {
    let v = after_gravity(resolved(p, pending), g, dt);
    Particle { velocity: ParticleVelocity { velocity: v }, position: moved(p.pos(), v, dt), ..p }
}

fn move_component(c: i64, v: i64, dt: u32) -> (r: i64)
    requires
        abs(v as int) <= VEL_LIMIT,
    ensures
        r == clamp(c + v * dt, POS_LIMIT as int),
{
    proof {
        lemma_mul_abs_bound(v as int, dt as int, 68_719_476_736, 4_294_967_295);
    }
    clamp_exec(c as i128 + v as i128 * dt as i128, POS_LIMIT)
}

/// Applies gravity and moves the particle by its resolved velocity.
pub fn integrate(p: &mut Particle, pending: Option<Vec3>, g: i64, dt: u32)
    requires
        old(p).valid(),
        pending is Some ==> within(pending->Some_0, VEL_LIMIT as int),
    ensures
        *final(p) == integrated(*old(p), pending, g as int, dt as int),
        final(p).valid(),
{
    let mut v = match pending {
        Some(w) => w,
        None => p.velocity.velocity,
    };
    proof {
        lemma_mul_abs_bound(g as int, dt as int, 9_223_372_036_854_775_808, 4_294_967_295);
    }
    v.y = clamp_exec(v.y as i128 - g as i128 * dt as i128, VEL_LIMIT);
    let x = move_component(p.position.x, v.x, dt);
    let y = move_component(p.position.y, v.y, dt);
    let z = move_component(p.position.z, v.z, dt);
    p.velocity = ParticleVelocity { velocity: v };
    p.position = Vec3 { x, y, z };
}

} // verus!
