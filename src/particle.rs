//! The particle record, its components and the limits of its state.
use vstd::prelude::*;

use crate::vector::{Vec3, within};

verus! {

/// Half the side of the world cube, in nanometres (ten metres).
pub const WORLD_SIZE: i64 = 10_000_000_000;

/// Largest size of a position component, in nanometres (about 1100 metres).
pub const POS_LIMIT: i64 = 1_099_511_627_776;

/// Largest size of a velocity component, in micrometres per second.
pub const VEL_LIMIT: i64 = 68_719_476_736;

/// Largest particle radius, in nanometres.
pub const SIZE_LIMIT: i64 = 1_099_511_627_776;

/// Velocity of a particle, in micrometres per second.
#[derive(Clone, Copy, Debug, PartialEq, Eq, Structural)]
pub struct ParticleVelocity {
    pub velocity: Vec3,
}

/// Radius of a particle, in nanometres; used for contact and for display.
#[derive(Clone, Copy, Debug, PartialEq, Eq, Structural)]
pub struct ParticleSize {
    pub size: i64,
}

/// Time a particle has left to live, in milliseconds.
#[derive(Clone, Copy, Debug, PartialEq, Eq, Structural)]
pub struct Lifetime {
    pub remaining: u64,
}

/// Display colour; it has no physical effect.
#[derive(Clone, Copy, Debug, PartialEq, Eq, Structural)]
pub struct Color {
    pub r: u8,
    pub g: u8,
    pub b: u8,
    pub a: u8,
}

/// One simulated particle.
#[derive(Clone, Copy, Debug, PartialEq, Eq, Structural)]
pub struct Particle {
    pub id: u64,
    pub position: Vec3,
    pub velocity: ParticleVelocity,
    pub size: ParticleSize,
    pub color: Color,
    pub lifetime: Lifetime,
}

impl Particle {
    /// The state lies in the range the arithmetic of a tick is proved for,
    /// and the radius is positive.
    pub open spec fn valid(&self) -> bool {
        &&& within(self.position, POS_LIMIT as int)
        &&& within(self.velocity.velocity, VEL_LIMIT as int)
        &&& 0 < self.size.size <= SIZE_LIMIT
    }

    pub open spec fn pos(&self) -> Vec3 {
        self.position
    }

    pub open spec fn vel(&self) -> Vec3 {
        self.velocity.velocity
    }
}

/// Every particle of `ps` is valid.
pub open spec fn all_valid(ps: Seq<Particle>) -> bool {
    forall|i: int| 0 <= i < ps.len() ==> (#[trigger] ps[i]).valid()
}

/// Whether `p` is valid, as `Particle::valid` states.
pub fn is_valid(p: &Particle) -> (r: bool)
    ensures
        r == p.valid(),
{
    let v = p.velocity.velocity;
    let q = p.position;
    -POS_LIMIT <= q.x && q.x <= POS_LIMIT && -POS_LIMIT <= q.y && q.y <= POS_LIMIT && -POS_LIMIT
        <= q.z && q.z <= POS_LIMIT && -VEL_LIMIT <= v.x && v.x <= VEL_LIMIT && -VEL_LIMIT <= v.y
        && v.y <= VEL_LIMIT && -VEL_LIMIT <= v.z && v.z <= VEL_LIMIT && 0 < p.size.size
        && p.size.size <= SIZE_LIMIT
}

} // verus!
