//! The spawner: a repeating timer and the creation of particles with
//! randomized attributes.
use vstd::prelude::*;

use rand::Rng;

use crate::particle::{Color, Lifetime, Particle, ParticleSize, ParticleVelocity, VEL_LIMIT};
use crate::store::ParticleStore;
use crate::vector::Vec3;

verus! {

/// Smallest radius of a new particle, in nanometres (0.1 m).
pub const SPAWN_SIZE_MIN: i64 = 100_000_000;

/// Bound, not reached, of the radius of a new particle (1 m).
pub const SPAWN_SIZE_MAX: i64 = 1_000_000_000;

/// New particles start with horizontal coordinates in `[-4 m, 4 m)`.
pub const SPAWN_SPREAD: i64 = 4_000_000_000;

/// Opacity of every particle: 204 / 255 = 0.8.
pub const SPAWN_ALPHA: u8 = 204;

/// rand's seedable generator, carried through opaque: a caller seeds it
/// to replay a run.
#[verifier::external_type_specification]
#[verifier::external_body]
pub struct ExStdRng(rand::rngs::StdRng);

/// Relies on rand's `Rng::gen_range` over an integer range `lo..hi`, which
/// samples through `UniformInt::sample_single`: a value in `[lo, hi)`. It
/// panics on an empty range, which `requires` rules out.
#[verifier::external_body]
fn uniform(rng: &mut rand::rngs::StdRng, lo: i64, hi: i64) -> (r: i64)
    requires
        lo < hi,
    ensures
        lo <= r < hi,
{
    rng.gen_range(lo..hi)
}

/// A repeating timer in milliseconds.
#[derive(Clone, Copy, Debug, PartialEq, Eq, Structural)]
pub struct SpawnTimer {
    pub elapsed: u64,
}

/// Whether the timer fires when `dt` passes with period `interval`; a zero
/// period fires on every tick.
pub open spec fn timer_fires(elapsed: int, interval: int, dt: int) -> bool {
    interval == 0 || elapsed + dt >= interval
}

/// The time on the timer after `dt`: what is left over past the last whole period.
pub open spec fn timer_after(elapsed: int, interval: int, dt: int) -> int {
    if interval == 0 { 0 } else { (elapsed + dt) % interval }
}

impl SpawnTimer {
    /// Advances the timer by `dt` under period `interval` and says whether it fired.
    pub fn tick(&mut self, interval: u64, dt: u32) -> (fired: bool)
        ensures
            fired == timer_fires(old(self).elapsed as int, interval as int, dt as int),
            final(self).elapsed == timer_after(old(self).elapsed as int, interval as int, dt as int),
    {
        if interval == 0 {
            self.elapsed = 0;
            return true;
        }
        let total: u128 = self.elapsed as u128 + dt as u128;
        self.elapsed = (total % interval as u128) as u64;
        total >= interval as u128
    }
}

/// The spawner: its timer and the number of particles it has created.
#[derive(Clone, Copy, Debug, PartialEq, Eq, Structural)]
pub struct ParticleSpawner {
    pub spawn_timer: SpawnTimer,
    pub particle_count: u64,
}

impl ParticleSpawner {
    pub fn new() -> (r: ParticleSpawner)
        ensures
            r.spawn_timer.elapsed == 0,
            r.particle_count == 0,
    {
        ParticleSpawner { spawn_timer: SpawnTimer { elapsed: 0 }, particle_count: 0 }
    }
}

/// The random values that a new particle is made from.
#[derive(Clone, Copy, Debug, PartialEq, Eq, Structural)]
pub struct SpawnDraw {
    pub size: i64,
    pub x: i64,
    pub z: i64,
    pub vx: i64,
    pub vz: i64,
    pub r: u8,
    pub g: u8,
    pub b: u8,
}

/// The launch speed, held to the velocity range.
pub open spec fn launch_speed(base: u64) -> int {
    if base > VEL_LIMIT { VEL_LIMIT as int } else { base as int }
}

/// The lateral velocities lie in `[-s, s)` for launch speed `s`, or are zero where `s` is.
pub open spec fn lateral_in_range(v: i64, base: u64) -> bool {
    if launch_speed(base) == 0 {
        v == 0
    } else {
        -launch_speed(base) <= v < launch_speed(base)
    }
}

/// The draws lie in the ranges of a spawn.
pub open spec fn draw_in_range(d: SpawnDraw, base: u64) -> bool {
    &&& SPAWN_SIZE_MIN <= d.size < SPAWN_SIZE_MAX
    &&& -SPAWN_SPREAD <= d.x < SPAWN_SPREAD
    &&& -SPAWN_SPREAD <= d.z < SPAWN_SPREAD
    &&& lateral_in_range(d.vx, base)
    &&& lateral_in_range(d.vz, base)
}

/// The particle made from draws `d`: on the horizontal plane, launched
/// upward at the launch speed with the drawn lateral velocity.
pub open spec fn spawned(id: u64, d: SpawnDraw, base: u64, lifetime: u64) -> Particle {
    Particle {
        id,
        position: Vec3 { x: d.x, y: 0, z: d.z },
        velocity: ParticleVelocity { velocity: Vec3 { x: d.vx, y: launch_speed(base) as i64, z: d.vz } },
        size: ParticleSize { size: d.size },
        color: Color { r: d.r, g: d.g, b: d.b, a: SPAWN_ALPHA },
        lifetime: Lifetime { remaining: lifetime },
    }
}

/// `fresh` holds the particles of one spawn after identity `first`: their
/// identities follow each other, each is made from draws in range, and each
/// has the configured lifetime.
pub open spec fn spawn_of(fresh: Seq<Particle>, first: u64, base: u64, lifetime: u64) -> bool {
    forall|k: int|
        0 <= k < fresh.len() ==> exists|d: SpawnDraw|
            draw_in_range(d, base) && #[trigger] fresh[k] == spawned((first + k) as u64, d, base, lifetime)
}

/// Makes the particle of identity `id` from the draws `d`.
pub fn make_particle(id: u64, d: &SpawnDraw, base: u64, lifetime: u64) -> (p: Particle)
    ensures
        p == spawned(id, *d, base, lifetime),
        draw_in_range(*d, base) ==> p.valid(),
{
    let speed: i64 = if base > VEL_LIMIT as u64 { VEL_LIMIT } else { base as i64 };
    Particle {
        id,
        position: Vec3 { x: d.x, y: 0, z: d.z },
        velocity: ParticleVelocity { velocity: Vec3 { x: d.vx, y: speed, z: d.vz } },
        size: ParticleSize { size: d.size },
        color: Color { r: d.r, g: d.g, b: d.b, a: SPAWN_ALPHA },
        lifetime: Lifetime { remaining: lifetime },
    }
}

fn lateral(rng: &mut rand::rngs::StdRng, base: u64) -> (v: i64)
    ensures
        lateral_in_range(v, base),
{
    let speed: i64 = if base > VEL_LIMIT as u64 { VEL_LIMIT } else { base as i64 };
    if speed == 0 {
        0
    } else {
        uniform(rng, -speed, speed)
    }
}

fn channel(rng: &mut rand::rngs::StdRng) -> u8 {
    uniform(rng, 0, 256) as u8
}

/// Draws the random values of one new particle.
pub fn draw(rng: &mut rand::rngs::StdRng, base: u64) -> (d: SpawnDraw)
    ensures
        draw_in_range(d, base),
{
    let size = uniform(rng, SPAWN_SIZE_MIN, SPAWN_SIZE_MAX);
    let r = channel(rng);
    let g = channel(rng);
    let b = channel(rng);
    let x = uniform(rng, -SPAWN_SPREAD, SPAWN_SPREAD);
    let z = uniform(rng, -SPAWN_SPREAD, SPAWN_SPREAD);
    let vx = lateral(rng, base);
    let vz = lateral(rng, base);
    SpawnDraw { size, x, z, vx, vz, r, g, b }
}

/// The number of particles a spawn of `count` creates: all of them, as far
/// as identities remain.
pub open spec fn spawn_size(count: u32, next_id: u64) -> int {
    if next_id as int + count as int <= u64::MAX { count as int } else { u64::MAX - next_id }
}

impl ParticleStore {
    /// Creates `count` particles with drawn attributes, launch speed `base`
    /// and lifetime `lifetime`, under the next identities, and returns how
    /// many it created.
    pub fn spawn_batch(&mut self, count: u32, base: u64, lifetime: u64, rng: &mut rand::rngs::StdRng) -> (n: u32)
        requires
            old(self).wf(),
        ensures
            final(self).wf(),
            n == spawn_size(count, old(self).next_id_spec()),
            final(self)@.len() == old(self)@.len() + n,
            final(self)@.subrange(0, old(self)@.len() as int) == old(self)@,
            final(self).next_id_spec() == old(self).next_id_spec() + n,
            spawn_of(
                final(self)@.subrange(old(self)@.len() as int, final(self)@.len() as int),
                old(self).next_id_spec(),
                base,
                lifetime,
            ),
    {
        let ghost start = self@;
        let ghost first = self.next_id_spec();
        let mut made: u32 = 0;
        while made < count && self.next_id() < u64::MAX
            invariant
                self.wf(),
                made <= count,
                self@.len() == start.len() + made,
                self@.subrange(0, start.len() as int) == start,
                self.next_id_spec() == first + made,
                spawn_of(self@.subrange(start.len() as int, self@.len() as int), first, base, lifetime),
            decreases count - made,
        {
            let d = draw(rng, base);
            let p = make_particle(self.next_id(), &d, base, lifetime);
            let ghost before = self@;
            self.push_particle(p);
            proof {
                assert(self@.subrange(0, start.len() as int) =~= before.subrange(0, start.len() as int));
                let fresh = self@.subrange(start.len() as int, self@.len() as int);
                let old_fresh = before.subrange(start.len() as int, before.len() as int);
                assert forall|k: int| 0 <= k < fresh.len() implies exists|e: SpawnDraw|
                    draw_in_range(e, base) && #[trigger] fresh[k] == spawned((first + k) as u64, e, base, lifetime) by {
                    if k < old_fresh.len() {
                        assert(fresh[k] == old_fresh[k]);
                    } else {
                        assert(fresh[k] == p);
                    }
                }
            }
            made = made + 1;
        }
        made
    }
}

} // verus!

verus! {

/// Every particle of a spawn is valid, has a radius in `[0.1 m, 1 m)`, the
/// configured lifetime, and the next identity in turn.
pub proof fn lemma_spawn_attributes(fresh: Seq<Particle>, first: u64, base: u64, lifetime: u64)
    requires
        spawn_of(fresh, first, base, lifetime),
        first + fresh.len() <= u64::MAX,
    ensures
        forall|k: int|
            0 <= k < fresh.len() ==> {
                &&& (#[trigger] fresh[k]).valid()
                &&& SPAWN_SIZE_MIN <= fresh[k].size.size < SPAWN_SIZE_MAX
                &&& fresh[k].lifetime.remaining == lifetime
                &&& fresh[k].id == first + k
                &&& fresh[k].position.y == 0
                &&& fresh[k].velocity.velocity.y == launch_speed(base)
            },
{
    assert forall|k: int| 0 <= k < fresh.len() implies {
        &&& (#[trigger] fresh[k]).valid()
        &&& SPAWN_SIZE_MIN <= fresh[k].size.size < SPAWN_SIZE_MAX
        &&& fresh[k].lifetime.remaining == lifetime
        &&& fresh[k].id == first + k
        &&& fresh[k].position.y == 0
        &&& fresh[k].velocity.velocity.y == launch_speed(base)
    } by {
        let d = choose|d: SpawnDraw| draw_in_range(d, base) && fresh[k] == spawned((first + k) as u64, d, base, lifetime);
    }
}

} // verus!
