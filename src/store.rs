//! The particle store and the simulation step over it.
use vstd::prelude::*;

use crate::collision::{collision_pass, collision_pending, first_contact};
use crate::config::{Model, SimulationConfig};
use crate::flocking::{flocking_pass, flocking_pending};
use crate::integrator::{integrate, integrated};
use crate::lifetime::{counted_down, ids_increasing, reaped, remove_expired, survivors};
use crate::particle::{Color, Lifetime, Particle, ParticleSize, ParticleVelocity, all_valid, POS_LIMIT, VEL_LIMIT};
use crate::vector::{Vec3, within};

verus! {

/// The pending velocity of particle `i` of `ps` under the configured model.
pub open spec fn pending_of(ps: Seq<Particle>, cfg: SimulationConfig, i: int) -> Option<Vec3> {
    match cfg.model {
        Model::Collision => collision_pending(ps, cfg.boundary_enabled, i),
        Model::Flocking => Some(flocking_pending(ps, cfg.boundary_enabled, i)),
    }
}

/// Every countdown advanced by `dt`.
pub open spec fn reaped_all(ps: Seq<Particle>, dt: int) -> Seq<Particle> {
    Seq::new(ps.len(), |i: int| reaped(ps[i], dt))
}

/// The particles after the countdown, the interaction and the integration
/// of one tick, expired ones included.
pub open spec fn advanced(ps: Seq<Particle>, cfg: SimulationConfig, dt: int) -> Seq<Particle> {
    let r = reaped_all(ps, dt);
    Seq::new(
        r.len(),
        |i: int| integrated(r[i], pending_of(r, cfg, i), cfg.gravity_strength as int, dt),
    )
}

/// The particles after one tick without spawning.
pub open spec fn stepped(ps: Seq<Particle>, cfg: SimulationConfig, dt: int) -> Seq<Particle> {
    survivors(advanced(ps, cfg, dt))
}

/// The live particles, ordered by identity.
pub struct ParticleStore {
    particles: Vec<Particle>,
    next_id: u64,
}

impl View for ParticleStore {
    type V = Seq<Particle>;

    closed spec fn view(&self) -> Seq<Particle> {
        self.particles@
    }
}

impl ParticleStore {
    /// The identity the next particle will get.
    pub closed spec fn next_id_spec(&self) -> u64 {
        self.next_id
    }

    /// Every particle is valid, identities increase along the store, and
    /// none has reached the next identity.
    pub open spec fn wf(&self) -> bool {
        &&& all_valid(self@)
        &&& ids_increasing(self@)
        &&& forall|k: int| 0 <= k < self@.len() ==> (#[trigger] self@[k]).id < self.next_id_spec()
    }

    pub fn new() -> (r: ParticleStore)
        ensures
            r@ == Seq::<Particle>::empty(),
            r.next_id_spec() == 0,
            r.wf(),
    {
        ParticleStore { particles: Vec::new(), next_id: 0 }
    }

    /// Number of live particles.
    pub fn len(&self) -> (r: usize)
        ensures
            r == self@.len(),
    {
        self.particles.len()
    }

    /// The live particles, for display.
    pub fn particles(&self) -> (r: &Vec<Particle>)
        ensures
            r@ == self@,
    {
        &self.particles
    }

    pub fn next_id(&self) -> (r: u64)
        ensures
            r == self.next_id_spec(),
    {
        self.next_id
    }

    /// Adds a particle under the next identity and returns that identity.
    /// Gives `None`, and changes nothing, where the particle would not be
    /// valid or the identities are used up.
    pub fn add(
        &mut self,
        position: Vec3,
        velocity: Vec3,
        size: i64,
        color: Color,
        lifetime: u64,
    ) -> (r: Option<u64>)
        requires
            old(self).wf(),
        ensures
            final(self).wf(),
            ({
                let p = Particle {
                    id: old(self).next_id_spec(),
                    position,
                    velocity: ParticleVelocity { velocity },
                    size: ParticleSize { size },
                    color,
                    lifetime: Lifetime { remaining: lifetime },
                };
                if p.valid() && old(self).next_id_spec() < u64::MAX {
                    &&& r == Some(old(self).next_id_spec())
                    &&& final(self)@ == old(self)@.push(p)
                    &&& final(self).next_id_spec() == old(self).next_id_spec() + 1
                } else {
                    &&& r is None
                    &&& final(self)@ == old(self)@
                    &&& final(self).next_id_spec() == old(self).next_id_spec()
                }
            }),
    {
        let p = Particle {
            id: self.next_id,
            position,
            velocity: ParticleVelocity { velocity },
            size: ParticleSize { size },
            color,
            lifetime: Lifetime { remaining: lifetime },
        };
        if !crate::particle::is_valid(&p) || self.next_id == u64::MAX {
            return None;
        }
        self.push_particle(p);
        Some(p.id)
    }

    /// Appends `p`, which carries the next identity.
    pub(crate) fn push_particle(&mut self, p: Particle)
        requires
            old(self).wf(),
            p.valid(),
            p.id == old(self).next_id_spec(),
            old(self).next_id_spec() < u64::MAX,
        ensures
            final(self).wf(),
            final(self)@ == old(self)@.push(p),
            final(self).next_id_spec() == old(self).next_id_spec() + 1,
    {
        self.particles.push(p);
        self.next_id = self.next_id + 1;
    }

    /// One tick without spawning: count down every lifetime, compute the
    /// pending velocities under the configured model, integrate, then remove
    /// the particles whose lifetime has run out. A particle that expires in
    /// this tick still takes part in its interaction and integration.
    pub fn step(&mut self, cfg: &SimulationConfig, dt: u32)
        requires
            old(self).wf(),
        ensures
            final(self).wf(),
            final(self)@ == stepped(old(self)@, *cfg, dt as int),
            final(self).next_id_spec() == old(self).next_id_spec(),
    {
        let n = self.particles.len();
        let mut live: Vec<Particle> = Vec::new();
        let mut i: usize = 0;
        while i < n
            invariant
                n == self.particles@.len(),
                i <= n,
                live@.len() == i,
                forall|k: int| 0 <= k < i ==> #[trigger] live@[k] == reaped(self.particles@[k], dt as int),
            decreases n - i,
        {
            let mut p = self.particles[i];
            p.lifetime.tick(dt);
            live.push(p);
            i += 1;
        }
        assert(live@ =~= reaped_all(self@, dt as int));
        let ghost r = live@;
        let collision: Vec<Option<Vec3>>;
        let flocking: Vec<Vec3>;
        match cfg.model {
            Model::Collision => {
                collision = collision_pass(&live, cfg.boundary_enabled);
                flocking = Vec::new();
            },
            Model::Flocking => {
                collision = Vec::new();
                flocking = flocking_pass(&live, cfg.boundary_enabled);
            },
        }
        let mut out: Vec<Particle> = Vec::new();
        let mut i: usize = 0;
        while i < n
            invariant
                n == live@.len(),
                live@ == r,
                i <= n,
                all_valid(r),
                ids_increasing(r),
                cfg.model == Model::Collision ==> collision@.len() == n && forall|k: int|
                    0 <= k < n ==> #[trigger] collision@[k] == collision_pending(r, cfg.boundary_enabled, k)
                        && (collision@[k] is Some ==> within(collision@[k]->Some_0, VEL_LIMIT as int)),
                cfg.model == Model::Flocking ==> flocking@.len() == n && forall|k: int|
                    0 <= k < n ==> #[trigger] flocking@[k] == flocking_pending(r, cfg.boundary_enabled, k)
                        && within(flocking@[k], VEL_LIMIT as int),
                out@.len() == i,
                forall|k: int|
                    0 <= k < i ==> #[trigger] out@[k] == integrated(
                        r[k],
                        pending_of(r, *cfg, k),
                        cfg.gravity_strength as int,
                        dt as int,
                    ),
                forall|k: int| 0 <= k < i ==> (#[trigger] out@[k]).valid() && out@[k].id == r[k].id,
            decreases n - i,
        {
            let pending = match cfg.model {
                Model::Collision => collision[i],
                Model::Flocking => Some(flocking[i]),
            };
            let mut p = live[i];
            integrate(&mut p, pending, cfg.gravity_strength, dt);
            out.push(p);
            i += 1;
        }
        assert(out@ =~= advanced(self@, *cfg, dt as int));
        assert(ids_increasing(out@)) by {
            assert forall|a: int, b: int| 0 <= a < b < out@.len() implies (#[trigger] out@[a]).id < (#[trigger] out@[b]).id by {
                assert(r[a].id < r[b].id);
            }
        }
        let kept = remove_expired(out);
        proof {
            assert forall|k: int| 0 <= k < kept@.len() implies (#[trigger] kept@[k]).id < self.next_id by {
                let j = choose|j: int| 0 <= j < out@.len() && out@[j] == kept@[k];
                assert(out@[j].id == self.particles@[j].id);
            }
        }
        self.particles = kept;
    }
}

} // verus!

verus! {

/// `k` ticks without spawning.
pub open spec fn steps(ps: Seq<Particle>, cfg: SimulationConfig, dt: int, k: nat) -> Seq<Particle>
    decreases k,
{
    if k == 0 {
        ps
    } else {
        stepped(steps(ps, cfg, dt, (k - 1) as nat), cfg, dt)
    }
}

/// `1 + 2 + ... + k`.
pub open spec fn tri(k: nat) -> nat
    decreases k,
{
    if k == 0 { 0 } else { tri((k - 1) as nat) + k }
}

/// Particle `p`, at rest at first, after `k` steps of free fall: velocity
/// `-k g dt`, height lowered by `g dt (dt + 2 dt + ... + k dt)`.
pub open spec fn fallen(p: Particle, g: int, dt: int, k: nat) -> Particle {
    Particle {
        velocity: ParticleVelocity { velocity: Vec3 { x: 0, y: (-(k * g * dt)) as i64, z: 0 } },
        position: Vec3 { y: (p.pos().y - g * dt * dt * tri(k)) as i64, ..p.position },
        lifetime: Lifetime { remaining: (p.lifetime.remaining - k * dt) as u64 },
        ..p
    }
}

/// Lifetimes only count down: every particle after a step carries the
/// identity of one before it, with no more time left and some left; and a
/// particle is gone after the step exactly when its countdown reached zero.
pub proof fn lemma_lifetime_monotone(ps: Seq<Particle>, cfg: SimulationConfig, dt: u32)
    requires
        all_valid(ps),
        ids_increasing(ps),
    ensures
        forall|x: Particle|
            #[trigger] stepped(ps, cfg, dt as int).contains(x) ==> exists|j: int|
                0 <= j < ps.len() && ps[j].id == x.id && 0 < x.lifetime.remaining
                    <= #[trigger] ps[j].lifetime.remaining,
        forall|j: int|
            0 <= j < ps.len() ==> ((exists|x: Particle| #[trigger] stepped(ps, cfg, dt as int).contains(x) && x.id
                == ps[j].id) <==> counted_down(#[trigger] ps[j].lifetime.remaining as int, dt as int) > 0),
{
    let a = advanced(ps, cfg, dt as int);
    let s = stepped(ps, cfg, dt as int);
    crate::lifetime::lemma_survivors(a);
    assert forall|k: int| 0 <= k < a.len() implies #[trigger] a[k].id == ps[k].id
        && a[k].lifetime.remaining == counted_down(ps[k].lifetime.remaining as int, dt as int) by {
    }
    assert forall|x: Particle| #[trigger] s.contains(x) implies exists|j: int|
        0 <= j < ps.len() && ps[j].id == x.id && 0 < x.lifetime.remaining
            <= #[trigger] ps[j].lifetime.remaining by {
        let j = choose|j: int| 0 <= j < a.len() && a[j] == x;
        assert(ps[j].id == x.id);
    }
    assert forall|j: int| 0 <= j < ps.len() implies ((exists|x: Particle| #[trigger] s.contains(x) && x.id
        == ps[j].id) <==> counted_down(#[trigger] ps[j].lifetime.remaining as int, dt as int) > 0) by {
        if counted_down(ps[j].lifetime.remaining as int, dt as int) > 0 {
            assert(a.contains(a[j]));
            assert(s.contains(a[j]));
        }
        if exists|x: Particle| #[trigger] s.contains(x) && x.id == ps[j].id {
            let x = choose|x: Particle| #[trigger] s.contains(x) && x.id == ps[j].id;
            let k = choose|k: int| 0 <= k < a.len() && a[k] == x;
            if k < j {
                assert(ps[k].id < ps[j].id);
            }
            if j < k {
                assert(ps[j].id < ps[k].id);
            }
        }
    }
}

/// One step of free fall of a lone particle, at rest at first, under the
/// collision model with walls off.
proof fn lemma_fall_step(p: Particle, cfg: SimulationConfig, dt: u32, k: nat)
    requires
        k > 0,
        cfg.model == Model::Collision,
        !cfg.boundary_enabled,
        p.valid(),
        p.vel() == (Vec3 { x: 0, y: 0, z: 0 }),
        cfg.gravity_strength >= 0,
        p.lifetime.remaining > k * dt,
        k * cfg.gravity_strength * dt <= VEL_LIMIT,
        p.pos().y - cfg.gravity_strength * dt * dt * tri(k) >= -POS_LIMIT,
        fallen(p, cfg.gravity_strength as int, dt as int, (k - 1) as nat).valid(),
        (k - 1) * cfg.gravity_strength * dt <= k * cfg.gravity_strength * dt,
        cfg.gravity_strength * dt * dt * tri((k - 1) as nat) <= cfg.gravity_strength * dt * dt * tri(k),
    ensures
        stepped(seq![fallen(p, cfg.gravity_strength as int, dt as int, (k - 1) as nat)], cfg, dt as int)
            == seq![fallen(p, cfg.gravity_strength as int, dt as int, k)],
{
    let g = cfg.gravity_strength as int;
    let d = dt as int;
    let q = fallen(p, g, d, (k - 1) as nat);
    let ps = seq![q];
    let r = reaped_all(ps, d);
    assert(r =~= seq![reaped(q, d)]);
    assert(first_contact(r, 0, 0) == first_contact(r, 0, 1));
    assert(pending_of(r, cfg, 0) is None);
    let gd = g * d;
    assert(k * g * d == (k - 1) * g * d + gd) by (nonlinear_arith)
        requires
            gd == g * d,
    ;
    let c = g * d * d;
    assert(k * g * d * d == c * k) by (nonlinear_arith)
        requires
            c == g * d * d,
    ;
    assert(c * tri(k) == c * tri((k - 1) as nat) + c * k) by (nonlinear_arith)
        requires
            tri(k) == tri((k - 1) as nat) + k,
    ;
    assert(gd >= 0) by (nonlinear_arith)
        requires
            g >= 0,
            d >= 0,
            gd == g * d,
    ;
    assert(c * tri((k - 1) as nat) >= 0) by (nonlinear_arith)
        requires
            g >= 0,
            d >= 0,
            c == g * d * d,
    ;
    let x = integrated(r[0], None, g, d);
    let f = fallen(p, g, d, k);
    assert(k * d == (k - 1) * d + d) by (nonlinear_arith);
    assert(x.lifetime == f.lifetime);
    assert(x.velocity.velocity.y == f.velocity.velocity.y);
    assert(x.velocity == f.velocity);
    assert(0 * d == 0) by (nonlinear_arith);
    assert(x.velocity.velocity.y * d == -(k * g * d * d)) by (nonlinear_arith)
        requires
            x.velocity.velocity.y == -(k * g * d),
    ;
    assert(x.position == f.position);
    assert(x == f);
    let a = advanced(ps, cfg, d);
    assert(a =~= seq![x]);
    assert(a.drop_last() =~= Seq::<Particle>::empty());
    assert(survivors(a) == survivors(a.drop_last()).push(x));
    assert(survivors(a) =~= seq![x]);
}

/// A lone particle at rest, under the collision model with walls off,
/// falls by explicit Euler integration: after `k` steps of `dt` its vertical
/// velocity is `-k g dt` and its height has dropped by
/// `g dt (dt + 2 dt + ... + k dt)`, exactly, while it stays within range.
pub proof fn lemma_free_fall(p: Particle, cfg: SimulationConfig, dt: u32, k: nat)
    requires
        cfg.model == Model::Collision,
        !cfg.boundary_enabled,
        p.valid(),
        p.vel() == (Vec3 { x: 0, y: 0, z: 0 }),
        cfg.gravity_strength >= 0,
        p.lifetime.remaining > k * dt,
        k * cfg.gravity_strength * dt <= VEL_LIMIT,
        p.pos().y - cfg.gravity_strength * dt * dt * tri(k) >= -POS_LIMIT,
    ensures
        steps(seq![p], cfg, dt as int, k) == seq![fallen(p, cfg.gravity_strength as int, dt as int, k)],
        fallen(p, cfg.gravity_strength as int, dt as int, k).valid(),
    decreases k,
{
    let g = cfg.gravity_strength as int;
    let d = dt as int;
    if k == 0 {
        assert(tri(0) == 0);
        assert(g * d * d * 0 == 0 && 0 * g * d == 0 && 0 * d == 0) by (nonlinear_arith);
        assert(fallen(p, g, d, 0).position =~= p.position);
        assert(fallen(p, g, d, 0).velocity =~= p.velocity);
        assert(fallen(p, g, d, 0) =~= p);
    } else {
        let j = (k - 1) as nat;
        assert(j * g * d <= k * g * d) by (nonlinear_arith)
            requires
                g >= 0,
                d >= 0,
                j < k,
        ;
        assert(j * d <= k * d) by (nonlinear_arith)
            requires
                d >= 0,
                j < k,
        ;
        assert(tri(j) <= tri(k));
        assert(g * d * d * tri(j) <= g * d * d * tri(k)) by (nonlinear_arith)
            requires
                g >= 0,
                tri(j) <= tri(k),
        ;
        lemma_free_fall(p, cfg, dt, j);
        lemma_fall_step(p, cfg, dt, k);
        assert(k * g * d >= 0) by (nonlinear_arith)
            requires
                g >= 0,
                d >= 0,
        ;
        assert(g * d * d * tri(k) >= 0) by (nonlinear_arith)
            requires
                g >= 0,
        ;
    }
}

} // verus!
