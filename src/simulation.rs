//! One simulation tick: spawn, count down, interact, integrate.
use vstd::prelude::*;

use crate::config::SimulationConfig;
use crate::particle::Particle;
use crate::spawner::{ParticleSpawner, spawn_of, spawn_size, timer_after, timer_fires};
use crate::store::{ParticleStore, stepped};

verus! {

/// The particle store and the spawner that feeds it.
pub struct Simulation {
    pub store: ParticleStore,
    pub spawner: ParticleSpawner,
}

impl Simulation {
    pub fn new() -> (r: Simulation)
        ensures
            r.store.wf(),
            r.store@ == Seq::<Particle>::empty(),
            r.store.next_id_spec() == 0,
            r.spawner.spawn_timer.elapsed == 0,
            r.spawner.particle_count == 0,
    {
        Simulation { store: ParticleStore::new(), spawner: ParticleSpawner::new() }
    }

    /// Advances the simulation by `dt` milliseconds. The spawn timer runs
    /// first; where it fires, a spawn of `cfg.spawn_count` particles joins the
    /// store. Then the store takes one step. Whatever the random draws were,
    /// the new particles lie in the ranges of a spawn.
    pub fn tick(&mut self, cfg: &SimulationConfig, dt: u32, rng: &mut rand::rngs::StdRng)
        requires
            old(self).store.wf(),
        ensures
            final(self).store.wf(),
            final(self).spawner.spawn_timer.elapsed == timer_after(
                old(self).spawner.spawn_timer.elapsed as int,
                cfg.spawn_interval as int,
                dt as int,
            ),
            ({
                let fires = timer_fires(
                    old(self).spawner.spawn_timer.elapsed as int,
                    cfg.spawn_interval as int,
                    dt as int,
                );
                let first = old(self).store.next_id_spec();
                let made = spawn_size(cfg.spawn_count, first);
                &&& final(self).spawner.particle_count == if !fires {
                    old(self).spawner.particle_count as int
                } else if old(self).spawner.particle_count + made > u64::MAX {
                    u64::MAX as int
                } else {
                    old(self).spawner.particle_count + made
                }
                &&& if fires {
                    exists|fresh: Seq<Particle>|
                        {
                            &&& fresh.len() == spawn_size(cfg.spawn_count, first)
                            &&& spawn_of(fresh, first, cfg.base_speed, cfg.lifetime)
                            &&& #[trigger] stepped(old(self).store@ + fresh, *cfg, dt as int)
                                == final(self).store@
                        }
                } else {
                    final(self).store@ == stepped(old(self).store@, *cfg, dt as int)
                }
            }),
    {
        let ghost before = self.store@;
        let fired = self.spawner.spawn_timer.tick(cfg.spawn_interval, dt);
        if fired {
            let n = self.store.spawn_batch(cfg.spawn_count, cfg.base_speed, cfg.lifetime, rng);
            let total = self.spawner.particle_count as u128 + n as u128;
            self.spawner.particle_count = if total > u64::MAX as u128 {
                u64::MAX
            } else {
                total as u64
            };
            let ghost fresh = self.store@.subrange(before.len() as int, self.store@.len() as int);
            assert(before + fresh =~= self.store@);
            self.store.step(cfg, dt);
            assert(stepped(before + fresh, *cfg, dt as int) == self.store@);
        } else {
            self.store.step(cfg, dt);
        }
    }
}

} // verus!
