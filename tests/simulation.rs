use particle_sim::collision::collision_pass;
use particle_sim::config::{Model, SimulationConfig};
use particle_sim::flocking::{flocking_pass, isqrt};
use particle_sim::lifetime::remove_expired;
use particle_sim::particle::{Color, Lifetime, Particle, ParticleSize, ParticleVelocity};
use particle_sim::simulation::Simulation;
use particle_sim::spawner::{
    draw, make_particle, ParticleSpawner, SpawnDraw, SpawnTimer, SPAWN_ALPHA, SPAWN_SIZE_MAX,
    SPAWN_SIZE_MIN, SPAWN_SPREAD,
};
use particle_sim::store::ParticleStore;
use particle_sim::vector::{tdiv_exec, Vec3};
use particle_sim::world::World;
use rand::rngs::StdRng;
use rand::SeedableRng;

const WHITE: Color = Color { r: 255, g: 255, b: 255, a: 204 };

fn particle(id: u64, pos: (i64, i64, i64), vel: (i64, i64, i64), size: i64, life: u64) -> Particle {
    Particle {
        id,
        position: Vec3::new(pos.0, pos.1, pos.2),
        velocity: ParticleVelocity { velocity: Vec3::new(vel.0, vel.1, vel.2) },
        size: ParticleSize { size },
        color: WHITE,
        lifetime: Lifetime { remaining: life },
    }
}

fn config(model: Model, boundary: bool, gravity: i64) -> SimulationConfig {
    SimulationConfig {
        spawn_interval: 500,
        spawn_count: 0,
        base_speed: 2_000_000,
        lifetime: 5_000,
        gravity_strength: gravity,
        boundary_enabled: boundary,
        model,
    }
}

#[test]
fn separated_pair_keeps_velocities() {
    let ps = vec![
        particle(0, (0, 0, 0), (-1_000_000, 0, 0), 100_000_000, 1000),
        particle(1, (3_000_000_000, 0, 0), (1_000_000, 0, 0), 100_000_000, 1000),
    ];
    assert_eq!(collision_pass(&ps, false), vec![None, None]);
}

#[test]
fn overlapping_but_receding_pair_keeps_velocities() {
    let ps = vec![
        particle(0, (0, 0, 0), (-1_000_000, 0, 0), 500_000_000, 1000),
        particle(1, (500_000_000, 0, 0), (1_000_000, 0, 0), 500_000_000, 1000),
    ];
    assert_eq!(collision_pass(&ps, false), vec![None, None]);
}

#[test]
fn head_on_pair_turns_back_damped() {
    let ps = vec![
        particle(0, (0, 0, 0), (1_000_000, 0, 0), 500_000_000, 1000),
        particle(1, (500_000_000, 0, 0), (-1_000_000, 0, 0), 500_000_000, 1000),
    ];
    let r = collision_pass(&ps, false);
    assert_eq!(r[0], Some(Vec3::new(-800_000, 0, 0)));
    assert_eq!(r[1], Some(Vec3::new(800_000, 0, 0)));
}

#[test]
fn first_contact_wins() {
    // A touches B along x and C along the diagonal; B comes first.
    let ps = vec![
        particle(0, (0, 0, 0), (1_000_000, 0, 0), 500_000_000, 1000),
        particle(1, (500_000_000, 0, 0), (-1_000_000, 0, 0), 500_000_000, 1000),
        particle(2, (-300_000_000, -300_000_000, 0), (2_000_000, 2_000_000, 0), 500_000_000, 1000),
    ];
    let r = collision_pass(&ps, false);
    // The response to C alone would be (100_000, -900_000, 0).
    assert_eq!(r[0], Some(Vec3::new(-800_000, 0, 0)));
    assert_eq!(r[1], Some(Vec3::new(800_000, 0, 0)));
    assert_eq!(r[2], Some(Vec3::new(-1_600_000, -1_600_000, 0)));
    let only_ac = vec![ps[0], ps[2]];
    assert_eq!(collision_pass(&only_ac, false)[0], Some(Vec3::new(100_000, -900_000, 0)));
}

#[test]
fn corner_reflects_both_axes() {
    let ps = vec![particle(0, (10_500_000_000, 0, 10_500_000_000), (1_000_000, 2_000_000, 3_000_000), 100_000_000, 1000)];
    let r = collision_pass(&ps, true);
    assert_eq!(r[0], Some(Vec3::new(-800_000, 2_000_000, -2_400_000)));
}

#[test]
fn walls_off_leave_outside_particle_alone() {
    let ps = vec![particle(0, (10_500_000_000, 0, 10_500_000_000), (1_000_000, 2_000_000, 3_000_000), 100_000_000, 1000)];
    assert_eq!(collision_pass(&ps, false), vec![None]);
}

#[test]
fn lower_wall_reflects_upward() {
    let ps = vec![particle(0, (0, -10_000_000_001, 0), (0, -5_000_000, 0), 100_000_000, 1000)];
    assert_eq!(collision_pass(&ps, true)[0], Some(Vec3::new(0, 4_000_000, 0)));
}

#[test]
fn inside_particle_with_walls_gets_own_velocity() {
    let ps = vec![particle(0, (0, 0, 0), (7, -3, 5), 100_000_000, 1000)];
    assert_eq!(collision_pass(&ps, true), vec![Some(Vec3::new(7, -3, 5))]);
}

#[test]
fn flocking_near_wall_replaces_field() {
    let ps = vec![
        particle(0, (9_500_000_000, 0, 0), (0, 0, 0), 100_000_000, 1000),
        particle(1, (8_000_000_000, 0, 0), (0, 0, 0), 100_000_000, 1000),
    ];
    // Walls on: the pair term 240_000 is replaced by the wall term -222_222.
    let with_walls = flocking_pass(&ps, true);
    assert_eq!(with_walls[0], Vec3::new(-22_222, 0, 0));
    // Walls off: the pair term stands.
    let without = flocking_pass(&ps, false);
    assert_eq!(without[0], Vec3::new(24_000, 0, 0));
    assert_eq!(without[1], Vec3::new(-24_000, 0, 0));
}

#[test]
fn flocking_blends_momentum() {
    let ps = vec![particle(0, (0, 0, 0), (1_000_000, -1_000_000, 15), 100_000_000, 1000)];
    assert_eq!(flocking_pass(&ps, false), vec![Vec3::new(900_000, -900_000, 13)]);
}

#[test]
fn integer_square_root() {
    assert_eq!(isqrt(0), 0);
    assert_eq!(isqrt(15), 3);
    assert_eq!(isqrt(16), 4);
    assert_eq!(isqrt(2_250_000_000_000_000_000), 1_500_000_000);
}

#[test]
fn division_rounds_toward_zero() {
    assert_eq!(tdiv_exec(7, 2), 3);
    assert_eq!(tdiv_exec(-7, 2), -3);
    assert_eq!(tdiv_exec(0, 5), 0);
}

#[test]
fn lifetime_counts_down_to_zero_then_particle_leaves() {
    let mut store = ParticleStore::new();
    let cfg = config(Model::Collision, false, 0);
    assert_eq!(store.add(Vec3::zero(), Vec3::zero(), 100_000_000, WHITE, 250), Some(0));
    store.step(&cfg, 100);
    assert_eq!(store.particles()[0].lifetime.remaining, 150);
    store.step(&cfg, 100);
    assert_eq!(store.particles()[0].lifetime.remaining, 50);
    store.step(&cfg, 100);
    assert_eq!(store.len(), 0);
}

#[test]
fn lifetime_tick_holds_at_zero() {
    let mut l = Lifetime { remaining: 30 };
    l.tick(20);
    assert_eq!(l.remaining, 10);
    assert!(!l.finished());
    l.tick(20);
    assert_eq!(l.remaining, 0);
    assert!(l.finished());
}

#[test]
fn remove_expired_keeps_order() {
    let ps = vec![
        particle(0, (0, 0, 0), (0, 0, 0), 1, 0),
        particle(1, (0, 0, 0), (0, 0, 0), 1, 5),
        particle(2, (0, 0, 0), (0, 0, 0), 1, 0),
        particle(3, (0, 0, 0), (0, 0, 0), 1, 7),
    ];
    let kept = remove_expired(ps);
    assert_eq!(kept.iter().map(|p| p.id).collect::<Vec<_>>(), vec![1, 3]);
}

#[test]
fn spawn_of_ten() {
    let mut store = ParticleStore::new();
    let mut rng = StdRng::seed_from_u64(7);
    assert_eq!(store.spawn_batch(10, 2_000_000, 5_000, &mut rng), 10);
    assert_eq!(store.len(), 10);
    assert_eq!(store.next_id(), 10);
    for (k, p) in store.particles().iter().enumerate() {
        assert_eq!(p.id, k as u64);
        assert!(SPAWN_SIZE_MIN <= p.size.size && p.size.size < SPAWN_SIZE_MAX);
        assert_eq!(p.lifetime.remaining, 5_000);
        assert_eq!(p.position.y, 0);
        assert!(-SPAWN_SPREAD <= p.position.x && p.position.x < SPAWN_SPREAD);
        assert!(-SPAWN_SPREAD <= p.position.z && p.position.z < SPAWN_SPREAD);
        assert_eq!(p.velocity.velocity.y, 2_000_000);
        assert!(-2_000_000 <= p.velocity.velocity.x && p.velocity.velocity.x < 2_000_000);
        assert_eq!(p.color.a, SPAWN_ALPHA);
    }
}

#[test]
fn draws_vary_and_stay_in_range() {
    let mut rng = StdRng::seed_from_u64(11);
    let draws: Vec<SpawnDraw> = (0..20).map(|_| draw(&mut rng, 1_000)).collect();
    for d in &draws {
        assert!(SPAWN_SIZE_MIN <= d.size && d.size < SPAWN_SIZE_MAX);
        assert!(-1_000 <= d.vx && d.vx < 1_000);
    }
    assert!(draws.iter().any(|d| d.size != SPAWN_SIZE_MIN));
    assert!(draws.iter().any(|d| d.size != draws[0].size));
    let still = draw(&mut rng, 0);
    assert_eq!((still.vx, still.vz), (0, 0));
}

#[test]
fn particle_from_draws() {
    let d = SpawnDraw { size: 200_000_000, x: -5, z: 6, vx: 7, vz: -8, r: 1, g: 2, b: 3 };
    let p = make_particle(42, &d, 3_000_000, 1_500);
    assert_eq!(p, particle(42, (-5, 0, 6), (7, 3_000_000, -8), 200_000_000, 1_500).with_color(1, 2, 3));
}

trait WithColor {
    fn with_color(self, r: u8, g: u8, b: u8) -> Self;
}

impl WithColor for Particle {
    fn with_color(mut self, r: u8, g: u8, b: u8) -> Self {
        self.color = Color { r, g, b, a: SPAWN_ALPHA };
        self
    }
}

#[test]
fn spawn_timer_repeats() {
    let mut t = SpawnTimer { elapsed: 0 };
    assert!(!t.tick(250, 100));
    assert!(!t.tick(250, 100));
    assert!(t.tick(250, 100));
    assert_eq!(t.elapsed, 50);
    assert!(t.tick(0, 10));
    assert_eq!(t.elapsed, 0);
}

#[test]
fn tick_spawns_when_timer_fires() {
    let mut sim = Simulation::new();
    let mut cfg = config(Model::Collision, true, 9_810);
    cfg.spawn_count = 10;
    let mut rng = StdRng::seed_from_u64(3);
    sim.tick(&cfg, 400, &mut rng);
    assert_eq!(sim.store.len(), 0);
    sim.tick(&cfg, 100, &mut rng);
    assert_eq!(sim.store.len(), 10);
    assert_eq!(sim.spawner.particle_count, 10);
    assert_eq!(sim.spawner.spawn_timer.elapsed, 0);
    for p in sim.store.particles() {
        assert_eq!(p.lifetime.remaining, 4_900);
    }
}

#[test]
fn free_fall_matches_euler() {
    let mut store = ParticleStore::new();
    let cfg = config(Model::Collision, false, 9_810);
    store.add(Vec3::zero(), Vec3::zero(), 500_000_000, WHITE, 10_000);
    for _ in 0..10 {
        store.step(&cfg, 100);
    }
    let p = store.particles()[0];
    // -9.81 m/s, and -9.81 * (0.1 + 0.2 + ... + 1.0) * 0.1 m = -5.3955 m.
    assert_eq!(p.velocity.velocity, Vec3::new(0, -9_810_000, 0));
    assert_eq!(p.position, Vec3::new(0, -5_395_500_000, 0));
    assert_eq!(p.lifetime.remaining, 9_000);
}

#[test]
fn add_refuses_invalid_particle() {
    let mut store = ParticleStore::new();
    assert_eq!(store.add(Vec3::zero(), Vec3::zero(), 0, WHITE, 10), None);
    assert_eq!(store.len(), 0);
    assert_eq!(store.next_id(), 0);
}

#[test]
fn standard_settings() {
    let c = SimulationConfig::standard();
    assert_eq!(c.spawn_count, 10);
    assert_eq!(c.spawn_interval, 500);
    assert_eq!(c.gravity_strength, 9_810);
    assert!(c.boundary_enabled);
    assert_eq!(c.model, Model::Collision);
    let w = World::new();
    assert_eq!(w.gravity, Vec3::new(0, -9_810, 0));
    assert_eq!(w.width, 5_000_000_000);
    let s = ParticleSpawner::new();
    assert_eq!(s.particle_count, 0);
}
