//! The runtime-tunable parameters of the simulation.
use vstd::prelude::*;

verus! {

/// The motion model of the interaction phase.
#[derive(Clone, Copy, Debug, PartialEq, Eq, Structural)]
pub enum Model {
    Collision,
    Flocking,
}

/// Parameters read at the start of each tick. No field is checked against
/// another; ranges offered by a user interface are advice only.
#[derive(Clone, Copy, Debug, PartialEq, Eq, Structural)]
pub struct SimulationConfig {
    /// Time between two spawns, in milliseconds.
    pub spawn_interval: u64,
    /// Particles created at each spawn.
    pub spawn_count: u32,
    /// Launch speed, in micrometres per second.
    pub base_speed: u64,
    /// Lifetime of a new particle, in milliseconds.
    pub lifetime: u64,
    /// Downward acceleration, in millimetres per second squared.
    pub gravity_strength: i64,
    /// Whether the walls of the world cube act on particles.
    pub boundary_enabled: bool,
    pub model: Model,
}

impl SimulationConfig {
    /// The settings a fresh simulation starts with: launch at 2 m/s, a spawn
    /// of ten every half second, five seconds of life, gravity 9.81 m/s^2,
    /// walls on, collision model.
    pub fn standard() -> (r: SimulationConfig)
        ensures
            r == (SimulationConfig {
                spawn_interval: 500,
                spawn_count: 10,
                base_speed: 2_000_000,
                lifetime: 5_000,
                gravity_strength: 9_810,
                boundary_enabled: true,
                model: Model::Collision,
            }),
    {
        SimulationConfig {
            spawn_interval: 500,
            spawn_count: 10,
            base_speed: 2_000_000,
            lifetime: 5_000,
            gravity_strength: 9_810,
            boundary_enabled: true,
            model: Model::Collision,
        }
    }
}

} // verus!
