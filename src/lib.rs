//! A bounded particle simulation on exact integer units.
//!
//! Lengths are nanometres, velocities micrometres per second, accelerations
//! millimetres per second squared, and times milliseconds. With these units
//! one step of explicit Euler integration needs no division:
//! a velocity times a time step is a length, and an acceleration times a time
//! step is a velocity.
pub mod vector;
pub mod particle;
pub mod collision;
pub mod flocking;
pub mod lifetime;
pub mod integrator;
pub mod config;
pub mod store;
pub mod spawner;
pub mod simulation;
pub mod world;
