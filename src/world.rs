//! The display cube of the world and its nominal gravity.
use vstd::prelude::*;

use crate::vector::Vec3;

verus! {

/// Side of the displayed cube along x, in nanometres (5 m).
pub const WORLD_WIDTH: i64 = 5_000_000_000;

/// Side of the displayed cube along y, in nanometres (5 m).
pub const WORLD_HEIGHT: i64 = 5_000_000_000;

/// Side of the displayed cube along z, in nanometres (5 m).
pub const WORLD_DEPTH: i64 = 5_000_000_000;

/// The displayed world cube, in nanometres, and its nominal gravity in
/// millimetres per second squared.
#[derive(Clone, Copy, Debug, PartialEq, Eq, Structural)]
pub struct World {
    pub width: i64,
    pub height: i64,
    pub depth: i64,
    pub gravity: Vec3,
}

impl World {
    /// The world the scene starts with: a 5 m cube and gravity 9.81 m/s^2 downward.
    pub fn new() -> (r: World)
        ensures
            r == (World {
                width: WORLD_WIDTH,
                height: WORLD_HEIGHT,
                depth: WORLD_DEPTH,
                gravity: Vec3 { x: 0, y: -9_810i64, z: 0 },
            }),
    {
        World {
            width: WORLD_WIDTH,
            height: WORLD_HEIGHT,
            depth: WORLD_DEPTH,
            gravity: Vec3 { x: 0, y: -9_810, z: 0 },
        }
    }
}

} // verus!
