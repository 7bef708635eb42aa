use vstd::prelude::*;

verus! {

/// Velocities are kept in tenths of a cell per tick.
pub const DEFAULT_VELOCITY: u8 = 10;
pub const MAX_VELOCITY: u8 = 50;
/// Velocity gained by one tick of free fall.
pub const GRAVITY: u8 = 1;
/// Velocity lost by pushing through another particle.
pub const SWITCH_SLOWDOWN: u8 = 1;
/// Density of fully solid matter.
pub const MAX_DENSITY: u8 = 255;
/// Anything lighter than this counts as a gas.
pub const MAX_GAS_DENSITY: u8 = 64;
/// Base color of burning matter.
pub const FIRE_COLOR: u32 = 0x940C0C;
pub const CELL_DEFAULT_PRESSURE: i32 = 0;
/// Pressure above which a liquid surface cell overflows.
pub const CELL_PRESSURE_DIFF: i32 = 5;

} // verus!
