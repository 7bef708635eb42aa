//! The state each kind of matter carries, and how a fresh one is made.
use vstd::prelude::*;

use crate::color::{jittered, Color};
use crate::offset::Offset;
use crate::particles::burnability::Burnability;
use crate::particles::constants::DEFAULT_VELOCITY;
use crate::particles::particle::Particle;
use crate::utility::{get_value_around, random_bool};

verus! {

pub const SAND_COLOR: u32 = 0xE0E02D;
pub const WATER_COLOR: u32 = 0x326ECF;
pub const OIL_COLOR: u32 = 0x996E17;
pub const MUD_COLOR: u32 = 0x91473D;
pub const ROCK_COLOR: u32 = 0x474747;
pub const WOOD_COLOR: u32 = 0x3D1812;
pub const SPARK_COLOR: u32 = 0x940C0C;
pub const FLY_COLOR: u32 = 0x152E02;
pub const SMOKE_COLOR: u32 = 0xB1B6BD;
pub const VAPOR_COLOR: u32 = 0xE3E3E3;

pub const MUD_SIDE_FRICTION: u8 = 16;
pub const MUD_FRICTION_OFF: u8 = 4;
pub const FLY_LIFETIME: u32 = 1000;
pub const FLY_LIFETIME_OFF: u32 = 400;
pub const FLY_FOCUS_TIME: u32 = 7;
pub const FLY_FOCUS_OFF: u32 = 7;
pub const SMOKE_LIFETIME: u32 = 750;
pub const SMOKE_LIFETIME_OFF: u32 = 300;
pub const VAPOR_LIFETIME: u32 = 600;
pub const VAPOR_LIFETIME_OFF: u32 = 300;
pub const SPARK_LIFETIME: u8 = 200;
pub const SPARK_LIFETIME_OFF: u8 = 50;

/// Falls, and slides off piles diagonally.
#[derive(Clone, Copy, Debug, PartialEq, Eq, Structural)]
pub struct Sand {
    pub velocity: u8,
    pub color: Color,
    pub movement: Offset,
}

/// Falls and spreads sideways; boils next to fire.
#[derive(Clone, Copy, Debug, PartialEq, Eq, Structural)]
pub struct Water {
    pub velocity: u8,
    pub color: Color,
    pub movement: Offset,
    /// The side it keeps spreading towards until blocked, 1 or -1.
    pub x_dir: i32,
}

/// Flows like water, and burns into smoke.
#[derive(Clone, Copy, Debug, PartialEq, Eq, Structural)]
pub struct Oil {
    pub velocity: u8,
    pub color: Color,
    pub burnability: Burnability,
    pub movement: Offset,
    pub x_dir: i32,
}

/// Falls like sand but only slips sideways once its friction has worn off.
#[derive(Clone, Copy, Debug, PartialEq, Eq, Structural)]
pub struct Mud {
    pub velocity: u8,
    pub color: Color,
    /// Ticks left before it may slip sideways.
    pub side_friction: u8,
    pub movement: Offset,
}

/// Immovable.
#[derive(Clone, Copy, Debug, PartialEq, Eq, Structural)]
pub struct Rock {
    pub color: Color,
}

/// Immovable, and burns.
#[derive(Clone, Copy, Debug, PartialEq, Eq, Structural)]
pub struct Wood {
    pub color: Color,
    pub burnability: Burnability,
}

/// A short-lived flame that sets fire to what it touches.
#[derive(Clone, Copy, Debug, PartialEq, Eq, Structural)]
pub struct Spark {
    pub color: Color,
    pub burnability: Burnability,
    pub movement: Offset,
}

/// Flies about at random for its lifetime; burns.
#[derive(Clone, Copy, Debug, PartialEq, Eq, Structural)]
pub struct Fly {
    pub color: Color,
    pub lifetime: u32,
    pub burnability: Burnability,
    pub movement: Offset,
    /// Ticks left before it picks a new direction.
    pub focus: u32,
}

/// Rises for its lifetime, then disappears.
#[derive(Clone, Copy, Debug, PartialEq, Eq, Structural)]
pub struct Smoke {
    pub color: Color,
    pub lifetime: u32,
    pub movement: Offset,
}

/// Rises for its lifetime, then condenses into water.
#[derive(Clone, Copy, Debug, PartialEq, Eq, Structural)]
pub struct Vapor {
    pub color: Color,
    pub lifetime: u32,
    pub movement: Offset,
}

/// An immovable pixel painted from outside.
#[derive(Clone, Copy, Debug, PartialEq, Eq, Structural)]
pub struct Static {
    pub color: Color,
}

/// A random side, 1 or -1.
fn random_side() -> (r: i32)
    ensures
        r == 1 || r == -1,
{
    if random_bool() {
        1
    } else {
        -1
    }
}

impl Sand {
    pub fn new() -> (r: Particle)
        ensures
            r matches Particle::Sand(s) && s.velocity == DEFAULT_VELOCITY && s.movement
                == Offset::new_spec(0, 1),
            jittered(r.color_spec(), SAND_COLOR),
    {
        Particle::Sand(
            Sand {
                velocity: DEFAULT_VELOCITY,
                color: Color::hex(SAND_COLOR).similiar(),
                movement: Offset::new(0, 1),
            },
        )
    }
}

impl Water {
    pub fn new() -> (r: Particle)
        ensures
            r matches Particle::Water(s) && s.velocity == DEFAULT_VELOCITY && s.movement
                == Offset::new_spec(0, 1) && (s.x_dir == 1 || s.x_dir == -1),
            jittered(r.color_spec(), WATER_COLOR),
    {
        Particle::Water(
            Water {
                velocity: DEFAULT_VELOCITY,
                color: Color::hex(WATER_COLOR).similiar(),
                movement: Offset::new(0, 1),
                x_dir: random_side(),
            },
        )
    }
}

impl Oil {
    pub fn new() -> (r: Particle)
        ensures
            r matches Particle::Oil(s) && s.velocity == DEFAULT_VELOCITY && s.movement
                == Offset::new_spec(0, 0) && s.burnability == Burnability::CanBurn && (s.x_dir
                == 1 || s.x_dir == -1),
            jittered(r.color_spec(), OIL_COLOR),
    {
        Particle::Oil(
            Oil {
                velocity: DEFAULT_VELOCITY,
                color: Color::hex(OIL_COLOR).similiar(),
                burnability: Burnability::CanBurn,
                movement: Offset::zero(),
                x_dir: random_side(),
            },
        )
    }
}

/// A fresh side friction for mud, within `MUD_FRICTION_OFF` of
/// `MUD_SIDE_FRICTION`.
pub fn get_side_friction() -> (r: u8)
    ensures
        MUD_SIDE_FRICTION - MUD_FRICTION_OFF <= r <= MUD_SIDE_FRICTION + MUD_FRICTION_OFF,
{
    get_value_around(MUD_SIDE_FRICTION as i64, MUD_FRICTION_OFF as i64) as u8
}

impl Mud {
    pub fn new() -> (r: Particle)
        ensures
            r matches Particle::Mud(s) && s.velocity == DEFAULT_VELOCITY && s.movement
                == Offset::new_spec(0, 0) && MUD_SIDE_FRICTION - MUD_FRICTION_OFF <= s.side_friction
                <= MUD_SIDE_FRICTION + MUD_FRICTION_OFF,
            jittered(r.color_spec(), MUD_COLOR),
    {
        Particle::Mud(
            Mud {
                velocity: DEFAULT_VELOCITY,
                color: Color::hex(MUD_COLOR).similiar(),
                side_friction: get_side_friction(),
                movement: Offset::zero(),
            },
        )
    }
}

impl Rock {
    pub fn new() -> (r: Particle)
        ensures
            r is Rock,
            jittered(r.color_spec(), ROCK_COLOR),
    {
        Particle::Rock(Rock { color: Color::hex(ROCK_COLOR).similiar() })
    }
}

impl Wood {
    pub fn new() -> (r: Particle)
        ensures
            r matches Particle::Wood(s) && s.burnability == Burnability::CanBurn,
            jittered(r.color_spec(), WOOD_COLOR),
    {
        Particle::Wood(
            Wood { color: Color::hex(WOOD_COLOR).similiar(), burnability: Burnability::CanBurn },
        )
    }
}

impl Spark {
    pub fn new() -> (r: Particle)
        ensures
            r matches Particle::Spark(s) && s.movement == Offset::new_spec(0, 0) && (
            s.burnability matches Burnability::IsBurning(t) && SPARK_LIFETIME - SPARK_LIFETIME_OFF
                <= t <= SPARK_LIFETIME + SPARK_LIFETIME_OFF),
            jittered(r.color_spec(), SPARK_COLOR),
    {
        let t = get_value_around(SPARK_LIFETIME as i64, SPARK_LIFETIME_OFF as i64) as u8;
        Particle::Spark(
            Spark {
                color: Color::hex(SPARK_COLOR).similiar(),
                burnability: Burnability::IsBurning(t),
                movement: Offset::zero(),
            },
        )
    }
}

impl Fly {
    pub fn new() -> (r: Particle)
        ensures
            r matches Particle::Fly(s) && s.movement == Offset::new_spec(0, 0) && s.focus == 0
                && s.burnability == Burnability::CanBurn && FLY_LIFETIME - FLY_LIFETIME_OFF
                <= s.lifetime <= FLY_LIFETIME + FLY_LIFETIME_OFF,
            jittered(r.color_spec(), FLY_COLOR),
    {
        let lifetime = get_value_around(FLY_LIFETIME as i64, FLY_LIFETIME_OFF as i64) as u32;
        Particle::Fly(
            Fly {
                color: Color::hex(FLY_COLOR).similiar(),
                lifetime,
                burnability: Burnability::CanBurn,
                movement: Offset::zero(),
                focus: 0,
            },
        )
    }
}

impl Smoke {
    pub fn new() -> (r: Particle)
        ensures
            r matches Particle::Smoke(s) && s.movement == Offset::new_spec(0, 0)
                && SMOKE_LIFETIME - SMOKE_LIFETIME_OFF <= s.lifetime <= SMOKE_LIFETIME
                + SMOKE_LIFETIME_OFF,
            jittered(r.color_spec(), SMOKE_COLOR),
    {
        let lifetime = get_value_around(SMOKE_LIFETIME as i64, SMOKE_LIFETIME_OFF as i64) as u32;
        Particle::Smoke(
            Smoke { color: Color::hex(SMOKE_COLOR).similiar(), lifetime, movement: Offset::zero() },
        )
    }
}

impl Vapor {
    pub fn new() -> (r: Particle)
        ensures
            r matches Particle::Vapor(s) && s.movement == Offset::new_spec(0, 0)
                && VAPOR_LIFETIME - VAPOR_LIFETIME_OFF <= s.lifetime <= VAPOR_LIFETIME
                + VAPOR_LIFETIME_OFF,
            jittered(r.color_spec(), VAPOR_COLOR),
    {
        let lifetime = get_value_around(VAPOR_LIFETIME as i64, VAPOR_LIFETIME_OFF as i64) as u32;
        Particle::Vapor(
            Vapor { color: Color::hex(VAPOR_COLOR).similiar(), lifetime, movement: Offset::zero() },
        )
    }
}

impl Static {
    /// A static pixel of the color written `0xRRGGBB` (higher bits ignored).
    pub fn new(color: u32) -> (r: Particle)
        ensures
            r == Particle::Static(Static { color: Color::hex_spec(color) }),
    {
        Particle::Static(Static { color: Color::hex(color) })
    }
}

} // verus!
