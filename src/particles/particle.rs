use vstd::prelude::*;

use crate::color::Color;
use crate::offset::Offset;
use crate::particles::burnability::Burnability;
use crate::particles::constants::{
    DEFAULT_VELOCITY, FIRE_COLOR, MAX_DENSITY, MAX_GAS_DENSITY, MAX_VELOCITY,
};
use crate::particles::neighborhood::Neighborhood;
use crate::particles::rules::{
    fly_update, mud_update, oil_update, sand_update, smoke_update, spark_update, vapor_update,
    water_update, wood_update,
};
use crate::particles::species::{
    get_side_friction, Fly, Mud, Oil, Rock, Sand, Smoke, Spark, Static, Vapor, Water, Wood,
    FLY_FOCUS_OFF, FLY_FOCUS_TIME,
};
use crate::utility::{get_value_around, random_bool, shuffle};

verus! {

/// Phase of matter; only liquids take part in pressure.
#[derive(Clone, Copy, Debug, PartialEq, Eq, Structural)]
pub enum MatterType {
    Solid,
    Liquid,
    Gas,
}

/// The kind of a particle, without its state.
#[derive(Clone, Copy, Debug, PartialEq, Eq, Structural)]
pub enum Species {
    Sand,
    Water,
    Rock,
    Mud,
    Oil,
    Wood,
    Spark,
    Fly,
    Smoke,
    Vapor,
    Static,
}

/// A particle of one kind of matter, with that kind's state.
#[derive(Clone, Copy, Debug, PartialEq, Eq, Structural)]
pub enum Particle {
    Sand(Sand),
    Water(Water),
    Rock(Rock),
    Mud(Mud),
    Oil(Oil),
    Wood(Wood),
    Spark(Spark),
    Fly(Fly),
    Smoke(Smoke),
    Vapor(Vapor),
    Static(Static),
}

/// What a particle's local update asks for.
#[derive(Clone, Copy, Debug, PartialEq, Eq, Structural)]
pub enum Transition {
    /// Nothing changes.
    Keep,
    /// The particle takes this new state.
    Become(Particle),
    /// The particle disappears.
    Vanish,
    /// The particle turns into a fresh particle of this kind.
    Spawn(Species),
}

/// The outcome of a particle's local update, as applied to its cell.
#[derive(Clone, Copy, Debug)]
pub enum ParticleChange {
    /// The cell now holds this particle, or nothing.
    Changed(Option<Particle>),
    /// The cell is left as it was.
    Unchanged,
}

impl ParticleChange {
    pub fn has_changed(&self) -> (r: bool)
        ensures
            r == (*self is Changed),
    {
        match self {
            ParticleChange::Changed(_) => true,
            ParticleChange::Unchanged => false,
        }
    }
}

/// The chance draws a local update may use.
#[derive(Clone, Debug)]
pub struct Dice {
    /// Which side is tried first.
    pub side: bool,
    /// Whether fire may catch this tick.
    pub ignite: bool,
    /// A shuffled order of the directions a fly or a spark tries.
    pub order: Vec<usize>,
    /// How long a fly keeps a new direction.
    pub focus: u32,
    /// Side friction of mud that has just slipped.
    pub friction: u8,
    /// Color of matter that is burning.
    pub tint: Color,
}

/// A direction of at most one step on each axis.
pub open spec fn unit_dir(m: Offset) -> bool {
    -1 <= m.x <= 1 && -1 <= m.y <= 1
}

/// The direction `m` taken `v / 10` cells far (velocities are in tenths).
pub open spec fn scaled(m: Offset, v: u8) -> Offset {
    Offset { x: (m.x * (v / 10) as int) as i32, y: (m.y * (v / 10) as int) as i32 }
}

/// Length of the direction table of a particle that picks its direction
/// from a shuffled order.
pub open spec fn dir_count(s: Species) -> int {
    match s {
        Species::Fly => 9,
        Species::Spark => 3,
        _ => 0,
    }
}

fn scale(m: Offset, v: u8) -> (r: Offset)
    requires
        unit_dir(m),
    ensures
        r == scaled(m, v),
        v <= MAX_VELOCITY ==> -5 <= r.x <= 5 && -5 <= r.y <= 5,
{
    let k: i32 = (v / 10) as i32;
    assert(-k <= m.x * k <= k && -k <= m.y * k <= k) by (nonlinear_arith)
        requires
            -1 <= m.x <= 1,
            -1 <= m.y <= 1,
            0 <= k <= 25,
    ;
    Offset { x: m.x * k, y: m.y * k }
}

impl Dice {
    /// The order entries index the particle's direction table.
    /// For a particle that picks its direction from a shuffled order, the
    /// order is a shuffle of its whole direction table.
    pub open spec fn fits(&self, p: Particle) -> bool {
        let c = dir_count(p.species_spec());
        c > 0 ==> {
            &&& self.order@.len() == c
            &&& forall|k: int| 0 <= k < self.order@.len() ==> #[trigger] self.order@[k] < c
            &&& forall|v: usize| v < c ==> #[trigger] self.order@.contains(v)
        }
    }

    /// Draws everything a local update of `p` may need.
    pub fn roll(p: &Particle) -> (r: Dice)
        ensures
            r.fits(*p),
    {
        let count: usize = match p {
            Particle::Fly(_) => 9,
            Particle::Spark(_) => 3,
            _ => 0,
        };
        let mut order: Vec<usize> = Vec::new();
        let mut i: usize = 0;
        while i < count
            invariant
                i <= count,
                count == dir_count(p.species_spec()) || (count == 0 && dir_count(
                    p.species_spec(),
                ) == 0),
                order@ == Seq::new(i as nat, |k: int| k as usize),
            decreases count - i,
        {
            order.push(i);
            i = i + 1;
        }
        let ghost before = order@;
        shuffle(&mut order);
        proof {
            assert forall|k: int| 0 <= k < order@.len() implies #[trigger] order@[k] < count by {
                let x = order@[k];
                assert(order@.contains(x));
                vstd::seq_lib::to_multiset_contains(order@, x);
                vstd::seq_lib::to_multiset_contains(before, x);
                let j = choose|j: int| 0 <= j < before.len() && before[j] == x;
                assert(before[j] == j as usize);
            }
            assert forall|v: usize| v < count implies #[trigger] order@.contains(v) by {
                assert(before[v as int] == v);
                assert(before.contains(v));
                vstd::seq_lib::to_multiset_contains(order@, v);
                vstd::seq_lib::to_multiset_contains(before, v);
            }
        }
        Dice {
            side: random_bool(),
            ignite: random_bool(),
            order,
            focus: get_value_around(FLY_FOCUS_TIME as i64, FLY_FOCUS_OFF as i64) as u32,
            friction: get_side_friction(),
            tint: Color::hex(FIRE_COLOR).similiar(),
        }
    }
}

impl Particle {
    /// The state invariants of each kind: velocities within the maximum,
    /// directions of one step, spreading sides of 1 or -1.
    pub open spec fn wf(&self) -> bool {
        match *self {
            Particle::Sand(s) => s.velocity <= MAX_VELOCITY && unit_dir(s.movement),
            Particle::Water(s) => s.velocity <= MAX_VELOCITY && unit_dir(s.movement) && (s.x_dir
                == 1 || s.x_dir == -1),
            Particle::Oil(s) => s.velocity <= MAX_VELOCITY && unit_dir(s.movement) && (s.x_dir
                == 1 || s.x_dir == -1),
            Particle::Mud(s) => s.velocity <= MAX_VELOCITY && unit_dir(s.movement),
            Particle::Spark(s) => unit_dir(s.movement),
            Particle::Fly(s) => unit_dir(s.movement),
            Particle::Smoke(s) => unit_dir(s.movement),
            Particle::Vapor(s) => unit_dir(s.movement),
            _ => true,
        }
    }

    /// Checks the state invariants at run time.
    pub fn is_valid(&self) -> (r: bool)
        ensures
            r == self.wf(),
    {
        let unit = |m: Offset| -> (u: bool)
            ensures
                u == unit_dir(m),
            { -1 <= m.x && m.x <= 1 && -1 <= m.y && m.y <= 1 };
        match self {
            Particle::Sand(s) => s.velocity <= MAX_VELOCITY && unit(s.movement),
            Particle::Water(s) => s.velocity <= MAX_VELOCITY && unit(s.movement) && (s.x_dir == 1
                || s.x_dir == -1),
            Particle::Oil(s) => s.velocity <= MAX_VELOCITY && unit(s.movement) && (s.x_dir == 1
                || s.x_dir == -1),
            Particle::Mud(s) => s.velocity <= MAX_VELOCITY && unit(s.movement),
            Particle::Spark(s) => unit(s.movement),
            Particle::Fly(s) => unit(s.movement),
            Particle::Smoke(s) => unit(s.movement),
            Particle::Vapor(s) => unit(s.movement),
            _ => true,
        }
    }

    pub open spec fn species_spec(&self) -> Species {
        match *self {
            Particle::Sand(_) => Species::Sand,
            Particle::Water(_) => Species::Water,
            Particle::Rock(_) => Species::Rock,
            Particle::Mud(_) => Species::Mud,
            Particle::Oil(_) => Species::Oil,
            Particle::Wood(_) => Species::Wood,
            Particle::Spark(_) => Species::Spark,
            Particle::Fly(_) => Species::Fly,
            Particle::Smoke(_) => Species::Smoke,
            Particle::Vapor(_) => Species::Vapor,
            Particle::Static(_) => Species::Static,
        }
    }

    #[verifier::when_used_as_spec(species_spec)]
    pub fn species(&self) -> (r: Species)
        ensures
            r == self.species_spec(),
    {
        match self {
            Particle::Sand(_) => Species::Sand,
            Particle::Water(_) => Species::Water,
            Particle::Rock(_) => Species::Rock,
            Particle::Mud(_) => Species::Mud,
            Particle::Oil(_) => Species::Oil,
            Particle::Wood(_) => Species::Wood,
            Particle::Spark(_) => Species::Spark,
            Particle::Fly(_) => Species::Fly,
            Particle::Smoke(_) => Species::Smoke,
            Particle::Vapor(_) => Species::Vapor,
            Particle::Static(_) => Species::Static,
        }
    }

    pub fn get_name(&self) -> &'static str {
        match self {
            Particle::Sand(_) => "Sand",
            Particle::Water(_) => "Water",
            Particle::Rock(_) => "Rock",
            Particle::Mud(_) => "Mud",
            Particle::Oil(_) => "Oil",
            Particle::Wood(_) => "Wood",
            Particle::Spark(_) => "Spark",
            Particle::Fly(_) => "Fly",
            Particle::Smoke(_) => "Smoke",
            Particle::Vapor(_) => "Vapor",
            Particle::Static(_) => "Static",
        }
    }

    pub open spec fn color_spec(&self) -> Color {
        match *self {
            Particle::Sand(s) => s.color,
            Particle::Water(s) => s.color,
            Particle::Rock(s) => s.color,
            Particle::Mud(s) => s.color,
            Particle::Oil(s) => s.color,
            Particle::Wood(s) => s.color,
            Particle::Spark(s) => s.color,
            Particle::Fly(s) => s.color,
            Particle::Smoke(s) => s.color,
            Particle::Vapor(s) => s.color,
            Particle::Static(s) => s.color,
        }
    }

    pub fn get_color(&self) -> (r: &Color)
        ensures
            *r == self.color_spec(),
    {
        match self {
            Particle::Sand(s) => &s.color,
            Particle::Water(s) => &s.color,
            Particle::Rock(s) => &s.color,
            Particle::Mud(s) => &s.color,
            Particle::Oil(s) => &s.color,
            Particle::Wood(s) => &s.color,
            Particle::Spark(s) => &s.color,
            Particle::Fly(s) => &s.color,
            Particle::Smoke(s) => &s.color,
            Particle::Vapor(s) => &s.color,
            Particle::Static(s) => &s.color,
        }
    }

    pub open spec fn matter_spec(&self) -> MatterType {
        match *self {
            Particle::Water(_) | Particle::Oil(_) => MatterType::Liquid,
            Particle::Smoke(_) | Particle::Vapor(_) => MatterType::Gas,
            _ => MatterType::Solid,
        }
    }

    pub fn get_matter_type(&self) -> (r: MatterType)
        ensures
            r == self.matter_spec(),
    {
        match self {
            Particle::Water(_) | Particle::Oil(_) => MatterType::Liquid,
            Particle::Smoke(_) | Particle::Vapor(_) => MatterType::Gas,
            _ => MatterType::Solid,
        }
    }

    pub open spec fn density_spec(&self) -> u8 {
        match *self {
            Particle::Water(_) => 128,
            Particle::Oil(_) => 120,
            Particle::Smoke(_) => 20,
            Particle::Vapor(_) => 16,
            _ => MAX_DENSITY,
        }
    }

    /// Density from 0 to 255; 255 is fully solid.
    pub fn get_density(&self) -> (r: u8)
        ensures
            r == self.density_spec(),
    {
        match self {
            Particle::Water(_) => 128,
            Particle::Oil(_) => 120,
            Particle::Smoke(_) => 20,
            Particle::Vapor(_) => 16,
            _ => MAX_DENSITY,
        }
    }

    pub open spec fn velocity_spec(&self) -> u8 {
        match *self {
            Particle::Sand(s) => s.velocity,
            Particle::Water(s) => s.velocity,
            Particle::Oil(s) => s.velocity,
            Particle::Mud(s) => s.velocity,
            _ => DEFAULT_VELOCITY,
        }
    }

    /// Current velocity, in tenths of a cell per tick.
    pub fn get_velocity(&self) -> (r: u8)
        ensures
            r == self.velocity_spec(),
    {
        match self {
            Particle::Sand(s) => s.velocity,
            Particle::Water(s) => s.velocity,
            Particle::Oil(s) => s.velocity,
            Particle::Mud(s) => s.velocity,
            _ => DEFAULT_VELOCITY,
        }
    }

    pub open spec fn is_moveable_spec(&self) -> bool {
        !(*self is Rock || *self is Wood || *self is Static)
    }

    pub fn is_moveable(&self) -> (r: bool)
        ensures
            r == self.is_moveable_spec(),
    {
        match self {
            Particle::Rock(_) | Particle::Wood(_) | Particle::Static(_) => false,
            _ => true,
        }
    }

    pub open spec fn is_solid_spec(&self) -> bool {
        self.density_spec() == MAX_DENSITY
    }

    /// Fully solid: of the maximal density.
    pub fn is_solid(&self) -> (r: bool)
        ensures
            r == self.is_solid_spec(),
    {
        self.get_density() == MAX_DENSITY
    }

    /// A fly only pushes through gases; anything else pushes through what
    /// is lighter, or, while moving faster than the default velocity,
    /// through anything that is not fully solid.
    pub open spec fn can_switch_with_spec(&self, other: Particle) -> bool {
        match *self {
            Particle::Fly(_) => other.density_spec() < MAX_GAS_DENSITY,
            _ => self.density_spec() > other.density_spec() || (self.velocity_spec()
                > DEFAULT_VELOCITY && !other.is_solid_spec()),
        }
    }

    pub fn can_switch_with(&self, other: &Particle) -> (r: bool)
        ensures
            r == self.can_switch_with_spec(*other),
    {
        match self {
            Particle::Fly(_) => other.get_density() < MAX_GAS_DENSITY,
            _ => self.get_density() > other.get_density() || (self.get_velocity()
                > DEFAULT_VELOCITY && !other.is_solid()),
        }
    }

    pub open spec fn burnability_spec(&self) -> Burnability {
        match *self {
            Particle::Water(_) => Burnability::AntiBurn,
            Particle::Oil(s) => s.burnability,
            Particle::Wood(s) => s.burnability,
            Particle::Spark(s) => s.burnability,
            Particle::Fly(s) => s.burnability,
            _ => Burnability::Inert,
        }
    }

    pub fn get_burnability(&self) -> (r: Burnability)
        ensures
            r == self.burnability_spec(),
    {
        match self {
            Particle::Water(_) => Burnability::AntiBurn,
            Particle::Oil(s) => s.burnability,
            Particle::Wood(s) => s.burnability,
            Particle::Spark(s) => s.burnability,
            Particle::Fly(s) => s.burnability,
            _ => Burnability::Inert,
        }
    }

    /// The particle with its burnability replaced, for the kinds that
    /// carry one; others are unchanged.
    pub open spec fn with_burnability(self, b: Burnability) -> Particle {
        match self {
            Particle::Oil(s) => Particle::Oil(Oil { burnability: b, ..s }),
            Particle::Wood(s) => Particle::Wood(Wood { burnability: b, ..s }),
            Particle::Spark(s) => Particle::Spark(Spark { burnability: b, ..s }),
            Particle::Fly(s) => Particle::Fly(Fly { burnability: b, ..s }),
            _ => self,
        }
    }

    pub fn set_burnability(&mut self, new_burnability: Burnability)
        ensures
            *final(self) == old(self).with_burnability(new_burnability),
    {
        match self {
            Particle::Oil(s) => s.burnability = new_burnability,
            Particle::Wood(s) => s.burnability = new_burnability,
            Particle::Spark(s) => s.burnability = new_burnability,
            Particle::Fly(s) => s.burnability = new_burnability,
            _ => {},
        }
    }

    /// The offset the particle wants to travel this tick: its direction
    /// scaled by its velocity, for the kinds that have one.
    pub open spec fn movement_spec(&self) -> Offset {
        match *self {
            Particle::Sand(s) => scaled(s.movement, s.velocity),
            Particle::Water(s) => scaled(s.movement, s.velocity),
            Particle::Oil(s) => scaled(s.movement, s.velocity),
            Particle::Mud(s) => scaled(s.movement, s.velocity),
            Particle::Spark(s) => s.movement,
            Particle::Fly(s) => s.movement,
            Particle::Smoke(s) => s.movement,
            Particle::Vapor(s) => s.movement,
            _ => Offset { x: 0, y: 0 },
        }
    }

    pub fn get_movement(&self) -> (r: Offset)
        requires
            self.wf(),
        ensures
            r == self.movement_spec(),
            -5 <= r.x <= 5,
            -5 <= r.y <= 5,
    {
        match self {
            Particle::Sand(s) => scale(s.movement, s.velocity),
            Particle::Water(s) => scale(s.movement, s.velocity),
            Particle::Oil(s) => scale(s.movement, s.velocity),
            Particle::Mud(s) => scale(s.movement, s.velocity),
            Particle::Spark(s) => s.movement,
            Particle::Fly(s) => s.movement,
            Particle::Smoke(s) => s.movement,
            Particle::Vapor(s) => s.movement,
            _ => Offset::zero(),
        }
    }
}

} // verus!
