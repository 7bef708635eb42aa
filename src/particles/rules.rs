//! The local rule of each kind of matter: from a particle, its 3x3
//! window and the chance draws, the particle's next state.
use vstd::prelude::*;

use crate::offset::Offset;
use crate::particles::burnability::{
    burn_step, count_antiburn, count_burning, count_fire, is_antiburn_cell, is_burning_cell,
    Burnability, PropertyCheckResult,
};
use crate::particles::constants::{
    DEFAULT_VELOCITY, GRAVITY, MAX_VELOCITY, SWITCH_SLOWDOWN,
};
use crate::particles::neighborhood::{in_window, rel_index, NeighborCell, Neighborhood};
use crate::particles::particle::{unit_dir, Dice, Particle, ParticleChange, Species, Transition};
use crate::particles::species::{
    Fly, Mud, Oil, Rock, Sand, Smoke, Spark, Static, Vapor, Water, Wood, SPARK_LIFETIME,
};

verus! {

pub const OIL_BURN_TIME: u8 = 100;
pub const WOOD_BURN_TIME: u8 = 150;
pub const FLY_BURN_TIME: u8 = 25;

pub open spec fn at(n: Seq<NeighborCell>, off: Offset) -> NeighborCell {
    n[rel_index(off)]
}

/// Whether `p` may enter cell `c`: `Some(true)` when it is empty,
/// `Some(false)` when `p` can push through its occupant, `None` when it is
/// blocked or outside the grid.
pub open spec fn opening(p: Particle, c: NeighborCell) -> Option<bool> {
    match c {
        NeighborCell::Inside(None) => Some(true),
        NeighborCell::Inside(Some(o)) => if p.can_switch_with_spec(o) {
            Some(false)
        } else {
            None
        },
        NeighborCell::Outside => None,
    }
}

pub open spec fn takes(p: Particle, c: NeighborCell, empty_only: bool) -> bool {
    match opening(p, c) {
        Some(e) => e || !empty_only,
        None => false,
    }
}

/// Index of the first candidate direction, from `i` on, that `p` may take.
pub open spec fn first_open(
    p: Particle,
    n: Seq<NeighborCell>,
    cands: Seq<Offset>,
    i: int,
    empty_only: bool,
) -> Option<int>
    decreases cands.len() - i,
{
    if i < 0 || i >= cands.len() {
        None
    } else if takes(p, at(n, cands[i]), empty_only) {
        Some(i)
    } else {
        first_open(p, n, cands, i + 1, empty_only)
    }
}

/// `min(MAX_VELOCITY, v + GRAVITY)`.
pub open spec fn accelerated(v: u8) -> u8 {
    if v >= MAX_VELOCITY {
        MAX_VELOCITY
    } else {
        (v + GRAVITY) as u8
    }
}

/// `max(DEFAULT_VELOCITY, v - SWITCH_SLOWDOWN)`.
pub open spec fn slowed(v: u8) -> u8 {
    if v > DEFAULT_VELOCITY + SWITCH_SLOWDOWN {
        (v - SWITCH_SLOWDOWN) as u8
    } else {
        DEFAULT_VELOCITY
    }
}

/// Direction and velocity of a falling particle `p` of velocity `v` that
/// tries the candidates in order: into an empty cell it keeps its velocity,
/// and gains gravity when going down; through another particle it slows
/// down; when every way is blocked it stops and drops to the default
/// velocity.
pub open spec fn fall(p: Particle, v: u8, n: Seq<NeighborCell>, cands: Seq<Offset>) -> (
    Offset,
    u8,
) {
    match first_open(p, n, cands, 0, false) {
        Some(i) => {
            let off = cands[i];
            if at(n, off) matches NeighborCell::Inside(None) {
                (
                    off,
                    if off.y > 0 {
                        accelerated(v)
                    } else {
                        v
                    },
                )
            } else {
                (off, slowed(v))
            }
        },
        None => (Offset { x: 0, y: 0 }, DEFAULT_VELOCITY),
    }
}

/// The direction taken from the candidates, or none.
pub open spec fn wander(p: Particle, n: Seq<NeighborCell>, cands: Seq<Offset>, empty_only: bool) -> Offset {
    match first_open(p, n, cands, 0, empty_only) {
        Some(i) => cands[i],
        None => Offset { x: 0, y: 0 },
    }
}

pub open spec fn side(d: Dice) -> i32 {
    if d.side {
        1
    } else {
        (-1) as i32
    }
}

pub open spec fn down_cands(r: i32) -> Seq<Offset> {
    seq![Offset { x: 0, y: 1 }, Offset { x: (-r) as i32, y: 1 }, Offset { x: r, y: 1 }]
}

/// Down, then the two down-diagonals (the drawn side `r` decides which
/// first, as for sand), then sideways towards `x`, then the other way.
pub open spec fn spread_cands(x: i32, r: i32) -> Seq<Offset> {
    seq![
        Offset { x: 0, y: 1 },
        Offset { x: (-r) as i32, y: 1 },
        Offset { x: r, y: 1 },
        Offset { x: x, y: 0 },
        Offset { x: (-x) as i32, y: 0 },
    ]
}

/// Burning particles in the eight cells around the centre.
pub open spec fn burning_around(n: Seq<NeighborCell>) -> int {
    count_burning(n) - if is_burning_cell(n[4]) {
        1int
    } else {
        0int
    }
}

/// Fire-suppressing particles in the eight cells around the centre.
pub open spec fn antiburn_around(n: Seq<NeighborCell>) -> int {
    count_antiburn(n) - if is_antiburn_cell(n[4]) {
        1int
    } else {
        0int
    }
}

pub open spec fn rise_cands(r: i32) -> Seq<Offset> {
    seq![Offset { x: 0, y: (-1) as i32 }, Offset { x: r, y: 0 }, Offset { x: (-r) as i32, y: 0 }]
}

/// The side a liquid spreads to: it turns around when that side is not an
/// empty cell.
pub open spec fn spread_dir(x_dir: i32, n: Seq<NeighborCell>) -> i32 {
    if at(n, Offset { x: x_dir, y: 0 }) matches NeighborCell::Inside(None) {
        x_dir
    } else {
        (-x_dir) as i32
    }
}

pub open spec fn fly_dir(k: usize) -> Offset {
    if k == 0 {
        Offset { x: 0, y: 0 }
    } else if k == 1 {
        Offset { x: 1, y: 0 }
    } else if k == 2 {
        Offset { x: (-1) as i32, y: 0 }
    } else if k == 3 {
        Offset { x: 0, y: 1 }
    } else if k == 4 {
        Offset { x: 0, y: (-1) as i32 }
    } else if k == 5 {
        Offset { x: 1, y: 1 }
    } else if k == 6 {
        Offset { x: (-1) as i32, y: 1 }
    } else if k == 7 {
        Offset { x: 1, y: (-1) as i32 }
    } else {
        Offset { x: (-1) as i32, y: (-1) as i32 }
    }
}

pub open spec fn spark_dir(k: usize) -> Offset {
    if k == 0 {
        Offset { x: 1, y: 0 }
    } else if k == 1 {
        Offset { x: (-1) as i32, y: 0 }
    } else {
        Offset { x: 0, y: 1 }
    }
}

/// Sand falls straight down, else diagonally, the side tried first being
/// drawn.
pub open spec fn sand_rule(s: Sand, n: Seq<NeighborCell>, d: Dice) -> Transition {
    let (m, v) = fall(Particle::Sand(s), s.velocity, n, down_cands(side(d)));
    Transition::Become(Particle::Sand(Sand { velocity: v, color: s.color, movement: m }))
}

/// Water falls, else slides down a diagonal, else spreads to its side, else
/// to the other; it boils into vapor when, among the eight cells around it,
/// burning particles outnumber fire-suppressing ones.
pub open spec fn water_rule(s: Water, n: Seq<NeighborCell>, d: Dice) -> Transition {
    let x = spread_dir(s.x_dir, n);
    let (m, v) = fall(Particle::Water(s), s.velocity, n, spread_cands(x, side(d)));
    if burning_around(n) > antiburn_around(n) {
        Transition::Spawn(Species::Vapor)
    } else {
        Transition::Become(
            Particle::Water(Water { velocity: v, color: s.color, movement: m, x_dir: x }),
        )
    }
}

/// Oil flows like water and burns; burned out, it turns into smoke.
pub open spec fn oil_rule(s: Oil, n: Seq<NeighborCell>, d: Dice) -> Transition {
    let x = spread_dir(s.x_dir, n);
    let (m, v) = fall(Particle::Oil(s), s.velocity, n, spread_cands(x, side(d)));
    let (b, res) = burn_step(s.burnability, n, OIL_BURN_TIME, true, d.ignite);
    if res == PropertyCheckResult::Destroyed {
        Transition::Spawn(Species::Smoke)
    } else {
        let color = if res == PropertyCheckResult::Updated && b is IsBurning {
            d.tint
        } else {
            s.color
        };
        Transition::Become(
            Particle::Oil(Oil { velocity: v, color, burnability: b, movement: m, x_dir: x }),
        )
    }
}

/// Mud falls straight down; blocked, it waits out its side friction, then
/// slips diagonally and draws a new friction.
pub open spec fn mud_rule(s: Mud, n: Seq<NeighborCell>, d: Dice) -> Transition {
    let p = Particle::Mud(s);
    let down = Offset { x: 0, y: 1 };
    match opening(p, at(n, down)) {
        Some(empty) => Transition::Become(
            Particle::Mud(
                Mud {
                    velocity: if empty {
                        accelerated(s.velocity)
                    } else {
                        slowed(s.velocity)
                    },
                    color: s.color,
                    side_friction: s.side_friction,
                    movement: down,
                },
            ),
        ),
        None => if s.side_friction > 0 {
            Transition::Become(
                Particle::Mud(
                    Mud {
                        velocity: DEFAULT_VELOCITY,
                        color: s.color,
                        side_friction: (s.side_friction - 1) as u8,
                        movement: Offset { x: 0, y: 0 },
                    },
                ),
            )
        } else {
            let r = side(d);
            let cands = seq![Offset { x: (-r) as i32, y: 1 }, Offset { x: r, y: 1 }];
            let (m, v) = fall(p, s.velocity, n, cands);
            let f = if first_open(p, n, cands, 0, false) is Some {
                d.friction
            } else {
                s.side_friction
            };
            Transition::Become(
                Particle::Mud(Mud { velocity: v, color: s.color, side_friction: f, movement: m }),
            )
        },
    }
}

/// The directions a fly tries, in the drawn order.
pub open spec fn fly_cands(d: Dice) -> Seq<Offset> {
    Seq::new(d.order@.len(), |k: int| fly_dir(d.order@[k]))
}

/// The directions a spark tries, in the drawn order.
pub open spec fn spark_cands(d: Dice) -> Seq<Offset> {
    Seq::new(d.order@.len(), |k: int| spark_dir(d.order@[k]))
}

/// A fly dies when its lifetime is over. It keeps its direction while it
/// is focused and the way is free; otherwise it tries directions in the
/// drawn order and, on finding one, focuses anew. It burns.
pub open spec fn fly_rule(s: Fly, n: Seq<NeighborCell>, d: Dice) -> Transition {
    if s.lifetime == 0 {
        Transition::Vanish
    } else {
        let p = Particle::Fly(s);
        let probe = s.focus == 0 || !(at(n, s.movement) matches NeighborCell::Inside(None));
        let cands = fly_cands(d);
        let (m, f) = if probe {
            match first_open(p, n, cands, 0, false) {
                Some(i) => (cands[i], d.focus),
                None => (Offset { x: 0, y: 0 }, s.focus),
            }
        } else {
            (s.movement, (s.focus - 1) as u32)
        };
        let (b, res) = burn_step(s.burnability, n, FLY_BURN_TIME, true, d.ignite);
        if res == PropertyCheckResult::Destroyed {
            Transition::Vanish
        } else {
            let color = if res == PropertyCheckResult::Updated && b is IsBurning {
                d.tint
            } else {
                s.color
            };
            Transition::Become(
                Particle::Fly(
                    Fly {
                        color,
                        lifetime: (s.lifetime - 1) as u32,
                        burnability: b,
                        movement: m,
                        focus: f,
                    },
                ),
            )
        }
    }
}

/// Smoke rises, else drifts sideways, until its lifetime is over.
pub open spec fn smoke_rule(s: Smoke, n: Seq<NeighborCell>, d: Dice) -> Transition {
    if s.lifetime == 0 {
        Transition::Vanish
    } else {
        let m = wander(Particle::Smoke(s), n, rise_cands(side(d)), false);
        Transition::Become(
            Particle::Smoke(Smoke { color: s.color, lifetime: (s.lifetime - 1) as u32, movement: m }),
        )
    }
}

/// Vapor rises like smoke; when its lifetime is over it condenses into
/// water.
pub open spec fn vapor_rule(s: Vapor, n: Seq<NeighborCell>, d: Dice) -> Transition {
    if s.lifetime == 0 {
        Transition::Spawn(Species::Water)
    } else {
        let m = wander(Particle::Vapor(s), n, rise_cands(side(d)), false);
        Transition::Become(
            Particle::Vapor(Vapor { color: s.color, lifetime: (s.lifetime - 1) as u32, movement: m }),
        )
    }
}

/// A spark moves into an empty cell beside or below it, in the drawn order,
/// and burns down.
pub open spec fn spark_rule(s: Spark, n: Seq<NeighborCell>, d: Dice) -> Transition {
    let m = wander(Particle::Spark(s), n, spark_cands(d), true);
    let (b, res) = burn_step(s.burnability, n, SPARK_LIFETIME, true, d.ignite);
    if res == PropertyCheckResult::Destroyed {
        Transition::Vanish
    } else {
        Transition::Become(Particle::Spark(Spark { color: s.color, burnability: b, movement: m }))
    }
}

/// Wood only burns.
pub open spec fn wood_rule(s: Wood, n: Seq<NeighborCell>, d: Dice) -> Transition {
    let (b, res) = burn_step(s.burnability, n, WOOD_BURN_TIME, true, d.ignite);
    if res == PropertyCheckResult::Destroyed {
        Transition::Vanish
    } else if res == PropertyCheckResult::Updated {
        let color = if b is IsBurning {
            d.tint
        } else {
            s.color
        };
        Transition::Become(Particle::Wood(Wood { color, burnability: b }))
    } else {
        Transition::Keep
    }
}

pub open spec fn realizes(t: Transition, c: ParticleChange) -> bool {
    match t {
        Transition::Keep => c is Unchanged,
        Transition::Become(q) => c == ParticleChange::Changed(Some(q)),
        Transition::Vanish => c == ParticleChange::Changed(None),
        Transition::Spawn(k) => c matches ParticleChange::Changed(Some(q)) && q.species_spec() == k
            && q.wf(),
    }
}

/// A particle that has burned out does not survive its next local update:
/// oil turns into smoke, anything else that burns vanishes.
pub proof fn lemma_burned_out(p: Particle, n: Seq<NeighborCell>, d: Dice)
    requires
        p.burnability_spec() == Burnability::IsBurning(0),
    ensures
        p.rule(n, d) == (if p is Oil {
            Transition::Spawn(Species::Smoke)
        } else {
            Transition::Vanish
        }),
{
}

/// Wood that can burn, with more burning than fire-suppressing particles
/// in its window, catches fire when the ignition draw allows it, and burns
/// for `WOOD_BURN_TIME` ticks.
pub proof fn lemma_wood_catches_fire(s: Wood, n: Seq<NeighborCell>, d: Dice)
    requires
        s.burnability == Burnability::CanBurn,
        count_burning(n) > count_antiburn(n),
        d.ignite,
    ensures
        wood_rule(s, n, d) == Transition::Become(
            Particle::Wood(Wood { color: d.tint, burnability: Burnability::IsBurning(WOOD_BURN_TIME) }),
        ),
{
}

proof fn lemma_first_open(
    p: Particle,
    n: Seq<NeighborCell>,
    cands: Seq<Offset>,
    i: int,
    empty_only: bool,
)
    ensures
        first_open(p, n, cands, i, empty_only) matches Some(k) ==> i <= k < cands.len() && takes(
            p,
            at(n, cands[k]),
            empty_only,
        ),
    decreases cands.len() - i,
{
    if 0 <= i < cands.len() && !takes(p, at(n, cands[i]), empty_only) {
        lemma_first_open(p, n, cands, i + 1, empty_only);
    }
}

fn opening_of(p: &Particle, c: &NeighborCell) -> (r: Option<bool>)
    ensures
        r == opening(*p, *c),
{
    match c {
        NeighborCell::Inside(None) => Some(true),
        NeighborCell::Inside(Some(o)) => if p.can_switch_with(o) {
            Some(false)
        } else {
            None
        },
        NeighborCell::Outside => None,
    }
}

/// The first candidate `p` may take, scanning in order.
fn find_open(p: &Particle, n: &Neighborhood, cands: &Vec<Offset>, empty_only: bool) -> (r: Option<
    usize,
>)
    requires
        n.wf(),
        forall|k: int| 0 <= k < cands@.len() ==> in_window(#[trigger] cands@[k]),
    ensures
        match r {
            Some(i) => first_open(*p, n.0@, cands@, 0, empty_only) == Some(i as int),
            None => first_open(*p, n.0@, cands@, 0, empty_only) is None,
        },
{
    let mut i: usize = 0;
    while i < cands.len()
        invariant
            n.wf(),
            forall|k: int| 0 <= k < cands@.len() ==> in_window(#[trigger] cands@[k]),
            i <= cands@.len(),
            first_open(*p, n.0@, cands@, 0, empty_only) == first_open(
                *p,
                n.0@,
                cands@,
                i as int,
                empty_only,
            ),
        decreases cands.len() - i,
    {
        let c = n.on_relative(&cands[i]);
        let ok = match opening_of(p, c) {
            Some(e) => e || !empty_only,
            None => false,
        };
        if ok {
            return Some(i);
        }
        i = i + 1;
    }
    None
}

fn accelerate(v: u8) -> (r: u8)
    ensures
        r == accelerated(v),
{
    if v >= MAX_VELOCITY {
        MAX_VELOCITY
    } else {
        v + GRAVITY
    }
}

fn slow_down(v: u8) -> (r: u8)
    ensures
        r == slowed(v),
{
    if v > DEFAULT_VELOCITY + SWITCH_SLOWDOWN {
        v - SWITCH_SLOWDOWN
    } else {
        DEFAULT_VELOCITY
    }
}

fn fall_exec(p: &Particle, v: u8, n: &Neighborhood, cands: &Vec<Offset>) -> (r: (Offset, u8))
    requires
        n.wf(),
        forall|k: int| 0 <= k < cands@.len() ==> unit_dir(#[trigger] cands@[k]),
    ensures
        r == fall(*p, v, n.0@, cands@),
        unit_dir(r.0),
        v <= MAX_VELOCITY ==> r.1 <= MAX_VELOCITY,
{
    proof {
        lemma_first_open(*p, n.0@, cands@, 0, false);
    }
    match find_open(p, n, cands, false) {
        Some(i) => {
            let off = cands[i];
            if n.on_relative(&off).is_none() {
                if off.y > 0 {
                    (off, accelerate(v))
                } else {
                    (off, v)
                }
            } else {
                (off, slow_down(v))
            }
        },
        None => (Offset::zero(), DEFAULT_VELOCITY),
    }
}

fn wander_exec(p: &Particle, n: &Neighborhood, cands: &Vec<Offset>, empty_only: bool) -> (r:
    Offset)
    requires
        n.wf(),
        forall|k: int| 0 <= k < cands@.len() ==> unit_dir(#[trigger] cands@[k]),
    ensures
        r == wander(*p, n.0@, cands@, empty_only),
        unit_dir(r),
{
    proof {
        lemma_first_open(*p, n.0@, cands@, 0, empty_only);
    }
    match find_open(p, n, cands, empty_only) {
        Some(i) => cands[i],
        None => Offset::zero(),
    }
}

fn side_of(d: &Dice) -> (r: i32)
    ensures
        r == side(*d),
{
    if d.side {
        1
    } else {
        -1
    }
}

fn spread_dir_exec(x_dir: i32, n: &Neighborhood) -> (r: i32)
    requires
        n.wf(),
        x_dir == 1 || x_dir == -1,
    ensures
        r == spread_dir(x_dir, n.0@),
        r == 1 || r == -1,
{
    if n.on_relative(&Offset::new(x_dir, 0)).is_none() {
        x_dir
    } else {
        -x_dir
    }
}

pub fn sand_update(s: &Sand, n: &Neighborhood, d: &Dice) -> (r: Transition)
    requires
        n.wf(),
        Particle::Sand(*s).wf(),
    ensures
        r == sand_rule(*s, n.0@, *d),
        r matches Transition::Become(q) ==> q.wf(),
{
    let x = side_of(d);
    let nx = -x;
    let cands = vec![Offset::new(0, 1), Offset::new(nx, 1), Offset::new(x, 1)];
    assert(cands@ =~= down_cands(x));
    let (m, v) = fall_exec(&Particle::Sand(*s), s.velocity, n, &cands);
    Transition::Become(Particle::Sand(Sand { velocity: v, color: s.color, movement: m }))
}

pub fn water_update(s: &Water, n: &Neighborhood, d: &Dice) -> (r: Transition)
    requires
        n.wf(),
        Particle::Water(*s).wf(),
    ensures
        r == water_rule(*s, n.0@, *d),
        r matches Transition::Become(q) ==> q.wf(),
{
    let x = spread_dir_exec(s.x_dir, n);
    let nx = -x;
    let r = side_of(d);
    let nr = -r;
    let cands = vec![
        Offset::new(0, 1),
        Offset::new(nr, 1),
        Offset::new(r, 1),
        Offset::new(x, 0),
        Offset::new(nx, 0),
    ];
    assert(cands@ =~= spread_cands(x, r));
    let (m, v) = fall_exec(&Particle::Water(*s), s.velocity, n, &cands);
    let (burning, anti) = count_fire(n);
    let (own_burning, own_anti): (i64, i64) = match &n.0[4] {
        NeighborCell::Inside(Some(p)) => match p.get_burnability() {
            Burnability::IsBurning(_) => (1, 0),
            Burnability::AntiBurn => (0, 1),
            _ => (0, 0),
        },
        _ => (0, 0),
    };
    if burning as i64 - own_burning > anti as i64 - own_anti {
        Transition::Spawn(Species::Vapor)
    } else {
        Transition::Become(
            Particle::Water(Water { velocity: v, color: s.color, movement: m, x_dir: x }),
        )
    }
}

pub fn oil_update(s: &Oil, n: &Neighborhood, d: &Dice) -> (r: Transition)
    requires
        n.wf(),
        Particle::Oil(*s).wf(),
    ensures
        r == oil_rule(*s, n.0@, *d),
        r matches Transition::Become(q) ==> q.wf(),
{
    let x = spread_dir_exec(s.x_dir, n);
    let nx = -x;
    let r = side_of(d);
    let nr = -r;
    let cands = vec![
        Offset::new(0, 1),
        Offset::new(nr, 1),
        Offset::new(r, 1),
        Offset::new(x, 0),
        Offset::new(nx, 0),
    ];
    assert(cands@ =~= spread_cands(x, r));
    let (m, v) = fall_exec(&Particle::Oil(*s), s.velocity, n, &cands);
    let (b, res) = Burnability::step(s.burnability, n, OIL_BURN_TIME, true, d.ignite);
    if res == PropertyCheckResult::Destroyed {
        Transition::Spawn(Species::Smoke)
    } else {
        let burning = match b {
            Burnability::IsBurning(_) => true,
            _ => false,
        };
        let color = if res == PropertyCheckResult::Updated && burning {
            d.tint
        } else {
            s.color
        };
        Transition::Become(
            Particle::Oil(Oil { velocity: v, color, burnability: b, movement: m, x_dir: x }),
        )
    }
}

pub fn mud_update(s: &Mud, n: &Neighborhood, d: &Dice) -> (r: Transition)
    requires
        n.wf(),
        Particle::Mud(*s).wf(),
    ensures
        r == mud_rule(*s, n.0@, *d),
        r matches Transition::Become(q) ==> q.wf(),
{
    let p = Particle::Mud(*s);
    let down = Offset::new(0, 1);
    match opening_of(&p, n.on_relative(&down)) {
        Some(empty) => {
            let v = if empty {
                accelerate(s.velocity)
            } else {
                slow_down(s.velocity)
            };
            Transition::Become(
                Particle::Mud(
                    Mud { velocity: v, color: s.color, side_friction: s.side_friction, movement: down },
                ),
            )
        },
        None => {
            if s.side_friction > 0 {
                Transition::Become(
                    Particle::Mud(
                        Mud {
                            velocity: DEFAULT_VELOCITY,
                            color: s.color,
                            side_friction: s.side_friction - 1,
                            movement: Offset::zero(),
                        },
                    ),
                )
            } else {
                let x = side_of(d);
                let nx = -x;
                let cands = vec![Offset::new(nx, 1), Offset::new(x, 1)];
                let ghost spec_cands = seq![Offset { x: nx, y: 1 }, Offset { x: x, y: 1 }];
                assert(cands@ =~= spec_cands);
                let (m, v) = fall_exec(&p, s.velocity, n, &cands);
                let f = if find_open(&p, n, &cands, false).is_some() {
                    d.friction
                } else {
                    s.side_friction
                };
                Transition::Become(
                    Particle::Mud(Mud { velocity: v, color: s.color, side_friction: f, movement: m }),
                )
            }
        },
    }
}

fn fly_dir_exec(k: usize) -> (r: Offset)
    ensures
        r == fly_dir(k),
{
    if k == 0 {
        Offset::new(0, 0)
    } else if k == 1 {
        Offset::new(1, 0)
    } else if k == 2 {
        Offset::new(-1, 0)
    } else if k == 3 {
        Offset::new(0, 1)
    } else if k == 4 {
        Offset::new(0, -1)
    } else if k == 5 {
        Offset::new(1, 1)
    } else if k == 6 {
        Offset::new(-1, 1)
    } else if k == 7 {
        Offset::new(1, -1)
    } else {
        Offset::new(-1, -1)
    }
}

fn spark_dir_exec(k: usize) -> (r: Offset)
    ensures
        r == spark_dir(k),
{
    if k == 0 {
        Offset::new(1, 0)
    } else if k == 1 {
        Offset::new(-1, 0)
    } else {
        Offset::new(0, 1)
    }
}

/// The directions of the drawn order, from the fly's table, or from the
/// spark's.
fn ordered_dirs(d: &Dice, fly: bool) -> (r: Vec<Offset>)
    ensures
        r@ == (if fly {
            fly_cands(*d)
        } else {
            spark_cands(*d)
        }),
        forall|k: int| 0 <= k < r@.len() ==> unit_dir(#[trigger] r@[k]),
{
    let ghost target = if fly {
        fly_cands(*d)
    } else {
        spark_cands(*d)
    };
    let mut r: Vec<Offset> = Vec::new();
    let mut i: usize = 0;
    while i < d.order.len()
        invariant
            i <= d.order@.len(),
            target == (if fly {
                fly_cands(*d)
            } else {
                spark_cands(*d)
            }),
            target.len() == d.order@.len(),
            r@ =~= target.take(i as int),
            forall|k: int| 0 <= k < r@.len() ==> unit_dir(#[trigger] r@[k]),
        decreases d.order.len() - i,
    {
        let o = if fly {
            fly_dir_exec(d.order[i])
        } else {
            spark_dir_exec(d.order[i])
        };
        r.push(o);
        i = i + 1;
    }
    assert(target.take(i as int) =~= target);
    r
}

pub fn fly_update(s: &Fly, n: &Neighborhood, d: &Dice) -> (r: Transition)
    requires
        n.wf(),
        Particle::Fly(*s).wf(),
    ensures
        r == fly_rule(*s, n.0@, *d),
        r matches Transition::Become(q) ==> q.wf(),
{
    if s.lifetime == 0 {
        return Transition::Vanish;
    }
    let p = Particle::Fly(*s);
    let probe = s.focus == 0 || !n.on_relative(&s.movement).is_none();
    let cands = ordered_dirs(d, true);
    proof {
        lemma_first_open(p, n.0@, cands@, 0, false);
    }
    let (m, f) = if probe {
        match find_open(&p, n, &cands, false) {
            Some(i) => (cands[i], d.focus),
            None => (Offset::zero(), s.focus),
        }
    } else {
        (s.movement, s.focus - 1)
    };
    let (b, res) = Burnability::step(s.burnability, n, FLY_BURN_TIME, true, d.ignite);
    if res == PropertyCheckResult::Destroyed {
        Transition::Vanish
    } else {
        let burning = match b {
            Burnability::IsBurning(_) => true,
            _ => false,
        };
        let color = if res == PropertyCheckResult::Updated && burning {
            d.tint
        } else {
            s.color
        };
        Transition::Become(
            Particle::Fly(Fly { color, lifetime: s.lifetime - 1, burnability: b, movement: m, focus: f }),
        )
    }
}

pub fn smoke_update(s: &Smoke, n: &Neighborhood, d: &Dice) -> (r: Transition)
    requires
        n.wf(),
        Particle::Smoke(*s).wf(),
    ensures
        r == smoke_rule(*s, n.0@, *d),
        r matches Transition::Become(q) ==> q.wf(),
{
    if s.lifetime == 0 {
        return Transition::Vanish;
    }
    let x = side_of(d);
    let nx = -x;
    let cands = vec![Offset::new(0, -1), Offset::new(x, 0), Offset::new(nx, 0)];
    assert(cands@ =~= rise_cands(x));
    let m = wander_exec(&Particle::Smoke(*s), n, &cands, false);
    Transition::Become(Particle::Smoke(Smoke { color: s.color, lifetime: s.lifetime - 1, movement: m }))
}

pub fn vapor_update(s: &Vapor, n: &Neighborhood, d: &Dice) -> (r: Transition)
    requires
        n.wf(),
        Particle::Vapor(*s).wf(),
    ensures
        r == vapor_rule(*s, n.0@, *d),
        r matches Transition::Become(q) ==> q.wf(),
{
    if s.lifetime == 0 {
        return Transition::Spawn(Species::Water);
    }
    let x = side_of(d);
    let nx = -x;
    let cands = vec![Offset::new(0, -1), Offset::new(x, 0), Offset::new(nx, 0)];
    assert(cands@ =~= rise_cands(x));
    let m = wander_exec(&Particle::Vapor(*s), n, &cands, false);
    Transition::Become(Particle::Vapor(Vapor { color: s.color, lifetime: s.lifetime - 1, movement: m }))
}

pub fn spark_update(s: &Spark, n: &Neighborhood, d: &Dice) -> (r: Transition)
    requires
        n.wf(),
        Particle::Spark(*s).wf(),
    ensures
        r == spark_rule(*s, n.0@, *d),
        r matches Transition::Become(q) ==> q.wf(),
{
    let cands = ordered_dirs(d, false);
    let m = wander_exec(&Particle::Spark(*s), n, &cands, true);
    let (b, res) = Burnability::step(s.burnability, n, SPARK_LIFETIME, true, d.ignite);
    if res == PropertyCheckResult::Destroyed {
        Transition::Vanish
    } else {
        Transition::Become(Particle::Spark(Spark { color: s.color, burnability: b, movement: m }))
    }
}

pub fn wood_update(s: &Wood, n: &Neighborhood, d: &Dice) -> (r: Transition)
    requires
        n.wf(),
    ensures
        r == wood_rule(*s, n.0@, *d),
        r matches Transition::Become(q) ==> q.wf(),
{
    let (b, res) = Burnability::step(s.burnability, n, WOOD_BURN_TIME, true, d.ignite);
    if res == PropertyCheckResult::Destroyed {
        Transition::Vanish
    } else if res == PropertyCheckResult::Updated {
        let burning = match b {
            Burnability::IsBurning(_) => true,
            _ => false,
        };
        let color = if burning {
            d.tint
        } else {
            s.color
        };
        Transition::Become(Particle::Wood(Wood { color, burnability: b }))
    } else {
        Transition::Keep
    }
}

/// A fresh particle of kind `k`, as its constructor makes one.
pub fn spawn(k: Species) -> (r: Particle)
    requires
        k != Species::Static,
    ensures
        r.species_spec() == k,
        r.wf(),
{
    match k {
        Species::Sand => Sand::new(),
        Species::Water => Water::new(),
        Species::Rock => Rock::new(),
        Species::Mud => Mud::new(),
        Species::Oil => Oil::new(),
        Species::Wood => Wood::new(),
        Species::Spark => Spark::new(),
        Species::Fly => Fly::new(),
        Species::Smoke => Smoke::new(),
        Species::Vapor => Vapor::new(),
        Species::Static => Static::new(0),
    }
}

impl Particle {
    /// The local rule of the particle's kind.
    pub open spec fn rule(self, n: Seq<NeighborCell>, d: Dice) -> Transition {
        match self {
            Particle::Sand(s) => sand_rule(s, n, d),
            Particle::Water(s) => water_rule(s, n, d),
            Particle::Oil(s) => oil_rule(s, n, d),
            Particle::Mud(s) => mud_rule(s, n, d),
            Particle::Fly(s) => fly_rule(s, n, d),
            Particle::Smoke(s) => smoke_rule(s, n, d),
            Particle::Vapor(s) => vapor_rule(s, n, d),
            Particle::Spark(s) => spark_rule(s, n, d),
            Particle::Wood(s) => wood_rule(s, n, d),
            Particle::Rock(_) | Particle::Static(_) => Transition::Keep,
        }
    }

    /// The next state of the particle given its window and the chance
    /// draws.
    pub fn update_with(&self, neigborhood: &Neighborhood, dice: &Dice) -> (r: Transition)
        requires
            self.wf(),
            neigborhood.wf(),
            dice.fits(*self),
        ensures
            r == self.rule(neigborhood.0@, *dice),
            r matches Transition::Become(q) ==> q.wf(),
            r matches Transition::Spawn(k) ==> k != Species::Static,
    {
        let n = neigborhood;
        match self {
            Particle::Sand(s) => sand_update(s, n, dice),
            Particle::Water(s) => water_update(s, n, dice),
            Particle::Oil(s) => oil_update(s, n, dice),
            Particle::Mud(s) => mud_update(s, n, dice),
            Particle::Fly(s) => fly_update(s, n, dice),
            Particle::Smoke(s) => smoke_update(s, n, dice),
            Particle::Vapor(s) => vapor_update(s, n, dice),
            Particle::Spark(s) => spark_update(s, n, dice),
            Particle::Wood(s) => wood_update(s, n, dice),
            Particle::Rock(_) | Particle::Static(_) => Transition::Keep,
        }
    }

    /// The particle's local update for this tick, with chance draws made
    /// here: it is the outcome of its rule for some draws.
    pub fn update(&self, neigborhood: Neighborhood) -> (r: ParticleChange)
        requires
            self.wf(),
            neigborhood.wf(),
        ensures
            exists|d: Dice| d.fits(*self) && realizes(#[trigger] self.rule(neigborhood.0@, d), r),
            r matches ParticleChange::Changed(Some(q)) ==> q.wf(),
    {
        let dice = Dice::roll(self);
        let t = self.update_with(&neigborhood, &dice);
        let r = match t {
            Transition::Keep => ParticleChange::Unchanged,
            Transition::Become(q) => ParticleChange::Changed(Some(q)),
            Transition::Vanish => ParticleChange::Changed(None),
            Transition::Spawn(k) => ParticleChange::Changed(Some(spawn(k))),
        };
        assert(realizes(self.rule(neigborhood.0@, dice), r));
        r
    }
}

} // verus!
