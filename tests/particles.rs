use particle_simulation::particles::constants::{DEFAULT_VELOCITY, MAX_VELOCITY};
use particle_simulation::particles::{
    Burnability, Dice, Fly, MatterType, Mud, NeighborCell, Neighborhood, Oil, Particle,
    ParticleChange, PropertyCheckResult, Rock, Sand, Smoke, Spark, Species, Static, Transition,
    Vapor, Water, Wood,
};
use particle_simulation::{Color, Offset};

fn dice(side: bool, ignite: bool, order: Vec<usize>) -> Dice {
    Dice { side, ignite, order, focus: 9, friction: 13, tint: Color::rgb(200, 10, 10) }
}

fn empty_window() -> Neighborhood {
    Neighborhood(vec![NeighborCell::Inside(None); 9])
}

fn window_with(center: Particle, others: &[(Offset, NeighborCell)]) -> Neighborhood {
    let mut n = empty_window();
    n.0[4] = NeighborCell::Inside(Some(center));
    for (o, c) in others {
        n.0[((1 + o.y) * 3 + (1 + o.x)) as usize] = *c;
    }
    n
}

fn sand(velocity: u8, dx: i32, dy: i32) -> Particle {
    Particle::Sand(Sand { velocity, color: Color::rgb(1, 1, 1), movement: Offset::new(dx, dy) })
}

#[test]
fn sand_falls_and_accelerates() {
    let p = sand(10, 0, 1);
    let n = window_with(p, &[]);
    match p.update_with(&n, &dice(true, false, vec![])) {
        Transition::Become(Particle::Sand(s)) => {
            assert_eq!(s.movement, Offset::new(0, 1));
            assert_eq!(s.velocity, 11);
        }
        _ => panic!("sand should fall"),
    }
    let fast = sand(MAX_VELOCITY, 0, 1);
    match fast.update_with(&window_with(fast, &[]), &dice(true, false, vec![])) {
        Transition::Become(Particle::Sand(s)) => assert_eq!(s.velocity, MAX_VELOCITY),
        _ => panic!("sand should fall"),
    }
}

#[test]
fn sand_slides_to_the_drawn_side_first() {
    let p = sand(10, 0, 1);
    let below = (Offset::new(0, 1), NeighborCell::Inside(Some(Rock::new())));
    let n = window_with(p, &[below]);
    match p.update_with(&n, &dice(true, false, vec![])) {
        Transition::Become(Particle::Sand(s)) => assert_eq!(s.movement, Offset::new(-1, 1)),
        _ => panic!(),
    }
    match p.update_with(&n, &dice(false, false, vec![])) {
        Transition::Become(Particle::Sand(s)) => assert_eq!(s.movement, Offset::new(1, 1)),
        _ => panic!(),
    }
}

#[test]
fn blocked_sand_stops() {
    let p = sand(25, 0, 1);
    let rock = NeighborCell::Inside(Some(Rock::new()));
    let n = window_with(
        p,
        &[(Offset::new(0, 1), rock), (Offset::new(-1, 1), NeighborCell::Outside), (Offset::new(1, 1), rock)],
    );
    match p.update_with(&n, &dice(true, false, vec![])) {
        Transition::Become(Particle::Sand(s)) => {
            assert_eq!(s.movement, Offset::zero());
            assert_eq!(s.velocity, DEFAULT_VELOCITY);
        }
        _ => panic!(),
    }
}

#[test]
fn sand_switching_with_water_slows_down() {
    let p = sand(25, 0, 1);
    let n = window_with(p, &[(Offset::new(0, 1), NeighborCell::Inside(Some(Water::new())))]);
    match p.update_with(&n, &dice(true, false, vec![])) {
        Transition::Become(Particle::Sand(s)) => {
            assert_eq!(s.movement, Offset::new(0, 1));
            assert_eq!(s.velocity, 24);
        }
        _ => panic!(),
    }
}

#[test]
fn desired_movement_scales_with_velocity() {
    assert_eq!(sand(10, 0, 1).get_movement(), Offset::new(0, 1));
    assert_eq!(sand(19, 0, 1).get_movement(), Offset::new(0, 1));
    assert_eq!(sand(20, 1, 1).get_movement(), Offset::new(2, 2));
    assert_eq!(sand(50, -1, 0).get_movement(), Offset::new(-5, 0));
    assert_eq!(Rock::new().get_movement(), Offset::zero());
}

#[test]
fn water_slides_down_a_diagonal_before_spreading() {
    let p = Particle::Water(Water { velocity: 10, color: Color::rgb(0, 0, 9), movement: Offset::new(0, 1), x_dir: 1 });
    let rock = NeighborCell::Inside(Some(Rock::new()));
    let n = window_with(p, &[(Offset::new(0, 1), rock), (Offset::new(1, 0), rock)]);
    match p.update_with(&n, &dice(true, false, vec![])) {
        Transition::Become(Particle::Water(w)) => {
            assert_eq!(w.x_dir, -1);
            assert_eq!(w.movement, Offset::new(-1, 1));
            assert_eq!(w.velocity, 11);
        }
        _ => panic!(),
    }
    match p.update_with(&n, &dice(false, false, vec![])) {
        Transition::Become(Particle::Water(w)) => assert_eq!(w.movement, Offset::new(1, 1)),
        _ => panic!(),
    }
}

#[test]
fn water_turns_at_an_obstacle_and_spreads() {
    let p = Particle::Water(Water { velocity: 10, color: Color::rgb(0, 0, 9), movement: Offset::new(0, 1), x_dir: 1 });
    let rock = NeighborCell::Inside(Some(Rock::new()));
    let n = window_with(
        p,
        &[
            (Offset::new(0, 1), rock),
            (Offset::new(1, 0), rock),
            (Offset::new(-1, 1), rock),
            (Offset::new(1, 1), NeighborCell::Outside),
        ],
    );
    match p.update_with(&n, &dice(true, false, vec![])) {
        Transition::Become(Particle::Water(w)) => {
            assert_eq!(w.x_dir, -1);
            assert_eq!(w.movement, Offset::new(-1, 0));
            assert_eq!(w.velocity, 10);
        }
        _ => panic!(),
    }
}

#[test]
fn water_boils_next_to_fire() {
    let p = Water::new();
    let fire = NeighborCell::Inside(Some(Spark::new()));
    let n = window_with(p, &[(Offset::new(1, 0), fire)]);
    assert_eq!(p.update_with(&n, &dice(true, false, vec![])), Transition::Spawn(Species::Vapor));
    match p.update(n) {
        ParticleChange::Changed(Some(v)) => assert_eq!(v.species(), Species::Vapor),
        _ => panic!("water should boil"),
    }
    // a neighbouring suppressor cancels the fire out
    let water = NeighborCell::Inside(Some(Water::new()));
    let even = window_with(p, &[(Offset::new(1, 0), fire), (Offset::new(0, -1), water)]);
    assert!(matches!(p.update_with(&even, &dice(true, false, vec![])), Transition::Become(_)));
}

#[test]
fn oil_burns_into_smoke() {
    let mut p = Oil::new();
    p.set_burnability(Burnability::IsBurning(0));
    let n = window_with(p, &[]);
    assert_eq!(p.update_with(&n, &dice(true, true, vec![])), Transition::Spawn(Species::Smoke));
}

#[test]
fn oil_catches_fire_and_takes_the_tint() {
    let p = Oil::new();
    let n = window_with(p, &[(Offset::new(0, -1), NeighborCell::Inside(Some(Spark::new())))]);
    match p.update_with(&n, &dice(true, true, vec![])) {
        Transition::Become(Particle::Oil(o)) => {
            assert_eq!(o.burnability, Burnability::IsBurning(100));
            assert_eq!(o.color, Color::rgb(200, 10, 10));
        }
        _ => panic!(),
    }
}

#[test]
fn wood_ignition_needs_the_coin() {
    let p = Wood::new();
    let n = window_with(p, &[(Offset::new(1, 1), NeighborCell::Inside(Some(Spark::new())))]);
    match p.update_with(&n, &dice(true, true, vec![])) {
        Transition::Become(Particle::Wood(w)) => assert_eq!(w.burnability, Burnability::IsBurning(150)),
        _ => panic!(),
    }
    assert_eq!(p.update_with(&n, &dice(true, false, vec![])), Transition::Keep);
}

#[test]
fn wood_is_put_out_by_water() {
    let mut p = Wood::new();
    p.set_burnability(Burnability::IsBurning(5));
    let water = NeighborCell::Inside(Some(Water::new()));
    let n = window_with(p, &[(Offset::new(-1, 0), water), (Offset::new(1, 0), water)]);
    assert_eq!(p.update_with(&n, &dice(true, false, vec![])), Transition::Vanish);
}

#[test]
fn burning_wood_burns_down() {
    let mut p = Wood::new();
    p.set_burnability(Burnability::IsBurning(5));
    let n = window_with(p, &[]);
    match p.update_with(&n, &dice(true, false, vec![])) {
        Transition::Become(Particle::Wood(w)) => assert_eq!(w.burnability, Burnability::IsBurning(4)),
        _ => panic!(),
    }
    let mut dead = Wood::new();
    dead.set_burnability(Burnability::IsBurning(0));
    assert_eq!(dead.update_with(&window_with(dead, &[]), &dice(true, true, vec![])), Transition::Vanish);
}

#[test]
fn burnability_decreases_and_checks() {
    assert_eq!(Burnability::IsBurning(5).decreased_by(3), Burnability::IsBurning(2));
    assert_eq!(Burnability::IsBurning(2).decreased_by(3), Burnability::IsBurning(0));
    assert_eq!(Burnability::CanBurn.decreased_by(3), Burnability::CanBurn);
    let mut p = Wood::new();
    p.set_burnability(Burnability::IsBurning(0));
    let n = window_with(p, &[]);
    assert_eq!(Burnability::check(&mut p, &n, 10, true), PropertyCheckResult::Destroyed);
    let mut q = Rock::new();
    assert_eq!(Burnability::check(&mut q, &n, 10, true), PropertyCheckResult::Unchanged);
    let (b, r) = Burnability::step(Burnability::IsBurning(3), &n, 10, true, false);
    assert_eq!(b, Burnability::IsBurning(2));
    assert_eq!(r, PropertyCheckResult::Updated);
}

#[test]
fn smoke_rises_then_vanishes() {
    let p = Particle::Smoke(Smoke { color: Color::rgb(1, 1, 1), lifetime: 3, movement: Offset::zero() });
    match p.update_with(&window_with(p, &[]), &dice(true, false, vec![])) {
        Transition::Become(Particle::Smoke(s)) => {
            assert_eq!(s.movement, Offset::new(0, -1));
            assert_eq!(s.lifetime, 2);
        }
        _ => panic!(),
    }
    let old = Particle::Smoke(Smoke { color: Color::rgb(1, 1, 1), lifetime: 0, movement: Offset::zero() });
    assert_eq!(old.update_with(&window_with(old, &[]), &dice(true, false, vec![])), Transition::Vanish);
}

#[test]
fn vapor_condenses_into_water() {
    let p = Particle::Vapor(Vapor { color: Color::rgb(1, 1, 1), lifetime: 0, movement: Offset::zero() });
    assert_eq!(p.update_with(&window_with(p, &[]), &dice(true, false, vec![])), Transition::Spawn(Species::Water));
    match p.update(window_with(p, &[])) {
        ParticleChange::Changed(Some(w)) => assert_eq!(w.species(), Species::Water),
        _ => panic!(),
    }
}

#[test]
fn mud_waits_out_its_friction() {
    let p = Particle::Mud(Mud { velocity: 10, color: Color::rgb(1, 1, 1), side_friction: 2, movement: Offset::zero() });
    let rock = NeighborCell::Inside(Some(Rock::new()));
    let n = window_with(p, &[(Offset::new(0, 1), rock)]);
    match p.update_with(&n, &dice(true, false, vec![])) {
        Transition::Become(Particle::Mud(m)) => {
            assert_eq!(m.side_friction, 1);
            assert_eq!(m.movement, Offset::zero());
        }
        _ => panic!(),
    }
    let q = Particle::Mud(Mud { velocity: 10, color: Color::rgb(1, 1, 1), side_friction: 0, movement: Offset::zero() });
    match q.update_with(&window_with(q, &[(Offset::new(0, 1), rock)]), &dice(false, false, vec![])) {
        Transition::Become(Particle::Mud(m)) => {
            assert_eq!(m.movement, Offset::new(1, 1));
            assert_eq!(m.side_friction, 13);
        }
        _ => panic!(),
    }
}

#[test]
fn fly_follows_the_drawn_order() {
    let p = Particle::Fly(Fly {
        color: Color::rgb(1, 1, 1),
        lifetime: 10,
        burnability: Burnability::CanBurn,
        movement: Offset::zero(),
        focus: 0,
    });
    let n = window_with(p, &[(Offset::new(1, 0), NeighborCell::Outside)]);
    match p.update_with(&n, &dice(true, false, vec![0, 1, 4, 2, 3, 5, 6, 7, 8])) {
        Transition::Become(Particle::Fly(f)) => {
            assert_eq!(f.movement, Offset::new(0, -1));
            assert_eq!(f.focus, 9);
            assert_eq!(f.lifetime, 9);
        }
        _ => panic!(),
    }
    let dead = Particle::Fly(Fly {
        color: Color::rgb(1, 1, 1),
        lifetime: 0,
        burnability: Burnability::CanBurn,
        movement: Offset::zero(),
        focus: 0,
    });
    assert_eq!(dead.update_with(&window_with(dead, &[]), &dice(true, false, vec![])), Transition::Vanish);
}

#[test]
fn spark_moves_only_into_empty_cells() {
    let p = Particle::Spark(Spark { color: Color::rgb(1, 1, 1), burnability: Burnability::IsBurning(9), movement: Offset::zero() });
    let water = NeighborCell::Inside(Some(Rock::new()));
    let n = window_with(p, &[(Offset::new(1, 0), water)]);
    match p.update_with(&n, &dice(true, false, vec![0, 2, 1])) {
        Transition::Become(Particle::Spark(s)) => {
            assert_eq!(s.movement, Offset::new(0, 1));
            assert_eq!(s.burnability, Burnability::IsBurning(8));
        }
        _ => panic!(),
    }
}

#[test]
fn properties_of_kinds() {
    assert_eq!(Water::new().get_density(), 128);
    assert_eq!(Oil::new().get_matter_type(), MatterType::Liquid);
    assert_eq!(Smoke::new().get_matter_type(), MatterType::Gas);
    assert!(Sand::new().is_solid());
    assert!(!Rock::new().is_moveable());
    assert!(Sand::new().can_switch_with(&Water::new()));
    assert!(!Water::new().can_switch_with(&Sand::new()));
    assert!(sand(11, 0, 1).can_switch_with(&Water::new()));
    assert!(!sand(11, 0, 1).can_switch_with(&Rock::new()));
    assert!(Fly::new().can_switch_with(&Smoke::new()));
    assert!(!Fly::new().can_switch_with(&Water::new()));
    assert_eq!(Water::new().get_burnability(), Burnability::AntiBurn);
    assert_eq!(Sand::new().get_name(), "Sand");
    assert_eq!(Static::new(0x123456).get_color(), &Color::rgb(0x12, 0x34, 0x56));
    assert_eq!(Rock::new().update(empty_window()).has_changed(), false);
    assert!(Sand::new().is_valid());
    assert!(!sand(60, 0, 1).is_valid());
}

#[test]
fn fresh_particles_have_jittered_colors() {
    for _ in 0..20 {
        let c = *Sand::new().get_color();
        assert!((0xE0 - 10..=0xE0 + 10).contains(&(c.r as i32)));
        assert!((0x2D - 10..=0x2D + 10).contains(&(c.b as i32)));
        assert_eq!(c.a, 255);
    }
    let m = Mud::new();
    if let Particle::Mud(m) = m {
        assert!((12..=20).contains(&m.side_friction));
    }
}

#[test]
fn neighborhood_accessors() {
    let p = Rock::new();
    let mut n = window_with(p, &[(Offset::new(0, 1), NeighborCell::Outside)]);
    n.0[0] = NeighborCell::Inside(Some(Sand::new()));
    assert!(n.down().is_outside());
    assert!(n.up().is_none());
    assert!(n.up_left().is_some());
    assert!(n.center().is_inside());
    assert!(n.on_relative(&Offset::new(-1, -1)).is_some());
    assert!(n.right().is_none() && n.left().is_none());
    assert!(n.up_right().is_none() && n.down_left().is_none() && n.down_right().is_none());
    assert_eq!(n.iter().count(), 9);
}

#[test]
fn dice_fit_their_particle() {
    let d = Dice::roll(&Fly::new());
    let mut o = d.order.clone();
    o.sort();
    assert_eq!(o, (0..9).collect::<Vec<usize>>());
    let d = Dice::roll(&Spark::new());
    let mut o = d.order.clone();
    o.sort();
    assert_eq!(o, vec![0, 1, 2]);
}
