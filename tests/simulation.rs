use particle_simulation::particles::{
    Burnability, Fly, Mud, Oil, Particle, Rock, Sand, Smoke, Spark, Species, Vapor, Water, Wood,
};
use particle_simulation::simulation::SimInfo;
use particle_simulation::{Color, Offset, Simulation, Sprite};

fn species_at(sim: &Simulation, x: i32, y: i32) -> Option<Species> {
    sim.get_particle(&Offset::new(x, y)).map(|p| p.species())
}

fn occupied(sim: &Simulation) -> usize {
    sim.cells_iter().filter(|c| !c.is_empty()).count()
}

fn moving_sand(dx: i32, dy: i32) -> Particle {
    Particle::Sand(particle_simulation::particles::Sand {
        velocity: 10,
        color: Color::rgb(1, 2, 3),
        movement: Offset::new(dx, dy),
    })
}

#[test]
fn gravity_scenario() {
    let mut sim = Simulation::new(10, 10);
    assert!(sim.add_particle(&Offset::new(5, 0), Sand::new()));
    sim.simulate_step();
    assert_eq!(species_at(&sim, 5, 1), Some(Species::Sand));
    assert_eq!(species_at(&sim, 5, 0), None);
    for _ in 1..9 {
        sim.simulate_step();
    }
    assert_eq!(species_at(&sim, 5, 9), Some(Species::Sand));
    assert_eq!(occupied(&sim), 1);
    for _ in 0..5 {
        sim.simulate_step();
        assert_eq!(species_at(&sim, 5, 9), Some(Species::Sand));
    }
}

#[test]
fn collision_scenario() {
    let mut sim = Simulation::new(10, 10);
    assert!(sim.add_particle(&Offset::new(4, 5), moving_sand(1, 1)));
    assert!(sim.add_particle(&Offset::new(6, 5), moving_sand(-1, 1)));
    sim.simulate_step();
    let left = species_at(&sim, 4, 5).is_some();
    let right = species_at(&sim, 6, 5).is_some();
    assert!(left != right);
    assert_eq!(species_at(&sim, 5, 6), Some(Species::Sand));
    assert_eq!(occupied(&sim), 2);
    assert_eq!(sim.info().moves_made_last_frame, 1);
}

#[test]
fn pressure_scenario() {
    let mut sim = Simulation::new(10, 10);
    for x in 3..6 {
        for y in 6..10 {
            assert!(sim.add_particle(&Offset::new(x, y), Water::new()));
        }
    }
    sim.simulate_step();
    let cells: Vec<_> = sim.cells_iter().collect();
    for x in 3..6 {
        for y in 6..10 {
            let c = cells[(y * 10 + x) as usize];
            assert!(!c.is_empty());
            assert_eq!(c.get_pressure(), y - 6);
        }
    }
    for (i, c) in cells.iter().enumerate() {
        if c.is_empty() {
            assert_eq!(c.get_pressure(), 0, "cell {}", i);
        }
    }
}

#[test]
fn combustion_scenario() {
    let mut sim = Simulation::new(3, 2);
    assert!(sim.add_particle(&Offset::new(1, 1), Spark::new()));
    assert!(sim.add_particle(&Offset::new(0, 1), Wood::new()));
    assert!(sim.add_particle(&Offset::new(2, 1), Rock::new()));
    assert!(sim.add_particle(&Offset::new(1, 0), Rock::new()));
    let mut caught = false;
    for _ in 0..60 {
        sim.simulate_step();
        if let Some(p) = sim.get_particle(&Offset::new(0, 1)) {
            if let Burnability::IsBurning(_) = p.get_burnability() {
                assert_eq!(p.species(), Species::Wood);
                caught = true;
                break;
            }
        }
    }
    assert!(caught);
}

#[test]
fn burned_out_particle_is_destroyed() {
    let mut sim = Simulation::new(3, 3);
    let mut w = Wood::new();
    w.set_burnability(Burnability::IsBurning(0));
    assert!(sim.add_particle(&Offset::new(1, 1), w));
    sim.simulate_step();
    assert_eq!(species_at(&sim, 1, 1), None);
    assert_eq!(sim.info().particle_count, 0);
    assert_eq!(sim.info().destroyed_last_frame, 1);
}

#[test]
fn conservation_without_destruction() {
    let mut sim = Simulation::new(20, 20);
    let mut n = 0;
    for x in 0..20 {
        for y in 0..10 {
            if (x + y) % 3 == 0 {
                assert!(sim.add_particle(&Offset::new(x, y), Sand::new()));
                n += 1;
            }
        }
    }
    for _ in 0..30 {
        sim.simulate_step();
        assert_eq!(sim.info().destroyed_last_frame, 0);
        assert_eq!(sim.info().particle_count, n);
        assert_eq!(occupied(&sim), n as usize);
    }
}

#[test]
fn exclusivity_of_sand_and_water() {
    let mut sim = Simulation::new(12, 12);
    let mut sand = 0;
    let mut water = 0;
    for x in 0..12 {
        for y in 0..6 {
            let p = if (x * 7 + y) % 2 == 0 { Sand::new() } else { Water::new() };
            if p.species() == Species::Sand {
                sand += 1;
            } else {
                water += 1;
            }
            assert!(sim.add_particle(&Offset::new(x, y), p));
        }
    }
    for _ in 0..25 {
        sim.simulate_step();
        let mut s = 0;
        let mut w = 0;
        for c in sim.cells_iter() {
            match c.get_particle() {
                Some(p) if p.species() == Species::Sand => s += 1,
                Some(p) if p.species() == Species::Water => w += 1,
                Some(_) => panic!("unexpected kind"),
                None => {}
            }
        }
        assert_eq!(s, sand);
        assert_eq!(w, water);
    }
}

#[test]
fn empty_grid_stays_empty() {
    let mut sim = Simulation::new(7, 5);
    for _ in 0..3 {
        sim.simulate_step();
    }
    assert_eq!(occupied(&sim), 0);
    assert!(sim.cells_iter().all(|c| c.get_pressure() == 0));
    assert_eq!(sim.info().particle_count, 0);
    assert_eq!(sim.info().moves_made_last_frame, 0);
}

#[test]
fn sand_sinks_through_water() {
    let mut sim = Simulation::new(1, 2);
    assert!(sim.add_particle(&Offset::new(0, 0), Sand::new()));
    assert!(sim.add_particle(&Offset::new(0, 1), Water::new()));
    // In the first tick the blocked water competes for its own cell with
    // the sand; once it has stopped asking to move, the sand switches in.
    sim.simulate_step();
    if species_at(&sim, 0, 1) == Some(Species::Water) {
        sim.simulate_step();
    }
    assert_eq!(species_at(&sim, 0, 0), Some(Species::Water));
    assert_eq!(species_at(&sim, 0, 1), Some(Species::Sand));
}

#[test]
fn water_does_not_sink_through_sand() {
    let mut sim = Simulation::new(1, 2);
    assert!(sim.add_particle(&Offset::new(0, 0), Water::new()));
    assert!(sim.add_particle(&Offset::new(0, 1), Sand::new()));
    sim.simulate_step();
    assert_eq!(species_at(&sim, 0, 0), Some(Species::Water));
    assert_eq!(species_at(&sim, 0, 1), Some(Species::Sand));
}

#[test]
fn add_and_remove_failures() {
    let mut sim = Simulation::new(4, 3);
    assert_eq!(sim.width(), 4);
    assert_eq!(sim.height(), 3);
    assert!(!sim.add_particle(&Offset::new(4, 0), Sand::new()));
    assert!(!sim.add_particle(&Offset::new(-1, 0), Sand::new()));
    assert!(!sim.add_particle(&Offset::new(0, 3), Sand::new()));
    assert!(sim.add_particle(&Offset::new(1, 1), Sand::new()));
    assert!(!sim.add_particle(&Offset::new(1, 1), Rock::new()));
    assert_eq!(species_at(&sim, 1, 1), Some(Species::Sand));
    assert_eq!(sim.info().particle_count, 1);
    assert!(!sim.remove_particle(&Offset::new(2, 2)));
    assert!(!sim.remove_particle(&Offset::new(9, 9)));
    assert!(sim.get_particle(&Offset::new(-3, 1)).is_none());
    assert!(sim.remove_particle(&Offset::new(1, 1)));
    assert_eq!(sim.info().particle_count, 0);
    assert!(sim.get_particle(&Offset::new(1, 1)).is_none());
}

#[test]
fn change_particle_replaces() {
    let mut sim = Simulation::new(3, 3);
    assert!(sim.add_particle(&Offset::new(0, 0), Sand::new()));
    sim.change_particle(&Offset::new(0, 0), Rock::new());
    sim.change_particle(&Offset::new(2, 2), Rock::new());
    sim.change_particle(&Offset::new(5, 5), Rock::new());
    assert_eq!(species_at(&sim, 0, 0), Some(Species::Rock));
    assert_eq!(species_at(&sim, 2, 2), Some(Species::Rock));
    assert_eq!(sim.info().particle_count, 2);
}

#[test]
fn sim_info_starts_at_zero() {
    let info = SimInfo::new();
    assert_eq!(info.particle_count, 0);
    assert_eq!(info.moves_made_last_frame, 0);
    assert_eq!(info.destroyed_last_frame, 0);
}

#[test]
fn insert_sprite_places_particles() {
    let mut sim = Simulation::new(5, 5);
    assert!(sim.add_particle(&Offset::new(2, 1), Sand::new()));
    let sprite = Sprite { pixels: vec![0xFFFFFFFF, 0xFF000000, 0xFFFFFFFF, 0xFF000000], width: 2, height: 2 };
    sim.insert_sprite(&sprite, &Offset::new(1, 1), |c| {
        if c == 0xFFFFFFFF {
            Rock::new()
        } else {
            particle_simulation::particles::Static::new(c)
        }
    });
    assert_eq!(species_at(&sim, 1, 1), Some(Species::Rock));
    assert_eq!(species_at(&sim, 2, 1), Some(Species::Sand));
    assert_eq!(species_at(&sim, 1, 2), Some(Species::Rock));
    assert_eq!(species_at(&sim, 2, 2), Some(Species::Static));
    assert_eq!(sim.info().particle_count, 4);
    sim.insert_sprite(&sprite, &Offset::new(4, 4), |_| Rock::new());
    assert_eq!(species_at(&sim, 4, 4), Some(Species::Rock));
    assert_eq!(sim.info().particle_count, 5);
}

#[test]
fn overflow_levels_a_deep_column() {
    // A U-shaped vessel of rock: a tall column of water on the left
    // connected at the bottom to a short one on the right.
    let mut sim = Simulation::new(3, 12);
    for y in 0..11 {
        assert!(sim.add_particle(&Offset::new(1, y), Rock::new()));
    }
    for y in 0..12 {
        assert!(sim.add_particle(&Offset::new(0, y), Water::new()));
    }
    assert!(sim.add_particle(&Offset::new(1, 11), Water::new()));
    assert!(sim.add_particle(&Offset::new(2, 11), Water::new()));
    let before = sim.info().particle_count;
    sim.simulate_step();
    assert_eq!(sim.info().particle_count, before);
    // the right column gained water from the top of the left one
    assert_eq!(species_at(&sim, 2, 10), Some(Species::Water));
    assert_eq!(species_at(&sim, 0, 0), None);
}

#[test]
fn pressure_follows_connected_regions() {
    let mut sim = Simulation::new(8, 10);
    // A U-shaped body of water: a tall left arm joined at the bottom to a
    // short right arm by a rock wall's gap.
    for y in 3..9 {
        assert!(sim.add_particle(&Offset::new(1, y), Rock::new()));
    }
    for y in 3..10 {
        assert!(sim.add_particle(&Offset::new(0, y), Water::new()));
    }
    assert!(sim.add_particle(&Offset::new(1, 9), Water::new()));
    for y in 7..10 {
        assert!(sim.add_particle(&Offset::new(2, y), Water::new()));
    }
    // A separate pool behind another wall.
    for y in 0..10 {
        assert!(sim.add_particle(&Offset::new(3, y), Rock::new()));
    }
    for x in 4..6 {
        for y in 8..10 {
            assert!(sim.add_particle(&Offset::new(x, y), Water::new()));
        }
    }
    sim.simulate_step();
    let cells: Vec<_> = sim.cells_iter().collect();
    let pressure = |x: i32, y: i32| cells[(y * 8 + x) as usize].get_pressure();
    assert_eq!(pressure(0, 3), 0);
    assert_eq!(pressure(0, 9), 6);
    assert_eq!(pressure(1, 9), 6);
    assert_eq!(pressure(2, 7), 4);
    assert_eq!(pressure(2, 9), 6);
    assert_eq!(pressure(4, 8), 0);
    assert_eq!(pressure(5, 9), 1);
    assert_eq!(pressure(1, 5), 0);
    assert_eq!(pressure(3, 9), 0);
}

#[test]
fn mixed_matter_keeps_an_exact_count() {
    let makers: Vec<fn() -> Particle> = vec![
        Sand::new,
        Water::new,
        Rock::new,
        Mud::new,
        Oil::new,
        Wood::new,
        Spark::new,
        Fly::new,
        Smoke::new,
        Vapor::new,
    ];
    let mut sim = Simulation::new(30, 30);
    let mut k = 0;
    for x in 0..30 {
        for y in 0..20 {
            if (x * 3 + y * 5) % 4 != 0 {
                sim.add_particle(&Offset::new(x, y), makers[k % makers.len()]());
                k += 1;
            }
        }
    }
    let mut before = sim.info().particle_count;
    for _ in 0..200 {
        sim.simulate_step();
        let info = *sim.info();
        assert_eq!(info.particle_count + info.destroyed_last_frame, before);
        assert_eq!(info.particle_count as usize, occupied(&sim));
        before = info.particle_count;
    }
}

#[test]
fn empty_sized_grid() {
    let mut sim = Simulation::new(0, 5);
    assert_eq!(sim.width(), 0);
    assert!(!sim.add_particle(&Offset::new(0, 0), Sand::new()));
    sim.simulate_step();
    assert_eq!(sim.cells_iter().count(), 0);
    let mut flat = Simulation::new(4, 0);
    flat.simulate_step();
    assert!(flat.get_particle(&Offset::new(0, 0)).is_none());
}
