use particle_simulation::utility::{get_offsets_for_square, get_value_around};
use particle_simulation::Offset;

#[test]
fn between_left() {
    let og_pos = Offset::new(10, 10);
    let max_pos = Offset::new(5, 10);

    let between = og_pos.between(&max_pos);

    assert_eq!(
        between,
        vec![
            og_pos,
            Offset::new(9, 10),
            Offset::new(8, 10),
            Offset::new(7, 10),
            Offset::new(6, 10),
            max_pos
        ]
    );
}

#[test]
fn between_left_down() {
    let og_pos = Offset::new(10, 10);
    let max_pos = Offset::new(5, 15);

    let between = og_pos.between(&max_pos);

    assert_eq!(
        between,
        vec![
            og_pos,
            Offset::new(9, 11),
            Offset::new(8, 12),
            Offset::new(7, 13),
            Offset::new(6, 14),
            max_pos
        ]
    );
}

#[test]
fn between_right_down() {
    let og_pos = Offset::new(10, 10);
    let max_pos = Offset::new(15, 15);

    let between = og_pos.between(&max_pos);

    assert_eq!(
        between,
        vec![
            og_pos,
            Offset::new(11, 11),
            Offset::new(12, 12),
            Offset::new(13, 13),
            Offset::new(14, 14),
            max_pos
        ]
    );
}

#[test]
fn between_vertical_up() {
    let a = Offset::new(3, 3);
    let b = Offset::new(3, 0);
    assert_eq!(
        a.between(&b),
        vec![a, Offset::new(3, 2), Offset::new(3, 1), b]
    );
}

#[test]
fn between_same_point() {
    let a = Offset::new(-4, 7);
    assert_eq!(a.between(&a), vec![a]);
}

#[test]
fn between_not_straight_is_empty() {
    let a = Offset::new(0, 0);
    let b = Offset::new(2, 1);
    assert!(a.between(&b).is_empty());
}

#[test]
fn unit_and_directions() {
    let o = Offset::new(-7, 3);
    assert_eq!(o.unit(), Offset::new(-1, 1));
    assert!(o.is_down());
    assert!(!o.is_right());
    assert_eq!(Offset::zero().unit(), Offset::zero());
    assert!(Offset::zero().is_zero());
}

#[test]
fn offset_arithmetic() {
    let a = Offset::new(2, -3);
    let b = Offset::new(5, 7);
    assert_eq!(a.add(b), Offset::new(7, 4));
    assert_eq!(a.sub(b), Offset::new(-3, -10));
    assert_eq!(a.mul(3), Offset::new(6, -9));
}

#[test]
fn square_offsets() {
    let offs = get_offsets_for_square(&Offset::new(10, 10), 4);
    assert_eq!(offs.len(), 16);
    assert_eq!(offs[0], Offset::new(8, 8));
    assert_eq!(offs[1], Offset::new(8, 9));
    assert_eq!(offs[4], Offset::new(9, 8));
    assert_eq!(offs[15], Offset::new(11, 11));
    assert!(get_offsets_for_square(&Offset::new(0, 0), 1).is_empty());
}

#[test]
fn test_value_around() {
    let middle = 42;
    let radius = 10;

    let res = get_value_around(middle, radius);

    assert!(res >= (middle - radius) && res <= (middle + radius));
}

#[test]
fn utility_value_around() {
    let middle = 42;
    let radius = 10;

    let res = get_value_around(middle, radius);

    assert!(res >= (middle - radius) && res <= (middle + radius));
}

#[test]
fn value_around_zero_radius() {
    for _ in 0..20 {
        assert_eq!(get_value_around(-5, 0), -5);
    }
}
