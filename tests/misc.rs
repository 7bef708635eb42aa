use particle_simulation::area::Area;
use particle_simulation::color::shifted;
use particle_simulation::frame::{Frame, FrameError};
use particle_simulation::sprite::pack_rgb;
use particle_simulation::{Color, Offset, Sprite};

#[test]
fn color_constructors() {
    assert_eq!(Color::hex(0x123456), Color::rgba(0x12, 0x34, 0x56, 255));
    assert_eq!(Color::hex(0xFF00FF10), Color::rgb(0x00, 0xFF, 0x10));
    assert_eq!(Color::rgb(1, 2, 3).a, 255);
}

#[test]
fn similar_color_stays_close() {
    let base = Color::rgba(5, 250, 128, 7);
    let mut differs = false;
    for _ in 0..50 {
        let c = base.similiar();
        assert!((c.r as i32 - 5).abs() <= 10);
        assert!((c.g as i32 - 250).abs() <= 10);
        assert!((c.b as i32 - 128).abs() <= 10);
        assert_eq!(c.a, 7);
        differs |= c != base;
    }
    assert!(differs);
}

#[test]
fn frame_draws_scaled_squares() {
    let mut f = Frame::new_with_scale(3, 2, 2);
    assert_eq!(f.width(), 6);
    assert_eq!(f.height(), 4);
    assert_eq!(f.buffer.len(), 24);
    assert_eq!(f.draw_pixel(1, 1, 7), Ok(()));
    for i in 0..24 {
        let (r, c) = (i / 6, i % 6);
        let inside = (2..4).contains(&r) && (2..4).contains(&c);
        assert_eq!(f.buffer[i], if inside { 7 } else { 0 });
    }
    assert_eq!(f.draw_pixel(3, 0, 9), Err(FrameError::OutOfBounds));
    assert_eq!(f.draw_pixel(0, 2, 9), Err(FrameError::OutOfBounds));
    assert_eq!(f.real_pos_to_logical(5, 3), (2, 1));
    let g = Frame::new(4, 5);
    assert_eq!(g.width(), 4);
    assert_eq!(g.buffer.len(), 20);
}

#[test]
fn sprite_colors() {
    let s = Sprite { pixels: vec![0xFF0070BA, 0xFFFFFFFF, 0xFF0070BA], width: 3, height: 1 };
    let colors = s.get_unique_colors();
    assert_eq!(colors.len(), 2);
    assert!(colors.contains(&0xFF0070BA));
    assert!(colors.contains(&0xFFFFFFFF));
    assert_eq!(pack_rgb(0x00, 0x70, 0xBA), 0xFF0070BA);
}

#[test]
fn area_depth_and_edges() {
    let mut a = Area::new();
    for o in [Offset::new(1, 2), Offset::new(1, 3), Offset::new(2, 3), Offset::new(2, 4)] {
        a.add(o);
    }
    assert_eq!(a.depth(&Offset::new(2, 4)), 2);
    assert_eq!(a.iter().len(), 4);
    let top = a.get_heighest_offsets();
    assert_eq!(top, vec![Offset::new(1, 2)]);
    let mut edges = a.get_top_edge_offsets();
    edges.sort_by_key(|o| (o.x, o.y));
    assert_eq!(edges, vec![Offset::new(1, 2), Offset::new(2, 3)]);
    assert!(Area::are_neighbors(&Offset::new(1, 2), &Offset::new(1, 3)));
    assert!(!Area::are_neighbors(&Offset::new(1, 2), &Offset::new(2, 3)));
    assert!(!Area::are_neighbors(&Offset::new(1, 2), &Offset::new(1, 2)));
}

#[test]
fn shifted_channels_clamp() {
    assert_eq!(shifted(100, 7), 107);
    assert_eq!(shifted(250, 10), 255);
    assert_eq!(shifted(5, -10), 0);
    assert_eq!(shifted(0, 0), 0);
}
