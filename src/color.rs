use vstd::prelude::*;

use crate::utility::get_value_around;

verus! {

/// How far each channel of a similar color may drift.
pub const MAX_SIMILIARITY_OFFSET: u8 = 10;

/// An RGBA color.
#[derive(Clone, Copy, Debug, PartialEq, Eq, Structural)]
pub struct Color {
    pub r: u8,
    pub g: u8,
    pub b: u8,
    pub a: u8,
}

/// `v` moved by at most `d`, within the byte range.
pub open spec fn near(v: u8, w: u8, d: int) -> bool {
    v - d <= w <= v + d
}

/// `c` is the opaque color `0xRRGGBB` with each channel moved by at most
/// `MAX_SIMILIARITY_OFFSET`.
pub open spec fn jittered(c: Color, hex: u32) -> bool {
    let base = Color::hex_spec(hex);
    &&& near(base.r, c.r, MAX_SIMILIARITY_OFFSET as int)
    &&& near(base.g, c.g, MAX_SIMILIARITY_OFFSET as int)
    &&& near(base.b, c.b, MAX_SIMILIARITY_OFFSET as int)
    &&& c.a == 255
}

impl Color {
    pub fn rgb(r: u8, g: u8, b: u8) -> (c: Color)
        ensures
            c == (Color { r, g, b, a: 255 }),
    {
        Color { r, g, b, a: 255 }
    }

    pub fn rgba(r: u8, g: u8, b: u8, a: u8) -> (c: Color)
        ensures
            c == (Color { r, g, b, a }),
    {
        Color { r, g, b, a }
    }

    /// The opaque color written `0xRRGGBB`; higher bits are ignored.
    pub open spec fn hex_spec(hex: u32) -> Color {
        Color {
            r: ((hex / 0x10000) % 0x100) as u8,
            g: ((hex / 0x100) % 0x100) as u8,
            b: (hex % 0x100) as u8,
            a: 255,
        }
    }

    pub fn hex(hex: u32) -> (c: Color)
        ensures
            c == Color::hex_spec(hex),
    {
        let r = (hex & 0xFF0000) >> 16;
        let g = (hex & 0x00FF00) >> 8;
        let b = hex & 0x0000FF;
        assert(r == (hex / 0x10000) % 0x100) by (bit_vector)
            requires
                r == (hex & 0xFF0000) >> 16,
        ;
        assert(g == (hex / 0x100) % 0x100) by (bit_vector)
            requires
                g == (hex & 0x00FF00) >> 8,
        ;
        assert(b == hex % 0x100) by (bit_vector)
            requires
                b == hex & 0x0000FF,
        ;
        Color { r: r as u8, g: g as u8, b: b as u8, a: 255 }
    }

    /// A random color whose channels each lie within
    /// `MAX_SIMILIARITY_OFFSET` of this one; alpha is kept.
    pub fn similiar(&self) -> (c: Color)
        ensures
            near(self.r, c.r, MAX_SIMILIARITY_OFFSET as int),
            near(self.g, c.g, MAX_SIMILIARITY_OFFSET as int),
            near(self.b, c.b, MAX_SIMILIARITY_OFFSET as int),
            c.a == self.a,
    {
        Color {
            r: jitter(self.r),
            g: jitter(self.g),
            b: jitter(self.b),
            a: self.a,
        }
    }
}

/// `x` clamped to the byte range.
pub open spec fn clamp_byte(x: int) -> int {
    if x < 0 {
        0
    } else if x > 255 {
        255
    } else {
        x
    }
}

/// A channel moved by `delta`, clamped to the byte range.
pub fn shifted(v: u8, delta: i64) -> (w: u8)
    requires
        -0x1000 <= delta <= 0x1000,
    ensures
        w == clamp_byte(v + delta),
{
    let x = v as i64 + delta;
    if x < 0 {
        0
    } else if x > 255 {
        255
    } else {
        x as u8
    }
}

/// One channel moved at random by at most `MAX_SIMILIARITY_OFFSET`,
/// clamped to the byte range.
fn jitter(v: u8) -> (w: u8)
    ensures
        near(v, w, MAX_SIMILIARITY_OFFSET as int),
{
    let m = MAX_SIMILIARITY_OFFSET as i64;
    let delta = get_value_around(0, m);
    shifted(v, delta)
}

} // verus!
