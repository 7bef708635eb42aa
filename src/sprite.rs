use std::collections::HashSet;
use vstd::prelude::*;

verus! {

/// An image as packed `0xAARRGGBB` pixels, row by row.
pub struct Sprite {
    pub pixels: Vec<u32>,
    pub width: u32,
    pub height: u32,
}

/// The opaque color `(r, g, b)` packed as `0xFFRRGGBB`.
pub fn pack_rgb(r: u8, g: u8, b: u8) -> (c: u32)
    ensures
        c == 0xFF00_0000 + r * 0x1_0000 + g * 0x100 + b,
{
    let mut color: u32 = 0xFF00_0000;
    color = color + (r as u32) * 0x1_0000;
    color = color + (g as u32) * 0x100;
    color = color + b as u32;
    color
}

impl Sprite {
    /// The distinct colors of the sprite.
    pub fn get_unique_colors(&self) -> (r: HashSet<u32>)
        ensures
            r@ == self.pixels@.to_set(),
    {
        let mut colors: HashSet<u32> = HashSet::new();
        let mut i: usize = 0;
        while i < self.pixels.len()
            invariant
                i <= self.pixels@.len(),
                colors@ == self.pixels@.take(i as int).to_set(),
            decreases self.pixels.len() - i,
        {
            colors.insert(self.pixels[i]);
            proof {
                assert(self.pixels@.take(i + 1) =~= self.pixels@.take(i as int).push(self.pixels@[i as int]));
                self.pixels@.take(i as int).lemma_push_to_set_commute(self.pixels@[i as int]);
            }
            i = i + 1;
        }
        proof {
            assert(self.pixels@.take(i as int) =~= self.pixels@);
        }
        colors
    }
}

} // verus!
