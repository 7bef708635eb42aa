use vstd::prelude::*;

use crate::offset::Offset;
use crate::particles::particle::Particle;

verus! {

/// One cell of a neighborhood: inside the grid, with or without a
/// particle, or outside the grid.
#[derive(Clone, Copy, Debug)]
pub enum NeighborCell {
    Inside(Option<Particle>),
    Outside,
}

impl NeighborCell {
    pub fn is_inside(&self) -> (r: bool)
        ensures
            r == (*self is Inside),
    {
        match self {
            NeighborCell::Inside(_) => true,
            NeighborCell::Outside => false,
        }
    }

    pub fn is_outside(&self) -> (r: bool)
        ensures
            r == (*self is Outside),
    {
        match self {
            NeighborCell::Inside(_) => false,
            NeighborCell::Outside => true,
        }
    }

    /// Inside the grid and holding a particle.
    pub fn is_some(&self) -> (r: bool)
        ensures
            r == (*self matches NeighborCell::Inside(Some(_))),
    {
        match self {
            NeighborCell::Inside(Some(_)) => true,
            _ => false,
        }
    }

    /// Inside the grid and empty.
    pub fn is_none(&self) -> (r: bool)
        ensures
            r == (*self matches NeighborCell::Inside(None)),
    {
        match self {
            NeighborCell::Inside(None) => true,
            _ => false,
        }
    }
}

/// Index, in a row-major 3x3 window, of an offset relative to the center.
pub open spec fn rel_index(off: Offset) -> int {
    (1 + off.y) * 3 + (1 + off.x)
}

/// The offset is one of the nine cells of the window.
pub open spec fn in_window(off: Offset) -> bool {
    -1 <= off.x <= 1 && -1 <= off.y <= 1
}

/// The 3x3 cells around a particle, row by row from the top left; the
/// particle's own cell is in the middle (index 4).
#[derive(Clone, Debug)]
pub struct Neighborhood(pub Vec<NeighborCell>);

impl Neighborhood {
    pub open spec fn wf(&self) -> bool {
        self.0@.len() == 9
    }

    pub open spec fn at(&self, off: Offset) -> NeighborCell {
        self.0@[rel_index(off)]
    }

    /// Returns the cell at `offset` relative to the center.
    pub fn on_relative(&self, offset: &Offset) -> (r: &NeighborCell)
        requires
            self.wf(),
            in_window(*offset),
        ensures
            *r == self.at(*offset),
    {
        let i = ((1 + offset.y) * 3 + (1 + offset.x)) as usize;
        &self.0[i]
    }

    pub fn up(&self) -> (r: &NeighborCell)
        requires
            self.wf(),
        ensures
            *r == self.0@[1],
    {
        &self.0[1]
    }

    pub fn down(&self) -> (r: &NeighborCell)
        requires
            self.wf(),
        ensures
            *r == self.0@[7],
    {
        &self.0[7]
    }

    pub fn left(&self) -> (r: &NeighborCell)
        requires
            self.wf(),
        ensures
            *r == self.0@[3],
    {
        &self.0[3]
    }

    pub fn right(&self) -> (r: &NeighborCell)
        requires
            self.wf(),
        ensures
            *r == self.0@[5],
    {
        &self.0[5]
    }

    pub fn up_left(&self) -> (r: &NeighborCell)
        requires
            self.wf(),
        ensures
            *r == self.0@[0],
    {
        &self.0[0]
    }

    pub fn up_right(&self) -> (r: &NeighborCell)
        requires
            self.wf(),
        ensures
            *r == self.0@[2],
    {
        &self.0[2]
    }

    pub fn down_left(&self) -> (r: &NeighborCell)
        requires
            self.wf(),
        ensures
            *r == self.0@[6],
    {
        &self.0[6]
    }

    pub fn down_right(&self) -> (r: &NeighborCell)
        requires
            self.wf(),
        ensures
            *r == self.0@[8],
    {
        &self.0[8]
    }

    pub fn center(&self) -> (r: &NeighborCell)
        requires
            self.wf(),
        ensures
            *r == self.0@[4],
    {
        &self.0[4]
    }

    /// The nine cells, row by row.
    pub fn iter(&self) -> (r: std::slice::Iter<'_, NeighborCell>)
        ensures
            vstd::std_specs::slice::into_iter_elts(r) == self.0@,
    {
        self.0.iter()
    }
}

} // verus!
