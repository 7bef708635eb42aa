use vstd::prelude::*;

use crate::particles::constants::CELL_DEFAULT_PRESSURE;
use crate::particles::Particle;

verus! {

/// One cell of the grid: at most one particle, and the liquid pressure
/// computed for it this tick.
#[derive(Clone, Copy, Debug)]
pub struct Cell {
    particle: Option<Particle>,
    pressure: i32,
}

impl Cell {
    pub closed spec fn content(&self) -> Option<Particle> {
        self.particle
    }

    pub closed spec fn pressure_spec(&self) -> i32 {
        self.pressure
    }

    pub fn empty() -> (r: Cell)
        ensures
            r.content() is None,
            r.pressure_spec() == CELL_DEFAULT_PRESSURE,
    {
        Cell { particle: None, pressure: CELL_DEFAULT_PRESSURE }
    }

    pub fn default_pressure() -> (r: i32)
        ensures
            r == CELL_DEFAULT_PRESSURE,
    {
        CELL_DEFAULT_PRESSURE
    }

    pub fn is_empty(&self) -> (r: bool)
        ensures
            r == (self.content() is None),
    {
        self.particle.is_none()
    }

    pub fn get_particle(&self) -> (r: &Option<Particle>)
        ensures
            *r == self.content(),
    {
        &self.particle
    }

    pub fn set_particle(&mut self, new_particle: Particle)
        ensures
            final(self).content() == Some(new_particle),
            final(self).pressure_spec() == old(self).pressure_spec(),
    {
        self.particle = Some(new_particle)
    }

    pub fn set_particle_option(&mut self, new_particle_option: Option<Particle>)
        ensures
            final(self).content() == new_particle_option,
            final(self).pressure_spec() == old(self).pressure_spec(),
    {
        self.particle = new_particle_option
    }

    pub fn remove_particle(&mut self)
        ensures
            final(self).content() is None,
            final(self).pressure_spec() == old(self).pressure_spec(),
    {
        self.particle = None
    }

    pub fn get_pressure(&self) -> (r: i32)
        ensures
            r == self.pressure_spec(),
    {
        self.pressure
    }

    pub fn set_pressure(&mut self, new_pressure: i32)
        ensures
            final(self).pressure_spec() == new_pressure,
            final(self).content() == old(self).content(),
    {
        self.pressure = new_pressure
    }
}

} // verus!
