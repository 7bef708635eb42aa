use vstd::prelude::*;

use crate::particles::neighborhood::{NeighborCell, Neighborhood};
use crate::particles::particle::Particle;
use crate::utility::random_bool;

verus! {

/// How a particle reacts to fire.
#[derive(Clone, Copy, Debug, PartialEq, Eq, Structural)]
pub enum Burnability {
    /// On fire, with the number of ticks it still burns.
    IsBurning(u8),
    /// Catches fire next to burning particles.
    CanBurn,
    /// Does not burn, and puts out burning particles around it.
    AntiBurn,
    /// Does not react to fire.
    Inert,
}

/// What a combustion check did to a particle.
#[derive(Clone, Copy, Debug, PartialEq, Eq, Structural)]
pub enum PropertyCheckResult {
    /// Its burnability changed.
    Updated,
    /// It burned away.
    Destroyed,
    /// Nothing happened.
    Unchanged,
}

pub open spec fn is_burning_cell(c: NeighborCell) -> bool {
    c matches NeighborCell::Inside(Some(p)) && p.burnability_spec() is IsBurning
}

pub open spec fn is_antiburn_cell(c: NeighborCell) -> bool {
    c matches NeighborCell::Inside(Some(p)) && p.burnability_spec() is AntiBurn
}

/// Number of burning particles among the cells.
pub open spec fn count_burning(s: Seq<NeighborCell>) -> int
    decreases s.len(),
{
    if s.len() == 0 {
        0
    } else {
        count_burning(s.drop_last()) + if is_burning_cell(s.last()) {
            1int
        } else {
            0int
        }
    }
}

/// Number of fire-suppressing particles among the cells.
pub open spec fn count_antiburn(s: Seq<NeighborCell>) -> int
    decreases s.len(),
{
    if s.len() == 0 {
        0
    } else {
        count_antiburn(s.drop_last()) + if is_antiburn_cell(s.last()) {
            1int
        } else {
            0int
        }
    }
}

/// One tick of combustion for a particle whose burnability is `b`, in the
/// window `n`: a particle that has burned out is destroyed, a burning one
/// burns down by one tick (and is put out when `check_antiburn` holds and
/// suppressors outnumber burning particles), and one that can burn catches
/// fire for `burn_time` ticks when burning particles outnumber the
/// suppressors (or are present at all, without `check_antiburn`) and the
/// coin `ignite` allows it.
pub open spec fn burn_step(
    b: Burnability,
    n: Seq<NeighborCell>,
    burn_time: u8,
    check_antiburn: bool,
    ignite: bool,
) -> (Burnability, PropertyCheckResult) {
    if b == Burnability::IsBurning(0) {
        (b, PropertyCheckResult::Destroyed)
    } else {
        let b1 = match b {
            Burnability::IsBurning(t) => Burnability::IsBurning((t - 1) as u8),
            _ => b,
        };
        let upd = b is IsBurning;
        let burning = count_burning(n);
        let anti = count_antiburn(n);
        let kept = if upd {
            PropertyCheckResult::Updated
        } else {
            PropertyCheckResult::Unchanged
        };
        match b1 {
            Burnability::IsBurning(_) => {
                if check_antiburn && anti > burning {
                    (b1, PropertyCheckResult::Destroyed)
                } else {
                    (b1, kept)
                }
            },
            Burnability::CanBurn => {
                let lower = if check_antiburn {
                    anti
                } else {
                    0
                };
                if burning > lower && ignite {
                    (Burnability::IsBurning(burn_time), PropertyCheckResult::Updated)
                } else {
                    (b1, kept)
                }
            },
            _ => (b1, kept),
        }
    }
}

/// Counts the burning and the fire-suppressing particles of a window.
pub fn count_fire(n: &Neighborhood) -> (r: (u32, u32))
    requires
        n.wf(),
    ensures
        r.0 == count_burning(n.0@),
        r.1 == count_antiburn(n.0@),
{
    let mut burning: u32 = 0;
    let mut anti: u32 = 0;
    let mut i: usize = 0;
    while i < 9
        invariant
            n.wf(),
            0 <= i <= 9,
            burning == count_burning(n.0@.take(i as int)),
            anti == count_antiburn(n.0@.take(i as int)),
            burning <= i,
            anti <= i,
        decreases 9 - i,
    {
        proof {
            assert(n.0@.take(i + 1).drop_last() =~= n.0@.take(i as int));
            lemma_counts_bounded(n.0@.take(i as int));
        }
        match &n.0[i] {
            NeighborCell::Inside(Some(p)) => {
                match p.get_burnability() {
                    Burnability::IsBurning(_) => burning = burning + 1,
                    Burnability::AntiBurn => anti = anti + 1,
                    _ => {},
                }
            },
            _ => {},
        }
        i = i + 1;
    }
    proof {
        assert(n.0@.take(9) =~= n.0@);
    }
    (burning, anti)
}

proof fn lemma_counts_bounded(s: Seq<NeighborCell>)
    ensures
        0 <= count_burning(s) <= s.len(),
        0 <= count_antiburn(s) <= s.len(),
    decreases s.len(),
{
    if s.len() > 0 {
        lemma_counts_bounded(s.drop_last());
    }
}

impl Burnability {
    pub open spec fn decreased_by_spec(self, value: u8) -> Burnability {
        match self {
            Burnability::IsBurning(t) => Burnability::IsBurning(
                if t >= value {
                    (t - value) as u8
                } else {
                    0
                },
            ),
            _ => self,
        }
    }

    /// Burns down by `value` ticks, stopping at zero; other states stay.
    pub fn decreased_by(&self, value: u8) -> (r: Burnability)
        ensures
            r == self.decreased_by_spec(value),
    {
        match self {
            Burnability::IsBurning(time) => {
                if *time >= value {
                    Burnability::IsBurning(*time - value)
                } else {
                    Burnability::IsBurning(0)
                }
            },
            _ => *self,
        }
    }

    /// One tick of combustion for burnability `b`, as `burn_step` says, with
    /// the ignition coin given.
    pub fn step(
        b: Burnability,
        n: &Neighborhood,
        burn_time: u8,
        check_antiburn: bool,
        ignite: bool,
    ) -> (r: (Burnability, PropertyCheckResult))
        requires
            n.wf(),
        ensures
            r == burn_step(b, n.0@, burn_time, check_antiburn, ignite),
    {
        if b == Burnability::IsBurning(0) {
            return (b, PropertyCheckResult::Destroyed);
        }
        let mut updated = false;
        let mut b1 = b;
        if let Burnability::IsBurning(t) = b {
            b1 = Burnability::IsBurning(t - 1);
            updated = true;
        }
        let (burning, anti) = count_fire(n);
        let kept = if updated {
            PropertyCheckResult::Updated
        } else {
            PropertyCheckResult::Unchanged
        };
        match b1 {
            Burnability::IsBurning(_) => {
                if check_antiburn && anti > burning {
                    (b1, PropertyCheckResult::Destroyed)
                } else {
                    (b1, kept)
                }
            },
            Burnability::CanBurn => {
                let lower = if check_antiburn {
                    anti
                } else {
                    0
                };
                if burning > lower && ignite {
                    (Burnability::IsBurning(burn_time), PropertyCheckResult::Updated)
                } else {
                    (b1, kept)
                }
            },
            _ => (b1, kept),
        }
    }

    /// Checks the burnability of `particle` against its window and updates
    /// it; ignition is decided by a coin flip.
    pub fn check(
        particle: &mut Particle,
        neigborhood: &Neighborhood,
        default_burn_time: u8,
        check_antiburn: bool,
    ) -> (r: PropertyCheckResult)
        requires
            neigborhood.wf(),
        ensures
            exists|ignite: bool|
                {
                    let s = #[trigger] burn_step(
                        old(particle).burnability_spec(),
                        neigborhood.0@,
                        default_burn_time,
                        check_antiburn,
                        ignite,
                    );
                    &&& r == s.1
                    &&& *final(particle) == old(particle).with_burnability(s.0)
                },
    {
        let ignite = random_bool();
        let (b, r) = Burnability::step(
            particle.get_burnability(),
            neigborhood,
            default_burn_time,
            check_antiburn,
            ignite,
        );
        particle.set_burnability(b);
        r
    }
}

} // verus!
