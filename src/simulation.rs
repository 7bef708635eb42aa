use rayon::iter::{IntoParallelIterator, IntoParallelRefIterator, ParallelIterator};
use rustc_hash::FxHashMap;
use vstd::prelude::*;

use crate::area::Area;
use crate::cell::Cell;
pub use crate::grid::MAX_SIDE;
use crate::grid::{
    all_empty, ind, in_pairs, index_of, index_to_offset, is_within, lemma_index, lemma_occupied_bounds,
    lemma_occupied_update, lemma_offset, lemma_permuted_empty, lemma_swap_all_untouched,
    lemma_swap_keeps, occupied, offset_of, offset_to_index, swap_all, swapped, within,
};
use crate::offset::{line, Offset};
use crate::particles::constants::{CELL_PRESSURE_DIFF, DEFAULT_VELOCITY};
use crate::particles::rules::realizes;
use crate::particles::{
    Dice, MatterType, NeighborCell, Neighborhood, Particle, ParticleChange, Transition,
};
use crate::region::{
    adjacent, closed, connected, depth_in_region, is_liquid, lemma_adjacent_neighbor,
    lemma_connected_closed, lemma_connected_liquid, lemma_connected_self, lemma_connected_step,
    lemma_connected_sym, lemma_connected_trans, lemma_neighbor_adjacent, lemma_unmarked_mark,
    lemma_unmarked_nonneg, liquid_path, neighbor_done, neighbor_spec, row_of, unmarked,
};
use crate::sprite::Sprite;
use crate::utility::random_index;

verus! {

/// Counters kept by the simulation.
#[derive(Clone, Copy, Debug)]
pub struct SimInfo {
    /// Particles on the grid.
    pub particle_count: u32,
    /// Moves and switches made in the last tick.
    pub moves_made_last_frame: u32,
    /// Particles that disappeared in the last tick's local updates.
    pub destroyed_last_frame: u32,
}

impl SimInfo {
    pub fn new() -> (r: SimInfo)
        ensures
            r.particle_count == 0,
            r.moves_made_last_frame == 0,
            r.destroyed_last_frame == 0,
    {
        SimInfo { particle_count: 0, moves_made_last_frame: 0, destroyed_last_frame: 0 }
    }
}

/// A request to move a particle, by the index of the cell it starts from.
#[derive(Clone, Copy, Debug, PartialEq, Eq, Structural)]
pub enum SimMove {
    /// Into an empty cell.
    Move(usize),
    /// Trading places with the particle in the destination.
    Switch(usize),
}

impl SimMove {
    pub open spec fn from_spec(self) -> usize {
        match self {
            SimMove::Move(f) => f,
            SimMove::Switch(f) => f,
        }
    }
}

/// The grid, its moves under way, and its counters.
pub struct Simulation {
    width: usize,
    height: usize,
    cells: Vec<Cell>,
    /// Destination index -> the moves that want to end there.
    moves: FxHashMap<usize, Vec<SimMove>>,
    sim_info: SimInfo,
}

impl Simulation {
    pub closed spec fn w(&self) -> int {
        self.width as int
    }

    pub closed spec fn h(&self) -> int {
        self.height as int
    }

    /// What each cell holds, row by row.
    pub closed spec fn grid(&self) -> Seq<Option<Particle>> {
        Seq::new(self.cells@.len(), |i: int| self.cells@[i].content())
    }

    /// The pressure of each cell, row by row.
    pub closed spec fn pressures(&self) -> Seq<i32> {
        Seq::new(self.cells@.len(), |i: int| self.cells@[i].pressure_spec())
    }

    /// The cells, row by row.
    pub closed spec fn cells_view(&self) -> Seq<Cell> {
        self.cells@
    }

    pub closed spec fn info_spec(&self) -> SimInfo {
        self.sim_info
    }

    /// Pending moves stay on the grid.
    closed spec fn moves_ok(&self) -> bool {
        forall|k: usize| #[trigger]
            self.moves@.contains_key(k) ==> k < self.cells@.len() && forall|j: int|
                0 <= j < self.moves@[k]@.len() ==> #[trigger] self.moves@[k]@[j].from_spec()
                    < self.cells@.len()
    }

    /// Every pending move is the one its origin's particle asks for.
    pub closed spec fn moves_sound(&self) -> bool {
        forall|d: usize, j: int|
            #![trigger self.moves@[d]@[j]]
            self.moves@.contains_key(d) && 0 <= j < self.moves@[d]@.len() ==> self.candidate(
                self.moves@[d]@[j].from_spec() as int,
            ) == Some((d, self.moves@[d]@[j]))
    }

    /// Every move a particle asks for is pending.
    pub closed spec fn moves_complete(&self) -> bool {
        forall|i: int|
            0 <= i < self.grid().len() && (#[trigger] self.candidate(i)) is Some ==> listed(
                self.moves@,
                self.candidate(i)->Some_0.0,
                self.candidate(i)->Some_0.1,
            )
    }

    /// The grid's size fits its limits, every particle is well formed, and
    /// the particle counter is exact.
    pub closed spec fn wf(&self) -> bool {
        &&& self.width <= MAX_SIDE
        &&& self.height <= MAX_SIDE
        &&& self.width * self.height <= u32::MAX
        &&& self.cells@.len() == self.width * self.height
        &&& forall|i: int| 0 <= i < self.cells@.len() ==> (#[trigger] self.cells@[i].content() matches Some(p) ==> p.wf())
        &&& self.sim_info.particle_count == occupied(self.grid())
        &&& self.moves_ok()
    }

    pub open spec fn index(&self, o: Offset) -> int {
        index_of(self.w(), o)
    }

    pub open spec fn inside(&self, o: Offset) -> bool {
        within(self.w(), self.h(), o)
    }

    /// A grid of `width` x `height` empty cells.
    pub fn new(width: usize, height: usize) -> (r: Simulation)
        requires
            width <= MAX_SIDE,
            height <= MAX_SIDE,
            width * height <= u32::MAX,
        ensures
            r.wf(),
            r.w() == width,
            r.h() == height,
            r.grid() == Seq::new((width * height) as nat, |i: int| None::<Particle>),
            r.pressures() == Seq::new((width * height) as nat, |i: int| 0i32),
            r.info_spec().particle_count == 0,
            r.info_spec().moves_made_last_frame == 0,
            r.info_spec().destroyed_last_frame == 0,
    {
        let n = width * height;
        let mut cells: Vec<Cell> = Vec::new();
        let mut i: usize = 0;
        while i < n
            invariant
                i <= n,
                cells@.len() == i,
                forall|k: int| 0 <= k < i ==> (#[trigger] cells@[k]).content() is None && cells@[k].pressure_spec() == 0,
            decreases n - i,
        {
            cells.push(Cell::empty());
            i = i + 1;
        }
        let r = Simulation { width, height, cells, moves: FxHashMap::default(), sim_info: SimInfo::new() };
        proof {
            assert(r.grid() =~= Seq::new((width * height) as nat, |i: int| None::<Particle>));
            assert(r.pressures() =~= Seq::new((width * height) as nat, |i: int| 0i32));
            lemma_occupied_bounds(r.grid());
        }
        r
    }

    /// A well-formed simulation has `w() * h()` cells, one pressure per cell,
    /// and counts exactly its occupied cells.
    pub proof fn lemma_shape(&self)
        requires
            self.wf(),
        ensures
            0 <= self.w() <= MAX_SIDE,
            0 <= self.h() <= MAX_SIDE,
            self.grid().len() == self.w() * self.h(),
            self.pressures().len() == self.grid().len(),
            self.info_spec().particle_count == occupied(self.grid()),
    {
    }

    pub fn width(&self) -> (r: usize)
        ensures
            r == self.w(),
    {
        self.width
    }

    pub fn height(&self) -> (r: usize)
        ensures
            r == self.h(),
    {
        self.height
    }

    pub fn info(&self) -> (r: &SimInfo)
        ensures
            *r == self.info_spec(),
    {
        &self.sim_info
    }

    /// The cells, row by row.
    pub fn cells_iter(&self) -> (r: std::slice::Iter<'_, Cell>)
        ensures
            vstd::std_specs::slice::into_iter_elts(r) == self.cells_view(),
            self.cells_view().len() == self.grid().len(),
            forall|i: int|
                0 <= i < self.grid().len() ==> (#[trigger] self.cells_view()[i]).content()
                    == self.grid()[i] && self.cells_view()[i].pressure_spec() == self.pressures()[i],
    {
        self.cells.iter()
    }

    fn in_grid(&self, offset: &Offset) -> (r: bool)
        requires
            self.wf(),
        ensures
            r == self.inside(*offset),
    {
        is_within(self.width, self.height, offset)
    }

    fn index_at(&self, offset: &Offset) -> (r: usize)
        requires
            self.wf(),
            self.inside(*offset),
        ensures
            r == self.index(*offset),
            r < self.grid().len(),
    {
        offset_to_index(self.width, self.height, offset)
    }

    fn offset_at(&self, index: usize) -> (r: Offset)
        requires
            self.wf(),
            index < self.grid().len(),
        ensures
            r == offset_of(self.w(), index as int),
            self.inside(r),
            self.index(r) == index,
    {
        index_to_offset(self.width, self.height, index)
    }

    /// The cell at a position, if it lies on the grid.
    fn get_cell(&self, offset: &Offset) -> (r: Option<&Cell>)
        requires
            self.wf(),
        ensures
            match r {
                Some(c) => self.inside(*offset) && c.content() == self.grid()[self.index(*offset)]
                    && c.pressure_spec() == self.pressures()[self.index(*offset)],
                None => !self.inside(*offset),
            },
    {
        if !self.in_grid(offset) {
            return None;
        }
        Some(&self.cells[self.index_at(offset)])
    }

    /// The particle at a position; nothing outside the grid.
    pub fn get_particle(&self, offset: &Offset) -> (r: Option<Particle>)
        requires
            self.wf(),
        ensures
            r == (if self.inside(*offset) {
                self.grid()[self.index(*offset)]
            } else {
                None
            }),
    {
        match self.get_cell(offset) {
            Some(c) => *c.get_particle(),
            None => None,
        }
    }

    /// Puts `p` into cell `i` (or empties it) and keeps the counter exact.
    fn put(&mut self, i: usize, p: Option<Particle>)
        requires
            old(self).wf(),
            i < old(self).grid().len(),
            p matches Some(q) ==> q.wf(),
        ensures
            final(self).wf(),
            final(self).grid() == old(self).grid().update(i as int, p),
            final(self).pressures() == old(self).pressures(),
            final(self).moves@ == old(self).moves@,
            final(self).info_spec().particle_count == old(self).info_spec().particle_count - ind(
                old(self).grid()[i as int],
            ) + ind(p),
            final(self).w() == old(self).w(),
            final(self).h() == old(self).h(),
            final(self).info_spec().moves_made_last_frame == old(self).info_spec().moves_made_last_frame,
            final(self).info_spec().destroyed_last_frame == old(self).info_spec().destroyed_last_frame,
    {
        let ghost g = self.grid();
        proof {
            lemma_occupied_update(g, i as int, p);
            lemma_occupied_bounds(g.update(i as int, p));
        }
        let was = self.cells[i].is_empty();
        let mut c = self.cells[i];
        c.set_particle_option(p);
        self.cells.set(i, c);
        match p {
            Some(_) => if was {
                self.sim_info.particle_count = self.sim_info.particle_count + 1;
            },
            None => if !was {
                self.sim_info.particle_count = self.sim_info.particle_count - 1;
            },
        }
        proof {
            assert(self.grid() =~= g.update(i as int, p));
            assert(self.pressures() =~= old(self).pressures());
        }
    }

    /// Adds a particle to an empty cell on the grid; false, and nothing
    /// done, otherwise.
    pub fn add_particle(&mut self, offset: &Offset, particle: Particle) -> (r: bool)
        requires
            old(self).wf(),
            particle.wf(),
        ensures
            final(self).wf(),
            r == (old(self).inside(*offset) && old(self).grid()[old(self).index(*offset)] is None),
            final(self).grid() == (if r {
                old(self).grid().update(old(self).index(*offset), Some(particle))
            } else {
                old(self).grid()
            }),
            final(self).info_spec().particle_count == old(self).info_spec().particle_count + if r {
                1int
            } else {
                0int
            },
            r ==> 0 <= old(self).index(*offset) < final(self).grid().len() && final(self).grid()[old(
                self,
            ).index(*offset)] == Some(particle),
            final(self).pressures() == old(self).pressures(),
            final(self).w() == old(self).w(),
            final(self).h() == old(self).h(),
    {
        if !self.in_grid(offset) {
            return false;
        }
        let index = self.index_at(offset);
        if self.cells[index].is_empty() {
            self.put(index, Some(particle));
            return true;
        }
        false
    }

    /// Empties an occupied cell on the grid; false, and nothing done,
    /// otherwise.
    pub fn remove_particle(&mut self, offset: &Offset) -> (r: bool)
        requires
            old(self).wf(),
        ensures
            final(self).wf(),
            r == (old(self).inside(*offset) && old(self).grid()[old(self).index(*offset)] is Some),
            final(self).grid() == (if r {
                old(self).grid().update(old(self).index(*offset), None)
            } else {
                old(self).grid()
            }),
            final(self).info_spec().particle_count == old(self).info_spec().particle_count - if r {
                1int
            } else {
                0int
            },
            r ==> 0 <= old(self).index(*offset) < final(self).grid().len() && final(self).grid()[old(
                self,
            ).index(*offset)] is None,
            final(self).pressures() == old(self).pressures(),
            final(self).w() == old(self).w(),
            final(self).h() == old(self).h(),
    {
        if !self.in_grid(offset) {
            return false;
        }
        let index = self.index_at(offset);
        if self.cells[index].is_empty() {
            return false;
        }
        self.put(index, None);
        true
    }

    /// Puts a particle into a cell on the grid, replacing what is there;
    /// nothing is done outside the grid.
    pub fn change_particle(&mut self, offset: &Offset, new_particle: Particle)
        requires
            old(self).wf(),
            new_particle.wf(),
        ensures
            final(self).wf(),
            final(self).grid() == (if old(self).inside(*offset) {
                old(self).grid().update(old(self).index(*offset), Some(new_particle))
            } else {
                old(self).grid()
            }),
            final(self).info_spec().particle_count == old(self).info_spec().particle_count + if old(
                self,
            ).inside(*offset) && old(self).grid()[old(self).index(*offset)] is None {
                1int
            } else {
                0int
            },
            final(self).pressures() == old(self).pressures(),
            final(self).w() == old(self).w(),
            final(self).h() == old(self).h(),
    {
        if !self.in_grid(offset) {
            return;
        }
        let index = self.index_at(offset);
        self.put(index, Some(new_particle));
    }
}


/// Relies on `rayon::current_num_threads`; nothing is known of the number.
#[verifier::external_body]
fn worker_count() -> usize {
    rayon::current_num_threads()
}

/// Relies on `HashMap::remove` (with rustc-hash's deterministic hasher):
/// the key's value is taken out, if there was one.
#[verifier::external_body]
fn take_moves(m: &mut FxHashMap<usize, Vec<SimMove>>, to: usize) -> (r: Option<Vec<SimMove>>)
    ensures
        final(m)@ == old(m)@.remove(to),
        r == (if old(m)@.contains_key(to) {
            Some(old(m)@[to])
        } else {
            None
        }),
{
    m.remove(&to)
}

/// Relies on `HashMap::insert` (with rustc-hash's deterministic hasher): the
/// key now maps to the value.
#[verifier::external_body]
fn put_moves(m: &mut FxHashMap<usize, Vec<SimMove>>, to: usize, v: Vec<SimMove>)
    ensures
        final(m)@ == old(m)@.insert(to, v),
{
    m.insert(to, v);
}

/// Appends a move to the list of its destination, which starts empty.
fn push_move(m: &mut FxHashMap<usize, Vec<SimMove>>, to: usize, mv: SimMove)
    ensures
        final(m)@.dom() == old(m)@.dom().insert(to),
        forall|k: usize| k != to && #[trigger] old(m)@.contains_key(k) ==> final(m)@[k] == old(m)@[k],
        final(m)@[to]@ == (if old(m)@.contains_key(to) {
            old(m)@[to]@
        } else {
            Seq::empty()
        }).push(mv),
{
    let mut list = match take_moves(m, to) {
        Some(v) => v,
        None => Vec::new(),
    };
    list.push(mv);
    put_moves(m, to, list);
    proof {
        assert(m@.dom() =~= old(m)@.dom().insert(to));
    }
}

/// Relies on `HashMap::keys`: each key once, in some order.
#[verifier::external_body]
fn move_keys(m: &FxHashMap<usize, Vec<SimMove>>) -> (r: Vec<usize>)
    ensures
        r@.to_set() == m@.dom(),
        r@.no_duplicates(),
{
    m.keys().copied().collect()
}

/// Relies on indexing a `HashMap` by a key it holds.
#[verifier::external_body]
fn moves_at(m: &FxHashMap<usize, Vec<SimMove>>, k: usize) -> (r: &Vec<SimMove>)
    requires
        m@.contains_key(k),
    ensures
        *r == m@[k],
{
    &m[&k]
}

/// Relies on rayon's indexed `par_iter().map(..).collect()`: one result per
/// range, in the ranges' order, each what `find_moves_in_range` returns.
#[verifier::external_body]
fn find_moves_parallel(sim: &Simulation, ranges: &Vec<(usize, usize)>) -> (r: Vec<
    Vec<(usize, SimMove)>,
>)
    requires
        sim.wf(),
        forall|i: int| 0 <= i < ranges@.len() ==> #[trigger] ranges@[i].0 <= ranges@[i].1 <= sim.grid().len(),
    ensures
        r@.len() == ranges@.len(),
        forall|i: int|
            0 <= i < ranges@.len() ==> (#[trigger] r@[i])@ == sim.candidates(
                ranges@[i].0 as int,
                ranges@[i].1 as int,
            ),
        forall|i: int, k: int|
            0 <= i < ranges@.len() && 0 <= k < r@[i]@.len() ==> (#[trigger] r@[i]@[k]).0
                < sim.grid().len() && r@[i]@[k].1.from_spec() < sim.grid().len() && sim.candidate(
                r@[i]@[k].1.from_spec() as int,
            ) == Some(r@[i]@[k]),
{
    ranges.par_iter().map(|&(start, end)| sim.find_moves_in_range(start, end)).collect()
}

/// `p` may enter the cell at `o` of grid `g` (`w` x `h`): it lies on the
/// grid and is empty or held by a particle `p` can push through.
pub open spec fn passable_in(g: Seq<Option<Particle>>, w: int, h: int, p: Particle, o: Offset) -> bool {
    &&& within(w, h, o)
    &&& match g[index_of(w, o)] {
        None => true,
        Some(q) => p.can_switch_with_spec(q),
    }
}

/// Walking `path` from its step `k`, the last step reached before a
/// blocked cell.
pub open spec fn reach_from_in(
    g: Seq<Option<Particle>>,
    w: int,
    h: int,
    p: Particle,
    path: Seq<Offset>,
    k: int,
) -> int
    decreases path.len() - k,
{
    if 0 <= k && k + 1 < path.len() && passable_in(g, w, h, p, path[k + 1]) {
        reach_from_in(g, w, h, p, path, k + 1)
    } else {
        k
    }
}

/// Where `p`, starting at `start` and wanting to travel `m`, gets to: the
/// farthest cell of the straight line before anything blocks it.
pub open spec fn reach_in(
    g: Seq<Option<Particle>>,
    w: int,
    h: int,
    p: Particle,
    start: Offset,
    m: Offset,
) -> Offset {
    let path = line(start, start.plus(m));
    if path.len() == 0 {
        start
    } else {
        path[reach_from_in(g, w, h, p, path, 0)]
    }
}

/// The move the particle in cell `i` asks for, with its destination: a
/// `Move` into an empty cell or a `Switch` with an occupant (a blocked
/// particle asks to switch with itself, which competes for its own cell and
/// changes nothing); none when it is immovable or does not want to move.
pub open spec fn candidate_in(g: Seq<Option<Particle>>, w: int, h: int, i: int) -> Option<(usize, SimMove)> {
    match g[i] {
        Some(p) => if p.is_moveable_spec() && !p.movement_spec().is_zero_spec() {
            let start = offset_of(w, i);
            let t = reach_in(g, w, h, p, start, p.movement_spec());
            let d = index_of(w, t);
            Some(
                (
                    d as usize,
                    if g[d] is None {
                        SimMove::Move(i as usize)
                    } else {
                        SimMove::Switch(i as usize)
                    },
                ),
            )
        } else {
            None
        },
        None => None,
    }
}

/// The moves asked for by the cells `start..end`, in order.
pub open spec fn candidates_in(g: Seq<Option<Particle>>, w: int, h: int, start: int, end: int) -> Seq<(usize, SimMove)>
    decreases end - start,
{
    if end <= start {
        Seq::empty()
    } else {
        let rest = candidates_in(g, w, h, start, end - 1);
        match candidate_in(g, w, h, end - 1) {
            Some(c) => rest.push(c),
            None => rest,
        }
    }
}

/// `mv` is among the pending moves of destination `d`.
pub open spec fn listed(m: Map<usize, Vec<SimMove>>, d: usize, mv: SimMove) -> bool {
    m.contains_key(d) && m[d]@.contains(mv)
}

proof fn lemma_candidates_contain(g: Seq<Option<Particle>>, w: int, h: int, a: int, b: int, i: int)
    requires
        a <= i < b,
        candidate_in(g, w, h, i) is Some,
    ensures
        candidates_in(g, w, h, a, b).contains(candidate_in(g, w, h, i)->Some_0),
    decreases b - a,
{
    let c = candidate_in(g, w, h, i)->Some_0;
    let rest = candidates_in(g, w, h, a, b - 1);
    if i == b - 1 {
        assert(rest.push(c)[rest.len() as int] == c);
    } else {
        lemma_candidates_contain(g, w, h, a, b - 1, i);
        let t = choose|t: int| 0 <= t < rest.len() && rest[t] == c;
        if let Some(x) = candidate_in(g, w, h, b - 1) {
            assert(rest.push(x)[t] == c);
        }
    }
}

impl Simulation {
    /// `p` may enter the cell at `o`.
    pub open spec fn passable(&self, p: Particle, o: Offset) -> bool {
        passable_in(self.grid(), self.w(), self.h(), p, o)
    }

    pub open spec fn reach_from(&self, p: Particle, path: Seq<Offset>, k: int) -> int {
        reach_from_in(self.grid(), self.w(), self.h(), p, path, k)
    }

    pub open spec fn reach(&self, p: Particle, start: Offset, m: Offset) -> Offset {
        reach_in(self.grid(), self.w(), self.h(), p, start, m)
    }

    /// The move the particle in cell `i` asks for.
    pub open spec fn candidate(&self, i: int) -> Option<(usize, SimMove)> {
        candidate_in(self.grid(), self.w(), self.h(), i)
    }

    /// The moves asked for by the cells `start..end`, in order.
    pub open spec fn candidates(&self, start: int, end: int) -> Seq<(usize, SimMove)> {
        candidates_in(self.grid(), self.w(), self.h(), start, end)
    }

    /// Finds how far `particle`, at `p_offset` and wanting to travel
    /// `max_offset`, can go.
    fn find_max_offset(&self, p_offset: Offset, max_offset: Offset, particle: &Particle) -> (r:
        Offset)
        requires
            self.wf(),
            self.inside(p_offset),
            -5 <= max_offset.x <= 5,
            -5 <= max_offset.y <= 5,
        ensures
            r == self.reach(*particle, p_offset, max_offset),
            self.inside(r),
    {
        let max_pos = p_offset.add(max_offset);
        let path = p_offset.between(&max_pos);
        if path.len() == 0 {
            return p_offset;
        }
        let ghost p = *particle;
        assert(path@[0] == p_offset);
        let mut k: usize = 0;
        while k + 1 < path.len()
            invariant
                self.wf(),
                p == *particle,
                max_pos == p_offset.plus(max_offset),
                path@ == line(p_offset, max_pos),
                path@.len() > 0,
                path@[0] == p_offset,
                self.inside(p_offset),
                k < path@.len(),
                self.reach_from(p, path@, 0) == self.reach_from(p, path@, k as int),
                k == 0 || self.passable(p, path@[k as int]),
            decreases path.len() - k,
        {
            let next = path[k + 1];
            if !self.in_grid(&next) {
                return path[k];
            }
            let index = self.index_at(&next);
            match self.cells[index].get_particle() {
                Some(o) => {
                    if !particle.can_switch_with(o) {
                        return path[k];
                    }
                },
                None => {},
            }
            k = k + 1;
        }
        path[k]
    }

    /// The move the particle in cell `i` asks for.
    fn candidate_at(&self, i: usize) -> (r: Option<(usize, SimMove)>)
        requires
            self.wf(),
            i < self.grid().len(),
        ensures
            r == self.candidate(i as int),
            r matches Some(c) ==> c.0 < self.grid().len() && c.1.from_spec() == i,
    {
        match self.cells[i].get_particle() {
            Some(p) => {
                if !p.is_moveable() {
                    return None;
                }
                let m = p.get_movement();
                if m.is_zero() {
                    return None;
                }
                let start = self.offset_at(i);
                let t = self.find_max_offset(start, m, p);
                let d = self.index_at(&t);
                if self.cells[d].is_empty() {
                    Some((d, SimMove::Move(i)))
                } else {
                    Some((d, SimMove::Switch(i)))
                }
            },
            None => None,
        }
    }

    /// The moves asked for by the cells `start..end`, in order.
    pub fn find_moves_in_range(&self, start: usize, end: usize) -> (r: Vec<(usize, SimMove)>)
        requires
            self.wf(),
            start <= end <= self.grid().len(),
        ensures
            r@ == self.candidates(start as int, end as int),
            forall|k: int|
                0 <= k < r@.len() ==> (#[trigger] r@[k]).0 < self.grid().len()
                    && r@[k].1.from_spec() < self.grid().len() && self.candidate(
                    r@[k].1.from_spec() as int,
                ) == Some(r@[k]),
    {
        let mut moves_list: Vec<(usize, SimMove)> = Vec::new();
        let mut i: usize = start;
        while i < end
            invariant
                self.wf(),
                start <= i <= end <= self.grid().len(),
                moves_list@ == self.candidates(start as int, i as int),
                forall|k: int|
                    0 <= k < moves_list@.len() ==> (#[trigger] moves_list@[k]).0
                        < self.grid().len() && moves_list@[k].1.from_spec() < self.grid().len()
                        && self.candidate(moves_list@[k].1.from_spec() as int) == Some(moves_list@[k]),
            decreases end - i,
        {
            match self.candidate_at(i) {
                Some(c) => moves_list.push(c),
                None => {},
            }
            i = i + 1;
        }
        moves_list
    }

    /// Adds a move to the pending moves of its destination.
    fn add_move(&mut self, to: usize, sim_move: SimMove)
        requires
            old(self).wf(),
            to < old(self).grid().len(),
            sim_move.from_spec() < old(self).grid().len(),
            old(self).moves_sound(),
            old(self).candidate(sim_move.from_spec() as int) == Some((to, sim_move)),
        ensures
            final(self).wf(),
            final(self).moves_sound(),
            listed(final(self).moves@, to, sim_move),
            forall|d: usize, y: SimMove| #[trigger] listed(old(self).moves@, d, y) ==> listed(final(self).moves@, d, y),
            final(self).grid() == old(self).grid(),
            final(self).pressures() == old(self).pressures(),
            final(self).w() == old(self).w(),
            final(self).h() == old(self).h(),
            final(self).info_spec() == old(self).info_spec(),
    {
        push_move(&mut self.moves, to, sim_move);
        proof {
            let l = self.moves@[to]@;
            assert(l[l.len() - 1] == sim_move);
            assert forall|d: usize, y: SimMove| #[trigger] listed(old(self).moves@, d, y) implies listed(self.moves@, d, y) by {
                if d == to {
                    let t = choose|t: int| 0 <= t < old(self).moves@[d]@.len() && old(self).moves@[d]@[t] == y;
                    assert(self.moves@[d]@[t] == y);
                }
            }
        }
        proof {
            assert forall|d: usize, j: int|
                #![trigger self.moves@[d]@[j]]
                self.moves@.contains_key(d) && 0 <= j < self.moves@[d]@.len() implies self.candidate(
                    self.moves@[d]@[j].from_spec() as int,
                ) == Some((d, self.moves@[d]@[j])) by {
                assert(self.grid() =~= old(self).grid());
                if d != to {
                    assert(old(self).moves@.contains_key(d));
                    assert(self.moves@[d]@[j] == old(self).moves@[d]@[j]);
                } else if j < self.moves@[d]@.len() - 1 {
                    assert(old(self).moves@.contains_key(d));
                    assert(self.moves@[d]@[j] == old(self).moves@[d]@[j]);
                }
            }
            assert(self.grid() =~= old(self).grid());
            assert(self.pressures() =~= old(self).pressures());
            assert forall|k: usize| #[trigger] self.moves@.contains_key(k) implies k
                < self.cells@.len() && forall|j: int|
                0 <= j < self.moves@[k]@.len() ==> #[trigger] self.moves@[k]@[j].from_spec()
                    < self.cells@.len() by {
                if k != to {
                    assert(old(self).moves@.contains_key(k));
                } else {
                    assert forall|j: int| 0 <= j < self.moves@[k]@.len() implies #[trigger] self.moves@[k]@[j].from_spec()
                    < self.cells@.len() by {
                        if j < self.moves@[k]@.len() - 1 {
                            assert(old(self).moves@.contains_key(k));
                            assert(self.moves@[k]@[j] == old(self).moves@[k]@[j]);
                        }
                    }
                }
            }
        }
    }

    /// Splits the grid into one run of cells per worker, finds the moves
    /// of each run in parallel, and gathers them by destination: afterwards
    /// the pending moves are exactly the moves the particles ask for.
    fn find_moves_multithreaded(&mut self)
        requires
            old(self).wf(),
        ensures
            final(self).wf(),
            final(self).moves_sound(),
            final(self).moves_complete(),
            final(self).grid() == old(self).grid(),
            final(self).pressures() == old(self).pressures(),
            final(self).w() == old(self).w(),
            final(self).h() == old(self).h(),
            final(self).info_spec() == old(self).info_spec(),
    {
        self.clear_moves();
        let n = self.cells.len();
        if n == 0 {
            return;
        }
        let workers = worker_count();
        let count: usize = if workers == 0 || workers > n {
            1
        } else {
            workers
        };
        let chunk = n / count;
        let mut ranges: Vec<(usize, usize)> = Vec::new();
        let mut start: usize = 0;
        let mut i: usize = 0;
        while i < count
            invariant
                self.wf(),
                n == self.grid().len(),
                1 <= count <= n,
                i <= count,
                start <= n,
                ranges@.len() == i,
                i == 0 ==> start == 0,
                i > 0 ==> start == ranges@[i - 1].1,
                i > 0 ==> ranges@[0].0 == 0,
                i == count ==> start == n,
                forall|k: int| 0 <= k < ranges@.len() ==> #[trigger] ranges@[k].0 <= ranges@[k].1 <= self.grid().len(),
                forall|k: int| 0 < k < ranges@.len() ==> (#[trigger] ranges@[k]).0 == ranges@[k - 1].1,
            decreases count - i,
        {
            let end = if i == count - 1 || n - start < chunk {
                n
            } else {
                start + chunk
            };
            ranges.push((start, end));
            start = end;
            i = i + 1;
        }
        let parts = find_moves_parallel(self, &ranges);
        let ghost g = self.grid();
        let ghost w = self.w();
        let ghost h = self.h();
        let ghost mut cov: int = 0;
        let mut p: usize = 0;
        while p < parts.len()
            invariant
                self.wf(),
                n == self.grid().len(),
                g == self.grid(),
                w == self.w(),
                h == self.h(),
                parts@.len() == ranges@.len(),
                ranges@.len() == count,
                count >= 1,
                ranges@[0].0 == 0,
                ranges@[count - 1].1 == n,
                forall|k: int| 0 <= k < ranges@.len() ==> #[trigger] ranges@[k].0 <= ranges@[k].1 <= n,
                forall|k: int| 0 < k < ranges@.len() ==> (#[trigger] ranges@[k]).0 == ranges@[k - 1].1,
                forall|i: int|
                    0 <= i < parts@.len() ==> (#[trigger] parts@[i])@ == candidates_in(
                        g,
                        w,
                        h,
                        ranges@[i].0 as int,
                        ranges@[i].1 as int,
                    ),
                forall|i: int, k: int|
                    0 <= i < parts@.len() && 0 <= k < parts@[i]@.len() ==> (#[trigger] parts@[i]@[k]).0
                        < n && parts@[i]@[k].1.from_spec() < n && self.candidate(
                        parts@[i]@[k].1.from_spec() as int,
                    ) == Some(parts@[i]@[k]),
                self.moves_sound(),
                p <= parts@.len(),
                p < parts@.len() ==> cov == ranges@[p as int].0,
                p == parts@.len() ==> cov == n,
                forall|i: int|
                    0 <= i < cov && (#[trigger] candidate_in(g, w, h, i)) is Some ==> listed(
                        self.moves@,
                        candidate_in(g, w, h, i)->Some_0.0,
                        candidate_in(g, w, h, i)->Some_0.1,
                    ),
                self.grid() == old(self).grid(),
                self.pressures() == old(self).pressures(),
                self.w() == old(self).w(),
                self.h() == old(self).h(),
                self.info_spec() == old(self).info_spec(),
            decreases parts.len() - p,
        {
            let part = &parts[p];
            let mut k: usize = 0;
            while k < part.len()
                invariant
                    self.wf(),
                    n == self.grid().len(),
                    g == self.grid(),
                    w == self.w(),
                    h == self.h(),
                    p < parts@.len(),
                    *part == parts@[p as int],
                    forall|i: int, k: int|
                        0 <= i < parts@.len() && 0 <= k < parts@[i]@.len() ==> (#[trigger] parts@[i]@[k]).0
                            < n && parts@[i]@[k].1.from_spec() < n && self.candidate(
                            parts@[i]@[k].1.from_spec() as int,
                        ) == Some(parts@[i]@[k]),
                    self.moves_sound(),
                    k <= part@.len(),
                    forall|t: int| 0 <= t < k ==> listed(self.moves@, (#[trigger] part@[t]).0, part@[t].1),
                    forall|i: int|
                        0 <= i < cov && (#[trigger] candidate_in(g, w, h, i)) is Some ==> listed(
                            self.moves@,
                            candidate_in(g, w, h, i)->Some_0.0,
                            candidate_in(g, w, h, i)->Some_0.1,
                        ),
                    self.grid() == old(self).grid(),
                    self.pressures() == old(self).pressures(),
                    self.w() == old(self).w(),
                    self.h() == old(self).h(),
                    self.info_spec() == old(self).info_spec(),
                decreases part.len() - k,
            {
                let (to, mv) = part[k];
                proof {
                    assert(parts@[p as int]@[k as int].0 < n);
                }
                let ghost before = self.moves@;
                self.add_move(to, mv);
                proof {
                    assert forall|t: int| 0 <= t < k + 1 implies listed(self.moves@, (#[trigger] part@[t]).0, part@[t].1) by {
                        if t < k {
                            assert(listed(before, part@[t].0, part@[t].1));
                        }
                    }
                    assert forall|i: int|
                        0 <= i < cov && (#[trigger] candidate_in(g, w, h, i)) is Some implies listed(
                            self.moves@,
                            candidate_in(g, w, h, i)->Some_0.0,
                            candidate_in(g, w, h, i)->Some_0.1,
                        ) by {
                        assert(listed(before, candidate_in(g, w, h, i)->Some_0.0, candidate_in(g, w, h, i)->Some_0.1));
                    }
                }
                k = k + 1;
            }
            proof {
                let lo = ranges@[p as int].0 as int;
                let hi = ranges@[p as int].1 as int;
                assert forall|i: int|
                    0 <= i < hi && (#[trigger] candidate_in(g, w, h, i)) is Some implies listed(
                        self.moves@,
                        candidate_in(g, w, h, i)->Some_0.0,
                        candidate_in(g, w, h, i)->Some_0.1,
                    ) by {
                    if i >= cov {
                        lemma_candidates_contain(g, w, h, lo, hi, i);
                        let c = candidate_in(g, w, h, i)->Some_0;
                        let t = choose|t: int| 0 <= t < part@.len() && part@[t] == c;
                        assert(listed(self.moves@, part@[t].0, part@[t].1));
                    }
                }
                if p + 1 < parts@.len() {
                    assert(ranges@[p + 1].0 == ranges@[p as int].1);
                }
                cov = hi;
            }
            p = p + 1;
        }
    }
}


/// The move ending at `to` can be made now: it leaves its cell, neither
/// cell has been touched this tick, and a `Move` goes from an occupied cell
/// into an empty one while a `Switch` trades places with an occupant the
/// mover can push through.
pub open spec fn applicable(g: Seq<Option<Particle>>, touched: Seq<bool>, to: int, mv: SimMove) -> bool {
    let f = mv.from_spec() as int;
    &&& f != to
    &&& !touched[f]
    &&& !touched[to]
    &&& match mv {
        SimMove::Move(_) => g[f] is Some && g[to] is None,
        SimMove::Switch(_) => g[f] matches Some(a) && g[to] matches Some(b)
            && a.can_switch_with_spec(b),
    }
}

/// Each exchange `(to, from)` is the move that the particle at `from` asks
/// for on grid `g`, and no cell takes part in two exchanges.
pub open spec fn requested(g: Seq<Option<Particle>>, w: int, h: int, pairs: Seq<(int, int)>) -> bool {
    &&& forall|k: int|
        0 <= k < pairs.len() ==> ((#[trigger] candidate_in(g, w, h, pairs[k].1)) matches Some(c)
            && c.0 == pairs[k].0)
    &&& forall|k: int| 0 <= k < pairs.len() ==> (#[trigger] pairs[k]).0 != pairs[k].1
    &&& forall|k: int, l: int|
        0 <= k < l < pairs.len() ==> {
            let a = #[trigger] pairs[k];
            let b = #[trigger] pairs[l];
            a.0 != b.0 && a.0 != b.1 && a.1 != b.0 && a.1 != b.1
        }
}

/// Each exchange into an occupied cell moved a particle denser than the
/// one it displaced, or one faster than the default velocity displacing
/// something not fully solid (on grid `g`, before the exchanges).
pub open spec fn density_ordered(g: Seq<Option<Particle>>, pairs: Seq<(int, int)>) -> bool {
    forall|k: int|
        0 <= k < pairs.len() && (#[trigger] g[pairs[k].0]) is Some ==> {
            let mover = g[pairs[k].1]->Some_0;
            let displaced = g[pairs[k].0]->Some_0;
            &&& g[pairs[k].1] is Some
            &&& mover.density_spec() > displaced.density_spec() || (mover.velocity_spec()
                > DEFAULT_VELOCITY && !displaced.is_solid_spec())
        }
}

/// Some exchange ends at cell `d`.
pub open spec fn dest_of(pairs: Seq<(int, int)>, d: int) -> bool {
    exists|q: int| 0 <= q < pairs.len() && #[trigger] pairs[q].0 == d
}

/// Cell `x` takes part in an exchange that does not end at `d`.
pub open spec fn busy_elsewhere(pairs: Seq<(int, int)>, d: int, x: int) -> bool {
    exists|q: int| 0 <= q < pairs.len() && #[trigger] pairs[q].0 != d && (pairs[q].0 == x || pairs[q].1 == x)
}

/// The move `mv` into `d` could not be made: it is a blocked particle's
/// move onto its own cell, or its origin or `d` took part in an exchange
/// ending elsewhere.
pub open spec fn blocked_move(pairs: Seq<(int, int)>, d: int, mv: SimMove) -> bool {
    mv.from_spec() == d || busy_elsewhere(pairs, d, mv.from_spec() as int) || busy_elsewhere(pairs, d, d)
}

/// A destination with pending moves is reached by an exchange, or one of its
/// moves could not be made.
pub open spec fn handled(list: Seq<SimMove>, pairs: Seq<(int, int)>, d: int) -> bool {
    list.len() > 0 ==> (dest_of(pairs, d) || exists|j: int|
        0 <= j < list.len() && #[trigger] blocked_move(pairs, d, list[j]))
}

/// Every cell some particle asks to reach is the end of an exchange, unless
/// one of the particles asking for it is blocked in it, or could not move
/// because it, or the cell, took part in an exchange ending elsewhere.
pub open spec fn progress(g: Seq<Option<Particle>>, w: int, h: int, pairs: Seq<(int, int)>) -> bool {
    forall|i: int|
        0 <= i < g.len() && (#[trigger] candidate_in(g, w, h, i)) is Some ==> {
            let d = candidate_in(g, w, h, i)->Some_0.0 as int;
            dest_of(pairs, d) || exists|k: int|
                0 <= k < g.len() && ((#[trigger] candidate_in(g, w, h, k)) matches Some(c) && c.0
                    == d && blocked_move(pairs, d, c.1))
        }
}

proof fn lemma_handled_push(list: Seq<SimMove>, pairs: Seq<(int, int)>, d: int, x: (int, int))
    requires
        handled(list, pairs, d),
    ensures
        handled(list, pairs.push(x), d),
{
    let p2 = pairs.push(x);
    if list.len() > 0 {
        if dest_of(pairs, d) {
            let q = choose|q: int| 0 <= q < pairs.len() && #[trigger] pairs[q].0 == d;
            assert(p2[q].0 == d);
        } else {
            let j = choose|j: int| 0 <= j < list.len() && #[trigger] blocked_move(pairs, d, list[j]);
            let mv = list[j];
            if busy_elsewhere(pairs, d, mv.from_spec() as int) {
                let q = choose|q: int|
                    0 <= q < pairs.len() && #[trigger] pairs[q].0 != d && (pairs[q].0 == mv.from_spec() as int
                        || pairs[q].1 == mv.from_spec() as int);
                assert(p2[q] == pairs[q]);
            } else if busy_elsewhere(pairs, d, d) {
                let q = choose|q: int| 0 <= q < pairs.len() && #[trigger] pairs[q].0 != d && (pairs[q].0 == d || pairs[q].1 == d);
                assert(p2[q] == pairs[q]);
            }
            assert(blocked_move(p2, d, list[j]));
        }
    }
}

proof fn lemma_reach_from(g: Seq<Option<Particle>>, w: int, h: int, p: Particle, path: Seq<Offset>, k: int)
    requires
        0 <= k < path.len(),
    ensures
        k <= reach_from_in(g, w, h, p, path, k) < path.len(),
        reach_from_in(g, w, h, p, path, k) == k || passable_in(
            g,
            w,
            h,
            p,
            path[reach_from_in(g, w, h, p, path, k)],
        ),
    decreases path.len() - k,
{
    if k + 1 < path.len() && passable_in(g, w, h, p, path[k + 1]) {
        lemma_reach_from(g, w, h, p, path, k + 1);
    }
}

/// A move that leaves its cell goes from an occupied cell into an empty
/// one (`Move`) or into the cell of a particle the mover can push through
/// (`Switch`).
proof fn lemma_candidate_fits(g: Seq<Option<Particle>>, w: int, h: int, i: int)
    requires
        0 <= w <= MAX_SIDE,
        0 <= h <= MAX_SIDE,
        g.len() == w * h,
        g.len() <= u32::MAX,
        0 <= i < g.len(),
        candidate_in(g, w, h, i) is Some,
        candidate_in(g, w, h, i)->Some_0.0 != i,
    ensures
        ({
            let c = candidate_in(g, w, h, i)->Some_0;
            let d = c.0 as int;
            &&& 0 <= d < g.len()
            &&& g[i] is Some
            &&& c.1.from_spec() == i
            &&& (c.1 is Move ==> g[d] is None)
            &&& (c.1 is Switch ==> (g[d] matches Some(b) && g[i]->Some_0.can_switch_with_spec(b)))
        }),
{
    let p = g[i]->Some_0;
    let start = offset_of(w, i);
    lemma_offset(w, h, i);
    let path = line(start, start.plus(p.movement_spec()));
    let t = reach_in(g, w, h, p, start, p.movement_spec());
    let c = candidate_in(g, w, h, i)->Some_0;
    if path.len() == 0 {
        assert(t == start);
        assert(index_of(w, start) == i);
        assert(c.0 as int == i);
        assert(false);
    } else {
        lemma_reach_from(g, w, h, p, path, 0);
        let r = reach_from_in(g, w, h, p, path, 0);
        assert(path[0] == start);
        assert(t == path[r]);
        if r == 0 {
            assert(t == start);
            assert(index_of(w, start) == i);
            assert(c.0 as int == i);
            assert(false);
        } else {
            assert(passable_in(g, w, h, p, t));
            lemma_index(w, h, t);
            assert(c.0 as int == index_of(w, t));
        }
    }
}

impl Simulation {
    /// Makes the move ending at `to` if it can be made now; a made move
    /// exchanges the two cells and marks both as touched.
    fn apply_move(&mut self, to: usize, sim_move: SimMove, touched: &mut Vec<bool>) -> (r: bool)
        requires
            old(self).wf(),
            to < old(self).grid().len(),
            sim_move.from_spec() < old(self).grid().len(),
            old(touched)@.len() == old(self).grid().len(),
        ensures
            final(self).wf(),
            r == applicable(old(self).grid(), old(touched)@, to as int, sim_move),
            final(self).grid() == (if r {
                swapped(old(self).grid(), to as int, sim_move.from_spec() as int)
            } else {
                old(self).grid()
            }),
            final(touched)@ == (if r {
                old(touched)@.update(to as int, true).update(sim_move.from_spec() as int, true)
            } else {
                old(touched)@
            }),
            r && sim_move is Switch ==> {
                let mover = old(self).grid()[sim_move.from_spec() as int]->Some_0;
                let displaced = old(self).grid()[to as int]->Some_0;
                mover.density_spec() > displaced.density_spec() || (mover.velocity_spec()
                    > DEFAULT_VELOCITY && !displaced.is_solid_spec())
            },
            final(self).pressures() == old(self).pressures(),
            final(self).w() == old(self).w(),
            final(self).h() == old(self).h(),
            final(self).moves@ == old(self).moves@,
            final(self).info_spec().moves_made_last_frame == old(self).info_spec().moves_made_last_frame,
            final(self).info_spec().destroyed_last_frame == old(self).info_spec().destroyed_last_frame,
    {
        let from = match sim_move {
            SimMove::Move(f) => f,
            SimMove::Switch(f) => f,
        };
        if from == to || touched[from] || touched[to] {
            return false;
        }
        let a = *self.cells[from].get_particle();
        let b = *self.cells[to].get_particle();
        let ok = match sim_move {
            SimMove::Move(_) => a.is_some() && b.is_none(),
            SimMove::Switch(_) => match (&a, &b) {
                (Some(pa), Some(pb)) => pa.can_switch_with(pb),
                _ => false,
            },
        };
        if !ok {
            return false;
        }
        proof {
            assert(a == old(self).grid()[from as int]);
            assert(b == old(self).grid()[to as int]);
        }
        self.put(to, a);
        self.put(from, b);
        touched.set(to, true);
        touched.set(from, true);
        true
    }

    /// Resolves the pending moves: for each destination one of its moves,
    /// drawn at random, is made if it still can be.
    fn apply_moves(&mut self)
        requires
            old(self).wf(),
            old(self).moves_sound(),
            old(self).moves_complete(),
        ensures
            final(self).wf(),
            exists|pairs: Seq<(int, int)>|
                requested(old(self).grid(), old(self).w(), old(self).h(), pairs) && density_ordered(
                    old(self).grid(),
                    pairs,
                ) && progress(old(self).grid(), old(self).w(), old(self).h(), pairs) && final(self).grid()
                    == #[trigger] swap_all(old(self).grid(), pairs),
            final(self).grid().to_multiset() == old(self).grid().to_multiset(),
            final(self).grid().len() == old(self).grid().len(),
            final(self).pressures() == old(self).pressures(),
            final(self).w() == old(self).w(),
            final(self).h() == old(self).h(),
            final(self).info_spec().destroyed_last_frame == old(self).info_spec().destroyed_last_frame,
            final(self).info_spec().particle_count == old(self).info_spec().particle_count,
    {
        let n = self.cells.len();
        let keys = move_keys(&self.moves);
        let mut touched: Vec<bool> = Vec::new();
        let mut i: usize = 0;
        while i < n
            invariant
                i <= n,
                touched@.len() == i,
                forall|q: int| 0 <= q < i ==> !(#[trigger] touched@[q]),
            decreases n - i,
        {
            touched.push(false);
            i = i + 1;
        }
        let ghost g0 = self.grid();
        let ghost m0 = self.moves@;
        let ghost mut pairs: Seq<(int, int)> = Seq::empty();
        proof {
            assert forall|x: int| 0 <= x < n implies (#[trigger] touched@[x] <==> in_pairs(pairs, x)) by {
                assert(!touched@[x]);
            }
        }
        let mut k: usize = 0;
        while k < keys.len()
            invariant
                self.wf(),
                n == self.grid().len(),
                touched@.len() == n,
                g0 == old(self).grid(),
                m0 == old(self).moves@,
                self.moves@ == m0,
                old(self).moves_sound(),
                old(self).moves_complete(),
                keys@.no_duplicates(),
                forall|q: int| 0 <= q < pairs.len() ==> keys@.take(k as int).contains((#[trigger] pairs[q]).0 as usize),
                forall|kk: int| 0 <= kk < k ==> handled(m0[#[trigger] keys@[kk]]@, pairs, keys@[kk] as int),
                self.w() == old(self).w(),
                self.h() == old(self).h(),
                self.grid() == swap_all(g0, pairs),
                requested(g0, self.w(), self.h(), pairs),
                density_ordered(g0, pairs),
                forall|x: int| 0 <= x < n ==> (#[trigger] touched@[x] <==> in_pairs(pairs, x)),
                forall|q: int| 0 <= q < pairs.len() ==> 0 <= (#[trigger] pairs[q]).0 < n && 0 <= pairs[q].1 < n,
                keys@.to_set() == self.moves@.dom(),
                k <= keys@.len(),
                self.grid().to_multiset() == old(self).grid().to_multiset(),
                self.grid().len() == old(self).grid().len(),
                self.pressures() == old(self).pressures(),
                self.w() == old(self).w(),
                self.h() == old(self).h(),
                self.info_spec().destroyed_last_frame == old(self).info_spec().destroyed_last_frame,
                self.info_spec().particle_count == old(self).info_spec().particle_count,
            decreases keys.len() - k,
        {
            let to = keys[k];
            let ghost pairs_k = pairs;
            proof {
                assert(keys@.to_set().contains(to));
                assert(self.moves@.contains_key(to));
                assert(!keys@.take(k as int).contains(to)) by {
                    if keys@.take(k as int).contains(to) {
                        let t = choose|t: int| 0 <= t < k && keys@.take(k as int)[t] == to;
                        assert(keys@[t] == keys@[k as int]);
                    }
                }
                assert forall|q: int| 0 <= q < pairs.len() implies #[trigger] pairs[q].0 != to as int by {
                    assert(keys@.take(k as int).contains(pairs[q].0 as usize));
                }
            }
            let list = moves_at(&self.moves, to);
            if list.len() > 0 {
                let j = random_index(list.len());
                let mv = list[j];
                proof {
                    assert(self.moves@[to]@[j as int].from_spec() < n);
                }
                let ghost g = self.grid();
                let ghost t0 = touched@;
                if self.apply_move(to, mv, &mut touched) {
                    proof {
                        lemma_swap_keeps(g, to as int, mv.from_spec() as int);
                        let f = mv.from_spec() as int;
                        assert(!in_pairs(pairs, to as int) && !in_pairs(pairs, f)) by {
                            assert(!t0[to as int] && !t0[f]);
                        }
                        lemma_swap_all_untouched(g0, pairs, to as int);
                        lemma_swap_all_untouched(g0, pairs, f);
                        assert(g[to as int] == g0[to as int] && g[f] == g0[f]);
                        assert(old(self).candidate(f) == Some((to, mv)));
                        let old_pairs = pairs;
                        pairs = pairs.push((to as int, f));
                        assert(pairs.drop_last() =~= old_pairs);
                        assert(pairs[pairs.len() - 1] == (to as int, f));
                        assert forall|q: int| 0 <= q < old_pairs.len() implies {
                            let a = #[trigger] old_pairs[q];
                            a.0 != to && a.0 != f && a.1 != to && a.1 != f
                        } by {
                            let a = old_pairs[q];
                            assert(in_pairs(old_pairs, a.0));
                            assert(in_pairs(old_pairs, a.1));
                        }
                        assert forall|x: int| 0 <= x < n implies (#[trigger] touched@[x] <==> in_pairs(pairs, x)) by {
                            let last = pairs.len() - 1;
                            if x == to as int || x == f {
                                assert(pairs[last].0 == to as int && pairs[last].1 == f);
                            } else {
                                assert(touched@[x] == t0[x]);
                                if in_pairs(pairs, x) {
                                    let q = choose|q: int| 0 <= q < pairs.len() && (#[trigger] pairs[q].0 == x || pairs[q].1 == x);
                                    if q < old_pairs.len() {
                                        assert(old_pairs[q].0 == pairs[q].0 && old_pairs[q].1 == pairs[q].1);
                                    } else {
                                        assert(pairs[last].0 == to as int && pairs[last].1 == f);
                                    }
                                }
                                if in_pairs(old_pairs, x) {
                                    let q = choose|q: int| 0 <= q < old_pairs.len() && (#[trigger] old_pairs[q].0 == x || old_pairs[q].1 == x);
                                    assert(pairs[q].0 == old_pairs[q].0 && pairs[q].1 == old_pairs[q].1);
                                }
                            }
                        }
                        assert forall|q: int, l: int| 0 <= q < l < pairs.len() implies {
                            let a = #[trigger] pairs[q];
                            let b = #[trigger] pairs[l];
                            a.0 != b.0 && a.0 != b.1 && a.1 != b.0 && a.1 != b.1
                        } by {
                            if l < old_pairs.len() {
                                assert(pairs[q] == old_pairs[q] && pairs[l] == old_pairs[l]);
                            } else {
                                assert(pairs[q] == old_pairs[q]);
                            }
                        }
                        assert forall|q: int|
                            0 <= q < pairs.len() && (#[trigger] g0[pairs[q].0]) is Some implies {
                            let mover = g0[pairs[q].1]->Some_0;
                            let displaced = g0[pairs[q].0]->Some_0;
                            &&& g0[pairs[q].1] is Some
                            &&& mover.density_spec() > displaced.density_spec() || (mover.velocity_spec()
                                > DEFAULT_VELOCITY && !displaced.is_solid_spec())
                        } by {
                            if q < old_pairs.len() {
                                assert(pairs[q] == old_pairs[q]);
                            }
                        }
                        assert forall|q: int| 0 <= q < pairs.len() implies ((#[trigger] candidate_in(g0, self.w(), self.h(), pairs[q].1)) matches Some(c)
                            && c.0 == pairs[q].0) by {
                            if q < old_pairs.len() {
                                assert(pairs[q] == old_pairs[q]);
                            }
                        }
                    }
                    proof {
                        let last = pairs.len() - 1;
                        assert(pairs[last].0 == to as int);
                        assert(dest_of(pairs, to as int));
                    }
                    if self.sim_info.moves_made_last_frame < u32::MAX {
                        self.sim_info.moves_made_last_frame = self.sim_info.moves_made_last_frame + 1;
                    }
                } else {
                    proof {
                        let f = mv.from_spec() as int;
                        assert(m0[to]@[j as int] == mv);
                        assert(old(self).candidate(f) == Some((to, mv)));
                        if f != to as int && !t0[f] && !t0[to as int] {
                            assert(!in_pairs(pairs, to as int) && !in_pairs(pairs, f));
                            lemma_swap_all_untouched(g0, pairs, to as int);
                            lemma_swap_all_untouched(g0, pairs, f);
                            lemma_candidate_fits(g0, self.w(), self.h(), f);
                            assert(applicable(g, t0, to as int, mv));
                        }
                        if t0[f] {
                            let q = choose|q: int| 0 <= q < pairs.len() && (#[trigger] pairs[q].0 == f || pairs[q].1 == f);
                            assert(pairs[q].0 != to as int);
                            assert(busy_elsewhere(pairs, to as int, f));
                        }
                        if t0[to as int] {
                            let q = choose|q: int| 0 <= q < pairs.len() && (#[trigger] pairs[q].0 == to as int || pairs[q].1 == to as int);
                            assert(pairs[q].0 != to as int);
                            assert(busy_elsewhere(pairs, to as int, to as int));
                        }
                        assert(blocked_move(pairs, to as int, m0[to]@[j as int]));
                    }
                }
            }
            proof {
                assert(handled(m0[to]@, pairs, to as int));
                assert(pairs == pairs_k || pairs == pairs_k.push(pairs.last()));
                assert forall|kk: int| 0 <= kk < k + 1 implies handled(m0[#[trigger] keys@[kk]]@, pairs, keys@[kk] as int) by {
                    if kk < k && pairs != pairs_k {
                        lemma_handled_push(m0[keys@[kk]]@, pairs_k, keys@[kk] as int, pairs.last());
                    }
                }
                assert forall|q: int| 0 <= q < pairs.len() implies keys@.take(k + 1).contains((#[trigger] pairs[q]).0 as usize) by {
                    if q < pairs_k.len() {
                        assert(pairs[q] == pairs_k[q]);
                        assert(keys@.take(k as int).contains(pairs_k[q].0 as usize));
                        let t = choose|t: int| 0 <= t < k && keys@.take(k as int)[t] == pairs_k[q].0 as usize;
                        assert(keys@.take(k + 1)[t] == pairs_k[q].0 as usize);
                    } else {
                        assert(pairs[q].0 == to as int);
                        assert(keys@.take(k + 1)[k as int] == to);
                    }
                }
            }
            k = k + 1;
        }
        proof {
            let w = self.w();
            let h = self.h();
            assert forall|i: int| 0 <= i < g0.len() && (#[trigger] candidate_in(g0, w, h, i)) is Some implies {
                let d = candidate_in(g0, w, h, i)->Some_0.0 as int;
                dest_of(pairs, d) || exists|k: int|
                    0 <= k < g0.len() && ((#[trigger] candidate_in(g0, w, h, k)) matches Some(c) && c.0
                        == d && blocked_move(pairs, d, c.1))
            } by {
                let c = candidate_in(g0, w, h, i)->Some_0;
                let d = c.0;
                assert(old(self).candidate(i) is Some);
                assert(listed(m0, d, c.1));
                assert(keys@.to_set().contains(d));
                let kk = choose|kk: int| 0 <= kk < keys@.len() && keys@[kk] == d;
                assert(handled(m0[keys@[kk]]@, pairs, keys@[kk] as int));
                let list = m0[d]@;
                assert(list.contains(c.1));
                if !dest_of(pairs, d as int) {
                    let j = choose|j: int| 0 <= j < list.len() && #[trigger] blocked_move(pairs, d as int, list[j]);
                    let f = list[j].from_spec() as int;
                    assert(m0[d]@[j] == list[j]);
                    assert(old(self).candidate(f) == Some((d, list[j])));
                    assert(0 <= f < g0.len());
                    assert(candidate_in(g0, w, h, f) == Some((d, list[j])));
                }
            }
        }
    }

    /// Forgets the pending moves.
    fn clear_moves(&mut self)
        requires
            old(self).wf(),
        ensures
            final(self).wf(),
            final(self).moves_sound(),
            final(self).grid() == old(self).grid(),
            final(self).pressures() == old(self).pressures(),
            final(self).w() == old(self).w(),
            final(self).h() == old(self).h(),
            final(self).info_spec() == old(self).info_spec(),
    {
        self.moves.clear();
        proof {
            assert(self.grid() =~= old(self).grid());
            assert(self.pressures() =~= old(self).pressures());
        }
    }
}


impl Simulation {
    fn liquid_at(&self, i: usize) -> (r: bool)
        requires
            self.wf(),
            i < self.grid().len(),
        ensures
            r == is_liquid(self.grid()[i as int]),
    {
        match self.cells[i].get_particle() {
            Some(p) => p.get_matter_type() == MatterType::Liquid,
            None => false,
        }
    }

    fn set_pressure_at(&mut self, i: usize, v: i32)
        requires
            old(self).wf(),
            i < old(self).grid().len(),
        ensures
            final(self).wf(),
            final(self).grid() == old(self).grid(),
            final(self).pressures() == old(self).pressures().update(i as int, v),
            final(self).w() == old(self).w(),
            final(self).h() == old(self).h(),
            final(self).info_spec() == old(self).info_spec(),
    {
        let mut c = self.cells[i];
        c.set_pressure(v);
        self.cells.set(i, c);
        proof {
            assert(self.grid() =~= old(self).grid());
            assert(self.pressures() =~= old(self).pressures().update(i as int, v));
        }
    }

    /// The `d`-th neighbor of cell `j` (up, down, left, right), when it is
    /// on the grid.
    fn neighbor(&self, j: usize, d: usize) -> (r: Option<usize>)
        requires
            self.wf(),
            j < self.grid().len(),
            d < 4,
        ensures
            r matches Some(k) ==> neighbor_spec(self.w(), self.h(), j as int, d as int) == Some(
                k as int,
            ),
            r is None ==> neighbor_spec(self.w(), self.h(), j as int, d as int) is None,
    {
        let o = self.offset_at(j);
        let q = if d == 0 {
            Offset::new(o.x, o.y - 1)
        } else if d == 1 {
            Offset::new(o.x, o.y + 1)
        } else if d == 2 {
            Offset::new(o.x - 1, o.y)
        } else {
            Offset::new(o.x + 1, o.y)
        };
        if self.in_grid(&q) {
            Some(self.index_at(&q))
        } else {
            None
        }
    }

    /// Sets the pressure of each liquid cell to its depth below the top
    /// row of its 4-connected liquid region, and lets deep regions
    /// overflow: particles of a region's top row move onto empty cells just
    /// above the region's surface cells whose pressure passes
    /// `CELL_PRESSURE_DIFF`, one for one.
    fn calculate_pressure(&mut self)
        requires
            old(self).wf(),
        ensures
            final(self).wf(),
            final(self).grid().to_multiset() == old(self).grid().to_multiset(),
            final(self).grid().len() == old(self).grid().len(),
            forall|i: int| 0 <= i < final(self).pressures().len() ==> #[trigger] final(self).pressures()[i] >= 0,
            forall|i: int| 0 <= i < final(self).pressures().len() && #[trigger] final(self).pressures()[i] != 0
                ==> is_liquid(old(self).grid()[i]),
            forall|i: int|
                0 <= i < old(self).grid().len() && is_liquid(#[trigger] old(self).grid()[i])
                    ==> depth_in_region(old(self).grid(), old(self).w(), i, final(self).pressures()[i] as int),
            exists|ov: Seq<(int, int)>|
                {
                    &&& disjoint(ov)
                    &&& forall|q: int|
                        0 <= q < ov.len() ==> overflow_entry(
                            old(self).grid(),
                            old(self).w(),
                            final(self).pressures(),
                            (#[trigger] ov[q]).1,
                            ov[q].0,
                        )
                    &&& final(self).grid() == swap_all(old(self).grid(), ov)
                },
            forall|i: int|
                0 <= i < final(self).grid().len() && !is_liquid(#[trigger] final(self).grid()[i])
                    ==> final(self).pressures()[i] == 0,
            final(self).w() == old(self).w(),
            final(self).h() == old(self).h(),
            final(self).info_spec().destroyed_last_frame == old(self).info_spec().destroyed_last_frame,
            final(self).info_spec().particle_count == old(self).info_spec().particle_count,
    {
        let n = self.cells.len();
        let ghost g0 = self.grid();
        let ghost w = self.w();
        let mut i: usize = 0;
        while i < n
            invariant
                self.wf(),
                n == self.grid().len(),
                i <= n,
                self.grid() == g0,
                forall|k: int| 0 <= k < i ==> #[trigger] self.pressures()[k] == 0,
                self.w() == old(self).w(),
                self.h() == old(self).h(),
                self.info_spec() == old(self).info_spec(),
            decreases n - i,
        {
            self.set_pressure_at(i, 0);
            i = i + 1;
        }
        let mut visited: Vec<bool> = Vec::new();
        let mut i: usize = 0;
        while i < n
            invariant
                i <= n,
                visited@.len() == i,
                forall|k: int| 0 <= k < i ==> !(#[trigger] visited@[k]),
            decreases n - i,
        {
            visited.push(false);
            i = i + 1;
        }
        let mut overflow: Vec<(usize, usize)> = Vec::new();
        let mut i: usize = 0;
        while i < n
            invariant
                self.wf(),
                n == self.grid().len(),
                i <= n,
                self.grid() == g0,
                w == self.w(),
                visited@.len() == n,
                closed(g0, w, visited@),
                forall|k: int| 0 <= k < n && #[trigger] visited@[k] ==> is_liquid(g0[k]),
                forall|k: int| 0 <= k < n && !(#[trigger] visited@[k]) ==> self.pressures()[k] == 0,
                forall|k: int|
                    0 <= k < n && #[trigger] visited@[k] ==> depth_in_region(
                        g0,
                        w,
                        k,
                        self.pressures()[k] as int,
                    ),
                forall|k: int| 0 <= k < i && is_liquid(#[trigger] g0[k]) ==> visited@[k],
                forall|k: int| 0 <= k < overflow@.len() ==> (#[trigger] overflow@[k]).0 < n && overflow@[k].1 < n,
                forall|k: int|
                    0 <= k < overflow@.len() ==> overflow_entry(
                        g0,
                        w,
                        self.pressures(),
                        (#[trigger] overflow@[k]).0 as int,
                        overflow@[k].1 as int,
                    ) && visited@[overflow@[k].0 as int] && visited@[overflow@[k].1 + w],
                self.w() == old(self).w(),
                self.h() == old(self).h(),
                self.info_spec() == old(self).info_spec(),
            decreases n - i,
        {
            if !visited[i] && self.liquid_at(i) {
                let ghost vb = visited@;
                let ghost pb = self.pressures();
                self.fill_area(i, &mut visited, &mut overflow);
                proof {
                    lemma_connected_self(g0, w, i as int);
                    assert forall|k: int| 0 <= k < n && #[trigger] visited@[k] implies is_liquid(g0[k]) by {
                        if !vb[k] {
                            lemma_connected_liquid(g0, w, i as int, k);
                        }
                    }
                    assert forall|k: int| 0 <= k < n && #[trigger] visited@[k] implies depth_in_region(
                        g0,
                        w,
                        k,
                        self.pressures()[k] as int,
                    ) by {
                        if vb[k] {
                            assert(!connected(g0, w, i as int, k));
                            assert(self.pressures()[k] == pb[k]);
                        }
                    }
                    assert forall|k: int| 0 <= k < n && !(#[trigger] visited@[k]) implies self.pressures()[k] == 0 by {
                        assert(!connected(g0, w, i as int, k));
                        assert(self.pressures()[k] == pb[k]);
                    }
                }
            }
            i = i + 1;
        }
        proof {
            assert forall|k: int| 0 <= k < n implies #[trigger] self.pressures()[k] >= 0 by {
                if visited@[k] {
                    assert(depth_in_region(g0, w, k, self.pressures()[k] as int));
                    lemma_connected_self(g0, w, k);
                    assert(connected(g0, w, k, k));
                }
            }
        }
        let ghost pr = self.pressures();
        proof {
            assert forall|k: int| 0 <= k < n && #[trigger] pr[k] != 0 implies is_liquid(g0[k]) by {
                if !visited@[k] {
                    assert(pr[k] == 0);
                }
            }
            assert forall|k: int| 0 <= k < n && is_liquid(#[trigger] g0[k]) implies depth_in_region(
                g0,
                w,
                k,
                pr[k] as int,
            ) by {
                assert(visited@[k]);
            }
        }
        let mut touched: Vec<bool> = Vec::new();
        let mut i: usize = 0;
        while i < n
            invariant
                i <= n,
                touched@.len() == i,
                forall|q: int| 0 <= q < i ==> !(#[trigger] touched@[q]),
            decreases n - i,
        {
            touched.push(false);
            i = i + 1;
        }
        let ghost mut ov: Seq<(int, int)> = Seq::empty();
        let mut k: usize = 0;
        while k < overflow.len()
            invariant
                self.wf(),
                n == self.grid().len(),
                g0.len() == n,
                w == self.w(),
                self.grid().to_multiset() == g0.to_multiset(),
                self.pressures() == pr,
                forall|k: int| 0 <= k < overflow@.len() ==> (#[trigger] overflow@[k]).0 < n && overflow@[k].1 < n,
                forall|k: int|
                    0 <= k < overflow@.len() ==> overflow_entry(
                        g0,
                        w,
                        pr,
                        (#[trigger] overflow@[k]).0 as int,
                        overflow@[k].1 as int,
                    ),
                touched@.len() == n,
                forall|x: int| 0 <= x < n ==> (#[trigger] touched@[x] <==> in_pairs(ov, x)),
                forall|x: int| 0 <= x < n && !in_pairs(ov, x) ==> #[trigger] self.grid()[x] == g0[x],
                forall|q: int|
                    0 <= q < ov.len() ==> {
                        let e = #[trigger] ov[q];
                        &&& 0 <= e.0 < n
                        &&& 0 <= e.1 < n
                        &&& e.0 != e.1
                        &&& self.grid()[e.0] == g0[e.1]
                        &&& self.grid()[e.1] == g0[e.0]
                        &&& overflow_entry(g0, w, pr, e.1, e.0)
                    },
                disjoint(ov),
                self.grid() == swap_all(g0, ov),
                self.w() == old(self).w(),
                self.h() == old(self).h(),
                self.info_spec().destroyed_last_frame == old(self).info_spec().destroyed_last_frame,
                self.info_spec().particle_count == old(self).info_spec().particle_count,
            decreases overflow.len() - k,
        {
            let (from, to) = overflow[k];
            proof {
                assert(overflow@[k as int].0 < n);
                assert(overflow_entry(g0, w, pr, from as int, to as int));
            }
            let a = *self.cells[from].get_particle();
            let b = *self.cells[to].get_particle();
            if from != to && !touched[from] && !touched[to] && a.is_some() && b.is_none() {
                let ghost g = self.grid();
                let ghost ov_old = ov;
                proof {
                    lemma_swap_keeps(g, to as int, from as int);
                }
                self.put(to, a);
                self.put(from, b);
                touched.set(to, true);
                touched.set(from, true);
                proof {
                    assert(self.grid() == swapped(g, to as int, from as int));
                    assert(g[to as int] == g0[to as int] && g[from as int] == g0[from as int]);
                    ov = ov.push((to as int, from as int));
                    assert(ov.drop_last() =~= ov_old);
                    let last = ov.len() - 1;
                    assert(ov[last] == (to as int, from as int));
                    assert forall|q: int| 0 <= q < ov_old.len() implies {
                        let e = #[trigger] ov_old[q];
                        e.0 != to && e.0 != from && e.1 != to && e.1 != from
                    } by {
                        let e = ov_old[q];
                        assert(in_pairs(ov_old, e.0));
                        assert(in_pairs(ov_old, e.1));
                    }
                    assert forall|x: int| 0 <= x < n implies (#[trigger] touched@[x] <==> in_pairs(ov, x)) by {
                        if x == to as int || x == from as int {
                            assert(ov[last].0 == to as int && ov[last].1 == from as int);
                        } else {
                            if in_pairs(ov, x) {
                                let q = choose|q: int| 0 <= q < ov.len() && (#[trigger] ov[q].0 == x || ov[q].1 == x);
                                if q < ov_old.len() {
                                    assert(ov_old[q].0 == ov[q].0 && ov_old[q].1 == ov[q].1);
                                }
                            }
                            if in_pairs(ov_old, x) {
                                let q = choose|q: int| 0 <= q < ov_old.len() && (#[trigger] ov_old[q].0 == x || ov_old[q].1 == x);
                                assert(ov[q].0 == ov_old[q].0 && ov[q].1 == ov_old[q].1);
                            }
                        }
                    }
                    assert forall|x: int| 0 <= x < n && !in_pairs(ov, x) implies #[trigger] self.grid()[x] == g0[x] by {
                        assert(x != to as int && x != from as int) by {
                            if x == to as int || x == from as int {
                                assert(ov[last].0 == to as int && ov[last].1 == from as int);
                            }
                        }
                        assert(!in_pairs(ov_old, x)) by {
                            if in_pairs(ov_old, x) {
                                let q = choose|q: int| 0 <= q < ov_old.len() && (#[trigger] ov_old[q].0 == x || ov_old[q].1 == x);
                                assert(ov[q].0 == ov_old[q].0 && ov[q].1 == ov_old[q].1);
                            }
                        }
                    }
                    assert forall|q: int| 0 <= q < ov.len() implies {
                        let e = #[trigger] ov[q];
                        &&& 0 <= e.0 < n
                        &&& 0 <= e.1 < n
                        &&& e.0 != e.1
                        &&& self.grid()[e.0] == g0[e.1]
                        &&& self.grid()[e.1] == g0[e.0]
                        &&& overflow_entry(g0, w, pr, e.1, e.0)
                    } by {
                        if q < ov_old.len() {
                            assert(ov[q] == ov_old[q]);
                        }
                    }
                    assert forall|q: int, l: int| 0 <= q < l < ov.len() implies {
                        let x = #[trigger] ov[q];
                        let y = #[trigger] ov[l];
                        x.0 != y.0 && x.0 != y.1 && x.1 != y.0 && x.1 != y.1
                    } by {
                        if l < ov_old.len() {
                            assert(ov[q] == ov_old[q] && ov[l] == ov_old[l]);
                        } else {
                            assert(ov[q] == ov_old[q]);
                        }
                    }
                }
            }
            k = k + 1;
        }
        proof {
            assert forall|x: int| 0 <= x < n && !is_liquid(#[trigger] self.grid()[x]) implies pr[x] == 0 by {
                if in_pairs(ov, x) {
                    let q = choose|q: int| 0 <= q < ov.len() && (#[trigger] ov[q].0 == x || ov[q].1 == x);
                    let e = ov[q];
                    assert(overflow_entry(g0, w, pr, e.1, e.0));
                } else if pr[x] != 0 {
                    assert(is_liquid(g0[x]));
                }
            }
        }
    }

    /// Floods the liquid region holding cell `start`, sets the pressure of
    /// its cells, and queues its overflow moves.
    fn fill_area(&mut self, start: usize, visited: &mut Vec<bool>, overflow: &mut Vec<(usize, usize)>)
        requires
            old(self).wf(),
            start < old(self).grid().len(),
            is_liquid(old(self).grid()[start as int]),
            !old(visited)@[start as int],
            old(visited)@.len() == old(self).grid().len(),
            closed(old(self).grid(), old(self).w(), old(visited)@),
            forall|k: int| 0 <= k < old(visited)@.len() && #[trigger] old(visited)@[k] ==> is_liquid(old(self).grid()[k]),
            forall|k: int| 0 <= k < old(overflow)@.len() ==> (#[trigger] old(overflow)@[k]).0 < old(self).grid().len()
                && old(overflow)@[k].1 < old(self).grid().len(),
            forall|k: int|
                0 <= k < old(overflow)@.len() ==> overflow_entry(
                    old(self).grid(),
                    old(self).w(),
                    old(self).pressures(),
                    (#[trigger] old(overflow)@[k]).0 as int,
                    old(overflow)@[k].1 as int,
                ) && old(visited)@[old(overflow)@[k].0 as int] && old(visited)@[old(overflow)@[k].1 + old(self).w()],
        ensures
            final(self).wf(),
            final(self).grid() == old(self).grid(),
            final(visited)@.len() == old(visited)@.len(),
            closed(old(self).grid(), old(self).w(), final(visited)@),
            forall|k: int|
                0 <= k < old(visited)@.len() ==> (#[trigger] final(visited)@[k] <==> (old(visited)@[k]
                    || connected(old(self).grid(), old(self).w(), start as int, k))),
            forall|k: int|
                0 <= k < old(visited)@.len() && #[trigger] connected(old(self).grid(), old(self).w(), start as int, k)
                    ==> !old(visited)@[k] && depth_in_region(
                    old(self).grid(),
                    old(self).w(),
                    k,
                    final(self).pressures()[k] as int,
                ),
            forall|k: int|
                0 <= k < old(visited)@.len() && !connected(old(self).grid(), old(self).w(), start as int, k)
                    ==> #[trigger] final(self).pressures()[k] == old(self).pressures()[k],
            forall|k: int| 0 <= k < final(overflow)@.len() ==> (#[trigger] final(overflow)@[k]).0 < old(self).grid().len()
                && final(overflow)@[k].1 < old(self).grid().len(),
            forall|k: int|
                0 <= k < final(overflow)@.len() ==> overflow_entry(
                    old(self).grid(),
                    old(self).w(),
                    final(self).pressures(),
                    (#[trigger] final(overflow)@[k]).0 as int,
                    final(overflow)@[k].1 as int,
                ) && final(visited)@[final(overflow)@[k].0 as int] && final(visited)@[final(overflow)@[k].1 + old(self).w()],
            final(self).w() == old(self).w(),
            final(self).h() == old(self).h(),
            final(self).info_spec() == old(self).info_spec(),
    {
        let n = self.cells.len();
        let ghost g0 = self.grid();
        let ghost w = self.w();
        let ghost h = self.h();
        let ghost v0 = visited@;
        let ghost s = start as int;
        let mut area = Area::new();
        let mut members: Vec<usize> = Vec::new();
        let mut stack: Vec<usize> = Vec::new();
        let ghost mut mset: Set<int> = Set::empty();
        proof {
            lemma_unmarked_mark(visited@, start as int);
            lemma_connected_self(g0, w, s);
        }
        visited.set(start, true);
        stack.push(start);
        proof {
            mset = mset.insert(s);
            lemma_unmarked_nonneg(visited@);
            assert(stack@[0] == start);
            assert(stack@.contains(start));
            assert(area.members() == Set::<Offset>::empty());
        }
        while stack.len() > 0
            invariant
                self.wf(),
                self == old(self),
                n == self.grid().len(),
                g0 == self.grid(),
                w == self.w(),
                h == self.h(),
                s == start,
                v0 == old(visited)@,
                visited@.len() == n,
                closed(g0, w, v0),
                forall|k: int| 0 <= k < n && #[trigger] v0[k] ==> is_liquid(g0[k]),
                forall|k: int| 0 <= k < n ==> (#[trigger] visited@[k] <==> (v0[k] || mset.contains(k))),
                forall|k: int|
                    #[trigger] mset.contains(k) ==> 0 <= k < n && !v0[k] && is_liquid(g0[k])
                        && connected(g0, w, s, k),
                stack@.no_duplicates(),
                mset.contains(s),
                forall|t: int| 0 <= t < stack@.len() ==> mset.contains(#[trigger] stack@[t] as int),
                forall|j: int, k: int|
                    0 <= k < n && #[trigger] mset.contains(j) && !stack@.contains(j as usize)
                        && #[trigger] adjacent(w, j, k) && is_liquid(g0[k]) ==> visited@[k],
                area.wf(),
                forall|j: int|
                    #[trigger] mset.contains(j) && !stack@.contains(j as usize) ==> area.members().contains(
                        offset_of(w, j),
                    ) && members@.contains(j as usize),
                forall|o: Offset|
                    #[trigger] area.members().contains(o) ==> exists|j: int|
                        #[trigger] mset.contains(j) && offset_of(w, j) == o,
                forall|t: int| 0 <= t < members@.len() ==> mset.contains(#[trigger] members@[t] as int),
            decreases unmarked(visited@) * 5 + stack@.len(),
        {
            proof {
                lemma_unmarked_nonneg(visited@);
            }
            let ghost before = unmarked(visited@) * 5 + stack@.len();
            let ghost stack0 = stack@;
            let j = stack.pop().unwrap();
            proof {
                assert(stack0 =~= stack@.push(j));
                assert(mset.contains(j as int));
                assert(!stack@.contains(j)) by {
                    if stack@.contains(j) {
                        let t = choose|t: int| 0 <= t < stack@.len() && stack@[t] == j;
                        assert(stack0[t] == stack0[stack0.len() - 1]);
                    }
                }
                lemma_offset(w, h, j as int);
            }
            let o = self.offset_at(j);
            let ghost members_before = members@;
            area.add(o);
            members.push(j);
            let ghost stack1 = stack@;
            let ghost m1 = mset;
            proof {
                assert(members@[members@.len() - 1] == j);
                assert(members@.contains(j));
                assert forall|x: int|
                    #[trigger] m1.contains(x) && !stack1.contains(x as usize) && x != j implies area.members().contains(
                        offset_of(w, x),
                    ) && members@.contains(x as usize) by {
                    assert(!stack0.contains(x as usize)) by {
                        if stack0.contains(x as usize) {
                            let t = choose|t: int| 0 <= t < stack0.len() && stack0[t] == x as usize;
                            if t < stack1.len() {
                                assert(stack1[t] == x as usize);
                            }
                        }
                    }
                    assert(members_before.contains(x as usize));
                    let t = choose|t: int| 0 <= t < members_before.len() && members_before[t] == x as usize;
                    assert(members@[t] == x as usize);
                }
            }
            let mut d: usize = 0;
            while d < 4
                invariant
                    self.wf(),
                    self == old(self),
                    n == self.grid().len(),
                    g0 == self.grid(),
                    w == self.w(),
                    h == self.h(),
                    s == start,
                    v0 == old(visited)@,
                    j < n,
                    mset.contains(j as int),
                    mset.contains(s),
                    !stack@.contains(j),
                    d <= 4,
                    visited@.len() == n,
                    forall|k: int| 0 <= k < n ==> (#[trigger] visited@[k] <==> (v0[k] || mset.contains(k))),
                    forall|k: int|
                        #[trigger] mset.contains(k) ==> 0 <= k < n && !v0[k] && is_liquid(g0[k])
                            && connected(g0, w, s, k),
                    stack@.no_duplicates(),
                    forall|t: int| 0 <= t < stack@.len() ==> mset.contains(#[trigger] stack@[t] as int),
                    forall|t: int| 0 <= t < stack@.len() ==> #[trigger] stack@[t] != j,
                    forall|e: int| 0 <= e < d ==> #[trigger] neighbor_done(g0, w, h, visited@, j as int, e),
                    forall|i: int, k: int|
                        0 <= k < n && #[trigger] mset.contains(i) && !stack@.contains(i as usize) && i != j
                            && #[trigger] adjacent(w, i, k) && is_liquid(g0[k]) ==> visited@[k],
                    unmarked(visited@) * 5 + stack@.len() < before,
                    unmarked(visited@) >= 0,
                    stack@.len() >= stack1.len(),
                    forall|t: int| 0 <= t < stack1.len() ==> #[trigger] stack@[t] == stack1[t],
                    forall|t: int| stack1.len() <= t < stack@.len() ==> !m1.contains(#[trigger] stack@[t] as int),
                    forall|x: int| #[trigger] m1.contains(x) ==> mset.contains(x),
                    forall|x: int| #[trigger] mset.contains(x) && !m1.contains(x) ==> stack@.contains(x as usize),
                    area.wf(),
                    area.members().contains(offset_of(w, j as int)),
                    members@.contains(j),
                    forall|x: int|
                        #[trigger] m1.contains(x) && !stack1.contains(x as usize) && x != j ==> area.members().contains(
                            offset_of(w, x),
                        ) && members@.contains(x as usize),
                    forall|q: Offset|
                        #[trigger] area.members().contains(q) ==> exists|x: int|
                            #[trigger] mset.contains(x) && offset_of(w, x) == q,
                    forall|t: int| 0 <= t < members@.len() ==> mset.contains(#[trigger] members@[t] as int),
                decreases 4 - d,
            {
                proof {
                    lemma_neighbor_adjacent(w, h, j as int, d as int);
                }
                let ghost sp = stack@;
                let ghost vp = visited@;
                let ghost mp = mset;
                let nb = self.neighbor(j, d);
                match nb {
                    Some(k) => {
                        if !visited[k] && self.liquid_at(k) {
                            proof {
                                lemma_unmarked_mark(visited@, k as int);
                                lemma_connected_step(g0, w, s, j as int, k as int);
                                assert(!mset.contains(k as int));
                            }
                            visited.set(k, true);
                            stack.push(k);
                            proof {
                                mset = mset.insert(k as int);
                                lemma_unmarked_nonneg(visited@);
                                assert(stack@[stack@.len() - 1] == k);
                                assert(stack@.contains(k));
                            }
                        }
                    },
                    None => {},
                }
                proof {
                    assert forall|x: usize| sp.contains(x) implies stack@.contains(x) by {
                        let t = choose|t: int| 0 <= t < sp.len() && sp[t] == x;
                        assert(stack@[t] == x);
                    }
                    assert forall|x: int| 0 <= x < n && vp[x] implies visited@[x] by {}
                    if let Some(k) = nb {
                        assert(is_liquid(g0[k as int]) ==> visited@[k as int]);
                    }
                    assert forall|e: int| 0 <= e < d + 1 implies #[trigger] neighbor_done(g0, w, h, visited@, j as int, e) by {
                        lemma_neighbor_adjacent(w, h, j as int, e);
                        if e < d {
                            assert(neighbor_done(g0, w, h, vp, j as int, e));
                            if let Some(k) = neighbor_spec(w, h, j as int, e) {
                                if vp[k] {
                                    assert(visited@[k]);
                                }
                            }
                        } else {
                            assert(e == d);
                            if let Some(k) = nb {
                                assert(neighbor_spec(w, h, j as int, e) == Some(k as int));
                            } else {
                                assert(neighbor_spec(w, h, j as int, e) is None);
                            }
                        }
                    }
                    assert forall|q: Offset| #[trigger] area.members().contains(q) implies exists|x: int|
                        #[trigger] mset.contains(x) && offset_of(w, x) == q by {
                        let x = choose|x: int| #[trigger] mp.contains(x) && offset_of(w, x) == q;
                        assert(mset.contains(x));
                    }
                    assert forall|i: int, k: int|
                        0 <= k < n && #[trigger] mset.contains(i) && !stack@.contains(i as usize) && i != j
                            && #[trigger] adjacent(w, i, k) && is_liquid(g0[k]) implies visited@[k] by {
                        if !mp.contains(i) {
                            assert(stack@.contains(i as usize));
                        }
                        assert(!sp.contains(i as usize));
                        assert(vp[k]);
                    }
                    assert forall|x: int| #[trigger] mset.contains(x) && !m1.contains(x) implies stack@.contains(x as usize) by {
                        if mp.contains(x) {
                            assert(sp.contains(x as usize));
                        }
                    }
                }
                d = d + 1;
            }
            proof {
                assert forall|x: int|
                    #[trigger] mset.contains(x) && !stack@.contains(x as usize) implies area.members().contains(
                        offset_of(w, x),
                    ) && members@.contains(x as usize) by {
                    if m1.contains(x) && x != j {
                        assert(!stack1.contains(x as usize)) by {
                            if stack1.contains(x as usize) {
                                let t = choose|t: int| 0 <= t < stack1.len() && stack1[t] == x as usize;
                                assert(stack@[t] == x as usize);
                            }
                        }
                    }
                }
                assert forall|i: int, k: int|
                    0 <= k < n && #[trigger] mset.contains(i) && !stack@.contains(i as usize)
                        && #[trigger] adjacent(w, i, k) && is_liquid(g0[k]) implies visited@[k] by {
                    if i == j {
                        lemma_adjacent_neighbor(w, h, j as int, k);
                        let e = choose|e: int| 0 <= e < 4 && #[trigger] neighbor_spec(w, h, j as int, e) == Some(k);
                        assert(neighbor_done(g0, w, h, visited@, j as int, e));
                    }
                }
            }
        }
        proof {
            // the region is everything connected to `start`
            assert forall|k: int| 0 <= k < n && connected(g0, w, s, k) implies #[trigger] mset.contains(k) by {
                assert forall|a: int, b: int|
                    0 <= a < n && 0 <= b < n && #[trigger] visited@[a] && #[trigger] adjacent(w, a, b)
                        && is_liquid(g0[b]) implies visited@[b] by {
                    if v0[a] {
                        assert(v0[b]);
                    } else {
                        assert(mset.contains(a));
                    }
                }
                assert(closed(g0, w, visited@));
                assert(mset.contains(s));
                assert(visited@[s]);
                lemma_connected_closed(g0, w, visited@, s, k);
                if v0[k] {
                    lemma_connected_sym(g0, w, s, k);
                    lemma_connected_closed(g0, w, v0, k, s);
                }
            }
        }
        let ghost top = area.top() as int;
        proof {
            assert(mset.contains(s));
            assert(area.members().contains(offset_of(w, s)));
            let o = choose|o: Offset| #[trigger] area.members().contains(o) && o.y == area.top();
            let jt = choose|jt: int| #[trigger] mset.contains(jt) && offset_of(w, jt) == o;
            assert(row_of(w, jt) == top);
        }
        let ghost p0 = self.pressures();
        let mut k: usize = 0;
        while k < members.len()
            invariant
                self.wf(),
                n == self.grid().len(),
                self.grid() == g0,
                w == self.w(),
                h == self.h(),
                area.wf(),
                top == area.top(),
                forall|t: int| 0 <= t < members@.len() ==> mset.contains(#[trigger] members@[t] as int),
                forall|j: int| #[trigger] mset.contains(j) ==> 0 <= j < n && area.members().contains(offset_of(w, j)),
                forall|o: Offset| #[trigger] area.members().contains(o) ==> exists|j: int|
                        #[trigger] mset.contains(j) && offset_of(w, j) == o,
                forall|t: int| 0 <= t < k ==> #[trigger] self.pressures()[members@[t] as int] == row_of(w, members@[t] as int) - top,
                forall|q: int| 0 <= q < n && !mset.contains(q) ==> #[trigger] self.pressures()[q] == p0[q],
                self.w() == old(self).w(),
                self.h() == old(self).h(),
                self.info_spec() == old(self).info_spec(),
            decreases members.len() - k,
        {
            let j = members[k];
            proof {
                assert(mset.contains(j as int));
                lemma_offset(w, h, j as int);
            }
            let o = self.offset_at(j);
            proof {
                assert(area.members().contains(o));
                let wo = choose|wo: Offset| #[trigger] area.members().contains(wo) && wo.y == area.top();
                let jw = choose|jw: int| #[trigger] mset.contains(jw) && offset_of(w, jw) == wo;
                lemma_offset(w, h, jw);
            }
            let dep = area.depth(&o);
            self.set_pressure_at(j, dep);
            k = k + 1;
        }
        proof {
            assert forall|q: int|
                0 <= q < n && #[trigger] connected(g0, w, s, q) implies !v0[q] && depth_in_region(
                g0,
                w,
                q,
                self.pressures()[q] as int,
            ) by {
                assert(mset.contains(q));
                assert(members@.contains(q as usize));
                let t = choose|t: int| 0 <= t < members@.len() && members@[t] == q as usize;
                assert(self.pressures()[members@[t] as int] == row_of(w, q) - top);
                let o = choose|o: Offset| #[trigger] area.members().contains(o) && o.y == area.top();
                let jt = choose|jt: int| #[trigger] mset.contains(jt) && offset_of(w, jt) == o;
                lemma_connected_sym(g0, w, s, q);
                lemma_connected_trans(g0, w, q, s, jt);
                assert(connected(g0, w, q, jt) && row_of(w, jt) == row_of(w, q) - self.pressures()[q]);
                assert forall|m: int| #[trigger] connected(g0, w, q, m) implies row_of(w, m) >= row_of(w, q)
                    - self.pressures()[q] by {
                    lemma_connected_trans(g0, w, s, q, m);
                    let pm = choose|pm: Seq<int>| #[trigger] liquid_path(g0, w, pm) && pm[0] == q && pm.last() == m;
                    assert(0 <= m < n);
                    assert(mset.contains(m));
                    assert(area.members().contains(offset_of(w, m)));
                }
            }
        }
        let highest = area.get_heighest_offsets();
        proof {
            assert forall|o: Offset| #[trigger] area.members().contains(o) implies o.y > i32::MIN by {
                let j = choose|j: int| #[trigger] mset.contains(j) && offset_of(w, j) == o;
                lemma_offset(w, h, j);
            }
        }
        let edges = area.get_top_edge_offsets();
        proof {
            assert forall|k: int| 0 <= k < edges@.len() implies self.inside(#[trigger] edges@[k])
                && mset.contains(self.index(edges@[k])) by {
                assert(edges@.to_set().contains(edges@[k]));
                assert(area.members().contains(edges@[k]));
                let j = choose|j: int| #[trigger] mset.contains(j) && offset_of(w, j) == edges@[k];
                lemma_offset(w, h, j);
            }
            assert forall|k: int| 0 <= k < highest@.len() implies self.inside(#[trigger] highest@[k])
                && mset.contains(self.index(highest@[k])) && highest@[k].y == top by {
                assert(highest@.to_set().contains(highest@[k]));
                assert(area.members().contains(highest@[k]));
                let j = choose|j: int| #[trigger] mset.contains(j) && offset_of(w, j) == highest@[k];
                lemma_offset(w, h, j);
            }
        }
        let ghost pf = self.pressures();
        proof {
            assert forall|j: int| #[trigger] mset.contains(j) implies pf[j] == row_of(w, j) - top by {
                assert(members@.contains(j as usize));
                let t = choose|t: int| 0 <= t < members@.len() && members@[t] == j as usize;
                assert(pf[members@[t] as int] == row_of(w, members@[t] as int) - top);
            }
        }
        let mut targets: Vec<usize> = Vec::new();
        let mut e: usize = 0;
        while e < edges.len()
            invariant
                self.wf(),
                n == self.grid().len(),
                g0 == self.grid(),
                pf == self.pressures(),
                w == self.w(),
                h == self.h(),
                forall|k: int| 0 <= k < edges@.len() ==> self.inside(#[trigger] edges@[k]),
                forall|k: int|
                    0 <= k < edges@.len() ==> mset.contains(self.index(#[trigger] edges@[k])),
                forall|k: int|
                    0 <= k < targets@.len() ==> #[trigger] targets@[k] < n && g0[targets@[k] as int] is None
                        && targets@[k] + w < n && mset.contains(targets@[k] + w) && pf[targets@[k] + w]
                        > CELL_PRESSURE_DIFF,
            decreases edges.len() - e,
        {
            let o = edges[e];
            let p = self.cells[self.index_at(&o)].get_pressure();
            if p > CELL_PRESSURE_DIFF && o.y >= 1 {
                let above = Offset::new(o.x, o.y - 1);
                let t = self.index_at(&above);
                if self.cells[t].is_empty() {
                    proof {
                        assert(t + w == self.index(o)) by (nonlinear_arith)
                            requires
                                t == (o.y - 1) * w + o.x,
                                self.index(o) == o.y * w + o.x,
                        ;
                        assert(mset.contains(self.index(o)));
                    }
                    targets.push(t);
                }
            }
            e = e + 1;
        }
        let ghost ov0 = overflow@;
        let mut t: usize = 0;
        while t < highest.len() && t < targets.len()
            invariant
                self.wf(),
                n == self.grid().len(),
                g0 == self.grid(),
                pf == self.pressures(),
                w == self.w(),
                h == self.h(),
                forall|k: int| 0 <= k < highest@.len() ==> self.inside(#[trigger] highest@[k]),
                forall|k: int|
                    0 <= k < highest@.len() ==> mset.contains(self.index(#[trigger] highest@[k]))
                        && highest@[k].y == top,
                forall|k: int|
                    0 <= k < targets@.len() ==> #[trigger] targets@[k] < n && g0[targets@[k] as int] is None
                        && targets@[k] + w < n && mset.contains(targets@[k] + w) && pf[targets@[k] + w]
                        > CELL_PRESSURE_DIFF,
                forall|k: int| 0 <= k < overflow@.len() ==> (#[trigger] overflow@[k]).0 < n && overflow@[k].1 < n,
                overflow@.len() >= ov0.len(),
                forall|k: int| 0 <= k < ov0.len() ==> #[trigger] overflow@[k] == ov0[k],
                forall|k: int|
                    ov0.len() <= k < overflow@.len() ==> mset.contains((#[trigger] overflow@[k]).0 as int)
                        && row_of(w, overflow@[k].0 as int) == top && g0[overflow@[k].1 as int] is None
                        && overflow@[k].1 + w < n && mset.contains(overflow@[k].1 + w) && pf[overflow@[k].1
                        + w] > CELL_PRESSURE_DIFF,
            decreases highest.len() - t,
        {
            let from = self.index_at(&highest[t]);
            proof {
                lemma_index(w, h, highest@[t as int]);
            }
            overflow.push((from, targets[t]));
            t = t + 1;
        }
        proof {
            assert forall|a: int, b: int|
                0 <= a < n && 0 <= b < n && #[trigger] visited@[a] && #[trigger] adjacent(w, a, b)
                    && is_liquid(g0[b]) implies visited@[b] by {
                if v0[a] {
                    assert(v0[b]);
                } else {
                    assert(mset.contains(a));
                }
            }
            assert forall|k: int| 0 <= k < n implies (#[trigger] visited@[k] <==> (v0[k] || connected(g0, w, s, k))) by {
                if mset.contains(k) {
                    assert(connected(g0, w, s, k));
                }
            }
            assert forall|k: int| 0 <= k < overflow@.len() implies overflow_entry(
                g0,
                w,
                self.pressures(),
                (#[trigger] overflow@[k]).0 as int,
                overflow@[k].1 as int,
            ) && visited@[overflow@[k].0 as int] && visited@[overflow@[k].1 + w] by {
                let f = overflow@[k].0 as int;
                let t = overflow@[k].1 as int;
                if k < ov0.len() {
                    assert(overflow@[k] == ov0[k]);
                    assert(v0[f] && v0[t + w]);
                    assert(!mset.contains(f) && !mset.contains(t + w));
                    assert(self.pressures()[f] == p0[f]);
                    assert(self.pressures()[t + w] == p0[t + w]);
                } else {
                    assert(mset.contains(f) && mset.contains(t + w));
                    assert(pf[f] == row_of(w, f) - top);
                    lemma_connected_sym(g0, w, s, f);
                    lemma_connected_trans(g0, w, f, s, t + w);
                }
            }
        }
    }
}

/// The 3x3 window around `o` on grid `g` (`w` x `h`), row by row: cells
/// off the grid are `Outside`.
pub open spec fn window_in(g: Seq<Option<Particle>>, w: int, h: int, o: Offset) -> Seq<NeighborCell> {
    Seq::new(
        9,
        |k: int|
            {
                let q = Offset { x: (o.x + k % 3 - 1) as i32, y: (o.y + k / 3 - 1) as i32 };
                if within(w, h, q) {
                    NeighborCell::Inside(g[index_of(w, q)])
                } else {
                    NeighborCell::Outside
                }
            },
    )
}

/// No cell takes part in two of the exchanges, nor twice in one.
pub open spec fn disjoint(pairs: Seq<(int, int)>) -> bool {
    &&& forall|k: int| 0 <= k < pairs.len() ==> (#[trigger] pairs[k]).0 != pairs[k].1
    &&& forall|k: int, l: int|
        0 <= k < l < pairs.len() ==> {
            let a = #[trigger] pairs[k];
            let b = #[trigger] pairs[l];
            a.0 != b.0 && a.0 != b.1 && a.1 != b.0 && a.1 != b.1
        }
}

/// An overflow move `(from, to)`: `from` is a liquid cell on the top row of
/// its region (pressure 0), `to` is an empty cell right above a liquid cell
/// of the same region whose pressure passes `CELL_PRESSURE_DIFF`.
pub open spec fn overflow_entry(g: Seq<Option<Particle>>, w: int, pr: Seq<i32>, from: int, to: int) -> bool {
    &&& 0 <= from < g.len()
    &&& 0 <= to
    &&& to + w < g.len()
    &&& is_liquid(g[from])
    &&& pr[from] == 0
    &&& g[to] is None
    &&& is_liquid(g[to + w])
    &&& pr[to + w] > CELL_PRESSURE_DIFF
    &&& connected(g, w, from, to + w)
}

/// `after` is what the rule of `p` on window `n` with draws `d` leaves in
/// the particle's cell.
pub open spec fn stepped(p: Particle, n: Seq<NeighborCell>, d: Dice, after: Option<Particle>) -> bool {
    match p.rule(n, d) {
        Transition::Keep => after == Some(p),
        Transition::Become(q) => after == Some(q),
        Transition::Vanish => after is None,
        Transition::Spawn(k) => after matches Some(q) && q.species_spec() == k && q.wf(),
    }
}

/// What a local update leaves in the cell, given what was there.
pub open spec fn after_change(c: ParticleChange, prev: Option<Particle>) -> Option<Particle> {
    match c {
        ParticleChange::Changed(x) => x,
        ParticleChange::Unchanged => prev,
    }
}

/// The local update of cell `i` is the particle's rule on its window for
/// some draws, and an empty cell stays empty.
pub open spec fn change_fits(sim: Simulation, i: int, c: ParticleChange) -> bool {
    &&& (sim.grid()[i] is None ==> c is Unchanged)
    &&& (c matches ParticleChange::Changed(Some(q)) ==> q.wf())
    &&& (sim.grid()[i] matches Some(p) ==> exists|d: Dice|
        d.fits(p) && #[trigger] realizes(p.rule(sim.window(offset_of(sim.w(), i)), d), c))
}

/// Relies on rayon's indexed `into_par_iter().map(..).collect()` over
/// `0..n`: one result per cell, in order, each what `local_change` returns.
#[verifier::external_body]
fn local_changes_parallel(sim: &Simulation) -> (r: Vec<ParticleChange>)
    requires
        sim.wf(),
    ensures
        r@.len() == sim.grid().len(),
        forall|i: int| 0 <= i < r@.len() ==> change_fits(*sim, i, #[trigger] r@[i]),
{
    let n = sim.cells.len();
    (0..n).into_par_iter().map(|i| sim.local_change(i)).collect()
}

impl Simulation {
    /// The 3x3 window around `o`, row by row: cells off the grid are
    /// `Outside`.
    pub open spec fn window(&self, o: Offset) -> Seq<NeighborCell> {
        window_in(self.grid(), self.w(), self.h(), o)
    }

    /// A copy of the 3x3 window around a position on the grid.
    fn get_neighborhood(&self, offset: Offset) -> (r: Neighborhood)
        requires
            self.wf(),
            self.inside(offset),
        ensures
            r.wf(),
            r.0@ == self.window(offset),
    {
        let mut cells: Vec<NeighborCell> = Vec::new();
        let mut k: i32 = 0;
        while k < 9
            invariant
                self.wf(),
                self.inside(offset),
                0 <= k <= 9,
                cells@ =~= self.window(offset).take(k as int),
            decreases 9 - k,
        {
            let q = Offset::new(offset.x + k % 3 - 1, offset.y + k / 3 - 1);
            let c = match self.get_cell(&q) {
                Some(cell) => NeighborCell::Inside(*cell.get_particle()),
                None => NeighborCell::Outside,
            };
            cells.push(c);
            proof {
                assert(self.window(offset).take(k + 1) =~= self.window(offset).take(k as int).push(c));
            }
            k = k + 1;
        }
        proof {
            assert(self.window(offset).take(9) =~= self.window(offset));
        }
        Neighborhood(cells)
    }

    /// The local update of cell `i` for this tick.
    fn local_change(&self, i: usize) -> (r: ParticleChange)
        requires
            self.wf(),
            i < self.grid().len(),
        ensures
            change_fits(*self, i as int, r),
    {
        match self.cells[i].get_particle() {
            Some(p) => {
                proof {
                    assert(self.grid()[i as int] == Some(*p));
                }
                let offset = self.offset_at(i);
                let n = self.get_neighborhood(offset);
                p.update(n)
            },
            None => ParticleChange::Unchanged,
        }
    }

    /// Updates the state of every particle from its window, all windows
    /// being read before any cell is written.
    fn update_inner_states(&mut self)
        requires
            old(self).wf(),
            old(self).info_spec().destroyed_last_frame == 0,
        ensures
            final(self).wf(),
            final(self).grid().len() == old(self).grid().len(),
            forall|i: int| 0 <= i < old(self).grid().len() && #[trigger] old(self).grid()[i] is None
                ==> final(self).grid()[i] is None,
            forall|i: int|
                0 <= i < old(self).grid().len() ==> (#[trigger] old(self).grid()[i] matches Some(p)
                    ==> exists|d: Dice|
                    d.fits(p) && #[trigger] stepped(
                        p,
                        old(self).window(offset_of(old(self).w(), i)),
                        d,
                        final(self).grid()[i],
                    )),
            final(self).info_spec().particle_count + final(self).info_spec().destroyed_last_frame
                == old(self).info_spec().particle_count,
            final(self).pressures() == old(self).pressures(),
            final(self).w() == old(self).w(),
            final(self).h() == old(self).h(),
    {
        let ghost s0 = *self;
        let changes = local_changes_parallel(self);
        let n = self.cells.len();
        let mut i: usize = 0;
        while i < n
            invariant
                self.wf(),
                n == self.grid().len(),
                n == s0.grid().len(),
                changes@.len() == n,
                forall|j: int| 0 <= j < n ==> change_fits(s0, j, #[trigger] changes@[j]),
                i <= n,
                forall|j: int| i <= j < n ==> #[trigger] self.grid()[j] == s0.grid()[j],
                forall|j: int| 0 <= j < i ==> #[trigger] self.grid()[j] == after_change(changes@[j], s0.grid()[j]),
                self.info_spec().particle_count + self.info_spec().destroyed_last_frame
                    == s0.info_spec().particle_count,
                self.pressures() == s0.pressures(),
                self.w() == s0.w(),
                self.h() == s0.h(),
            decreases n - i,
        {
            proof {
                assert(change_fits(s0, i as int, changes@[i as int]));
                assert(self.grid()[i as int] == s0.grid()[i as int]);
            }
            match changes[i] {
                ParticleChange::Changed(Some(q)) => {
                    proof {
                        lemma_occupied_update(self.grid(), i as int, Some(q));
                    }
                    self.put(i, Some(q));
                },
                ParticleChange::Changed(None) => {
                    proof {
                        lemma_occupied_update(self.grid(), i as int, None);
                        lemma_occupied_bounds(self.grid().update(i as int, None));
                    }
                    self.put(i, None);
                    self.sim_info.destroyed_last_frame = self.sim_info.destroyed_last_frame + 1;
                },
                ParticleChange::Unchanged => {},
            }
            i = i + 1;
        }
        proof {
            assert forall|i: int|
                0 <= i < s0.grid().len() && #[trigger] s0.grid()[i] is Some implies exists|d: Dice|
                    d.fits(s0.grid()[i]->Some_0) && #[trigger] stepped(
                        s0.grid()[i]->Some_0,
                        s0.window(offset_of(s0.w(), i)),
                        d,
                        self.grid()[i],
                    ) by {
                let p = s0.grid()[i]->Some_0;
                assert(change_fits(s0, i, changes@[i]));
                let d = choose|d: Dice|
                    d.fits(p) && #[trigger] realizes(p.rule(s0.window(offset_of(s0.w(), i)), d), changes@[i]);
                assert(stepped(p, s0.window(offset_of(s0.w(), i)), d, self.grid()[i]));
            }
        }
    }

    /// Advances the simulation by one tick: every particle asks for a move
    /// and, for each cell asked for, one request drawn at random is made if
    /// it still can be; liquid pressure is recomputed and deep bodies of
    /// liquid overflow; and every particle takes its next state.
    ///
    /// Particles disappear only through their local update: the count
    /// after the tick plus those destroyed equals the count before. The
    /// moves and the overflow only rearrange particles, so no particle is
    /// lost, doubled or made up; a cell then empty stays empty. Each move
    /// made is one its particle asked for, no cell takes part in two, and a
    /// particle only displaces a lighter one (or, moving fast, one that is
    /// not fully solid). After the moves each particle takes the state its
    /// rule gives on its window, for some chance draws. Each liquid cell's
    /// pressure is its depth below the top of its connected body of liquid.
    /// Every cell asked for is reached by one move, unless one of the
    /// particles asking for it is blocked in it or could not move because it
    /// or the cell took part in another move. Each overflow takes a liquid
    /// particle from the top row of its body of liquid to an empty cell
    /// right above a deep surface cell of the same body, no cell taking
    /// part twice, and cells left without liquid have no pressure. An empty
    /// grid stays empty, with no pressure anywhere.
    pub fn simulate_step(&mut self)
        requires
            old(self).wf(),
        ensures
            final(self).wf(),
            final(self).w() == old(self).w(),
            final(self).h() == old(self).h(),
            final(self).info_spec().particle_count + final(self).info_spec().destroyed_last_frame
                == old(self).info_spec().particle_count,
            exists|mid: Seq<Option<Particle>>|
                {
                    &&& #[trigger] mid.to_multiset() == old(self).grid().to_multiset()
                    &&& mid.len() == old(self).grid().len()
                    &&& forall|i: int| 0 <= i < mid.len() && #[trigger] mid[i] is None ==> final(self).grid()[i] is None
                },
            all_empty(old(self).grid()) ==> final(self).grid() == old(self).grid() && forall|i: int|
                0 <= i < final(self).pressures().len() ==> #[trigger] final(self).pressures()[i] == 0,
            exists|pairs: Seq<(int, int)>|
                {
                    &&& requested(old(self).grid(), old(self).w(), old(self).h(), pairs)
                    &&& density_ordered(old(self).grid(), pairs)
                    &&& progress(old(self).grid(), old(self).w(), old(self).h(), pairs)
                    &&& forall|i: int|
                        0 <= i < final(self).pressures().len() ==> if is_liquid(
                            #[trigger] swap_all(old(self).grid(), pairs)[i],
                        ) {
                            depth_in_region(
                                swap_all(old(self).grid(), pairs),
                                final(self).w(),
                                i,
                                final(self).pressures()[i] as int,
                            )
                        } else {
                            final(self).pressures()[i] == 0
                        }
                    &&& exists|mid: Seq<Option<Particle>>|
                        {
                            &&& #[trigger] mid.to_multiset() == swap_all(old(self).grid(), pairs).to_multiset()
                            &&& mid.len() == old(self).grid().len()
                            &&& exists|ov: Seq<(int, int)>|
                                {
                                    &&& disjoint(ov)
                                    &&& forall|q: int|
                                        0 <= q < ov.len() ==> overflow_entry(
                                            swap_all(old(self).grid(), pairs),
                                            old(self).w(),
                                            final(self).pressures(),
                                            (#[trigger] ov[q]).1,
                                            ov[q].0,
                                        )
                                    &&& mid == swap_all(swap_all(old(self).grid(), pairs), ov)
                                }
                            &&& forall|i: int|
                                0 <= i < mid.len() && !is_liquid(#[trigger] mid[i]) ==> final(self).pressures()[i]
                                    == 0
                            &&& forall|i: int|
                                0 <= i < mid.len() && #[trigger] mid[i] is None ==> final(self).grid()[i] is None
                            &&& forall|i: int|
                                0 <= i < mid.len() && (#[trigger] mid[i]) is Some ==> exists|d: Dice|
                                    d.fits(mid[i]->Some_0) && #[trigger] stepped(
                                        mid[i]->Some_0,
                                        window_in(mid, old(self).w(), old(self).h(), offset_of(old(self).w(), i)),
                                        d,
                                        final(self).grid()[i],
                                    )
                        }
                },
    {
        self.sim_info.moves_made_last_frame = 0;
        self.sim_info.destroyed_last_frame = 0;
        proof {
            assert(self.grid() =~= old(self).grid());
        }
        self.find_moves_multithreaded();
        let ghost g1 = self.grid();
        self.apply_moves();
        let ghost ga = self.grid();
        self.clear_moves();
        let ghost gb = self.grid();
        self.calculate_pressure();
        let ghost mid = self.grid();
        let ghost pr = self.pressures();
        self.update_inner_states();
        proof {
            assert(mid.to_multiset() == old(self).grid().to_multiset());
            assert(g1 == old(self).grid());
            let pairs = choose|pairs: Seq<(int, int)>|
                requested(g1, old(self).w(), old(self).h(), pairs) && density_ordered(g1, pairs)
                    && progress(g1, old(self).w(), old(self).h(), pairs) && ga == #[trigger] swap_all(
                    g1,
                    pairs,
                );
            assert(mid.to_multiset() == swap_all(old(self).grid(), pairs).to_multiset());
            assert forall|i: int| 0 <= i < gb.len() implies if is_liquid(#[trigger] gb[i]) {
                depth_in_region(gb, self.w(), i, self.pressures()[i] as int)
            } else {
                self.pressures()[i] == 0
            } by {
                assert(pr[i] == self.pressures()[i]);
            }
            if all_empty(old(self).grid()) {
                lemma_permuted_empty(mid, old(self).grid());
                lemma_permuted_empty(gb, old(self).grid());
                assert forall|i: int| 0 <= i < self.pressures().len() implies #[trigger] self.pressures()[i]
                    == 0 by {
                    assert(pr[i] == self.pressures()[i]);
                    assert(gb[i] is None);
                }
                assert forall|i: int| 0 <= i < self.grid().len() implies self.grid()[i] == old(
                    self,
                ).grid()[i] by {
                    assert(mid[i] is None);
                    assert(old(self).grid()[i] is None);
                }
                assert(self.grid() =~= old(self).grid());
            }
        }
    }
}


/// Where pixel `k` of a sprite `width` pixels wide lands when its top left
/// corner is put at `start`.
pub open spec fn pixel_pos(start: Offset, width: int, k: int) -> (int, int) {
    (start.x + k % width, start.y + k / width)
}

impl Simulation {
    /// The position `(x, y)` as an offset of the grid, when it is one.
    fn grid_offset(&self, x: i128, y: i128) -> (r: Option<Offset>)
        requires
            self.wf(),
        ensures
            match r {
                Some(o) => self.inside(o) && o.x == x && o.y == y,
                None => !(0 <= x < self.w() && 0 <= y < self.h()),
            },
    {
        if x >= 0 && y >= 0 && x < self.width as i128 && y < self.height as i128 {
            Some(Offset::new(x as i32, y as i32))
        } else {
            None
        }
    }

    /// Inserts a sprite with its top left corner at `start_offset`: each
    /// pixel's color is turned into a particle by `translate_fn`, which is
    /// added where the pixel lands on an empty cell of the grid. A particle
    /// that `translate_fn` made malformed is left out. Cells no pixel lands
    /// on, and cells that were occupied, keep their content.
    pub fn insert_sprite<F: Fn(u32) -> Particle>(
        &mut self,
        sprite: &Sprite,
        start_offset: &Offset,
        translate_fn: F,
    )
        requires
            old(self).wf(),
            forall|c: u32| #[trigger] translate_fn.requires((c,)),
        ensures
            final(self).wf(),
            final(self).w() == old(self).w(),
            final(self).h() == old(self).h(),
            final(self).pressures() == old(self).pressures(),
            final(self).grid().len() == old(self).grid().len(),
            forall|j: int|
                0 <= j < old(self).grid().len() && !lands_on(
                    old(self).w(),
                    old(self).h(),
                    *start_offset,
                    sprite.width as int,
                    sprite.pixels@.len() as int,
                    j,
                ) ==> #[trigger] final(self).grid()[j] == old(self).grid()[j],
            forall|j: int|
                0 <= j < old(self).grid().len() && (#[trigger] old(self).grid()[j]) is Some
                    ==> final(self).grid()[j] == old(self).grid()[j],
            sprite.width > 0 ==> forall|k: int|
                0 <= k < sprite.pixels@.len() ==> #[trigger] pixel_placed(
                    translate_fn,
                    old(self).grid(),
                    final(self).grid(),
                    old(self).w(),
                    old(self).h(),
                    *start_offset,
                    sprite.width as int,
                    sprite.pixels@[k],
                    k,
                ),
    {
        if sprite.width == 0 {
            return;
        }
        let ghost g0 = self.grid();
        let ghost w0 = self.w();
        let ghost h0 = self.h();
        let ghost wd = sprite.width as int;
        let ghost len = sprite.pixels@.len() as int;
        let w = sprite.width as usize;
        let mut i: usize = 0;
        while i < sprite.pixels.len()
            invariant
                self.wf(),
                forall|c: u32| #[trigger] translate_fn.requires((c,)),
                w == sprite.width,
                wd == w,
                w > 0,
                len == sprite.pixels@.len(),
                i <= len,
                w0 == self.w(),
                h0 == self.h(),
                self.w() == old(self).w(),
                self.h() == old(self).h(),
                self.pressures() == old(self).pressures(),
                self.grid().len() == g0.len(),
                g0 == old(self).grid(),
                forall|j: int|
                    0 <= j < g0.len() && !lands_on(w0, h0, *start_offset, wd, i as int, j)
                        ==> #[trigger] self.grid()[j] == g0[j],
                forall|j: int| 0 <= j < g0.len() && (#[trigger] g0[j]) is Some ==> self.grid()[j] == g0[j],
                forall|k: int|
                    0 <= k < i ==> #[trigger] pixel_placed(
                        translate_fn,
                        g0,
                        self.grid(),
                        w0,
                        h0,
                        *start_offset,
                        wd,
                        sprite.pixels@[k],
                        k,
                    ),
            decreases sprite.pixels.len() - i,
        {
            let color = sprite.pixels[i];
            let x = start_offset.x as i128 + (i % w) as i128;
            let y = start_offset.y as i128 + (i / w) as i128;
            assert(x == pixel_pos(*start_offset, wd, i as int).0);
            assert(y == pixel_pos(*start_offset, wd, i as int).1);
            let ghost before = self.grid();
            match self.grid_offset(x, y) {
                Some(o) => {
                    let ghost j = self.index(o);
                    proof {
                        lemma_index(self.w(), self.h(), o);
                        assert(landing(w0, h0, *start_offset, wd, i as int) == Some(j));
                        assert forall|k: int| 0 <= k < i implies landing(w0, h0, *start_offset, wd, k) != Some(j) by {
                            if landing(w0, h0, *start_offset, wd, k) is Some {
                                lemma_landing_injective(w0, h0, *start_offset, wd, k, i as int);
                            }
                        }
                        assert(!lands_on(w0, h0, *start_offset, wd, i as int, j));
                        assert(before[j] == g0[j]);
                    }
                    let p = translate_fn(color);
                    let valid = p.is_valid();
                    if valid {
                        let added = self.add_particle(&o, p);
                        proof {
                            if g0[j] is None {
                                assert(added);
                                assert(self.grid()[j] == Some(p));
                            }
                        }
                    }
                    proof {
                        assert forall|q: int| 0 <= q < g0.len() && q != j implies #[trigger] self.grid()[q] == before[q] by {}
                        assert forall|jj: int|
                            0 <= jj < g0.len() && !lands_on(w0, h0, *start_offset, wd, i + 1, jj)
                                implies #[trigger] self.grid()[jj] == g0[jj] by {
                            if jj != j {
                                assert(!lands_on(w0, h0, *start_offset, wd, i as int, jj)) by {
                                    if lands_on(w0, h0, *start_offset, wd, i as int, jj) {
                                        let k = choose|k: int| 0 <= k < i && #[trigger] landing(w0, h0, *start_offset, wd, k) == Some(jj);
                                        assert(landing(w0, h0, *start_offset, wd, k) == Some(jj));
                                    }
                                }
                            } else {
                                assert(landing(w0, h0, *start_offset, wd, i as int) == Some(j));
                            }
                        }
                        assert forall|k: int| 0 <= k < i + 1 implies #[trigger] pixel_placed(
                            translate_fn,
                            g0,
                            self.grid(),
                            w0,
                            h0,
                            *start_offset,
                            wd,
                            sprite.pixels@[k],
                            k,
                        ) by {
                            if k < i {
                                if let Some(jk) = landing(w0, h0, *start_offset, wd, k) {
                                    lemma_landing_injective(w0, h0, *start_offset, wd, k, i as int);
                                    assert(jk != j);
                                    assert(0 <= jk < g0.len()) by {
                                        let (xk, yk) = pixel_pos(*start_offset, wd, k);
                                        assert(0 <= yk * w0 + xk < w0 * h0) by (nonlinear_arith)
                                            requires
                                                0 <= xk < w0,
                                                0 <= yk < h0,
                                        ;
                                    }
                                    assert(self.grid()[jk] == before[jk]);
                                }
                                assert(pixel_placed(translate_fn, g0, before, w0, h0, *start_offset, wd, sprite.pixels@[k], k));
                            } else if g0[j] is None {
                                assert(color == sprite.pixels@[k]);
                                assert(translate_fn.ensures((color,), p));
                                if !valid {
                                    assert(self.grid()[j] == before[j]);
                                    assert(translate_fn.ensures((color,), p) && !p.wf());
                                } else {
                                    assert(self.grid()[j] == Some(p));
                                }
                                assert(placed(translate_fn, color, self.grid()[j]));
                            }
                        }
                    }
                },
                None => {
                    proof {
                        assert(landing(w0, h0, *start_offset, wd, i as int) is None);
                        assert forall|jj: int|
                            0 <= jj < g0.len() && !lands_on(w0, h0, *start_offset, wd, i + 1, jj)
                                implies #[trigger] self.grid()[jj] == g0[jj] by {
                            assert(!lands_on(w0, h0, *start_offset, wd, i as int, jj)) by {
                                if lands_on(w0, h0, *start_offset, wd, i as int, jj) {
                                    let k = choose|k: int| 0 <= k < i && #[trigger] landing(w0, h0, *start_offset, wd, k) == Some(jj);
                                    assert(landing(w0, h0, *start_offset, wd, k) == Some(jj));
                                }
                            }
                        }
                    }
                },
            }
            i = i + 1;
        }
    }
}

/// The cell, row by row, on which pixel `k` of a sprite `width` wide lands
/// when its top left corner is at `start`, if that is on a `w` x `h` grid.
pub open spec fn landing(w: int, h: int, start: Offset, width: int, k: int) -> Option<int> {
    let (x, y) = pixel_pos(start, width, k);
    if 0 <= x < w && 0 <= y < h {
        Some(y * w + x)
    } else {
        None
    }
}

/// Pixel `k`, of color `c`, landing on a cell that was empty in `before`,
/// left there what `placed` says.
pub open spec fn pixel_placed<F: Fn(u32) -> Particle>(
    f: F,
    before: Seq<Option<Particle>>,
    after: Seq<Option<Particle>>,
    w: int,
    h: int,
    start: Offset,
    width: int,
    c: u32,
    k: int,
) -> bool {
    match landing(w, h, start, width, k) {
        Some(j) => before[j] is None ==> placed(f, c, after[j]),
        None => true,
    }
}

/// One of the first `count` pixels lands on cell `j`.
pub open spec fn lands_on(w: int, h: int, start: Offset, width: int, count: int, j: int) -> bool {
    exists|k: int| 0 <= k < count && #[trigger] landing(w, h, start, width, k) == Some(j)
}

/// Cell content `cell` is what `f` made of color `c` when that particle is
/// well formed; otherwise the cell stayed empty.
pub open spec fn placed<F: Fn(u32) -> Particle>(f: F, c: u32, cell: Option<Particle>) -> bool {
    ||| cell matches Some(q) && f.ensures((c,), q) && q.wf()
    ||| cell is None && exists|q: Particle| f.ensures((c,), q) && !q.wf()
}

/// Two pixels of a sprite of positive width land on different cells.
pub proof fn lemma_landing_injective(w: int, h: int, start: Offset, width: int, k: int, l: int)
    requires
        width > 0,
        0 <= k,
        0 <= l,
        k != l,
        landing(w, h, start, width, k) is Some,
        landing(w, h, start, width, l) is Some,
    ensures
        landing(w, h, start, width, k) != landing(w, h, start, width, l),
{
    lemma_pixel_pos_injective(start, width, k, l);
    let (x1, y1) = pixel_pos(start, width, k);
    let (x2, y2) = pixel_pos(start, width, l);
    assert(y1 * w + x1 != y2 * w + x2) by (nonlinear_arith)
        requires
            0 <= x1 < w,
            0 <= x2 < w,
            x1 != x2 || y1 != y2,
    ;
}

/// Two pixels of a sprite of positive width land on different positions.
pub proof fn lemma_pixel_pos_injective(start: Offset, width: int, k: int, l: int)
    requires
        width > 0,
        0 <= k,
        0 <= l,
        k != l,
    ensures
        pixel_pos(start, width, k) != pixel_pos(start, width, l),
{
    assert(k % width != l % width || k / width != l / width) by (nonlinear_arith)
        requires
            width > 0,
            0 <= k,
            0 <= l,
            k != l,
    ;
}

} // verus!
