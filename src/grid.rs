//! Cells of a `w` x `h` grid addressed row by row, and what exchanging
//! cells does to the particles they hold.
use vstd::prelude::*;

use crate::offset::Offset;
use crate::particles::Particle;

verus! {

/// Largest width or height of a grid, so that positions and the steps
/// taken from them fit in `i32`.
pub const MAX_SIDE: usize = 0x100_0000;

/// 1 for an occupied cell, 0 for an empty one.
pub open spec fn ind(c: Option<Particle>) -> int {
    if c is Some {
        1
    } else {
        0
    }
}

/// Number of occupied cells.
pub open spec fn occupied(g: Seq<Option<Particle>>) -> int
    decreases g.len(),
{
    if g.len() == 0 {
        0
    } else {
        occupied(g.drop_last()) + ind(g.last())
    }
}

pub proof fn lemma_occupied_bounds(g: Seq<Option<Particle>>)
    ensures
        0 <= occupied(g) <= g.len(),
        (forall|i: int| 0 <= i < g.len() ==> g[i] is None) ==> occupied(g) == 0,
    decreases g.len(),
{
    if g.len() > 0 {
        lemma_occupied_bounds(g.drop_last());
        if forall|i: int| 0 <= i < g.len() ==> g[i] is None {
            assert forall|i: int| 0 <= i < g.drop_last().len() implies g.drop_last()[i] is None by {
                assert(g[i] is None);
            }
        }
    }
}

pub proof fn lemma_occupied_update(g: Seq<Option<Particle>>, i: int, v: Option<Particle>)
    requires
        0 <= i < g.len(),
    ensures
        occupied(g.update(i, v)) == occupied(g) - ind(g[i]) + ind(v),
    decreases g.len(),
{
    if i < g.len() - 1 {
        assert(g.update(i, v).drop_last() =~= g.drop_last().update(i, v));
        lemma_occupied_update(g.drop_last(), i, v);
    } else {
        assert(g.update(i, v).drop_last() =~= g.drop_last());
    }
}

/// Exchanging two cells keeps the particles, as a multiset, and their number.
pub proof fn lemma_swap_keeps(g: Seq<Option<Particle>>, i: int, j: int)
    requires
        0 <= i < g.len(),
        0 <= j < g.len(),
    ensures
        g.update(i, g[j]).update(j, g[i]).to_multiset() == g.to_multiset(),
        occupied(g.update(i, g[j]).update(j, g[i])) == occupied(g),
{
    broadcast use vstd::seq_lib::to_multiset_update;
    broadcast use vstd::multiset::group_multiset_axioms;

    let g1 = g.update(i, g[j]);
    lemma_occupied_update(g, i, g[j]);
    lemma_occupied_update(g1, j, g[i]);
    if i != j {
        assert(g1[j] == g[j]);
        assert(g.contains(g[i]));
        assert(g.contains(g[j]));
        vstd::seq_lib::to_multiset_contains(g, g[i]);
        vstd::seq_lib::to_multiset_contains(g, g[j]);
        assert(g1.update(j, g[i]).to_multiset() =~= g.to_multiset().insert(g[j]).remove(
            g[i],
        ).insert(g[i]).remove(g[j]));
        assert(g.to_multiset().insert(g[j]).remove(g[i]).insert(g[i]).remove(g[j])
            =~= g.to_multiset());
    } else {
        assert(g.update(i, g[j]).update(j, g[i]) =~= g);
    }
}

/// The position lies on a grid of the given size.
pub open spec fn within(w: int, h: int, o: Offset) -> bool {
    0 <= o.x < w && 0 <= o.y < h
}

/// Row-major index of a position.
pub open spec fn index_of(w: int, o: Offset) -> int {
    o.y * w + o.x
}

/// Position of a row-major index.
pub open spec fn offset_of(w: int, i: int) -> Offset {
    Offset { x: (i % w) as i32, y: (i / w) as i32 }
}

pub proof fn lemma_index(w: int, h: int, o: Offset)
    requires
        within(w, h, o),
    ensures
        0 <= index_of(w, o) < w * h,
        offset_of(w, index_of(w, o)) == o,
{
    let i = index_of(w, o);
    assert(0 <= i < w * h && i / w == o.y as int && i % w == o.x as int) by (nonlinear_arith)
        requires
            i == o.y * w + o.x,
            0 <= o.x < w,
            0 <= o.y < h,
    ;
}

pub proof fn lemma_offset(w: int, h: int, i: int)
    requires
        0 <= i < w * h,
        0 <= w <= MAX_SIDE,
        0 <= h <= MAX_SIDE,
    ensures
        0 < w,
        0 < h,
        within(w, h, offset_of(w, i)),
        index_of(w, offset_of(w, i)) == i,
{
    lemma_nonempty(w, h, i);
    assert(0 <= i % w < w && 0 <= i / w < h && (i / w) * w + i % w == i) by (nonlinear_arith)
        requires
            0 <= i < w * h,
            0 < w,
            0 < h,
    ;
}

/// A grid with a cell has both sides positive.
pub proof fn lemma_nonempty(w: int, h: int, i: int)
    requires
        0 <= i < w * h,
        0 <= w,
        0 <= h,
    ensures
        0 < w,
        0 < h,
{
    assert(0 < w && 0 < h) by (nonlinear_arith)
        requires
            0 <= i < w * h,
            0 <= w,
            0 <= h,
    ;
}

/// True if the offset lies on a `width` x `height` grid.
pub fn is_within(width: usize, height: usize, offset: &Offset) -> (r: bool)
    requires
        width <= MAX_SIDE,
        height <= MAX_SIDE,
    ensures
        r == within(width as int, height as int, *offset),
{
    offset.x >= 0 && offset.y >= 0 && offset.x < width as i32 && offset.y < height as i32
}

/// Row-major index of a position on a grid `width` wide.
pub fn offset_to_index(width: usize, height: usize, offset: &Offset) -> (r: usize)
    requires
        width <= MAX_SIDE,
        height <= MAX_SIDE,
        width * height <= usize::MAX,
        within(width as int, height as int, *offset),
    ensures
        r == index_of(width as int, *offset),
        r < width * height,
{
    proof {
        lemma_index(width as int, height as int, *offset);
    }
    let y = offset.y as usize;
    let x = offset.x as usize;
    y * width + x
}

/// Position of a row-major index on a grid `width` wide.
pub fn index_to_offset(width: usize, height: usize, index: usize) -> (r: Offset)
    requires
        width <= MAX_SIDE,
        height <= MAX_SIDE,
        index < width * height,
    ensures
        r == offset_of(width as int, index as int),
        within(width as int, height as int, r),
        index_of(width as int, r) == index,
{
    proof {
        lemma_offset(width as int, height as int, index as int);
    }
    let y = index / width;
    let x = index % width;
    Offset::new(x as i32, y as i32)
}

/// The grid with cells `i` and `j` exchanged.
pub open spec fn swapped(g: Seq<Option<Particle>>, i: int, j: int) -> Seq<Option<Particle>> {
    g.update(i, g[j]).update(j, g[i])
}

/// The grid after exchanging the cells of each pair, in order.
pub open spec fn swap_all(g: Seq<Option<Particle>>, pairs: Seq<(int, int)>) -> Seq<Option<Particle>>
    decreases pairs.len(),
{
    if pairs.len() == 0 {
        g
    } else {
        let q = pairs.last();
        swapped(swap_all(g, pairs.drop_last()), q.0, q.1)
    }
}

/// The cell takes part in one of the exchanges.
pub open spec fn in_pairs(pairs: Seq<(int, int)>, x: int) -> bool {
    exists|k: int| 0 <= k < pairs.len() && (#[trigger] pairs[k].0 == x || pairs[k].1 == x)
}

/// Cells that take part in no exchange keep their content.
pub proof fn lemma_swap_all_untouched(g: Seq<Option<Particle>>, pairs: Seq<(int, int)>, x: int)
    requires
        0 <= x < g.len(),
        !in_pairs(pairs, x),
        forall|q: int| 0 <= q < pairs.len() ==> 0 <= (#[trigger] pairs[q]).0 < g.len() && 0 <= pairs[q].1 < g.len(),
    ensures
        swap_all(g, pairs)[x] == g[x],
        swap_all(g, pairs).len() == g.len(),
    decreases pairs.len(),
{
    if pairs.len() > 0 {
        let rest = pairs.drop_last();
        assert(!in_pairs(rest, x)) by {
            if in_pairs(rest, x) {
                let q = choose|q: int| 0 <= q < rest.len() && (#[trigger] rest[q].0 == x || rest[q].1 == x);
                assert(pairs[q].0 == rest[q].0 && pairs[q].1 == rest[q].1);
            }
        }
        let last = pairs.len() - 1;
        assert(pairs[last].0 != x && pairs[last].1 != x) by {
            if pairs[last].0 == x || pairs[last].1 == x {
                assert(in_pairs(pairs, x));
            }
        }
        assert forall|q: int| 0 <= q < rest.len() implies 0 <= (#[trigger] rest[q]).0 < g.len() && 0
            <= rest[q].1 < g.len() by {
            assert(rest[q] == pairs[q]);
        }
        lemma_swap_all_untouched(g, rest, x);
    }
}

/// Every cell of the sequence is empty.
pub open spec fn all_empty(g: Seq<Option<Particle>>) -> bool {
    forall|i: int| 0 <= i < g.len() ==> #[trigger] g[i] is None
}

/// A rearrangement of an empty grid is empty.
pub proof fn lemma_permuted_empty(s: Seq<Option<Particle>>, t: Seq<Option<Particle>>)
    requires
        s.to_multiset() == t.to_multiset(),
        all_empty(t),
    ensures
        all_empty(s),
{
    assert forall|i: int| 0 <= i < s.len() implies #[trigger] s[i] is None by {
        assert(s.contains(s[i]));
        vstd::seq_lib::to_multiset_contains(s, s[i]);
        vstd::seq_lib::to_multiset_contains(t, s[i]);
        let j = choose|j: int| 0 <= j < t.len() && t[j] == s[i];
        assert(t[j] is None);
    }
}

} // verus!
