//! 4-connected regions of liquid cells, as walks from cell to adjacent cell.
use vstd::prelude::*;

use crate::grid::{index_of, lemma_index, lemma_offset, offset_of, within, MAX_SIDE};
use crate::offset::Offset;
use crate::particles::{MatterType, Particle};

verus! {

/// The cell holds a liquid.
pub open spec fn is_liquid(c: Option<Particle>) -> bool {
    c matches Some(p) && p.matter_spec() == MatterType::Liquid
}

/// Number of cells not yet visited.
pub open spec fn unmarked(v: Seq<bool>) -> int
    decreases v.len(),
{
    if v.len() == 0 {
        0
    } else {
        unmarked(v.drop_last()) + if v.last() {
            0int
        } else {
            1int
        }
    }
}

pub proof fn lemma_unmarked_mark(v: Seq<bool>, i: int)
    requires
        0 <= i < v.len(),
        !v[i],
    ensures
        unmarked(v.update(i, true)) == unmarked(v) - 1,
    decreases v.len(),
{
    if i < v.len() - 1 {
        assert(v.update(i, true).drop_last() =~= v.drop_last().update(i, true));
        lemma_unmarked_mark(v.drop_last(), i);
    } else {
        assert(v.update(i, true).drop_last() =~= v.drop_last());
    }
}

pub proof fn lemma_unmarked_nonneg(v: Seq<bool>)
    ensures
        unmarked(v) >= 0,
    decreases v.len(),
{
    if v.len() > 0 {
        lemma_unmarked_nonneg(v.drop_last());
    }
}

/// Row of cell `i` on a grid `w` wide.
pub open spec fn row_of(w: int, i: int) -> int {
    offset_of(w, i).y as int
}

/// Cells `i` and `j` are next to each other: up, down, left or right.
pub open spec fn adjacent(w: int, i: int, j: int) -> bool {
    let a = offset_of(w, i);
    let b = offset_of(w, j);
    (a.x == b.x && (a.y == b.y + 1 || b.y == a.y + 1)) || (a.y == b.y && (a.x == b.x + 1 || b.x
        == a.x + 1))
}

/// Step `k` of the walk `p` goes to an adjacent cell.
pub open spec fn linked(w: int, p: Seq<int>, k: int) -> bool {
    adjacent(w, p[k], p[k + 1])
}

/// `p` walks through liquid cells of `g`, each step to an adjacent cell.
pub open spec fn liquid_path(g: Seq<Option<Particle>>, w: int, p: Seq<int>) -> bool {
    &&& p.len() > 0
    &&& forall|k: int| 0 <= k < p.len() ==> 0 <= #[trigger] p[k] < g.len() && is_liquid(g[p[k]])
    &&& forall|k: int| 0 <= k < p.len() - 1 ==> #[trigger] linked(w, p, k)
}

/// Cells `i` and `j` lie in one 4-connected region of liquid.
pub open spec fn connected(g: Seq<Option<Particle>>, w: int, i: int, j: int) -> bool {
    exists|p: Seq<int>| #[trigger] liquid_path(g, w, p) && p[0] == i && p.last() == j
}

/// The pressure `v` of the liquid cell `i` is its depth below the top row
/// of its region: some cell of the region lies on row `row - v`, and none
/// higher.
pub open spec fn depth_in_region(g: Seq<Option<Particle>>, w: int, i: int, v: int) -> bool {
    &&& exists|m: int| #[trigger] connected(g, w, i, m) && row_of(w, m) == row_of(w, i) - v
    &&& forall|m: int| #[trigger] connected(g, w, i, m) ==> row_of(w, m) >= row_of(w, i) - v
}

/// Every marked cell's liquid neighbors are marked too.
pub open spec fn closed(g: Seq<Option<Particle>>, w: int, v: Seq<bool>) -> bool {
    forall|j: int, k: int|
        0 <= j < g.len() && 0 <= k < g.len() && #[trigger] v[j] && #[trigger] adjacent(w, j, k)
            && is_liquid(g[k]) ==> v[k]
}

pub proof fn lemma_connected_liquid(g: Seq<Option<Particle>>, w: int, i: int, j: int)
    requires
        connected(g, w, i, j),
    ensures
        0 <= j < g.len(),
        is_liquid(g[j]),
{
    let p = choose|p: Seq<int>| #[trigger] liquid_path(g, w, p) && p[0] == i && p.last() == j;
    assert(p[p.len() - 1] == j);
}

pub proof fn lemma_connected_self(g: Seq<Option<Particle>>, w: int, i: int)
    requires
        0 <= i < g.len(),
        is_liquid(g[i]),
    ensures
        connected(g, w, i, i),
{
    let p = seq![i];
    assert(liquid_path(g, w, p));
}

pub proof fn lemma_connected_step(g: Seq<Option<Particle>>, w: int, i: int, j: int, k: int)
    requires
        connected(g, w, i, j),
        adjacent(w, j, k),
        0 <= k < g.len(),
        is_liquid(g[k]),
    ensures
        connected(g, w, i, k),
{
    let p = choose|p: Seq<int>| #[trigger] liquid_path(g, w, p) && p[0] == i && p.last() == j;
    let q = p.push(k);
    assert forall|t: int| 0 <= t < q.len() - 1 implies #[trigger] linked(w, q, t) by {
        if t < p.len() - 1 {
            assert(linked(w, p, t));
        }
    }
    assert(liquid_path(g, w, q));
}

pub proof fn lemma_connected_sym(g: Seq<Option<Particle>>, w: int, i: int, j: int)
    requires
        connected(g, w, i, j),
    ensures
        connected(g, w, j, i),
{
    let p = choose|p: Seq<int>| #[trigger] liquid_path(g, w, p) && p[0] == i && p.last() == j;
    let q = p.reverse();
    assert forall|t: int| 0 <= t < q.len() implies 0 <= #[trigger] q[t] < g.len() && is_liquid(
        g[q[t]],
    ) by {
        assert(q[t] == p[p.len() - 1 - t]);
    }
    assert forall|t: int| 0 <= t < q.len() - 1 implies #[trigger] linked(w, q, t) by {
        let s = p.len() - 2 - t;
        assert(linked(w, p, s));
        assert(q[t] == p[s + 1]);
        assert(q[t + 1] == p[s]);
    }
    assert(liquid_path(g, w, q));
}

pub proof fn lemma_connected_trans(g: Seq<Option<Particle>>, w: int, i: int, j: int, k: int)
    requires
        connected(g, w, i, j),
        connected(g, w, j, k),
    ensures
        connected(g, w, i, k),
{
    let p = choose|p: Seq<int>| #[trigger] liquid_path(g, w, p) && p[0] == i && p.last() == j;
    let q = choose|q: Seq<int>| #[trigger] liquid_path(g, w, q) && q[0] == j && q.last() == k;
    let r = p + q.drop_first();
    assert forall|t: int| 0 <= t < r.len() implies 0 <= #[trigger] r[t] < g.len() && is_liquid(
        g[r[t]],
    ) by {
        if t >= p.len() {
            assert(r[t] == q[t - p.len() + 1]);
        }
    }
    assert forall|t: int| 0 <= t < r.len() - 1 implies #[trigger] linked(w, r, t) by {
        if t < p.len() - 1 {
            assert(linked(w, p, t));
        } else if t == p.len() - 1 {
            assert(linked(w, q, 0));
            assert(r[t] == q[0]);
            assert(r[t + 1] == q[1]);
        } else {
            let s = t - p.len() + 1;
            assert(linked(w, q, s));
            assert(r[t] == q[s]);
            assert(r[t + 1] == q[s + 1]);
        }
    }
    assert(liquid_path(g, w, r));
    assert(r.last() == k);
}

/// A walk that starts in a closed set of cells stays in it.
pub proof fn lemma_closed_path(g: Seq<Option<Particle>>, w: int, v: Seq<bool>, p: Seq<int>)
    requires
        v.len() == g.len(),
        closed(g, w, v),
        liquid_path(g, w, p),
        v[p[0]],
    ensures
        v[p.last()],
    decreases p.len(),
{
    if p.len() > 1 {
        let q = p.drop_last();
        assert forall|t: int| 0 <= t < q.len() - 1 implies #[trigger] linked(w, q, t) by {
            assert(linked(w, p, t));
        }
        assert(liquid_path(g, w, q));
        lemma_closed_path(g, w, v, q);
        let t = p.len() - 2;
        assert(linked(w, p, t));
        assert(v[p[t]] && adjacent(w, p[t], p[t + 1]));
    }
}

pub proof fn lemma_connected_closed(g: Seq<Option<Particle>>, w: int, v: Seq<bool>, i: int, j: int)
    requires
        v.len() == g.len(),
        closed(g, w, v),
        connected(g, w, i, j),
        v[i],
    ensures
        v[j],
{
    let p = choose|p: Seq<int>| #[trigger] liquid_path(g, w, p) && p[0] == i && p.last() == j;
    lemma_closed_path(g, w, v, p);
}

/// The `d`-th neighbor of cell `j`, if any, is marked when it is liquid.
pub open spec fn neighbor_done(
    g: Seq<Option<Particle>>,
    w: int,
    h: int,
    v: Seq<bool>,
    j: int,
    d: int,
) -> bool {
    match neighbor_spec(w, h, j, d) {
        Some(k) => is_liquid(g[k]) ==> v[k],
        None => true,
    }
}

/// The `d`-th neighbor of cell `j` (up, down, left, right), when on the grid.
pub open spec fn neighbor_spec(w: int, h: int, j: int, d: int) -> Option<int> {
    let o = offset_of(w, j);
    let q = if d == 0 {
        Offset { x: o.x, y: (o.y - 1) as i32 }
    } else if d == 1 {
        Offset { x: o.x, y: (o.y + 1) as i32 }
    } else if d == 2 {
        Offset { x: (o.x - 1) as i32, y: o.y }
    } else {
        Offset { x: (o.x + 1) as i32, y: o.y }
    };
    if within(w, h, q) {
        Some(index_of(w, q))
    } else {
        None
    }
}

pub proof fn lemma_neighbor_adjacent(w: int, h: int, j: int, d: int)
    requires
        0 <= w <= MAX_SIDE,
        0 <= h <= MAX_SIDE,
        0 <= j < w * h,
    ensures
        neighbor_spec(w, h, j, d) matches Some(k) ==> 0 <= k < w * h && adjacent(w, j, k),
{
    lemma_offset(w, h, j);
    if let Some(k) = neighbor_spec(w, h, j, d) {
        let o = offset_of(w, j);
        let q = if d == 0 {
            Offset { x: o.x, y: (o.y - 1) as i32 }
        } else if d == 1 {
            Offset { x: o.x, y: (o.y + 1) as i32 }
        } else if d == 2 {
            Offset { x: (o.x - 1) as i32, y: o.y }
        } else {
            Offset { x: (o.x + 1) as i32, y: o.y }
        };
        lemma_index(w, h, q);
    }
}

pub proof fn lemma_adjacent_neighbor(w: int, h: int, j: int, k: int)
    requires
        0 <= w <= MAX_SIDE,
        0 <= h <= MAX_SIDE,
        0 <= j < w * h,
        0 <= k < w * h,
        adjacent(w, j, k),
    ensures
        exists|d: int| 0 <= d < 4 && #[trigger] neighbor_spec(w, h, j, d) == Some(k),
{
    lemma_offset(w, h, j);
    lemma_offset(w, h, k);
    let a = offset_of(w, j);
    let b = offset_of(w, k);
    if a.x == b.x && b.y == a.y - 1 {
        assert(neighbor_spec(w, h, j, 0) == Some(k));
    } else if a.x == b.x && b.y == a.y + 1 {
        assert(neighbor_spec(w, h, j, 1) == Some(k));
    } else if a.y == b.y && b.x == a.x - 1 {
        assert(neighbor_spec(w, h, j, 2) == Some(k));
    } else {
        assert(neighbor_spec(w, h, j, 3) == Some(k));
    }
}

} // verus!
