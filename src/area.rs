use rustc_hash::FxHashSet;
use vstd::prelude::*;

use crate::offset::Offset;

verus! {

/// Relies on `HashSet::insert` (with rustc-hash's deterministic hasher):
/// afterwards the set holds the key.
#[verifier::external_body]
fn set_insert(s: &mut FxHashSet<(i32, i32)>, k: (i32, i32))
    ensures
        final(s)@ == old(s)@.insert(k),
{
    s.insert(k);
}

/// Relies on `HashSet::contains` (with rustc-hash's deterministic hasher).
#[verifier::external_body]
fn set_contains(s: &FxHashSet<(i32, i32)>, k: (i32, i32)) -> (r: bool)
    ensures
        r == s@.contains(k),
{
    s.contains(&k)
}

/// Relies on `HashSet::iter`: each key of the set once, in some order.
#[verifier::external_body]
fn set_items(s: &FxHashSet<(i32, i32)>) -> (r: Vec<(i32, i32)>)
    ensures
        r@.to_set() == s@,
        r@.no_duplicates(),
{
    s.iter().copied().collect()
}

pub open spec fn key(o: Offset) -> (i32, i32) {
    (o.x, o.y)
}

pub open spec fn unkey(k: (i32, i32)) -> Offset {
    Offset { x: k.0, y: k.1 }
}

/// A set of offsets meant to form one connected region, with its topmost
/// row.
pub struct Area {
    offsets: FxHashSet<(i32, i32)>,
    /// The smallest `y` of the offsets (the grid's origin is the top left).
    highest_point: i32,
}

impl Area {
    /// The offsets of the area.
    pub closed spec fn members(&self) -> Set<Offset> {
        self.offsets@.map(|k: (i32, i32)| unkey(k))
    }

    pub closed spec fn top(&self) -> i32 {
        self.highest_point
    }

    /// The topmost row is the smallest `y` of the members, or `i32::MAX`
    /// for an empty area.
    pub open spec fn wf(&self) -> bool {
        &&& forall|o: Offset| #[trigger] self.members().contains(o) ==> self.top() <= o.y
        &&& (self.members().len() > 0 ==> exists|o: Offset|
            #[trigger] self.members().contains(o) && o.y == self.top())
        &&& (self.members().is_empty() ==> self.top() == i32::MAX)
        &&& self.members().finite()
    }

    pub fn new() -> (r: Area)
        ensures
            r.wf(),
            r.members() == Set::<Offset>::empty(),
    {
        let a = Area { offsets: FxHashSet::default(), highest_point: i32::MAX };
        assert(a.members() =~= Set::<Offset>::empty());
        a
    }

    pub fn add(&mut self, offset: Offset)
        requires
            old(self).wf(),
        ensures
            final(self).wf(),
            final(self).members() == old(self).members().insert(offset),
            final(self).top() == (if offset.y < old(self).top() {
                offset.y
            } else {
                old(self).top()
            }),
    {
        if offset.y < self.highest_point {
            self.highest_point = offset.y;
        }
        set_insert(&mut self.offsets, (offset.x, offset.y));
        proof {
            lemma_members_insert(old(self).offsets@, (offset.x, offset.y));
            assert(self.members() =~= old(self).members().insert(offset));
            if offset.y >= old(self).top() && old(self).members().len() > 0 {
                let w = choose|w: Offset|
                    #[trigger] old(self).members().contains(w) && w.y == old(self).top();
                assert(self.members().contains(w));
            } else {
                assert(self.members().contains(offset));
            }
        }
    }

    /// The offsets of the area, each once.
    pub fn iter(&self) -> (r: Vec<Offset>)
        ensures
            r@.to_set() == self.members(),
            r@.no_duplicates(),
    {
        let items = set_items(&self.offsets);
        let mut r: Vec<Offset> = Vec::new();
        let mut i: usize = 0;
        while i < items.len()
            invariant
                i <= items@.len(),
                r@ == items@.take(i as int).map_values(|k: (i32, i32)| unkey(k)),
            decreases items.len() - i,
        {
            r.push(Offset::new(items[i].0, items[i].1));
            proof {
                assert(items@.take(i + 1).map_values(|k: (i32, i32)| unkey(k)) =~= r@);
            }
            i = i + 1;
        }
        proof {
            assert(items@.take(i as int) =~= items@);
            lemma_unkey_seq(items@);
            assert(r@.to_set() =~= self.members());
        }
        r
    }

    /// Up, down, left or right of each other.
    pub fn are_neighbors(offset_a: &Offset, offset_b: &Offset) -> (r: bool)
        requires
            i32::MIN <= offset_a.x - offset_b.x <= i32::MAX,
            i32::MIN <= offset_a.y - offset_b.y <= i32::MAX,
        ensures
            r == ((offset_a.x == offset_b.x && (offset_a.y - offset_b.y == 1 || offset_b.y
                - offset_a.y == 1)) || (offset_a.y == offset_b.y && (offset_a.x - offset_b.x == 1
                || offset_b.x - offset_a.x == 1))),
    {
        let d = offset_a.sub(*offset_b);
        let dx = if d.x < 0 {
            -(d.x as i64)
        } else {
            d.x as i64
        };
        let dy = if d.y < 0 {
            -(d.y as i64)
        } else {
            d.y as i64
        };
        dx <= 1 && dy <= 1 && (d.x == 0 || d.y == 0) && !(d.x == 0 && d.y == 0)
    }

    /// How far below the area's topmost row the offset lies.
    pub fn depth(&self, offset: &Offset) -> (r: i32)
        requires
            i32::MIN <= offset.y - self.top() <= i32::MAX,
        ensures
            r == offset.y - self.top(),
    {
        offset.y - self.highest_point
    }

    /// The offsets of the topmost row, each once.
    pub fn get_heighest_offsets(&self) -> (r: Vec<Offset>)
        ensures
            r@.to_set() == self.members().filter(|o: Offset| o.y == self.top()),
            r@.no_duplicates(),
    {
        let all = self.iter();
        let ghost pred = |o: Offset| o.y == self.top();
        let mut flags: Vec<bool> = Vec::new();
        let mut i: usize = 0;
        while i < all.len()
            invariant
                i <= all@.len(),
                pred == (|o: Offset| o.y == self.top()),
                flags@.len() == i,
                forall|k: int| 0 <= k < i ==> #[trigger] flags@[k] == pred(all@[k]),
            decreases all.len() - i,
        {
            flags.push(all[i].y == self.highest_point);
            i = i + 1;
        }
        select(&all, &flags, Ghost(pred))
    }

    /// The offsets whose upper neighbor is not in the area, each once.
    pub fn get_top_edge_offsets(&self) -> (r: Vec<Offset>)
        requires
            forall|o: Offset| #[trigger] self.members().contains(o) ==> o.y > i32::MIN,
        ensures
            r@.to_set() == self.members().filter(
                |o: Offset| !self.members().contains(Offset { x: o.x, y: (o.y - 1) as i32 }),
            ),
            r@.no_duplicates(),
    {
        let all = self.iter();
        let ghost m = self.members();
        let ghost pred = |o: Offset| !m.contains(Offset { x: o.x, y: (o.y - 1) as i32 });
        let mut flags: Vec<bool> = Vec::new();
        let mut i: usize = 0;
        while i < all.len()
            invariant
                i <= all@.len(),
                m == self.members(),
                pred == (|o: Offset| !m.contains(Offset { x: o.x, y: (o.y - 1) as i32 })),
                all@.to_set() == m,
                forall|o: Offset| #[trigger] m.contains(o) ==> o.y > i32::MIN,
                flags@.len() == i,
                forall|k: int| 0 <= k < i ==> #[trigger] flags@[k] == pred(all@[k]),
            decreases all.len() - i,
        {
            let o = all[i];
            proof {
                assert(all@.to_set().contains(o));
                lemma_members_key(self.offsets@, Offset { x: o.x, y: (o.y - 1) as i32 });
            }
            flags.push(!set_contains(&self.offsets, (o.x, o.y - 1)));
            i = i + 1;
        }
        select(&all, &flags, Ghost(pred))
    }
}

proof fn lemma_members_insert(s: Set<(i32, i32)>, k: (i32, i32))
    ensures
        s.insert(k).map(|q: (i32, i32)| unkey(q)) =~= s.map(|q: (i32, i32)| unkey(q)).insert(
            unkey(k),
        ),
{
    let f = |q: (i32, i32)| unkey(q);
    assert forall|o: Offset| #[trigger] s.insert(k).map(f).contains(o) implies s.map(f).insert(
        unkey(k),
    ).contains(o) by {
        let q = choose|q: (i32, i32)| s.insert(k).contains(q) && f(q) == o;
        if q != k {
            assert(s.contains(q));
        }
    }
    assert forall|o: Offset| #[trigger] s.map(f).insert(unkey(k)).contains(o) implies s.insert(
        k,
    ).map(f).contains(o) by {
        if o == unkey(k) {
            assert(s.insert(k).contains(k));
        } else {
            let q = choose|q: (i32, i32)| s.contains(q) && f(q) == o;
            assert(s.insert(k).contains(q));
        }
    }
}

proof fn lemma_members_key(s: Set<(i32, i32)>, o: Offset)
    ensures
        s.map(|q: (i32, i32)| unkey(q)).contains(o) == s.contains(key(o)),
{
    let f = |q: (i32, i32)| unkey(q);
    if s.contains(key(o)) {
        assert(f(key(o)) == o);
    }
    if s.map(f).contains(o) {
        let q = choose|q: (i32, i32)| s.contains(q) && f(q) == o;
        assert(q == key(o));
    }
}

proof fn lemma_unkey_seq(items: Seq<(i32, i32)>)
    requires
        items.no_duplicates(),
    ensures
        items.map_values(|k: (i32, i32)| unkey(k)).to_set() =~= items.to_set().map(
            |k: (i32, i32)| unkey(k),
        ),
        items.map_values(|k: (i32, i32)| unkey(k)).no_duplicates(),
{
    let f = |k: (i32, i32)| unkey(k);
    let r = items.map_values(f);
    assert forall|o: Offset| #[trigger] r.to_set().contains(o) implies items.to_set().map(
        f,
    ).contains(o) by {
        let i = choose|i: int| 0 <= i < r.len() && r[i] == o;
        assert(items.to_set().contains(items[i]));
    }
    assert forall|o: Offset| #[trigger] items.to_set().map(f).contains(o) implies r.to_set().contains(
        o,
    ) by {
        let k = choose|k: (i32, i32)| items.to_set().contains(k) && f(k) == o;
        let i = choose|i: int| 0 <= i < items.len() && items[i] == k;
        assert(r[i] == o);
    }
    assert forall|i: int, j: int| 0 <= i < r.len() && 0 <= j < r.len() && i != j implies r[i]
        != r[j] by {
        assert(items[i] != items[j]);
    }
}

/// The offsets of `v` whose flag is set, in order.
fn select(v: &Vec<Offset>, flags: &Vec<bool>, pred: Ghost<spec_fn(Offset) -> bool>) -> (r: Vec<
    Offset,
>)
    requires
        v@.no_duplicates(),
        flags@.len() == v@.len(),
        forall|k: int| 0 <= k < v@.len() ==> #[trigger] flags@[k] == pred@(v@[k]),
    ensures
        r@.to_set() == v@.to_set().filter(pred@),
        r@.no_duplicates(),
{
    let mut r: Vec<Offset> = Vec::new();
    let mut i: usize = 0;
    while i < v.len()
        invariant
            i <= v@.len(),
            v@.no_duplicates(),
            flags@.len() == v@.len(),
            forall|k: int| 0 <= k < v@.len() ==> #[trigger] flags@[k] == pred@(v@[k]),
            r@.no_duplicates(),
            forall|o: Offset| #[trigger]
                r@.contains(o) <==> (v@.take(i as int).contains(o) && pred@(o)),
        decreases v.len() - i,
    {
        let o = v[i];
        let ghost r0 = r@;
        if flags[i] {
            proof {
                assert(!r@.contains(o)) by {
                    if r@.contains(o) {
                        let t0 = v@.take(i as int);
                        let j = choose|j: int| 0 <= j < t0.len() && #[trigger] t0[j] == o;
                        assert(v@[j] == v@[i as int]);
                    }
                }
            }
            r.push(o);
        }
        proof {
            let t0 = v@.take(i as int);
            let t1 = v@.take(i + 1);
            assert(t1 =~= t0.push(o));
            assert forall|q: Offset| #[trigger] r@.contains(q) <==> (t1.contains(q) && pred@(q)) by {
                if r@.contains(q) {
                    let j = choose|j: int| 0 <= j < r@.len() && #[trigger] r@[j] == q;
                    if j < r0.len() {
                        assert(r0[j] == q);
                        assert(r0.contains(q));
                        let k = choose|k: int| 0 <= k < t0.len() && #[trigger] t0[k] == q;
                        assert(t1[k] == q);
                    } else {
                        assert(q == o);
                        assert(t1[i as int] == q);
                    }
                }
                if t1.contains(q) && pred@(q) {
                    let k = choose|k: int| 0 <= k < t1.len() && #[trigger] t1[k] == q;
                    if k < i {
                        assert(t0[k] == q);
                        assert(t0.contains(q));
                        assert(r0.contains(q));
                        let j = choose|j: int| 0 <= j < r0.len() && #[trigger] r0[j] == q;
                        assert(r@[j] == q);
                    } else {
                        assert(q == o);
                        assert(r@[r@.len() - 1] == q);
                    }
                }
            }
        }
        i = i + 1;
    }
    proof {
        assert(v@.take(i as int) =~= v@);
        assert(r@.to_set() =~= v@.to_set().filter(pred@));
    }
    r
}

} // verus!
