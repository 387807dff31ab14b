//! Grid-set operations behind rigid-body pixel overlays: 8-neighbour dilation and erosion, their
//! closing, 4-connected reachability from seeds, and the search for an empty cell above a body.
use vstd::prelude::*;
use std::collections::HashSet;

use crate::cell64::Cell;
use crate::world::geom::{lemma_point_key_roundtrip, point_key, point_key_of, Vec2i};
use crate::world::material;
use crate::world::state::World;

verus! {

broadcast use vstd::std_specs::hash::group_hash_axioms;

/// A finite set of grid points: the points in insertion order, without repeats, and a hash index
/// of their keys.
pub struct PointSet {
    pts: Vec<Vec2i>,
    index: HashSet<u64>,
}

/// Coordinates stay one step inside the `i32` range, so every 8-neighbour is representable.
pub open spec fn inner_point(p: Vec2i) -> bool {
    i32::MIN < p.x < i32::MAX && i32::MIN < p.y < i32::MAX
}

impl PointSet {
    /// The points, in insertion order.
    pub closed spec fn list(&self) -> Seq<Vec2i> {
        self.pts@
    }

    /// The set of points.
    pub open spec fn view_set(&self) -> Set<Vec2i> {
        self.list().to_set()
    }

    pub closed spec fn wf(&self) -> bool {
        &&& self.pts@.no_duplicates()
        &&& forall|k: u64| #[trigger] self.index@.contains(k) <==> exists|i: int| 0 <= i < self.pts@.len() && point_key(self.pts@[i]) == k
    }

    /// The list holds each point of the set once.
    pub proof fn lemma_len(&self)
        requires self.wf(),
        ensures self.list().len() == self.view_set().len(), self.view_set().finite(),
    {
        self.pts@.unique_seq_to_set();
    }

    /// No point occurs twice in the list.
    pub proof fn lemma_distinct(&self)
        requires self.wf(),
        ensures self.list().no_duplicates(),
    {
    }

    pub fn new() -> (s: Self)
        ensures s.wf(), s.list() == Seq::<Vec2i>::empty(),
    {
        PointSet { pts: Vec::new(), index: HashSet::new() }
    }

    pub fn len(&self) -> (n: usize)
        ensures n == self.list().len(),
    {
        self.pts.len()
    }

    pub fn is_empty(&self) -> (b: bool)
        ensures b == (self.list().len() == 0),
    {
        self.pts.len() == 0
    }

    /// The `i`-th point in insertion order.
    pub fn get(&self, i: usize) -> (p: Vec2i)
        requires i < self.list().len(),
        ensures p == self.list()[i as int],
    {
        self.pts[i]
    }

    pub fn contains(&self, p: Vec2i) -> (b: bool)
        requires self.wf(),
        ensures b == self.view_set().contains(p),
    {
        let k = point_key_of(p);
        let b = self.index.contains(&k);
        proof {
            lemma_point_key_roundtrip(p, k);
            if b {
                let i = choose|i: int| 0 <= i < self.pts@.len() && point_key(self.pts@[i]) == k;
                lemma_point_key_roundtrip(self.pts@[i], k);
                assert(self.pts@[i] == p);
                assert(self.pts@.contains(p));
            }
            if self.pts@.contains(p) {
                let i = choose|i: int| 0 <= i < self.pts@.len() && self.pts@[i] == p;
                assert(point_key(self.pts@[i]) == k);
            }
        }
        b
    }

    /// Adds `p`; returns whether it was new.
    pub fn insert(&mut self, p: Vec2i) -> (added: bool)
        requires old(self).wf(),
        ensures
            final(self).wf(),
            added == !old(self).view_set().contains(p),
            added ==> final(self).list() == old(self).list().push(p),
            !added ==> final(self).list() == old(self).list(),
            final(self).view_set() == old(self).view_set().insert(p),
    {
        if self.contains(p) {
            proof { assert(self.view_set() =~= old(self).view_set().insert(p)); }
            return false;
        }
        let k = point_key_of(p);
        let ghost old_pts = self.pts@;
        self.pts.push(p);
        self.index.insert(k);
        proof {
            lemma_point_key_roundtrip(p, k);
            assert forall|kk: u64| #[trigger] self.index@.contains(kk) <==> exists|i: int| 0 <= i < self.pts@.len() && point_key(self.pts@[i]) == kk by {
                if self.index@.contains(kk) && kk != k {
                    let i = choose|i: int| 0 <= i < old_pts.len() && point_key(old_pts[i]) == kk;
                    assert(self.pts@[i] == old_pts[i]);
                }
                if kk == k {
                    assert(self.pts@[old_pts.len() as int] == p);
                }
                if exists|i: int| 0 <= i < self.pts@.len() && point_key(self.pts@[i]) == kk {
                    let i = choose|i: int| 0 <= i < self.pts@.len() && point_key(self.pts@[i]) == kk;
                    if i < old_pts.len() {
                        assert(self.pts@[i] == old_pts[i]);
                    }
                }
            }
            assert(!old_pts.contains(p));
            assert(self.pts@.no_duplicates()) by {
                assert forall|i: int, j: int| 0 <= i < j < self.pts@.len() implies self.pts@[i] != self.pts@[j] by {
                    if j == old_pts.len() {
                        assert(old_pts[i] == self.pts@[i]);
                    }
                }
            }
            assert(self.view_set() =~= old(self).view_set().insert(p)) by {
                assert forall|q: Vec2i| self.view_set().contains(q) <==> old(self).view_set().insert(p).contains(q) by {
                    if self.pts@.contains(q) && q != p {
                        let i = choose|i: int| 0 <= i < self.pts@.len() && self.pts@[i] == q;
                        assert(old_pts[i] == q);
                    }
                    if old_pts.contains(q) {
                        let i = choose|i: int| 0 <= i < old_pts.len() && old_pts[i] == q;
                        assert(self.pts@[i] == q);
                    }
                    if q == p {
                        assert(self.pts@[old_pts.len() as int] == p);
                    }
                }
            }
        }
        true
    }
}

/// `q` is within one step of `p` on both axes (Chebyshev distance at most 1).
pub open spec fn near8(p: Vec2i, q: Vec2i) -> bool {
    -1 <= q.x - p.x <= 1 && -1 <= q.y - p.y <= 1
}

/// Dilation of `s` by the 3×3 square: every point within one step of a point of `s`.
pub open spec fn dilated(s: Set<Vec2i>) -> Set<Vec2i> {
    Set::new(|q: Vec2i| exists|p: Vec2i| s.contains(p) && near8(p, q))
}

/// Erosion of `s` by the 3×3 square: the points of `s` whose whole 3×3 neighbourhood is in `s`.
pub open spec fn eroded(s: Set<Vec2i>) -> Set<Vec2i> {
    Set::new(|p: Vec2i| s.contains(p) && forall|q: Vec2i| near8(p, q) ==> #[trigger] s.contains(q))
}

/// Closing never loses a point: every point of `s` survives the dilation and erosion.
pub proof fn lemma_closing_keeps_points(s: Set<Vec2i>, p: Vec2i)
    requires s.contains(p),
    ensures eroded(dilated(s)).contains(p),
{
    assert(dilated(s).contains(p)) by {
        assert(near8(p, p));
    }
    assert forall|q: Vec2i| near8(p, q) implies #[trigger] dilated(s).contains(q) by {
        assert(s.contains(p) && near8(p, q));
    }
}

/// Offset `i` (row-major) of the 3×3 square.
pub open spec fn square_offset(i: int) -> (int, int) {
    (i % 3 - 1, i / 3 - 1)
}

/// 8-neighbourhood dilation.
pub fn dilate_8(keys: &PointSet) -> (out: PointSet)
    requires
        keys.wf(),
        forall|p: Vec2i| #[trigger] keys.view_set().contains(p) ==> inner_point(p),
    ensures
        out.wf(),
        out.view_set() == dilated(keys.view_set()),
{
    let mut out = PointSet::new();
    let mut i: usize = 0;
    while i < keys.len()
        invariant
            keys.wf(),
            forall|p: Vec2i| #[trigger] keys.view_set().contains(p) ==> inner_point(p),
            out.wf(),
            i <= keys.list().len(),
            out.view_set() == Set::new(|q: Vec2i| exists|j: int| 0 <= j < i && near8(keys.list()[j], q)),
        decreases keys.list().len() - i,
    {
        let p = keys.get(i);
        proof {
            assert(keys.list().contains(p));
            assert(keys.view_set().contains(p));
        }
        let ghost before = out.view_set();
        let mut k: usize = 0;
        while k < 9
            invariant
                out.wf(),
                inner_point(p),
                k <= 9,
                out.view_set() == before.union(Set::new(|q: Vec2i| near8(p, q) && (q.y - p.y + 1) * 3 + (q.x - p.x + 1) < k)),
            decreases 9 - k,
        {
            let dx = (k % 3) as i32 - 1;
            let dy = (k / 3) as i32 - 1;
            let q = Vec2i::new(p.x + dx, p.y + dy);
            let _ = out.insert(q);
            proof {
                assert(out.view_set() =~= before.union(Set::new(|r: Vec2i| near8(p, r) && (r.y - p.y + 1) * 3 + (r.x - p.x + 1) < k + 1)));
            }
            k = k + 1;
        }
        proof {
            assert(Set::new(|q: Vec2i| near8(p, q) && (q.y - p.y + 1) * 3 + (q.x - p.x + 1) < 9) =~= Set::new(|q: Vec2i| near8(p, q)));
            assert(out.view_set() =~= Set::new(|q: Vec2i| exists|j: int| 0 <= j < i + 1 && near8(keys.list()[j], q))) by {
                assert forall|q: Vec2i| out.view_set().contains(q) <==> (exists|j: int| 0 <= j < i + 1 && near8(keys.list()[j], q)) by {
                    if near8(p, q) {
                        assert(keys.list()[i as int] == p);
                    }
                }
            }
        }
        i = i + 1;
    }
    proof {
        assert(out.view_set() =~= dilated(keys.view_set())) by {
            assert forall|q: Vec2i| out.view_set().contains(q) <==> dilated(keys.view_set()).contains(q) by {
                if dilated(keys.view_set()).contains(q) {
                    let p = choose|p: Vec2i| keys.view_set().contains(p) && near8(p, q);
                    let j = choose|j: int| 0 <= j < keys.list().len() && keys.list()[j] == p;
                    assert(near8(keys.list()[j], q));
                }
                if out.view_set().contains(q) {
                    let j = choose|j: int| 0 <= j < keys.list().len() && near8(keys.list()[j], q);
                    assert(keys.list().contains(keys.list()[j]));
                }
            }
        }
    }
    out
}

/// Coordinates stay `d` steps inside the `i32` range.
pub open spec fn inner_by(p: Vec2i, d: int) -> bool {
    i32::MIN + d <= p.x <= i32::MAX - d && i32::MIN + d <= p.y <= i32::MAX - d
}

/// 8-neighbourhood erosion: keeps the points whose full 3×3 neighbourhood lies in `fg`.
pub fn erode_8(fg: &PointSet) -> (out: PointSet)
    requires
        fg.wf(),
        forall|p: Vec2i| #[trigger] fg.view_set().contains(p) ==> inner_point(p),
    ensures
        out.wf(),
        out.view_set() == eroded(fg.view_set()),
{
    let mut out = PointSet::new();
    let mut i: usize = 0;
    while i < fg.len()
        invariant
            fg.wf(),
            forall|p: Vec2i| #[trigger] fg.view_set().contains(p) ==> inner_point(p),
            out.wf(),
            i <= fg.list().len(),
            out.view_set() == Set::new(|p: Vec2i| exists|j: int| 0 <= j < i && fg.list()[j] == p && eroded(fg.view_set()).contains(p)),
        decreases fg.list().len() - i,
    {
        let p = fg.get(i);
        proof {
            assert(fg.list().contains(p));
            assert(fg.view_set().contains(p));
        }
        let ok = fg.contains(Vec2i::new(p.x - 1, p.y - 1)) && fg.contains(Vec2i::new(p.x, p.y - 1))
            && fg.contains(Vec2i::new(p.x + 1, p.y - 1)) && fg.contains(Vec2i::new(p.x - 1, p.y))
            && fg.contains(p) && fg.contains(Vec2i::new(p.x + 1, p.y))
            && fg.contains(Vec2i::new(p.x - 1, p.y + 1)) && fg.contains(Vec2i::new(p.x, p.y + 1))
            && fg.contains(Vec2i::new(p.x + 1, p.y + 1));
        proof {
            if ok {
                assert forall|q: Vec2i| near8(p, q) implies #[trigger] fg.view_set().contains(q) by {
                    if q.x == p.x - 1 && q.y == p.y - 1 {} else if q.x == p.x && q.y == p.y - 1 {}
                    else if q.x == p.x + 1 && q.y == p.y - 1 {} else if q.x == p.x - 1 && q.y == p.y {}
                    else if q.x == p.x && q.y == p.y { assert(q == p); } else if q.x == p.x + 1 && q.y == p.y {}
                    else if q.x == p.x - 1 && q.y == p.y + 1 {} else if q.x == p.x && q.y == p.y + 1 {}
                    else { assert(q == Vec2i { x: (p.x + 1) as i32, y: (p.y + 1) as i32 }); }
                }
            } else {
                assert(!(forall|q: Vec2i| near8(p, q) ==> #[trigger] fg.view_set().contains(q)));
            }
        }
        let ghost before = out.view_set();
        if ok {
            let _ = out.insert(p);
        }
        proof {
            assert(ok == eroded(fg.view_set()).contains(p));
            assert(out.view_set() =~= Set::new(|r: Vec2i| exists|j: int| 0 <= j < i + 1 && fg.list()[j] == r && eroded(fg.view_set()).contains(r))) by {
                assert forall|r: Vec2i| out.view_set().contains(r) <==> (exists|j: int| 0 <= j < i + 1 && fg.list()[j] == r && eroded(fg.view_set()).contains(r)) by {
                    if r == p {
                        assert(fg.list()[i as int] == p);
                    }
                }
            }
        }
        i = i + 1;
    }
    proof {
        assert(out.view_set() =~= eroded(fg.view_set())) by {
            assert forall|r: Vec2i| out.view_set().contains(r) <==> eroded(fg.view_set()).contains(r) by {
                if eroded(fg.view_set()).contains(r) {
                    let j = choose|j: int| 0 <= j < fg.list().len() && fg.list()[j] == r;
                }
            }
        }
    }
    out
}

/// Closing by the 3×3 square: the erosion of the dilation (empty for an empty set). Fills one-cell
/// gaps left by rounding rotated pixels.
pub fn morph_close_8(keys: &PointSet) -> (out: PointSet)
    requires
        keys.wf(),
        forall|p: Vec2i| #[trigger] keys.view_set().contains(p) ==> inner_by(p, 2),
    ensures
        out.wf(),
        keys.list().len() == 0 ==> out.list().len() == 0,
        keys.list().len() > 0 ==> out.view_set() == eroded(dilated(keys.view_set())),
{
    if keys.is_empty() {
        return PointSet::new();
    }
    proof {
        assert forall|p: Vec2i| #[trigger] keys.view_set().contains(p) implies inner_point(p) by {
            assert(inner_by(p, 2));
        }
    }
    let d = dilate_8(keys);
    proof {
        assert forall|q: Vec2i| #[trigger] d.view_set().contains(q) implies inner_point(q) by {
            assert(dilated(keys.view_set()).contains(q));
            let p = choose|p: Vec2i| keys.view_set().contains(p) && near8(p, q);
            assert(inner_by(p, 2));
        }
    }
    erode_8(&d)
}

/// `q` is one of the four orthogonal neighbours of `p`.
pub open spec fn near4(p: Vec2i, q: Vec2i) -> bool {
    (q.x == p.x && (q.y == p.y + 1 || q.y == p.y - 1)) || (q.y == p.y && (q.x == p.x + 1 || q.x == p.x - 1))
}

/// `s` holds every seed that lies in `closed` and is closed under orthogonal steps within `closed`.
pub open spec fn reach_closed(seeds: Set<Vec2i>, closed: Set<Vec2i>, s: Set<Vec2i>) -> bool {
    &&& forall|p: Vec2i| seeds.contains(p) && closed.contains(p) ==> s.contains(p)
    &&& forall|x: Vec2i, n: Vec2i| #![trigger s.contains(x), s.contains(n)] s.contains(x) && near4(x, n) && closed.contains(n) ==> s.contains(n)
}

/// The orthogonal step `i` of four: right, left, down, up.
pub open spec fn step4(i: int) -> (int, int) {
    if i == 0 { (1, 0) } else if i == 1 { (-1, 0) } else if i == 2 { (0, 1) } else { (0, -1) }
}

/// Pushing `x` adds exactly `x` to what a sequence contains.
pub proof fn lemma_push_contains(s: Seq<Vec2i>, x: Vec2i, y: Vec2i)
    ensures s.push(x).contains(y) <==> (s.contains(y) || y == x),
{
    if s.push(x).contains(y) {
        let j = choose|j: int| 0 <= j < s.push(x).len() && s.push(x)[j] == y;
        if j < s.len() {
            assert(s[j] == y);
        }
    }
    if s.contains(y) {
        let j = choose|j: int| 0 <= j < s.len() && s[j] == y;
        assert(s.push(x)[j] == y);
    }
    if y == x {
        assert(s.push(x)[s.len() as int] == y);
    }
}

/// Every cell of `out` outside the work list `stack` has all its orthogonal neighbours in `closed`
/// inside `out`.
pub open spec fn processed(out: Set<Vec2i>, closed: Set<Vec2i>, stack: Seq<Vec2i>) -> bool {
    forall|x: Vec2i| out.contains(x) && !stack.contains(x) ==>
        forall|n: Vec2i| near4(x, n) && closed.contains(n) ==> #[trigger] out.contains(n)
}

/// The cells of `closed` that are 4-connected, through `closed`, to a seed in `closed`: the least
/// set that holds the seeds in `closed` and is closed under orthogonal steps within `closed`.
pub fn closed_cells_reachable_from_seeds(seeds: &PointSet, closed: &PointSet) -> (out: PointSet)
    requires
        seeds.wf(),
        closed.wf(),
        forall|p: Vec2i| #[trigger] closed.view_set().contains(p) ==> inner_point(p),
    ensures
        out.wf(),
        out.view_set().subset_of(closed.view_set()),
        reach_closed(seeds.view_set(), closed.view_set(), out.view_set()),
        forall|s: Set<Vec2i>| reach_closed(seeds.view_set(), closed.view_set(), s) ==> out.view_set().subset_of(s),
{
    let mut out = PointSet::new();
    let mut stack: Vec<Vec2i> = Vec::new();
    let ghost cset = closed.view_set();
    let ghost sset = seeds.view_set();
    let mut i: usize = 0;
    while i < seeds.len()
        invariant
            seeds.wf(), closed.wf(),
            cset == closed.view_set(), sset == seeds.view_set(),
            out.wf(),
            i <= seeds.list().len(),
            stack@ == out.list(),
            out.view_set().subset_of(cset),
            forall|j: int| 0 <= j < i && cset.contains(seeds.list()[j]) ==> out.view_set().contains(#[trigger] seeds.list()[j]),
            forall|s: Set<Vec2i>| reach_closed(sset, cset, s) ==> out.view_set().subset_of(s),
        decreases seeds.list().len() - i,
    {
        let p = seeds.get(i);
        proof { assert(seeds.list().contains(p)); }
        if closed.contains(p) {
            let ghost before = out.view_set();
            if out.insert(p) {
                stack.push(p);
            }
            proof {
                assert forall|s: Set<Vec2i>| reach_closed(sset, cset, s) implies out.view_set().subset_of(s) by {
                    assert(before.subset_of(s));
                }
            }
        }
        i = i + 1;
    }
    proof {
        closed.lemma_len();
        out.lemma_len();
        vstd::set_lib::lemma_len_subset(out.view_set(), cset);
        assert forall|p: Vec2i| sset.contains(p) && cset.contains(p) implies out.view_set().contains(p) by {
            let j = choose|j: int| 0 <= j < seeds.list().len() && seeds.list()[j] == p;
            assert(cset.contains(seeds.list()[j]));
        }
        assert forall|j: int| 0 <= j < stack@.len() implies out.view_set().contains(#[trigger] stack@[j]) by {
            assert(out.list().contains(out.list()[j]));
        }
    }
    while stack.len() > 0
        invariant
            closed.wf(),
            cset == closed.view_set(),
            out.wf(),
            cset.finite(),
            closed.list().len() == cset.len(),
            out.list().len() == out.view_set().len(),
            out.view_set().subset_of(cset),
            out.list().len() <= closed.list().len(),
            forall|p: Vec2i| #[trigger] cset.contains(p) ==> inner_point(p),
            forall|p: Vec2i| sset.contains(p) && cset.contains(p) ==> out.view_set().contains(p),
            forall|s: Set<Vec2i>| reach_closed(sset, cset, s) ==> out.view_set().subset_of(s),
            forall|j: int| 0 <= j < stack@.len() ==> out.view_set().contains(#[trigger] stack@[j]),
            processed(out.view_set(), cset, stack@),
        decreases closed.list().len() - out.list().len(), stack@.len(),
    {
        let ghost sb = stack@;
        let x = stack.pop().unwrap();
        proof {
            assert(sb =~= stack@.push(x));
            assert(out.view_set().contains(sb[sb.len() - 1]));
            assert(inner_point(x));
        }
        let ghost out0 = out.view_set();
        let ghost len0 = out.list().len();
        let ghost stack0 = stack@;
        let mut k: usize = 0;
        while k < 4
            invariant
                closed.wf(),
                cset == closed.view_set(),
                out.wf(),
                cset.finite(),
                closed.list().len() == cset.len(),
                out.list().len() == out.view_set().len(),
                out.view_set().subset_of(cset),
                out.list().len() <= closed.list().len(),
                inner_point(x),
                out0.contains(x),
                out0.subset_of(out.view_set()),
                len0 <= out.list().len(),
                out.list().len() == len0 ==> stack@ == stack0,
                forall|y: Vec2i| stack0.contains(y) ==> stack@.contains(y),
                forall|y: Vec2i| out.view_set().contains(y) && !out0.contains(y) ==> stack@.contains(y),
                k <= 4,
                forall|p: Vec2i| #[trigger] cset.contains(p) ==> inner_point(p),
                forall|s: Set<Vec2i>| reach_closed(sset, cset, s) ==> out.view_set().subset_of(s),
                forall|j: int| 0 <= j < stack@.len() ==> out.view_set().contains(#[trigger] stack@[j]),
                processed(out0, cset, stack0.push(x)),
                forall|j: int| 0 <= j < k ==> (cset.contains(#[trigger] offset4(x, j)) ==> out.view_set().contains(offset4(x, j))),
            decreases 4 - k,
        {
            let (dx, dy): (i32, i32) = if k == 0 { (1, 0) } else if k == 1 { (-1, 0) } else if k == 2 { (0, 1) } else { (0, -1) };
            let n = Vec2i::new(x.x + dx, x.y + dy);
            assert(n == offset4(x, k as int));
            if closed.contains(n) {
                let ghost before = out.view_set();
                let ghost sbefore = stack@;
                if out.insert(n) {
                    stack.push(n);
                    proof {
                        out.lemma_len();
                        vstd::set_lib::lemma_len_subset(out.view_set(), cset);
                        assert forall|y: Vec2i| stack0.contains(y) implies stack@.contains(y) by {
                            lemma_push_contains(sbefore, n, y);
                        }
                        assert forall|y: Vec2i| out.view_set().contains(y) && !out0.contains(y) implies stack@.contains(y) by {
                            lemma_push_contains(sbefore, n, y);
                        }
                        assert forall|j: int| 0 <= j < stack@.len() implies out.view_set().contains(#[trigger] stack@[j]) by {
                            if j < sbefore.len() {
                                assert(sbefore[j] == stack@[j]);
                            }
                        }
                    }
                }
                proof {
                    assert forall|s: Set<Vec2i>| reach_closed(sset, cset, s) implies out.view_set().subset_of(s) by {
                        assert(before.subset_of(s));
                        assert(s.contains(x));
                        assert(near4(x, n));
                    }
                }
            }
            k = k + 1;
        }
        proof {
            assert forall|m: Vec2i| near4(x, m) && cset.contains(m) implies out.view_set().contains(m) by {
                if m == offset4(x, 0) {} else if m == offset4(x, 1) {} else if m == offset4(x, 2) {} else {
                    assert(m == offset4(x, 3));
                }
            }
            assert forall|y: Vec2i| out.view_set().contains(y) && !stack@.contains(y) implies
                (forall|n: Vec2i| near4(y, n) && cset.contains(n) ==> #[trigger] out.view_set().contains(n)) by {
                if y != x {
                    if out0.contains(y) {
                        lemma_push_contains(stack0, x, y);
                        assert(!stack0.contains(y));
                        assert forall|n: Vec2i| near4(y, n) && cset.contains(n) implies #[trigger] out.view_set().contains(n) by {
                            assert(out0.contains(n));
                        }
                    }
                }
            }
        }
    }
    proof {
        assert forall|xx: Vec2i, n: Vec2i| #![trigger out.view_set().contains(xx), out.view_set().contains(n)] out.view_set().contains(xx) && near4(xx, n) && cset.contains(n) implies out.view_set().contains(n) by {
            assert(!stack@.contains(xx));
        }
    }
    out
}

/// `x` moved by orthogonal step `i` of [`step4`].
pub open spec fn offset4(x: Vec2i, i: int) -> Vec2i {
    Vec2i { x: (x.x + step4(i).0) as i32, y: (x.y + step4(i).1) as i32 }
}

/// Ring index of offset `(dx, dy)`: its Chebyshev distance from the origin.
pub open spec fn ring_of(dx: int, dy: int) -> int {
    let ax = if dx < 0 { -dx } else { dx };
    let ay = if dy < 0 { -dy } else { dy };
    if ax < ay { ay } else { ax }
}

/// `c` lies strictly above `pos` within Chebyshev distance `max_radius`: one of the cells that
/// [`find_empty_above`] looks at.
pub open spec fn above_candidate(pos: Vec2i, max_radius: int, c: Vec2i) -> bool {
    c.y - pos.y < 0 && ring_of(c.x - pos.x, c.y - pos.y) <= max_radius
}

/// Offset `(dx, dy)` comes before `(r, y, x)` in the scan: inner rings first, then rows from the
/// top, then columns from the left.
pub open spec fn scanned_before(dx: int, dy: int, r: int, y: int, x: int) -> bool {
    let rr = ring_of(dx, dy);
    rr < r || (rr == r && (dy < y || (dy == y && dx < x)))
}

/// `c` is neither part of the body nor occupied in `world`.
pub open spec fn free_above(world: &World, body: Set<Vec2i>, c: Vec2i) -> bool {
    !body.contains(c) && world.cell_at(c)@.material == material::EMPTY
}

/// The first empty cell above `pos` outside the body, scanning rings of growing Chebyshev radius
/// `1..=max_radius`, each ring's upper half row by row from the top and left to right.
pub fn find_empty_above(world: &World, pos: Vec2i, body_cells: &PointSet, max_radius: i32) -> (found: Option<Vec2i>)
    requires
        world.wf(),
        body_cells.wf(),
        max_radius > 0 ==> inner_by(pos, max_radius as int),
    ensures
        match found {
            Some(c) => {
                &&& above_candidate(pos, max_radius as int, c)
                &&& free_above(world, body_cells.view_set(), c)
                &&& forall|d: Vec2i| above_candidate(pos, max_radius as int, d)
                    && scanned_before(d.x - pos.x, d.y - pos.y, ring_of(c.x - pos.x, c.y - pos.y), c.y - pos.y, c.x - pos.x)
                    ==> !free_above(world, body_cells.view_set(), d)
            },
            None => forall|d: Vec2i| above_candidate(pos, max_radius as int, d) ==> !free_above(world, body_cells.view_set(), d),
        },
{
    let ghost body = body_cells.view_set();
    let mut r: i64 = 1;
    while r <= max_radius as i64
        invariant
            world.wf(), body_cells.wf(), body == body_cells.view_set(),
            max_radius > 0 ==> inner_by(pos, max_radius as int),
            1 <= r <= max_radius as i64 + 1 || (r == 1 && max_radius <= 0),
            forall|d: Vec2i| #[trigger] above_candidate(pos, max_radius as int, d) && ring_of(d.x - pos.x, d.y - pos.y) < r
                ==> !free_above(world, body, d),
        decreases max_radius as i64 + 1 - r,
    {
        let mut dy: i64 = -r;
        while dy < 0
            invariant
                world.wf(), body_cells.wf(), body == body_cells.view_set(),
                inner_by(pos, max_radius as int),
                1 <= r <= max_radius,
                -r <= dy <= 0,
                forall|d: Vec2i| #[trigger] above_candidate(pos, max_radius as int, d) && scanned_before(d.x - pos.x, d.y - pos.y, r as int, dy as int, -r)
                    ==> !free_above(world, body, d),
            decreases -dy,
        {
            let mut dx: i64 = -r;
            while dx <= r
                invariant
                    world.wf(), body_cells.wf(), body == body_cells.view_set(),
                    inner_by(pos, max_radius as int),
                    1 <= r <= max_radius,
                    -r <= dy < 0,
                    -r <= dx <= r + 1,
                    forall|d: Vec2i| #[trigger] above_candidate(pos, max_radius as int, d) && scanned_before(d.x - pos.x, d.y - pos.y, r as int, dy as int, dx as int)
                        ==> !free_above(world, body, d),
                decreases r + 1 - dx,
            {
                let on_ring = dx == r || dx == -r || dy == -r;
                if on_ring {
                    let candidate = Vec2i::new((pos.x as i64 + dx) as i32, (pos.y as i64 + dy) as i32);
                    if !body_cells.contains(candidate) && world.get_cell(candidate).material() == material::EMPTY {
                        proof {
                            assert(ring_of(dx as int, dy as int) == r);
                        }
                        return Some(candidate);
                    }
                    proof {
                        assert(ring_of(dx as int, dy as int) == r);
                        assert forall|d: Vec2i| #[trigger] above_candidate(pos, max_radius as int, d) && scanned_before(d.x - pos.x, d.y - pos.y, r as int, dy as int, dx + 1)
                            implies !free_above(world, body, d) by {
                            if d.x - pos.x == dx && d.y - pos.y == dy {
                                assert(d == candidate);
                            } else {
                                assert(scanned_before(d.x - pos.x, d.y - pos.y, r as int, dy as int, dx as int));
                            }
                        }
                    }
                } else {
                    proof {
                        assert(ring_of(dx as int, dy as int) < r);
                        assert forall|d: Vec2i| #[trigger] above_candidate(pos, max_radius as int, d) && scanned_before(d.x - pos.x, d.y - pos.y, r as int, dy as int, dx + 1)
                            implies !free_above(world, body, d) by {
                            assert(scanned_before(d.x - pos.x, d.y - pos.y, r as int, dy as int, dx as int));
                        }
                    }
                }
                dx = dx + 1;
            }
            proof {
                assert forall|d: Vec2i| #[trigger] above_candidate(pos, max_radius as int, d) && scanned_before(d.x - pos.x, d.y - pos.y, r as int, dy + 1, -r)
                    implies !free_above(world, body, d) by {
                    assert(scanned_before(d.x - pos.x, d.y - pos.y, r as int, dy as int, r + 1));
                }
            }
            dy = dy + 1;
        }
        proof {
            assert forall|d: Vec2i| #[trigger] above_candidate(pos, max_radius as int, d) && ring_of(d.x - pos.x, d.y - pos.y) < r + 1
                implies !free_above(world, body, d) by {
                assert(scanned_before(d.x - pos.x, d.y - pos.y, r as int, 0, -r));
            }
        }
        r = r + 1;
    }
    None
}

/// The least set that holds the seeds in `closed` and is closed under orthogonal steps within
/// `closed`: the cells of `closed` 4-connected through `closed` to a seed.
#[verifier::opaque]
pub open spec fn reach_least(seeds: Set<Vec2i>, closed: Set<Vec2i>) -> Set<Vec2i> {
    Set::new(|p: Vec2i| forall|s: Set<Vec2i>| reach_closed(seeds, closed, s) ==> #[trigger] s.contains(p))
}

/// The rounded anchor positions of `aw`.
pub open spec fn anchor_positions_of(aw: Seq<(Vec2i, Cell)>) -> Set<Vec2i> {
    Set::new(|p: Vec2i| exists|i: int| 0 <= i < aw.len() && aw[i].0 == p)
}

/// The cells the closing adds to a body: those of its closing 4-connected to an anchor, minus the
/// anchors themselves.
#[verifier::opaque]
pub open spec fn fill_positions(aw: Seq<(Vec2i, Cell)>) -> Set<Vec2i> {
    let a = anchor_positions_of(aw);
    reach_least(a, eroded(dilated(a))).difference(a)
}

/// Manhattan distance.
pub open spec fn manhattan(p: Vec2i, q: Vec2i) -> int {
    (if p.x >= q.x { p.x - q.x } else { q.x - p.x }) + (if p.y >= q.y { p.y - q.y } else { q.y - p.y })
}

/// `aw[i]` is the first anchor of `aw` nearest to `k`.
pub open spec fn first_nearest(aw: Seq<(Vec2i, Cell)>, k: Vec2i, i: int) -> bool {
    &&& 0 <= i < aw.len()
    &&& forall|j: int| 0 <= j < aw.len() ==> manhattan(#[trigger] aw[j].0, k) >= manhattan(aw[i].0, k)
    &&& forall|j: int| 0 <= j < i ==> manhattan(#[trigger] aw[j].0, k) > manhattan(aw[i].0, k)
}

fn manhattan_of(p: Vec2i, q: Vec2i) -> (d: i64)
    ensures d == manhattan(p, q),
{
    let dx = if p.x >= q.x { p.x as i64 - q.x as i64 } else { q.x as i64 - p.x as i64 };
    let dy = if p.y >= q.y { p.y as i64 - q.y as i64 } else { q.y as i64 - p.y as i64 };
    dx + dy
}

/// Index of the first anchor of `aw` nearest to `k`.
fn first_nearest_index(anchor_world: &Vec<(Vec2i, Cell)>, k: Vec2i) -> (best: usize)
    requires anchor_world.len() > 0,
    ensures first_nearest(anchor_world@, k, best as int),
{
    let ghost aw = anchor_world@;
    let mut best: usize = 0;
    let mut best_d: i64 = manhattan_of(anchor_world[0].0, k);
    let mut t: usize = 1;
    while t < anchor_world.len()
        invariant
            aw == anchor_world@,
            best < t <= aw.len(),
            best_d == manhattan(aw[best as int].0, k),
            forall|u: int| 0 <= u < t ==> manhattan(#[trigger] aw[u].0, k) >= best_d,
            forall|u: int| 0 <= u < best ==> manhattan(#[trigger] aw[u].0, k) > best_d,
        decreases aw.len() - t,
    {
        let d = manhattan_of(anchor_world[t].0, k);
        if d < best_d {
            best = t;
            best_d = d;
        }
        t = t + 1;
    }
    best
}

/// The pixels the closing adds to a body whose anchors sit, rounded to the grid, at the positions
/// of `anchor_world`: each cell of [`fill_positions`], once, with the cell of the first anchor
/// nearest to it.
pub fn compute_morph_fill_cells(anchor_world: &Vec<(Vec2i, Cell)>) -> (out: Vec<(Vec2i, Cell)>)
    requires
        forall|i: int| 0 <= i < anchor_world.len() ==> inner_by(#[trigger] anchor_world[i].0, 2),
    ensures
        forall|i: int| 0 <= i < out.len() ==> {
            &&& fill_positions(anchor_world@).contains((#[trigger] out[i]).0)
            &&& exists|m: int| first_nearest(anchor_world@, out[i].0, m) && out[i].1 == anchor_world@[m].1
        },
        forall|i: int, j: int| 0 <= i < j < out.len() ==> (#[trigger] out[i]).0 != (#[trigger] out[j]).0,
        forall|p: Vec2i| #[trigger] fill_positions(anchor_world@).contains(p) ==> exists|i: int| 0 <= i < out.len() && out[i].0 == p,
{
    let ghost aw = anchor_world@;
    let ghost aset = anchor_positions_of(aw);
    let mut keys = PointSet::new();
    let mut i: usize = 0;
    while i < anchor_world.len()
        invariant
            aw == anchor_world@,
            i <= aw.len(),
            keys.wf(),
            forall|p: Vec2i| keys.view_set().contains(p) <==> exists|j: int| 0 <= j < i && aw[j].0 == p,
        decreases aw.len() - i,
    {
        let _ = keys.insert(anchor_world[i].0);
        proof {
            assert forall|p: Vec2i| keys.view_set().contains(p) <==> exists|j: int| 0 <= j < i + 1 && aw[j].0 == p by {
                if p == aw[i as int].0 {
                    assert(aw[i as int].0 == p);
                }
            }
        }
        i = i + 1;
    }
    proof {
        assert(keys.view_set() =~= aset);
    }
    if keys.is_empty() {
        proof {
            reveal(reach_least);
            reveal(fill_positions);
            assert forall|p: Vec2i| #[trigger] fill_positions(aw).contains(p) implies false by {
                assert(reach_closed(aset, eroded(dilated(aset)), Set::empty()));
            }
        }
        return Vec::new();
    }
    proof {
        assert forall|p: Vec2i| #[trigger] keys.view_set().contains(p) implies inner_by(p, 2) by {
            let j = choose|j: int| 0 <= j < aw.len() && aw[j].0 == p;
            assert(inner_by(anchor_world[j].0, 2));
        }
    }
    proof {
        let p0 = keys.list()[0];
        assert(keys.view_set().contains(p0));
    }
    let closed_raw = morph_close_8(&keys);
    proof {
        assert forall|q: Vec2i| #[trigger] closed_raw.view_set().contains(q) implies inner_point(q) by {
            assert(eroded(dilated(aset)).contains(q));
            assert(dilated(aset).contains(q));
            let p = choose|p: Vec2i| aset.contains(p) && near8(p, q);
            assert(keys.view_set().contains(p));
        }
    }
    let closed = closed_cells_reachable_from_seeds(&keys, &closed_raw);
    let ghost fill = fill_positions(aw);
    proof {
        reveal(reach_least);
        assert(closed.view_set() =~= reach_least(aset, eroded(dilated(aset)))) by {
            assert forall|p: Vec2i| closed.view_set().contains(p) <==> reach_least(aset, eroded(dilated(aset))).contains(p) by {
                if closed.view_set().contains(p) {
                    assert forall|s: Set<Vec2i>| reach_closed(aset, eroded(dilated(aset)), s) implies #[trigger] s.contains(p) by {
                        assert(closed.view_set().subset_of(s));
                    }
                }
            }
        }
        closed.lemma_distinct();
        reveal(fill_positions);
        assert forall|p: Vec2i| #[trigger] fill.contains(p) <==> (closed.view_set().contains(p) && !aset.contains(p)) by {}
    }
    let mut out: Vec<(Vec2i, Cell)> = Vec::new();
    let mut j: usize = 0;
    while j < closed.len()
        invariant
            aw == anchor_world@,
            aw.len() > 0,
            keys.wf(),
            keys.view_set() == aset,
            closed.wf(),
            closed.list().no_duplicates(),
            forall|p: Vec2i| #[trigger] fill.contains(p) <==> (closed.view_set().contains(p) && !aset.contains(p)),
            fill == fill_positions(aw),
            j <= closed.list().len(),
            forall|i: int| 0 <= i < out.len() ==> {
                &&& fill.contains((#[trigger] out[i]).0)
                &&& exists|m: int| first_nearest(aw, out[i].0, m) && out[i].1 == aw[m].1
                &&& exists|t: int| 0 <= t < j && closed.list()[t] == out[i].0
            },
            forall|a: int, b: int| 0 <= a < b < out.len() ==> (#[trigger] out[a]).0 != (#[trigger] out[b]).0,
            forall|t: int| 0 <= t < j && fill.contains(#[trigger] closed.list()[t]) ==> exists|i: int| 0 <= i < out.len() && out[i].0 == closed.list()[t],
        decreases closed.list().len() - j,
    {
        let k = closed.get(j);
        if !keys.contains(k) {
            let best = first_nearest_index(anchor_world, k);
            let ghost before = out@;
            out.push((k, anchor_world[best].1));
            proof {
                assert(closed.list().contains(k)) by { assert(closed.list()[j as int] == k); }
                assert(closed.view_set().contains(k));
                assert(!aset.contains(k));
                assert(fill.contains(k));
                assert forall|i: int| 0 <= i < out.len() implies {
                    &&& fill.contains((#[trigger] out[i]).0)
                    &&& exists|m: int| first_nearest(aw, out[i].0, m) && out[i].1 == aw[m].1
                    &&& exists|tt: int| 0 <= tt < j + 1 && closed.list()[tt] == out[i].0
                } by {
                    if i < before.len() {
                        assert(out[i] == before[i]);
                    } else {
                        assert(closed.list()[j as int] == out[i].0);
                    }
                }
                assert forall|a: int, b: int| 0 <= a < b < out.len() implies (#[trigger] out[a]).0 != (#[trigger] out[b]).0 by {
                    assert(out[a] == before[a]);
                    if b < before.len() {
                        assert(out[b] == before[b]);
                    } else {
                        let tt = choose|tt: int| 0 <= tt < j && closed.list()[tt] == before[a].0;
                        assert(closed.list()[tt] != closed.list()[j as int]);
                    }
                }
                assert forall|tt: int| 0 <= tt < j + 1 && fill.contains(#[trigger] closed.list()[tt]) implies
                    exists|i: int| 0 <= i < out.len() && out[i].0 == closed.list()[tt] by {
                    if tt < j {
                        let i = choose|i: int| 0 <= i < before.len() && before[i].0 == closed.list()[tt];
                        assert(out[i] == before[i]);
                    } else {
                        assert(out[before.len() as int].0 == closed.list()[tt]);
                    }
                }
            }
        } else {
            proof {
                assert forall|tt: int| 0 <= tt < j + 1 && fill.contains(#[trigger] closed.list()[tt]) implies
                    exists|i: int| 0 <= i < out.len() && out[i].0 == closed.list()[tt] by {
                    if tt == j {
                        assert(aset.contains(k));
                        assert(!fill.contains(k));
                    }
                }
            }
        }
        j = j + 1;
    }
    proof {
        assert forall|p: Vec2i| #[trigger] fill.contains(p) implies exists|i: int| 0 <= i < out.len() && out[i].0 == p by {
            assert(closed.view_set().contains(p));
            let tt = choose|tt: int| 0 <= tt < closed.list().len() && closed.list()[tt] == p;
            assert(fill.contains(closed.list()[tt]));
        }
    }
    out
}

} // verus!
