//! Marching-squares boundary tracing on a set of pixels: every boundary edge of the pixel set lies
//! on exactly one closed contour, and each contour follows the boundary edge by edge.
use vstd::prelude::*;

use crate::morph::{inner_by, PointSet};
use crate::world::geom::Vec2i;

verus! {

/// One side of a marching cell. The cell `(cx, cy)` has the four pixel samples `(cx, cy)` (top
/// left), `(cx + 1, cy)`, `(cx + 1, cy + 1)` and `(cx, cy + 1)` as corners; `side` is 0 top,
/// 1 right, 2 bottom, 3 left.
#[derive(Clone, Copy, PartialEq, Eq, Structural, Debug)]
pub struct MsEdge {
    pub cx: i32,
    pub cy: i32,
    pub side: u8,
}

/// Pixel `(x, y)` is in `f`.
pub open spec fn sample(f: Set<Vec2i>, x: int, y: int) -> bool {
    i32::MIN <= x <= i32::MAX && i32::MIN <= y <= i32::MAX && f.contains(Vec2i { x: x as i32, y: y as i32 })
}

/// Corner pattern of a cell: top left 8, top right 4, bottom right 2, bottom left 1.
pub open spec fn case_of(tl: bool, tr: bool, br: bool, bl: bool) -> int {
    (if tl { 8int } else { 0int }) + (if tr { 4int } else { 0int }) + (if br { 2int } else { 0int }) + (if bl { 1int } else { 0int })
}

/// The side through which the boundary leaves a cell of corner pattern `case` that it entered
/// through side `entry`, keeping the pixels on the right of travel (y pointing down); -1 where
/// `entry` is not an entry side of that pattern.
pub open spec fn table_exit(case: int, entry: int) -> int {
    if case == 1 { if entry == 3 { 2 } else { -1 } }
    else if case == 2 { if entry == 2 { 1 } else { -1 } }
    else if case == 3 { if entry == 3 { 1 } else { -1 } }
    else if case == 4 { if entry == 1 { 0 } else { -1 } }
    else if case == 5 { if entry == 3 { 0 } else if entry == 1 { 2 } else { -1 } }
    else if case == 6 { if entry == 2 { 0 } else { -1 } }
    else if case == 7 { if entry == 3 { 0 } else { -1 } }
    else if case == 8 { if entry == 0 { 3 } else { -1 } }
    else if case == 9 { if entry == 0 { 2 } else { -1 } }
    else if case == 10 { if entry == 0 { 1 } else if entry == 2 { 3 } else { -1 } }
    else if case == 11 { if entry == 0 { 1 } else { -1 } }
    else if case == 12 { if entry == 1 { 3 } else { -1 } }
    else if case == 13 { if entry == 1 { 2 } else { -1 } }
    else if case == 14 { if entry == 2 { 3 } else { -1 } }
    else { -1 }
}

/// Corner pattern of cell `(cx, cy)` over the pixels `f`.
pub open spec fn cell_case(f: Set<Vec2i>, cx: int, cy: int) -> int {
    case_of(sample(f, cx, cy), sample(f, cx + 1, cy), sample(f, cx + 1, cy + 1), sample(f, cx, cy + 1))
}

/// Exit side for the boundary entering through `e` (-1 if `e` is no entry edge).
pub open spec fn exit_of(f: Set<Vec2i>, e: MsEdge) -> int {
    table_exit(cell_case(f, e.cx as int, e.cy as int), e.side as int)
}

/// `e` is an edge through which the boundary of `f` enters a cell.
pub open spec fn boundary_edge(f: Set<Vec2i>, e: MsEdge) -> bool {
    exit_of(f, e) >= 0
}

/// The edge through which the boundary enters the next cell after leaving `e`'s cell.
pub open spec fn ms_next(f: Set<Vec2i>, e: MsEdge) -> MsEdge {
    let x = exit_of(f, e);
    if x == 0 { MsEdge { cx: e.cx, cy: (e.cy - 1) as i32, side: 2 } }
    else if x == 1 { MsEdge { cx: (e.cx + 1) as i32, cy: e.cy, side: 3 } }
    else if x == 2 { MsEdge { cx: e.cx, cy: (e.cy + 1) as i32, side: 0 } }
    else { MsEdge { cx: (e.cx - 1) as i32, cy: e.cy, side: 1 } }
}

/// `es` is a closed contour: at least three boundary edges, each followed by its successor, the
/// last by the first.
pub open spec fn ms_cycle(f: Set<Vec2i>, es: Seq<MsEdge>) -> bool {
    &&& es.len() >= 3
    &&& forall|i: int| 0 <= i < es.len() ==> boundary_edge(f, #[trigger] es[i])
    &&& forall|i: int| 0 <= i < es.len() - 1 ==> #[trigger] es[i + 1] == ms_next(f, es[i])
    &&& ms_next(f, es.last()) == es[0]
}

/// Twice the local coordinates of the midpoint of edge `e` (pixel centres at even coordinates).
pub open spec fn mid2(e: MsEdge) -> (int, int) {
    if e.side == 0 { (2 * e.cx + 1, 2 * e.cy) }
    else if e.side == 1 { (2 * e.cx + 2, 2 * e.cy + 1) }
    else if e.side == 2 { (2 * e.cx + 1, 2 * e.cy + 2) }
    else { (2 * e.cx, 2 * e.cy + 1) }
}

/// Twice the midpoint of `e`, in `i64`.
pub fn edge_midpoint2(e: MsEdge) -> (p: (i64, i64))
    ensures p.0 == mid2(e).0, p.1 == mid2(e).1,
{
    let x = e.cx as i64;
    let y = e.cy as i64;
    if e.side == 0 { (2 * x + 1, 2 * y) }
    else if e.side == 1 { (2 * x + 2, 2 * y + 1) }
    else if e.side == 2 { (2 * x + 1, 2 * y + 2) }
    else { (2 * x, 2 * y + 1) }
}

fn table_exit_of(case: u8, entry: u8) -> (x: i8)
    ensures x == table_exit(case as int, entry as int),
{
    if case == 1 { if entry == 3 { 2 } else { -1 } }
    else if case == 2 { if entry == 2 { 1 } else { -1 } }
    else if case == 3 { if entry == 3 { 1 } else { -1 } }
    else if case == 4 { if entry == 1 { 0 } else { -1 } }
    else if case == 5 { if entry == 3 { 0 } else if entry == 1 { 2 } else { -1 } }
    else if case == 6 { if entry == 2 { 0 } else { -1 } }
    else if case == 7 { if entry == 3 { 0 } else { -1 } }
    else if case == 8 { if entry == 0 { 3 } else { -1 } }
    else if case == 9 { if entry == 0 { 2 } else { -1 } }
    else if case == 10 { if entry == 0 { 1 } else if entry == 2 { 3 } else { -1 } }
    else if case == 11 { if entry == 0 { 1 } else { -1 } }
    else if case == 12 { if entry == 1 { 3 } else { -1 } }
    else if case == 13 { if entry == 1 { 2 } else { -1 } }
    else if case == 14 { if entry == 2 { 3 } else { -1 } }
    else { -1 }
}

/// An exit side is never the side the boundary came in through.
proof fn lemma_table_exit_not_entry(case: int, s: int)
    requires s >= 0,
    ensures table_exit(case, s) != s,
{
}

/// Within one cell pattern, different entry sides leave through different sides.
proof fn lemma_table_exit_injective(case: int, s1: int, s2: int)
    requires table_exit(case, s1) >= 0, table_exit(case, s1) == table_exit(case, s2),
    ensures s1 == s2,
{
}

/// Where the boundary leaves a cell, the neighbouring cell across that side has the matching
/// entry: the two cells share the two corners of that side.
proof fn lemma_table_continues(tl: bool, tr: bool, br: bool, bl: bool, s: int, a: bool, b: bool)
    requires table_exit(case_of(tl, tr, br, bl), s) >= 0,
    ensures
        table_exit(case_of(tl, tr, br, bl), s) == 0 ==> table_exit(case_of(a, b, tr, tl), 2) >= 0,
        table_exit(case_of(tl, tr, br, bl), s) == 1 ==> table_exit(case_of(tr, a, b, br), 3) >= 0,
        table_exit(case_of(tl, tr, br, bl), s) == 2 ==> table_exit(case_of(bl, br, a, b), 0) >= 0,
        table_exit(case_of(tl, tr, br, bl), s) == 3 ==> table_exit(case_of(a, tl, bl, b), 1) >= 0,
{
}

/// The corner on the right of travel through entry side `side` of a cell with corners `tl`, `tr`,
/// `br`, `bl` (y pointing down), and the corner on its left.
pub open spec fn right_left_corners(tl: bool, tr: bool, br: bool, bl: bool, side: int) -> (bool, bool) {
    if side == 0 { (tl, tr) } else if side == 1 { (tr, br) } else if side == 2 { (br, bl) } else { (bl, tl) }
}

/// Every contour keeps the pixels on its right: where it enters a cell, the corner of that side on
/// the right of travel is a pixel and the corner on the left is not.
pub proof fn lemma_boundary_keeps_pixels_right(f: Set<Vec2i>, e: MsEdge)
    requires boundary_edge(f, e),
    ensures ({
        let cx = e.cx as int;
        let cy = e.cy as int;
        let rl = right_left_corners(sample(f, cx, cy), sample(f, cx + 1, cy), sample(f, cx + 1, cy + 1), sample(f, cx, cy + 1), e.side as int);
        rl.0 && !rl.1
    }),
{
}

/// Every pixel of `f` lies two steps inside the `i32` range.
pub open spec fn pixels_inner(f: Set<Vec2i>) -> bool {
    forall|p: Vec2i| #[trigger] f.contains(p) ==> inner_by(p, 2)
}

/// A boundary edge's cell has a pixel among its corners, so it lies one step inside the range.
proof fn lemma_boundary_cell_range(f: Set<Vec2i>, e: MsEdge)
    requires pixels_inner(f), boundary_edge(f, e),
    ensures
        i32::MIN + 1 <= e.cx <= i32::MAX - 2,
        i32::MIN + 1 <= e.cy <= i32::MAX - 2,
        0 <= e.side < 4,
{
    let cx = e.cx as int;
    let cy = e.cy as int;
    if sample(f, cx, cy) {
        assert(f.contains(Vec2i { x: cx as i32, y: cy as i32 }));
    } else if sample(f, cx + 1, cy) {
        assert(f.contains(Vec2i { x: (cx + 1) as i32, y: cy as i32 }));
    } else if sample(f, cx + 1, cy + 1) {
        assert(f.contains(Vec2i { x: (cx + 1) as i32, y: (cy + 1) as i32 }));
    } else if sample(f, cx, cy + 1) {
        assert(f.contains(Vec2i { x: cx as i32, y: (cy + 1) as i32 }));
    }
}

/// The successor of a boundary edge is a boundary edge, in a different cell, and no boundary edge
/// is two steps away from itself.
proof fn lemma_next_boundary(f: Set<Vec2i>, e: MsEdge)
    requires pixels_inner(f), boundary_edge(f, e),
    ensures
        boundary_edge(f, ms_next(f, e)),
        ms_next(f, e) != e,
        ms_next(f, ms_next(f, e)) != e,
{
    lemma_boundary_cell_range(f, e);
    let cx = e.cx as int;
    let cy = e.cy as int;
    let tl = sample(f, cx, cy);
    let tr = sample(f, cx + 1, cy);
    let br = sample(f, cx + 1, cy + 1);
    let bl = sample(f, cx, cy + 1);
    let x = exit_of(f, e);
    let n = ms_next(f, e);
    if x == 0 {
        lemma_table_continues(tl, tr, br, bl, e.side as int, sample(f, cx, cy - 1), sample(f, cx + 1, cy - 1));
    } else if x == 1 {
        lemma_table_continues(tl, tr, br, bl, e.side as int, sample(f, cx + 2, cy), sample(f, cx + 2, cy + 1));
    } else if x == 2 {
        lemma_table_continues(tl, tr, br, bl, e.side as int, sample(f, cx + 1, cy + 2), sample(f, cx, cy + 2));
    } else {
        lemma_table_continues(tl, tr, br, bl, e.side as int, sample(f, cx - 1, cy), sample(f, cx - 1, cy + 1));
    }
    assert(boundary_edge(f, n));
    lemma_boundary_cell_range(f, n);
    let x2 = exit_of(f, n);
    lemma_table_exit_not_entry(cell_case(f, n.cx as int, n.cy as int), n.side as int);
}

/// Two boundary edges with the same successor are the same edge.
proof fn lemma_next_injective(f: Set<Vec2i>, e1: MsEdge, e2: MsEdge)
    requires pixels_inner(f), boundary_edge(f, e1), boundary_edge(f, e2), ms_next(f, e1) == ms_next(f, e2),
    ensures e1 == e2,
{
    lemma_boundary_cell_range(f, e1);
    lemma_boundary_cell_range(f, e2);
    let x1 = exit_of(f, e1);
    let x2 = exit_of(f, e2);
    assert(x1 == x2);
    assert(e1.cx == e2.cx && e1.cy == e2.cy);
    lemma_table_exit_injective(cell_case(f, e1.cx as int, e1.cy as int), e1.side as int, e2.side as int);
}

/// Boundary edges visited so far, by side, as cells.
pub struct EdgeSet {
    top: PointSet,
    right: PointSet,
    bottom: PointSet,
    left: PointSet,
}

impl EdgeSet {
    pub closed spec fn wf(&self) -> bool {
        self.top.wf() && self.right.wf() && self.bottom.wf() && self.left.wf()
    }

    /// `e` is in the set.
    pub closed spec fn has(&self, e: MsEdge) -> bool {
        let c = Vec2i { x: e.cx, y: e.cy };
        if e.side == 0 { self.top.view_set().contains(c) }
        else if e.side == 1 { self.right.view_set().contains(c) }
        else if e.side == 2 { self.bottom.view_set().contains(c) }
        else if e.side == 3 { self.left.view_set().contains(c) }
        else { false }
    }

    pub fn new() -> (s: Self)
        ensures s.wf(), forall|e: MsEdge| !s.has(e),
    {
        EdgeSet { top: PointSet::new(), right: PointSet::new(), bottom: PointSet::new(), left: PointSet::new() }
    }

    pub fn contains(&self, e: MsEdge) -> (b: bool)
        requires self.wf(),
        ensures b == self.has(e),
    {
        let c = Vec2i::new(e.cx, e.cy);
        if e.side == 0 { self.top.contains(c) }
        else if e.side == 1 { self.right.contains(c) }
        else if e.side == 2 { self.bottom.contains(c) }
        else if e.side == 3 { self.left.contains(c) }
        else { false }
    }

    pub fn insert(&mut self, e: MsEdge)
        requires old(self).wf(), e.side < 4,
        ensures final(self).wf(), forall|d: MsEdge| #[trigger] final(self).has(d) <==> (old(self).has(d) || d == e),
    {
        let c = Vec2i::new(e.cx, e.cy);
        if e.side == 0 { let _ = self.top.insert(c); }
        else if e.side == 1 { let _ = self.right.insert(c); }
        else if e.side == 2 { let _ = self.bottom.insert(c); }
        else { let _ = self.left.insert(c); }
    }
}

/// The set of pixels listed in `s`.
pub open spec fn pixel_set(s: Seq<(i32, i32)>) -> Set<Vec2i> {
    Set::new(|p: Vec2i| exists|i: int| 0 <= i < s.len() && s[i].0 == p.x && s[i].1 == p.y)
}

/// The successor of boundary edge `e`.
fn next_edge(filled: &PointSet, e: MsEdge) -> (n: MsEdge)
    requires filled.wf(), pixels_inner(filled.view_set()), boundary_edge(filled.view_set(), e),
    ensures n == ms_next(filled.view_set(), e),
{
    proof { lemma_boundary_cell_range(filled.view_set(), e); }
    let case = cell_case_of(filled, e.cx, e.cy);
    let x = table_exit_of(case, e.side);
    if x == 0 { MsEdge { cx: e.cx, cy: e.cy - 1, side: 2 } }
    else if x == 1 { MsEdge { cx: e.cx + 1, cy: e.cy, side: 3 } }
    else if x == 2 { MsEdge { cx: e.cx, cy: e.cy + 1, side: 0 } }
    else { MsEdge { cx: e.cx - 1, cy: e.cy, side: 1 } }
}

/// Corner pattern of cell `(cx, cy)`.
fn cell_case_of(filled: &PointSet, cx: i32, cy: i32) -> (c: u8)
    requires filled.wf(), cx < i32::MAX, cy < i32::MAX,
    ensures c as int == cell_case(filled.view_set(), cx as int, cy as int),
{
    let tl = filled.contains(Vec2i::new(cx, cy));
    let tr = filled.contains(Vec2i::new(cx + 1, cy));
    let br = filled.contains(Vec2i::new(cx + 1, cy + 1));
    let bl = filled.contains(Vec2i::new(cx, cy + 1));
    (if tl { 8u8 } else { 0u8 }) + (if tr { 4u8 } else { 0u8 }) + (if br { 2u8 } else { 0u8 }) + (if bl { 1u8 } else { 0u8 })
}

/// A boundary edge's cell lies within one step of the pixels' bounding box, up and left.
proof fn lemma_boundary_in_box(f: Set<Vec2i>, e: MsEdge, x0: int, x1: int, y0: int, y1: int)
    requires
        pixels_inner(f),
        boundary_edge(f, e),
        forall|p: Vec2i| #[trigger] f.contains(p) ==> x0 <= p.x <= x1 && y0 <= p.y <= y1,
    ensures
        x0 - 1 <= e.cx <= x1,
        y0 - 1 <= e.cy <= y1,
{
    let cx = e.cx as int;
    let cy = e.cy as int;
    if sample(f, cx, cy) {
        assert(f.contains(Vec2i { x: cx as i32, y: cy as i32 }));
    } else if sample(f, cx + 1, cy) {
        assert(f.contains(Vec2i { x: (cx + 1) as i32, y: cy as i32 }));
    } else if sample(f, cx + 1, cy + 1) {
        assert(f.contains(Vec2i { x: (cx + 1) as i32, y: (cy + 1) as i32 }));
    } else {
        assert(sample(f, cx, cy + 1));
        assert(f.contains(Vec2i { x: cx as i32, y: (cy + 1) as i32 }));
    }
}

/// `v` holds exactly the edges of the contours `loops`.
#[verifier::opaque]
pub open spec fn covered_by(v: Set<MsEdge>, loops: Seq<Vec<MsEdge>>) -> bool {
    forall|e: MsEdge| v.contains(e) <==> exists|k: int, i: int| 0 <= k < loops.len() && 0 <= i < loops[k]@.len() && #[trigger] loops[k]@[i] == e
}

/// No edge occurs twice over all of `loops`.
#[verifier::opaque]
pub open spec fn loops_disjoint(loops: Seq<Vec<MsEdge>>) -> bool {
    forall|k1: int, i1: int, k2: int, i2: int|
        0 <= k1 < loops.len() && 0 <= i1 < loops[k1]@.len() && 0 <= k2 < loops.len() && 0 <= i2 < loops[k2]@.len()
        && (k1 != k2 || i1 != i2) ==> #[trigger] loops[k1]@[i1] != #[trigger] loops[k2]@[i2]
}

/// `v` is a union of whole contours: a boundary edge is in it exactly when its successor is.
#[verifier::opaque]
pub open spec fn closed_under_next(f: Set<Vec2i>, v: Set<MsEdge>) -> bool {
    forall|e: MsEdge| #[trigger] boundary_edge(f, e) ==> (v.contains(e) <==> v.contains(ms_next(f, e)))
}

/// The pixels of `local_positions` as a set, with their bounding box.
fn collect_pixels(local_positions: &Vec<(i32, i32)>) -> (r: (PointSet, i32, i32, i32, i32))
    requires
        local_positions.len() > 0,
        forall|i: int| 0 <= i < local_positions.len() ==> inner_by(Vec2i { x: (#[trigger] local_positions[i]).0, y: local_positions[i].1 }, 2),
    ensures
        r.0.wf(),
        r.0.view_set() == pixel_set(local_positions@),
        i32::MIN + 2 <= r.1 <= r.2 <= i32::MAX - 2,
        i32::MIN + 2 <= r.3 <= r.4 <= i32::MAX - 2,
        forall|p: Vec2i| #[trigger] pixel_set(local_positions@).contains(p) ==> r.1 <= p.x <= r.2 && r.3 <= p.y <= r.4,
{
    let ghost lp = local_positions@;
    let mut filled = PointSet::new();
    let mut lo_x = local_positions[0].0;
    let mut hi_x = lo_x;
    let mut lo_y = local_positions[0].1;
    let mut hi_y = lo_y;
    proof { assert(inner_by(Vec2i { x: lp[0].0, y: lp[0].1 }, 2)); }
    let mut i: usize = 0;
    while i < local_positions.len()
        invariant
            lp == local_positions@,
            forall|j: int| 0 <= j < lp.len() ==> inner_by(Vec2i { x: (#[trigger] lp[j]).0, y: lp[j].1 }, 2),
            i <= lp.len(),
            filled.wf(),
            forall|p: Vec2i| filled.view_set().contains(p) <==> exists|j: int| 0 <= j < i && lp[j].0 == p.x && lp[j].1 == p.y,
            i32::MIN + 2 <= lo_x <= hi_x <= i32::MAX - 2,
            i32::MIN + 2 <= lo_y <= hi_y <= i32::MAX - 2,
            forall|j: int| 0 <= j < i ==> lo_x <= (#[trigger] lp[j]).0 <= hi_x && lo_y <= lp[j].1 <= hi_y,
        decreases lp.len() - i,
    {
        let (x, y) = local_positions[i];
        proof { assert(inner_by(Vec2i { x: lp[i as int].0, y: lp[i as int].1 }, 2)); }
        let _ = filled.insert(Vec2i::new(x, y));
        if x < lo_x { lo_x = x; }
        if x > hi_x { hi_x = x; }
        if y < lo_y { lo_y = y; }
        if y > hi_y { hi_y = y; }
        proof {
            assert forall|p: Vec2i| filled.view_set().contains(p) <==> exists|j: int| 0 <= j < i + 1 && lp[j].0 == p.x && lp[j].1 == p.y by {
                if p == (Vec2i { x, y }) {
                    assert(lp[i as int].0 == p.x && lp[i as int].1 == p.y);
                }
            }
        }
        i = i + 1;
    }
    proof {
        assert(filled.view_set() =~= pixel_set(lp));
        assert forall|p: Vec2i| #[trigger] pixel_set(lp).contains(p) implies lo_x <= p.x <= hi_x && lo_y <= p.y <= hi_y by {
            let j = choose|j: int| 0 <= j < lp.len() && lp[j].0 == p.x && lp[j].1 == p.y;
            assert(lo_x <= lp[j].0 <= hi_x);
        }
    }
    (filled, lo_x, hi_x, lo_y, hi_y)
}

/// Every boundary edge of the pixels, cell by cell in row-major order over the cells around the
/// bounding box `[lo_x, hi_x] × [lo_y, hi_y]` of the pixels.
fn collect_boundary_edges(filled: &PointSet, lo_x: i32, hi_x: i32, lo_y: i32, hi_y: i32) -> (all: Vec<MsEdge>)
    requires
        filled.wf(),
        pixels_inner(filled.view_set()),
        i32::MIN + 2 <= lo_x <= hi_x <= i32::MAX - 2,
        i32::MIN + 2 <= lo_y <= hi_y <= i32::MAX - 2,
        forall|p: Vec2i| #[trigger] filled.view_set().contains(p) ==> lo_x <= p.x <= hi_x && lo_y <= p.y <= hi_y,
    ensures
        forall|d: MsEdge| #[trigger] all@.contains(d) <==> boundary_edge(filled.view_set(), d),
{
    let ghost f = filled.view_set();
    let min_x = lo_x - 1;
    let max_x = hi_x + 1;
    let min_y = lo_y - 1;
    let max_y = hi_y + 1;
    let mut all: Vec<MsEdge> = Vec::new();
    let mut cy = min_y;
    while cy < max_y
        invariant
            filled.wf(), filled.view_set() == f, pixels_inner(f),
            min_x == lo_x - 1, max_x == hi_x + 1, min_y == lo_y - 1, max_y == hi_y + 1,
            i32::MIN + 2 <= lo_x <= hi_x <= i32::MAX - 2,
            i32::MIN + 2 <= lo_y <= hi_y <= i32::MAX - 2,
            min_y <= cy <= max_y,
            forall|d: MsEdge| #[trigger] all@.contains(d) ==> boundary_edge(f, d),
            forall|d: MsEdge| #[trigger] boundary_edge(f, d) && d.cy < cy && min_x <= d.cx < max_x ==> all@.contains(d),
        decreases max_y - cy,
    {
        let mut cx = min_x;
        while cx < max_x
            invariant
                filled.wf(), filled.view_set() == f, pixels_inner(f),
                min_x == lo_x - 1, max_x == hi_x + 1, min_y == lo_y - 1, max_y == hi_y + 1,
                i32::MIN + 2 <= lo_x <= hi_x <= i32::MAX - 2,
                i32::MIN + 2 <= lo_y <= hi_y <= i32::MAX - 2,
                min_y <= cy < max_y,
                min_x <= cx <= max_x,
                forall|d: MsEdge| #[trigger] all@.contains(d) ==> boundary_edge(f, d),
                forall|d: MsEdge| #[trigger] boundary_edge(f, d) && (d.cy < cy || (d.cy == cy && d.cx < cx)) && min_x <= d.cx < max_x ==> all@.contains(d),
            decreases max_x - cx,
        {
            let case = cell_case_of(filled, cx, cy);
            let mut side: u8 = 0;
            while side < 4
                invariant
                    filled.wf(), filled.view_set() == f,
                    case as int == cell_case(f, cx as int, cy as int),
                    side <= 4,
                    forall|d: MsEdge| #[trigger] all@.contains(d) ==> boundary_edge(f, d),
                    forall|d: MsEdge| #[trigger] boundary_edge(f, d) && (d.cy < cy || (d.cy == cy && d.cx < cx)) && min_x <= d.cx < max_x ==> all@.contains(d),
                    forall|d: MsEdge| #[trigger] boundary_edge(f, d) && d.cy == cy && d.cx == cx && d.side < side ==> all@.contains(d),
                decreases 4 - side,
            {
                if table_exit_of(case, side) >= 0 {
                    let e = MsEdge { cx, cy, side };
                    let ghost before = all@;
                    all.push(e);
                    proof {
                        assert forall|d: MsEdge| #[trigger] all@.contains(d) implies boundary_edge(f, d) by {
                            lemma_push_has(before, e, d);
                        }
                        assert forall|d: MsEdge| #[trigger] boundary_edge(f, d) && (d.cy < cy || (d.cy == cy && d.cx < cx)) && min_x <= d.cx < max_x implies all@.contains(d) by {
                            lemma_push_has(before, e, d);
                        }
                        assert forall|d: MsEdge| #[trigger] boundary_edge(f, d) && d.cy == cy && d.cx == cx && d.side < side + 1 implies all@.contains(d) by {
                            lemma_push_has(before, e, d);
                        }
                    }
                }
                side = side + 1;
            }
            proof {
                assert forall|d: MsEdge| #[trigger] boundary_edge(f, d) && (d.cy < cy || (d.cy == cy && d.cx < cx + 1)) && min_x <= d.cx < max_x implies all@.contains(d) by {
                    if d.cy == cy && d.cx == cx {
                        lemma_boundary_cell_range(f, d);
                    }
                }
            }
            cx = cx + 1;
        }
        cy = cy + 1;
    }
    proof {
        assert forall|d: MsEdge| #[trigger] boundary_edge(f, d) implies all@.contains(d) by {
            lemma_boundary_in_box(f, d, lo_x as int, hi_x as int, lo_y as int, hi_y as int);
        }
    }
    all
}

/// The closed boundary contours of the pixels `local_positions`: every boundary edge of the pixel
/// set lies on exactly one of them, and each follows the boundary edge by edge with the pixels on
/// its right, back to where it started.
pub fn marching_squares_contours(local_positions: &Vec<(i32, i32)>) -> (loops: Vec<Vec<MsEdge>>)
    requires
        forall|i: int| 0 <= i < local_positions.len() ==> inner_by(Vec2i { x: (#[trigger] local_positions[i]).0, y: local_positions[i].1 }, 2),
    ensures
        forall|k: int| 0 <= k < loops.len() ==> ms_cycle(pixel_set(local_positions@), #[trigger] loops@[k]@),
        loops_disjoint(loops@),
        forall|e: MsEdge| #[trigger] boundary_edge(pixel_set(local_positions@), e) ==>
            exists|k: int, i: int| 0 <= k < loops.len() && 0 <= i < loops@[k]@.len() && loops@[k]@[i] == e,
{
    let ghost lp = local_positions@;
    let ghost f = pixel_set(lp);
    proof {
        assert forall|p: Vec2i| #[trigger] f.contains(p) implies inner_by(p, 2) by {
            let j = choose|j: int| 0 <= j < lp.len() && lp[j].0 == p.x && lp[j].1 == p.y;
            assert(inner_by(Vec2i { x: local_positions[j].0, y: local_positions[j].1 }, 2));
        }
    }
    if local_positions.len() == 0 {
        proof {
            reveal(loops_disjoint);
            assert forall|e: MsEdge| #[trigger] boundary_edge(f, e) implies false by {
                lemma_boundary_in_box(f, e, 0, -1, 0, -1);
            }
        }
        return Vec::new();
    }
    let (filled, lo_x, hi_x, lo_y, hi_y) = collect_pixels(local_positions);
    let all = collect_boundary_edges(&filled, lo_x, hi_x, lo_y, hi_y);
    let ghost bset = all@.to_set();
    let mut seen = EdgeSet::new();
    let ghost mut v: Set<MsEdge> = Set::empty();
    let mut loops: Vec<Vec<MsEdge>> = Vec::new();
    proof {
        reveal(loops_disjoint);
        reveal(covered_by);
        reveal(closed_under_next);
        vstd::seq_lib::seq_to_set_is_finite(all@);
    }
    let mut t: usize = 0;
    while t < all.len()
        invariant
            filled.wf(), filled.view_set() == f, pixels_inner(f),
            forall|d: MsEdge| #[trigger] all@.contains(d) <==> boundary_edge(f, d),
            bset == all@.to_set(),
            bset.finite(),
            t <= all@.len(),
            seen.wf(),
            v.finite(),
            forall|d: MsEdge| #[trigger] seen.has(d) <==> v.contains(d),
            forall|d: MsEdge| #[trigger] v.contains(d) ==> boundary_edge(f, d),
            closed_under_next(f, v),
            forall|j: int| 0 <= j < t ==> v.contains(#[trigger] all@[j]),
            forall|k: int| 0 <= k < loops.len() ==> ms_cycle(f, #[trigger] loops@[k]@),
            loops_disjoint(loops@),
            covered_by(v, loops@),
        decreases all@.len() - t,
    {
        let start = all[t];
        proof { assert(all@.contains(start)); }
        if !seen.contains(start) {
            let ghost v0 = v;
            let ghost l_before = loops@;
            proof {
                assert forall|d: MsEdge| #[trigger] boundary_edge(f, d) implies bset.contains(d) by {
                    assert(all@.contains(d));
                }
            }
            let poly = trace_contour(&filled, &mut seen, start, Ghost(f), Ghost(v0), Ghost(bset));
            let ghost pl = poly@;
            proof {
                v = lemma_after_trace(f, v0, l_before, pl, start);
            }
            loops.push(poly);
            proof {
                assert(loops@ == l_before.push(poly));
                lemma_loops_push(f, v0, v, l_before, loops@, pl);
            }
        }
        proof {
            assert(v.contains(all@[t as int]));
        }
        t = t + 1;
    }
    proof {
        lemma_loops_cover(f, v, loops@, all@);
    }
    loops
}

/// Everything `v` holds, as contours in `loops`, covers each edge of `all`.
proof fn lemma_loops_cover(f: Set<Vec2i>, v: Set<MsEdge>, loops: Seq<Vec<MsEdge>>, all: Seq<MsEdge>)
    requires
        covered_by(v, loops),
        forall|d: MsEdge| #[trigger] all.contains(d) <==> boundary_edge(f, d),
        forall|j: int| 0 <= j < all.len() ==> v.contains(#[trigger] all[j]),
    ensures
        forall|e: MsEdge| #[trigger] boundary_edge(f, e) ==>
            exists|k: int, i: int| 0 <= k < loops.len() && 0 <= i < loops[k]@.len() && loops[k]@[i] == e,
{
    reveal(covered_by);
    assert forall|e: MsEdge| #[trigger] boundary_edge(f, e) implies
        exists|k: int, i: int| 0 <= k < loops.len() && 0 <= i < loops[k]@.len() && loops[k]@[i] == e by {
        assert(all.contains(e));
        let j = choose|j: int| 0 <= j < all.len() && all[j] == e;
        assert(v.contains(all[j]));
        let (k, i) = choose|k: int, i: int| 0 <= k < loops.len() && 0 <= i < loops[k]@.len() && #[trigger] loops[k]@[i] == e;
    }
}

/// After tracing `pl` from `start` beside the whole contours `v0`, the visited edges are a union
/// of whole contours again.
proof fn lemma_after_trace(f: Set<Vec2i>, v0: Set<MsEdge>, l_before: Seq<Vec<MsEdge>>, pl: Seq<MsEdge>, start: MsEdge) -> (v: Set<MsEdge>)
    requires
        pixels_inner(f),
        v0.finite(),
        pl.len() > 0,
        pl[0] == start,
        ms_next(f, pl.last()) == start,
        forall|j: int| 0 <= j < pl.len() - 1 ==> #[trigger] pl[j + 1] == ms_next(f, pl[j]),
        forall|j: int| 0 <= j < pl.len() ==> boundary_edge(f, #[trigger] pl[j]),
        forall|d: MsEdge| #[trigger] v0.contains(d) ==> boundary_edge(f, d),
        closed_under_next(f, v0),
    ensures
        v == v0.union(pl.to_set()),
        v.finite(),
        forall|d: MsEdge| #[trigger] v.contains(d) <==> (v0.contains(d) || pl.contains(d)),
        forall|d: MsEdge| #[trigger] v.contains(d) ==> boundary_edge(f, d),
        closed_under_next(f, v),
        ms_cycle(f, pl),
{
    vstd::seq_lib::seq_to_set_is_finite(pl);
    let v = v0.union(pl.to_set());
    assert forall|d: MsEdge| #[trigger] v.contains(d) <==> (v0.contains(d) || pl.contains(d)) by {}
    assert forall|d: MsEdge| #[trigger] v.contains(d) implies boundary_edge(f, d) by {
        if pl.contains(d) {
            let j = choose|j: int| 0 <= j < pl.len() && pl[j] == d;
            assert(boundary_edge(f, pl[j]));
        }
    }
    lemma_trace_closes(f, v0, v, pl, start);
    v
}

/// Pushing `x` adds exactly `x` to what a sequence contains.
proof fn lemma_push_has(s: Seq<MsEdge>, x: MsEdge, y: MsEdge)
    ensures s.push(x).contains(y) <==> (s.contains(y) || y == x),
{
    if s.push(x).contains(y) {
        let j = choose|j: int| 0 <= j < s.push(x).len() && s.push(x)[j] == y;
        if j < s.len() {
            assert(s[j] == y);
        }
    }
    if s.contains(y) {
        let j = choose|j: int| 0 <= j < s.len() && s[j] == y;
        assert(s.push(x)[j] == y);
    }
    if y == x {
        assert(s.push(x)[s.len() as int] == y);
    }
}

/// A finished trace is a contour of at least three edges, and adding it to a union of whole
/// contours gives a union of whole contours.
proof fn lemma_trace_closes(f: Set<Vec2i>, v0: Set<MsEdge>, v: Set<MsEdge>, poly: Seq<MsEdge>, start: MsEdge)
    requires
        pixels_inner(f),
        poly.len() > 0,
        poly[0] == start,
        ms_next(f, poly.last()) == start,
        forall|d: MsEdge| #[trigger] v.contains(d) <==> (v0.contains(d) || poly.contains(d)),
        forall|j: int| 0 <= j < poly.len() - 1 ==> #[trigger] poly[j + 1] == ms_next(f, poly[j]),
        forall|j: int| 0 <= j < poly.len() ==> boundary_edge(f, #[trigger] poly[j]),
        forall|d: MsEdge| #[trigger] v0.contains(d) ==> boundary_edge(f, d),
        closed_under_next(f, v0),
    ensures
        poly.len() >= 3,
        closed_under_next(f, v),
{
    reveal(closed_under_next);
    let n = poly.len();
    let last = poly.last();
    assert(boundary_edge(f, poly[n - 1]));
    lemma_next_boundary(f, last);
    if n == 1 {
        assert(last == start);
    } else if n == 2 {
        assert(poly[0int + 1] == ms_next(f, poly[0int]));
        assert(ms_next(f, ms_next(f, start)) == start);
    }
    assert forall|e: MsEdge| #[trigger] boundary_edge(f, e) implies (v.contains(e) <==> v.contains(ms_next(f, e))) by {
        lemma_next_boundary(f, e);
        if poly.contains(e) {
            let j = choose|j: int| 0 <= j < poly.len() && poly[j] == e;
            if j < n - 1 {
                assert(poly[j + 1] == ms_next(f, e));
                assert(poly.contains(poly[j + 1]));
            } else {
                assert(poly.contains(poly[0]));
            }
        }
        if poly.contains(ms_next(f, e)) && !v0.contains(e) {
            let j = choose|j: int| 0 <= j < poly.len() && poly[j] == ms_next(f, e);
            if j > 0 {
                let jm = j - 1;
                assert(poly[jm + 1] == ms_next(f, poly[jm]));
                lemma_next_injective(f, poly[jm], e);
                assert(poly.contains(poly[jm]));
            } else {
                lemma_next_injective(f, last, e);
                assert(poly.contains(poly[n - 1]));
            }
        }
        if v0.contains(ms_next(f, e)) {
            assert(v0.contains(e));
        }
        if v0.contains(e) {
            assert(v0.contains(ms_next(f, e)));
        }
    }
}

/// Appending the finished contour `pl`, whose edges are those `v` adds to `v0`, keeps the contours
/// valid, disjoint, and exactly covering `v`.
proof fn lemma_loops_push(f: Set<Vec2i>, v0: Set<MsEdge>, v: Set<MsEdge>, l_before: Seq<Vec<MsEdge>>, loops: Seq<Vec<MsEdge>>, pl: Seq<MsEdge>)
    requires
        loops.len() == l_before.len() + 1,
        forall|k: int| 0 <= k < l_before.len() ==> #[trigger] loops[k] == l_before[k],
        loops[l_before.len() as int]@ == pl,
        ms_cycle(f, pl),
        forall|a: int, b: int| 0 <= a < b < pl.len() ==> #[trigger] pl[a] != #[trigger] pl[b],
        forall|d: MsEdge| #[trigger] v.contains(d) <==> (v0.contains(d) || pl.contains(d)),
        forall|j: int| 0 <= j < pl.len() ==> !v0.contains(#[trigger] pl[j]),
        forall|k: int| 0 <= k < l_before.len() ==> ms_cycle(f, #[trigger] l_before[k]@),
        loops_disjoint(l_before),
        covered_by(v0, l_before),
    ensures
        forall|k: int| 0 <= k < loops.len() ==> ms_cycle(f, #[trigger] loops[k]@),
        loops_disjoint(loops),
        covered_by(v, loops),
{
    reveal(loops_disjoint);
    reveal(covered_by);
    let k_new = l_before.len() as int;
    assert forall|k: int| 0 <= k < loops.len() implies ms_cycle(f, #[trigger] loops[k]@) by {
        if k < k_new { assert(loops[k] == l_before[k]); }
    }
    assert forall|k1: int, i1: int, k2: int, i2: int|
        0 <= k1 < loops.len() && 0 <= i1 < loops[k1]@.len() && 0 <= k2 < loops.len() && 0 <= i2 < loops[k2]@.len()
        && (k1 != k2 || i1 != i2) implies #[trigger] loops[k1]@[i1] != #[trigger] loops[k2]@[i2] by {
        if k1 < k_new && k2 < k_new {
            assert(loops[k1] == l_before[k1] && loops[k2] == l_before[k2]);
        } else if k1 < k_new {
            assert(loops[k1] == l_before[k1]);
            assert(v0.contains(l_before[k1]@[i1]));
            assert(pl.contains(pl[i2]));
        } else if k2 < k_new {
            assert(loops[k2] == l_before[k2]);
            assert(v0.contains(l_before[k2]@[i2]));
            assert(pl.contains(pl[i1]));
        } else if i1 < i2 {
            assert(pl[i1] != pl[i2]);
        } else {
            assert(pl[i2] != pl[i1]);
        }
    }
    assert forall|e: MsEdge| v.contains(e) <==> exists|k: int, i: int| 0 <= k < loops.len() && 0 <= i < loops[k]@.len() && #[trigger] loops[k]@[i] == e by {
        if v0.contains(e) {
            let (k, i) = choose|k: int, i: int| 0 <= k < l_before.len() && 0 <= i < l_before[k]@.len() && #[trigger] l_before[k]@[i] == e;
            assert(loops[k] == l_before[k]);
            assert(loops[k]@[i] == e);
        } else if pl.contains(e) {
            let i = choose|i: int| 0 <= i < pl.len() && pl[i] == e;
            assert(loops[k_new]@[i] == e);
        }
        if exists|k: int, i: int| 0 <= k < loops.len() && 0 <= i < loops[k]@.len() && #[trigger] loops[k]@[i] == e {
            let (k, i) = choose|k: int, i: int| 0 <= k < loops.len() && 0 <= i < loops[k]@.len() && #[trigger] loops[k]@[i] == e;
            if k < k_new {
                assert(loops[k] == l_before[k]);
                assert(l_before[k]@[i] == e);
            } else {
                assert(pl.contains(pl[i]));
            }
        }
    }
}


/// Follows the boundary from `start` until it comes back, marking each edge in `seen`.
fn trace_contour(filled: &PointSet, seen: &mut EdgeSet, start: MsEdge, Ghost(f): Ghost<Set<Vec2i>>,
    Ghost(v0): Ghost<Set<MsEdge>>, Ghost(bset): Ghost<Set<MsEdge>>) -> (poly: Vec<MsEdge>)
    requires
        filled.wf(), filled.view_set() == f, pixels_inner(f),
        old(seen).wf(),
        v0.finite(),
        bset.finite(),
        forall|d: MsEdge| #[trigger] old(seen).has(d) <==> v0.contains(d),
        forall|d: MsEdge| #[trigger] v0.contains(d) ==> boundary_edge(f, d),
        forall|d: MsEdge| #[trigger] boundary_edge(f, d) ==> bset.contains(d),
        closed_under_next(f, v0),
        boundary_edge(f, start),
        !v0.contains(start),
    ensures
        final(seen).wf(),
        poly@.len() > 0,
        poly@[0] == start,
        ms_next(f, poly@.last()) == start,
        forall|d: MsEdge| #[trigger] final(seen).has(d) <==> (v0.contains(d) || poly@.contains(d)),
        forall|j: int| 0 <= j < poly@.len() - 1 ==> #[trigger] poly@[j + 1] == ms_next(f, poly@[j]),
        forall|j: int| 0 <= j < poly@.len() ==> boundary_edge(f, #[trigger] poly@[j]),
        forall|a: int, b: int| 0 <= a < b < poly@.len() ==> #[trigger] poly@[a] != #[trigger] poly@[b],
        forall|j: int| 0 <= j < poly@.len() ==> !v0.contains(#[trigger] poly@[j]),
{
    let ghost mut v = v0;
    let mut poly: Vec<MsEdge> = Vec::new();
    let mut cur = start;
    loop
        invariant_except_break
            !v.contains(cur),
        invariant
            filled.wf(), filled.view_set() == f, pixels_inner(f),
            forall|d: MsEdge| #[trigger] boundary_edge(f, d) ==> bset.contains(d),
            bset.finite(),
            seen.wf(),
            v.finite(),
            forall|d: MsEdge| #[trigger] seen.has(d) <==> v.contains(d),
            forall|d: MsEdge| #[trigger] v.contains(d) <==> (v0.contains(d) || poly@.contains(d)),
            forall|d: MsEdge| #[trigger] v0.contains(d) ==> boundary_edge(f, d),
            closed_under_next(f, v0),
            boundary_edge(f, start),
            !v0.contains(start),
            boundary_edge(f, cur),
            poly@.len() == 0 ==> cur == start,
            poly@.len() > 0 ==> poly@[0] == start && cur == ms_next(f, poly@.last()),
            forall|j: int| 0 <= j < poly@.len() - 1 ==> #[trigger] poly@[j + 1] == ms_next(f, poly@[j]),
            forall|j: int| 0 <= j < poly@.len() ==> boundary_edge(f, #[trigger] poly@[j]),
            forall|a: int, b: int| 0 <= a < b < poly@.len() ==> #[trigger] poly@[a] != #[trigger] poly@[b],
            forall|j: int| 0 <= j < poly@.len() ==> !v0.contains(#[trigger] poly@[j]),
        ensures
            forall|j: int| 0 <= j < poly@.len() ==> !v0.contains(#[trigger] poly@[j]),
            poly@.len() > 0,
            poly@[0] == start,
            ms_next(f, poly@.last()) == start,
            forall|d: MsEdge| #[trigger] v.contains(d) <==> (v0.contains(d) || poly@.contains(d)),
            forall|j: int| 0 <= j < poly@.len() - 1 ==> #[trigger] poly@[j + 1] == ms_next(f, poly@[j]),
            forall|j: int| 0 <= j < poly@.len() ==> boundary_edge(f, #[trigger] poly@[j]),
            forall|a: int, b: int| 0 <= a < b < poly@.len() ==> #[trigger] poly@[a] != #[trigger] poly@[b],
            seen.wf(),
            v.finite(),
            forall|d: MsEdge| #[trigger] seen.has(d) <==> v.contains(d),
        decreases bset.len() - v.len(),
    {
        proof {
            lemma_boundary_cell_range(f, cur);
            assert forall|d: MsEdge| v.contains(d) implies bset.contains(d) by {
                if !v0.contains(d) {
                    let j = choose|j: int| 0 <= j < poly@.len() && poly@[j] == d;
                    assert(boundary_edge(f, poly@[j]));
                }
            }
            vstd::set_lib::lemma_len_subset(v.insert(cur), bset);
        }
        seen.insert(cur);
        proof { v = v.insert(cur); }
        let ghost p_before = poly@;
        poly.push(cur);
        let nxt = next_edge(filled, cur);
        proof {
            lemma_next_boundary(f, cur);
            assert forall|d: MsEdge| #[trigger] v.contains(d) <==> (v0.contains(d) || poly@.contains(d)) by {
                lemma_push_has(p_before, cur, d);
            }
            assert forall|j: int| 0 <= j < poly@.len() - 1 implies #[trigger] poly@[j + 1] == ms_next(f, poly@[j]) by {
                if j < p_before.len() - 1 {
                    assert(poly@[j] == p_before[j] && poly@[j + 1] == p_before[j + 1]);
                } else {
                    assert(poly@[j] == p_before.last());
                }
            }
            assert forall|a: int, b: int| 0 <= a < b < poly@.len() implies #[trigger] poly@[a] != #[trigger] poly@[b] by {
                assert(poly@[a] == p_before[a]);
                if b < p_before.len() {
                    assert(poly@[b] == p_before[b]);
                } else {
                    assert(p_before.contains(p_before[a]));
                }
            }
            assert forall|j: int| 0 <= j < poly@.len() implies !v0.contains(#[trigger] poly@[j]) by {
                if j < p_before.len() {
                    assert(poly@[j] == p_before[j]);
                }
            }
        }
        cur = nxt;
        if cur == start {
            break;
        }
        proof {
            let last = poly@.last();
            assert(!v0.contains(last)) by {
                lemma_push_has(p_before, last, last);
            }
            assert(!v0.contains(cur)) by {
                reveal(closed_under_next);
                assert(boundary_edge(f, last));
            }
            assert(!poly@.contains(cur)) by {
                if poly@.contains(cur) {
                    let j = choose|j: int| 0 <= j < poly@.len() && poly@[j] == cur;
                    if j > 0 {
                        let jm = j - 1;
                        assert(poly@[jm + 1] == ms_next(f, poly@[jm]));
                        lemma_next_injective(f, poly@[jm], last);
                        assert(poly@[jm] == poly@[poly@.len() - 1]);
                    }
                }
            }
        }
    }
    poly
}

} // verus!
