//! Cell storage: the dense double-buffered grid, a pool of chunk slabs, and chunks keyed by
//! chunk coordinate.
use vstd::prelude::*;
use vstd::arithmetic::div_mod::{lemma_fundamental_div_mod, lemma_mod_bound};

use std::collections::HashMap;

use super::geom::{chunk_local_index, div_floor, spec_div_floor, ChunkCoord, RectI, Vec2i, CHUNK_SIZE};
use super::material;
use crate::cell64::{Cell, CellFields};

verus! {

broadcast use vstd::std_specs::hash::group_hash_axioms;

/// Row-major index of `p` in a grid of width `w` whose top-left cell is `o`.
pub open spec fn grid_index_of(o: Vec2i, w: int, p: Vec2i) -> int {
    (p.y - o.y) * w + (p.x - o.x)
}

/// `p` lies in the `w`×`h` grid whose top-left cell is `o`.
pub open spec fn grid_contains(o: Vec2i, w: int, h: int, p: Vec2i) -> bool {
    o.x <= p.x < o.x + w && o.y <= p.y < o.y + h
}

/// The cell position of row-major index `i` in a grid of width `w` at `o`.
pub open spec fn grid_pos_of(o: Vec2i, w: int, i: int) -> Vec2i {
    Vec2i { x: (o.x + i % w) as i32, y: (o.y + i / w) as i32 }
}

/// A grid geometry whose every cell coordinate fits in `i32` and whose cell count fits in `usize`.
pub open spec fn grid_geometry_ok(o: Vec2i, w: int, h: int) -> bool {
    &&& 0 <= w <= i32::MAX && 0 <= h <= i32::MAX
    &&& w * h <= usize::MAX
    &&& o.x + w <= i32::MAX
    &&& o.y + h <= i32::MAX
}

pub proof fn lemma_grid_index_bounds(o: Vec2i, w: int, h: int, p: Vec2i)
    requires grid_geometry_ok(o, w, h), grid_contains(o, w, h, p),
    ensures
        0 <= grid_index_of(o, w, p) < w * h,
        0 <= (p.y - o.y) * w <= grid_index_of(o, w, p),
        w * h <= 0x4000_0000_0000_0000,
{
    let x = p.x - o.x;
    let y = p.y - o.y;
    assert(0 <= y * w + x < w * h && 0 <= y * w) by (nonlinear_arith)
        requires 0 <= x < w, 0 <= y < h;
    assert(w * h <= 0x4000_0000_0000_0000) by (nonlinear_arith)
        requires 0 <= w <= 0x8000_0000, 0 <= h <= 0x8000_0000;
}

pub proof fn lemma_grid_index_injective(o: Vec2i, w: int, h: int, p: Vec2i, q: Vec2i)
    requires
        grid_geometry_ok(o, w, h), grid_contains(o, w, h, p), grid_contains(o, w, h, q),
        grid_index_of(o, w, p) == grid_index_of(o, w, q),
    ensures p == q,
{
    let px = p.x - o.x;
    let py = p.y - o.y;
    let qx = q.x - o.x;
    let qy = q.y - o.y;
    assert(py == qy && px == qx) by (nonlinear_arith)
        requires 0 <= px < w, 0 <= qx < w, 0 <= py, 0 <= qy, py * w + px == qy * w + qx,
    {
        if py < qy {
            assert(py * w + w <= qy * w);
        } else if qy < py {
            assert(qy * w + w <= py * w);
        }
    }
}

pub proof fn lemma_grid_pos_roundtrip(o: Vec2i, w: int, h: int, i: int)
    requires grid_geometry_ok(o, w, h), 0 <= i < w * h,
    ensures
        w > 0,
        grid_contains(o, w, h, grid_pos_of(o, w, i)),
        grid_index_of(o, w, grid_pos_of(o, w, i)) == i,
        grid_pos_of(o, w, i).x == o.x + i % w,
        grid_pos_of(o, w, i).y == o.y + i / w,
{
    assert(w > 0) by (nonlinear_arith) requires 0 <= i < w * h, w >= 0, h >= 0;
    lemma_fundamental_div_mod(i, w);
    lemma_mod_bound(i, w);
    let q = i / w;
    let r = i % w;
    assert(0 <= q < h) by (nonlinear_arith)
        requires i == w * q + r, 0 <= r < w, 0 <= i < w * h, w > 0,
    {
        if q >= h {
            assert(w * q >= w * h);
        }
        if q < 0 {
            assert(w * q <= -w);
        }
    }
    assert(q * w + r == i) by (nonlinear_arith) requires i == w * q + r;
}

pub struct DenseCellStore {
    grid0: Vec<Cell>,
    grid1: Vec<Cell>,
    read_idx: usize,
    width: i32,
    height: i32,
    origin: Vec2i,
}

impl DenseCellStore {
    pub closed spec fn spec_width(&self) -> int { self.width as int }
    pub closed spec fn spec_height(&self) -> int { self.height as int }
    pub closed spec fn spec_origin(&self) -> Vec2i { self.origin }

    /// Committed cells (the read buffer).
    pub closed spec fn read_view(&self) -> Seq<Cell> {
        if self.read_idx == 0 { self.grid0@ } else { self.grid1@ }
    }

    /// In-progress cells (the write buffer).
    pub closed spec fn write_view(&self) -> Seq<Cell> {
        if self.read_idx == 0 { self.grid1@ } else { self.grid0@ }
    }

    pub closed spec fn inner_ok(&self) -> bool {
        self.read_idx < 2
    }

    pub open spec fn wf(&self) -> bool {
        &&& self.inner_ok()
        &&& grid_geometry_ok(self.spec_origin(), self.spec_width(), self.spec_height())
        &&& self.read_view().len() == self.spec_width() * self.spec_height()
        &&& self.write_view().len() == self.spec_width() * self.spec_height()
    }

    pub open spec fn contains(&self, p: Vec2i) -> bool {
        grid_contains(self.spec_origin(), self.spec_width(), self.spec_height(), p)
    }

    pub open spec fn index_of(&self, p: Vec2i) -> int {
        grid_index_of(self.spec_origin(), self.spec_width(), p)
    }

    pub open spec fn pos_of(&self, i: int) -> Vec2i {
        grid_pos_of(self.spec_origin(), self.spec_width(), i)
    }

    /// Committed cell at `p` (meaningful when `self.contains(p)`).
    pub open spec fn read_at(&self, p: Vec2i) -> Cell {
        self.read_view()[self.index_of(p)]
    }

    pub open spec fn same_geometry(&self, other: &DenseCellStore) -> bool {
        &&& self.spec_width() == other.spec_width()
        &&& self.spec_height() == other.spec_height()
        &&& self.spec_origin() == other.spec_origin()
    }

    /// Writing index `index_of(p)` changes the committed cell at `p` only.
    pub proof fn lemma_read_at_update(&self, other: &DenseCellStore, p: Vec2i, c: Cell)
        requires
            self.wf(), other.wf(), self.same_geometry(other), self.contains(p),
            other.read_view() == self.read_view().update(self.index_of(p), c),
        ensures
            other.read_at(p) == c,
            forall|q: Vec2i| #[trigger] other.contains(q) && q != p ==> other.read_at(q) == self.read_at(q),
    {
        lemma_grid_index_bounds(self.spec_origin(), self.spec_width(), self.spec_height(), p);
        assert forall|q: Vec2i| #[trigger] other.contains(q) && q != p implies other.read_at(q) == self.read_at(q) by {
            lemma_grid_index_bounds(self.spec_origin(), self.spec_width(), self.spec_height(), q);
            if self.index_of(q) == self.index_of(p) {
                lemma_grid_index_injective(self.spec_origin(), self.spec_width(), self.spec_height(), p, q);
            }
        }
    }

    /// A zeroed `width`×`height` grid whose top-left cell is `origin`. It is well formed when every
    /// cell coordinate of the grid fits in `i32`.
    pub fn new(width: i32, height: i32, origin: Vec2i) -> (s: Self)
        requires 0 <= width, 0 <= height, width * height <= i32::MAX,
        ensures
            s.wf() == grid_geometry_ok(origin, width as int, height as int),
            s.spec_width() == width,
            s.spec_height() == height,
            s.spec_origin() == origin,
            s.read_view() == Seq::new((width * height) as nat, |i: int| Cell(0)),
            s.write_view() == Seq::new((width * height) as nat, |i: int| Cell(0)),
    {
        proof {
            assert(width * height >= 0) by (nonlinear_arith) requires width >= 0, height >= 0;
        }
        let total = (width as usize) * (height as usize);
        let g0 = zeroed_cells(total);
        let g1 = zeroed_cells(total);
        DenseCellStore { grid0: g0, grid1: g1, read_idx: 0, width, height, origin }
    }

    pub fn width(&self) -> (w: i32)
        ensures w == self.spec_width(),
    {
        self.width
    }

    pub fn height(&self) -> (h: i32)
        ensures h == self.spec_height(),
    {
        self.height
    }

    pub fn origin(&self) -> (o: Vec2i)
        ensures o == self.spec_origin(),
    {
        self.origin
    }

    /// Replaces both buffers with zeroed ones of the new geometry, unless it is unchanged.
    pub fn resize(&mut self, width: i32, height: i32, origin: Vec2i)
        requires old(self).wf(), grid_geometry_ok(origin, width as int, height as int), width * height <= i32::MAX,
        ensures
            final(self).wf(),
            final(self).spec_width() == width,
            final(self).spec_height() == height,
            final(self).spec_origin() == origin,
            (old(self).spec_width() == width && old(self).spec_height() == height
                && old(self).spec_origin() == origin) ==> *final(self) == *old(self),
            !(old(self).spec_width() == width && old(self).spec_height() == height
                && old(self).spec_origin() == origin) ==> {
                &&& final(self).read_view() == Seq::new((width * height) as nat, |i: int| Cell(0))
                &&& final(self).write_view() == Seq::new((width * height) as nat, |i: int| Cell(0))
            },
    {
        if self.width == width && self.height == height && self.origin == origin {
            return;
        }
        *self = DenseCellStore::new(width, height, origin);
    }

    /// Row-major index of `p`, `None` outside the grid.
    pub fn grid_index(&self, p: Vec2i) -> (r: Option<usize>)
        requires self.wf(),
        ensures
            self.contains(p) ==> r == Some(self.index_of(p) as usize),
            !self.contains(p) ==> r is None,
            r matches Some(i) ==> i < self.read_view().len(),
            self.contains(p) ==> 0 <= self.index_of(p) < self.read_view().len(),
    {
        let x = p.x as i64 - self.origin.x as i64;
        let y = p.y as i64 - self.origin.y as i64;
        if x < 0 || x >= self.width as i64 || y < 0 || y >= self.height as i64 {
            return None;
        }
        proof {
            lemma_grid_index_bounds(self.origin, self.width as int, self.height as int, p);
        }
        Some((y * self.width as i64 + x) as usize)
    }

    pub fn get_read(&self, p: Vec2i) -> (r: Option<Cell>)
        requires self.wf(),
        ensures
            self.contains(p) ==> r == Some(self.read_at(p)),
            !self.contains(p) ==> r is None,
    {
        match self.grid_index(p) {
            Some(idx) => {
                if self.read_idx == 0 { Some(self.grid0[idx]) } else { Some(self.grid1[idx]) }
            }
            None => None,
        }
    }

    /// Writes `cell` to the committed buffer at `p`; `false` (and no change) outside the grid.
    pub fn set_read(&mut self, p: Vec2i, cell: Cell) -> (ok: bool)
        requires old(self).wf(),
        ensures
            final(self).wf(),
            final(self).same_geometry(old(self)),
            ok == old(self).contains(p),
            ok ==> final(self).read_view() == old(self).read_view().update(old(self).index_of(p), cell),
            !ok ==> final(self).read_view() == old(self).read_view(),
            !ok ==> *final(self) == *old(self),
            final(self).write_view() == old(self).write_view(),
    {
        match self.grid_index(p) {
            Some(idx) => {
                if self.read_idx == 0 { self.grid0.set(idx, cell); } else { self.grid1.set(idx, cell); }
                true
            }
            None => false,
        }
    }

    /// In-progress cell at `p` (meaningful when `self.contains(p)`).
    pub open spec fn write_at(&self, p: Vec2i) -> Cell {
        self.write_view()[self.index_of(p)]
    }

    /// Writing index `index_of(p)` of the write buffer changes the in-progress cell at `p` only.
    pub proof fn lemma_write_at_update(&self, other: &DenseCellStore, p: Vec2i, c: Cell)
        requires
            self.wf(), other.wf(), self.same_geometry(other), self.contains(p),
            other.write_view() == self.write_view().update(self.index_of(p), c),
        ensures
            other.write_at(p) == c,
            forall|q: Vec2i| #[trigger] other.contains(q) && q != p ==> other.write_at(q) == self.write_at(q),
    {
        lemma_grid_index_bounds(self.spec_origin(), self.spec_width(), self.spec_height(), p);
        assert forall|q: Vec2i| #[trigger] other.contains(q) && q != p implies other.write_at(q) == self.write_at(q) by {
            lemma_grid_index_bounds(self.spec_origin(), self.spec_width(), self.spec_height(), q);
            if self.index_of(q) == self.index_of(p) {
                lemma_grid_index_injective(self.spec_origin(), self.spec_width(), self.spec_height(), p, q);
            }
        }
    }

    /// In-progress cell at `p`; `None` outside the grid.
    pub fn get_write(&self, p: Vec2i) -> (r: Option<Cell>)
        requires self.wf(),
        ensures
            self.contains(p) ==> r == Some(self.write_at(p)),
            !self.contains(p) ==> r is None,
    {
        match self.grid_index(p) {
            Some(idx) => {
                if self.read_idx == 0 { Some(self.grid1[idx]) } else { Some(self.grid0[idx]) }
            }
            None => None,
        }
    }

    /// Writes `cell` to the in-progress buffer at `p`; `false` (and no change) outside the grid.
    pub fn set_write(&mut self, p: Vec2i, cell: Cell) -> (ok: bool)
        requires old(self).wf(),
        ensures
            final(self).wf(),
            final(self).same_geometry(old(self)),
            ok == old(self).contains(p),
            ok ==> final(self).write_view() == old(self).write_view().update(old(self).index_of(p), cell),
            !ok ==> *final(self) == *old(self),
            final(self).read_view() == old(self).read_view(),
    {
        match self.grid_index(p) {
            Some(idx) => {
                if self.read_idx == 0 { self.grid1.set(idx, cell); } else { self.grid0.set(idx, cell); }
                true
            }
            None => false,
        }
    }

    /// Copies the committed buffer into the write buffer.
    pub fn prepare_sim(&mut self)
        requires old(self).wf(),
        ensures
            final(self).wf(),
            final(self).same_geometry(old(self)),
            final(self).read_view() == old(self).read_view(),
            final(self).write_view() == old(self).read_view(),
    {
        if self.read_idx == 0 {
            self.grid1 = self.grid0.clone();
        } else {
            self.grid0 = self.grid1.clone();
        }
    }

    /// Commits the write buffer: the two buffers swap roles.
    pub fn finish_sim(&mut self)
        requires old(self).wf(),
        ensures
            final(self).wf(),
            final(self).same_geometry(old(self)),
            final(self).read_view() == old(self).write_view(),
            final(self).write_view() == old(self).read_view(),
    {
        self.read_idx = 1 - self.read_idx;
    }

    pub fn read_cells(&self) -> (s: &[Cell])
        requires self.wf(),
        ensures s@ == self.read_view(),
    {
        if self.read_idx == 0 { self.grid0.as_slice() } else { self.grid1.as_slice() }
    }

    /// Read buffer (committed state) and write buffer (in-progress sim) before [`Self::finish_sim`].
    pub fn read_write_cell_slices(&self) -> (r: (&[Cell], &[Cell]))
        requires self.wf(),
        ensures r.0@ == self.read_view(), r.1@ == self.write_view(),
    {
        if self.read_idx == 0 {
            (self.grid0.as_slice(), self.grid1.as_slice())
        } else {
            (self.grid1.as_slice(), self.grid0.as_slice())
        }
    }

    pub fn write_cells_mut(&mut self) -> (s: &mut [Cell])
        requires old(self).wf(),
        ensures
            s@ == old(self).write_view(),
            final(s)@.len() == s@.len() ==> {
                &&& final(self).wf()
                &&& final(self).same_geometry(old(self))
                &&& final(self).read_view() == old(self).read_view()
                &&& final(self).write_view() == final(s)@
            },
    {
        if self.read_idx == 0 { self.grid1.as_mut_slice() } else { self.grid0.as_mut_slice() }
    }

    pub fn write_cells_len(&self) -> (n: usize)
        requires self.wf(),
        ensures n == self.write_view().len(),
    {
        if self.read_idx == 0 { self.grid1.len() } else { self.grid0.len() }
    }

    /// Moves the grid to a new origin and size, preserving cells in the overlapping region;
    /// the other cells become zero. Returns the old read buffer and the old geometry.
    pub fn relocate(&mut self, new_origin: Vec2i, new_w: i32, new_h: i32) -> (r: (Vec<Cell>, Vec2i, i32, i32))
        requires
            old(self).wf(),
            grid_geometry_ok(new_origin, new_w as int, new_h as int),
        ensures
            final(self).wf(),
            final(self).spec_origin() == new_origin,
            final(self).spec_width() == new_w,
            final(self).spec_height() == new_h,
            r.0@ == old(self).read_view(),
            r.1 == old(self).spec_origin(),
            r.2 == old(self).spec_width(),
            r.3 == old(self).spec_height(),
            final(self).write_view() == final(self).read_view(),
            forall|p: Vec2i| #[trigger] final(self).contains(p) ==> final(self).read_at(p) == (
                if old(self).contains(p) { old(self).read_at(p) } else { Cell(0) }),
    {
        let old_origin = self.origin;
        let old_w = self.width;
        let old_h = self.height;
        let old_read = if self.read_idx == 0 { self.grid0.clone() } else { self.grid1.clone() };
        let ghost old_self = *self;
        proof {
            assert(new_w * new_h >= 0) by (nonlinear_arith) requires new_w >= 0, new_h >= 0;
        }
        let total = (new_w as usize) * (new_h as usize);
        let mut new_grid: Vec<Cell> = Vec::new();
        let mut i: usize = 0;
        while i < total
            invariant
                old_self.wf(),
                old_read@ == old_self.read_view(),
                old_origin == old_self.spec_origin(),
                old_w == old_self.spec_width(),
                old_h == old_self.spec_height(),
                grid_geometry_ok(new_origin, new_w as int, new_h as int),
                total == new_w * new_h,
                i <= total,
                new_grid@.len() == i,
                forall|j: int| 0 <= j < i ==> {
                    let p = #[trigger] grid_pos_of(new_origin, new_w as int, j);
                    new_grid@[j] == if old_self.contains(p) { old_self.read_at(p) } else { Cell(0) }
                },
            decreases total - i,
        {
            proof {
                lemma_grid_pos_roundtrip(new_origin, new_w as int, new_h as int, i as int);
            }
            let x = new_origin.x + (i % (new_w as usize)) as i32;
            let y = new_origin.y + (i / (new_w as usize)) as i32;
            let p = Vec2i::new(x, y);
            assert(p == grid_pos_of(new_origin, new_w as int, i as int));
            let ox = x as i64 - old_origin.x as i64;
            let oy = y as i64 - old_origin.y as i64;
            let c = if ox >= 0 && ox < old_w as i64 && oy >= 0 && oy < old_h as i64 {
                proof {
                    lemma_grid_index_bounds(old_origin, old_w as int, old_h as int, p);
                }
                old_read[(oy * old_w as i64 + ox) as usize]
            } else {
                Cell::new()
            };
            new_grid.push(c);
            i = i + 1;
        }
        let copy = new_grid.clone();
        self.grid0 = new_grid;
        self.grid1 = copy;
        self.read_idx = 0;
        self.width = new_w;
        self.height = new_h;
        self.origin = new_origin;
        proof {
            assert forall|p: Vec2i| #[trigger] self.contains(p) implies self.read_at(p) == (
                if old_self.contains(p) { old_self.read_at(p) } else { Cell(0) }) by {
                lemma_grid_index_bounds(new_origin, new_w as int, new_h as int, p);
                let j = grid_index_of(new_origin, new_w as int, p);
                lemma_grid_pos_roundtrip(new_origin, new_w as int, new_h as int, j);
                lemma_grid_index_injective(new_origin, new_w as int, new_h as int, p, grid_pos_of(new_origin, new_w as int, j));
            }
        }
        (old_read, old_origin, old_w, old_h)
    }

    /// Zeroes every non-empty committed cell outside `bounds`.
    pub fn clear_outside_rect(&mut self, bounds: RectI)
        requires old(self).wf(),
        ensures
            final(self).wf(),
            final(self).same_geometry(old(self)),
            final(self).write_view() == old(self).write_view(),
            forall|p: Vec2i| #[trigger] final(self).contains(p) ==> final(self).read_at(p) == (
                if !bounds.spec_contains(p) && old(self).read_at(p)@.material != material::EMPTY {
                    Cell(0)
                } else {
                    old(self).read_at(p)
                }),
    {
        let ghost old_self = *self;
        let n = if self.read_idx == 0 { self.grid0.len() } else { self.grid1.len() };
        let w = self.width;
        let h = self.height;
        let o = self.origin;
        let mut i: usize = 0;
        while i < n
            invariant
                old_self.wf(),
                self.wf(),
                self.same_geometry(&old_self),
                self.write_view() == old_self.write_view(),
                w == self.spec_width(), h == self.spec_height(), o == self.spec_origin(),
                n == self.read_view().len(),
                i <= n,
                forall|j: int| i <= j < n ==> self.read_view()[j] == old_self.read_view()[j],
                forall|j: int| 0 <= j < i ==> {
                    let p = #[trigger] grid_pos_of(o, w as int, j);
                    self.read_view()[j] == if !bounds.spec_contains(p)
                        && old_self.read_view()[j]@.material != material::EMPTY {
                        Cell(0)
                    } else {
                        old_self.read_view()[j]
                    }
                },
            decreases n - i,
        {
            proof {
                lemma_grid_pos_roundtrip(o, w as int, h as int, i as int);
            }
            let x = o.x + (i % (w as usize)) as i32;
            let y = o.y + (i / (w as usize)) as i32;
            let p = Vec2i::new(x, y);
            assert(p == grid_pos_of(o, w as int, i as int));
            let ghost before = self.read_view();
            if !bounds.contains(p) {
                let c = if self.read_idx == 0 { self.grid0[i] } else { self.grid1[i] };
                if c.material() != material::EMPTY {
                    if self.read_idx == 0 { self.grid0.set(i, Cell::new()); } else { self.grid1.set(i, Cell::new()); }
                }
            }
            assert(forall|j: int| 0 <= j < n && j != i ==> self.read_view()[j] == before[j]);
            i = i + 1;
        }
        proof {
            assert forall|p: Vec2i| #[trigger] self.contains(p) implies self.read_at(p) == (
                if !bounds.spec_contains(p) && old_self.read_at(p)@.material != material::EMPTY {
                    Cell(0)
                } else {
                    old_self.read_at(p)
                }) by {
                lemma_grid_index_bounds(o, w as int, h as int, p);
                let j = grid_index_of(o, w as int, p);
                lemma_grid_pos_roundtrip(o, w as int, h as int, j);
                lemma_grid_index_injective(o, w as int, h as int, p, grid_pos_of(o, w as int, j));
            }
        }
    }
}

/// A copy of `cells` as a vector.
pub fn copy_cells(cells: &[Cell]) -> (v: Vec<Cell>)
    ensures v@ == cells@,
{
    let mut v: Vec<Cell> = Vec::new();
    let mut i: usize = 0;
    while i < cells.len()
        invariant
            i <= cells@.len(),
            v@ == cells@.subrange(0, i as int),
        decreases cells@.len() - i,
    {
        v.push(cells[i]);
        i = i + 1;
    }
    proof { assert(cells@.subrange(0, cells@.len() as int) =~= cells@); }
    v
}

/// `n` zero cells.
pub fn zeroed_cells(n: usize) -> (v: Vec<Cell>)
    ensures v@ == Seq::new(n as nat, |i: int| Cell(0)),
{
    let mut v: Vec<Cell> = Vec::new();
    let mut i: usize = 0;
    while i < n
        invariant
            i <= n,
            v@ == Seq::new(i as nat, |j: int| Cell(0)),
        decreases n - i,
    {
        v.push(Cell::new());
        i = i + 1;
    }
    v
}


/// A zeroed chunk.
pub open spec fn zero_slab() -> Seq<Cell> {
    Seq::new(1024, |i: int| Cell(0))
}

/// Replacing one chunk-sized slab by another keeps every slab chunk-sized.
pub broadcast proof fn lemma_update_keeps_slab_sizes(slabs: Seq<Seq<Cell>>, i: int, v: Seq<Cell>)
    requires
        0 <= i < slabs.len(),
        v.len() == 1024,
        forall|j: int| 0 <= j < slabs.len() ==> #[trigger] slabs[j].len() == 1024,
    ensures
        forall|j: int| 0 <= j < slabs.len() ==> #[trigger] (#[trigger] slabs.update(i, v))[j].len() == 1024,
{
    assert forall|j: int| 0 <= j < slabs.len() implies #[trigger] slabs.update(i, v)[j].len() == 1024 by {
        if j != i { assert(slabs.update(i, v)[j] == slabs[j]); }
    }
}

/// A pool of chunk-sized cell slabs with a free list of reusable handles.
#[derive(Clone, Debug)]
pub struct ChunkPool {
    slabs: Vec<Vec<Cell>>,
    free: Vec<usize>,
}

impl ChunkPool {
    /// Contents of every slab, by handle.
    pub closed spec fn slabs_view(&self) -> Seq<Seq<Cell>> {
        Seq::new(self.slabs@.len(), |i: int| self.slabs@[i]@)
    }

    /// Handles available for reuse; the next checkout takes the last one.
    pub closed spec fn free_view(&self) -> Seq<usize> {
        self.free@
    }

    pub open spec fn wf(&self) -> bool {
        &&& forall|i: int| 0 <= i < self.slabs_view().len() ==> #[trigger] self.slabs_view()[i].len() == 1024
        &&& forall|j: int| 0 <= j < self.free_view().len() ==> #[trigger] self.free_view()[j] < self.slabs_view().len()
    }

    /// `chunk_capacity` zeroed slabs, all free.
    pub fn with_capacity(chunk_capacity: usize) -> (p: Self)
        ensures
            p.wf(),
            p.slabs_view() == Seq::new(chunk_capacity as nat, |i: int| zero_slab()),
            p.free_view() == Seq::new(chunk_capacity as nat, |i: int| i as usize),
    {
        let mut slabs: Vec<Vec<Cell>> = Vec::new();
        let mut free: Vec<usize> = Vec::new();
        let mut i: usize = 0;
        while i < chunk_capacity
            invariant
                i <= chunk_capacity,
                slabs@.len() == i,
                forall|j: int| 0 <= j < i ==> (#[trigger] slabs@[j])@ == zero_slab(),
                free@ == Seq::new(i as nat, |j: int| j as usize),
            decreases chunk_capacity - i,
        {
            slabs.push(zeroed_cells(1024));
            free.push(i);
            i = i + 1;
        }
        let p = ChunkPool { slabs, free };
        proof {
            assert(p.slabs_view() =~= Seq::new(chunk_capacity as nat, |i: int| zero_slab()));
        }
        p
    }

    pub fn slab_count(&self) -> (n: usize)
        ensures n == self.slabs_view().len(),
    {
        self.slabs.len()
    }

    /// Takes the most recently freed handle, or grows the pool by one zeroed slab.
    pub fn checkout(&mut self) -> (idx: usize)
        requires
            old(self).wf(),
            old(self).free_view().len() > 0 || old(self).slabs_view().len() < usize::MAX,
        ensures
            final(self).wf(),
            old(self).free_view().len() > 0 ==> {
                &&& idx == old(self).free_view().last()
                &&& final(self).free_view() == old(self).free_view().drop_last()
                &&& final(self).slabs_view() == old(self).slabs_view()
            },
            old(self).free_view().len() == 0 ==> {
                &&& idx == old(self).slabs_view().len()
                &&& final(self).free_view() == old(self).free_view()
                &&& final(self).slabs_view() == old(self).slabs_view().push(zero_slab())
            },
    {
        match self.free.pop() {
            Some(idx) => {
                proof {
                    assert(self.slabs_view() =~= old(self).slabs_view());
                    assert forall|j: int| 0 <= j < self.free_view().len() implies #[trigger] self.free_view()[j] < self.slabs_view().len() by {
                        assert(self.free_view()[j] == old(self).free_view()[j]);
                    }
                }
                idx
            }
            None => {
                let idx = self.slabs.len();
                self.slabs.push(zeroed_cells(1024));
                proof {
                    assert(self.slabs_view() =~= old(self).slabs_view().push(zero_slab()));
                    assert forall|i: int| 0 <= i < self.slabs_view().len() implies #[trigger] self.slabs_view()[i].len() == 1024 by {
                        if i < old(self).slabs_view().len() { assert(self.slabs_view()[i] == old(self).slabs_view()[i]); }
                    }
                }
                idx
            }
        }
    }

    /// Zeroes slab `idx` and makes it available again; ignored when `idx` is out of range.
    pub fn release(&mut self, idx: usize)
        requires old(self).wf(),
        ensures
            final(self).wf(),
            idx < old(self).slabs_view().len() ==> {
                &&& final(self).slabs_view() == old(self).slabs_view().update(idx as int, zero_slab())
                &&& final(self).free_view() == old(self).free_view().push(idx)
            },
            idx >= old(self).slabs_view().len() ==> *final(self) == *old(self),
    {
        if idx < self.slabs.len() {
            self.slabs.set(idx, zeroed_cells(1024));
            self.free.push(idx);
            proof {
                assert(self.slabs_view() =~= old(self).slabs_view().update(idx as int, zero_slab()));
                assert forall|i: int| 0 <= i < self.slabs_view().len() implies #[trigger] self.slabs_view()[i].len() == 1024 by {
                    if i != idx as int { assert(self.slabs_view()[i] == old(self).slabs_view()[i]); }
                }
                assert forall|j: int| 0 <= j < self.free_view().len() implies #[trigger] self.free_view()[j] < self.slabs_view().len() by {
                    if j < old(self).free_view().len() { assert(self.free_view()[j] == old(self).free_view()[j]); }
                }
            }
        }
    }

    /// A released slab is zeroed and is the next one handed out: `p1` is `p0` after
    /// `release(idx)` and `p2` is `p1` after a `checkout` that returned `got`, each as their
    /// contracts describe; the other slabs are untouched.
    pub proof fn lemma_release_then_checkout(p0: ChunkPool, p1: ChunkPool, p2: ChunkPool, idx: usize, got: usize)
        requires
            p0.wf(),
            idx < p0.slabs_view().len(),
            p1.slabs_view() == p0.slabs_view().update(idx as int, zero_slab()),
            p1.free_view() == p0.free_view().push(idx),
            p1.free_view().len() > 0 ==> {
                &&& got == p1.free_view().last()
                &&& p2.free_view() == p1.free_view().drop_last()
                &&& p2.slabs_view() == p1.slabs_view()
            },
        ensures
            got == idx,
            p2.slabs_view()[idx as int] == zero_slab(),
            p2.slabs_view().len() == p0.slabs_view().len(),
            forall|j: int| 0 <= j < p0.slabs_view().len() && j != idx ==> #[trigger] p2.slabs_view()[j] == p0.slabs_view()[j],
            p2.free_view() == p0.free_view(),
    {
        assert(p1.free_view().drop_last() =~= p0.free_view());
    }

    pub fn slab(&self, idx: usize) -> (r: Option<&[Cell]>)
        ensures
            idx < self.slabs_view().len() ==> r is Some && r->0@ == self.slabs_view()[idx as int],
            idx >= self.slabs_view().len() ==> r is None,
    {
        if idx < self.slabs.len() {
            Some(self.slabs[idx].as_slice())
        } else {
            None
        }
    }

    /// Mutable access to slab `idx`, `None` when out of range.
    pub fn slab_mut(&mut self, idx: usize) -> (r: Option<&mut [Cell]>)
        requires old(self).wf(),
        ensures
            idx >= old(self).slabs_view().len() ==> r is None && *final(self) == *old(self),
            idx < old(self).slabs_view().len() ==> r is Some,
            r matches Some(s) ==> s@ == old(self).slabs_view()[idx as int],
            r matches Some(s) ==> final(self).slabs_view() == old(self).slabs_view().update(idx as int, final(s)@),
            r matches Some(s) ==> (
                final(self).slabs_view() == old(self).slabs_view().update(idx as int, final(s)@)
                && final(self).free_view() == old(self).free_view()
                && final(s)@.len() == 1024 ==> final(self).wf()),
            final(self).free_view() == old(self).free_view(),
    {
        broadcast use lemma_update_keeps_slab_sizes;
        if idx < self.slabs.len() {
            Some(self.slabs[idx].as_mut_slice())
        } else {
            None
        }
    }

    /// Overwrites slab `idx` with `cells`; ignored when `idx` is out of range.
    pub fn write_slab(&mut self, idx: usize, cells: &[Cell])
        requires old(self).wf(), cells@.len() == 1024,
        ensures
            final(self).wf(),
            final(self).free_view() == old(self).free_view(),
            idx < old(self).slabs_view().len() ==>
                final(self).slabs_view() == old(self).slabs_view().update(idx as int, cells@),
            idx >= old(self).slabs_view().len() ==> final(self).slabs_view() == old(self).slabs_view(),
    {
        if idx < self.slabs.len() {
            self.slabs.set(idx, copy_cells(cells));
            proof {
                assert(self.slabs_view() =~= old(self).slabs_view().update(idx as int, cells@));
                assert forall|i: int| 0 <= i < self.slabs_view().len() implies #[trigger] self.slabs_view()[i].len() == 1024 by {
                    if i != idx as int { assert(self.slabs_view()[i] == old(self).slabs_view()[i]); }
                }
                assert forall|j: int| 0 <= j < self.free_view().len() implies #[trigger] self.free_view()[j] < self.slabs_view().len() by {
                    if j < old(self).free_view().len() { assert(self.free_view()[j] == old(self).free_view()[j]); }
                }
            }
        }
    }

    /// Writes one cell of slab `idx`; ignored when `idx` or `local` is out of range.
    pub fn set_slab_cell(&mut self, idx: usize, local: usize, cell: Cell)
        requires old(self).wf(),
        ensures
            final(self).wf(),
            final(self).free_view() == old(self).free_view(),
            idx < old(self).slabs_view().len() && local < 1024 ==>
                final(self).slabs_view() == old(self).slabs_view().update(
                    idx as int, old(self).slabs_view()[idx as int].update(local as int, cell)),
            !(idx < old(self).slabs_view().len() && local < 1024) ==>
                final(self).slabs_view() == old(self).slabs_view(),
    {
        if idx < self.slabs.len() && local < self.slabs[idx].len() {
            let mut slab = copy_cells(self.slabs[idx].as_slice());
            slab.set(local, cell);
            self.slabs.set(idx, slab);
            proof {
                assert(self.slabs_view() =~= old(self).slabs_view().update(
                    idx as int, old(self).slabs_view()[idx as int].update(local as int, cell)));
                assert forall|i: int| 0 <= i < self.slabs_view().len() implies #[trigger] self.slabs_view()[i].len() == 1024 by {
                    if i != idx as int { assert(self.slabs_view()[i] == old(self).slabs_view()[i]); }
                }
                assert forall|j: int| 0 <= j < self.free_view().len() implies #[trigger] self.free_view()[j] < self.slabs_view().len() by {
                    if j < old(self).free_view().len() { assert(self.free_view()[j] == old(self).free_view()[j]); }
                }
            }
        }
    }
}

/// Hash key of a chunk coordinate: `x` in the high 32 bits, `y` in the low 32 bits.
pub open spec fn coord_key(c: super::geom::ChunkCoord) -> u64 {
    (((c.x as u32) as u64) << 32u64) | ((c.y as u32) as u64)
}

/// The chunk coordinate stored in a hash key.
pub open spec fn key_coord(k: u64) -> super::geom::ChunkCoord {
    super::geom::ChunkCoord { x: ((k >> 32u64) as u32) as i32, y: (k as u32) as i32 }
}

pub proof fn lemma_coord_key_roundtrip(c: super::geom::ChunkCoord, k: u64)
    ensures
        key_coord(coord_key(c)) == c,
        coord_key(key_coord(k)) == k,
{
    let x = c.x;
    let y = c.y;
    assert(
        (((((x as u32) as u64) << 32u64) | ((y as u32) as u64)) >> 32u64) as u32 as i32 == x
        && ((((x as u32) as u64) << 32u64) | ((y as u32) as u64)) as u32 as i32 == y
        && ((((k >> 32u64) as u32) as i32) as u32 as u64) << 32u64 | ((((k as u32) as i32) as u32) as u64) == k
    ) by (bit_vector);
}


/// The world rectangle covered by chunk `c`, in unbounded integers.
pub open spec fn chunk_rect_intersects(c: ChunkCoord, bounds: RectI) -> bool {
    &&& c.x * 32 <= bounds.max.x
    &&& c.x * 32 + 31 >= bounds.min.x
    &&& c.y * 32 <= bounds.max.y
    &&& c.y * 32 + 31 >= bounds.min.y
}

/// Chunks of cells addressed by chunk coordinate; slabs come from [`ChunkPool`].
#[derive(Clone, Debug)]
pub struct SpatialHashChunkStore {
    pub pool: ChunkPool,
    handles: HashMap<u64, usize>,
}

impl SpatialHashChunkStore {
    /// Slab handle of every stored chunk.
    pub closed spec fn handle_map(&self) -> Map<ChunkCoord, usize> {
        Map::new(|c: ChunkCoord| self.handles@.contains_key(coord_key(c)), |c: ChunkCoord| self.handles@[coord_key(c)])
    }

    /// Cells of every stored chunk.
    pub closed spec fn chunks(&self) -> Map<ChunkCoord, Seq<Cell>> {
        Map::new(
            |c: ChunkCoord| self.handle_map().contains_key(c),
            |c: ChunkCoord| self.pool.slabs_view()[self.handle_map()[c] as int],
        )
    }

    pub closed spec fn wf(&self) -> bool {
        let hm = self.handle_map();
        let free = self.pool.free_view();
        let slabs = self.pool.slabs_view();
        &&& self.pool.wf()
        &&& hm.dom().finite()
        &&& forall|c: ChunkCoord| #[trigger] hm.contains_key(c) ==> hm[c] < slabs.len()
        &&& forall|c: ChunkCoord, d: ChunkCoord| #[trigger] hm.contains_key(c) && #[trigger] hm.contains_key(d) && c != d
            ==> hm[c] != hm[d]
        &&& forall|c: ChunkCoord, j: int| #[trigger] hm.contains_key(c) && 0 <= j < free.len() ==> #[trigger] free[j] != hm[c]
        &&& free.no_duplicates()
        &&& forall|j: int| 0 <= j < free.len() ==> #[trigger] slabs[free[j] as int] == zero_slab()
    }

    /// Number of slabs the pool holds (in use or free).
    pub closed spec fn slab_total(&self) -> nat {
        self.pool.slabs_view().len()
    }

    /// Every stored chunk holds exactly one chunk's worth of cells.
    pub proof fn lemma_chunk_sizes(&self)
        requires self.wf(),
        ensures forall|c: ChunkCoord| #[trigger] self.chunks().contains_key(c) ==> self.chunks()[c].len() == 1024,
    {
    }

    /// Number of slabs the pool holds (in use or free).
    pub fn slab_total_count(&self) -> (n: usize)
        ensures n == self.slab_total(),
    {
        self.pool.slab_count()
    }

    /// The pool can still grow by one slab.
    pub fn has_room(&self) -> (b: bool)
        ensures b == (self.slab_total() < usize::MAX),
    {
        self.pool.slab_count() < usize::MAX
    }

    pub fn with_capacity(chunk_capacity: usize) -> (s: Self)
        ensures
            s.wf(),
            s.chunks() == Map::<ChunkCoord, Seq<Cell>>::empty(),
            s.slab_total() == chunk_capacity,
    {
        let s = SpatialHashChunkStore { pool: ChunkPool::with_capacity(chunk_capacity), handles: HashMap::new() };
        proof {
            assert(s.handle_map() =~= Map::<ChunkCoord, usize>::empty());
            assert(s.chunks() =~= Map::<ChunkCoord, Seq<Cell>>::empty());
            let free = s.pool.free_view();
            assert forall|a: int, b: int| 0 <= a < free.len() && 0 <= b < free.len() && a != b implies free[a] != free[b] by {}
        }
        s
    }

    pub fn chunk_count(&self) -> (n: usize)
        requires self.wf(),
        ensures n == self.chunks().len(),
    {
        proof { self.lemma_dom_len(); }
        self.handles.len()
    }

    proof fn lemma_dom_len(&self)
        requires self.wf(),
        ensures
            self.chunks().dom().finite(),
            self.chunks().len() == self.handles@.len(),
    {
        let f = |k: u64| key_coord(k);
        let x = self.handles@.dom();
        let y = self.chunks().dom();
        assert forall|a: u64, b: u64| x.contains(a) && x.contains(b) && #[trigger] f(a) == #[trigger] f(b) implies a == b by {
            lemma_coord_key_roundtrip(f(a), a);
            lemma_coord_key_roundtrip(f(b), b);
        }
        assert(x.map(f) =~= y) by {
            assert forall|c: ChunkCoord| #[trigger] y.contains(c) implies x.map(f).contains(c) by {
                lemma_coord_key_roundtrip(c, 0);
                assert(f(coord_key(c)) == c);
            }
            assert forall|c: ChunkCoord| #[trigger] x.map(f).contains(c) implies y.contains(c) by {
                let k = choose|k: u64| x.contains(k) && f(k) == c;
                lemma_coord_key_roundtrip(c, k);
            }
        }
        vstd::set_lib::lemma_map_size(x, y, f);
    }

    /// Makes sure chunk `coord` exists; a new chunk is zeroed.
    pub fn ensure_chunk(&mut self, coord: ChunkCoord)
        requires
            old(self).wf(),
            old(self).slab_total() < usize::MAX,
        ensures
            final(self).wf(),
            old(self).chunks().contains_key(coord) ==> final(self).chunks() == old(self).chunks(),
            !old(self).chunks().contains_key(coord) ==> final(self).chunks() == old(self).chunks().insert(coord, zero_slab()),
            final(self).slab_total() <= old(self).slab_total() + 1,
    {
        let key = chunk_key(coord);
        if self.handles.contains_key(&key) {
            return;
        }
        let ghost old_self = *self;
        let handle = self.pool.checkout();
        self.handles.insert(key, handle);
        proof {
            lemma_coord_key_roundtrip(coord, 0);
            let hm0 = old_self.handle_map();
            let hm = self.handle_map();
            assert forall|c: ChunkCoord| #[trigger] hm.contains_key(c) implies c == coord || (hm0.contains_key(c) && hm[c] == hm0[c]) by {
                lemma_coord_key_roundtrip(c, 0);
            }
            assert forall|c: ChunkCoord| #[trigger] hm0.contains_key(c) implies hm.contains_key(c) && hm[c] == hm0[c] by {
                lemma_coord_key_roundtrip(c, 0);
                assert(c != coord);
            }
            assert(hm =~= hm0.insert(coord, handle));
            let free0 = old_self.pool.free_view();
            if free0.len() > 0 {
                assert(free0.last() == free0[free0.len() - 1]);
                assert forall|c: ChunkCoord| #[trigger] hm0.contains_key(c) implies hm0[c] != handle by {}
                assert forall|j: int| 0 <= j < self.pool.free_view().len() implies #[trigger] self.pool.free_view()[j] != handle by {
                    assert(self.pool.free_view()[j] == free0[j]);
                }
            }
            assert(self.chunks() =~= old_self.chunks().insert(coord, zero_slab()));
            assert(hm.dom() =~= hm0.dom().insert(coord));
        }
    }

    /// Drops chunk `coord`, returning its slab to the pool.
    pub fn remove_chunk(&mut self, coord: ChunkCoord)
        requires old(self).wf(),
        ensures
            final(self).wf(),
            final(self).chunks() == old(self).chunks().remove(coord),
            final(self).slab_total() == old(self).slab_total(),
    {
        let key = chunk_key(coord);
        let ghost old_self = *self;
        match self.handles.remove(&key) {
            Some(handle) => {
                self.pool.release(handle);
                proof {
                    lemma_coord_key_roundtrip(coord, 0);
                    let hm0 = old_self.handle_map();
                    let hm = self.handle_map();
                    assert(hm0.contains_key(coord) && hm0[coord] == handle);
                    assert forall|c: ChunkCoord| #[trigger] hm.contains_key(c) <==> (hm0.contains_key(c) && c != coord) by {
                        lemma_coord_key_roundtrip(c, 0);
                    }
                    assert(hm =~= hm0.remove(coord));
                    assert forall|c: ChunkCoord| #[trigger] hm.contains_key(c) implies
                        self.pool.slabs_view()[hm[c] as int] == old_self.pool.slabs_view()[hm0[c] as int] by {}
                    assert(self.chunks() =~= old_self.chunks().remove(coord));
                    let free = self.pool.free_view();
                    let free0 = old_self.pool.free_view();
                    assert forall|a: int, b: int| 0 <= a < free.len() && 0 <= b < free.len() && a != b implies free[a] != free[b] by {
                        if a < free0.len() && b < free0.len() {
                        } else if a < free0.len() {
                            assert(free[b] == handle);
                            assert(free0[a] != hm0[coord]);
                        } else {
                            assert(free[a] == handle);
                            assert(free0[b] != hm0[coord]);
                        }
                    }
                    assert forall|j: int| 0 <= j < free.len() implies #[trigger] self.pool.slabs_view()[free[j] as int] == zero_slab() by {
                        if j < free0.len() {
                            assert(free[j] == free0[j]);
                            assert(free0[j] != handle);
                        }
                    }
                    assert forall|c: ChunkCoord, j: int| #[trigger] hm.contains_key(c) && 0 <= j < free.len() implies #[trigger] free[j] != hm[c] by {
                        if j < free0.len() {
                            assert(free[j] == free0[j]);
                        } else {
                            assert(c != coord);
                        }
                    }
                }
            }
            None => {
                proof {
                    lemma_coord_key_roundtrip(coord, 0);
                    assert(!old_self.chunks().contains_key(coord));
                    assert(self.handle_map() =~= old_self.handle_map());
                    assert(self.chunks() =~= old_self.chunks().remove(coord));
                }
            }
        }
    }

    pub fn get_chunk(&self, coord: ChunkCoord) -> (r: Option<&[Cell]>)
        requires self.wf(),
        ensures
            self.chunks().contains_key(coord) ==> r is Some && r->0@ == self.chunks()[coord],
            !self.chunks().contains_key(coord) ==> r is None,
    {
        proof { lemma_coord_key_roundtrip(coord, 0); }
        let key = chunk_key(coord);
        match self.handles.get(&key) {
            Some(h) => self.pool.slab(*h),
            None => None,
        }
    }

    /// Mutable access to the cells of chunk `coord`, `None` when it is absent.
    pub fn get_chunk_mut(&mut self, coord: ChunkCoord) -> (r: Option<&mut [Cell]>)
        requires old(self).wf(),
        ensures
            !old(self).chunks().contains_key(coord) ==> r is None && *final(self) == *old(self),
            old(self).chunks().contains_key(coord) ==> r is Some,
            r matches Some(s) ==> s@ == old(self).chunks()[coord],
            r matches Some(s) ==> (final(s)@.len() == 1024 ==> {
                &&& final(self).wf()
                &&& final(self).chunks() == old(self).chunks().insert(coord, final(s)@)
                &&& final(self).slab_total() == old(self).slab_total()
            }),
    {
        proof { lemma_coord_key_roundtrip(coord, 0); }
        let key = chunk_key(coord);
        let ghost old_self = *self;
        match self.handles.get(&key) {
            Some(h) => {
                let h = *h;
                proof {
                    assert(old_self.handle_map().contains_key(coord));
                    assert(old_self.handle_map()[coord] == h);
                    assert forall|j: int| 0 <= j < old_self.pool.free_view().len() implies #[trigger] old_self.pool.free_view()[j] != h by {}
                }
                self.pool.slab_mut(h)
            }
            None => {
                proof { assert(!old_self.handle_map().contains_key(coord)); }
                None
            }
        }
    }

    /// Writes one cell of chunk `coord`; no change when the chunk is absent or `local` is out of range.
    pub fn set_chunk_cell(&mut self, coord: ChunkCoord, local: usize, cell: Cell)
        requires old(self).wf(),
        ensures
            final(self).wf(),
            final(self).slab_total() == old(self).slab_total(),
            old(self).chunks().contains_key(coord) && local < 1024 ==>
                final(self).chunks() == old(self).chunks().insert(coord, old(self).chunks()[coord].update(local as int, cell)),
            !(old(self).chunks().contains_key(coord) && local < 1024) ==> final(self).chunks() == old(self).chunks(),
    {
        proof { lemma_coord_key_roundtrip(coord, 0); }
        let key = chunk_key(coord);
        let ghost old_self = *self;
        match self.handles.get(&key) {
            Some(h) => {
                let h = *h;
                self.pool.set_slab_cell(h, local, cell);
                proof { self.lemma_rewrite_one(&old_self, coord, h); }
            }
            None => {
                proof { assert(self.chunks() =~= old_self.chunks()); }
            }
        }
    }

    proof fn lemma_rewrite_one(&self, old_self: &Self, coord: ChunkCoord, h: usize)
        requires
            old_self.wf(),
            self.handles@ == old_self.handles@,
            self.pool.wf(),
            self.pool.free_view() == old_self.pool.free_view(),
            old_self.handle_map().contains_key(coord),
            old_self.handle_map()[coord] == h,
            self.pool.slabs_view().len() == old_self.pool.slabs_view().len(),
            forall|i: int| 0 <= i < self.pool.slabs_view().len() && i != h ==> self.pool.slabs_view()[i] == old_self.pool.slabs_view()[i],
        ensures
            self.wf(),
            self.chunks() == old_self.chunks().insert(coord, self.pool.slabs_view()[h as int]),
    {
        let hm = self.handle_map();
        assert(hm =~= old_self.handle_map());
        assert forall|j: int| 0 <= j < self.pool.free_view().len() implies #[trigger] self.pool.slabs_view()[self.pool.free_view()[j] as int] == zero_slab() by {
            assert(self.pool.free_view()[j] != h);
        }
        assert forall|c: ChunkCoord| #[trigger] hm.contains_key(c) && c != coord implies
            self.pool.slabs_view()[hm[c] as int] == old_self.pool.slabs_view()[hm[c] as int] by {
            assert(hm[c] != h);
        }
        assert(self.chunks() =~= old_self.chunks().insert(coord, self.pool.slabs_view()[h as int]));
    }

    /// Stores `cells` as chunk `coord`; `false` (no change) unless `cells` is exactly one chunk long.
    pub fn upsert_chunk(&mut self, coord: ChunkCoord, cells: &[Cell]) -> (ok: bool)
        requires
            old(self).wf(),
            old(self).slab_total() < usize::MAX,
        ensures
            final(self).wf(),
            ok == (cells@.len() == 1024),
            ok ==> final(self).chunks() == old(self).chunks().insert(coord, cells@),
            !ok ==> final(self).chunks() == old(self).chunks(),
            final(self).slab_total() <= old(self).slab_total() + 1,
            final(self).chunks().len() == old(self).chunks().len()
                + (if ok && !old(self).chunks().contains_key(coord) { 1int } else { 0int }),
    {
        proof {
            old(self).lemma_dom_len();
            assert(old(self).chunks().dom().insert(coord) =~= old(self).chunks().insert(coord, cells@).dom());
        }
        if cells.len() != 1024 {
            return false;
        }
        self.ensure_chunk(coord);
        proof { lemma_coord_key_roundtrip(coord, 0); }
        let key = chunk_key(coord);
        let ghost mid = *self;
        match self.handles.get(&key) {
            Some(h) => {
                let h = *h;
                self.pool.write_slab(h, cells);
                proof { self.lemma_rewrite_one(&mid, coord, h); }
                true
            }
            None => {
                proof {
                    assert(mid.chunks().contains_key(coord));
                    assert(mid.handle_map().contains_key(coord));
                    assert(mid.handles@.contains_key(key));
                }
                false
            }
        }
    }

    /// Coordinates of all stored chunks, each once, in no particular order.
    pub fn chunk_coords(&self) -> (v: Vec<ChunkCoord>)
        requires self.wf(),
        ensures
            v@.to_set() == self.chunks().dom(),
            v@.no_duplicates(),
    {
        let keys = collect_keys(&self.handles);
        let mut v: Vec<ChunkCoord> = Vec::new();
        let mut i: usize = 0;
        while i < keys.len()
            invariant
                i <= keys@.len(),
                keys@.no_duplicates(),
                v@ == keys@.subrange(0, i as int).map_values(|k: u64| key_coord(k)),
            decreases keys@.len() - i,
        {
            v.push(coord_of_key(keys[i]));
            proof {
                assert(keys@.subrange(0, i as int + 1) =~= keys@.subrange(0, i as int).push(keys@[i as int]));
            }
            i = i + 1;
        }
        proof {
            assert(keys@.subrange(0, keys@.len() as int) =~= keys@);
            assert forall|a: int, b: int| 0 <= a < v@.len() && 0 <= b < v@.len() && a != b implies v@[a] != v@[b] by {
                lemma_coord_key_roundtrip(v@[a], keys@[a]);
                lemma_coord_key_roundtrip(v@[b], keys@[b]);
            }
            assert forall|c: ChunkCoord| #[trigger] v@.to_set().contains(c) <==> self.chunks().dom().contains(c) by {
                lemma_coord_key_roundtrip(c, 0);
                if self.chunks().dom().contains(c) {
                    assert(keys@.to_set().contains(coord_key(c)));
                    let a = choose|a: int| 0 <= a < keys@.len() && keys@[a] == coord_key(c);
                    assert(v@[a] == c);
                }
                if v@.to_set().contains(c) {
                    let a = choose|a: int| 0 <= a < v@.len() && v@[a] == c;
                    lemma_coord_key_roundtrip(c, keys@[a]);
                    assert(keys@.to_set().contains(keys@[a]));
                }
            }
            assert(v@.to_set() =~= self.chunks().dom());
        }
        v
    }

    /// Drops every chunk whose 32×32 area does not meet `bounds`.
    pub fn remove_outside_world_rect(&mut self, bounds: RectI)
        requires old(self).wf(),
        ensures
            final(self).wf(),
            final(self).chunks() == old(self).chunks().restrict(
                old(self).chunks().dom().filter(|c: ChunkCoord| chunk_rect_intersects(c, bounds))),
            final(self).slab_total() == old(self).slab_total(),
    {
        let coords = self.chunk_coords();
        let ghost old_chunks = self.chunks();
        let mut i: usize = 0;
        while i < coords.len()
            invariant
                self.wf(),
                i <= coords@.len(),
                coords@.to_set() == old_chunks.dom(),
                coords@.no_duplicates(),
                self.slab_total() == old(self).slab_total(),
                self.chunks() == old_chunks.restrict(old_chunks.dom().filter(|c: ChunkCoord|
                    chunk_rect_intersects(c, bounds) || !coords@.subrange(0, i as int).contains(c))),
            decreases coords@.len() - i,
        {
            let c = coords[i];
            let min_x = c.x as i64 * 32;
            let min_y = c.y as i64 * 32;
            let hit = min_x <= bounds.max.x as i64 && min_x + 31 >= bounds.min.x as i64
                && min_y <= bounds.max.y as i64 && min_y + 31 >= bounds.min.y as i64;
            let ghost before = self.chunks();
            if !hit {
                self.remove_chunk(c);
            }
            proof {
                assert(coords@.subrange(0, i as int + 1) =~= coords@.subrange(0, i as int).push(c));
                assert(!coords@.subrange(0, i as int).contains(c)) by {
                    if coords@.subrange(0, i as int).contains(c) {
                        let a = choose|a: int| 0 <= a < i && coords@[a] == c;
                        assert(coords@[a] == coords@[i as int]);
                    }
                }
                assert(hit == chunk_rect_intersects(c, bounds));
                let sub0 = coords@.subrange(0, i as int);
                let sub1 = coords@.subrange(0, i as int + 1);
                assert forall|d: ChunkCoord| #[trigger] sub1.contains(d) <==> (sub0.contains(d) || d == c) by {
                    if sub1.contains(d) {
                        let a = choose|a: int| 0 <= a < sub1.len() && sub1[a] == d;
                        if a < i { assert(sub0[a] == d); }
                    }
                    if sub0.contains(d) {
                        let a = choose|a: int| 0 <= a < sub0.len() && sub0[a] == d;
                        assert(sub1[a] == d);
                    }
                    if d == c { assert(sub1[i as int] == d); }
                }
                let target = old_chunks.restrict(old_chunks.dom().filter(|d: ChunkCoord|
                    chunk_rect_intersects(d, bounds) || !sub1.contains(d)));
                assert(self.chunks().dom() =~= target.dom());
                assert(self.chunks() =~= target);
            }
            i = i + 1;
        }
        proof {
            assert(coords@.subrange(0, coords@.len() as int) =~= coords@);
            assert(old_chunks.dom().filter(|c: ChunkCoord| chunk_rect_intersects(c, bounds) || !coords@.contains(c))
                =~= old_chunks.dom().filter(|c: ChunkCoord| chunk_rect_intersects(c, bounds)));
        }
    }

    /// Chunk coordinate of world cell `p` and the cell's index inside that chunk.
    pub fn split_world_to_chunk(p: Vec2i) -> (r: (ChunkCoord, usize))
        ensures
            r.0.x == spec_div_floor(p.x as int, 32),
            r.0.y == spec_div_floor(p.y as int, 32),
            r.1 == (p.y - r.0.y * 32) * 32 + (p.x - r.0.x * 32),
            0 <= p.x - r.0.x * 32 < 32,
            0 <= p.y - r.0.y * 32 < 32,
            r.1 < 1024,
    {
        let cx = div_floor(p.x, CHUNK_SIZE);
        let cy = div_floor(p.y, CHUNK_SIZE);
        proof {
            lemma_fundamental_div_mod(p.x as int, 32);
            lemma_mod_bound(p.x as int, 32);
            lemma_fundamental_div_mod(p.y as int, 32);
            lemma_mod_bound(p.y as int, 32);
        }
        let lx = p.x - cx * CHUNK_SIZE;
        let ly = p.y - cy * CHUNK_SIZE;
        (ChunkCoord { x: cx, y: cy }, chunk_local_index(lx, ly))
    }
}

/// Hash key of a chunk coordinate.
pub fn chunk_key(c: ChunkCoord) -> (k: u64)
    ensures k == coord_key(c),
{
    ((c.x as u32) as u64) << 32u64 | ((c.y as u32) as u64)
}

/// Chunk coordinate of a hash key.
pub fn coord_of_key(k: u64) -> (c: ChunkCoord)
    ensures c == key_coord(k),
{
    ChunkCoord { x: ((k >> 32u64) as u32) as i32, y: (k as u32) as i32 }
}

/// Every key of `m`, once each.
pub fn collect_keys(m: &HashMap<u64, usize>) -> (v: Vec<u64>)
    ensures
        v@.to_set() == m@.dom(),
        v@.no_duplicates(),
{
    let mut v: Vec<u64> = Vec::new();
    proof {
        vstd::std_specs::hash::axiom_spec_keys_iter(m);
    }
    for k in it: m.keys()
        invariant
            v@ == it.seq().take(it.index() as int).unref(),
            it.seq().unref().to_set() == m@.dom(),
            it.seq().unref().no_duplicates(),
            it.index() == it.seq().len() ==> v@.to_set() == m@.dom() && v@.no_duplicates(),
    {
        v.push(*k);
        assert(it.index() + 1 == it.seq().len() ==> v@ =~= it.seq().unref());
    }
    v
}

} // verus!
