//! Tick scheduling: the checkerboard of four chunk passes, the single full-grid debug pass, and the
//! one-chunk-per-call debug stepping.
use vstd::prelude::*;
use rand::rngs::SmallRng;

use crate::world::geom::{ChunkCoord, RectI, Vec2i};
use crate::world::state::{advanced_awake, lemma_picked_from, lemma_picked_has, picked, World};
use super::rng::{gen_ratio, seeded_rng};
use super::step_pixel::{pixel_outcome, step_pixel};
use super::{sim_margin_ok, within, FlameSpawn};

verus! {

#[derive(Clone, Copy, PartialEq, Eq, Structural, Debug)]
pub enum SchedulerMode {
    /// One generator, reseeded from the seed and the tick every tick.
    SingleThreadSeeded,
    /// A generator per chunk, seeded from the seed, the tick and the chunk.
    ThreadPool,
}

/// Progress of a tick stepped one chunk per call.
struct ChunkStepState {
    pass_order: [usize; 4],
    pass_idx: usize,
    coords: Vec<ChunkCoord>,
    coord_idx: usize,
    pending_explosions: Vec<(Vec2i, i32)>,
}

pub struct Scheduler {
    mode: SchedulerMode,
    seed: u64,
    tick: u64,
    /// One single-threaded scan of the whole grid per tick instead of the checkerboard.
    debug_full_world_single_pass: bool,
    /// One checkerboard chunk per [`Scheduler::step_world`] call.
    debug_chunk_step: bool,
    chunk_step: Option<ChunkStepState>,
    pending_flame_spawns: Vec<FlameSpawn>,
    pending_grid_explosions: Vec<(Vec2i, i32)>,
}

/// `w2` is `w` after simulation ticks: the grid, the material tables, the chunk store and the
/// rigid ids are where they were; only cells and chunk bookkeeping moved on.
pub open spec fn tick_frame(w: &World, w2: &World) -> bool {
    &&& w2.wf()
    &&& sim_margin_ok(w2)
    &&& w2.store_view().same_geometry(&w.store_view())
    &&& w2.spec_chunks_x() == w.spec_chunks_x()
    &&& w2.spec_chunks_y() == w.spec_chunks_y()
    &&& w2.props_view() == w.props_view()
    &&& w2.rules_view() == w.rules_view()
    &&& w2.reactions_view() == w.reactions_view()
    &&& w2.spec_ambient() == w.spec_ambient()
    &&& w2.hash_view() == w.hash_view()
    &&& w2.rigid_map() == w.rigid_map()
    &&& w2.spec_debug_pass_enabled() == w.spec_debug_pass_enabled()
}

/// The order of the four passes in tick `tick`: `0, 1, 2, 3` on even ticks, `2, 3, 0, 1` on odd ones.
pub open spec fn pass_order_of(tick: u64) -> Seq<usize> {
    if tick % 2 == 0 { seq![0usize, 1, 2, 3] } else { seq![2usize, 3, 0, 1] }
}

fn pass_order_for(tick: u64) -> (o: [usize; 4])
    ensures o@ == pass_order_of(tick), forall|i: int| 0 <= i < 4 ==> #[trigger] o@[i] < 4,
{
    if tick % 2 == 0 { [0, 1, 2, 3] } else { [2, 3, 0, 1] }
}

/// Seed of the generator of chunk `coord` in tick `tick` in thread-pool mode.
pub open spec fn chunk_seed(seed: u64, tick: u64, coord: ChunkCoord) -> u64 {
    seed ^ tick ^ (((coord.x as u64) << 32u64) as u64) ^ (coord.y as u64)
}

fn chunk_seed_of(seed: u64, tick: u64, coord: ChunkCoord) -> (s: u64)
    ensures s == chunk_seed(seed, tick, coord),
{
    seed ^ tick ^ ((coord.x as u64) << 32u64) ^ (coord.y as u64)
}

/// Appends `src` to `dst`.
fn append_all<T: Copy>(dst: &mut Vec<T>, src: &Vec<T>)
    ensures final(dst)@ == old(dst)@ + src@,
{
    let mut i: usize = 0;
    while i < src.len()
        invariant
            i <= src.len(),
            dst@ == old(dst)@ + src@.subrange(0, i as int),
        decreases src.len() - i,
    {
        dst.push(src[i]);
        i = i + 1;
        proof { assert(src@.subrange(0, i as int) =~= src@.subrange(0, i - 1) .push(src@[i - 1])); }
    }
    proof { assert(src@.subrange(0, src@.len() as int) =~= src@); }
}

/// `q` lies within `r` cells of the rectangle `b` on both axes.
pub open spec fn near_rect(b: RectI, q: Vec2i, r: int) -> bool {
    b.min.x - r <= q.x <= b.max.x + r && b.min.y - r <= q.y <= b.max.y + r
}

/// With the debug overlay on, grid cell `q` lies in the rectangle `b` and has an overlay entry.
pub open spec fn stamped_in(w: &World, b: RectI, q: Vec2i) -> bool {
    &&& w.spec_debug_pass_enabled()
    &&& w.in_grid(q)
    &&& b.min.x <= q.x <= b.max.x
    &&& b.min.y <= q.y <= b.max.y
    &&& w.store_view().index_of(q) < w.debug_pass_view().len()
}

/// A chunk's pass lies in `0..4`.
proof fn lemma_pass_range(c: ChunkCoord)
    ensures 0 <= pass_of_chunk(c) < 4,
{
}

/// A slot whose chunk's pass is `pass`, awake in `w0`, is in pass `pass` of `wp`, which has the
/// geometry and wake counters of `w0`.
proof fn lemma_slot_in_pass(w0: &World, wp: &World, s: int, pass: int)
    requires
        w0.sim_frame(wp),
        0 <= s < w0.slot_count(), w0.awake_view()[s] > 0,
        pass_of_chunk(w0.slot_coord(s)) == pass, 0 <= pass < 4,
    ensures wp.in_pass(pass, s), 0 <= s < wp.slot_count(),
{
    let c = w0.slot_coord(s);
    assert(wp.slot_coord(s) == c);
    assert((c.x as int) % 2 == pass % 2 && (c.y as int) % 2 == (pass / 2) % 2);
}

/// Processing chunk `coords[cj]` of pass `pass` keeps the stamps already made and stamps the cells
/// of every awake slot whose chunk it is.
proof fn lemma_chunk_stamps(w0: &World, wp: &World, wb: &World, wa: &World, coords: Seq<ChunkCoord>, cj: int, pass: int,
    order: Seq<usize>, pj: int)
    requires
        w0.wf(),
        w0.sim_frame(wb), w0.sim_frame(wp), wb.sim_frame(wa),
        0 <= pass < 4,
        0 <= cj < coords.len(),
        coords == picked(|s: int| wp.in_pass(pass, s), |s: int| wp.slot_coord(s), wp.slot_count()),
        forall|q: Vec2i| stamped_in(wb, wb.chunk_bounds(coords[cj]), q) ==>
            #[trigger] wa.debug_pass_view()[wb.store_view().index_of(q)] == pass,
        forall|q: Vec2i| wb.in_grid(q) && !wb.chunk_bounds(coords[cj]).spec_contains(q)
            && wb.store_view().index_of(q) < wb.debug_pass_view().len() ==>
            #[trigger] wa.debug_pass_view()[wb.store_view().index_of(q)] == wb.debug_pass_view()[wb.store_view().index_of(q)],
        forall|s: int, q: Vec2i| #[trigger] slot_cell(w0, s, q) && pass_done(order, pj, pass_of_chunk(w0.slot_coord(s)))
            ==> wb.debug_pass_view()[w0.store_view().index_of(q)] == pass_of_chunk(w0.slot_coord(s)),
        forall|s: int, q: Vec2i| #[trigger] slot_cell(w0, s, q) && coords.subrange(0, cj).contains(w0.slot_coord(s))
            ==> wb.debug_pass_view()[w0.store_view().index_of(q)] == pass_of_chunk(w0.slot_coord(s)),
    ensures
        forall|s: int, q: Vec2i| #[trigger] slot_cell(w0, s, q) && pass_done(order, pj, pass_of_chunk(w0.slot_coord(s)))
            ==> wa.debug_pass_view()[w0.store_view().index_of(q)] == pass_of_chunk(w0.slot_coord(s)),
        forall|s: int, q: Vec2i| #[trigger] slot_cell(w0, s, q) && coords.subrange(0, cj + 1).contains(w0.slot_coord(s))
            ==> wa.debug_pass_view()[w0.store_view().index_of(q)] == pass_of_chunk(w0.slot_coord(s)),
{
    let c = coords[cj];
    let pick = |s: int| wp.in_pass(pass, s);
    let f = |s: int| wp.slot_coord(s);
    lemma_picked_from(pick, f, wp.slot_count(), cj);
    let sc = choose|sc: int| 0 <= sc < wp.slot_count() && #[trigger] pick(sc) && f(sc) == coords[cj];
    assert(wp.in_pass(pass, sc) && wp.slot_coord(sc) == c);
    assert(w0.slot_coord(sc) == c);
    assert(pass_of_chunk(c) == pass);
    assert forall|s: int, q: Vec2i| #[trigger] slot_cell(w0, s, q)
        && (pass_done(order, pj, pass_of_chunk(w0.slot_coord(s))) || coords.subrange(0, cj + 1).contains(w0.slot_coord(s)))
        implies wa.debug_pass_view()[w0.store_view().index_of(q)] == pass_of_chunk(w0.slot_coord(s)) by {
        if w0.chunk_bounds(c).spec_contains(q) {
            w0.lemma_slot_rects_disjoint(s, sc, q);
            assert(stamped_in(wb, wb.chunk_bounds(c), q));
        } else {
            if !pass_done(order, pj, pass_of_chunk(w0.slot_coord(s))) && !coords.subrange(0, cj).contains(w0.slot_coord(s)) {
                let i = choose|i: int| 0 <= i < cj + 1 && #[trigger] coords.subrange(0, cj + 1)[i] == w0.slot_coord(s);
                if i < cj {
                    assert(coords.subrange(0, cj)[i] == w0.slot_coord(s));
                } else {
                    assert(w0.slot_coord(s) == c);
                    w0.lemma_slot_rects_disjoint(s, sc, q);
                }
            }
        }
    }
}

/// The checkerboard pass (`0..4`) that steps chunk `c`: by the parities of its coordinates.
pub open spec fn pass_of_chunk(c: ChunkCoord) -> int {
    (c.x as int) % 2 + 2 * ((c.y as int) % 2)
}

/// Cell `q` of chunk slot `s` of `w` is one a tick stamps in the debug overlay: the slot is awake
/// once the wake counters advance, and `q` is a grid cell of its rectangle with an overlay entry.
pub open spec fn tick_stamped(w: &World, s: int, q: Vec2i) -> bool {
    &&& 0 <= s < w.slot_count()
    &&& advanced_awake(w.awake_view(), w.awake_next_view())[s] > 0
    &&& stamped_in(w, w.chunk_bounds(w.slot_coord(s)), q)
}

/// Cell `q` of the awake chunk slot `s` of `w` carries a debug stamp.
pub open spec fn slot_cell(w: &World, s: int, q: Vec2i) -> bool {
    &&& 0 <= s < w.slot_count()
    &&& w.awake_view()[s] > 0
    &&& stamped_in(w, w.chunk_bounds(w.slot_coord(s)), q)
}

/// Pass `k` is among the first `n` passes of `order`.
pub open spec fn pass_done(order: Seq<usize>, n: int, k: int) -> bool {
    exists|j: int| 0 <= j < n && #[trigger] order[j] as int == k
}

/// `w2` is `w` with pass `pass` stamped on `p` in the debug overlay (when the overlay is on and
/// `p` is a grid cell) and nothing else changed.
pub open spec fn stamped_for(w: &World, w2: &World, p: Vec2i, pass: u8) -> bool {
    let on = w.spec_debug_pass_enabled() && w.in_grid(p) && w.store_view().index_of(p) < w.debug_pass_view().len();
    &&& w.sim_frame(w2)
    &&& w2.store_view() == w.store_view()
    &&& w2.awake_next_view() == w.awake_next_view()
    &&& on ==> w2.debug_pass_view() == w.debug_pass_view().update(w.store_view().index_of(p), pass)
    &&& !on ==> w2.debug_pass_view() == w.debug_pass_view()
}

/// `w2` is `w` after the cell `p` is stepped in pass `pass` of tick `tick`: the pass is stamped on
/// it, then it takes one [`pixel_outcome`] (with some explosion queue).
pub open spec fn cell_step(w: &World, w2: &World, p: Vec2i, pass: u8, tick: int) -> bool {
    exists|wb: World, e: Seq<(Vec2i, i32)>, e2: Seq<(Vec2i, i32)>|
        #![trigger stamped_for(w, &wb, p, pass), pixel_outcome(&wb, w2, e, e2, p, tick)]
        stamped_for(w, &wb, p, pass) && pixel_outcome(&wb, w2, e, e2, p, tick)
}

/// The worlds `ws` go from one to the next by stepping the cells `cs` in turn, cell `cs[i]` in
/// pass `ps[i]` of tick `tick`.
pub open spec fn cell_chain(ws: Seq<World>, cs: Seq<Vec2i>, ps: Seq<u8>, tick: int) -> bool {
    &&& ws.len() == cs.len() + 1
    &&& ps.len() == cs.len()
    &&& forall|i: int| 0 <= i < cs.len() ==> #[trigger] cell_step(&ws[i], &ws[i + 1], cs[i], ps[i], tick)
}

/// `cs` holds each grid cell of `w` inside `b` exactly once, bottom row first.
pub open spec fn rect_visit(w: &World, b: RectI, cs: Seq<Vec2i>) -> bool {
    &&& cs.no_duplicates()
    &&& forall|q: Vec2i| cs.contains(q) <==> (w.in_grid(q) && b.spec_contains(q))
    &&& forall|i: int, j: int| 0 <= i < j < cs.len() ==> (#[trigger] cs[i]).y >= (#[trigger] cs[j]).y
}

/// Appending one more cell step to a chain keeps it a chain.
proof fn lemma_chain_push(ws: Seq<World>, cs: Seq<Vec2i>, ps: Seq<u8>, w: World, p: Vec2i, pass: u8, tick: int)
    requires
        cell_chain(ws, cs, ps, tick),
        cell_step(&ws.last(), &w, p, pass, tick),
    ensures
        cell_chain(ws.push(w), cs.push(p), ps.push(pass), tick),
        ws.push(w)[0] == ws[0],
        ws.push(w).last() == w,
{
    let ws2 = ws.push(w);
    let cs2 = cs.push(p);
    let ps2 = ps.push(pass);
    assert forall|i: int| 0 <= i < cs2.len() implies #[trigger] cell_step(&ws2[i], &ws2[i + 1], cs2[i], ps2[i], tick) by {
        if i < cs.len() {
            assert(ws2[i] == ws[i] && ws2[i + 1] == ws[i + 1] && cs2[i] == cs[i] && ps2[i] == ps[i]);
        } else {
            assert(ws2[i] == ws.last() && ws2[i + 1] == w);
        }
    }
}

/// Position of pass `k` in the pass order of tick `tick` (see [`pass_order_of`]).
pub open spec fn pass_pos(tick: u64, k: int) -> int {
    if tick % 2 == 0 { k } else { (k + 2) % 4 }
}

/// Cell `q` is a grid cell of the awake chunk slot `s` of `w`.
pub open spec fn awake_member(w: &World, s: int, q: Vec2i) -> bool {
    &&& 0 <= s < w.slot_count()
    &&& w.awake_view()[s] > 0
    &&& w.in_grid(q)
    &&& w.chunk_bounds(w.slot_coord(s)).spec_contains(q)
}

/// Cell `q` is a grid cell of chunk slot `s` of `w`, which is awake once the wake counters advance.
pub open spec fn tick_member(w: &World, s: int, q: Vec2i) -> bool {
    &&& 0 <= s < w.slot_count()
    &&& advanced_awake(w.awake_view(), w.awake_next_view())[s] > 0
    &&& w.in_grid(q)
    &&& w.chunk_bounds(w.slot_coord(s)).spec_contains(q)
}

/// Cell `q` belongs to a chunk of `w` awake for the next tick whose pass is `k`.
pub open spec fn tick_cell_in_pass(w: &World, q: Vec2i, k: int) -> bool {
    exists|s: int| #[trigger] tick_member(w, s, q) && pass_of_chunk(w.slot_coord(s)) == k
}

/// Cell `q` belongs to an awake chunk of `w` whose pass is `k`.
pub open spec fn awake_cell_in_pass(w: &World, q: Vec2i, k: int) -> bool {
    exists|s: int| #[trigger] awake_member(w, s, q) && pass_of_chunk(w.slot_coord(s)) == k
}

/// The cells `cs`, stepped in the passes `ps`, are those a tick `tick` of `w` steps: each is a
/// cell of a chunk awake for the tick, stepped in that chunk's pass; every cell of such a chunk is
/// among them; and the passes come in the tick's pass order.
pub open spec fn tick_visit(w: &World, cs: Seq<Vec2i>, ps: Seq<u8>, tick: u64) -> bool {
    &&& ps.len() == cs.len()
    &&& forall|i: int| 0 <= i < cs.len() ==> #[trigger] tick_cell_in_pass(w, cs[i], ps[i] as int)
    &&& forall|s: int, q: Vec2i| #[trigger] tick_member(w, s, q) ==> cs.contains(q)
    &&& forall|i: int, j: int| 0 <= i < j < cs.len() ==> pass_pos(tick, (#[trigger] ps[i]) as int) <= pass_pos(tick, (#[trigger] ps[j]) as int)
}

/// Two chains that meet make one.
proof fn lemma_chain_append(ws1: Seq<World>, cs1: Seq<Vec2i>, ps1: Seq<u8>, ws2: Seq<World>, cs2: Seq<Vec2i>, ps2: Seq<u8>, tick: int)
    requires
        cell_chain(ws1, cs1, ps1, tick),
        cell_chain(ws2, cs2, ps2, tick),
        ws1.last() == ws2[0],
    ensures
        cell_chain(ws1 + ws2.skip(1), cs1 + cs2, ps1 + ps2, tick),
        (ws1 + ws2.skip(1))[0] == ws1[0],
        (ws1 + ws2.skip(1)).last() == ws2.last(),
{
    let ws = ws1 + ws2.skip(1);
    let cs = cs1 + cs2;
    let ps = ps1 + ps2;
    assert(ws.len() == cs.len() + 1);
    assert forall|i: int| 0 <= i < cs.len() implies #[trigger] cell_step(&ws[i], &ws[i + 1], cs[i], ps[i], tick) by {
        if i < cs1.len() {
            assert(ws[i] == ws1[i] && cs[i] == cs1[i] && ps[i] == ps1[i]);
            if i + 1 < ws1.len() { assert(ws[i + 1] == ws1[i + 1]); } else { assert(ws[i + 1] == ws2[1]); assert(ws1[i + 1] == ws1.last()); }
        } else {
            let k = i - cs1.len();
            assert(cs[i] == cs2[k] && ps[i] == ps2[k]);
            assert(ws[i + 1] == ws2[k + 1]);
            if k == 0 { assert(ws[i] == ws1.last()); } else { assert(ws[i] == ws2[k]); }
        }
    }
    assert(ws.last() == ws2.last());
}

/// The pass in position `j` of a tick's pass order has position `j`.
proof fn lemma_pass_pos(tick: u64, j: int)
    requires 0 <= j < 4,
    ensures pass_pos(tick, pass_order_of(tick)[j] as int) == j,
{
}

/// The cells `cs` stepped so far, in passes `ps`, with every pass in position at most `last` of
/// the pass order of tick `tick`: each is a cell of an awake chunk of `w`, stepped in that chunk's
/// pass, and the passes come in order.
pub open spec fn visit_progress(w: &World, cs: Seq<Vec2i>, ps: Seq<u8>, tick: u64, last: int) -> bool {
    &&& ps.len() == cs.len()
    &&& forall|i: int| 0 <= i < cs.len() ==> #[trigger] awake_cell_in_pass(w, cs[i], ps[i] as int)
    &&& forall|i: int| 0 <= i < ps.len() ==> pass_pos(tick, (#[trigger] ps[i]) as int) <= last
    &&& forall|i: int, j: int| 0 <= i < j < cs.len() ==> pass_pos(tick, (#[trigger] ps[i]) as int) <= pass_pos(tick, (#[trigger] ps[j]) as int)
}

/// Stepping chunk `coords[cj]` of pass `order[pj]` adds its cells (`csc`, all in that pass) to
/// the cells visited so far.
proof fn lemma_chunk_visits(w0: &World, wp: &World, wb: &World, cs: Seq<Vec2i>, ps: Seq<u8>, csc: Seq<Vec2i>, psc: Seq<u8>,
    coords: Seq<ChunkCoord>, cj: int, pass: int, order: Seq<usize>, pj: int, tick: u64)
    requires
        w0.wf(),
        w0.sim_frame(wb), w0.sim_frame(wp),
        0 <= pj < 4, order == pass_order_of(tick), pass == order[pj] as int,
        0 <= cj < coords.len(),
        coords == picked(|s: int| wp.in_pass(pass, s), |s: int| wp.slot_coord(s), wp.slot_count()),
        rect_visit(wb, wb.chunk_bounds(coords[cj]), csc),
        psc.len() == csc.len(),
        forall|i: int| 0 <= i < psc.len() ==> psc[i] == pass,
        visit_progress(w0, cs, ps, tick, pj),
        forall|s: int, q: Vec2i| #[trigger] awake_member(w0, s, q) && pass_done(order, pj, pass_of_chunk(w0.slot_coord(s)))
            ==> cs.contains(q),
        forall|s: int, q: Vec2i| #[trigger] awake_member(w0, s, q) && coords.subrange(0, cj).contains(w0.slot_coord(s))
            ==> cs.contains(q),
    ensures
        visit_progress(w0, cs + csc, ps + psc, tick, pj),
        forall|s: int, q: Vec2i| #[trigger] awake_member(w0, s, q) && pass_done(order, pj, pass_of_chunk(w0.slot_coord(s)))
            ==> (cs + csc).contains(q),
        forall|s: int, q: Vec2i| #[trigger] awake_member(w0, s, q) && coords.subrange(0, cj + 1).contains(w0.slot_coord(s))
            ==> (cs + csc).contains(q),
{
    let c = coords[cj];
    let pick = |s: int| wp.in_pass(pass, s);
    let f = |s: int| wp.slot_coord(s);
    lemma_picked_from(pick, f, wp.slot_count(), cj);
    let sc = choose|sc: int| 0 <= sc < wp.slot_count() && #[trigger] pick(sc) && f(sc) == coords[cj];
    assert(wp.in_pass(pass, sc) && wp.slot_coord(sc) == c);
    assert(w0.slot_coord(sc) == c);
    assert(pass_of_chunk(c) == pass);
    lemma_pass_pos(tick, pj);
    let cs2 = cs + csc;
    let ps2 = ps + psc;
    assert forall|i: int| 0 <= i < cs2.len() implies #[trigger] awake_cell_in_pass(w0, cs2[i], ps2[i] as int) by {
        if i < cs.len() {
            assert(cs2[i] == cs[i] && ps2[i] == ps[i]);
        } else {
            let k = i - cs.len();
            assert(cs2[i] == csc[k] && ps2[i] == psc[k]);
            assert(csc.contains(csc[k]));
            assert(awake_member(w0, sc, cs2[i]));
        }
    }
    assert forall|i: int| 0 <= i < ps2.len() implies pass_pos(tick, (#[trigger] ps2[i]) as int) <= pj by {
        if i < ps.len() { assert(ps2[i] == ps[i]); } else { assert(ps2[i] == psc[i - ps.len()]); }
    }
    assert forall|i: int, j: int| 0 <= i < j < cs2.len() implies pass_pos(tick, (#[trigger] ps2[i]) as int) <= pass_pos(tick, (#[trigger] ps2[j]) as int) by {
        if j < ps.len() {
            assert(ps2[i] == ps[i] && ps2[j] == ps[j]);
        } else {
            assert(ps2[j] == psc[j - ps.len()]);
            if i < ps.len() { assert(ps2[i] == ps[i]); } else { assert(ps2[i] == psc[i - ps.len()]); }
        }
    }
    assert(visit_progress(w0, cs2, ps2, tick, pj));
    assert forall|q: Vec2i| cs.contains(q) implies #[trigger] cs2.contains(q) by {
        let i = choose|i: int| 0 <= i < cs.len() && cs[i] == q;
        assert(cs2[i] == q);
    }
    assert forall|s: int, q: Vec2i| #[trigger] awake_member(w0, s, q) && coords.subrange(0, cj + 1).contains(w0.slot_coord(s))
        implies cs2.contains(q) by {
        if !coords.subrange(0, cj).contains(w0.slot_coord(s)) {
            let i = choose|i: int| 0 <= i < cj + 1 && #[trigger] coords.subrange(0, cj + 1)[i] == w0.slot_coord(s);
            if i < cj {
                assert(coords.subrange(0, cj)[i] == w0.slot_coord(s));
            } else {
                assert(w0.slot_coord(s) == c);
                assert(csc.contains(q));
                let k = choose|k: int| 0 <= k < csc.len() && csc[k] == q;
                assert(cs2[cs.len() + k] == q);
            }
        }
    }
}

/// Steps every grid cell of `bounds` once, bottom row first, each row in a random direction,
/// stamping `pass` into the debug overlay; returns the explosions and flame spawns it produced.
/// Cells more than 130 cells away from `bounds` keep their in-progress state.
fn process_rect(world: &mut World, bounds: RectI, pass: u8, rng: &mut SmallRng, sim_tick: u64) -> (r: (Vec<(Vec2i, i32)>, Vec<FlameSpawn>))
    requires old(world).wf(), sim_margin_ok(old(world)),
    ensures
        old(world).sim_frame(final(world)),
        forall|q: Vec2i| !near_rect(bounds, q, 130) ==> #[trigger] final(world).sim_cell(q) == old(world).sim_cell(q),
        forall|q: Vec2i| stamped_in(old(world), bounds, q) ==>
            #[trigger] final(world).debug_pass_view()[old(world).store_view().index_of(q)] == pass,
        forall|q: Vec2i| old(world).in_grid(q) && !bounds.spec_contains(q)
            && old(world).store_view().index_of(q) < old(world).debug_pass_view().len() ==>
            #[trigger] final(world).debug_pass_view()[old(world).store_view().index_of(q)]
                == old(world).debug_pass_view()[old(world).store_view().index_of(q)],
        exists|ws: Seq<World>, cs: Seq<Vec2i>, ps: Seq<u8>| #[trigger] cell_chain(ws, cs, ps, sim_tick as int)
            && ws[0] == *old(world) && ws.last() == *final(world)
            && (forall|i: int| 0 <= i < ps.len() ==> ps[i] == pass)
            && rect_visit(old(world), bounds, cs),
{
    let mut explosions: Vec<(Vec2i, i32)> = Vec::new();
    let mut flame_spawns: Vec<FlameSpawn> = Vec::new();
    let ghost w0 = *old(world);
    let ghost mut ws: Seq<World> = seq![w0];
    let ghost mut cs: Seq<Vec2i> = Seq::empty();
    let ghost mut ps: Seq<u8> = Seq::empty();
    if bounds.max.y < bounds.min.y {
        proof {
            assert(cell_chain(ws, cs, ps, sim_tick as int));
            assert forall|q: Vec2i| cs.contains(q) <==> (w0.in_grid(q) && bounds.spec_contains(q)) by {}
        }
        return (explosions, flame_spawns);
    }
    let mut y: i64 = bounds.max.y as i64;
    while y >= bounds.min.y as i64
        invariant
            w0 == *old(world),
            w0.wf(), sim_margin_ok(&w0),
            w0.sim_frame(world),
            y <= bounds.max.y,
            bounds.min.y - 1 <= y,
            forall|q: Vec2i| !near_rect(bounds, q, 130) ==> #[trigger] world.sim_cell(q) == w0.sim_cell(q),
            forall|q: Vec2i| stamped_in(&w0, bounds, q) && q.y > y ==>
                #[trigger] world.debug_pass_view()[w0.store_view().index_of(q)] == pass,
            forall|q: Vec2i| w0.in_grid(q) && !bounds.spec_contains(q) && w0.store_view().index_of(q) < w0.debug_pass_view().len() ==>
                #[trigger] world.debug_pass_view()[w0.store_view().index_of(q)] == w0.debug_pass_view()[w0.store_view().index_of(q)],
            cell_chain(ws, cs, ps, sim_tick as int),
            ws[0] == w0, ws.last() == *world,
            forall|i: int| 0 <= i < ps.len() ==> ps[i] == pass,
            cs.no_duplicates(),
            forall|q: Vec2i| cs.contains(q) <==> (w0.in_grid(q) && bounds.spec_contains(q) && q.y > y),
            forall|i: int, j: int| 0 <= i < j < cs.len() ==> (#[trigger] cs[i]).y >= (#[trigger] cs[j]).y,
            forall|i: int| 0 <= i < cs.len() ==> (#[trigger] cs[i]).y > y,
        decreases y - bounds.min.y + 1,
    {
        let reverse_x = gen_ratio(rng, 1, 2);
        let width: i64 = bounds.max.x as i64 - bounds.min.x as i64 + 1;
        let mut k: i64 = 0;
        while k < width
            invariant
                w0.wf(), sim_margin_ok(&w0),
                w0.sim_frame(world),
                bounds.min.y <= y <= bounds.max.y,
                width == bounds.max.x - bounds.min.x + 1,
                0 <= k,
                forall|q: Vec2i| !near_rect(bounds, q, 130) ==> #[trigger] world.sim_cell(q) == w0.sim_cell(q),
                forall|q: Vec2i| stamped_in(&w0, bounds, q) && (q.y > y || (q.y == y && (if reverse_x {
                        bounds.max.x - k < q.x } else { q.x < bounds.min.x + k }))) ==>
                    #[trigger] world.debug_pass_view()[w0.store_view().index_of(q)] == pass,
                forall|q: Vec2i| w0.in_grid(q) && !bounds.spec_contains(q) && w0.store_view().index_of(q) < w0.debug_pass_view().len() ==>
                    #[trigger] world.debug_pass_view()[w0.store_view().index_of(q)] == w0.debug_pass_view()[w0.store_view().index_of(q)],
                cell_chain(ws, cs, ps, sim_tick as int),
                ws[0] == w0, ws.last() == *world,
                forall|i: int| 0 <= i < ps.len() ==> ps[i] == pass,
                cs.no_duplicates(),
                forall|q: Vec2i| cs.contains(q) <==> (w0.in_grid(q) && bounds.spec_contains(q) && (q.y > y || (q.y == y && (if reverse_x {
                        bounds.max.x - k < q.x } else { q.x < bounds.min.x + k })))),
                forall|i: int, j: int| 0 <= i < j < cs.len() ==> (#[trigger] cs[i]).y >= (#[trigger] cs[j]).y,
                forall|i: int| 0 <= i < cs.len() ==> (#[trigger] cs[i]).y >= y,
            decreases width - k,
        {
            let x: i64 = if reverse_x { bounds.max.x as i64 - k } else { bounds.min.x as i64 + k };
            let ghost kk = k;
            k = k + 1;
            let p = Vec2i::new(x as i32, y as i32);
            if world.sim_in_grid(p) {
                let ghost wa = *world;
                world.stamp_debug_pass(p, pass);
                let ghost wb = *world;
                let ghost eb = explosions@;
                step_pixel(world, p, rng, &mut explosions, &mut flame_spawns, sim_tick);
                proof {
                    assert(stamped_for(&wa, &wb, p, pass));
                    assert(pixel_outcome(&wb, world, eb, explosions@, p, sim_tick as int));
                    assert(cell_step(&wa, world, p, pass, sim_tick as int));
                    lemma_chain_push(ws, cs, ps, *world, p, pass, sim_tick as int);
                    assert(!cs.contains(p));
                    let cs0 = cs;
                    ws = ws.push(*world);
                    cs = cs.push(p);
                    ps = ps.push(pass);
                    assert forall|q: Vec2i| cs.contains(q) <==> (w0.in_grid(q) && bounds.spec_contains(q) && (q.y > y || (q.y == y && (if reverse_x {
                            bounds.max.x - k < q.x } else { q.x < bounds.min.x + k })))) by {
                        if q == p {
                            assert(cs[cs0.len() as int] == p);
                        } else {
                            if cs0.contains(q) {
                                let i = choose|i: int| 0 <= i < cs0.len() && cs0[i] == q;
                                assert(cs[i] == q);
                            }
                            if cs.contains(q) {
                                let i = choose|i: int| 0 <= i < cs.len() && cs[i] == q;
                                assert(i < cs0.len());
                                assert(cs0[i] == q);
                            }
                        }
                    }
                    assert forall|i: int, j: int| 0 <= i < j < cs.len() implies (#[trigger] cs[i]).y >= (#[trigger] cs[j]).y by {
                        assert(cs[i] == cs0[i]);
                        if j < cs0.len() { assert(cs[j] == cs0[j]); }
                    }
                    assert forall|i: int| 0 <= i < cs.len() implies (#[trigger] cs[i]).y >= y by {
                        if i < cs0.len() { assert(cs[i] == cs0[i]); }
                    }
                    assert(cs.no_duplicates()) by {
                        assert forall|i: int, j: int| 0 <= i < cs.len() && 0 <= j < cs.len() && i != j implies cs[i] != cs[j] by {
                            if i < cs0.len() && j < cs0.len() {
                                assert(cs[i] == cs0[i] && cs[j] == cs0[j]);
                            } else if i < cs0.len() {
                                assert(cs0.contains(cs0[i]));
                            } else {
                                assert(cs0.contains(cs0[j]));
                            }
                        }
                    }
                }
                proof {
                    assert forall|q: Vec2i| !near_rect(bounds, q, 130) implies #[trigger] world.sim_cell(q) == w0.sim_cell(q) by {
                        assert(!within(p, q, 130));
                        assert(wb.sim_cell(q) == wa.sim_cell(q));
                    }
                    assert forall|q: Vec2i| stamped_in(&w0, bounds, q) && (q.y > y || (q.y == y && (if reverse_x {
                            bounds.max.x - k < q.x } else { q.x < bounds.min.x + k }))) implies
                        #[trigger] world.debug_pass_view()[w0.store_view().index_of(q)] == pass by {
                        if q != p {
                            assert(wa.debug_pass_view()[w0.store_view().index_of(q)] == pass);
                        }
                    }
                    assert forall|q: Vec2i| w0.in_grid(q) && !bounds.spec_contains(q) && w0.store_view().index_of(q) < w0.debug_pass_view().len() implies
                        #[trigger] world.debug_pass_view()[w0.store_view().index_of(q)] == w0.debug_pass_view()[w0.store_view().index_of(q)] by {
                        assert(q != p);
                        if w0.store_view().index_of(q) == w0.store_view().index_of(p) {
                            w0.lemma_grid_geometry();
                            crate::world::store::lemma_grid_index_injective(w0.store_view().spec_origin(),
                                w0.store_view().spec_width(), w0.store_view().spec_height(), p, q);
                        }
                        assert(wa.debug_pass_view()[w0.store_view().index_of(q)] == w0.debug_pass_view()[w0.store_view().index_of(q)]);
                    }
                }
            } else {
                proof {
                    assert forall|q: Vec2i| stamped_in(&w0, bounds, q) && (q.y > y || (q.y == y && (if reverse_x {
                            bounds.max.x - k < q.x } else { q.x < bounds.min.x + k }))) implies
                        #[trigger] world.debug_pass_view()[w0.store_view().index_of(q)] == pass by {
                        assert(q != p);
                    }
                }
            }
        }
        proof {
            assert forall|q: Vec2i| cs.contains(q) <==> (w0.in_grid(q) && bounds.spec_contains(q) && q.y > y - 1) by {
                if w0.in_grid(q) && bounds.spec_contains(q) && q.y == y {
                    if reverse_x { assert(bounds.max.x - k < q.x); } else { assert(q.x < bounds.min.x + k); }
                }
            }
        }
        y = y - 1;
    }
    proof {
        assert(cell_chain(ws, cs, ps, sim_tick as int));
        assert(rect_visit(&w0, bounds, cs));
    }
    (explosions, flame_spawns)
}

/// Steps the grid cells of chunk `coord` (see [`process_rect`]); cells more than 130 cells away
/// from the chunk keep their in-progress state.
fn process_chunk(world: &mut World, coord: ChunkCoord, pass: u8, rng: &mut SmallRng, sim_tick: u64) -> (r: (Vec<(Vec2i, i32)>, Vec<FlameSpawn>))
    requires old(world).wf(), sim_margin_ok(old(world)),
    ensures
        old(world).sim_frame(final(world)),
        forall|q: Vec2i| !near_rect(old(world).chunk_bounds(coord), q, 130) ==> #[trigger] final(world).sim_cell(q) == old(world).sim_cell(q),
        forall|q: Vec2i| stamped_in(old(world), old(world).chunk_bounds(coord), q) ==>
            #[trigger] final(world).debug_pass_view()[old(world).store_view().index_of(q)] == pass,
        forall|q: Vec2i| old(world).in_grid(q) && !old(world).chunk_bounds(coord).spec_contains(q)
            && old(world).store_view().index_of(q) < old(world).debug_pass_view().len() ==>
            #[trigger] final(world).debug_pass_view()[old(world).store_view().index_of(q)]
                == old(world).debug_pass_view()[old(world).store_view().index_of(q)],
        exists|ws: Seq<World>, cs: Seq<Vec2i>, ps: Seq<u8>| #[trigger] cell_chain(ws, cs, ps, sim_tick as int)
            && ws[0] == *old(world) && ws.last() == *final(world)
            && (forall|i: int| 0 <= i < ps.len() ==> ps[i] == pass)
            && rect_visit(old(world), old(world).chunk_bounds(coord), cs),
{
    let bounds = world.bounds_for_chunk(coord);
    process_rect(world, bounds, pass, rng, sim_tick)
}

/// Steps every cell of the grid once (pass id 4 in the debug overlay).
fn process_world_full_pass(world: &mut World, rng: &mut SmallRng, sim_tick: u64) -> (r: (Vec<(Vec2i, i32)>, Vec<FlameSpawn>))
    requires old(world).wf(), sim_margin_ok(old(world)),
    ensures
        old(world).sim_frame(final(world)),
        forall|q: Vec2i| old(world).spec_debug_pass_enabled() && old(world).in_grid(q)
            && old(world).store_view().index_of(q) < old(world).debug_pass_view().len() ==>
            #[trigger] final(world).debug_pass_view()[old(world).store_view().index_of(q)] == 4,
        exists|ws: Seq<World>, cs: Seq<Vec2i>, ps: Seq<u8>| #[trigger] cell_chain(ws, cs, ps, sim_tick as int)
            && ws[0] == *old(world) && ws.last() == *final(world)
            && (forall|i: int| 0 <= i < ps.len() ==> ps[i] == 4)
            && cs.no_duplicates()
            && (forall|q: Vec2i| cs.contains(q) <==> old(world).in_grid(q)),
{
    let ghost w0 = *world;
    match world.dirty_world_bounds() {
        Some(bounds) => {
            let r = process_rect(world, bounds, 4, rng, sim_tick);
            proof {
                let (ws, cs, ps) = choose|ws: Seq<World>, cs: Seq<Vec2i>, ps: Seq<u8>| #[trigger] cell_chain(ws, cs, ps, sim_tick as int)
                    && ws[0] == w0 && ws.last() == *world
                    && (forall|i: int| 0 <= i < ps.len() ==> ps[i] == 4)
                    && rect_visit(&w0, bounds, cs);
                assert forall|q: Vec2i| cs.contains(q) <==> w0.in_grid(q) by {
                    if w0.in_grid(q) { assert(bounds.spec_contains(q)); }
                }
                assert(cell_chain(ws, cs, ps, sim_tick as int));
                assert forall|q: Vec2i| w0.spec_debug_pass_enabled() && w0.in_grid(q)
                    && w0.store_view().index_of(q) < w0.debug_pass_view().len() implies
                    #[trigger] world.debug_pass_view()[w0.store_view().index_of(q)] == 4 by {
                    assert(stamped_in(&w0, bounds, q));
                }
            }
            r
        }
        None => {
            proof {
                let ws = seq![w0];
                let cs = Seq::<Vec2i>::empty();
                let ps = Seq::<u8>::empty();
                assert(cell_chain(ws, cs, ps, sim_tick as int));
                assert forall|q: Vec2i| cs.contains(q) <==> w0.in_grid(q) by {}
            }
            (Vec::new(), Vec::new())
        }
    }
}

impl Scheduler {
    pub closed spec fn spec_mode(&self) -> SchedulerMode { self.mode }
    pub closed spec fn spec_seed(&self) -> u64 { self.seed }
    pub closed spec fn spec_tick(&self) -> u64 { self.tick }
    pub closed spec fn spec_full_pass(&self) -> bool { self.debug_full_world_single_pass }
    pub closed spec fn spec_chunk_step(&self) -> bool { self.debug_chunk_step }
    /// A tick stepped one chunk per call is under way.
    pub closed spec fn mid_tick(&self) -> bool { self.chunk_step is Some }
    pub closed spec fn flame_spawns_view(&self) -> Seq<FlameSpawn> { self.pending_flame_spawns@ }
    pub closed spec fn explosions_view(&self) -> Seq<(Vec2i, i32)> { self.pending_grid_explosions@ }

    pub closed spec fn wf(&self) -> bool {
        match self.chunk_step {
            Some(s) => {
                &&& s.pass_idx < 4
                &&& s.coord_idx < s.coords@.len()
                &&& forall|i: int| 0 <= i < 4 ==> #[trigger] s.pass_order@[i] < 4
            },
            None => true,
        }
    }

    pub fn new(mode: SchedulerMode, seed: u64) -> (s: Self)
        ensures
            s.wf(),
            s.spec_mode() == mode,
            s.spec_seed() == seed,
            s.spec_tick() == 0,
            !s.spec_full_pass(),
            !s.spec_chunk_step(),
            !s.mid_tick(),
            s.flame_spawns_view() == Seq::<FlameSpawn>::empty(),
            s.explosions_view() == Seq::<(Vec2i, i32)>::empty(),
    {
        Scheduler {
            mode,
            seed,
            tick: 0,
            debug_full_world_single_pass: false,
            debug_chunk_step: false,
            chunk_step: None,
            pending_flame_spawns: Vec::new(),
            pending_grid_explosions: Vec::new(),
        }
    }

    /// Hands out the flame spawns of the last step and clears them.
    pub fn take_flame_spawns(&mut self) -> (v: Vec<FlameSpawn>)
        ensures
            v@ == old(self).flame_spawns_view(),
            final(self).flame_spawns_view() == Seq::<FlameSpawn>::empty(),
            final(self).explosions_view() == old(self).explosions_view(),
            final(self).spec_tick() == old(self).spec_tick(),
            final(self).spec_mode() == old(self).spec_mode(),
            final(self).spec_seed() == old(self).spec_seed(),
            final(self).spec_full_pass() == old(self).spec_full_pass(),
            final(self).spec_chunk_step() == old(self).spec_chunk_step(),
            final(self).mid_tick() == old(self).mid_tick(),
            old(self).wf() ==> final(self).wf(),
    {
        let mut v: Vec<FlameSpawn> = Vec::new();
        std::mem::swap(&mut v, &mut self.pending_flame_spawns);
        v
    }

    /// Hands out the explosions the grid steps produced and clears them.
    pub fn take_pending_grid_explosions(&mut self) -> (v: Vec<(Vec2i, i32)>)
        ensures
            v@ == old(self).explosions_view(),
            final(self).explosions_view() == Seq::<(Vec2i, i32)>::empty(),
            final(self).flame_spawns_view() == old(self).flame_spawns_view(),
            final(self).spec_tick() == old(self).spec_tick(),
            final(self).spec_mode() == old(self).spec_mode(),
            final(self).spec_seed() == old(self).spec_seed(),
            final(self).spec_full_pass() == old(self).spec_full_pass(),
            final(self).spec_chunk_step() == old(self).spec_chunk_step(),
            final(self).mid_tick() == old(self).mid_tick(),
            old(self).wf() ==> final(self).wf(),
    {
        let mut v: Vec<(Vec2i, i32)> = Vec::new();
        std::mem::swap(&mut v, &mut self.pending_grid_explosions);
        v
    }

    pub fn mode(&self) -> (m: SchedulerMode)
        ensures m == self.spec_mode(),
    {
        self.mode
    }

    pub fn set_mode(&mut self, mode: SchedulerMode)
        ensures
            final(self).spec_mode() == mode,
            final(self).spec_seed() == old(self).spec_seed(),
            final(self).spec_tick() == old(self).spec_tick(),
            final(self).spec_full_pass() == old(self).spec_full_pass(),
            final(self).spec_chunk_step() == old(self).spec_chunk_step(),
            final(self).mid_tick() == old(self).mid_tick(),
            final(self).flame_spawns_view() == old(self).flame_spawns_view(),
            final(self).explosions_view() == old(self).explosions_view(),
            old(self).wf() ==> final(self).wf(),
    {
        self.mode = mode;
    }

    pub fn debug_full_world_single_pass(&self) -> (b: bool)
        ensures b == self.spec_full_pass(),
    {
        self.debug_full_world_single_pass
    }

    pub fn set_debug_full_world_single_pass(&mut self, enabled: bool)
        ensures
            final(self).spec_full_pass() == enabled,
            final(self).spec_mode() == old(self).spec_mode(),
            final(self).spec_seed() == old(self).spec_seed(),
            final(self).spec_tick() == old(self).spec_tick(),
            final(self).spec_chunk_step() == old(self).spec_chunk_step(),
            final(self).mid_tick() == old(self).mid_tick(),
            final(self).flame_spawns_view() == old(self).flame_spawns_view(),
            final(self).explosions_view() == old(self).explosions_view(),
            old(self).wf() ==> final(self).wf(),
    {
        self.debug_full_world_single_pass = enabled;
    }

    pub fn debug_chunk_step(&self) -> (b: bool)
        ensures b == self.spec_chunk_step(),
    {
        self.debug_chunk_step
    }

    pub fn set_debug_chunk_step(&mut self, enabled: bool)
        ensures
            final(self).spec_chunk_step() == enabled,
            final(self).spec_mode() == old(self).spec_mode(),
            final(self).spec_seed() == old(self).spec_seed(),
            final(self).spec_tick() == old(self).spec_tick(),
            final(self).spec_full_pass() == old(self).spec_full_pass(),
            final(self).mid_tick() == old(self).mid_tick(),
            final(self).flame_spawns_view() == old(self).flame_spawns_view(),
            final(self).explosions_view() == old(self).explosions_view(),
            old(self).wf() ==> final(self).wf(),
    {
        self.debug_chunk_step = enabled;
    }

    /// Ends a tick stepped one chunk per call without stepping further: the highlight is cleared,
    /// the in-progress cells are committed and the tick's explosions are handed on.
    pub fn abort_debug_chunk_step(&mut self, world: &mut World)
        requires old(self).wf(), old(world).wf(), sim_margin_ok(old(world)),
        ensures
            final(self).wf(),
            !final(self).mid_tick(),
            tick_frame(old(world), final(world)),
            final(self).spec_tick() == old(self).spec_tick(),
            final(self).spec_mode() == old(self).spec_mode(),
            final(self).spec_seed() == old(self).spec_seed(),
            old(self).explosions_view().is_prefix_of(final(self).explosions_view()),
            !old(self).mid_tick() ==> *final(world) == *old(world) && final(self).explosions_view() == old(self).explosions_view(),
    {
        match self.chunk_step.take() {
            Some(state) => {
                world.set_debug_chunk_highlight(None);
                world.finish_sim();
                append_all(&mut self.pending_grid_explosions, &state.pending_explosions);
            }
            None => {}
        }
    }

    /// Advances the simulation by one tick (or, in chunk-step mode, by one chunk of a tick): the
    /// wake counters advance, the in-progress buffer starts as a copy of the committed one, every
    /// cell of the active chunks is stepped in four checkerboard passes (or the whole grid in one
    /// pass in full-pass mode), and the result is committed. Explosions accumulate for the caller;
    /// the flame spawns are those of this tick.
    pub fn step_world(&mut self, world: &mut World, rng: &mut SmallRng)
        requires old(self).wf(), old(world).wf(), sim_margin_ok(old(world)),
        ensures
            final(self).wf(),
            tick_frame(old(world), final(world)),
            final(self).spec_mode() == old(self).spec_mode(),
            final(self).spec_seed() == old(self).spec_seed(),
            final(self).spec_full_pass() == old(self).spec_full_pass(),
            final(self).spec_chunk_step() == old(self).spec_chunk_step(),
            old(self).explosions_view().is_prefix_of(final(self).explosions_view()),
            (old(self).spec_full_pass() || !old(self).spec_chunk_step() || !old(self).mid_tick()) ==>
                final(self).spec_tick() == (if old(self).spec_tick() == u64::MAX { u64::MAX } else { (old(self).spec_tick() + 1) as u64 }),
            old(self).spec_chunk_step() && !old(self).spec_full_pass() && old(self).mid_tick() ==>
                final(self).spec_tick() == old(self).spec_tick(),
            !old(self).spec_full_pass() && !old(self).spec_chunk_step() ==>
                forall|s: int, q: Vec2i| #[trigger] tick_stamped(old(world), s, q) ==>
                    final(world).debug_pass_view()[old(world).store_view().index_of(q)] == pass_of_chunk(old(world).slot_coord(s)),
            !old(self).spec_full_pass() && !old(self).spec_chunk_step() ==>
                exists|ws: Seq<World>, cs: Seq<Vec2i>, ps: Seq<u8>, t: int| #[trigger] cell_chain(ws, cs, ps, t)
                    && t == final(self).spec_tick()
                    && ws[0].store_view().read_view() == old(world).store_view().read_view()
                    && ws[0].store_view().write_view() == old(world).store_view().read_view()
                    && ws[0].awake_view() == advanced_awake(old(world).awake_view(), old(world).awake_next_view())
                    && final(world).store_view().read_view() == ws.last().store_view().write_view()
                    && tick_visit(old(world), cs, ps, final(self).spec_tick()),
            old(self).spec_full_pass() ==>
                exists|ws: Seq<World>, cs: Seq<Vec2i>, ps: Seq<u8>, t: int| #[trigger] cell_chain(ws, cs, ps, t)
                    && t == final(self).spec_tick()
                    && ws[0].store_view().read_view() == old(world).store_view().read_view()
                    && ws[0].store_view().write_view() == old(world).store_view().read_view()
                    && ws[0].awake_view() == advanced_awake(old(world).awake_view(), old(world).awake_next_view())
                    && final(world).store_view().read_view() == ws.last().store_view().write_view()
                    && (forall|i: int| 0 <= i < ps.len() ==> ps[i] == 4)
                    && cs.no_duplicates()
                    && (forall|q: Vec2i| cs.contains(q) <==> old(world).in_grid(q)),
    {
        if self.debug_full_world_single_pass {
            self.tick = self.tick.saturating_add(1);
            *rng = seeded_rng(self.seed ^ self.tick);
            world.advance_awake_flags();
            world.prepare_sim();
            let ghost wprep = *world;
            self.pending_flame_spawns = Vec::new();
            let (all_explosions, flames) = process_world_full_pass(world, rng, self.tick);
            let ghost wend = *world;
            self.pending_flame_spawns = flames;
            world.finish_sim();
            append_all(&mut self.pending_grid_explosions, &all_explosions);
            proof {
                let (ws, cs, ps) = choose|ws: Seq<World>, cs: Seq<Vec2i>, ps: Seq<u8>| #[trigger] cell_chain(ws, cs, ps, self.tick as int)
                    && ws[0] == wprep && ws.last() == wend
                    && (forall|i: int| 0 <= i < ps.len() ==> ps[i] == 4)
                    && cs.no_duplicates()
                    && (forall|q: Vec2i| cs.contains(q) <==> wprep.in_grid(q));
                assert forall|q: Vec2i| cs.contains(q) <==> old(world).in_grid(q) by {
                    assert(wprep.in_grid(q) == old(world).in_grid(q));
                }
                assert(cell_chain(ws, cs, ps, self.tick as int));
            }
            return;
        }
        if self.debug_chunk_step {
            self.step_world_one_chunk(world, rng);
            return;
        }
        self.tick = self.tick.saturating_add(1);
        if self.mode == SchedulerMode::SingleThreadSeeded {
            *rng = seeded_rng(self.seed ^ self.tick);
        }
        world.advance_awake_flags();
        world.prepare_sim();
        let mut all_flames: Vec<FlameSpawn> = Vec::new();
        let mut all_explosions: Vec<(Vec2i, i32)> = Vec::new();
        let pass_order = pass_order_for(self.tick);
        let tick = self.tick;
        let seed = self.seed;
        let mode = self.mode;
        let ghost w0 = *world;
        let ghost mut ws: Seq<World> = seq![w0];
        let ghost mut cs: Seq<Vec2i> = Seq::empty();
        let ghost mut ps: Seq<u8> = Seq::empty();
        let mut pi: usize = 0;
        while pi < 4
            invariant
                w0.wf(), sim_margin_ok(&w0),
                w0.sim_frame(world),
                forall|i: int| 0 <= i < 4 ==> #[trigger] pass_order@[i] < 4,
                pass_order@ == pass_order_of(tick),
                pi <= 4,
                forall|s: int, q: Vec2i| #[trigger] slot_cell(&w0, s, q) && pass_done(pass_order@, pi as int, pass_of_chunk(w0.slot_coord(s)))
                    ==> world.debug_pass_view()[w0.store_view().index_of(q)] == pass_of_chunk(w0.slot_coord(s)),
                cell_chain(ws, cs, ps, tick as int), ws[0] == w0, ws.last() == *world,
                visit_progress(&w0, cs, ps, tick, pi as int - 1),
                forall|s: int, q: Vec2i| #[trigger] awake_member(&w0, s, q) && pass_done(pass_order@, pi as int, pass_of_chunk(w0.slot_coord(s)))
                    ==> cs.contains(q),
            decreases 4 - pi,
        {
            let pass = pass_order[pi];
            let ghost pj = pi as int;
            pi = pi + 1;
            let ghost wp = *world;
            let coords = world.active_chunk_coords_for_pass(pass);
            proof {
                assert forall|i: int| 0 <= i < ps.len() implies pass_pos(tick, (#[trigger] ps[i]) as int) <= pj by {}
            }
            let mut ci: usize = 0;
            while ci < coords.len()
                invariant
                    w0.wf(), sim_margin_ok(&w0),
                    w0.sim_frame(world),
                    w0.sim_frame(&wp),
                    pass < 4,
                    pass == pass_order@[pj],
                    pi == pj + 1,
                    0 <= pj < 4,
                    ci <= coords.len(),
                    coords@ == picked(|s: int| wp.in_pass(pass as int, s), |s: int| wp.slot_coord(s), wp.slot_count()),
                    forall|s: int, q: Vec2i| #[trigger] slot_cell(&w0, s, q) && pass_done(pass_order@, pj, pass_of_chunk(w0.slot_coord(s)))
                        ==> world.debug_pass_view()[w0.store_view().index_of(q)] == pass_of_chunk(w0.slot_coord(s)),
                    forall|s: int, q: Vec2i| #[trigger] slot_cell(&w0, s, q) && coords@.subrange(0, ci as int).contains(w0.slot_coord(s))
                        ==> world.debug_pass_view()[w0.store_view().index_of(q)] == pass_of_chunk(w0.slot_coord(s)),
                    cell_chain(ws, cs, ps, tick as int), ws[0] == w0, ws.last() == *world,
                    pass_order@ == pass_order_of(tick),
                    visit_progress(&w0, cs, ps, tick, pj),
                    forall|s: int, q: Vec2i| #[trigger] awake_member(&w0, s, q) && pass_done(pass_order@, pj, pass_of_chunk(w0.slot_coord(s)))
                        ==> cs.contains(q),
                    forall|s: int, q: Vec2i| #[trigger] awake_member(&w0, s, q) && coords@.subrange(0, ci as int).contains(w0.slot_coord(s))
                        ==> cs.contains(q),
                decreases coords.len() - ci,
            {
                let coord = coords[ci];
                let ghost wb = *world;
                let ghost cj = ci as int;
                ci = ci + 1;
                let (explosions, flames) = if mode == SchedulerMode::SingleThreadSeeded {
                    process_chunk(world, coord, pass as u8, rng, tick)
                } else {
                    let mut local_rng = seeded_rng(chunk_seed_of(seed, tick, coord));
                    process_chunk(world, coord, pass as u8, &mut local_rng, tick)
                };
                proof {
                    lemma_chunk_stamps(&w0, &wp, &wb, world, coords@, cj, pass as int, pass_order@, pj);
                    let (wsc, csc, psc) = choose|wsc: Seq<World>, csc: Seq<Vec2i>, psc: Seq<u8>| #[trigger] cell_chain(wsc, csc, psc, tick as int)
                        && wsc[0] == wb && wsc.last() == *world
                        && (forall|i: int| 0 <= i < psc.len() ==> psc[i] == pass as u8)
                        && rect_visit(&wb, wb.chunk_bounds(coord), csc);
                    lemma_chain_append(ws, cs, ps, wsc, csc, psc, tick as int);
                    lemma_chunk_visits(&w0, &wp, &wb, cs, ps, csc, psc, coords@, cj, pass as int, pass_order@, pj, tick);
                    ws = ws + wsc.skip(1);
                    cs = cs + csc;
                    ps = ps + psc;
                }
                append_all(&mut all_explosions, &explosions);
                append_all(&mut all_flames, &flames);
            }
            proof {
                assert forall|s: int, q: Vec2i| #[trigger] slot_cell(&w0, s, q) && pass_done(pass_order@, pi as int, pass_of_chunk(w0.slot_coord(s)))
                    implies world.debug_pass_view()[w0.store_view().index_of(q)] == pass_of_chunk(w0.slot_coord(s)) by {
                    if !pass_done(pass_order@, pj, pass_of_chunk(w0.slot_coord(s))) {
                        let j = choose|j: int| 0 <= j < pi && #[trigger] pass_order@[j] as int == pass_of_chunk(w0.slot_coord(s));
                        if j < pj { assert(pass_done(pass_order@, pj, pass_of_chunk(w0.slot_coord(s)))); }
                        assert(pass_of_chunk(w0.slot_coord(s)) == pass);
                        lemma_slot_in_pass(&w0, &wp, s, pass as int);
                        lemma_picked_has(|s: int| wp.in_pass(pass as int, s), |s: int| wp.slot_coord(s), wp.slot_count(), s);
                        assert(coords@.subrange(0, ci as int) =~= coords@);
                    }
                }
                assert forall|s: int, q: Vec2i| #[trigger] awake_member(&w0, s, q) && pass_done(pass_order@, pi as int, pass_of_chunk(w0.slot_coord(s)))
                    implies cs.contains(q) by {
                    if !pass_done(pass_order@, pj, pass_of_chunk(w0.slot_coord(s))) {
                        let j = choose|j: int| 0 <= j < pi && #[trigger] pass_order@[j] as int == pass_of_chunk(w0.slot_coord(s));
                        if j < pj { assert(pass_done(pass_order@, pj, pass_of_chunk(w0.slot_coord(s)))); }
                        assert(pass_of_chunk(w0.slot_coord(s)) == pass);
                        lemma_slot_in_pass(&w0, &wp, s, pass as int);
                        lemma_picked_has(|s: int| wp.in_pass(pass as int, s), |s: int| wp.slot_coord(s), wp.slot_count(), s);
                        assert(coords@.subrange(0, ci as int) =~= coords@);
                    }
                }
            }
        }
        let ghost wf = *world;
        self.pending_flame_spawns = all_flames;
        world.finish_sim();
        append_all(&mut self.pending_grid_explosions, &all_explosions);
        proof {
            let ow = *old(world);
            assert forall|s: int, q: Vec2i| #[trigger] tick_stamped(&ow, s, q) implies
                world.debug_pass_view()[ow.store_view().index_of(q)] == pass_of_chunk(ow.slot_coord(s)) by {
                assert(slot_cell(&w0, s, q));
                let k = pass_of_chunk(w0.slot_coord(s));
                lemma_pass_range(w0.slot_coord(s));
                if tick % 2 == 0 {
                    assert(pass_order@[k] as int == k);
                } else {
                    let j = if k < 2 { k + 2 } else { k - 2 };
                    assert(pass_order@[j] as int == k);
                }
                assert(pass_done(pass_order@, 4, k));
                assert(wf.debug_pass_view()[w0.store_view().index_of(q)] == k);
            }
            assert forall|s: int, q: Vec2i| #[trigger] tick_member(&ow, s, q) implies cs.contains(q) by {
                assert(awake_member(&w0, s, q));
                let k = pass_of_chunk(w0.slot_coord(s));
                lemma_pass_range(w0.slot_coord(s));
                if tick % 2 == 0 {
                    assert(pass_order@[k] as int == k);
                } else {
                    let j = if k < 2 { k + 2 } else { k - 2 };
                    assert(pass_order@[j] as int == k);
                }
                assert(pass_done(pass_order@, 4, k));
            }
            assert forall|i: int| 0 <= i < cs.len() implies #[trigger] tick_cell_in_pass(&ow, cs[i], ps[i] as int) by {
                assert(awake_cell_in_pass(&w0, cs[i], ps[i] as int));
                let s = choose|s: int| #[trigger] awake_member(&w0, s, cs[i]) && pass_of_chunk(w0.slot_coord(s)) == ps[i] as int;
                assert(tick_member(&ow, s, cs[i]));
            }
            assert(tick_visit(&ow, cs, ps, tick));
            assert(cell_chain(ws, cs, ps, tick as int));
            assert(self.tick == tick);

        }
    }

    /// One chunk of a tick stepped one chunk per call: starts the tick when none is under way
    /// (ending it at once if no chunk is active), steps the next active chunk with the highlight on
    /// it, and either commits and reopens the buffers for the next chunk or, after the last chunk of
    /// the last pass, commits and ends the tick.
    fn step_world_one_chunk(&mut self, world: &mut World, rng: &mut SmallRng)
        requires old(self).wf(), old(world).wf(), sim_margin_ok(old(world)),
        ensures
            final(self).wf(),
            tick_frame(old(world), final(world)),
            final(self).spec_mode() == old(self).spec_mode(),
            final(self).spec_seed() == old(self).spec_seed(),
            final(self).spec_full_pass() == old(self).spec_full_pass(),
            final(self).spec_chunk_step() == old(self).spec_chunk_step(),
            old(self).explosions_view().is_prefix_of(final(self).explosions_view()),
            !old(self).mid_tick() ==>
                final(self).spec_tick() == (if old(self).spec_tick() == u64::MAX { u64::MAX } else { (old(self).spec_tick() + 1) as u64 }),
            old(self).mid_tick() ==> final(self).spec_tick() == old(self).spec_tick(),
    {
        if self.chunk_step.is_none() {
            self.tick = self.tick.saturating_add(1);
            self.pending_flame_spawns = Vec::new();
            *rng = seeded_rng(self.seed ^ self.tick);
            world.advance_awake_flags();
            world.prepare_sim();
            let pass_order = pass_order_for(self.tick);
            let mut pass_idx: usize = 0;
            let mut coords = world.active_chunk_coords_for_pass(pass_order[0]);
            let ghost wp = *world;
            while coords.len() == 0 && pass_idx < 3
                invariant
                    *world == wp,
                    world.wf(),
                    pass_idx <= 3,
                    forall|i: int| 0 <= i < 4 ==> #[trigger] pass_order@[i] < 4,
                decreases 3 - pass_idx,
            {
                pass_idx = pass_idx + 1;
                coords = world.active_chunk_coords_for_pass(pass_order[pass_idx]);
            }
            if coords.len() == 0 {
                world.finish_sim();
                world.set_debug_chunk_highlight(None);
                return;
            }
            self.chunk_step = Some(ChunkStepState {
                pass_order,
                pass_idx,
                coords,
                coord_idx: 0,
                pending_explosions: Vec::new(),
            });
        }
        let state = match self.chunk_step.take() {
            Some(s) => s,
            None => { return; }
        };
        let ChunkStepState { pass_order, mut pass_idx, mut coords, mut coord_idx, mut pending_explosions } = state;
        let pass = pass_order[pass_idx] as u8;
        let coord = coords[coord_idx];
        world.set_debug_chunk_highlight(Some((coord, pass)));
        let (explosions, flames) = if self.mode == SchedulerMode::SingleThreadSeeded {
            process_chunk(world, coord, pass, rng, self.tick)
        } else {
            let mut local_rng = seeded_rng(chunk_seed_of(self.seed, self.tick, coord));
            process_chunk(world, coord, pass, &mut local_rng, self.tick)
        };
        append_all(&mut pending_explosions, &explosions);
        append_all(&mut self.pending_flame_spawns, &flames);
        let n = coords.len();
        coord_idx = coord_idx + 1;
        if coord_idx >= coords.len() {
            coord_idx = 0;
            pass_idx = pass_idx + 1;
            let ghost wq = *world;
            while pass_idx < 4
                invariant
                    *world == wq,
                    world.wf(),
                    pass_idx <= 4,
                    forall|i: int| 0 <= i < 4 ==> #[trigger] pass_order@[i] < 4,
                ensures
                    *world == wq,
                    pass_idx >= 4 || coords@.len() > 0,
                decreases 4 - pass_idx,
            {
                coords = world.active_chunk_coords_for_pass(pass_order[pass_idx]);
                if coords.len() > 0 {
                    break;
                }
                pass_idx = pass_idx + 1;
            }
        }
        if pass_idx >= 4 {
            world.set_debug_chunk_highlight(None);
            world.finish_sim();
            append_all(&mut self.pending_grid_explosions, &pending_explosions);
        } else {
            world.finish_sim();
            world.prepare_sim();
            self.chunk_step = Some(ChunkStepState { pass_order, pass_idx, coords, coord_idx, pending_explosions });
        }
    }
}

} // verus!
