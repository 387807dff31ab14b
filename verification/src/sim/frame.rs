//! Work around the grid step: placing flame spawns, resolving particle deposits, and the
//! determinism hash of the committed grid.
use vstd::prelude::*;
use rand::rngs::SmallRng;
use vstd::wrapping::u64_specs::wrapping_mul;

use crate::bresenham::{bresenham_points, line_points, line_span_ok};
use crate::cell64::{Cell, MAX_TEMPERATURE};
use crate::world::geom::Vec2i;
use crate::world::material;
use crate::world::state::World;
use super::rng::gen_range_u8;
use super::FlameSpawn;

verus! {

/// `l` is a lifetime a placed flame can get: within fire's death-lifetime range, taken as at
/// least `1..2` (`lo = max(lo, 1)`, `hi = max(hi, lo + 1)`, `lo <= l < hi`).
pub open spec fn flame_lifetime_ok(w: &World, l: int) -> bool {
    let fp = w.props_of(material::FIRE);
    let lo: int = if fp.on_death_lifetime_lo >= 1 { fp.on_death_lifetime_lo as int } else { 1 };
    let hi: int = if fp.on_death_lifetime_hi >= lo + 1 { fp.on_death_lifetime_hi as int } else { lo + 1 };
    lo <= l < hi
}

/// Writes a flame into each spawn position that is still empty: fire at the spawn's temperature
/// (capped) with a lifetime drawn from fire's death-lifetime range ([`flame_lifetime_ok`]).
pub fn place_flame_spawns(world: &mut World, spawns: &Vec<FlameSpawn>, rng: &mut SmallRng)
    requires
        old(world).wf(),
        spawns@.len() > 0 ==> old(world).props_of(material::FIRE).on_death_lifetime_lo < 255,
    ensures
        final(world).wf(),
        final(world).same_setup(old(world)),
        forall|q: Vec2i| #[trigger] final(world).cell_at(q) == old(world).cell_at(q) || {
            &&& old(world).cell_at(q)@.material == material::EMPTY
            &&& final(world).cell_at(q)@.material == material::FIRE
            &&& flame_lifetime_ok(old(world), final(world).cell_at(q)@.lifetime as int)
            &&& exists|i: int| 0 <= i < spawns@.len() && (#[trigger] spawns@[i]).pos == q
        },
        forall|i: int| 0 <= i < spawns@.len() && old(world).in_grid(#[trigger] spawns@[i].pos)
            && old(world).cell_at(spawns@[i].pos)@.material == material::EMPTY
            ==> final(world).cell_at(spawns@[i].pos)@.material == material::FIRE,
{
    let ghost w0 = *world;
    let mut k: usize = 0;
    while k < spawns.len()
        invariant
            w0 == *old(world),
            world.wf(),
            world.same_setup(&w0),
            k <= spawns@.len(),
            spawns@.len() > 0 ==> w0.props_of(material::FIRE).on_death_lifetime_lo < 255,
            forall|q: Vec2i| #[trigger] world.cell_at(q) == w0.cell_at(q) || {
                &&& w0.cell_at(q)@.material == material::EMPTY
                &&& world.cell_at(q)@.material == material::FIRE
                &&& flame_lifetime_ok(&w0, world.cell_at(q)@.lifetime as int)
                &&& exists|i: int| 0 <= i < k && (#[trigger] spawns@[i]).pos == q
            },
            forall|i: int| 0 <= i < k && w0.in_grid(#[trigger] spawns@[i].pos)
                && w0.cell_at(spawns@[i].pos)@.material == material::EMPTY
                ==> world.cell_at(spawns@[i].pos)@.material == material::FIRE,
        decreases spawns@.len() - k,
    {
        let spawn = spawns[k];
        k = k + 1;
        let fp = world.material_props(material::FIRE);
        let lo: u8 = if fp.on_death_lifetime_lo >= 1 { fp.on_death_lifetime_lo } else { 1 };
        let lo1: u8 = if lo < 255 { lo + 1 } else { 255 };
        let hi: u8 = if fp.on_death_lifetime_hi >= lo1 { fp.on_death_lifetime_hi } else { lo1 };
        let life = gen_range_u8(rng, lo, hi);
        let t = if spawn.temperature_k <= MAX_TEMPERATURE { spawn.temperature_k } else { MAX_TEMPERATURE };
        let fire_cell = Cell::new().with_material(material::FIRE).with_temperature(t).with_lifetime(life);
        let p = spawn.pos;
        if world.get_cell(p).material() == material::EMPTY {
            let ghost before = *world;
            proof {
                crate::cell64::lemma_zero_fields();
                super::lemma_material_mask(material::FIRE);
            }
            world.set_cell(p, fire_cell);
            proof {
                assert forall|q: Vec2i| #[trigger] world.cell_at(q) == w0.cell_at(q) || {
                    &&& w0.cell_at(q)@.material == material::EMPTY
                    &&& world.cell_at(q)@.material == material::FIRE
                    &&& flame_lifetime_ok(&w0, world.cell_at(q)@.lifetime as int)
                    &&& exists|i: int| 0 <= i < k && (#[trigger] spawns@[i]).pos == q
                } by {
                    if q == p && before.in_grid(p) {
                        assert(spawns@[k - 1].pos == q);
                        if before.cell_at(q) != w0.cell_at(q) {
                            assert(before.cell_at(q)@.material == material::FIRE);
                        }
                    } else if before.cell_at(q) != w0.cell_at(q) {
                        let i = choose|i: int| 0 <= i < k - 1 && (#[trigger] spawns@[i]).pos == q;
                        assert(0 <= i < k && spawns@[i].pos == q);
                    }
                }
                assert(before.in_grid(p) == w0.in_grid(p));
                assert forall|i: int| 0 <= i < k && w0.in_grid(#[trigger] spawns@[i].pos)
                    && w0.cell_at(spawns@[i].pos)@.material == material::EMPTY
                    implies world.cell_at(spawns@[i].pos)@.material == material::FIRE by {
                    if spawns@[i].pos == p {
                        assert(world.cell_at(p)@ == crate::world::state::stored_fields(fire_cell, before.spec_ambient()));
                    }
                }
            }
        } else {
            proof {
                assert forall|q: Vec2i| #[trigger] world.cell_at(q) == w0.cell_at(q) || {
                    &&& w0.cell_at(q)@.material == material::EMPTY
                    &&& world.cell_at(q)@.material == material::FIRE
                    &&& flame_lifetime_ok(&w0, world.cell_at(q)@.lifetime as int)
                    &&& exists|i: int| 0 <= i < k && (#[trigger] spawns@[i]).pos == q
                } by {
                    if world.cell_at(q) != w0.cell_at(q) {
                        let i = choose|i: int| 0 <= i < k - 1 && (#[trigger] spawns@[i]).pos == q;
                        assert(0 <= i < k && spawns@[i].pos == q);
                    }
                }
                assert forall|i: int| 0 <= i < k && w0.in_grid(#[trigger] spawns@[i].pos)
                    && w0.cell_at(spawns@[i].pos)@.material == material::EMPTY
                    implies world.cell_at(spawns@[i].pos)@.material == material::FIRE by {
                    if i == k - 1 {
                        assert(world.cell_at(p) != w0.cell_at(p));
                    }
                }
            }
        }
    }
}

/// The committed cell at `p` is empty.
pub open spec fn empty_at(w: &World, p: Vec2i) -> bool {
    w.cell_at(p)@.material == material::EMPTY
}

/// Index of the cell a particle travelling along `pts` comes to rest in: after the path first
/// reaches an empty cell (at `k`), the last empty cell before the next non-empty one (or the end).
pub open spec fn deposit_index(w: &World, pts: Seq<Vec2i>, m: int) -> bool {
    &&& 0 <= m < pts.len()
    &&& exists|k: int| 0 <= k <= m && #[trigger] empty_at(w, pts[k])
            && (forall|i: int| 0 <= i < k ==> !#[trigger] empty_at(w, pts[i]))
            && (forall|i: int| k <= i <= m ==> #[trigger] empty_at(w, pts[i]))
    &&& (m + 1 == pts.len() || !empty_at(w, pts[m + 1]))
}

/// Where a particle moving along the cells `pts` is deposited: `None` if no cell of the path is
/// empty; otherwise the cell of [`deposit_index`], so it never tunnels through a solid it met
/// after reaching open air (leading solids, such as the fuel it was spawned in, are skipped).
pub fn deposit_cell_on_path(world: &World, pts: &Vec<Vec2i>) -> (r: Option<Vec2i>)
    requires world.wf(),
    ensures
        r is None <==> forall|i: int| 0 <= i < pts@.len() ==> !#[trigger] empty_at(world, pts@[i]),
        r matches Some(q) ==> exists|m: int| deposit_index(world, pts@, m) && pts@[m] == q,
{
    let mut emerged = false;
    let mut cand: usize = 0;
    let ghost mut kk: int = 0;
    let mut i: usize = 0;
    while i < pts.len()
        invariant
            world.wf(),
            i <= pts@.len(),
            !emerged ==> forall|j: int| 0 <= j < i ==> !#[trigger] empty_at(world, pts@[j]),
            emerged ==> {
                &&& 0 <= kk <= cand < i
                &&& cand + 1 == i
                &&& empty_at(world, pts@[kk])
                &&& forall|j: int| 0 <= j < kk ==> !#[trigger] empty_at(world, pts@[j])
                &&& forall|j: int| kk <= j <= cand ==> #[trigger] empty_at(world, pts@[j])
            },
        decreases pts@.len() - i,
    {
        let p = pts[i];
        if world.get_cell(p).material() == material::EMPTY {
            if !emerged {
                proof { kk = i as int; }
            }
            cand = i;
            emerged = true;
        } else if emerged {
            proof {
                assert(empty_at(world, pts@[kk]));
                assert(deposit_index(world, pts@, cand as int));
            }
            return Some(pts[cand]);
        }
        i = i + 1;
    }
    if emerged {
        proof {
            assert(empty_at(world, pts@[kk]));
            assert(deposit_index(world, pts@, cand as int));
        }
        Some(pts[cand])
    } else {
        None
    }
}

/// [`deposit_cell_on_path`] along the Bresenham line from `start` to `end`: an empty committed cell
/// of that line, if any.
pub fn resolve_particle_deposit_cell(world: &World, start: Vec2i, end: Vec2i) -> (r: Option<Vec2i>)
    requires world.wf(), line_span_ok(start, end),
    ensures
        r is None <==> forall|i: int| 0 <= i < line_points(start, end).len() ==> !#[trigger] empty_at(world, line_points(start, end)[i]),
        r matches Some(q) ==> exists|m: int| deposit_index(world, line_points(start, end), m) && line_points(start, end)[m] == q,
{
    let pts = bresenham_points(start, end);
    deposit_cell_on_path(world, &pts)
}

pub const FNV_OFFSET: u64 = 1469598103934665603;
pub const FNV_PRIME: u64 = 1099511628211;

/// FNV-style mix of one cell: material, flags, then horizontal velocity (sign-extended).
pub open spec fn mix_cell(h: u64, c: Cell) -> u64 {
    let h1 = wrapping_mul(h ^ (c@.material as u64), FNV_PRIME);
    let h2 = wrapping_mul(h1 ^ (c@.flags as u64), FNV_PRIME);
    wrapping_mul(h2 ^ (c.spec_velocity_x() as u64), FNV_PRIME)
}

/// Hash of the cells `s` in order.
pub open spec fn hash_cells(s: Seq<Cell>) -> u64
    decreases s.len(),
{
    if s.len() == 0 { FNV_OFFSET } else { mix_cell(hash_cells(s.drop_last()), s.last()) }
}

/// Hash of the committed grid, row by row (for determinism checks); `None` for an empty grid.
pub fn deterministic_hash(world: &World) -> (r: Option<u64>)
    requires world.wf(),
    ensures
        world.store_view().spec_width() > 0 && world.store_view().spec_height() > 0 ==>
            r == Some(hash_cells(world.store_view().read_view())),
        !(world.store_view().spec_width() > 0 && world.store_view().spec_height() > 0) ==> r is None,
{
    if world.dirty_world_bounds().is_none() {
        return None;
    }
    let cells = world.read_cells();
    let mut hash: u64 = FNV_OFFSET;
    let mut i: usize = 0;
    while i < cells.len()
        invariant
            i <= cells@.len(),
            hash == hash_cells(cells@.subrange(0, i as int)),
        decreases cells@.len() - i,
    {
        let c = cells[i];
        let mut h = hash ^ (c.material() as u64);
        h = h.wrapping_mul(FNV_PRIME);
        h = h ^ (c.flags() as u64);
        h = h.wrapping_mul(FNV_PRIME);
        h = h ^ (c.velocity_x() as u64);
        h = h.wrapping_mul(FNV_PRIME);
        proof {
            let s = cells@.subrange(0, i + 1);
            assert(s.drop_last() =~= cells@.subrange(0, i as int));
            assert(s.last() == c);
        }
        hash = h;
        i = i + 1;
    }
    proof { assert(cells@.subrange(0, cells@.len() as int) =~= cells@); }
    Some(hash)
}

} // verus!
