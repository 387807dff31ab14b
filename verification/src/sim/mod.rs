//! The cellular-automaton step: per-cell rules applied to the in-progress buffer of the world,
//! chunk by chunk in a checkerboard of four passes.
use vstd::prelude::*;
use rand::rngs::SmallRng;

use crate::cell64::{Cell, CellFields};
use crate::world::cell_flags;
use crate::world::geom::Vec2i;
use crate::world::material;
use crate::world::props::{MaterialProps, Phase, ReactionOutcome};
use crate::world::state::World;

pub mod rng;
pub mod thermal;
pub mod engines;
pub mod steps;
pub mod step_pixel;
pub mod scheduler;
pub mod frame;

pub use scheduler::{Scheduler, SchedulerMode};
pub use frame::{deterministic_hash, place_flame_spawns, resolve_particle_deposit_cell};

use rng::gen_ratio;

verus! {

/// The grid sits at least 1024 cells inside the `i32` coordinate range, so cells a few hundred
/// steps off any grid cell still have representable coordinates.
pub open spec fn sim_margin_ok(w: &World) -> bool {
    let o = w.store_view().spec_origin();
    &&& o.x >= i32::MIN + 1024
    &&& o.y >= i32::MIN + 1024
    &&& o.x + w.store_view().spec_width() + 1024 <= i32::MAX
    &&& o.y + w.store_view().spec_height() + 1024 <= i32::MAX
}

/// Whether the world's grid keeps the margin [`sim_margin_ok`] that stepping needs.
pub fn simulation_fits(w: &World) -> (b: bool)
    requires w.wf(),
    ensures b == sim_margin_ok(w),
{
    let o = w.grid_origin();
    let width = w.grid_width();
    let height = w.grid_height();
    o.x as i64 >= i32::MIN as i64 + 1024
        && o.y as i64 >= i32::MIN as i64 + 1024
        && o.x as i64 + width as i64 + 1024 <= i32::MAX as i64
        && o.y as i64 + height as i64 + 1024 <= i32::MAX as i64
}

/// `p` lies within `d` cells of the grid.
pub open spec fn near_grid(w: &World, p: Vec2i, d: int) -> bool {
    let o = w.store_view().spec_origin();
    &&& o.x - d <= p.x < o.x + w.store_view().spec_width() + d
    &&& o.y - d <= p.y < o.y + w.store_view().spec_height() + d
}

/// The simulation may run on `w` with cell `p` as a working position `d` cells off the grid.
pub open spec fn sim_ready(w: &World, p: Vec2i, d: int) -> bool {
    &&& w.wf()
    &&& sim_margin_ok(w)
    &&& 0 <= d <= 256
    &&& near_grid(w, p, d)
}

/// The stone read off the grid: stone material, every other field zero.
pub proof fn lemma_stone_cell()
    ensures
        crate::world::state::stone_cell()@.material == material::STONE,
        crate::world::state::stone_cell()@.flags == 0,
        crate::world::state::stone_cell()@.lifetime == 0,
        crate::world::state::stone_cell()@.temperature == 0,
{
    assert(4u64 & 0x3FFu64 == 4u64) by (bit_vector);
    assert((4u64 & 0xFF00_0000_0000u64) >> 40u64 == 0u64) by (bit_vector);
    assert((4u64 & 0x3F_C000_0000u64) >> 30u64 == 0u64) by (bit_vector);
    assert((4u64 & 0x3F_FC00u64) >> 10u64 == 0u64) by (bit_vector);
}

/// A material id that fits in ten bits survives the cell's material mask.
pub proof fn lemma_material_mask(m: u16)
    requires m <= 1023,
    ensures m & 0x3FF == m,
{
    assert(m <= 1023 ==> m & 0x3FF == m) by (bit_vector);
}

/// `p` shifted by `(dx, dy)`.
pub open spec fn offset(p: Vec2i, dx: int, dy: int) -> Vec2i {
    Vec2i { x: (p.x + dx) as i32, y: (p.y + dy) as i32 }
}

/// `p` shifted by `(dx, dy)`; both steps are at most 256 cells and `p` is near the grid.
pub fn shifted(w: &World, p: Vec2i, dx: i32, dy: i32) -> (q: Vec2i)
    requires sim_ready(w, p, 256), -256 <= dx <= 256, -256 <= dy <= 256,
    ensures q == offset(p, dx as int, dy as int), q.x == p.x + dx, q.y == p.y + dy,
{
    Vec2i::new(p.x + dx, p.y + dy)
}

/// `q` lies in the square of radius `r` around `p`.
pub open spec fn within(p: Vec2i, q: Vec2i, r: int) -> bool {
    -r <= q.x - p.x <= r && -r <= q.y - p.y <= r
}

/// In-progress cells of `w2` differ from those of `w` only within radius `r` of `p`.
pub open spec fn local_change(w: &World, w2: &World, p: Vec2i, r: int) -> bool {
    forall|q: Vec2i| !within(p, q, r) ==> #[trigger] w2.sim_cell(q) == w.sim_cell(q)
}

/// The eight neighbour offsets, row by row from the top-left.
pub open spec fn spec_neighbor8(i: int) -> (i32, i32) {
    if i == 0 { (-1i32, -1i32) } else if i == 1 { (0i32, -1i32) } else if i == 2 { (1i32, -1i32) } else if i == 3 { (-1i32, 0i32) }
    else if i == 4 { (1i32, 0i32) } else if i == 5 { (-1i32, 1i32) } else if i == 6 { (0i32, 1i32) } else { (1i32, 1i32) }
}

pub fn neighbor8(i: usize) -> (d: (i32, i32))
    requires i < 8,
    ensures d == spec_neighbor8(i as int), -1 <= d.0 <= 1, -1 <= d.1 <= 1,
{
    match i {
        0 => (-1, -1),
        1 => (0, -1),
        2 => (1, -1),
        3 => (-1, 0),
        4 => (1, 0),
        5 => (-1, 1),
        6 => (0, 1),
        _ => (1, 1),
    }
}

/// The four cardinal offsets: up, down, left, right.
pub open spec fn spec_cardinal4(i: int) -> (i32, i32) {
    if i == 0 { (0i32, -1i32) } else if i == 1 { (0i32, 1i32) } else if i == 2 { (-1i32, 0i32) } else { (1i32, 0i32) }
}

pub fn cardinal4(i: usize) -> (d: (i32, i32))
    requires i < 4,
    ensures d == spec_cardinal4(i as int), -1 <= d.0 <= 1, -1 <= d.1 <= 1,
{
    match i {
        0 => (0, -1),
        1 => (0, 1),
        2 => (-1, 0),
        _ => (1, 0),
    }
}

/// Empty cell next to burning fuel that should become fire once the grid step is done.
#[derive(Clone, Copy, Debug)]
pub struct FlameSpawn {
    pub pos: Vec2i,
    pub temperature_k: u16,
}

#[derive(Clone, Copy, PartialEq, Eq, Structural, Debug)]
pub enum MoveIntent {
    VerticalDown,
    VerticalUp,
    Lateral,
}

/// Density-driven vertical swap: liquids mixing, solids sinking through liquid or gas, gases
/// stacking; never a liquid pushing into a solid.
pub open spec fn spec_allows_density_swap(from: Phase, to: Phase) -> bool {
    match (from, to) {
        (Phase::Liquid, Phase::Liquid) => true,
        (Phase::Solid, Phase::Liquid) => true,
        (Phase::Solid, Phase::Gas) => true,
        (Phase::Liquid, Phase::Gas) => true,
        (Phase::Gas, Phase::Gas) => true,
        _ => false,
    }
}

pub fn vertical_down_allows_density_swap(from: Phase, to: Phase) -> (b: bool)
    ensures b == spec_allows_density_swap(from, to),
{
    match (from, to) {
        (Phase::Liquid, Phase::Liquid) => true,
        (Phase::Solid, Phase::Liquid) => true,
        (Phase::Solid, Phase::Gas) | (Phase::Liquid, Phase::Gas) => true,
        (Phase::Gas, Phase::Gas) => true,
        _ => false,
    }
}

/// Fuel that is on fire: not a flame particle, with fuel left, and either molten fuel (no
/// autoignition threshold) or flagged as burning.
pub open spec fn spec_is_burning(cell: Cell, props: MaterialProps) -> bool {
    &&& cell@.material != material::FIRE
    &&& props.fuel_mass != 0
    &&& cell@.lifetime != 0
    &&& (props.autoignition_temperature == 0 || cell@.flags & cell_flags::ON_FIRE != 0)
}

pub fn is_burning(cell: Cell, props: &MaterialProps) -> (b: bool)
    ensures b == spec_is_burning(cell, *props),
{
    if cell.material() == material::FIRE {
        return false;
    }
    if props.fuel_mass == 0 || cell.lifetime() == 0 {
        return false;
    }
    if props.autoignition_temperature == 0 {
        return true;
    }
    cell.has_flag(cell_flags::ON_FIRE)
}

/// How a displacement attempt is decided before any random draw.
#[derive(Clone, Copy, PartialEq, Eq, Structural, Debug)]
pub enum Verdict {
    Never,
    Always,
    /// Succeeds with probability `num / den`.
    Roll(u32, u32),
}

/// Odds of a density-driven swap for density difference `diff > 0`: `diff / 256` clamped to
/// `1/20 ..= 3/5`.
pub open spec fn spec_density_odds(diff: int) -> (u32, u32) {
    if diff * 20 < 256 { (1, 20) } else if diff * 5 > 768 { (3, 5) } else { (diff as u32, 256) }
}

fn density_odds(diff: u32) -> (r: (u32, u32))
    requires diff > 0,
    ensures r == spec_density_odds(diff as int), 0 < r.1, r.0 <= r.1,
{
    if diff < 13 {
        (1, 20)
    } else if diff > 153 {
        (3, 5)
    } else {
        (diff, 256)
    }
}

/// Whether a cell of `from` may take the place of `to_cell` (of `to`) moving in direction `intent`.
pub open spec fn spec_verdict(from: MaterialProps, to_cell: Cell, to: MaterialProps, intent: MoveIntent) -> Verdict {
    if to_cell@.material == material::EMPTY {
        Verdict::Always
    } else {
        match intent {
            MoveIntent::VerticalDown => {
                if !spec_allows_density_swap(from.motion.spec_phase(), to.motion.spec_phase()) || from.density <= to.density {
                    Verdict::Never
                } else {
                    let o = spec_density_odds(from.density - to.density);
                    Verdict::Roll(o.0, o.1)
                }
            },
            MoveIntent::VerticalUp => {
                if from.density >= to.density {
                    Verdict::Never
                } else if from.motion.spec_phase() == Phase::Gas && to.motion.spec_phase() == Phase::Gas {
                    Verdict::Always
                } else {
                    let o = spec_density_odds(to.density - from.density);
                    Verdict::Roll(o.0, o.1)
                }
            },
            MoveIntent::Lateral => {
                match (from.motion.spec_phase(), to.motion.spec_phase()) {
                    (Phase::Gas, Phase::Gas) => Verdict::Always,
                    (Phase::Liquid, Phase::Gas) => Verdict::Always,
                    _ => Verdict::Never,
                }
            },
        }
    }
}

/// The verdict of [`spec_verdict`], computed.
pub fn displace_verdict(from: &MaterialProps, to_cell: Cell, to: &MaterialProps, intent: MoveIntent) -> (v: Verdict)
    ensures
        v == spec_verdict(*from, to_cell, *to, intent),
        v matches Verdict::Roll(n, d) ==> 0 < d && n <= d,
{
    if to_cell.material() == material::EMPTY {
        return Verdict::Always;
    }
    match intent {
        MoveIntent::VerticalDown => {
            if !vertical_down_allows_density_swap(from.phase(), to.phase()) || from.density <= to.density {
                return Verdict::Never;
            }
            let diff = (from.density as i32 - to.density as i32) as u32;
            let o = density_odds(diff);
            Verdict::Roll(o.0, o.1)
        }
        MoveIntent::VerticalUp => {
            if from.density >= to.density {
                return Verdict::Never;
            }
            if from.phase() == Phase::Gas && to.phase() == Phase::Gas {
                return Verdict::Always;
            }
            let diff = (to.density as i32 - from.density as i32) as u32;
            let o = density_odds(diff);
            Verdict::Roll(o.0, o.1)
        }
        MoveIntent::Lateral => {
            match (from.phase(), to.phase()) {
                (Phase::Gas, Phase::Gas) => Verdict::Always,
                (Phase::Liquid, Phase::Gas) => Verdict::Always,
                _ => Verdict::Never,
            }
        }
    }
}

/// Decides a displacement, drawing the roll when the verdict calls for one.
pub fn can_displace(from: &MaterialProps, to_cell: Cell, to: &MaterialProps, intent: MoveIntent, rng: &mut SmallRng) -> (b: bool)
    ensures
        spec_verdict(*from, to_cell, *to, intent) == Verdict::Always ==> b,
        spec_verdict(*from, to_cell, *to, intent) == Verdict::Never ==> !b,
{
    match displace_verdict(from, to_cell, to, intent) {
        Verdict::Always => true,
        Verdict::Never => false,
        Verdict::Roll(n, d) => gen_ratio(rng, n, d),
    }
}

/// A displacement from `from` to `to` cannot happen: a cell is off the grid, the mover is empty,
/// either cell belongs to a rigid body, or either material is inert.
pub open spec fn displace_blocked(w: &World, from: Vec2i, to: Vec2i) -> bool {
    let fc = w.sim_cell(from);
    let tc = w.sim_cell(to);
    ||| !w.in_grid(from)
    ||| !w.in_grid(to)
    ||| fc@.material == material::EMPTY
    ||| fc@.flags & cell_flags::RIGID_PIXEL != 0
    ||| tc@.flags & cell_flags::RIGID_PIXEL != 0
    ||| w.props_of(fc@.material).motion is InertSolid
    ||| w.props_of(tc@.material).motion is InertSolid
}

/// The cell at `from` is sure to move into the empty cell at `to`: nothing blocks the move and no
/// reaction is configured between its material and the empty one.
pub open spec fn moves_into_empty(w: &World, from: Vec2i, to: Vec2i) -> bool {
    &&& !displace_blocked(w, from, to)
    &&& w.sim_cell(to)@.material == material::EMPTY
    &&& reaction_of(w, w.sim_cell(from)@.material, material::EMPTY) is NoReaction
}

/// Every in-progress cell of `w` other than `a` and `b` that is not empty keeps all its fields in
/// `w2` but possibly its temperature.
pub open spec fn keeps_all_but_temperature_except(w: &World, w2: &World, a: Vec2i, b: Vec2i) -> bool {
    forall|q: Vec2i| q != a && q != b && w.sim_cell(q)@.material != material::EMPTY
        ==> (#[trigger] w2.sim_cell(q))@ == (CellFields { temperature: w2.sim_cell(q)@.temperature, ..w.sim_cell(q)@ })
}

/// Every in-progress cell of `w` other than `a` and `b` that is not empty keeps its material in `w2`.
pub open spec fn keeps_materials_except(w: &World, w2: &World, a: Vec2i, b: Vec2i) -> bool {
    forall|q: Vec2i| q != a && q != b && w.sim_cell(q)@.material != material::EMPTY
        ==> #[trigger] w2.sim_cell(q)@.material == w.sim_cell(q)@.material
}

/// The configured reaction when material `a` meets material `b`.
pub open spec fn reaction_of(w: &World, a: u16, b: u16) -> ReactionOutcome {
    w.reactions_view()[a * 1024 + b]
}

/// No reaction is configured between material `m` and any other material.
pub open spec fn no_reactions_from(w: &World, m: u16) -> bool {
    forall|b: u16| #[trigger] reaction_of(w, m, b) is NoReaction
}

/// In-progress cells of `w2` equal those of `w` except at `a` and `b`.
pub open spec fn same_cells_except(w: &World, w2: &World, a: Vec2i, b: Vec2i) -> bool {
    forall|q: Vec2i| q != a && q != b ==> #[trigger] w2.sim_cell(q) == w.sim_cell(q)
}

/// `w2` is `w` after the mover at `from` took the place of the cell at `to`: the mover lands at
/// `to` and the displaced cell (a fresh empty cell if it was empty) lands at `from`.
pub open spec fn moved_into(w: &World, w2: &World, from: Vec2i, to: Vec2i) -> bool {
    let fc = w.sim_cell(from);
    let tc = w.sim_cell(to);
    &&& w2.sim_cell(to) == fc
    &&& w2.sim_cell(from) == (if tc@.material == material::EMPTY { Cell(0) } else { tc })
    &&& same_cells_except(w, w2, from, to)
}

/// Materials of the in-progress cells `cells` of `w`, in order.
pub open spec fn window_materials(w: &World, cells: Seq<Vec2i>) -> Seq<u16> {
    cells.map_values(|q: Vec2i| w.sim_cell(q)@.material)
}

/// A move keeps every material: when the cell at `from` took the place of the one at `to`
/// ([`moved_into`]), the materials of any window of distinct cells holding both are a
/// permutation of those before.
pub proof fn lemma_move_permutes_materials(w: &World, w2: &World, from: Vec2i, to: Vec2i, cells: Seq<Vec2i>)
    requires
        moved_into(w, w2, from, to),
        from != to,
        cells.no_duplicates(),
        cells.contains(from),
        cells.contains(to),
    ensures
        window_materials(w2, cells).to_multiset() == window_materials(w, cells).to_multiset(),
{
    broadcast use vstd::seq_lib::to_multiset_update;
    broadcast use vstd::multiset::group_multiset_axioms;
    let i = choose|i: int| 0 <= i < cells.len() && cells[i] == from;
    let j = choose|j: int| 0 <= j < cells.len() && cells[j] == to;
    let sm = window_materials(w, cells);
    let sm2 = window_materials(w2, cells);
    crate::cell64::lemma_zero_fields();
    let mid = sm.update(i, sm[j]);
    assert(sm2 =~= mid.update(j, sm[i])) by {
        assert forall|k: int| 0 <= k < cells.len() implies sm2[k] == mid.update(j, sm[i])[k] by {
            if k != i && k != j {
                assert(cells[k] != from && cells[k] != to);
            }
        }
    }
    assert(mid.to_multiset() == sm.to_multiset().insert(sm[j]).remove(sm[i]));
    assert(mid.update(j, sm[i]).to_multiset() == mid.to_multiset().insert(sm[i]).remove(mid[j]));
    assert(mid[j] == sm[j]);
    broadcast use vstd::seq_lib::to_multiset_contains;
    assert(sm.contains(sm[i]));
    assert(sm.to_multiset().count(sm[i]) > 0);
    assert(mid.contains(mid[i]));
    assert(mid.to_multiset().count(sm[j]) > 0);
    assert forall|x: u16| #[trigger] sm2.to_multiset().count(x) == sm.to_multiset().count(x) by {}
    assert(sm2.to_multiset() =~= sm.to_multiset());
}

/// A change confined to two cells within radius `r` of `p` keeps every change within that radius.
pub proof fn lemma_local_step(w0: &World, w1: &World, w2: &World, p: Vec2i, r: int, a: Vec2i, b: Vec2i)
    requires local_change(w0, w1, p, r), same_cells_except(w1, w2, a, b), within(p, a, r), within(p, b, r),
    ensures local_change(w0, w2, p, r),
{
    assert forall|q: Vec2i| !within(p, q, r) implies #[trigger] w2.sim_cell(q) == w0.sim_cell(q) by {
        assert(q != a && q != b);
        assert(w1.sim_cell(q) == w0.sim_cell(q));
    }
}

/// Two changes within radius `r` of `p`, one after the other, stay within radius `r` of `p`; a
/// change within a smaller radius is within a larger one.
pub proof fn lemma_local_compose(w0: &World, w1: &World, w2: &World, p: Vec2i, r1: int, r2: int, r: int)
    requires local_change(w0, w1, p, r1), local_change(w1, w2, p, r2), r1 <= r, r2 <= r,
    ensures local_change(w0, w2, p, r),
{
    assert forall|q: Vec2i| !within(p, q, r) implies #[trigger] w2.sim_cell(q) == w0.sim_cell(q) by {
        assert(!within(p, q, r1) && !within(p, q, r2));
        assert(w1.sim_cell(q) == w0.sim_cell(q));
        assert(w2.sim_cell(q) == w1.sim_cell(q));
    }
}

/// A change within radius `r` of `c`, where `c` lies within `d` of `p`, is within `r + d` of `p`.
pub proof fn lemma_local_recenter(w1: &World, w2: &World, c: Vec2i, r: int, p: Vec2i, d: int)
    requires local_change(w1, w2, c, r), within(p, c, d),
    ensures local_change(w1, w2, p, r + d),
{
    assert forall|q: Vec2i| !within(p, q, r + d) implies #[trigger] w2.sim_cell(q) == w1.sim_cell(q) by {
        assert(!within(c, q, r));
    }
}

/// A plain displacement conserves what the two cells hold: the pair of cells after the move is the
/// pair before it, in the other order, except that an empty cell is left behind as a fresh empty
/// cell; every other in-progress cell is untouched.
pub proof fn lemma_move_conserves_cells(w: &World, w2: &World, from: Vec2i, to: Vec2i)
    requires moved_into(w, w2, from, to), from != to,
    ensures
        w.sim_cell(to)@.material != material::EMPTY ==>
            seq![w2.sim_cell(from), w2.sim_cell(to)].to_multiset() == seq![w.sim_cell(from), w.sim_cell(to)].to_multiset(),
        seq![w2.sim_cell(from)@.material, w2.sim_cell(to)@.material].to_multiset()
            == seq![w.sim_cell(from)@.material, w.sim_cell(to)@.material].to_multiset(),
        forall|q: Vec2i| q != from && q != to ==> #[trigger] w2.sim_cell(q) == w.sim_cell(q),
{
    crate::cell64::lemma_zero_fields();
    lemma_pair_multiset_swap(w.sim_cell(from), w.sim_cell(to));
    lemma_pair_multiset_swap(w.sim_cell(from)@.material, w.sim_cell(to)@.material);
}

/// A two-element sequence holds the same multiset in either order.
pub proof fn lemma_pair_multiset_swap<T>(x: T, y: T)
    ensures seq![x, y].to_multiset() == seq![y, x].to_multiset(),
{
    broadcast use vstd::seq_lib::group_to_multiset_ensures;
    assert(seq![x, y] =~= Seq::<T>::empty().push(x).push(y));
    assert(seq![y, x] =~= Seq::<T>::empty().push(y).push(x));
    assert(Seq::<T>::empty().to_multiset() =~= vstd::multiset::Multiset::<T>::empty()) by {
        broadcast use vstd::seq_lib::group_seq_properties;
    }
    assert(seq![x, y].to_multiset() =~= seq![y, x].to_multiset());
}

/// Attempts to move the cell at `from` into `to`: a configured reaction transforms or swaps the
/// pair; otherwise the cell moves when [`can_displace`] allows it. Returns whether anything changed.
pub fn try_displace(world: &mut World, from: Vec2i, to: Vec2i, intent: MoveIntent, rng: &mut SmallRng) -> (moved: bool)
    requires old(world).wf(), from != to,
    ensures
        old(world).step_frame(final(world)),
        final(world).debug_pass_view() == old(world).debug_pass_view(),
        moved ==> old(world).in_grid(from) && old(world).in_grid(to),
        same_cells_except(old(world), final(world), from, to),
        displace_blocked(old(world), from, to) ==> !moved && *final(world) == *old(world),
        !displace_blocked(old(world), from, to) ==> ({
            let fc = old(world).sim_cell(from);
            let tc = old(world).sim_cell(to);
            match reaction_of(old(world), fc@.material, tc@.material) {
                ReactionOutcome::Transform(x, y) => {
                    &&& moved
                    &&& final(world).sim_cell(to)@ == (CellFields { material: x & 0x3FF, ..tc@ })
                    &&& final(world).sim_cell(from)@ == (CellFields { material: y & 0x3FF, ..fc@ })
                    &&& same_cells_except(old(world), final(world), from, to)
                },
                ReactionOutcome::Swap => {
                    &&& moved
                    &&& final(world).sim_cell(to) == fc
                    &&& final(world).sim_cell(from) == tc
                    &&& same_cells_except(old(world), final(world), from, to)
                },
                ReactionOutcome::NoReaction => {
                    let v = spec_verdict(old(world).props_of(fc@.material), tc, old(world).props_of(tc@.material), intent);
                    &&& v == Verdict::Always ==> moved
                    &&& v == Verdict::Never ==> !moved
                    &&& moved ==> moved_into(old(world), final(world), from, to)
                    &&& !moved ==> *final(world) == *old(world)
                },
            }
        }),
{
    let ghost w0 = *world;
    if !world.sim_in_grid(from) || !world.sim_in_grid(to) {
        return false;
    }
    let from_cell = world.sim_get(from);
    let to_cell = world.sim_get(to);
    if from_cell.material() == material::EMPTY {
        return false;
    }
    if from_cell.has_flag(cell_flags::RIGID_PIXEL) || to_cell.has_flag(cell_flags::RIGID_PIXEL) {
        return false;
    }
    let from_props = world.material_props(from_cell.material());
    let to_props = world.material_props(to_cell.material());
    if from_props.inert() || to_props.inert() {
        return false;
    }
    let reaction = world.reaction(from_cell.material(), to_cell.material());
    match reaction {
        ReactionOutcome::Transform(from_to, to_to) => {
            world.sim_put(to, to_cell.with_material(from_to));
            world.sim_put(from, from_cell.with_material(to_to));
            return true;
        }
        ReactionOutcome::Swap => {
            world.sim_put(to, from_cell);
            world.sim_put(from, to_cell);
            return true;
        }
        ReactionOutcome::NoReaction => {}
    }
    if !can_displace(&from_props, to_cell, &to_props, intent, rng) {
        return false;
    }
    world.sim_put(to, from_cell);
    let back = if to_cell.material() == material::EMPTY { Cell::new() } else { to_cell };
    world.sim_put(from, back);
    true
}

/// Sets the horizontal velocity of the in-progress cell at `p` (no effect off the grid).
pub fn sim_set_velocity(world: &mut World, p: Vec2i, v: i8)
    requires old(world).wf(),
    ensures
        old(world).step_frame(final(world)),
        final(world).debug_pass_view() == old(world).debug_pass_view(),
        forall|q: Vec2i| q != p ==> #[trigger] final(world).sim_cell(q) == old(world).sim_cell(q),
        old(world).in_grid(p) ==> final(world).sim_cell(p)@ == (CellFields {
            vx_bits: crate::cell64::spec_encode_signed_4(v), ..old(world).sim_cell(p)@ }),
        !old(world).in_grid(p) ==> *final(world) == *old(world),
{
    let mut c = world.sim_get(p);
    c.set_velocity_x(v);
    world.sim_put(p, c);
}

/// Sets the lifetime of the in-progress cell at `p` (no effect off the grid).
pub fn sim_set_lifetime(world: &mut World, p: Vec2i, l: u8)
    requires old(world).wf(),
    ensures
        old(world).step_frame(final(world)),
        final(world).debug_pass_view() == old(world).debug_pass_view(),
        forall|q: Vec2i| q != p ==> #[trigger] final(world).sim_cell(q) == old(world).sim_cell(q),
        old(world).in_grid(p) ==> final(world).sim_cell(p)@ == (CellFields { lifetime: l, ..old(world).sim_cell(p)@ }),
        !old(world).in_grid(p) ==> *final(world) == *old(world),
{
    let mut c = world.sim_get(p);
    c.set_lifetime(l);
    world.sim_put(p, c);
}

/// Sets flag bits `flag` on the in-progress cell at `p` (no effect off the grid).
pub fn sim_set_flag(world: &mut World, p: Vec2i, flag: u8)
    requires old(world).wf(),
    ensures
        old(world).step_frame(final(world)),
        final(world).debug_pass_view() == old(world).debug_pass_view(),
        forall|q: Vec2i| q != p ==> #[trigger] final(world).sim_cell(q) == old(world).sim_cell(q),
        old(world).in_grid(p) ==> final(world).sim_cell(p)@ == (CellFields {
            flags: old(world).sim_cell(p)@.flags | flag, ..old(world).sim_cell(p)@ }),
        !old(world).in_grid(p) ==> *final(world) == *old(world),
{
    let mut c = world.sim_get(p);
    c.or_flags(flag);
    world.sim_put(p, c);
}

/// Clears flag bits `flag` on the in-progress cell at `p` (no effect off the grid).
pub fn sim_clear_flag(world: &mut World, p: Vec2i, flag: u8)
    requires old(world).wf(),
    ensures
        old(world).step_frame(final(world)),
        final(world).debug_pass_view() == old(world).debug_pass_view(),
        forall|q: Vec2i| q != p ==> #[trigger] final(world).sim_cell(q) == old(world).sim_cell(q),
        old(world).in_grid(p) ==> final(world).sim_cell(p)@ == (CellFields {
            flags: old(world).sim_cell(p)@.flags & !flag, ..old(world).sim_cell(p)@ }),
        !old(world).in_grid(p) ==> *final(world) == *old(world),
{
    let mut c = world.sim_get(p);
    c.clear_flag_bits(flag);
    world.sim_put(p, c);
}

/// Sets the temperature of the in-progress cell at `p`, capped at the maximum (no effect off the grid).
pub fn sim_set_temperature(world: &mut World, p: Vec2i, t: u16)
    requires old(world).wf(),
    ensures
        old(world).step_frame(final(world)),
        final(world).debug_pass_view() == old(world).debug_pass_view(),
        forall|q: Vec2i| q != p ==> #[trigger] final(world).sim_cell(q) == old(world).sim_cell(q),
        old(world).in_grid(p) ==> final(world).sim_cell(p)@ == (CellFields {
            temperature: if t > crate::cell64::MAX_TEMPERATURE { crate::cell64::MAX_TEMPERATURE } else { t },
            ..old(world).sim_cell(p)@ }),
        !old(world).in_grid(p) ==> *final(world) == *old(world),
{
    let mut c = world.sim_get(p);
    c.set_temperature(t);
    world.sim_put(p, c);
}

} // verus!
