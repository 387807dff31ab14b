//! The world: dense cell grid, chunk bookkeeping, material tables and rigid-body ownership.
use vstd::prelude::*;
use std::collections::HashMap;
use std::collections::HashSet;

use super::geom::{
    div_floor, key_point, lemma_point_key_roundtrip, point_key, point_key_of, point_of_key,
    spec_div_floor, ChunkCoord, RectI, Vec2i, CHUNK_SIZE, WAKE_COOLDOWN,
};
use super::material;
use super::props::{MaterialMotion, MaterialProps, MaterialRule, Phase, ReactionOutcome};
use super::store::{grid_contains, grid_geometry_ok, DenseCellStore, SpatialHashChunkStore};
use super::MaterialId;
use super::cell_flags;
use crate::cell64::{Cell, CellFields, MAX_TEMPERATURE};
use crate::materials::{builtin_material_props, builtin_props, builtin_rule, builtin_rules, rule_fields};

verus! {

broadcast use vstd::std_specs::hash::group_hash_axioms;

/// Streaming notifications from [`World::set_focus`] and [`World::finish_frame`].
#[derive(Clone, Copy, Debug)]
pub enum WorldEvent {
    RegionLoaded(Vec2i),
    RegionSaved(Vec2i),
}

/// Number of chunks needed to cover `n` cells.
pub open spec fn chunks_for(n: int) -> int {
    (n + 31) / 32
}

/// Fields stored for fields `f`: a blank empty cell picks up the ambient temperature.
pub open spec fn stored_of(f: CellFields, ambient: u16) -> CellFields {
    if f.material == material::EMPTY && f.temperature == 0 {
        CellFields { temperature: if ambient > MAX_TEMPERATURE { MAX_TEMPERATURE } else { ambient }, ..f }
    } else {
        f
    }
}

/// Fields of the cell that `set_cell` stores for `cell`.
pub open spec fn stored_fields(cell: Cell, ambient: u16) -> CellFields {
    stored_of(cell@, ambient)
}

/// The cell read outside the dense grid: stone, every other field zero.
pub open spec fn stone_cell() -> Cell {
    Cell(4)
}

pub struct World {
    chunk_size: i32,
    region_size: i32,
    store: DenseCellStore,
    hash_chunks: SpatialHashChunkStore,
    chunks_x: i32,
    chunks_y: i32,
    chunk_dirty: Vec<bool>,
    chunk_physics_dirty: Vec<bool>,
    chunk_awake: Vec<u8>,
    chunk_awake_next: Vec<bool>,
    active_regions: HashSet<u64>,
    active_radius_regions: i32,
    focus: Vec2i,
    solid_bounds: Option<RectI>,
    material_props: Vec<MaterialProps>,
    material_rules: Vec<MaterialRule>,
    reactions: Vec<ReactionOutcome>,
    rigid_ids: HashMap<u64, u32>,
    debug_pass_enabled: bool,
    debug_pass: Vec<u8>,
    debug_chunk_highlight: Option<(ChunkCoord, u8)>,
    debug_pass_batch_outlines: bool,
    ambient_temperature_k: u16,
}


impl World {
    // ----- abstract state -----

    pub closed spec fn store_view(&self) -> DenseCellStore { self.store }
    pub closed spec fn hash_view(&self) -> SpatialHashChunkStore { self.hash_chunks }
    pub closed spec fn spec_chunks_x(&self) -> int { self.chunks_x as int }
    pub closed spec fn spec_chunks_y(&self) -> int { self.chunks_y as int }
    pub closed spec fn dirty_view(&self) -> Seq<bool> { self.chunk_dirty@ }
    pub closed spec fn physics_dirty_view(&self) -> Seq<bool> { self.chunk_physics_dirty@ }
    pub closed spec fn awake_view(&self) -> Seq<u8> { self.chunk_awake@ }
    pub closed spec fn awake_next_view(&self) -> Seq<bool> { self.chunk_awake_next@ }
    pub closed spec fn spec_ambient(&self) -> u16 { self.ambient_temperature_k }
    pub closed spec fn spec_region_size(&self) -> int { self.region_size as int }
    pub closed spec fn spec_focus(&self) -> Vec2i { self.focus }
    pub closed spec fn spec_solid_bounds(&self) -> Option<RectI> { self.solid_bounds }
    pub closed spec fn spec_debug_pass_enabled(&self) -> bool { self.debug_pass_enabled }
    pub closed spec fn debug_pass_view(&self) -> Seq<u8> { self.debug_pass@ }
    pub closed spec fn spec_debug_chunk_highlight(&self) -> Option<(ChunkCoord, u8)> { self.debug_chunk_highlight }
    pub closed spec fn spec_debug_pass_batch_outlines(&self) -> bool { self.debug_pass_batch_outlines }

    /// Material properties by id.
    pub closed spec fn props_view(&self) -> Seq<MaterialProps> { self.material_props@ }
    /// Movement rules by id.
    pub closed spec fn rules_view(&self) -> Seq<MaterialRule> { self.material_rules@ }
    /// Pairwise reactions, indexed `from * 1024 + to`.
    pub closed spec fn reactions_view(&self) -> Seq<ReactionOutcome> { self.reactions@ }

    /// Rigid-body id owning each cell position.
    pub closed spec fn rigid_map(&self) -> Map<Vec2i, u32> {
        Map::new(|p: Vec2i| self.rigid_ids@.contains_key(point_key(p)), |p: Vec2i| self.rigid_ids@[point_key(p)])
    }

    /// Regions currently counted as loaded, by region coordinate.
    pub closed spec fn active_region_set(&self) -> Set<Vec2i> {
        Set::new(|r: Vec2i| self.active_regions@.contains(point_key(r)))
    }

    pub closed spec fn spec_active_radius(&self) -> int { self.active_radius_regions as int }

    pub open spec fn in_grid(&self, p: Vec2i) -> bool {
        self.store_view().contains(p)
    }

    /// Committed cell at `p`; stone outside the dense grid.
    pub open spec fn cell_at(&self, p: Vec2i) -> Cell {
        if self.in_grid(p) { self.store_view().read_at(p) } else { stone_cell() }
    }

    pub open spec fn props_of(&self, m: u16) -> MaterialProps {
        self.props_view()[m as int]
    }

    /// Dense-grid chunk column of world x coordinate `x`.
    pub open spec fn chunk_col(&self, x: int) -> int {
        spec_div_floor(x - self.store_view().spec_origin().x, 32)
    }

    pub open spec fn chunk_row(&self, y: int) -> int {
        spec_div_floor(y - self.store_view().spec_origin().y, 32)
    }

    pub open spec fn slot_valid(&self, cx: int, cy: int) -> bool {
        0 <= cx < self.spec_chunks_x() && 0 <= cy < self.spec_chunks_y()
    }

    pub open spec fn slot(&self, cx: int, cy: int) -> int {
        cy * self.spec_chunks_x() + cx
    }

    /// Chunk slot of cell `p` (meaningful when `p` is in the grid).
    pub open spec fn slot_of(&self, p: Vec2i) -> int {
        self.slot(self.chunk_col(p.x as int), self.chunk_row(p.y as int))
    }

    pub open spec fn slot_count(&self) -> int {
        self.spec_chunks_x() * self.spec_chunks_y()
    }

    /// Slot `s` lies in the 3×3 chunk block around chunk `(cx, cy)`.
    pub open spec fn in_wake_block(&self, cx: int, cy: int, s: int) -> bool {
        let sx = s % self.spec_chunks_x();
        let sy = s / self.spec_chunks_x();
        cx - 1 <= sx <= cx + 1 && cy - 1 <= sy <= cy + 1
    }

    /// Whether this cell is part of static terrain for physics colliders.
    pub open spec fn contributes(&self, p: Vec2i, cell: Cell) -> bool {
        &&& self.in_grid(p)
        &&& self.props_of(cell@.material).motion is InertSolid
        &&& cell@.material != material::EMPTY
        &&& !self.rigid_map().contains_key(p)
        &&& cell@.flags & cell_flags::RIGID_PIXEL == 0
    }

    pub closed spec fn wf(&self) -> bool {
        &&& self.chunk_size == CHUNK_SIZE
        &&& 0 < self.region_size
        &&& self.store.wf()
        &&& self.hash_chunks.wf()
        &&& self.chunks_x == chunks_for(self.store.spec_width())
        &&& self.chunks_y == chunks_for(self.store.spec_height())
        &&& self.chunk_dirty@.len() == self.chunks_x * self.chunks_y
        &&& self.chunk_physics_dirty@.len() == self.chunks_x * self.chunks_y
        &&& self.chunk_awake@.len() == self.chunks_x * self.chunks_y
        &&& self.chunk_awake_next@.len() == self.chunks_x * self.chunks_y
        &&& self.material_props@.len() == 1024
        &&& self.material_rules@.len() == 1024
        &&& self.reactions@.len() == 1024 * 1024
        &&& 0 <= self.active_radius_regions <= 1
    }

    /// Every part of the state except the cells, rigid ids and chunk flags.
    pub open spec fn same_setup(&self, other: &World) -> bool {
        &&& self.store_view().same_geometry(&other.store_view())
        &&& self.spec_chunks_x() == other.spec_chunks_x()
        &&& self.spec_chunks_y() == other.spec_chunks_y()
        &&& self.props_view() == other.props_view()
        &&& self.rules_view() == other.rules_view()
        &&& self.reactions_view() == other.reactions_view()
        &&& self.spec_ambient() == other.spec_ambient()
        &&& self.spec_region_size() == other.spec_region_size()
        &&& self.spec_focus() == other.spec_focus()
        &&& self.spec_solid_bounds() == other.spec_solid_bounds()
        &&& self.active_region_set() == other.active_region_set()
        &&& self.spec_debug_pass_enabled() == other.spec_debug_pass_enabled()
        &&& self.debug_pass_view() == other.debug_pass_view()
        &&& self.spec_debug_chunk_highlight() == other.spec_debug_chunk_highlight()
        &&& self.spec_debug_pass_batch_outlines() == other.spec_debug_pass_batch_outlines()
    }

    pub open spec fn well_formed(&self) -> bool {
        self.wf()
    }
}


/// `n` copies of `b`.
pub fn filled_bools(n: usize, b: bool) -> (v: Vec<bool>)
    ensures v@ == Seq::new(n as nat, |i: int| b),
{
    let mut v: Vec<bool> = Vec::new();
    let mut i: usize = 0;
    while i < n
        invariant i <= n, v@ == Seq::new(i as nat, |j: int| b),
        decreases n - i,
    {
        v.push(b);
        i = i + 1;
    }
    v
}

/// `n` copies of `b`.
pub fn filled_bytes(n: usize, b: u8) -> (v: Vec<u8>)
    ensures v@ == Seq::new(n as nat, |i: int| b),
{
    let mut v: Vec<u8> = Vec::new();
    let mut i: usize = 0;
    while i < n
        invariant i <= n, v@ == Seq::new(i as nat, |j: int| b),
        decreases n - i,
    {
        v.push(b);
        i = i + 1;
    }
    v
}

/// The reaction table with no reactions.
fn no_reactions() -> (v: Vec<ReactionOutcome>)
    ensures v@ == Seq::new(1024 * 1024, |i: int| ReactionOutcome::NoReaction),
{
    let mut v: Vec<ReactionOutcome> = Vec::new();
    let n: usize = 1024 * 1024;
    let mut i: usize = 0;
    while i < n
        invariant i <= n, n == 1024 * 1024, v@ == Seq::new(i as nat, |j: int| ReactionOutcome::NoReaction),
        decreases n - i,
    {
        v.push(ReactionOutcome::NoReaction);
        i = i + 1;
    }
    v
}

proof fn lemma_chunk_counts(w: int, h: int)
    requires 0 <= w <= i32::MAX, 0 <= h <= i32::MAX,
    ensures
        0 <= chunks_for(w) <= 0x400_0000,
        0 <= chunks_for(h) <= 0x400_0000,
        chunks_for(w) * chunks_for(h) <= 0x10_0000_0000_0000,
        w > 0 ==> chunks_for(w) > 0,
        h > 0 ==> chunks_for(h) > 0,
{
    assert(chunks_for(w) * chunks_for(h) <= 0x10_0000_0000_0000) by (nonlinear_arith)
        requires 0 <= chunks_for(w) <= 0x400_0000, 0 <= chunks_for(h) <= 0x400_0000;
}

impl World {
    /// A `region_size`×`region_size` zeroed world at the origin with the built-in material tables.
    pub fn new(chunk_size: i32, region_size: i32) -> (w: Self)
        requires
            chunk_size == CHUNK_SIZE,
            0 < region_size <= 46340,
        ensures
            w.wf(),
            w.store_view().spec_width() == region_size,
            w.store_view().spec_height() == region_size,
            w.store_view().spec_origin() == (Vec2i { x: 0, y: 0 }),
            forall|p: Vec2i| w.in_grid(p) ==> #[trigger] w.cell_at(p) == Cell(0),
            w.hash_view().chunks() == Map::<ChunkCoord, Seq<Cell>>::empty(),
            w.hash_view().slab_total() == 4 * (if w.slot_count() > 1 { w.slot_count() } else { 1 }),
            w.slot_count() <= 1457 * 1457,
            w.rigid_map() == Map::<Vec2i, u32>::empty(),
            forall|id: int| 0 <= id < 1024 ==> #[trigger] w.props_view()[id] == match builtin_material_props(id as u16) {
                Some(p) => p,
                None => MaterialProps::spec_default(),
            },
            forall|id: int| 0 <= id < 1024 ==> #[trigger] rule_fields(w.rules_view()[id]) == match builtin_rule(id as u16) {
                Some(r) => r,
                None => (1u8, true),
            },
            w.reactions_view() == Seq::new(1024 * 1024, |i: int| ReactionOutcome::NoReaction),
            w.dirty_view() == Seq::new(w.slot_count() as nat, |i: int| true),
            w.physics_dirty_view() == Seq::new(w.slot_count() as nat, |i: int| true),
            w.awake_view() == Seq::new(w.slot_count() as nat, |i: int| WAKE_COOLDOWN),
            w.awake_next_view() == Seq::new(w.slot_count() as nat, |i: int| false),
            w.spec_ambient() == 293,
            w.spec_region_size() == region_size,
            w.spec_focus() == (Vec2i { x: 0, y: 0 }),
            w.spec_solid_bounds() is None,
            w.active_region_set() == Set::<Vec2i>::empty(),
            w.spec_active_radius() == 1,
            !w.spec_debug_pass_enabled(),
            w.spec_debug_chunk_highlight() is None,
            !w.spec_debug_pass_batch_outlines(),
    {
        let origin = Vec2i::new(0, 0);
        let cx = (region_size + CHUNK_SIZE - 1) / CHUNK_SIZE;
        let cy = (region_size + CHUNK_SIZE - 1) / CHUNK_SIZE;
        proof {
            assert(region_size * region_size <= i32::MAX) by (nonlinear_arith)
                requires 0 < region_size <= 46340;
            lemma_chunk_counts(region_size as int, region_size as int);
            assert(cx * cy <= 1457 * 1457) by (nonlinear_arith) requires 0 < cx <= 1457, 0 < cy <= 1457;
        }
        let n = (cx * cy) as usize;
        let store = DenseCellStore::new(region_size, region_size, origin);
        let cap_chunks: usize = if cx * cy > 1 { (cx * cy) as usize } else { 1 };
        let w = World {
            chunk_size: CHUNK_SIZE,
            region_size,
            store,
            hash_chunks: SpatialHashChunkStore::with_capacity(cap_chunks * 4),
            chunks_x: cx,
            chunks_y: cy,
            chunk_dirty: filled_bools(n, true),
            chunk_physics_dirty: filled_bools(n, true),
            chunk_awake: filled_bytes(n, WAKE_COOLDOWN),
            chunk_awake_next: filled_bools(n, false),
            active_regions: HashSet::new(),
            active_radius_regions: 1,
            focus: Vec2i::new(0, 0),
            solid_bounds: None,
            material_props: builtin_props(),
            material_rules: builtin_rules(),
            reactions: no_reactions(),
            rigid_ids: HashMap::new(),
            debug_pass_enabled: false,
            debug_pass: Vec::new(),
            debug_chunk_highlight: None,
            debug_pass_batch_outlines: false,
            ambient_temperature_k: 293,
        };
        proof {
            assert(w.rigid_map() =~= Map::<Vec2i, u32>::empty());
            assert(w.active_region_set() =~= Set::<Vec2i>::empty());
            assert forall|p: Vec2i| w.in_grid(p) implies #[trigger] w.cell_at(p) == Cell(0) by {
                super::store::lemma_grid_index_bounds(origin, region_size as int, region_size as int, p);
            }
        }
        w
    }

    /// Ambient temperature for thermal relaxation (Kelvin).
    pub fn ambient_temperature_k(&self) -> (k: u16)
        ensures k == self.spec_ambient(),
    {
        self.ambient_temperature_k
    }

    pub fn set_ambient_temperature_k(&mut self, k: u16)
        requires old(self).wf(),
        ensures
            final(self).wf(),
            final(self).spec_ambient() == k,
            final(self).store_view() == old(self).store_view(),
            final(self).hash_view() == old(self).hash_view(),
            final(self).rigid_map() == old(self).rigid_map(),
            final(self).props_view() == old(self).props_view(),
    {
        self.ambient_temperature_k = k;
    }

    /// Side of a streaming region, in cells.
    pub fn region_size(&self) -> (r: i32)
        ensures r == self.spec_region_size(),
    {
        self.region_size
    }

    pub fn chunk_size(&self) -> (c: i32)
        requires self.wf(),
        ensures c == CHUNK_SIZE,
    {
        self.chunk_size
    }

    pub fn grid_width(&self) -> (w: i32)
        requires self.wf(),
        ensures w == self.store_view().spec_width(),
    {
        self.store.width()
    }

    pub fn grid_height(&self) -> (h: i32)
        requires self.wf(),
        ensures h == self.store_view().spec_height(),
    {
        self.store.height()
    }

    pub fn grid_origin(&self) -> (o: Vec2i)
        requires self.wf(),
        ensures o == self.store_view().spec_origin(),
    {
        self.store.origin()
    }

    pub fn chunks_x(&self) -> (n: i32)
        ensures n == self.spec_chunks_x(),
    {
        self.chunks_x
    }

    pub fn chunks_y(&self) -> (n: i32)
        ensures n == self.spec_chunks_y(),
    {
        self.chunks_y
    }

    /// Properties of material `id`; ids `>= 1024` get the default properties.
    pub fn material_props(&self, id: MaterialId) -> (p: MaterialProps)
        requires self.wf(),
        ensures
            (id as int) < 1024 ==> p == self.props_view()[id as int],
            (id as int) >= 1024 ==> p == MaterialProps::spec_default(),
    {
        if (id as usize) < self.material_props.len() {
            self.material_props[id as usize]
        } else {
            MaterialProps::default_const()
        }
    }

    /// Replaces the properties of material `id`.
    pub fn set_material_props(&mut self, id: MaterialId, props: MaterialProps)
        requires old(self).wf(), id <= 1023,
        ensures
            final(self).wf(),
            final(self).props_view() == old(self).props_view().update(id as int, props),
            final(self).store_view() == old(self).store_view(),
            final(self).rigid_map() == old(self).rigid_map(),
            final(self).rules_view() == old(self).rules_view(),
            final(self).reactions_view() == old(self).reactions_view(),
    {
        self.material_props.set(id as usize, props);
        proof { assert(self.rigid_map() =~= old(self).rigid_map()); }
    }

    /// Movement rule of material `id`; ids `>= 1024` get the default rule.
    pub fn material_rule(&self, id: MaterialId) -> (r: MaterialRule)
        requires self.wf(),
        ensures
            (id as int) < 1024 ==> r == self.rules_view()[id as int],
            (id as int) >= 1024 ==> r.lateral_spread == 1 && r.miscible,
    {
        if (id as usize) < self.material_rules.len() {
            self.material_rules[id as usize]
        } else {
            MaterialRule::default_rule()
        }
    }

    pub fn set_material_rule(&mut self, id: MaterialId, rule: MaterialRule)
        requires old(self).wf(), id <= 1023,
        ensures
            final(self).wf(),
            final(self).rules_view() == old(self).rules_view().update(id as int, rule),
            final(self).props_view() == old(self).props_view(),
            final(self).store_view() == old(self).store_view(),
            final(self).rigid_map() == old(self).rigid_map(),
    {
        self.material_rules.set(id as usize, rule);
        proof { assert(self.rigid_map() =~= old(self).rigid_map()); }
    }

    /// Reaction when `from` meets `to`; no reaction for ids `>= 1024`.
    pub fn reaction(&self, from: MaterialId, to: MaterialId) -> (r: ReactionOutcome)
        requires self.wf(),
        ensures
            (from as int) < 1024 && (to as int) < 1024 ==> r == self.reactions_view()[from * 1024 + to],
            !((from as int) < 1024 && (to as int) < 1024) && from * 1024 + to >= 1024 * 1024 ==> r == ReactionOutcome::NoReaction,
    {
        let idx = from as usize * 1024 + to as usize;
        if idx < self.reactions.len() {
            self.reactions[idx]
        } else {
            ReactionOutcome::NoReaction
        }
    }

    pub fn set_reaction(&mut self, from: MaterialId, to: MaterialId, reaction: ReactionOutcome)
        requires old(self).wf(), from <= 1023, to <= 1023,
        ensures
            final(self).wf(),
            final(self).reactions_view() == old(self).reactions_view().update(from * 1024 + to, reaction),
            final(self).props_view() == old(self).props_view(),
            final(self).store_view() == old(self).store_view(),
            final(self).rigid_map() == old(self).rigid_map(),
    {
        let idx = from as usize * 1024 + to as usize;
        self.reactions.set(idx, reaction);
        proof { assert(self.rigid_map() =~= old(self).rigid_map()); }
    }

    pub fn get_rigid_id(&self, p: Vec2i) -> (r: Option<u32>)
        ensures
            self.rigid_map().contains_key(p) ==> r == Some(self.rigid_map()[p]),
            !self.rigid_map().contains_key(p) ==> r is None,
    {
        match self.rigid_ids.get(&point_key_of(p)) {
            Some(id) => Some(*id),
            None => None,
        }
    }

    /// Committed cell at `p`; stone outside the dense grid.
    pub fn get_cell(&self, p: Vec2i) -> (c: Cell)
        requires self.wf(),
        ensures c == self.cell_at(p),
    {
        match self.store.get_read(p) {
            Some(c) => c,
            None => Cell(4),
        }
    }

    pub fn debug_pass_enabled(&self) -> (b: bool)
        ensures b == self.spec_debug_pass_enabled(),
    {
        self.debug_pass_enabled
    }

    pub fn debug_chunk_highlight(&self) -> (h: Option<(ChunkCoord, u8)>)
        ensures h == self.spec_debug_chunk_highlight(),
    {
        self.debug_chunk_highlight
    }

    pub fn set_debug_chunk_highlight(&mut self, highlight: Option<(ChunkCoord, u8)>)
        requires old(self).wf(),
        ensures
            final(self).wf(),
            final(self).spec_debug_chunk_highlight() == highlight,
            final(self).store_view() == old(self).store_view(),
            final(self).rigid_map() == old(self).rigid_map(),
            final(self).hash_view() == old(self).hash_view(),
            final(self).spec_chunks_x() == old(self).spec_chunks_x(),
            final(self).spec_chunks_y() == old(self).spec_chunks_y(),
            final(self).props_view() == old(self).props_view(),
            final(self).rules_view() == old(self).rules_view(),
            final(self).reactions_view() == old(self).reactions_view(),
            final(self).spec_ambient() == old(self).spec_ambient(),
            final(self).dirty_view() == old(self).dirty_view(),
            final(self).physics_dirty_view() == old(self).physics_dirty_view(),
            final(self).awake_view() == old(self).awake_view(),
            final(self).awake_next_view() == old(self).awake_next_view(),
            final(self).debug_pass_view() == old(self).debug_pass_view(),
            final(self).spec_debug_pass_enabled() == old(self).spec_debug_pass_enabled(),
    {
        self.debug_chunk_highlight = highlight;
        proof { assert(self.rigid_map() =~= old(self).rigid_map()); }
    }

    pub fn debug_pass_batch_outlines(&self) -> (b: bool)
        ensures b == self.spec_debug_pass_batch_outlines(),
    {
        self.debug_pass_batch_outlines
    }

    pub fn set_debug_pass_batch_outlines(&mut self, enabled: bool)
        requires old(self).wf(),
        ensures
            final(self).wf(),
            final(self).spec_debug_pass_batch_outlines() == enabled,
            final(self).store_view() == old(self).store_view(),
            final(self).rigid_map() == old(self).rigid_map(),
    {
        self.debug_pass_batch_outlines = enabled;
        proof { assert(self.rigid_map() =~= old(self).rigid_map()); }
    }
}


/// Floor of `v / 32`.
pub fn floor_div32(v: i64) -> (q: i64)
    requires -0x1_0000_0000 <= v <= 0x1_0000_0000,
    ensures q == spec_div_floor(v as int, 32),
{
    proof {
        vstd::arithmetic::div_mod::lemma_fundamental_div_mod(v as int, 32);
        vstd::arithmetic::div_mod::lemma_mod_bound(v as int, 32);
    }
    if v >= 0 {
        v / 32
    } else {
        proof { super::geom::lemma_floor_div_neg(v as int, 32); }
        -((-v - 1) / 32) - 1
    }
}

impl World {
    /// Dense-grid chunk column and row of cell `p`.
    fn chunk_col_row(&self, p: Vec2i) -> (r: (i64, i64))
        requires self.wf(),
        ensures r.0 == self.chunk_col(p.x as int), r.1 == self.chunk_row(p.y as int),
    {
        let o = self.store.origin();
        let cx = floor_div32(p.x as i64 - o.x as i64);
        let cy = floor_div32(p.y as i64 - o.y as i64);
        (cx, cy)
    }

    /// Slot index of chunk `(cx, cy)`, `None` outside the chunk grid.
    fn slot_index(&self, cx: i64, cy: i64) -> (r: Option<usize>)
        requires self.wf(),
        ensures
            self.slot_valid(cx as int, cy as int) ==> r is Some && r->0 as int == self.slot(cx as int, cy as int)
                && 0 <= self.slot(cx as int, cy as int) < self.slot_count(),
            !self.slot_valid(cx as int, cy as int) ==> r is None,
    {
        let n = self.chunk_dirty.len();
        if cx >= 0 && cx < self.chunks_x as i64 && cy >= 0 && cy < self.chunks_y as i64 {
            proof {
                lemma_chunk_counts(self.store.spec_width(), self.store.spec_height());
                assert(0 <= cy * self.chunks_x + cx < self.chunks_x * self.chunks_y) by (nonlinear_arith)
                    requires 0 <= cx < self.chunks_x, 0 <= cy < self.chunks_y;
            }
            assert(cy * self.chunks_x + cx < n);
            let v = cy * self.chunks_x as i64 + cx;
            Some(v as usize)
        } else {
            None
        }
    }

    proof fn lemma_slot_decompose(&self, cx: int, cy: int)
        requires self.wf(), self.slot_valid(cx, cy),
        ensures
            self.slot(cx, cy) % self.spec_chunks_x() == cx,
            self.slot(cx, cy) / self.spec_chunks_x() == cy,
            0 <= self.slot(cx, cy) < self.slot_count(),
    {
        let w = self.spec_chunks_x();
        assert(0 <= cy * w + cx < w * self.spec_chunks_y()) by (nonlinear_arith)
            requires 0 <= cx < w, 0 <= cy < self.spec_chunks_y();
        vstd::arithmetic::div_mod::lemma_fundamental_div_mod_converse_div(cy * w + cx, w, cy, cx);
        vstd::arithmetic::div_mod::lemma_fundamental_div_mod_converse_mod(cy * w + cx, w, cy, cx);
    }

    fn wake_chunk_local(&mut self, cx: i64, cy: i64)
        requires old(self).wf(),
        ensures
            final(self).wf(),
            final(self).same_setup(old(self)),
            final(self).store_view() == old(self).store_view(),
            final(self).hash_view() == old(self).hash_view(),
            final(self).rigid_map() == old(self).rigid_map(),
            final(self).dirty_view() == old(self).dirty_view(),
            final(self).physics_dirty_view() == old(self).physics_dirty_view(),
            final(self).awake_view() == old(self).awake_view(),
            old(self).slot_valid(cx as int, cy as int) ==>
                final(self).awake_next_view() == old(self).awake_next_view().update(old(self).slot(cx as int, cy as int), true),
            !old(self).slot_valid(cx as int, cy as int) ==> final(self).awake_next_view() == old(self).awake_next_view(),
    {
        match self.slot_index(cx, cy) {
            Some(idx) => {
                proof {
                    lemma_chunk_counts(self.store.spec_width(), self.store.spec_height());
                    assert(idx as int == old(self).slot(cx as int, cy as int));
                }
                self.chunk_awake_next.set(idx, true);
            }
            None => {}
        }
        proof { assert(self.rigid_map() =~= old(self).rigid_map()); }
    }

    /// Marks the chunk containing `p` to stay awake next tick.
    pub fn wake_chunk_at(&mut self, p: Vec2i)
        requires old(self).wf(),
        ensures
            final(self).wf(),
            final(self).same_setup(old(self)),
            final(self).store_view() == old(self).store_view(),
            final(self).hash_view() == old(self).hash_view(),
            final(self).rigid_map() == old(self).rigid_map(),
            final(self).dirty_view() == old(self).dirty_view(),
            final(self).physics_dirty_view() == old(self).physics_dirty_view(),
            final(self).awake_view() == old(self).awake_view(),
            ({
                let cx = old(self).chunk_col(p.x as int);
                let cy = old(self).chunk_row(p.y as int);
                &&& old(self).slot_valid(cx, cy) ==>
                    final(self).awake_next_view() == old(self).awake_next_view().update(old(self).slot(cx, cy), true)
                &&& !old(self).slot_valid(cx, cy) ==> final(self).awake_next_view() == old(self).awake_next_view()
            }),
    {
        let (cx, cy) = self.chunk_col_row(p);
        self.wake_chunk_local(cx, cy);
    }

    /// Marks the chunk containing `p` and its eight neighbours to stay awake next tick.
    pub fn wake_chunk_and_neighbors(&mut self, p: Vec2i)
        requires old(self).wf(),
        ensures
            final(self).wf(),
            final(self).same_setup(old(self)),
            final(self).store_view() == old(self).store_view(),
            final(self).hash_view() == old(self).hash_view(),
            final(self).rigid_map() == old(self).rigid_map(),
            final(self).dirty_view() == old(self).dirty_view(),
            final(self).physics_dirty_view() == old(self).physics_dirty_view(),
            final(self).awake_view() == old(self).awake_view(),
            final(self).awake_next_view().len() == old(self).awake_next_view().len(),
            forall|s: int| 0 <= s < old(self).slot_count() ==> #[trigger] final(self).awake_next_view()[s] == (
                old(self).awake_next_view()[s]
                || old(self).in_wake_block(old(self).chunk_col(p.x as int), old(self).chunk_row(p.y as int), s)),
    {
        let (cx, cy) = self.chunk_col_row(p);
        let ghost start = *self;
        let mut dy: i64 = -1;
        while dy <= 1
            invariant
                self.wf(),
                -1 <= dy <= 2,
                cx == start.chunk_col(p.x as int),
                cy == start.chunk_row(p.y as int),
                self.same_setup(&start),
                self.store_view() == start.store_view(),
                self.hash_view() == start.hash_view(),
                self.rigid_map() == start.rigid_map(),
                self.dirty_view() == start.dirty_view(),
                self.physics_dirty_view() == start.physics_dirty_view(),
                self.awake_view() == start.awake_view(),
                self.awake_next_view().len() == start.awake_next_view().len(),
                start.wf(),
                -0x1000_0000 <= cx <= 0x1000_0000,
                -0x1000_0000 <= cy <= 0x1000_0000,
                forall|s: int| 0 <= s < start.slot_count() ==> #[trigger] self.awake_next_view()[s] == (
                    start.awake_next_view()[s]
                    || (start.in_wake_block(cx as int, cy as int, s) && s / start.spec_chunks_x() < cy + dy)),
            decreases 2 - dy,
        {
            let mut dx: i64 = -1;
            while dx <= 1
                invariant
                    self.wf(),
                    -1 <= dy <= 1,
                    -1 <= dx <= 2,
                    cx == start.chunk_col(p.x as int),
                    cy == start.chunk_row(p.y as int),
                    self.same_setup(&start),
                    self.store_view() == start.store_view(),
                    self.hash_view() == start.hash_view(),
                    self.rigid_map() == start.rigid_map(),
                    self.dirty_view() == start.dirty_view(),
                    self.physics_dirty_view() == start.physics_dirty_view(),
                    self.awake_view() == start.awake_view(),
                    self.awake_next_view().len() == start.awake_next_view().len(),
                    start.wf(),
                    -0x1000_0000 <= cx <= 0x1000_0000,
                    -0x1000_0000 <= cy <= 0x1000_0000,
                    forall|s: int| 0 <= s < start.slot_count() ==> #[trigger] self.awake_next_view()[s] == (
                        start.awake_next_view()[s]
                        || (start.in_wake_block(cx as int, cy as int, s) && (s / start.spec_chunks_x() < cy + dy
                            || (s / start.spec_chunks_x() == cy + dy && s % start.spec_chunks_x() < cx + dx)))),
                decreases 2 - dx,
            {
                let ghost before = *self;
                self.wake_chunk_local(cx + dx, cy + dy);
                proof {
                    if start.slot_valid(cx + dx, cy + dy) {
                        start.lemma_slot_decompose(cx + dx, cy + dy);
                    }
                    assert forall|s: int| 0 <= s < start.slot_count() implies #[trigger] self.awake_next_view()[s] == (
                        start.awake_next_view()[s]
                        || (start.in_wake_block(cx as int, cy as int, s) && (s / start.spec_chunks_x() < cy + dy
                            || (s / start.spec_chunks_x() == cy + dy && s % start.spec_chunks_x() < cx + dx + 1)))) by {
                        assert(start.spec_chunks_x() > 0) by (nonlinear_arith)
                            requires 0 <= s < start.spec_chunks_x() * start.spec_chunks_y(), start.spec_chunks_y() >= 0;
                        if start.slot_valid(cx + dx, cy + dy) && s == start.slot(cx + dx, cy + dy) {
                        } else if start.slot_valid(cx + dx, cy + dy) {
                            assert(self.awake_next_view()[s] == before.awake_next_view()[s]);
                            if s / start.spec_chunks_x() == cy + dy && s % start.spec_chunks_x() == cx + dx {
                                vstd::arithmetic::div_mod::lemma_fundamental_div_mod(s, start.spec_chunks_x());
                            }
                        } else {
                            if start.in_wake_block(cx as int, cy as int, s) && s / start.spec_chunks_x() == cy + dy
                                && s % start.spec_chunks_x() == cx + dx {
                                vstd::arithmetic::div_mod::lemma_mod_bound(s, start.spec_chunks_x());
                                assert(0 <= s / start.spec_chunks_x() < start.spec_chunks_y()) by (nonlinear_arith)
                                    requires 0 <= s < start.spec_chunks_x() * start.spec_chunks_y(), start.spec_chunks_x() > 0;
                            }
                        }
                    }
                }
                dx = dx + 1;
            }
            dy = dy + 1;
        }
    }
}


/// Chunk coordinate (world chunk grid) of cell `p`.
pub open spec fn world_chunk_of(p: Vec2i) -> ChunkCoord {
    ChunkCoord { x: spec_div_floor(p.x as int, 32) as i32, y: spec_div_floor(p.y as int, 32) as i32 }
}

/// Index of cell `p` inside its world chunk.
pub open spec fn world_chunk_index(p: Vec2i) -> int {
    (p.y - world_chunk_of(p).y * 32) * 32 + (p.x - world_chunk_of(p).x * 32)
}

/// Chunks after mirroring cell `c` at `p`.
pub open spec fn mirrored(chunks: Map<ChunkCoord, Seq<Cell>>, p: Vec2i, c: Cell) -> Map<ChunkCoord, Seq<Cell>> {
    let k = world_chunk_of(p);
    let base = if chunks.contains_key(k) { chunks[k] } else { super::store::zero_slab() };
    chunks.insert(k, base.update(world_chunk_index(p), c))
}

impl World {
    /// Static-terrain test ignoring rigid-body ownership.
    pub open spec fn base_static(&self, p: Vec2i, cell: Cell) -> bool {
        &&& self.in_grid(p)
        &&& self.props_of(cell@.material).motion is InertSolid
        &&& cell@.material != material::EMPTY
        &&& cell@.flags & cell_flags::RIGID_PIXEL == 0
    }

    /// Physics flags after marking the chunk of in-grid cell `p` when `cond` holds.
    pub open spec fn physics_marked(&self, p: Vec2i, cond: bool) -> Seq<bool> {
        if cond && self.in_grid(p) { self.physics_dirty_view().update(self.slot_of(p), true) } else { self.physics_dirty_view() }
    }

    /// Whether `set_cell(p, c)` marks the chunk of `p` for a static collider rebuild.
    pub open spec fn set_cell_marks_physics(&self, p: Vec2i, c: Cell) -> bool {
        ||| (self.base_static(p, c) && self.rigid_map().contains_key(p))
        ||| ((self.base_static(p, self.cell_at(p)) && !self.rigid_map().contains_key(p)) != self.base_static(p, c))
    }

    /// Every cell of the grid lies in a valid chunk slot.
    pub proof fn lemma_in_grid_slot(&self, p: Vec2i)
        requires self.wf(), self.in_grid(p),
        ensures
            self.slot_valid(self.chunk_col(p.x as int), self.chunk_row(p.y as int)),
            0 <= self.slot_of(p) < self.slot_count(),
            self.slot_count() == self.dirty_view().len(),
    {
        let w = self.store.spec_width();
        let h = self.store.spec_height();
        let dx = p.x - self.store.spec_origin().x;
        let dy = p.y - self.store.spec_origin().y;
        vstd::arithmetic::div_mod::lemma_fundamental_div_mod(dx, 32);
        vstd::arithmetic::div_mod::lemma_mod_bound(dx, 32);
        vstd::arithmetic::div_mod::lemma_fundamental_div_mod(dy, 32);
        vstd::arithmetic::div_mod::lemma_mod_bound(dy, 32);
        vstd::arithmetic::div_mod::lemma_fundamental_div_mod(w + 31, 32);
        vstd::arithmetic::div_mod::lemma_mod_bound(w + 31, 32);
        vstd::arithmetic::div_mod::lemma_fundamental_div_mod(h + 31, 32);
        vstd::arithmetic::div_mod::lemma_mod_bound(h + 31, 32);
        let cx = self.chunk_col(p.x as int);
        let cy = self.chunk_row(p.y as int);
        assert(0 <= cy * self.chunks_x + cx < self.chunks_x * self.chunks_y) by (nonlinear_arith)
            requires 0 <= cx < self.chunks_x, 0 <= cy < self.chunks_y;
    }

    fn mark_chunk_dirty_for(&mut self, p: Vec2i)
        requires old(self).wf(), old(self).in_grid(p),
        ensures
            final(self).wf(),
            final(self).same_setup(old(self)),
            final(self).store_view() == old(self).store_view(),
            final(self).hash_view() == old(self).hash_view(),
            final(self).rigid_map() == old(self).rigid_map(),
            final(self).dirty_view() == old(self).dirty_view().update(old(self).slot_of(p), true),
            final(self).physics_dirty_view() == old(self).physics_dirty_view(),
            final(self).awake_view() == old(self).awake_view(),
            final(self).awake_next_view() == old(self).awake_next_view(),
    {
        proof { self.lemma_in_grid_slot(p); }
        let (cx, cy) = self.chunk_col_row(p);
        match self.slot_index(cx, cy) {
            Some(idx) => { self.chunk_dirty.set(idx, true); }
            None => {}
        }
        proof { assert(self.rigid_map() =~= old(self).rigid_map()); }
    }

    fn mark_chunk_physics_dirty_for(&mut self, p: Vec2i)
        requires old(self).wf(), old(self).in_grid(p),
        ensures
            final(self).wf(),
            final(self).same_setup(old(self)),
            final(self).store_view() == old(self).store_view(),
            final(self).hash_view() == old(self).hash_view(),
            final(self).rigid_map() == old(self).rigid_map(),
            final(self).dirty_view() == old(self).dirty_view(),
            final(self).physics_dirty_view() == old(self).physics_dirty_view().update(old(self).slot_of(p), true),
            final(self).awake_view() == old(self).awake_view(),
            final(self).awake_next_view() == old(self).awake_next_view(),
    {
        proof { self.lemma_in_grid_slot(p); }
        let (cx, cy) = self.chunk_col_row(p);
        match self.slot_index(cx, cy) {
            Some(idx) => { self.chunk_physics_dirty.set(idx, true); }
            None => {}
        }
        proof { assert(self.rigid_map() =~= old(self).rigid_map()); }
    }

    /// Whether this cell is included in the static terrain colliders.
    pub fn cell_contributes_static_collider(&self, p: Vec2i, cell: Cell) -> (b: bool)
        requires self.wf(),
        ensures b == self.contributes(p, cell),
    {
        if self.store.grid_index(p).is_none() {
            return false;
        }
        let m = cell.material();
        let inert = self.material_props[m as usize].inert();
        let owned = match self.rigid_ids.get(&point_key_of(p)) {
            Some(_) => true,
            None => false,
        };
        inert && m != material::EMPTY && !owned && !cell.has_flag(cell_flags::RIGID_PIXEL)
    }

    /// Records that body `id` owns cell `p`.
    pub fn set_rigid_id(&mut self, p: Vec2i, id: u32)
        requires old(self).wf(),
        ensures
            final(self).wf(),
            final(self).same_setup(old(self)),
            final(self).store_view() == old(self).store_view(),
            final(self).hash_view() == old(self).hash_view(),
            final(self).rigid_map() == old(self).rigid_map().insert(p, id),
            final(self).dirty_view() == old(self).dirty_view(),
            final(self).physics_dirty_view() == old(self).physics_marked(p,
                old(self).base_static(p, old(self).cell_at(p)) && !old(self).rigid_map().contains_key(p)),
            final(self).awake_view() == old(self).awake_view(),
            final(self).awake_next_view() == old(self).awake_next_view(),
    {
        let cell = self.get_cell(p);
        let before = self.cell_contributes_static_collider(p, cell);
        self.rigid_ids.insert(point_key_of(p), id);
        proof {
            lemma_point_key_roundtrip(p, 0);
            assert forall|q: Vec2i| #[trigger] self.rigid_map().contains_key(q) <==> (q == p || old(self).rigid_map().contains_key(q)) by {
                lemma_point_key_roundtrip(q, 0);
            }
            assert forall|q: Vec2i| #[trigger] self.rigid_map().contains_key(q) implies
                self.rigid_map()[q] == (if q == p { id } else { old(self).rigid_map()[q] }) by {
                lemma_point_key_roundtrip(q, 0);
            }
            assert(self.rigid_map() =~= old(self).rigid_map().insert(p, id));
            assert(self.active_region_set() =~= old(self).active_region_set());
        }
        let after = self.cell_contributes_static_collider(p, cell);
        if before != after {
            self.mark_chunk_physics_dirty_for(p);
        }
    }

    /// Drops any rigid-body ownership of cell `p`.
    pub fn clear_rigid_id(&mut self, p: Vec2i)
        requires old(self).wf(),
        ensures
            final(self).wf(),
            final(self).same_setup(old(self)),
            final(self).store_view() == old(self).store_view(),
            final(self).hash_view() == old(self).hash_view(),
            final(self).rigid_map() == old(self).rigid_map().remove(p),
            final(self).dirty_view() == old(self).dirty_view(),
            final(self).physics_dirty_view() == old(self).physics_marked(p,
                old(self).base_static(p, old(self).cell_at(p)) && old(self).rigid_map().contains_key(p)),
            final(self).awake_view() == old(self).awake_view(),
            final(self).awake_next_view() == old(self).awake_next_view(),
    {
        let cell = self.get_cell(p);
        let before = self.cell_contributes_static_collider(p, cell);
        let _ = self.rigid_ids.remove(&point_key_of(p));
        proof {
            lemma_point_key_roundtrip(p, 0);
            assert forall|q: Vec2i| #[trigger] self.rigid_map().contains_key(q) <==> (q != p && old(self).rigid_map().contains_key(q)) by {
                lemma_point_key_roundtrip(q, 0);
            }
            assert(self.rigid_map() =~= old(self).rigid_map().remove(p));
            assert(self.active_region_set() =~= old(self).active_region_set());
        }
        let after = self.cell_contributes_static_collider(p, cell);
        if before != after {
            self.mark_chunk_physics_dirty_for(p);
        }
    }

    /// Writes `cell` at `p` (a blank empty cell gets the ambient temperature), mirrors it into the
    /// chunk store, marks and wakes its chunk, and drops rigid-body ownership of `p`.
    /// Points outside the dense grid are ignored.
    pub fn set_cell(&mut self, p: Vec2i, cell: Cell)
        requires old(self).wf(),
        ensures
            final(self).wf(),
            final(self).same_setup(old(self)),
            !old(self).in_grid(p) ==> *final(self) == *old(self),
            old(self).in_grid(p) ==> {
                &&& final(self).cell_at(p)@ == stored_fields(cell, old(self).spec_ambient())
                &&& forall|q: Vec2i| q != p ==> #[trigger] final(self).cell_at(q) == old(self).cell_at(q)
                &&& final(self).rigid_map() == old(self).rigid_map().remove(p)
                &&& final(self).dirty_view() == old(self).dirty_view().update(old(self).slot_of(p), true)
                &&& final(self).physics_dirty_view() == old(self).physics_marked(p,
                        old(self).set_cell_marks_physics(p, final(self).cell_at(p)))
                &&& final(self).awake_view() == old(self).awake_view()
                &&& final(self).awake_next_view().len() == old(self).awake_next_view().len()
                &&& forall|s: int| 0 <= s < old(self).slot_count() ==> #[trigger] final(self).awake_next_view()[s] == (
                    old(self).awake_next_view()[s]
                    || old(self).in_wake_block(old(self).chunk_col(p.x as int), old(self).chunk_row(p.y as int), s))
                &&& old(self).hash_view().slab_total() < usize::MAX ==>
                    final(self).hash_view().chunks() == mirrored(old(self).hash_view().chunks(), p, final(self).cell_at(p))
                &&& old(self).hash_view().slab_total() >= usize::MAX ==> final(self).hash_view() == old(self).hash_view()
                &&& final(self).hash_view().slab_total() <= old(self).hash_view().slab_total() + 1
            },
    {
        let mut cell = cell;
        if cell.material() == material::EMPTY && cell.temperature() == 0 {
            cell = cell.with_temperature(self.ambient_temperature_k);
        }
        let old_cell = self.store.get_read(p);
        let ghost w0 = *self;
        if self.store.set_read(p, cell) {
            proof {
                w0.store.lemma_read_at_update(&self.store, p, cell);
                w0.lemma_in_grid_slot(p);
            }
            if self.hash_chunks.has_room() {
                let (coord, idx) = SpatialHashChunkStore::split_world_to_chunk(p);
                self.hash_chunks.ensure_chunk(coord);
                self.hash_chunks.set_chunk_cell(coord, idx, cell);
            }
            let ghost w1 = *self;
            self.mark_chunk_dirty_for(p);
            self.wake_chunk_and_neighbors(p);
            let before = match old_cell {
                Some(c) => self.cell_contributes_static_collider(p, c),
                None => false,
            };
            let ghost w2 = *self;
            self.clear_rigid_id(p);
            let after = self.cell_contributes_static_collider(p, cell);
            if before != after {
                self.mark_chunk_physics_dirty_for(p);
            }
            proof {
                assert(self.cell_at(p) == cell);
                assert(w2.cell_at(p) == cell);
                assert(w0.cell_at(p) == old_cell.unwrap());
                assert(self.physics_dirty_view() =~= w0.physics_marked(p, w0.set_cell_marks_physics(p, cell)));
            }
        } else {
            proof {
                assert(self.store == w0.store);
            }
        }
    }
}


/// Cell `q` lies in the rectangle `x0..=x1` × `y0..=y1` and, when `use_disk`, in the disk of squared
/// radius `r2` around `c`.
pub open spec fn in_shape(x0: int, x1: int, y0: int, y1: int, c: Vec2i, r2: int, use_disk: bool, q: Vec2i) -> bool {
    &&& x0 <= q.x <= x1
    &&& y0 <= q.y <= y1
    &&& use_disk ==> (q.x - c.x) * (q.x - c.x) + (q.y - c.y) * (q.y - c.y) <= r2
}

/// Cell `q` comes before `(x, y)` in row-major scan order.
pub open spec fn scanned_before(x: int, y: int, q: Vec2i) -> bool {
    q.y < y || (q.y == y && q.x < x)
}

/// Lifetime a freshly painted cell of material `mat` starts with.
pub open spec fn spec_initial_lifetime(mat: u16, props: MaterialProps) -> u8 {
    if mat == material::FIRE { 72 }
    else if mat == material::SMOKE { 48 }
    else if mat == material::STEAM { 60 }
    else if mat == material::ACID { 255 }
    else if mat == material::EMBER { 160 }
    else if props.corrosion_max_hp > 0 { props.corrosion_max_hp }
    else if props.fuel_mass > 0 { 0 }
    else if props.motion is Gas { 0 }
    else if props.durability > 0 { props.durability }
    else { 0 }
}

/// Fields of the cell painted with material `mat`.
pub open spec fn paint_fields(mat: u16, props: MaterialProps) -> CellFields {
    CellFields {
        material: mat & 0x3FF,
        lifetime: spec_initial_lifetime(mat, props),
        temperature: if props.base_temperature > MAX_TEMPERATURE { MAX_TEMPERATURE } else { props.base_temperature },
        ..crate::cell64::fields_of(0)
    }
}

/// Adds `delta` to temperature `t`, clamped to `0..=MAX_TEMPERATURE`.
pub open spec fn adjusted_temperature(t: int, delta: int) -> int {
    let v = t + delta;
    if v < 0 { 0 } else if v > MAX_TEMPERATURE { MAX_TEMPERATURE as int } else { v }
}

impl World {
    /// Lifetime a freshly painted cell of material `mat` starts with.
    pub fn initial_lifetime_for(mat: MaterialId, props: &MaterialProps) -> (l: u8)
        ensures l == spec_initial_lifetime(mat, *props),
    {
        if mat == material::FIRE {
            return 72;
        }
        if mat == material::SMOKE {
            return 48;
        }
        if mat == material::STEAM {
            return 60;
        }
        if mat == material::ACID {
            return 255;
        }
        if mat == material::EMBER {
            return 160;
        }
        if props.corrosion_max_hp > 0 {
            return props.corrosion_max_hp;
        }
        if props.fuel_mass > 0 {
            return 0;
        }
        if props.phase() == Phase::Gas {
            return 0;
        }
        if props.durability > 0 {
            return props.durability;
        }
        0
    }

    /// The cell painted with material `mat`.
    fn paint_cell_for(&self, mat: MaterialId) -> (c: Cell)
        requires self.wf(), mat <= 1023,
        ensures c@ == paint_fields(mat, self.props_of(mat)),
    {
        let props = self.material_props(mat);
        let initial_lifetime = Self::initial_lifetime_for(mat, &props);
        proof { crate::cell64::lemma_zero_fields(); }
        Cell::new().with_material(mat).with_lifetime(initial_lifetime).with_temperature(props.base_temperature)
    }

    /// Grid cell `q` lies in the shape (see [`in_shape`]).
    pub open spec fn fills(&self, x0: int, x1: int, y0: int, y1: int, c: Vec2i, r2: int, use_disk: bool, q: Vec2i) -> bool {
        self.in_grid(q) && in_shape(x0, x1, y0, y1, c, r2, use_disk, q)
    }

    /// `self` is `old` with every grid cell of the shape set to fields `f`, its rigid-body ownership
    /// dropped and its chunk marked dirty; every other cell, ownership and dirty mark is kept.
    pub open spec fn shape_written(&self, old: &World, x0: int, x1: int, y0: int, y1: int, c: Vec2i, r2: int,
        use_disk: bool, f: CellFields) -> bool
    {
        &&& self.wf()
        &&& self.same_setup(old)
        &&& forall|q: Vec2i| !old.fills(x0, x1, y0, y1, c, r2, use_disk, q) ==> #[trigger] self.cell_at(q) == old.cell_at(q)
        &&& forall|q: Vec2i| old.fills(x0, x1, y0, y1, c, r2, use_disk, q) ==> (#[trigger] self.cell_at(q))@ == f
        &&& forall|q: Vec2i| #[trigger] self.rigid_map().contains_key(q) <==> (old.rigid_map().contains_key(q)
                && !old.fills(x0, x1, y0, y1, c, r2, use_disk, q))
        &&& forall|q: Vec2i| #[trigger] self.rigid_map().contains_key(q) ==> self.rigid_map()[q] == old.rigid_map()[q]
        &&& self.dirty_view().len() == old.dirty_view().len()
        &&& forall|s: int| 0 <= s < old.slot_count() && #[trigger] old.dirty_view()[s] ==> self.dirty_view()[s]
        &&& forall|q: Vec2i| old.fills(x0, x1, y0, y1, c, r2, use_disk, q) ==> self.dirty_view()[#[trigger] old.slot_of(q)]
    }

    /// Sets every grid cell of a shape (rectangle, optionally cut to a disk) to `cell`.
    fn fill_shape(&mut self, x0: i64, x1: i64, y0: i64, y1: i64, c: Vec2i, r2: i64, use_disk: bool, cell: Cell)
        requires
            old(self).wf(),
            i32::MIN <= x0, x1 <= i32::MAX, i32::MIN <= y0, y1 <= i32::MAX,
            use_disk ==> (x0 - c.x >= -46340 && x1 - c.x <= 46340 && y0 - c.y >= -46340 && y1 - c.y <= 46340),
        ensures
            final(self).shape_written(old(self), x0 as int, x1 as int, y0 as int, y1 as int, c, r2 as int, use_disk,
                stored_fields(cell, old(self).spec_ambient())),
    {
        let ghost w0 = *self;
        let mut y: i64 = y0;
        while y <= y1
            invariant
                self.wf(),
                self.same_setup(&w0),
                w0.wf(),
                i32::MIN <= x0, x1 <= i32::MAX, i32::MIN <= y0, y1 <= i32::MAX,
                use_disk ==> (x0 - c.x >= -46340 && x1 - c.x <= 46340 && y0 - c.y >= -46340 && y1 - c.y <= 46340),
                y0 <= y,
                y <= y1 + 1 || y == y0,
                forall|q: Vec2i| !(w0.fills(x0 as int, x1 as int, y0 as int, y1 as int, c, r2 as int, use_disk, q) && q.y < y) ==> #[trigger] self.cell_at(q) == w0.cell_at(q),
                forall|q: Vec2i| w0.fills(x0 as int, x1 as int, y0 as int, y1 as int, c, r2 as int, use_disk, q) && q.y < y ==> (#[trigger] self.cell_at(q))@ == stored_fields(cell, w0.spec_ambient()),
                forall|q: Vec2i| #[trigger] self.rigid_map().contains_key(q) <==> (w0.rigid_map().contains_key(q) && !(w0.fills(x0 as int, x1 as int, y0 as int, y1 as int, c, r2 as int, use_disk, q) && q.y < y)),
                forall|q: Vec2i| #[trigger] self.rigid_map().contains_key(q) ==> self.rigid_map()[q] == w0.rigid_map()[q],
                self.dirty_view().len() == w0.dirty_view().len(),
                forall|s: int| 0 <= s < w0.slot_count() && #[trigger] w0.dirty_view()[s] ==> self.dirty_view()[s],
                forall|q: Vec2i| w0.fills(x0 as int, x1 as int, y0 as int, y1 as int, c, r2 as int, use_disk, q) && q.y < y ==> self.dirty_view()[#[trigger] w0.slot_of(q)],
            decreases y1 + 1 - y,
        {
            let mut x: i64 = x0;
            proof {
                assert forall|q: Vec2i| w0.fills(x0 as int, x1 as int, y0 as int, y1 as int, c, r2 as int, use_disk, q) && scanned_before(x as int, y as int, q) implies q.y < y by {}
            }
            while x <= x1
                invariant
                    self.wf(),
                    self.same_setup(&w0),
                    w0.wf(),
                    i32::MIN <= x0, x1 <= i32::MAX, i32::MIN <= y0, y1 <= i32::MAX,
                    use_disk ==> (x0 - c.x >= -46340 && x1 - c.x <= 46340 && y0 - c.y >= -46340 && y1 - c.y <= 46340),
                    y0 <= y <= y1,
                    x0 <= x,
                    x <= x1 + 1 || x == x0,
                    forall|q: Vec2i| !(w0.fills(x0 as int, x1 as int, y0 as int, y1 as int, c, r2 as int, use_disk, q) && scanned_before(x as int, y as int, q)) ==> #[trigger] self.cell_at(q) == w0.cell_at(q),
                    forall|q: Vec2i| w0.fills(x0 as int, x1 as int, y0 as int, y1 as int, c, r2 as int, use_disk, q) && scanned_before(x as int, y as int, q) ==> (#[trigger] self.cell_at(q))@ == stored_fields(cell, w0.spec_ambient()),
                    forall|q: Vec2i| #[trigger] self.rigid_map().contains_key(q) <==> (w0.rigid_map().contains_key(q) && !(w0.fills(x0 as int, x1 as int, y0 as int, y1 as int, c, r2 as int, use_disk, q) && scanned_before(x as int, y as int, q))),
                    forall|q: Vec2i| #[trigger] self.rigid_map().contains_key(q) ==> self.rigid_map()[q] == w0.rigid_map()[q],
                    self.dirty_view().len() == w0.dirty_view().len(),
                    forall|s: int| 0 <= s < w0.slot_count() && #[trigger] w0.dirty_view()[s] ==> self.dirty_view()[s],
                    forall|q: Vec2i| w0.fills(x0 as int, x1 as int, y0 as int, y1 as int, c, r2 as int, use_disk, q) && scanned_before(x as int, y as int, q) ==> self.dirty_view()[#[trigger] w0.slot_of(q)],
                decreases x1 + 1 - x,
            {
                let hit = if use_disk {
                    let dx = x - c.x as i64;
                    let dy = y - c.y as i64;
                    proof {
                        assert(0 <= dx * dx <= 46340 * 46340) by (nonlinear_arith) requires -46340 <= dx <= 46340;
                        assert(0 <= dy * dy <= 46340 * 46340) by (nonlinear_arith) requires -46340 <= dy <= 46340;
                    }
                    dx * dx + dy * dy <= r2
                } else {
                    true
                };
                let q = Vec2i::new(x as i32, y as i32);
                let ghost before = *self;
                proof {
                    assert(hit == in_shape(x0 as int, x1 as int, y0 as int, y1 as int, c, r2 as int, use_disk, q));
                    assert(before.in_grid(q) == w0.in_grid(q));
                }
                if hit {
                    self.set_cell(q, cell);
                    proof {
                        if w0.in_grid(q) {
                            assert(before.slot_of(q) == w0.slot_of(q));
                            w0.lemma_in_grid_slot(q);
                        }
                    }
                }
                proof {
                    if hit && w0.in_grid(q) {
                        assert(self.rigid_map() == before.rigid_map().remove(q));
                        assert(self.cell_at(q)@ == stored_fields(cell, w0.spec_ambient()));
                        assert(w0.fills(x0 as int, x1 as int, y0 as int, y1 as int, c, r2 as int, use_disk, q));
                    } else {
                        assert(*self == before);
                        assert(!w0.fills(x0 as int, x1 as int, y0 as int, y1 as int, c, r2 as int, use_disk, q));
                    }
                    assert forall|r: Vec2i| #[trigger] self.rigid_map().contains_key(r) <==> (w0.rigid_map().contains_key(r)
                        && !(w0.fills(x0 as int, x1 as int, y0 as int, y1 as int, c, r2 as int, use_disk, r) && scanned_before(x + 1, y as int, r))) by {
                        assert(scanned_before(x + 1, y as int, r) <==> (scanned_before(x as int, y as int, r) || r == q));
                        assert(before.rigid_map().contains_key(r) <==> (w0.rigid_map().contains_key(r)
                            && !(w0.fills(x0 as int, x1 as int, y0 as int, y1 as int, c, r2 as int, use_disk, r) && scanned_before(x as int, y as int, r))));
                    }
                    assert forall|r: Vec2i| #[trigger] self.rigid_map().contains_key(r) implies self.rigid_map()[r] == w0.rigid_map()[r] by {
                        if hit && w0.in_grid(q) { assert(self.rigid_map() == before.rigid_map().remove(q)); }
                    }
                    assert forall|r: Vec2i| !(w0.fills(x0 as int, x1 as int, y0 as int, y1 as int, c, r2 as int, use_disk, r) && scanned_before(x + 1, y as int, r)) implies #[trigger] self.cell_at(r) == w0.cell_at(r) by {
                        if r != q { assert(self.cell_at(r) == before.cell_at(r)); }
                    }
                    assert forall|r: Vec2i| w0.fills(x0 as int, x1 as int, y0 as int, y1 as int, c, r2 as int, use_disk, r) && scanned_before(x + 1, y as int, r) implies (#[trigger] self.cell_at(r))@ == stored_fields(cell, w0.spec_ambient()) by {
                        if r != q {
                            assert(self.cell_at(r) == before.cell_at(r));
                            assert(scanned_before(x as int, y as int, r));
                        }
                    }
                    assert forall|s: int| 0 <= s < w0.slot_count() && #[trigger] w0.dirty_view()[s] implies self.dirty_view()[s] by {
                        assert(before.dirty_view()[s]);
                    }
                    assert forall|r: Vec2i| w0.fills(x0 as int, x1 as int, y0 as int, y1 as int, c, r2 as int, use_disk, r) && scanned_before(x + 1, y as int, r) implies self.dirty_view()[#[trigger] w0.slot_of(r)] by {
                        if r != q {
                            assert(before.dirty_view()[w0.slot_of(r)]);
                            w0.lemma_in_grid_slot(r);
                        }
                    }
                }
                x = x + 1;
            }
            proof {
                assert forall|r: Vec2i| #[trigger] self.rigid_map().contains_key(r) <==> (w0.rigid_map().contains_key(r) && !(w0.fills(x0 as int, x1 as int, y0 as int, y1 as int, c, r2 as int, use_disk, r) && r.y < y + 1)) by {
                    if w0.fills(x0 as int, x1 as int, y0 as int, y1 as int, c, r2 as int, use_disk, r) && r.y == y { assert(scanned_before(x as int, y as int, r)); }
                }
                assert forall|r: Vec2i| !(w0.fills(x0 as int, x1 as int, y0 as int, y1 as int, c, r2 as int, use_disk, r) && r.y < y + 1) implies #[trigger] self.cell_at(r) == w0.cell_at(r) by {
                    if w0.fills(x0 as int, x1 as int, y0 as int, y1 as int, c, r2 as int, use_disk, r) && r.y == y { assert(scanned_before(x as int, y as int, r)); }
                }
                assert forall|r: Vec2i| w0.fills(x0 as int, x1 as int, y0 as int, y1 as int, c, r2 as int, use_disk, r) && r.y < y + 1 implies (#[trigger] self.cell_at(r))@ == stored_fields(cell, w0.spec_ambient()) by {
                    if r.y == y { assert(scanned_before(x as int, y as int, r)); }
                }
                assert forall|r: Vec2i| w0.fills(x0 as int, x1 as int, y0 as int, y1 as int, c, r2 as int, use_disk, r) && r.y < y + 1 implies self.dirty_view()[#[trigger] w0.slot_of(r)] by {
                    if r.y == y { assert(scanned_before(x as int, y as int, r)); }
                }
            }
            y = y + 1;
        }
    }
}

impl World {
    /// Fields a cell painted with material `mat` is stored with.
    pub open spec fn painted(&self, mat: u16) -> CellFields {
        stored_of(paint_fields(mat, self.props_of(mat)), self.spec_ambient())
    }

    /// Paints the filled disk of `radius` around `center` with material `mat` (through `set_cell`).
    pub fn paint_circle(&mut self, center: Vec2i, radius: i32, mat: MaterialId)
        requires
            old(self).wf(),
            mat <= 1023,
            -46340 <= radius <= 32767,
            i32::MIN <= center.x - radius <= i32::MAX,
            i32::MIN <= center.x + radius <= i32::MAX,
            i32::MIN <= center.y - radius <= i32::MAX,
            i32::MIN <= center.y + radius <= i32::MAX,
        ensures
            final(self).shape_written(old(self), center.x - radius, center.x + radius, center.y - radius, center.y + radius,
                center, radius * radius, true, old(self).painted(mat)),
    {
        let cell = self.paint_cell_for(mat);
        proof {
            assert(radius * radius <= 46340 * 46340) by (nonlinear_arith) requires -46340 <= radius <= 46340;
            assert(radius * radius >= 0) by (nonlinear_arith);
        }
        let r2 = radius as i64 * radius as i64;
        self.fill_shape(center.x as i64 - radius as i64, center.x as i64 + radius as i64,
            center.y as i64 - radius as i64, center.y as i64 + radius as i64, center, r2, true, cell);
    }

    /// Paints the filled rectangle spanned by corners `min` and `max` (in either order) with material `mat`.
    pub fn paint_rect_filled(&mut self, min: Vec2i, max: Vec2i, mat: MaterialId)
        requires
            old(self).wf(),
            mat <= 1023,
        ensures
            final(self).shape_written(old(self),
                if min.x <= max.x { min.x as int } else { max.x as int },
                if min.x <= max.x { max.x as int } else { min.x as int },
                if min.y <= max.y { min.y as int } else { max.y as int },
                if min.y <= max.y { max.y as int } else { min.y as int },
                min, 0, false, old(self).painted(mat)),
    {
        let cell = self.paint_cell_for(mat);
        let x0 = if min.x <= max.x { min.x } else { max.x };
        let x1 = if min.x <= max.x { max.x } else { min.x };
        let y0 = if min.y <= max.y { min.y } else { max.y };
        let y1 = if min.y <= max.y { max.y } else { min.y };
        self.fill_shape(x0 as i64, x1 as i64, y0 as i64, y1 as i64, min, 0, false, cell);
    }
}

/// Cells whose temperature the adjusters change: everything but empty space and stone.
pub open spec fn heatable(c: Cell) -> bool {
    c@.material != material::EMPTY && c@.material != material::STONE
}

impl World {
    /// Writes `c` to committed cell `p`, mirrors it into the chunk store and marks and wakes its chunk.
    /// Rigid-body ownership is left alone.
    fn commit_cell(&mut self, p: Vec2i, c: Cell)
        requires old(self).wf(), old(self).in_grid(p),
        ensures
            final(self).wf(),
            final(self).same_setup(old(self)),
            final(self).cell_at(p) == c,
            forall|q: Vec2i| q != p ==> #[trigger] final(self).cell_at(q) == old(self).cell_at(q),
            final(self).rigid_map() == old(self).rigid_map(),
            final(self).dirty_view() == old(self).dirty_view().update(old(self).slot_of(p), true),
            final(self).physics_dirty_view() == old(self).physics_dirty_view(),
            final(self).awake_view() == old(self).awake_view(),
            old(self).hash_view().slab_total() < usize::MAX ==>
                final(self).hash_view().chunks() == mirrored(old(self).hash_view().chunks(), p, c),
            old(self).hash_view().slab_total() >= usize::MAX ==> final(self).hash_view() == old(self).hash_view(),
            final(self).hash_view().slab_total() <= old(self).hash_view().slab_total() + 1,
    {
        let ghost w0 = *self;
        let ok = self.store.set_read(p, c);
        proof {
            w0.store.lemma_read_at_update(&self.store, p, c);
            w0.lemma_in_grid_slot(p);
            assert(self.rigid_map() =~= w0.rigid_map());
        }
        if self.hash_chunks.has_room() {
            let (coord, idx) = SpatialHashChunkStore::split_world_to_chunk(p);
            self.hash_chunks.ensure_chunk(coord);
            self.hash_chunks.set_chunk_cell(coord, idx, c);
        }
        self.mark_chunk_dirty_for(p);
        self.wake_chunk_and_neighbors(p);
    }

    /// `self` is `old` with `delta` added (clamped) to the temperature of every heatable grid cell of
    /// the shape; every other cell, the rigid-body ownership and every dirty mark are kept, and the
    /// chunk of each changed cell is marked dirty.
    pub open spec fn shape_heated(&self, old: &World, x0: int, x1: int, y0: int, y1: int, c: Vec2i, r2: int,
        use_disk: bool, delta: int) -> bool
    {
        &&& self.wf()
        &&& self.same_setup(old)
        &&& self.rigid_map() == old.rigid_map()
        &&& forall|q: Vec2i| !(old.fills(x0, x1, y0, y1, c, r2, use_disk, q) && heatable(old.cell_at(q)))
                ==> #[trigger] self.cell_at(q) == old.cell_at(q)
        &&& forall|q: Vec2i| old.fills(x0, x1, y0, y1, c, r2, use_disk, q) && heatable(old.cell_at(q)) ==>
                (#[trigger] self.cell_at(q))@ == (CellFields {
                    temperature: adjusted_temperature(old.cell_at(q)@.temperature as int, delta) as u16,
                    ..old.cell_at(q)@
                })
        &&& self.dirty_view().len() == old.dirty_view().len()
        &&& forall|s: int| 0 <= s < old.slot_count() && #[trigger] old.dirty_view()[s] ==> self.dirty_view()[s]
        &&& forall|q: Vec2i| old.fills(x0, x1, y0, y1, c, r2, use_disk, q) && self.cell_at(q) != old.cell_at(q)
                ==> self.dirty_view()[#[trigger] old.slot_of(q)]
    }

    fn heat_shape(&mut self, x0: i64, x1: i64, y0: i64, y1: i64, c: Vec2i, r2: i64, use_disk: bool, delta: i32)
        requires
            old(self).wf(),
            i32::MIN <= x0, x1 <= i32::MAX, i32::MIN <= y0, y1 <= i32::MAX,
            use_disk ==> (x0 - c.x >= -46340 && x1 - c.x <= 46340 && y0 - c.y >= -46340 && y1 - c.y <= 46340),
        ensures
            final(self).shape_heated(old(self), x0 as int, x1 as int, y0 as int, y1 as int, c, r2 as int, use_disk, delta as int),
    {
        let ghost w0 = *self;
        let mut y: i64 = y0;
        while y <= y1
            invariant
                self.wf(),
                self.same_setup(&w0),
                w0.wf(),
                self.rigid_map() == w0.rigid_map(),
                i32::MIN <= x0, x1 <= i32::MAX, i32::MIN <= y0, y1 <= i32::MAX,
                use_disk ==> (x0 - c.x >= -46340 && x1 - c.x <= 46340 && y0 - c.y >= -46340 && y1 - c.y <= 46340),
                y0 <= y,
                y <= y1 + 1 || y == y0,
                forall|q: Vec2i| !(w0.fills(x0 as int, x1 as int, y0 as int, y1 as int, c, r2 as int, use_disk, q)
                    && heatable(w0.cell_at(q)) && q.y < y) ==> #[trigger] self.cell_at(q) == w0.cell_at(q),
                forall|q: Vec2i| w0.fills(x0 as int, x1 as int, y0 as int, y1 as int, c, r2 as int, use_disk, q)
                    && heatable(w0.cell_at(q)) && q.y < y ==> (#[trigger] self.cell_at(q))@ == (CellFields {
                        temperature: adjusted_temperature(w0.cell_at(q)@.temperature as int, delta as int) as u16,
                        ..w0.cell_at(q)@
                    }),
                self.dirty_view().len() == w0.dirty_view().len(),
                forall|s: int| 0 <= s < w0.slot_count() && #[trigger] w0.dirty_view()[s] ==> self.dirty_view()[s],
                forall|q: Vec2i| w0.fills(x0 as int, x1 as int, y0 as int, y1 as int, c, r2 as int, use_disk, q)
                    && self.cell_at(q) != w0.cell_at(q) ==> self.dirty_view()[#[trigger] w0.slot_of(q)],
            decreases y1 + 1 - y,
        {
            let mut x: i64 = x0;
            while x <= x1
                invariant
                    self.wf(),
                    self.same_setup(&w0),
                    w0.wf(),
                    self.rigid_map() == w0.rigid_map(),
                    i32::MIN <= x0, x1 <= i32::MAX, i32::MIN <= y0, y1 <= i32::MAX,
                    use_disk ==> (x0 - c.x >= -46340 && x1 - c.x <= 46340 && y0 - c.y >= -46340 && y1 - c.y <= 46340),
                    y0 <= y <= y1,
                    x0 <= x,
                    x <= x1 + 1 || x == x0,
                    forall|q: Vec2i| !(w0.fills(x0 as int, x1 as int, y0 as int, y1 as int, c, r2 as int, use_disk, q)
                        && heatable(w0.cell_at(q)) && scanned_before(x as int, y as int, q)) ==> #[trigger] self.cell_at(q) == w0.cell_at(q),
                    forall|q: Vec2i| w0.fills(x0 as int, x1 as int, y0 as int, y1 as int, c, r2 as int, use_disk, q)
                        && heatable(w0.cell_at(q)) && scanned_before(x as int, y as int, q) ==> (#[trigger] self.cell_at(q))@ == (CellFields {
                            temperature: adjusted_temperature(w0.cell_at(q)@.temperature as int, delta as int) as u16,
                            ..w0.cell_at(q)@
                        }),
                    self.dirty_view().len() == w0.dirty_view().len(),
                    forall|s: int| 0 <= s < w0.slot_count() && #[trigger] w0.dirty_view()[s] ==> self.dirty_view()[s],
                    forall|q: Vec2i| w0.fills(x0 as int, x1 as int, y0 as int, y1 as int, c, r2 as int, use_disk, q)
                        && self.cell_at(q) != w0.cell_at(q) ==> self.dirty_view()[#[trigger] w0.slot_of(q)],
                decreases x1 + 1 - x,
            {
                let hit = if use_disk {
                    let dx = x - c.x as i64;
                    let dy = y - c.y as i64;
                    proof {
                        assert(0 <= dx * dx <= 46340 * 46340) by (nonlinear_arith) requires -46340 <= dx <= 46340;
                        assert(0 <= dy * dy <= 46340 * 46340) by (nonlinear_arith) requires -46340 <= dy <= 46340;
                    }
                    dx * dx + dy * dy <= r2
                } else {
                    true
                };
                let q = Vec2i::new(x as i32, y as i32);
                let ghost before = *self;
                proof {
                    assert(hit == in_shape(x0 as int, x1 as int, y0 as int, y1 as int, c, r2 as int, use_disk, q));
                    assert(before.in_grid(q) == w0.in_grid(q));
                    assert(before.cell_at(q) == w0.cell_at(q));
                }
                let mut changed = false;
                if hit {
                    match self.store.get_read(q) {
                        Some(cur) => {
                            let m = cur.material();
                            if m != material::EMPTY && m != material::STONE {
                                let t = cur.temperature() as i64;
                                let v = t + delta as i64;
                                let nt: i64 = if v < 0 { 0 } else if v > MAX_TEMPERATURE as i64 { MAX_TEMPERATURE as i64 } else { v };
                                if nt != t {
                                    let next = cur.with_temperature(nt as u16);
                                    self.commit_cell(q, next);
                                    changed = true;
                                    proof {
                                        w0.lemma_in_grid_slot(q);
                                        assert(before.slot_of(q) == w0.slot_of(q));
                                    }
                                } else {
                                    proof {
                                        assert(cur@ == (CellFields { temperature: nt as u16, ..cur@ }));
                                    }
                                }
                            }
                        }
                        None => {}
                    }
                }
                proof {
                    if !changed { assert(*self == before); }
                    assert forall|r: Vec2i| !(w0.fills(x0 as int, x1 as int, y0 as int, y1 as int, c, r2 as int, use_disk, r)
                        && heatable(w0.cell_at(r)) && scanned_before(x + 1, y as int, r)) implies #[trigger] self.cell_at(r) == w0.cell_at(r) by {
                        if r != q { assert(self.cell_at(r) == before.cell_at(r)); }
                    }
                    assert forall|r: Vec2i| w0.fills(x0 as int, x1 as int, y0 as int, y1 as int, c, r2 as int, use_disk, r)
                        && heatable(w0.cell_at(r)) && scanned_before(x + 1, y as int, r) implies (#[trigger] self.cell_at(r))@ == (CellFields {
                            temperature: adjusted_temperature(w0.cell_at(r)@.temperature as int, delta as int) as u16,
                            ..w0.cell_at(r)@
                        }) by {
                        if r != q {
                            assert(self.cell_at(r) == before.cell_at(r));
                            assert(scanned_before(x as int, y as int, r));
                        }
                    }
                    assert forall|s: int| 0 <= s < w0.slot_count() && #[trigger] w0.dirty_view()[s] implies self.dirty_view()[s] by {
                        assert(before.dirty_view()[s]);
                    }
                    assert forall|r: Vec2i| w0.fills(x0 as int, x1 as int, y0 as int, y1 as int, c, r2 as int, use_disk, r)
                        && self.cell_at(r) != w0.cell_at(r) implies self.dirty_view()[#[trigger] w0.slot_of(r)] by {
                        if r != q {
                            assert(self.cell_at(r) == before.cell_at(r));
                            assert(before.dirty_view()[w0.slot_of(r)]);
                            w0.lemma_in_grid_slot(r);
                        }
                    }
                }
                x = x + 1;
            }
            proof {
                assert forall|r: Vec2i| !(w0.fills(x0 as int, x1 as int, y0 as int, y1 as int, c, r2 as int, use_disk, r)
                    && heatable(w0.cell_at(r)) && r.y < y + 1) implies #[trigger] self.cell_at(r) == w0.cell_at(r) by {
                    if w0.fills(x0 as int, x1 as int, y0 as int, y1 as int, c, r2 as int, use_disk, r) && r.y == y {
                        assert(scanned_before(x as int, y as int, r));
                    }
                }
                assert forall|r: Vec2i| w0.fills(x0 as int, x1 as int, y0 as int, y1 as int, c, r2 as int, use_disk, r)
                    && heatable(w0.cell_at(r)) && r.y < y + 1 implies (#[trigger] self.cell_at(r))@ == (CellFields {
                        temperature: adjusted_temperature(w0.cell_at(r)@.temperature as int, delta as int) as u16,
                        ..w0.cell_at(r)@
                    }) by {
                    if r.y == y { assert(scanned_before(x as int, y as int, r)); }
                }
            }
            y = y + 1;
        }
    }

    /// Adds `delta` (clamped to `0..=MAX_TEMPERATURE`) to the temperature of every cell other than empty
    /// space and stone in the filled disk of `radius` around `center`; rigid-body ownership is kept.
    pub fn adjust_temperature_disk(&mut self, center: Vec2i, radius: i32, delta: i32)
        requires
            old(self).wf(),
            -46340 <= radius <= 32767,
            i32::MIN <= center.x - radius <= i32::MAX,
            i32::MIN <= center.x + radius <= i32::MAX,
            i32::MIN <= center.y - radius <= i32::MAX,
            i32::MIN <= center.y + radius <= i32::MAX,
        ensures
            final(self).shape_heated(old(self), center.x - radius, center.x + radius, center.y - radius, center.y + radius,
                center, radius * radius, true, delta as int),
    {
        proof {
            assert(radius * radius <= 46340 * 46340) by (nonlinear_arith) requires -46340 <= radius <= 46340;
            assert(radius * radius >= 0) by (nonlinear_arith);
        }
        let r2 = radius as i64 * radius as i64;
        self.heat_shape(center.x as i64 - radius as i64, center.x as i64 + radius as i64,
            center.y as i64 - radius as i64, center.y as i64 + radius as i64, center, r2, true, delta);
    }

    /// Same as [`World::adjust_temperature_disk`] for the filled rectangle spanned by `min` and `max`.
    pub fn adjust_temperature_rect_filled(&mut self, min: Vec2i, max: Vec2i, delta: i32)
        requires old(self).wf(),
        ensures
            final(self).shape_heated(old(self),
                if min.x <= max.x { min.x as int } else { max.x as int },
                if min.x <= max.x { max.x as int } else { min.x as int },
                if min.y <= max.y { min.y as int } else { max.y as int },
                if min.y <= max.y { max.y as int } else { min.y as int },
                min, 0, false, delta as int),
    {
        let x0 = if min.x <= max.x { min.x } else { max.x };
        let x1 = if min.x <= max.x { max.x } else { min.x };
        let y0 = if min.y <= max.y { min.y } else { max.y };
        let y1 = if min.y <= max.y { max.y } else { min.y };
        self.heat_shape(x0 as i64, x1 as i64, y0 as i64, y1 as i64, min, 0, false, delta);
    }
}

proof fn lemma_stone_material()
    ensures stone_cell()@.material == material::STONE,
{
    assert((4u64 & 0x3FF) as u16 == 4u16) by (bit_vector);
}

/// Number of entries of `s` that are non-zero.
pub open spec fn count_nonzero(s: Seq<u8>) -> nat
    decreases s.len(),
{
    if s.len() == 0 { 0 } else { count_nonzero(s.drop_last()) + if s.last() > 0 { 1nat } else { 0nat } }
}

/// Number of entries of `s` that are zero.
pub open spec fn count_zero(s: Seq<u8>) -> nat
    decreases s.len(),
{
    if s.len() == 0 { 0 } else { count_zero(s.drop_last()) + if s.last() == 0 { 1nat } else { 0nat } }
}

/// Awake counters after one tick: refreshed where a wake was requested, otherwise counted down.
pub open spec fn advanced_awake(awake: Seq<u8>, next: Seq<bool>) -> Seq<u8> {
    Seq::new(awake.len(), |i: int| if next[i] { WAKE_COOLDOWN } else if awake[i] > 0 { (awake[i] - 1) as u8 } else { 0u8 })
}

impl World {
    /// Moves the cell at `from` into `to` when `to` holds empty space; `from` becomes empty.
    pub fn try_swap(&mut self, from: Vec2i, to: Vec2i) -> (moved: bool)
        requires old(self).wf(),
        ensures
            final(self).wf(),
            final(self).same_setup(old(self)),
            moved == (old(self).cell_at(to)@.material == material::EMPTY),
            moved ==> old(self).in_grid(to),
            !moved ==> *final(self) == *old(self),
            moved ==> {
                &&& old(self).in_grid(from) ==> final(self).cell_at(from)@
                        == stored_of(crate::cell64::fields_of(0), old(self).spec_ambient())
                &&& to != from ==> final(self).cell_at(to)@ == stored_fields(old(self).cell_at(from), old(self).spec_ambient())
                &&& forall|q: Vec2i| q != from && q != to ==> #[trigger] final(self).cell_at(q) == old(self).cell_at(q)
                &&& forall|q: Vec2i| #[trigger] final(self).rigid_map().contains_key(q) <==> (old(self).rigid_map().contains_key(q)
                        && q != to && !(q == from && old(self).in_grid(from)))
            },
    {
        let from_cell = self.get_cell(from);
        let to_cell = self.get_cell(to);
        if to_cell.material() != material::EMPTY {
            return false;
        }
        let ghost w0 = *self;
        self.set_cell(to, from_cell);
        let ghost w1 = *self;
        self.set_cell(from, Cell::new());
        proof {
            crate::cell64::lemma_zero_fields();
            lemma_stone_material();
            assert(w0.in_grid(to));
            assert(w1.in_grid(from) == w0.in_grid(from));
            assert(w1.spec_ambient() == w0.spec_ambient());
            assert(from_cell == w0.cell_at(from));
            if w0.in_grid(from) {
                assert(self.rigid_map() == w1.rigid_map().remove(from));
                assert(w1.rigid_map() == w0.rigid_map().remove(to));
                if to != from {
                    assert(self.cell_at(to) == w1.cell_at(to));
                }
            } else {
                assert(*self == w1);
            }
            assert forall|q: Vec2i| q != from && q != to implies #[trigger] self.cell_at(q) == w0.cell_at(q) by {
                assert(w1.cell_at(q) == w0.cell_at(q));
            }
        }
        true
    }

    /// Copies the committed cells into the write buffer before a simulation step.
    pub fn prepare_sim(&mut self)
        requires old(self).wf(),
        ensures
            final(self).wf(),
            final(self).same_setup(old(self)),
            final(self).store_view().read_view() == old(self).store_view().read_view(),
            final(self).store_view().write_view() == old(self).store_view().read_view(),
            final(self).rigid_map() == old(self).rigid_map(),
            final(self).hash_view() == old(self).hash_view(),
            final(self).dirty_view() == old(self).dirty_view(),
            final(self).physics_dirty_view() == old(self).physics_dirty_view(),
            final(self).awake_view() == old(self).awake_view(),
            final(self).awake_next_view() == old(self).awake_next_view(),
    {
        self.store.prepare_sim();
        proof { assert(self.rigid_map() =~= old(self).rigid_map()); }
    }

    pub fn read_cells(&self) -> (s: &[Cell])
        requires self.wf(),
        ensures s@ == self.store_view().read_view(),
    {
        self.store.read_cells()
    }

    pub fn write_cells_mut(&mut self) -> (s: &mut [Cell])
        requires old(self).wf(),
        ensures
            s@ == old(self).store_view().write_view(),
            final(s)@.len() == s@.len() ==> {
                &&& final(self).wf()
                &&& final(self).same_setup(old(self))
                &&& final(self).store_view().read_view() == old(self).store_view().read_view()
                &&& final(self).store_view().write_view() == final(s)@
                &&& final(self).rigid_map() == old(self).rigid_map()
                &&& final(self).dirty_view() == old(self).dirty_view()
                &&& final(self).physics_dirty_view() == old(self).physics_dirty_view()
                &&& final(self).awake_view() == old(self).awake_view()
                &&& final(self).awake_next_view() == old(self).awake_next_view()
            },
    {
        self.store.write_cells_mut()
    }

    pub fn write_cells_len(&self) -> (n: usize)
        requires self.wf(),
        ensures n == self.store_view().write_view().len(),
    {
        self.store.write_cells_len()
    }

    /// Starts the next tick's awake counters: chunks woken this tick get the full cooldown, the
    /// others count down towards sleep; all wake requests are cleared.
    pub fn advance_awake_flags(&mut self)
        requires old(self).wf(),
        ensures
            final(self).wf(),
            final(self).same_setup(old(self)),
            final(self).store_view() == old(self).store_view(),
            final(self).hash_view() == old(self).hash_view(),
            final(self).rigid_map() == old(self).rigid_map(),
            final(self).dirty_view() == old(self).dirty_view(),
            final(self).physics_dirty_view() == old(self).physics_dirty_view(),
            final(self).awake_view() == advanced_awake(old(self).awake_view(), old(self).awake_next_view()),
            final(self).awake_next_view() == Seq::new(old(self).awake_next_view().len(), |i: int| false),
    {
        let n = self.chunk_awake.len();
        let mut i: usize = 0;
        while i < n
            invariant
                self.wf(),
                old(self).wf(),
                self.same_setup(old(self)),
                self.store == old(self).store,
                self.hash_chunks == old(self).hash_chunks,
                self.rigid_ids == old(self).rigid_ids,
                self.chunk_dirty == old(self).chunk_dirty,
                self.chunk_physics_dirty == old(self).chunk_physics_dirty,
                n == old(self).chunk_awake@.len(),
                i <= n,
                forall|j: int| 0 <= j < i ==> self.chunk_awake@[j] == advanced_awake(old(self).awake_view(), old(self).awake_next_view())[j],
                forall|j: int| i <= j < n ==> self.chunk_awake@[j] == old(self).chunk_awake@[j],
                forall|j: int| 0 <= j < i ==> !self.chunk_awake_next@[j],
                forall|j: int| i <= j < n ==> self.chunk_awake_next@[j] == old(self).chunk_awake_next@[j],
            decreases n - i,
        {
            if self.chunk_awake_next[i] {
                self.chunk_awake.set(i, WAKE_COOLDOWN);
            } else {
                let a = self.chunk_awake[i];
                self.chunk_awake.set(i, if a > 0 { a - 1 } else { 0 });
            }
            self.chunk_awake_next.set(i, false);
            i = i + 1;
        }
        proof {
            assert(self.chunk_awake@ =~= advanced_awake(old(self).awake_view(), old(self).awake_next_view()));
            assert(self.chunk_awake_next@ =~= Seq::new(old(self).awake_next_view().len(), |i: int| false));
            assert(self.rigid_map() =~= old(self).rigid_map());
        }
    }

    /// Number of chunks that are awake.
    pub fn active_chunk_count(&self) -> (n: usize)
        ensures n == count_nonzero(self.awake_view()),
    {
        let mut n: usize = 0;
        let mut i: usize = 0;
        while i < self.chunk_awake.len()
            invariant
                i <= self.chunk_awake@.len(),
                n == count_nonzero(self.chunk_awake@.take(i as int)),
                n <= i,
            decreases self.chunk_awake@.len() - i,
        {
            proof { assert(self.chunk_awake@.take(i as int + 1).drop_last() =~= self.chunk_awake@.take(i as int)); }
            if self.chunk_awake[i] > 0 {
                n = n + 1;
            }
            i = i + 1;
        }
        proof { assert(self.chunk_awake@.take(i as int) =~= self.chunk_awake@); }
        n
    }

    /// Number of chunks that are asleep.
    pub fn sleeping_chunk_count(&self) -> (n: usize)
        ensures n == count_zero(self.awake_view()),
    {
        let mut n: usize = 0;
        let mut i: usize = 0;
        while i < self.chunk_awake.len()
            invariant
                i <= self.chunk_awake@.len(),
                n == count_zero(self.chunk_awake@.take(i as int)),
                n <= i,
            decreases self.chunk_awake@.len() - i,
        {
            proof { assert(self.chunk_awake@.take(i as int + 1).drop_last() =~= self.chunk_awake@.take(i as int)); }
            if self.chunk_awake[i] == 0 {
                n = n + 1;
            }
            i = i + 1;
        }
        proof { assert(self.chunk_awake@.take(i as int) =~= self.chunk_awake@); }
        n
    }

    /// Column of the first dense-grid chunk in world chunk coordinates.
    pub open spec fn base_cx(&self) -> int { spec_div_floor(self.store_view().spec_origin().x as int, 32) }

    /// Row of the first dense-grid chunk in world chunk coordinates.
    pub open spec fn base_cy(&self) -> int { spec_div_floor(self.store_view().spec_origin().y as int, 32) }

    /// Whether the dense-grid chunk reported as `coord` is awake.
    pub fn is_chunk_awake(&self, coord: ChunkCoord) -> (b: bool)
        requires self.wf(),
        ensures
            b == ({
                let lcx = coord.x - self.base_cx();
                let lcy = coord.y - self.base_cy();
                self.slot_valid(lcx, lcy) && self.awake_view()[self.slot(lcx, lcy)] > 0
            }),
    {
        let o = self.store.origin();
        let bx = floor_div32(o.x as i64);
        let by = floor_div32(o.y as i64);
        let lcx = coord.x as i64 - bx;
        let lcy = coord.y as i64 - by;
        match self.slot_index(lcx, lcy) {
            Some(i) => self.chunk_awake[i] > 0,
            None => false,
        }
    }

    /// Turns per-cell debug pass recording on or off; turning it on allocates one entry per grid cell
    /// (all `0xFF`) unless the buffer already has that size.
    pub fn set_debug_pass_enabled(&mut self, enabled: bool)
        requires old(self).wf(),
        ensures
            final(self).wf(),
            final(self).spec_debug_pass_enabled() == enabled,
            final(self).store_view() == old(self).store_view(),
            final(self).rigid_map() == old(self).rigid_map(),
            enabled && old(self).debug_pass_view().len() != old(self).store_view().read_view().len() ==>
                final(self).debug_pass_view() == Seq::new(old(self).store_view().read_view().len(), |i: int| 0xFFu8),
            !(enabled && old(self).debug_pass_view().len() != old(self).store_view().read_view().len()) ==>
                final(self).debug_pass_view() == old(self).debug_pass_view(),
    {
        self.debug_pass_enabled = enabled;
        let total = self.store.write_cells_len();
        proof { assert(self.store.read_view().len() == self.store.write_view().len()); }
        if enabled && self.debug_pass.len() != total {
            self.debug_pass = filled_bytes(total, 0xFF);
        }
        proof { assert(self.rigid_map() =~= old(self).rigid_map()); }
    }

    /// Debug pass recorded for cell `p`; `0xFF` when none.
    pub open spec fn debug_pass_at(&self, p: Vec2i) -> u8 {
        if self.in_grid(p) && self.store_view().index_of(p) < self.debug_pass_view().len() {
            self.debug_pass_view()[self.store_view().index_of(p)]
        } else {
            0xFFu8
        }
    }

    pub fn get_debug_pass(&self, p: Vec2i) -> (v: u8)
        requires self.wf(),
        ensures v == self.debug_pass_at(p),
    {
        match self.store.grid_index(p) {
            Some(i) => {
                if i < self.debug_pass.len() { self.debug_pass[i] } else { 0xFF }
            }
            None => 0xFF,
        }
    }

    /// Marks every chunk for a static collider rebuild.
    pub fn mark_all_chunks_physics_dirty(&mut self)
        requires old(self).wf(),
        ensures
            final(self).wf(),
            final(self).same_setup(old(self)),
            final(self).store_view() == old(self).store_view(),
            final(self).rigid_map() == old(self).rigid_map(),
            final(self).dirty_view() == old(self).dirty_view(),
            final(self).awake_view() == old(self).awake_view(),
            final(self).awake_next_view() == old(self).awake_next_view(),
            final(self).physics_dirty_view() == Seq::new(old(self).physics_dirty_view().len(), |i: int| true),
    {
        let n = self.chunk_physics_dirty.len();
        self.chunk_physics_dirty = filled_bools(n, true);
        proof { assert(self.rigid_map() =~= old(self).rigid_map()); }
    }

    /// World rectangle of the dense grid; `None` for an empty grid.
    pub fn dirty_world_bounds(&self) -> (r: Option<RectI>)
        requires self.wf(),
        ensures
            ({
                let o = self.store_view().spec_origin();
                let w = self.store_view().spec_width();
                let h = self.store_view().spec_height();
                &&& (w > 0 && h > 0) ==> r == Some(RectI {
                        min: o,
                        max: Vec2i { x: (o.x + w - 1) as i32, y: (o.y + h - 1) as i32 },
                    })
                &&& !(w > 0 && h > 0) ==> r is None
            }),
    {
        let w = self.store.width();
        let h = self.store.height();
        let o = self.store.origin();
        if w > 0 && h > 0 {
            Some(RectI::new(o, Vec2i::new(o.x + w - 1, o.y + h - 1)))
        } else {
            None
        }
    }

    /// Zeroes every non-empty committed cell outside `bounds` and drops stored chunks that do not
    /// meet `bounds`.
    pub fn clear_outside_rect(&mut self, bounds: RectI)
        requires old(self).wf(),
        ensures
            final(self).wf(),
            final(self).same_setup(old(self)),
            forall|p: Vec2i| #[trigger] final(self).cell_at(p) == (
                if old(self).in_grid(p) && !bounds.spec_contains(p) && old(self).cell_at(p)@.material != material::EMPTY {
                    Cell(0)
                } else {
                    old(self).cell_at(p)
                }),
            final(self).hash_view().chunks() == old(self).hash_view().chunks().restrict(
                old(self).hash_view().chunks().dom().filter(|c: ChunkCoord| super::store::chunk_rect_intersects(c, bounds))),
            final(self).rigid_map() == old(self).rigid_map(),
            final(self).dirty_view() == old(self).dirty_view(),
            final(self).physics_dirty_view() == old(self).physics_dirty_view(),
            final(self).awake_view() == old(self).awake_view(),
            final(self).awake_next_view() == old(self).awake_next_view(),
    {
        self.store.clear_outside_rect(bounds);
        self.hash_chunks.remove_outside_world_rect(bounds);
        proof { assert(self.rigid_map() =~= old(self).rigid_map()); }
    }

    /// World rectangle covered by the dense-grid chunk reported as `coord` (see
    /// [`World::is_chunk_awake`]), clipped to the grid; the degenerate rectangle at the grid origin
    /// for a chunk outside the grid.
    pub open spec fn chunk_bounds(&self, coord: ChunkCoord) -> RectI {
        let o = self.store_view().spec_origin();
        let lcx = coord.x - self.base_cx();
        let lcy = coord.y - self.base_cy();
        if self.slot_valid(lcx, lcy) && self.store_view().spec_width() > 0 && self.store_view().spec_height() > 0 {
            self.spec_chunk_rect(lcx, lcy)
        } else {
            RectI { min: o, max: o }
        }
    }

    pub fn bounds_for_chunk(&self, coord: ChunkCoord) -> (r: RectI)
        requires self.wf(),
        ensures r == self.chunk_bounds(coord),
    {
        let o = self.store.origin();
        let w = self.store.width();
        let h = self.store.height();
        let bx = floor_div32(o.x as i64);
        let by = floor_div32(o.y as i64);
        let lcx = coord.x as i64 - bx;
        let lcy = coord.y as i64 - by;
        if lcx < 0 || lcy < 0 || lcx >= self.chunks_x as i64 || lcy >= self.chunks_y as i64 || w <= 0 || h <= 0 {
            return RectI::new(o, o);
        }
        self.chunk_rect(lcx as i32, lcy as i32)
    }

    /// World rectangle of dense-grid chunk `(lcx, lcy)`, clipped to the grid.
    pub open spec fn spec_chunk_rect(&self, lcx: int, lcy: int) -> RectI {
        let o = self.store_view().spec_origin();
        let w = self.store_view().spec_width();
        let h = self.store_view().spec_height();
        let min_x = o.x + lcx * 32;
        let min_y = o.y + lcy * 32;
        RectI {
            min: Vec2i { x: min_x as i32, y: min_y as i32 },
            max: Vec2i {
                x: (if min_x + 31 <= o.x + w - 1 { min_x + 31 } else { o.x + w - 1 }) as i32,
                y: (if min_y + 31 <= o.y + h - 1 { min_y + 31 } else { o.y + h - 1 }) as i32,
            },
        }
    }

    fn chunk_rect(&self, lcx: i32, lcy: i32) -> (r: RectI)
        requires self.wf(), self.slot_valid(lcx as int, lcy as int),
        ensures r == self.spec_chunk_rect(lcx as int, lcy as int),
    {
        let o = self.store.origin();
        let w = self.store.width();
        let h = self.store.height();
        proof {
            vstd::arithmetic::div_mod::lemma_fundamental_div_mod(w + 31, 32);
            vstd::arithmetic::div_mod::lemma_fundamental_div_mod(h + 31, 32);
        }
        let min_x = o.x + lcx * 32;
        let min_y = o.y + lcy * 32;
        let ex = o.x + (w - 1);
        let ey = o.y + (h - 1);
        let max_x = if min_x as i64 + 31 <= ex as i64 { min_x + 31 } else { ex };
        let max_y = if min_y as i64 + 31 <= ey as i64 { min_y + 31 } else { ey };
        RectI::new(Vec2i::new(min_x, min_y), Vec2i::new(max_x, max_y))
    }

    /// Chunk coordinate (as used by [`World::bounds_for_chunk`]) of a cell in the dense grid.
    pub fn dense_chunk_coord_for_cell(&self, p: Vec2i) -> (r: Option<ChunkCoord>)
        requires self.wf(),
        ensures
            self.in_grid(p) ==> r == Some(ChunkCoord {
                x: (self.chunk_col(p.x as int) + self.base_cx()) as i32,
                y: (self.chunk_row(p.y as int) + self.base_cy()) as i32,
            }),
            !self.in_grid(p) ==> r is None,
    {
        if self.store.grid_index(p).is_none() {
            return None;
        }
        proof { self.lemma_in_grid_slot(p); }
        let (lcx, lcy) = self.chunk_col_row(p);
        let o = self.store.origin();
        let bx = floor_div32(o.x as i64);
        let by = floor_div32(o.y as i64);
        proof { self.lemma_base_plus_local(lcx as int, lcy as int); }
        Some(ChunkCoord { x: (lcx + bx) as i32, y: (lcy + by) as i32 })
    }

    /// World chunk coordinates of valid dense-grid chunks fit in `i32`.
    proof fn lemma_base_plus_local(&self, lcx: int, lcy: int)
        requires self.wf(), self.slot_valid(lcx, lcy),
        ensures
            i32::MIN <= lcx + self.base_cx() <= i32::MAX,
            i32::MIN <= lcy + self.base_cy() <= i32::MAX,
            i32::MIN <= self.store_view().spec_origin().x + lcx * 32 <= i32::MAX,
            i32::MIN <= self.store_view().spec_origin().y + lcy * 32 <= i32::MAX,
    {
        let o = self.store_view().spec_origin();
        let w = self.store_view().spec_width();
        let h = self.store_view().spec_height();
        vstd::arithmetic::div_mod::lemma_fundamental_div_mod(w + 31, 32);
        vstd::arithmetic::div_mod::lemma_fundamental_div_mod(h + 31, 32);
        vstd::arithmetic::div_mod::lemma_fundamental_div_mod(o.x as int, 32);
        vstd::arithmetic::div_mod::lemma_fundamental_div_mod(o.y as int, 32);
        vstd::arithmetic::div_mod::lemma_mod_bound(o.x as int, 32);
        vstd::arithmetic::div_mod::lemma_mod_bound(o.y as int, 32);
    }
}

/// Every element of `picked(pick, f, n)` is `f(s)` for an index `s < n` where `pick` holds.
pub proof fn lemma_picked_from<T>(pick: spec_fn(int) -> bool, f: spec_fn(int) -> T, n: int, i: int)
    requires 0 <= i < picked(pick, f, n).len(),
    ensures exists|s: int| 0 <= s < n && #[trigger] pick(s) && f(s) == picked(pick, f, n)[i],
    decreases n,
{
    if n > 0 {
        let prev = picked(pick, f, n - 1);
        if i < prev.len() {
            lemma_picked_from(pick, f, n - 1, i);
            let s = choose|s: int| 0 <= s < n - 1 && #[trigger] pick(s) && f(s) == picked(pick, f, n - 1)[i];
            assert(picked(pick, f, n)[i] == prev[i]);
            assert(0 <= s < n && pick(s) && f(s) == picked(pick, f, n)[i]);
        } else {
            assert(pick(n - 1) && picked(pick, f, n)[i] == f(n - 1));
        }
    }
}

/// `f(s)` is an element of `picked(pick, f, n)` for every `s < n` where `pick` holds.
pub proof fn lemma_picked_has<T>(pick: spec_fn(int) -> bool, f: spec_fn(int) -> T, n: int, s: int)
    requires 0 <= s < n, pick(s),
    ensures picked(pick, f, n).contains(f(s)),
    decreases n,
{
    let prev = picked(pick, f, n - 1);
    if s == n - 1 {
        assert(picked(pick, f, n)[prev.len() as int] == f(s));
    } else {
        lemma_picked_has(pick, f, n - 1, s);
        let i = choose|i: int| 0 <= i < prev.len() && prev[i] == f(s);
        assert(picked(pick, f, n)[i] == f(s));
    }
}

/// Images under `f` of the indices in `0..n` where `pick` holds, in index order.
pub open spec fn picked<T>(pick: spec_fn(int) -> bool, f: spec_fn(int) -> T, n: int) -> Seq<T>
    decreases n,
{
    if n <= 0 {
        Seq::empty()
    } else {
        picked(pick, f, n - 1) + if pick(n - 1) { seq![f(n - 1)] } else { Seq::empty() }
    }
}

/// Chunks `a` and `b` are at least two chunks apart on some axis: not neighbours, not even
/// diagonally.
pub open spec fn chunks_apart(a: ChunkCoord, b: ChunkCoord) -> bool {
    a.x - b.x >= 2 || b.x - a.x >= 2 || a.y - b.y >= 2 || b.y - a.y >= 2
}

/// Two different integers of the same parity are at least two apart.
proof fn lemma_same_parity_apart(a: int, b: int)
    requires a % 2 == b % 2, a != b,
    ensures a - b >= 2 || b - a >= 2,
{
    vstd::arithmetic::div_mod::lemma_fundamental_div_mod(a, 2);
    vstd::arithmetic::div_mod::lemma_fundamental_div_mod(b, 2);
}

/// `a` comes strictly before `b` in row-major (y, then x) order.
pub open spec fn coord_before(a: ChunkCoord, b: ChunkCoord) -> bool {
    a.y < b.y || (a.y == b.y && a.x < b.x)
}

impl World {
    /// World chunk coordinate reported for dense-grid chunk slot `s`.
    pub open spec fn slot_coord(&self, s: int) -> ChunkCoord {
        ChunkCoord {
            x: (s % self.spec_chunks_x() + self.base_cx()) as i32,
            y: (s / self.spec_chunks_x() + self.base_cy()) as i32,
        }
    }

    /// Clipped world rectangle of dense-grid chunk slot `s`.
    pub open spec fn slot_rect(&self, s: int) -> RectI {
        self.spec_chunk_rect(s % self.spec_chunks_x(), s / self.spec_chunks_x())
    }

    /// Column, row and world coordinate of chunk slot `i`.
    fn slot_parts(&self, i: usize) -> (r: (i32, i32, ChunkCoord))
        requires self.wf(), (i as int) < self.slot_count(),
        ensures
            r.0 == i as int % self.spec_chunks_x(),
            r.1 == i as int / self.spec_chunks_x(),
            self.slot_valid(r.0 as int, r.1 as int),
            i as int == self.slot(r.0 as int, r.1 as int),
            r.2 == self.slot_coord(i as int),
            r.2.x == r.0 + self.base_cx(),
            r.2.y == r.1 + self.base_cy(),
    {
        proof {
            assert(self.spec_chunks_x() > 0) by (nonlinear_arith)
                requires 0 <= i < self.spec_chunks_x() * self.spec_chunks_y(), self.spec_chunks_y() >= 0;
            vstd::arithmetic::div_mod::lemma_fundamental_div_mod(i as int, self.spec_chunks_x());
            vstd::arithmetic::div_mod::lemma_mod_bound(i as int, self.spec_chunks_x());
            let q = i as int / self.spec_chunks_x();
            let w = self.spec_chunks_x();
            assert(0 <= q < self.spec_chunks_y()) by (nonlinear_arith)
                requires i == w * q + (i as int % w), 0 <= i as int % w < w, 0 <= i < w * self.spec_chunks_y(), w > 0,
            {
                if q >= self.spec_chunks_y() { assert(w * q >= w * self.spec_chunks_y()); }
                if q < 0 { assert(w * q <= -w); }
            }
            assert(q * w + (i as int % w) == i) by (nonlinear_arith) requires i == w * q + (i as int % w);
            self.lemma_base_plus_local(i as int % w, q);
        }
        let cx = (i % (self.chunks_x as usize)) as i32;
        let cy = (i / (self.chunks_x as usize)) as i32;
        let o = self.store.origin();
        let bx = floor_div32(o.x as i64);
        let by = floor_div32(o.y as i64);
        (cx, cy, ChunkCoord { x: (cx as i64 + bx) as i32, y: (cy as i64 + by) as i32 })
    }

    /// Drains the static-collider rebuild marks: the coordinates of every marked chunk in slot order,
    /// after which no chunk is marked.
    pub fn take_physics_dirty_chunks(&mut self) -> (out: Vec<ChunkCoord>)
        requires old(self).wf(),
        ensures
            out@ == picked(|s: int| old(self).physics_dirty_view()[s], |s: int| old(self).slot_coord(s), old(self).slot_count()),
            final(self).wf(),
            final(self).same_setup(old(self)),
            final(self).store_view() == old(self).store_view(),
            final(self).hash_view() == old(self).hash_view(),
            final(self).rigid_map() == old(self).rigid_map(),
            final(self).dirty_view() == old(self).dirty_view(),
            final(self).awake_view() == old(self).awake_view(),
            final(self).awake_next_view() == old(self).awake_next_view(),
            final(self).physics_dirty_view() == Seq::new(old(self).physics_dirty_view().len(), |i: int| false),
    {
        let ghost w0 = *self;
        let ghost pick = |s: int| w0.physics_dirty_view()[s];
        let ghost f = |s: int| w0.slot_coord(s);
        let n = self.chunk_physics_dirty.len();
        let mut out: Vec<ChunkCoord> = Vec::new();
        let mut i: usize = 0;
        while i < n
            invariant
                w0.wf(),
                self.wf(),
                self.same_setup(&w0),
                self.store == w0.store,
                self.hash_chunks == w0.hash_chunks,
                self.rigid_ids == w0.rigid_ids,
                self.chunk_dirty == w0.chunk_dirty,
                self.chunk_awake == w0.chunk_awake,
                self.chunk_awake_next == w0.chunk_awake_next,
                n == w0.slot_count(),
                n == self.chunk_physics_dirty@.len(),
                i <= n,
                out@ == picked(pick, f, i as int),
                pick == (|s: int| w0.physics_dirty_view()[s]),
                f == (|s: int| w0.slot_coord(s)),
                forall|j: int| 0 <= j < i ==> !self.chunk_physics_dirty@[j],
                forall|j: int| i <= j < n ==> self.chunk_physics_dirty@[j] == w0.chunk_physics_dirty@[j],
            decreases n - i,
        {
            let (_, _, coord) = self.slot_parts(i);
            if self.chunk_physics_dirty[i] {
                self.chunk_physics_dirty.set(i, false);
                out.push(coord);
            }
            proof {
                assert(picked(pick, f, i as int + 1) == picked(pick, f, i as int)
                    + if pick(i as int) { seq![f(i as int)] } else { Seq::<ChunkCoord>::empty() });
                assert(out@ =~= picked(pick, f, i as int + 1));
            }
            i = i + 1;
        }
        proof {
            assert(self.chunk_physics_dirty@ =~= Seq::new(w0.physics_dirty_view().len(), |i: int| false));
            assert(self.rigid_map() =~= w0.rigid_map());
        }
        out
    }

    /// Coordinates of every awake chunk, in slot order.
    pub fn awake_chunk_coords(&self) -> (out: Vec<ChunkCoord>)
        requires self.wf(),
        ensures out@ == picked(|s: int| self.awake_view()[s] > 0, |s: int| self.slot_coord(s), self.slot_count()),
    {
        let ghost pick = |s: int| self.awake_view()[s] > 0;
        let ghost f = |s: int| self.slot_coord(s);
        let n = self.chunk_awake.len();
        let mut out: Vec<ChunkCoord> = Vec::new();
        let mut i: usize = 0;
        while i < n
            invariant
                self.wf(),
                n == self.slot_count(),
                i <= n,
                out@ == picked(pick, f, i as int),
                pick == (|s: int| self.awake_view()[s] > 0),
                f == (|s: int| self.slot_coord(s)),
            decreases n - i,
        {
            let (_, _, coord) = self.slot_parts(i);
            if self.chunk_awake[i] > 0 {
                out.push(coord);
            }
            proof {
                assert(pick(i as int) == (self.chunk_awake@[i as int] > 0));
                assert(f(i as int) == coord);
                assert(picked(pick, f, i as int + 1) == picked(pick, f, i as int)
                    + if pick(i as int) { seq![f(i as int)] } else { Seq::<ChunkCoord>::empty() });
                assert(out@ =~= picked(pick, f, i as int + 1));
            }
            i = i + 1;
        }
        out
    }

    /// Every chunk marked for redraw with its clipped world rectangle, in slot order.
    pub fn all_chunk_dirty_rects(&self) -> (out: Vec<(ChunkCoord, RectI)>)
        requires self.wf(),
        ensures
            out@ == picked(|s: int| self.dirty_view()[s], |s: int| (self.slot_coord(s), self.slot_rect(s)), self.slot_count()),
    {
        let ghost pick = |s: int| self.dirty_view()[s];
        let ghost f = |s: int| (self.slot_coord(s), self.slot_rect(s));
        let n = self.chunk_dirty.len();
        let mut out: Vec<(ChunkCoord, RectI)> = Vec::new();
        let mut i: usize = 0;
        while i < n
            invariant
                self.wf(),
                n == self.slot_count(),
                i <= n,
                out@ == picked(pick, f, i as int),
                pick == (|s: int| self.dirty_view()[s]),
                f == (|s: int| (self.slot_coord(s), self.slot_rect(s))),
            decreases n - i,
        {
            let (cx, cy, coord) = self.slot_parts(i);
            if self.chunk_dirty[i] {
                let r = self.chunk_rect(cx, cy);
                out.push((coord, r));
            }
            proof {
                assert(out@ =~= picked(pick, f, i as int + 1));
            }
            i = i + 1;
        }
        out
    }
}

/// Euclidean parity (0 or 1) of `v`.
fn parity(v: i32) -> (p: i32)
    ensures p == v as int % 2,
{
    let h = div_floor(v, 2);
    proof {
        vstd::arithmetic::div_mod::lemma_fundamental_div_mod(v as int, 2);
        vstd::arithmetic::div_mod::lemma_mod_bound(v as int, 2);
    }
    v - 2 * h
}

impl World {
    /// Whether slot `s` is scheduled in pass `pass`: awake, with chunk-coordinate parities matching
    /// the low two bits of `pass`.
    pub open spec fn in_pass(&self, pass: int, s: int) -> bool {
        &&& self.awake_view()[s] > 0
        &&& self.slot_coord(s).x as int % 2 == pass % 2
        &&& self.slot_coord(s).y as int % 2 == (pass / 2) % 2
    }

    /// Awake chunks of the checkerboard pass `pass` (`0..4`), sorted by row, then column. No two of
    /// them are neighbours, not even diagonally.
    pub fn active_chunk_coords_for_pass(&self, pass: usize) -> (out: Vec<ChunkCoord>)
        requires self.wf(),
        ensures
            out@ == picked(|s: int| self.in_pass(pass as int, s), |s: int| self.slot_coord(s), self.slot_count()),
            forall|a: int, b: int| 0 <= a < b < out@.len() ==> coord_before(#[trigger] out@[a], #[trigger] out@[b]),
            forall|a: int, b: int| 0 <= a < b < out@.len() ==> chunks_apart(#[trigger] out@[a], #[trigger] out@[b]),
    {
        let px = (pass & 1) as i32;
        let py = ((pass >> 1) & 1) as i32;
        proof {
            assert((pass & 1) == pass % 2 && ((pass >> 1) & 1) == (pass / 2) % 2) by (bit_vector);
        }
        let ghost pick = |s: int| self.in_pass(pass as int, s);
        let ghost f = |s: int| self.slot_coord(s);
        let ghost mut last: int = -1;
        let n = self.chunk_awake.len();
        let mut out: Vec<ChunkCoord> = Vec::new();
        let mut i: usize = 0;
        while i < n
            invariant
                self.wf(),
                n == self.slot_count(),
                i <= n,
                px == pass % 2,
                py == (pass / 2) % 2,
                out@ == picked(pick, f, i as int),
                pick == (|s: int| self.in_pass(pass as int, s)),
                f == (|s: int| self.slot_coord(s)),
                -1 <= last < i,
                out@.len() > 0 ==> last >= 0 && out@.last() == self.slot_coord(last),
                forall|a: int, b: int| 0 <= a < b < out@.len() ==> coord_before(#[trigger] out@[a], #[trigger] out@[b]),
                forall|j: int| 0 <= j < out@.len() ==> (#[trigger] out@[j]).x as int % 2 == px && out@[j].y as int % 2 == py,
            decreases n - i,
        {
            let (cx, cy, coord) = self.slot_parts(i);
            let ghost old_out = out@;
            if self.chunk_awake[i] > 0 && parity(coord.x) == px && parity(coord.y) == py {
                proof {
                    if old_out.len() > 0 {
                        let (lx, ly, lc) = (last % self.spec_chunks_x(), last / self.spec_chunks_x(), self.slot_coord(last));
                        vstd::arithmetic::div_mod::lemma_div_is_ordered(last, i as int, self.spec_chunks_x());
                        vstd::arithmetic::div_mod::lemma_fundamental_div_mod(last, self.spec_chunks_x());
                        vstd::arithmetic::div_mod::lemma_fundamental_div_mod(i as int, self.spec_chunks_x());
                        self.lemma_in_slot_range(last);
                        assert(coord_before(old_out.last(), coord));
                        assert forall|a: int| 0 <= a < old_out.len() implies coord_before(#[trigger] old_out[a], coord) by {
                            if a < old_out.len() - 1 {
                                assert(coord_before(old_out[a], old_out[old_out.len() - 1]));
                            }
                        }
                    }
                }
                out.push(coord);
                proof { last = i as int; }
            }
            proof {
                assert(out@ =~= picked(pick, f, i as int + 1));
            }
            i = i + 1;
        }
        proof {
            assert forall|a: int, b: int| 0 <= a < b < out@.len() implies chunks_apart(#[trigger] out@[a], #[trigger] out@[b]) by {
                assert(coord_before(out@[a], out@[b]));
                if out@[a].x != out@[b].x {
                    lemma_same_parity_apart(out@[a].x as int, out@[b].x as int);
                } else {
                    lemma_same_parity_apart(out@[a].y as int, out@[b].y as int);
                }
            }
        }
        out
    }

    /// The rectangles of two chunk slots that share a cell are those of the same slot.
    pub proof fn lemma_slot_rects_disjoint(&self, s1: int, s2: int, q: Vec2i)
        requires
            self.wf(),
            0 <= s1 < self.slot_count(), 0 <= s2 < self.slot_count(),
            self.chunk_bounds(self.slot_coord(s1)).spec_contains(q),
            self.chunk_bounds(self.slot_coord(s2)).spec_contains(q),
            self.in_grid(q),
        ensures s1 == s2,
    {
        self.lemma_in_slot_range(s1);
        self.lemma_in_slot_range(s2);
        let cx = self.spec_chunks_x();
        let a1 = s1 % cx;
        let b1 = s1 / cx;
        let a2 = s2 % cx;
        let b2 = s2 / cx;
        let o = self.store_view().spec_origin();
        assert(self.store_view().spec_width() > 0 && self.store_view().spec_height() > 0);
        self.lemma_base_plus_local(a1, b1);
        self.lemma_base_plus_local(a2, b2);
        assert(o.x + a1 * 32 <= q.x <= o.x + a1 * 32 + 31);
        assert(o.x + a2 * 32 <= q.x <= o.x + a2 * 32 + 31);
        assert(o.y + b1 * 32 <= q.y <= o.y + b1 * 32 + 31);
        assert(o.y + b2 * 32 <= q.y <= o.y + b2 * 32 + 31);
        assert(a1 == a2 && b1 == b2);
        vstd::arithmetic::div_mod::lemma_fundamental_div_mod(s1, cx);
        vstd::arithmetic::div_mod::lemma_fundamental_div_mod(s2, cx);
    }

    proof fn lemma_in_slot_range(&self, s: int)
        requires self.wf(), 0 <= s < self.slot_count(),
        ensures
            self.spec_chunks_x() > 0,
            self.slot_valid(s % self.spec_chunks_x(), s / self.spec_chunks_x()),
            self.slot_coord(s).x == s % self.spec_chunks_x() + self.base_cx(),
            self.slot_coord(s).y == s / self.spec_chunks_x() + self.base_cy(),
    {
        let w = self.spec_chunks_x();
        assert(w > 0) by (nonlinear_arith) requires 0 <= s < w * self.spec_chunks_y(), self.spec_chunks_y() >= 0;
        vstd::arithmetic::div_mod::lemma_fundamental_div_mod(s, w);
        vstd::arithmetic::div_mod::lemma_mod_bound(s, w);
        let q = s / w;
        assert(0 <= q < self.spec_chunks_y()) by (nonlinear_arith)
            requires s == w * q + (s % w), 0 <= s % w < w, 0 <= s < w * self.spec_chunks_y(), w > 0,
        {
            if q >= self.spec_chunks_y() { assert(w * q >= w * self.spec_chunks_y()); }
            if q < 0 { assert(w * q <= -w); }
        }
        self.lemma_base_plus_local(s % w, q);
    }
}

impl World {
    /// In-progress (write buffer) cell at grid cell `p`.
    pub open spec fn write_at(&self, p: Vec2i) -> Cell {
        self.store_view().write_view()[self.store_view().index_of(p)]
    }

    /// Committing the simulation step would change whether grid cell `p` is static terrain.
    pub open spec fn collider_diff(&self, p: Vec2i) -> bool {
        self.contributes(p, self.cell_at(p)) != self.contributes(p, self.write_at(p))
    }

    /// Some grid cell of chunk slot `s` changes its static-terrain status in the pending step.
    pub open spec fn chunk_collider_changed(&self, s: int) -> bool {
        exists|p: Vec2i| #![trigger self.collider_diff(p)] self.in_grid(p) && self.slot_of(p) == s && self.collider_diff(p)
    }

    /// Cell `k` (row-major, `0..1024`) of dense-grid chunk `(cx, cy)`.
    pub open spec fn chunk_cell(&self, cx: int, cy: int, k: int) -> Vec2i {
        Vec2i {
            x: (self.store_view().spec_origin().x + cx * 32 + k % 32) as i32,
            y: (self.store_view().spec_origin().y + cy * 32 + k / 32) as i32,
        }
    }

    /// The grid cells of chunk slot `(cx, cy)` are exactly its in-grid chunk cells.
    proof fn lemma_chunk_cells(&self, cx: int, cy: int, p: Vec2i)
        requires self.wf(), self.slot_valid(cx, cy), self.in_grid(p), self.slot_of(p) == self.slot(cx, cy),
        ensures
            ({
                let k = (p.y - self.store_view().spec_origin().y - cy * 32) * 32 + (p.x - self.store_view().spec_origin().x - cx * 32);
                0 <= k < 1024 && self.chunk_cell(cx, cy, k) == p
            }),
    {
        self.lemma_in_grid_slot(p);
        let pcx = self.chunk_col(p.x as int);
        let pcy = self.chunk_row(p.y as int);
        self.lemma_slot_decompose(cx, cy);
        self.lemma_slot_decompose(pcx, pcy);
        let o = self.store_view().spec_origin();
        vstd::arithmetic::div_mod::lemma_fundamental_div_mod(p.x - o.x, 32);
        vstd::arithmetic::div_mod::lemma_mod_bound(p.x - o.x, 32);
        vstd::arithmetic::div_mod::lemma_fundamental_div_mod(p.y - o.y, 32);
        vstd::arithmetic::div_mod::lemma_mod_bound(p.y - o.y, 32);
        let lx = p.x - o.x - cx * 32;
        let ly = p.y - o.y - cy * 32;
        let k = ly * 32 + lx;
        vstd::arithmetic::div_mod::lemma_fundamental_div_mod_converse_div(k, 32, ly, lx);
        vstd::arithmetic::div_mod::lemma_fundamental_div_mod_converse_mod(k, 32, ly, lx);
    }

    /// An in-grid chunk cell lies in that chunk's slot.
    proof fn lemma_chunk_cell_slot(&self, cx: int, cy: int, k: int)
        requires
            self.wf(), self.slot_valid(cx, cy), 0 <= k < 1024,
            cx * 32 + k % 32 < self.store_view().spec_width(),
            cy * 32 + k / 32 < self.store_view().spec_height(),
        ensures
            self.in_grid(self.chunk_cell(cx, cy, k)),
            self.slot_of(self.chunk_cell(cx, cy, k)) == self.slot(cx, cy),
    {
        let o = self.store_view().spec_origin();
        let p = self.chunk_cell(cx, cy, k);
        vstd::arithmetic::div_mod::lemma_fundamental_div_mod(k, 32);
        vstd::arithmetic::div_mod::lemma_mod_bound(k, 32);
        assert(0 <= k / 32 < 32);
        vstd::arithmetic::div_mod::lemma_fundamental_div_mod_converse_div(p.x - o.x, 32, cx, k % 32);
        vstd::arithmetic::div_mod::lemma_fundamental_div_mod_converse_div(p.y - o.y, 32, cy, k / 32);
    }

    /// Whether committing the pending step changes the static-terrain status of a cell in slot `i`.
    fn slot_collider_changed(&self, i: usize) -> (b: bool)
        requires self.wf(), (i as int) < self.slot_count(),
        ensures b == self.chunk_collider_changed(i as int),
    {
        let (cx, cy, _) = self.slot_parts(i);
        let o = self.store.origin();
        let w = self.store.width();
        let h = self.store.height();
        let (rbuf, wbuf) = self.store.read_write_cell_slices();
        proof { self.lemma_base_plus_local(cx as int, cy as int); }
        let mut k: usize = 0;
        while k < 1024
            invariant
                self.wf(),
                self.slot_valid(cx as int, cy as int),
                i as int == self.slot(cx as int, cy as int),
                o == self.store_view().spec_origin(),
                w == self.store_view().spec_width(),
                h == self.store_view().spec_height(),
                rbuf@ == self.store_view().read_view(),
                wbuf@ == self.store_view().write_view(),
                i32::MIN <= o.x + cx * 32 <= i32::MAX,
                i32::MIN <= o.y + cy * 32 <= i32::MAX,
                k <= 1024,
                forall|j: int| 0 <= j < k && cx * 32 + j % 32 < w && cy * 32 + j / 32 < h
                    ==> !self.collider_diff(#[trigger] self.chunk_cell(cx as int, cy as int, j)),
            decreases 1024 - k,
        {
            let lx = (k % 32) as i64;
            let ly = (k / 32) as i64;
            let gx = cx as i64 * 32 + lx;
            let gy = cy as i64 * 32 + ly;
            if gx < w as i64 && gy < h as i64 {
                let p = Vec2i::new((o.x as i64 + gx) as i32, (o.y as i64 + gy) as i32);
                proof {
                    assert(p == self.chunk_cell(cx as int, cy as int, k as int));
                    self.lemma_chunk_cell_slot(cx as int, cy as int, k as int);
                    super::store::lemma_grid_index_bounds(o, w as int, h as int, p);
                }
                let idx = (gy * w as i64 + gx) as usize;
                let before = self.cell_contributes_static_collider(p, rbuf[idx]);
                let after = self.cell_contributes_static_collider(p, wbuf[idx]);
                if before != after {
                    proof {
                        assert(self.collider_diff(p));
                    }
                    return true;
                }
            }
            k = k + 1;
        }
        proof {
            if self.chunk_collider_changed(i as int) {
                let p = choose|p: Vec2i| #![trigger self.collider_diff(p)] self.in_grid(p) && self.slot_of(p) == i as int && self.collider_diff(p);
                self.lemma_chunk_cells(cx as int, cy as int, p);
                let j = (p.y - o.y - cy * 32) * 32 + (p.x - o.x - cx * 32);
                assert(self.chunk_cell(cx as int, cy as int, j) == p);
            }
        }
        false
    }

    /// Commits the simulation step: marks for a collider rebuild every woken chunk in which some cell
    /// changes its static-terrain status, then makes the write buffer the committed state.
    pub fn finish_sim(&mut self)
        requires old(self).wf(),
        ensures
            final(self).wf(),
            final(self).same_setup(old(self)),
            final(self).store_view().read_view() == old(self).store_view().write_view(),
            final(self).store_view().write_view() == old(self).store_view().read_view(),
            final(self).hash_view() == old(self).hash_view(),
            final(self).rigid_map() == old(self).rigid_map(),
            final(self).dirty_view() == old(self).dirty_view(),
            final(self).awake_view() == old(self).awake_view(),
            final(self).awake_next_view() == old(self).awake_next_view(),
            final(self).physics_dirty_view() == Seq::new(old(self).physics_dirty_view().len(), |s: int|
                old(self).physics_dirty_view()[s] || (old(self).awake_next_view()[s] && old(self).chunk_collider_changed(s))),
    {
        let ghost w0 = *self;
        let n = self.chunk_physics_dirty.len();
        let mut marks: Vec<bool> = Vec::new();
        let mut i: usize = 0;
        while i < n
            invariant
                *self == w0,
                w0.wf(),
                n == w0.slot_count(),
                i <= n,
                marks@.len() == i,
                forall|j: int| 0 <= j < i ==> #[trigger] marks@[j] == (w0.awake_next_view()[j] && w0.chunk_collider_changed(j)),
            decreases n - i,
        {
            let m = self.chunk_awake_next[i] && self.slot_collider_changed(i);
            marks.push(m);
            i = i + 1;
        }
        let mut j: usize = 0;
        while j < n
            invariant
                w0.wf(),
                self.wf(),
                self.same_setup(&w0),
                self.store == w0.store,
                self.hash_chunks == w0.hash_chunks,
                self.rigid_ids == w0.rigid_ids,
                self.chunk_dirty == w0.chunk_dirty,
                self.chunk_awake == w0.chunk_awake,
                self.chunk_awake_next == w0.chunk_awake_next,
                n == w0.slot_count(),
                n == self.chunk_physics_dirty@.len(),
                marks@.len() == n,
                j <= n,
                forall|t: int| 0 <= t < n ==> #[trigger] marks@[t] == (w0.awake_next_view()[t] && w0.chunk_collider_changed(t)),
                forall|t: int| 0 <= t < j ==> #[trigger] self.chunk_physics_dirty@[t] == (w0.chunk_physics_dirty@[t] || marks@[t]),
                forall|t: int| j <= t < n ==> #[trigger] self.chunk_physics_dirty@[t] == w0.chunk_physics_dirty@[t],
            decreases n - j,
        {
            if marks[j] {
                self.chunk_physics_dirty.set(j, true);
            }
            j = j + 1;
        }
        proof {
            assert(self.chunk_physics_dirty@ =~= Seq::new(w0.physics_dirty_view().len(), |s: int|
                w0.physics_dirty_view()[s] || (w0.awake_next_view()[s] && w0.chunk_collider_changed(s))));
        }
        self.store.finish_sim();
        proof { assert(self.rigid_map() =~= w0.rigid_map()); }
    }
}

impl World {
    /// Hash keys of every owned cell position, each once.
    fn rigid_keys(&self) -> (v: Vec<u64>)
        ensures
            v@.to_set() == self.rigid_ids@.dom(),
            v@.no_duplicates(),
    {
        let mut v: Vec<u64> = Vec::new();
        proof {
            vstd::std_specs::hash::axiom_spec_keys_iter(&self.rigid_ids);
        }
        for k in it: self.rigid_ids.keys()
            invariant
                v@ == it.seq().take(it.index() as int).unref(),
                it.seq().unref().to_set() == self.rigid_ids@.dom(),
                it.seq().unref().no_duplicates(),
                it.index() == it.seq().len() ==> v@.to_set() == self.rigid_ids@.dom() && v@.no_duplicates(),
        {
            v.push(*k);
            assert(it.index() + 1 == it.seq().len() ==> v@ =~= it.seq().unref());
        }
        v
    }

    /// Every owned cell position, each once.
    fn rigid_positions(&self) -> (v: Vec<Vec2i>)
        ensures
            v@.to_set() == self.rigid_map().dom(),
            v@.no_duplicates(),
    {
        let keys = self.rigid_keys();
        let mut v: Vec<Vec2i> = Vec::new();
        let mut i: usize = 0;
        while i < keys.len()
            invariant
                keys@.to_set() == self.rigid_ids@.dom(),
                keys@.no_duplicates(),
                i <= keys@.len(),
                v@ == keys@.take(i as int).map_values(|k: u64| key_point(k)),
            decreases keys@.len() - i,
        {
            v.push(point_of_key(keys[i]));
            proof {
                assert(keys@.take(i as int + 1).map_values(|k: u64| key_point(k))
                    =~= keys@.take(i as int).map_values(|k: u64| key_point(k)).push(key_point(keys@[i as int])));
            }
            i = i + 1;
        }
        proof {
            assert(keys@.take(keys@.len() as int) =~= keys@);
            assert forall|a: int, b: int| 0 <= a < v@.len() && 0 <= b < v@.len() && a != b implies v@[a] != v@[b] by {
                lemma_point_key_roundtrip(v@[a], keys@[a]);
                lemma_point_key_roundtrip(v@[b], keys@[b]);
            }
            assert forall|p: Vec2i| #[trigger] v@.to_set().contains(p) <==> self.rigid_map().dom().contains(p) by {
                lemma_point_key_roundtrip(p, 0);
                if v@.to_set().contains(p) {
                    let a = choose|a: int| 0 <= a < v@.len() && v@[a] == p;
                    lemma_point_key_roundtrip(p, keys@[a]);
                    assert(keys@.to_set().contains(keys@[a]));
                }
                if self.rigid_map().dom().contains(p) {
                    assert(keys@.to_set().contains(point_key(p)));
                    let a = choose|a: int| 0 <= a < keys@.len() && keys@[a] == point_key(p);
                    assert(v@[a] == p);
                }
            }
            assert(v@.to_set() =~= self.rigid_map().dom());
        }
        v
    }

    /// Cell positions owned by rigid body `body_id`, each once, in no particular order.
    pub fn rigid_ids_iter_for_body(&self, body_id: u32) -> (v: Vec<Vec2i>)
        ensures
            v@.no_duplicates(),
            forall|p: Vec2i| #[trigger] v@.contains(p) <==> (self.rigid_map().contains_key(p) && self.rigid_map()[p] == body_id),
    {
        let all = self.rigid_positions();
        let mut v: Vec<Vec2i> = Vec::new();
        let mut i: usize = 0;
        while i < all.len()
            invariant
                all@.to_set() == self.rigid_map().dom(),
                all@.no_duplicates(),
                i <= all@.len(),
                v@.no_duplicates(),
                forall|p: Vec2i| #[trigger] v@.contains(p) <==> (all@.take(i as int).contains(p)
                    && self.rigid_map()[p] == body_id),
            decreases all@.len() - i,
        {
            let p = all[i];
            proof { assert(all@.to_set().contains(p)); }
            let id = self.get_rigid_id(p);
            let ghost before = v@;
            if id == Some(body_id) {
                proof {
                    assert(!before.contains(p)) by {
                        if before.contains(p) {
                            let a = choose|a: int| 0 <= a < i && all@[a] == p;
                            assert(all@.take(i as int)[a] == p);
                        }
                    }
                }
                v.push(p);
            }
            proof {
                let t0 = all@.take(i as int);
                let t1 = all@.take(i as int + 1);
                assert(t1 =~= t0.push(p));
                assert forall|q: Vec2i| #[trigger] t1.contains(q) <==> (t0.contains(q) || q == p) by {
                    if t1.contains(q) {
                        let a = choose|a: int| 0 <= a < t1.len() && t1[a] == q;
                        if a < i { assert(t0[a] == q); }
                    }
                    if t0.contains(q) {
                        let a = choose|a: int| 0 <= a < t0.len() && t0[a] == q;
                        assert(t1[a] == q);
                    }
                    if q == p { assert(t1[i as int] == q); }
                }
                assert((id == Some(body_id)) == (self.rigid_map()[p] == body_id));
                assert forall|q: Vec2i| #[trigger] v@.contains(q) <==> (before.contains(q) || (q == p && id == Some(body_id))) by {
                    if id == Some(body_id) {
                        assert(v@ =~= before.push(p));
                        if v@.contains(q) && q != p {
                            let a = choose|a: int| 0 <= a < v@.len() && v@[a] == q;
                            assert(before[a] == q);
                        }
                        if before.contains(q) {
                            let a = choose|a: int| 0 <= a < before.len() && before[a] == q;
                            assert(v@[a] == q);
                        }
                        if q == p { assert(v@[v@.len() - 1] == q); }
                    }
                }
            }
            i = i + 1;
        }
        proof {
            assert(all@.take(all@.len() as int) =~= all@);
            assert forall|p: Vec2i| #[trigger] v@.contains(p) <==> (self.rigid_map().contains_key(p) && self.rigid_map()[p] == body_id) by {
                assert(all@.contains(p) <==> all@.to_set().contains(p));
            }
        }
        v
    }
}

/// Cell `p` is claimed by a rigid body whose committed material moves as a liquid or a gas.
pub open spec fn fluid_rigid_hit(w: &World, p: Vec2i) -> bool {
    &&& w.rigid_map().contains_key(p)
    &&& w.cell_at(p)@.material != material::EMPTY
    &&& (w.props_of(w.cell_at(p)@.material).motion is Liquid || w.props_of(w.cell_at(p)@.material).motion is Gas)
}

impl World {
    /// Grid cell `q` is owned by body `body_id`.
    pub open spec fn owned_in_grid(&self, q: Vec2i, body_id: u32) -> bool {
        self.in_grid(q) && self.rigid_map().contains_key(q) && self.rigid_map()[q] == body_id
    }

    /// Empties every grid cell owned by `body_id` (through `set_cell`, which also drops the ownership).
    pub fn purge_rigid_body_ownership(&mut self, body_id: u32)
        requires old(self).wf(),
        ensures
            final(self).wf(),
            final(self).same_setup(old(self)),
            forall|q: Vec2i| old(self).owned_in_grid(q, body_id) ==>
                (#[trigger] final(self).cell_at(q))@ == stored_of(crate::cell64::fields_of(0), old(self).spec_ambient()),
            forall|q: Vec2i| !old(self).owned_in_grid(q, body_id) ==> #[trigger] final(self).cell_at(q) == old(self).cell_at(q),
            forall|q: Vec2i| #[trigger] final(self).rigid_map().contains_key(q) <==>
                (old(self).rigid_map().contains_key(q) && !old(self).owned_in_grid(q, body_id)),
            forall|q: Vec2i| #[trigger] final(self).rigid_map().contains_key(q) ==> final(self).rigid_map()[q] == old(self).rigid_map()[q],
    {
        let positions = self.rigid_ids_iter_for_body(body_id);
        let ghost w0 = *self;
        proof { crate::cell64::lemma_zero_fields(); }
        let mut i: usize = 0;
        while i < positions.len()
            invariant
                self.wf(),
                w0.wf(),
                self.same_setup(&w0),
                positions@.no_duplicates(),
                forall|p: Vec2i| #[trigger] positions@.contains(p) <==> (w0.rigid_map().contains_key(p) && w0.rigid_map()[p] == body_id),
                i <= positions@.len(),
                crate::cell64::fields_of(0) == Cell(0)@,
                forall|q: Vec2i| w0.owned_in_grid(q, body_id) && positions@.take(i as int).contains(q) ==>
                    (#[trigger] self.cell_at(q))@ == stored_of(crate::cell64::fields_of(0), w0.spec_ambient()),
                forall|q: Vec2i| !(w0.owned_in_grid(q, body_id) && positions@.take(i as int).contains(q)) ==>
                    #[trigger] self.cell_at(q) == w0.cell_at(q),
                forall|q: Vec2i| #[trigger] self.rigid_map().contains_key(q) <==>
                    (w0.rigid_map().contains_key(q) && !(w0.owned_in_grid(q, body_id) && positions@.take(i as int).contains(q))),
                forall|q: Vec2i| #[trigger] self.rigid_map().contains_key(q) ==> self.rigid_map()[q] == w0.rigid_map()[q],
            decreases positions@.len() - i,
        {
            let p = positions[i];
            let ghost before = *self;
            self.set_cell(p, Cell::new());
            proof {
                let t0 = positions@.take(i as int);
                let t1 = positions@.take(i as int + 1);
                assert(t1 =~= t0.push(p));
                assert forall|q: Vec2i| #[trigger] t1.contains(q) <==> (t0.contains(q) || q == p) by {
                    if t1.contains(q) {
                        let a = choose|a: int| 0 <= a < t1.len() && t1[a] == q;
                        if a < i { assert(t0[a] == q); }
                    }
                    if t0.contains(q) {
                        let a = choose|a: int| 0 <= a < t0.len() && t0[a] == q;
                        assert(t1[a] == q);
                    }
                    if q == p { assert(t1[i as int] == q); }
                }
                assert(positions@.contains(p));
                assert(before.in_grid(p) == w0.in_grid(p));
                if w0.in_grid(p) {
                    assert(self.rigid_map() == before.rigid_map().remove(p));
                } else {
                    assert(*self == before);
                }
                assert forall|q: Vec2i| !(w0.owned_in_grid(q, body_id) && t1.contains(q)) implies #[trigger] self.cell_at(q) == w0.cell_at(q) by {
                    if q != p { assert(self.cell_at(q) == before.cell_at(q)); }
                }
                assert forall|q: Vec2i| w0.owned_in_grid(q, body_id) && t1.contains(q) implies
                    (#[trigger] self.cell_at(q))@ == stored_of(crate::cell64::fields_of(0), w0.spec_ambient()) by {
                    if q != p { assert(self.cell_at(q) == before.cell_at(q)); }
                }
                assert forall|q: Vec2i| #[trigger] self.rigid_map().contains_key(q) <==>
                    (w0.rigid_map().contains_key(q) && !(w0.owned_in_grid(q, body_id) && t1.contains(q))) by {
                    assert(before.rigid_map().contains_key(q) <==>
                        (w0.rigid_map().contains_key(q) && !(w0.owned_in_grid(q, body_id) && t0.contains(q))));
                }
            }
            i = i + 1;
        }
        proof {
            assert(positions@.take(positions@.len() as int) =~= positions@);
        }
    }

    /// Drops the rigid-body ownership of every owned cell whose committed material is empty space.
    pub fn prune_rigid_ids_for_empty_cells(&mut self)
        requires old(self).wf(),
        ensures
            final(self).wf(),
            final(self).same_setup(old(self)),
            final(self).store_view() == old(self).store_view(),
            final(self).hash_view() == old(self).hash_view(),
            final(self).dirty_view() == old(self).dirty_view(),
            final(self).awake_view() == old(self).awake_view(),
            final(self).awake_next_view() == old(self).awake_next_view(),
            final(self).rigid_map() == old(self).rigid_map().restrict(
                old(self).rigid_map().dom().filter(|p: Vec2i| old(self).cell_at(p)@.material != material::EMPTY)),
    {
        let positions = self.rigid_positions();
        let ghost w0 = *self;
        let mut i: usize = 0;
        while i < positions.len()
            invariant
                self.wf(),
                w0.wf(),
                self.same_setup(&w0),
                self.store_view() == w0.store_view(),
                self.hash_view() == w0.hash_view(),
                self.dirty_view() == w0.dirty_view(),
                self.awake_view() == w0.awake_view(),
                self.awake_next_view() == w0.awake_next_view(),
                positions@.to_set() == w0.rigid_map().dom(),
                positions@.no_duplicates(),
                i <= positions@.len(),
                self.rigid_map() == w0.rigid_map().restrict(w0.rigid_map().dom().filter(|p: Vec2i|
                    !positions@.take(i as int).contains(p) || w0.cell_at(p)@.material != material::EMPTY)),
            decreases positions@.len() - i,
        {
            let p = positions[i];
            let ghost before = *self;
            let c = self.get_cell(p);
            if c.material() == material::EMPTY {
                self.clear_rigid_id(p);
            }
            proof {
                let t0 = positions@.take(i as int);
                let t1 = positions@.take(i as int + 1);
                assert(t1 =~= t0.push(p));
                assert forall|q: Vec2i| #[trigger] t1.contains(q) <==> (t0.contains(q) || q == p) by {
                    if t1.contains(q) {
                        let a = choose|a: int| 0 <= a < t1.len() && t1[a] == q;
                        if a < i { assert(t0[a] == q); }
                    }
                    if t0.contains(q) {
                        let a = choose|a: int| 0 <= a < t0.len() && t0[a] == q;
                        assert(t1[a] == q);
                    }
                    if q == p { assert(t1[i as int] == q); }
                }
                assert(self.rigid_map() =~= w0.rigid_map().restrict(w0.rigid_map().dom().filter(|q: Vec2i|
                    !t1.contains(q) || w0.cell_at(q)@.material != material::EMPTY)));
            }
            i = i + 1;
        }
        proof {
            assert(positions@.take(positions@.len() as int) =~= positions@);
            assert forall|p: Vec2i| w0.rigid_map().dom().contains(p) implies positions@.contains(p) by {
                assert(positions@.to_set().contains(p));
            }
            assert(self.rigid_map() =~= w0.rigid_map().restrict(
                w0.rigid_map().dom().filter(|p: Vec2i| w0.cell_at(p)@.material != material::EMPTY)));
        }
    }

    /// Owned cells whose committed material moves as a liquid or a gas, with their owners, each once.
    pub fn collect_liquid_gas_rigid_hits(&self) -> (out: Vec<(Vec2i, u32)>)
        requires self.wf(),
        ensures
            out@.no_duplicates(),
            forall|p: Vec2i, id: u32| #[trigger] out@.contains((p, id)) <==> (fluid_rigid_hit(self, p) && self.rigid_map()[p] == id),
    {
        let positions = self.rigid_positions();
        let mut out: Vec<(Vec2i, u32)> = Vec::new();
        let mut i: usize = 0;
        while i < positions.len()
            invariant
                self.wf(),
                positions@.to_set() == self.rigid_map().dom(),
                positions@.no_duplicates(),
                i <= positions@.len(),
                out@.no_duplicates(),
                forall|p: Vec2i, id: u32| #[trigger] out@.contains((p, id)) <==>
                    (positions@.take(i as int).contains(p) && fluid_rigid_hit(self, p) && self.rigid_map()[p] == id),
            decreases positions@.len() - i,
        {
            let p = positions[i];
            proof { assert(positions@.to_set().contains(p)); }
            let id = self.get_rigid_id(p);
            let c = self.get_cell(p);
            let m = c.material();
            let ghost before = out@;
            let hit = match id {
                Some(_) => {
                    if m != material::EMPTY {
                        let motion = self.material_props(m).motion;
                        match motion {
                            MaterialMotion::Liquid { .. } => true,
                            MaterialMotion::Gas { .. } => true,
                            _ => false,
                        }
                    } else {
                        false
                    }
                }
                None => false,
            };
            proof {
                assert((m as int) < 1024);
            }
            if hit {
                let owner = id.unwrap();
                proof {
                    assert(!before.contains((p, owner))) by {
                        if before.contains((p, owner)) {
                            let a = choose|a: int| 0 <= a < i && positions@[a] == p;
                            assert(positions@.take(i as int)[a] == p);
                        }
                    }
                }
                out.push((p, owner));
            }
            proof {
                let t0 = positions@.take(i as int);
                let t1 = positions@.take(i as int + 1);
                assert(t1 =~= t0.push(p));
                assert forall|q: Vec2i| #[trigger] t1.contains(q) <==> (t0.contains(q) || q == p) by {
                    if t1.contains(q) {
                        let a = choose|a: int| 0 <= a < t1.len() && t1[a] == q;
                        if a < i { assert(t0[a] == q); }
                    }
                    if t0.contains(q) {
                        let a = choose|a: int| 0 <= a < t0.len() && t0[a] == q;
                        assert(t1[a] == q);
                    }
                    if q == p { assert(t1[i as int] == q); }
                }
                assert(hit == fluid_rigid_hit(self, p));
                assert forall|q: Vec2i, d: u32| #[trigger] out@.contains((q, d)) <==>
                    (before.contains((q, d)) || (hit && q == p && d == self.rigid_map()[p])) by {
                    if hit {
                        assert(out@ =~= before.push((p, self.rigid_map()[p])));
                        if out@.contains((q, d)) && (q, d) != (p, self.rigid_map()[p]) {
                            let a = choose|a: int| 0 <= a < out@.len() && out@[a] == (q, d);
                            assert(before[a] == (q, d));
                        }
                        if before.contains((q, d)) {
                            let a = choose|a: int| 0 <= a < before.len() && before[a] == (q, d);
                            assert(out@[a] == (q, d));
                        }
                        if q == p && d == self.rigid_map()[p] { assert(out@[out@.len() - 1] == (q, d)); }
                    }
                }
            }
            i = i + 1;
        }
        proof {
            assert(positions@.take(positions@.len() as int) =~= positions@);
            assert forall|p: Vec2i| fluid_rigid_hit(self, p) implies positions@.contains(p) by {
                assert(positions@.to_set().contains(p));
            }
        }
        out
    }
}

/// Column of the first world chunk visited for a grid whose top-left cell is `o`.
pub open spec fn zone_bx(o: Vec2i) -> int { spec_div_floor(o.x as int, 32) }

/// Row of the first world chunk visited for a grid whose top-left cell is `o`.
pub open spec fn zone_by(o: Vec2i) -> int { spec_div_floor(o.y as int, 32) }

/// World chunk `k` is one of the `chunks_for(w)`×`chunks_for(h)` chunks visited, starting at the chunk
/// holding `o`, when a grid at `o` of size `w`×`h` is saved or loaded.
pub open spec fn in_chunk_zone(o: Vec2i, w: int, h: int, k: ChunkCoord) -> bool {
    &&& zone_bx(o) <= k.x < zone_bx(o) + chunks_for(w)
    &&& zone_by(o) <= k.y < zone_by(o) + chunks_for(h)
}

/// Visiting order of zone chunk `k`.
pub open spec fn zone_slot(o: Vec2i, w: int, k: ChunkCoord) -> int {
    (k.y - zone_by(o)) * chunks_for(w) + (k.x - zone_bx(o))
}

/// Cell `i` (row-major, `0..1024`) of world chunk `k`.
pub open spec fn chunk_point(k: ChunkCoord, i: int) -> Vec2i {
    Vec2i { x: (k.x * 32 + i % 32) as i32, y: (k.y * 32 + i / 32) as i32 }
}

/// World chunk `k` lies wholly inside the `w`×`h` grid at `o`.
pub open spec fn chunk_within(k: ChunkCoord, o: Vec2i, w: int, h: int) -> bool {
    o.x <= k.x * 32 && k.x * 32 + 31 <= o.x + w - 1 && o.y <= k.y * 32 && k.y * 32 + 31 <= o.y + h - 1
}

/// Whether the `w`×`h` grid at `o` satisfies [`zone_geometry_ok`].
pub fn zone_geometry_fits(o: Vec2i, w: i64, h: i64) -> (b: bool)
    ensures b == zone_geometry_ok(o, w as int, h as int),
{
    if w < 0 || h < 0 || w > i32::MAX as i64 || h > i32::MAX as i64 {
        return false;
    }
    proof { assert(0 <= w <= i32::MAX && 0 <= h <= i32::MAX ==> w * h <= 0x4000_0000_0000_0000) by (nonlinear_arith); }
    let area = w as i128 * h as i128;
    area <= usize::MAX as i128
        && o.x as i64 + w <= i32::MAX as i64
        && o.y as i64 + h <= i32::MAX as i64
        && i32::MIN as i64 + 32 <= o.x as i64 && o.x as i64 + w + 32 <= i32::MAX as i64
        && i32::MIN as i64 + 32 <= o.y as i64 && o.y as i64 + h + 32 <= i32::MAX as i64
}

/// Half-extents for re-centring a `gw`×`gh` grid at `o` on `camera_center`: three halves of the
/// screen on each axis, once the camera is more than half a screen (`screen_w / 2`, `screen_h / 2`,
/// rounded down) from the grid centre `o + (gw / 2, gh / 2)` on either axis; otherwise none.
pub open spec fn spec_relocation_half_sizes(o: Vec2i, gw: int, gh: int, camera_center: Vec2i, screen_w: int, screen_h: int) -> Option<(int, int)> {
    let dx = crate::sim::thermal::abs(camera_center.x - (o.x + gw / 2));
    let dy = crate::sim::thermal::abs(camera_center.y - (o.y + gh / 2));
    if dx > screen_w / 2 || dy > screen_h / 2 {
        Some((screen_w * 3 / 2, screen_h * 3 / 2))
    } else {
        None
    }
}

/// Decides whether the grid should be re-centred (see [`spec_relocation_half_sizes`]).
pub fn relocation_half_sizes(o: Vec2i, gw: i32, gh: i32, camera_center: Vec2i, screen_w: i32, screen_h: i32) -> (r: Option<(i32, i32)>)
    requires
        0 <= gw, 0 <= gh, 0 <= screen_w, 0 <= screen_h,
        screen_w * 3 <= i32::MAX, screen_h * 3 <= i32::MAX,
    ensures
        r matches Some(hs) ==> spec_relocation_half_sizes(o, gw as int, gh as int, camera_center, screen_w as int, screen_h as int)
            == Some((hs.0 as int, hs.1 as int)),
        r is None ==> spec_relocation_half_sizes(o, gw as int, gh as int, camera_center, screen_w as int, screen_h as int) is None,
{
    let cx = o.x as i64 + gw as i64 / 2;
    let cy = o.y as i64 + gh as i64 / 2;
    let dx0 = camera_center.x as i64 - cx;
    let dy0 = camera_center.y as i64 - cy;
    let dx = if dx0 < 0 { -dx0 } else { dx0 };
    let dy = if dy0 < 0 { -dy0 } else { dy0 };
    if dx > screen_w as i64 / 2 || dy > screen_h as i64 / 2 {
        Some((screen_w * 3 / 2, screen_h * 3 / 2))
    } else {
        None
    }
}

/// A grid geometry whose visited chunks all have coordinates in range.
pub open spec fn zone_geometry_ok(o: Vec2i, w: int, h: int) -> bool {
    &&& grid_geometry_ok(o, w, h)
    &&& i32::MIN + 32 <= o.x && o.x + w + 32 <= i32::MAX
    &&& i32::MIN + 32 <= o.y && o.y + h + 32 <= i32::MAX
}

proof fn lemma_chunk_point(k: ChunkCoord, i: int)
    requires
        0 <= i < 1024,
        i32::MIN <= k.x * 32, k.x * 32 + 31 <= i32::MAX,
        i32::MIN <= k.y * 32, k.y * 32 + 31 <= i32::MAX,
    ensures
        chunk_point(k, i).x == k.x * 32 + i % 32,
        chunk_point(k, i).y == k.y * 32 + i / 32,
        world_chunk_of(chunk_point(k, i)) == k,
        world_chunk_index(chunk_point(k, i)) == i,
{
    vstd::arithmetic::div_mod::lemma_fundamental_div_mod(i, 32);
    vstd::arithmetic::div_mod::lemma_mod_bound(i, 32);
    assert(0 <= i / 32 < 32);
    let p = chunk_point(k, i);
    vstd::arithmetic::div_mod::lemma_fundamental_div_mod_converse_div(p.x as int, 32, k.x as int, i % 32);
    vstd::arithmetic::div_mod::lemma_fundamental_div_mod_converse_div(p.y as int, 32, k.y as int, i / 32);
}

proof fn lemma_point_chunk(p: Vec2i)
    ensures
        0 <= world_chunk_index(p) < 1024,
        chunk_point(world_chunk_of(p), world_chunk_index(p)) == p,
        world_chunk_of(p).x * 32 <= p.x < world_chunk_of(p).x * 32 + 32,
        world_chunk_of(p).y * 32 <= p.y < world_chunk_of(p).y * 32 + 32,
{
    vstd::arithmetic::div_mod::lemma_fundamental_div_mod(p.x as int, 32);
    vstd::arithmetic::div_mod::lemma_mod_bound(p.x as int, 32);
    vstd::arithmetic::div_mod::lemma_fundamental_div_mod(p.y as int, 32);
    vstd::arithmetic::div_mod::lemma_mod_bound(p.y as int, 32);
    let k = world_chunk_of(p);
    let lx = p.x - k.x * 32;
    let ly = p.y - k.y * 32;
    let i = ly * 32 + lx;
    vstd::arithmetic::div_mod::lemma_fundamental_div_mod_converse_div(i, 32, ly, lx);
    vstd::arithmetic::div_mod::lemma_fundamental_div_mod_converse_mod(i, 32, ly, lx);
}

/// Zone chunks have coordinates whose cells fit in `i32`, and zone slots are below the chunk count.
proof fn lemma_zone_chunk(o: Vec2i, w: int, h: int, k: ChunkCoord)
    requires zone_geometry_ok(o, w, h), in_chunk_zone(o, w, h, k),
    ensures
        i32::MIN <= k.x * 32, k.x * 32 + 31 <= i32::MAX,
        i32::MIN <= k.y * 32, k.y * 32 + 31 <= i32::MAX,
        0 <= zone_slot(o, w, k) < chunks_for(w) * chunks_for(h),
{
    vstd::arithmetic::div_mod::lemma_fundamental_div_mod(o.x as int, 32);
    vstd::arithmetic::div_mod::lemma_mod_bound(o.x as int, 32);
    vstd::arithmetic::div_mod::lemma_fundamental_div_mod(o.y as int, 32);
    vstd::arithmetic::div_mod::lemma_mod_bound(o.y as int, 32);
    vstd::arithmetic::div_mod::lemma_fundamental_div_mod(w + 31, 32);
    vstd::arithmetic::div_mod::lemma_fundamental_div_mod(h + 31, 32);
    let cw = chunks_for(w);
    let ch = chunks_for(h);
    let lx = k.x - zone_bx(o);
    let ly = k.y - zone_by(o);
    assert(0 <= ly * cw + lx < cw * ch) by (nonlinear_arith) requires 0 <= lx < cw, 0 <= ly < ch;
}

/// Zone chunk visited at step `j` (`j < chunks_for(w) * chunks_for(h)`).
fn zone_chunk(o: Vec2i, w: i32, h: i32, j: usize) -> (k: ChunkCoord)
    requires zone_geometry_ok(o, w as int, h as int), (j as int) < chunks_for(w as int) * chunks_for(h as int),
    ensures
        in_chunk_zone(o, w as int, h as int, k),
        zone_slot(o, w as int, k) == j,
        forall|c: ChunkCoord| in_chunk_zone(o, w as int, h as int, c) && #[trigger] zone_slot(o, w as int, c) == j ==> c == k,
{
    let cw = ((w as i64 + 31) / 32) as i32;
    let ch = ((h as i64 + 31) / 32) as i32;
    proof {
        lemma_chunk_counts(w as int, h as int);
        assert(cw > 0) by (nonlinear_arith) requires 0 <= j < cw * ch, ch >= 0;
        let jj = j as int;
        let cwi = cw as int;
        vstd::arithmetic::div_mod::lemma_fundamental_div_mod(jj, cwi);
        vstd::arithmetic::div_mod::lemma_mod_bound(jj, cwi);
        let q = jj / cwi;
        let r = jj % cwi;
        assert(0 <= q < ch) by (nonlinear_arith)
            requires jj == cwi * q + r, 0 <= r < cwi, 0 <= jj < cwi * ch, cwi > 0,
        {
            if q >= ch { assert(cwi * q >= cwi * ch); }
            if q < 0 { assert(cwi * q <= -cwi); }
        }
        assert(q * cwi + r == jj) by (nonlinear_arith) requires jj == cwi * q + r;
        vstd::arithmetic::div_mod::lemma_fundamental_div_mod(o.x as int, 32);
        vstd::arithmetic::div_mod::lemma_mod_bound(o.x as int, 32);
        vstd::arithmetic::div_mod::lemma_fundamental_div_mod(o.y as int, 32);
        vstd::arithmetic::div_mod::lemma_mod_bound(o.y as int, 32);
        vstd::arithmetic::div_mod::lemma_fundamental_div_mod(w + 31, 32);
        vstd::arithmetic::div_mod::lemma_fundamental_div_mod(h + 31, 32);
        assert forall|c: ChunkCoord| in_chunk_zone(o, w as int, h as int, c) && #[trigger] zone_slot(o, w as int, c) == j implies
            c.x == zone_bx(o) + r && c.y == zone_by(o) + q by {
            let lx = c.x - zone_bx(o);
            let ly = c.y - zone_by(o);
            vstd::arithmetic::div_mod::lemma_fundamental_div_mod_converse_div(jj, cwi, ly, lx);
            vstd::arithmetic::div_mod::lemma_fundamental_div_mod_converse_mod(jj, cwi, ly, lx);
        }
    }
    let bx = floor_div32(o.x as i64);
    let by = floor_div32(o.y as i64);
    let lx = (j % (cw as usize)) as i64;
    let ly = (j / (cw as usize)) as i64;
    ChunkCoord { x: (bx + lx) as i32, y: (by + ly) as i32 }
}

impl World {
    /// Grid cell `p` leaves the grid when it moves to `no`/`nw`×`nh` and holds something.
    pub open spec fn leaving(&self, no: Vec2i, nw: int, nh: int, p: Vec2i) -> bool {
        &&& self.in_grid(p)
        &&& !grid_contains(no, nw, nh, p)
        &&& self.cell_at(p)@.material != material::EMPTY
    }

    /// Cell `i` of world chunk `k` is saved when the grid moves: it leaves the grid and `k` is visited.
    pub open spec fn out_at(&self, no: Vec2i, nw: int, nh: int, k: ChunkCoord, i: int) -> bool {
        &&& in_chunk_zone(self.store_view().spec_origin(), self.store_view().spec_width(), self.store_view().spec_height(), k)
        &&& self.leaving(no, nw, nh, chunk_point(k, i))
    }

    /// World chunk `k` has a cell to save when the grid moves.
    pub open spec fn has_outgoing(&self, no: Vec2i, nw: int, nh: int, k: ChunkCoord) -> bool {
        exists|i: int| 0 <= i < 1024 && #[trigger] self.out_at(no, nw, nh, k, i)
    }

    /// Stored chunk `k` after its leaving cells are saved into it (a new chunk starts zeroed).
    pub open spec fn saved_slab(&self, no: Vec2i, nw: int, nh: int, k: ChunkCoord) -> Seq<Cell> {
        let old = self.hash_view().chunks();
        Seq::new(1024, |i: int|
            if self.out_at(no, nw, nh, k, i) { self.cell_at(chunk_point(k, i)) }
            else if old.contains_key(k) { old[k][i] }
            else { Cell(0) })
    }

    /// Stored chunks after the leaving cells are saved.
    pub open spec fn saved_chunks(&self, no: Vec2i, nw: int, nh: int) -> Map<ChunkCoord, Seq<Cell>> {
        let old = self.hash_view().chunks();
        Map::new(
            |k: ChunkCoord| old.contains_key(k) || self.has_outgoing(no, nw, nh, k),
            |k: ChunkCoord| if self.has_outgoing(no, nw, nh, k) { self.saved_slab(no, nw, nh, k) } else { old[k] },
        )
    }

    /// Cell of the moved grid at `p` (in the new grid): kept where the grids overlap, else loaded from
    /// a visited stored chunk when non-empty, else zero.
    pub open spec fn relocated_cell(&self, no: Vec2i, nw: int, nh: int, p: Vec2i) -> Cell {
        let mid = self.saved_chunks(no, nw, nh);
        let k = world_chunk_of(p);
        let i = world_chunk_index(p);
        if self.in_grid(p) {
            self.cell_at(p)
        } else if in_chunk_zone(no, nw, nh, k) && mid.contains_key(k) && mid[k][i]@.material != material::EMPTY {
            mid[k][i]
        } else {
            Cell(0)
        }
    }

    /// Stored chunks after the move: the saved chunks minus the visited ones wholly inside the new grid.
    pub open spec fn relocated_chunks(&self, no: Vec2i, nw: int, nh: int) -> Map<ChunkCoord, Seq<Cell>> {
        let mid = self.saved_chunks(no, nw, nh);
        mid.remove_keys(Set::new(|k: ChunkCoord| in_chunk_zone(no, nw, nh, k) && mid.contains_key(k) && chunk_within(k, no, nw, nh)))
    }

    /// Whether chunk `coord` (a visited chunk of the grid) has a cell leaving for the grid at `no`.
    fn chunk_has_outgoing(&self, coord: ChunkCoord, no: Vec2i, nw: i32, nh: i32) -> (b: bool)
        requires
            self.wf(),
            zone_geometry_ok(self.store_view().spec_origin(), self.store_view().spec_width(), self.store_view().spec_height()),
            in_chunk_zone(self.store_view().spec_origin(), self.store_view().spec_width(), self.store_view().spec_height(), coord),
        ensures b == self.has_outgoing(no, nw as int, nh as int, coord),
    {
        proof {
            lemma_zone_chunk(self.store_view().spec_origin(), self.store_view().spec_width(), self.store_view().spec_height(), coord);
        }
        let mut i: usize = 0;
        while i < 1024
            invariant
                self.wf(),
                in_chunk_zone(self.store_view().spec_origin(), self.store_view().spec_width(), self.store_view().spec_height(), coord),
                i32::MIN <= coord.x * 32, coord.x * 32 + 31 <= i32::MAX,
                i32::MIN <= coord.y * 32, coord.y * 32 + 31 <= i32::MAX,
                i <= 1024,
                forall|j: int| 0 <= j < i ==> !#[trigger] self.out_at(no, nw as int, nh as int, coord, j),
            decreases 1024 - i,
        {
            proof { lemma_chunk_point(coord, i as int); }
            let p = Vec2i::new(coord.x * 32 + (i % 32) as i32, coord.y * 32 + (i / 32) as i32);
            assert(p == chunk_point(coord, i as int));
            let inside_new = no.x as i64 <= p.x as i64 && (p.x as i64) < no.x as i64 + nw as i64
                && no.y as i64 <= p.y as i64 && (p.y as i64) < no.y as i64 + nh as i64;
            if !inside_new {
                match self.store.get_read(p) {
                    Some(c) => {
                        if c.material() != material::EMPTY {
                            proof { assert(self.out_at(no, nw as int, nh as int, coord, i as int)); }
                            return true;
                        }
                    }
                    None => {}
                }
            }
            i = i + 1;
        }
        false
    }

    /// Saves the leaving cells of visited chunk `coord` into the chunk store.
    fn write_outgoing(&mut self, coord: ChunkCoord, no: Vec2i, nw: i32, nh: i32)
        requires
            old(self).wf(),
            old(self).hash_view().slab_total() < usize::MAX,
            zone_geometry_ok(old(self).store_view().spec_origin(), old(self).store_view().spec_width(), old(self).store_view().spec_height()),
            in_chunk_zone(old(self).store_view().spec_origin(), old(self).store_view().spec_width(), old(self).store_view().spec_height(), coord),
        ensures
            final(self).wf(),
            final(self).store == old(self).store,
            final(self).same_setup(old(self)),
            final(self).rigid_ids == old(self).rigid_ids,
            final(self).chunk_dirty == old(self).chunk_dirty,
            final(self).chunk_physics_dirty == old(self).chunk_physics_dirty,
            final(self).chunk_awake == old(self).chunk_awake,
            final(self).chunk_awake_next == old(self).chunk_awake_next,
            final(self).hash_view().slab_total() <= old(self).hash_view().slab_total() + 1,
            final(self).hash_view().chunks() == old(self).hash_view().chunks().insert(coord, old(self).saved_slab(no, nw as int, nh as int, coord)),
    {
        let ghost w0 = *self;
        proof {
            lemma_zone_chunk(w0.store_view().spec_origin(), w0.store_view().spec_width(), w0.store_view().spec_height(), coord);
        }
        self.hash_chunks.ensure_chunk(coord);
        proof {
            crate::world::store::SpatialHashChunkStore::lemma_chunk_sizes(&w0.hash_chunks);
            crate::world::store::SpatialHashChunkStore::lemma_chunk_sizes(&self.hash_chunks);
        }
        let ghost base = self.hash_chunks.chunks()[coord];
        proof {
            assert(Seq::new(1024, |j: int| if j < 0 && w0.out_at(no, nw as int, nh as int, coord, j) { w0.cell_at(chunk_point(coord, j)) } else { base[j] }) =~= base);
            assert(self.hash_view().chunks() =~= w0.hash_view().chunks().insert(coord, base));
        }
        let mut i: usize = 0;
        while i < 1024
            invariant
                self.wf(),
                w0.wf(),
                self.store == w0.store,
                self.same_setup(&w0),
                self.rigid_ids == w0.rigid_ids,
                self.chunk_dirty == w0.chunk_dirty,
                self.chunk_physics_dirty == w0.chunk_physics_dirty,
                self.chunk_awake == w0.chunk_awake,
                self.chunk_awake_next == w0.chunk_awake_next,
                self.hash_view().slab_total() <= w0.hash_view().slab_total() + 1,
                in_chunk_zone(w0.store_view().spec_origin(), w0.store_view().spec_width(), w0.store_view().spec_height(), coord),
                i32::MIN <= coord.x * 32, coord.x * 32 + 31 <= i32::MAX,
                i32::MIN <= coord.y * 32, coord.y * 32 + 31 <= i32::MAX,
                base.len() == 1024,
                base == (if w0.hash_view().chunks().contains_key(coord) { w0.hash_view().chunks()[coord] } else { super::store::zero_slab() }),
                i <= 1024,
                self.hash_view().chunks() == w0.hash_view().chunks().insert(coord, Seq::new(1024, |j: int|
                    if j < i && w0.out_at(no, nw as int, nh as int, coord, j) { w0.cell_at(chunk_point(coord, j)) } else { base[j] })),
            decreases 1024 - i,
        {
            proof { lemma_chunk_point(coord, i as int); }
            let p = Vec2i::new(coord.x * 32 + (i % 32) as i32, coord.y * 32 + (i / 32) as i32);
            assert(p == chunk_point(coord, i as int));
            let inside_new = no.x as i64 <= p.x as i64 && (p.x as i64) < no.x as i64 + nw as i64
                && no.y as i64 <= p.y as i64 && (p.y as i64) < no.y as i64 + nh as i64;
            let ghost before = self.hash_view().chunks();
            let mut wrote = false;
            if !inside_new {
                match self.store.get_read(p) {
                    Some(c) => {
                        if c.material() != material::EMPTY {
                            self.hash_chunks.set_chunk_cell(coord, i, c);
                            wrote = true;
                        }
                    }
                    None => {}
                }
            }
            proof {
                assert(wrote == w0.out_at(no, nw as int, nh as int, coord, i as int));
                let cur = Seq::new(1024, |j: int|
                    if j < i && w0.out_at(no, nw as int, nh as int, coord, j) { w0.cell_at(chunk_point(coord, j)) } else { base[j] });
                let nxt = Seq::new(1024, |j: int|
                    if j < i + 1 && w0.out_at(no, nw as int, nh as int, coord, j) { w0.cell_at(chunk_point(coord, j)) } else { base[j] });
                assert(before.contains_key(coord) && before[coord] == cur);
                if wrote {
                    assert(cur.update(i as int, w0.cell_at(p)) =~= nxt);
                } else {
                    assert(cur =~= nxt);
                }
                assert(self.hash_view().chunks() =~= w0.hash_view().chunks().insert(coord, Seq::new(1024, |j: int|
                    if j < i + 1 && w0.out_at(no, nw as int, nh as int, coord, j) { w0.cell_at(chunk_point(coord, j)) } else { base[j] })));
            }
            i = i + 1;
        }
        proof {
            let target = w0.saved_slab(no, nw as int, nh as int, coord);
            assert(Seq::new(1024, |j: int| if j < 1024 && w0.out_at(no, nw as int, nh as int, coord, j) { w0.cell_at(chunk_point(coord, j)) } else { base[j] }) =~= target);
        }
    }
}

impl World {
    /// Saves every leaving cell of the visited chunks into the chunk store.
    fn save_outgoing(&mut self, no: Vec2i, nw: i32, nh: i32)
        requires
            old(self).wf(),
            zone_geometry_ok(old(self).store_view().spec_origin(), old(self).store_view().spec_width(), old(self).store_view().spec_height()),
            old(self).hash_view().slab_total() + old(self).slot_count() < usize::MAX,
        ensures
            final(self).wf(),
            final(self).store == old(self).store,
            final(self).same_setup(old(self)),
            final(self).rigid_ids == old(self).rigid_ids,
            final(self).chunk_dirty == old(self).chunk_dirty,
            final(self).chunk_physics_dirty == old(self).chunk_physics_dirty,
            final(self).chunk_awake == old(self).chunk_awake,
            final(self).chunk_awake_next == old(self).chunk_awake_next,
            final(self).hash_view().chunks() == old(self).saved_chunks(no, nw as int, nh as int),
            final(self).hash_view().slab_total() <= old(self).hash_view().slab_total() + old(self).slot_count(),
    {
        let ghost w0 = *self;
        let o = self.store.origin();
        let w = self.store.width();
        let h = self.store.height();
        let n = self.chunk_dirty.len();
        proof { lemma_chunk_counts(w as int, h as int); }
        let mut j: usize = 0;
        while j < n
            invariant
                self.wf(),
                w0.wf(),
                self.store == w0.store,
                self.same_setup(&w0),
                self.rigid_ids == w0.rigid_ids,
                self.chunk_dirty == w0.chunk_dirty,
                self.chunk_physics_dirty == w0.chunk_physics_dirty,
                self.chunk_awake == w0.chunk_awake,
                self.chunk_awake_next == w0.chunk_awake_next,
                o == w0.store_view().spec_origin(),
                w == w0.store_view().spec_width(),
                h == w0.store_view().spec_height(),
                zone_geometry_ok(o, w as int, h as int),
                n == chunks_for(w as int) * chunks_for(h as int),
                n == w0.slot_count(),
                w0.hash_view().slab_total() + w0.slot_count() < usize::MAX,
                j <= n,
                self.hash_view().slab_total() <= w0.hash_view().slab_total() + j,
                self.hash_view().chunks() == Map::new(
                    |c: ChunkCoord| w0.hash_view().chunks().contains_key(c)
                        || (zone_slot(o, w as int, c) < j && w0.has_outgoing(no, nw as int, nh as int, c)),
                    |c: ChunkCoord| if zone_slot(o, w as int, c) < j && w0.has_outgoing(no, nw as int, nh as int, c) {
                        w0.saved_slab(no, nw as int, nh as int, c)
                    } else {
                        w0.hash_view().chunks()[c]
                    }),
            decreases n - j,
        {
            let k = zone_chunk(o, w, h, j);
            let ghost before = *self;
            proof {
                assert forall|i: int| #[trigger] self.out_at(no, nw as int, nh as int, k, i) == w0.out_at(no, nw as int, nh as int, k, i) by {}
                assert(self.has_outgoing(no, nw as int, nh as int, k) == w0.has_outgoing(no, nw as int, nh as int, k)) by {
                    if self.has_outgoing(no, nw as int, nh as int, k) {
                        let i = choose|i: int| 0 <= i < 1024 && #[trigger] self.out_at(no, nw as int, nh as int, k, i);
                        assert(w0.out_at(no, nw as int, nh as int, k, i));
                    }
                    if w0.has_outgoing(no, nw as int, nh as int, k) {
                        let i = choose|i: int| 0 <= i < 1024 && #[trigger] w0.out_at(no, nw as int, nh as int, k, i);
                        assert(self.out_at(no, nw as int, nh as int, k, i));
                    }
                }
            }
            if self.chunk_has_outgoing(k, no, nw, nh) {
                self.write_outgoing(k, no, nw, nh);
                proof {
                    assert(before.saved_slab(no, nw as int, nh as int, k) =~= w0.saved_slab(no, nw as int, nh as int, k));
                }
            }
            proof {
                assert forall|c: ChunkCoord| in_chunk_zone(o, w as int, h as int, c) || !w0.has_outgoing(no, nw as int, nh as int, c) by {
                    if w0.has_outgoing(no, nw as int, nh as int, c) {
                        let i = choose|i: int| 0 <= i < 1024 && #[trigger] w0.out_at(no, nw as int, nh as int, c, i);
                    }
                }
                assert(self.hash_view().chunks() =~= Map::new(
                    |c: ChunkCoord| w0.hash_view().chunks().contains_key(c)
                        || (zone_slot(o, w as int, c) < j + 1 && w0.has_outgoing(no, nw as int, nh as int, c)),
                    |c: ChunkCoord| if zone_slot(o, w as int, c) < j + 1 && w0.has_outgoing(no, nw as int, nh as int, c) {
                        w0.saved_slab(no, nw as int, nh as int, c)
                    } else {
                        w0.hash_view().chunks()[c]
                    }));
            }
            j = j + 1;
        }
        proof {
            assert forall|c: ChunkCoord| w0.has_outgoing(no, nw as int, nh as int, c) implies zone_slot(o, w as int, c) < n by {
                let i = choose|i: int| 0 <= i < 1024 && #[trigger] w0.out_at(no, nw as int, nh as int, c, i);
                lemma_zone_chunk(o, w as int, h as int, c);
            }
            assert(self.hash_view().chunks() =~= w0.saved_chunks(no, nw as int, nh as int));
        }
    }
}

/// Grid cell `q` of the moved grid is filled from stored chunks `hc`: outside the old grid, in a visited
/// chunk that is stored and non-empty at `q`.
pub open spec fn incoming(hc: Map<ChunkCoord, Seq<Cell>>, oo: Vec2i, ow: int, oh: int, no: Vec2i, nw: int, nh: int, q: Vec2i) -> bool {
    &&& !grid_contains(oo, ow, oh, q)
    &&& in_chunk_zone(no, nw, nh, world_chunk_of(q))
    &&& hc.contains_key(world_chunk_of(q))
    &&& hc[world_chunk_of(q)][world_chunk_index(q)]@.material != material::EMPTY
}

impl World {
    /// Loads the non-empty stored cells of the visited chunks into the grid outside the old grid
    /// `oo`/`ow`×`oh`, then drops the stored chunks that lie wholly inside the grid.
    fn load_incoming(&mut self, oo: Vec2i, ow: i32, oh: i32)
        requires
            old(self).wf(),
            zone_geometry_ok(old(self).store_view().spec_origin(), old(self).store_view().spec_width(), old(self).store_view().spec_height()),
        ensures
            final(self).wf(),
            final(self).same_setup(old(self)),
            final(self).rigid_ids == old(self).rigid_ids,
            final(self).chunk_dirty == old(self).chunk_dirty,
            final(self).chunk_physics_dirty == old(self).chunk_physics_dirty,
            final(self).chunk_awake == old(self).chunk_awake,
            final(self).chunk_awake_next == old(self).chunk_awake_next,
            ({
                let hc = old(self).hash_view().chunks();
                let no = old(self).store_view().spec_origin();
                let nw = old(self).store_view().spec_width();
                let nh = old(self).store_view().spec_height();
                &&& forall|q: Vec2i| #[trigger] final(self).in_grid(q) ==> final(self).cell_at(q) == (
                        if incoming(hc, oo, ow as int, oh as int, no, nw, nh, q) { hc[world_chunk_of(q)][world_chunk_index(q)] }
                        else { old(self).cell_at(q) })
                &&& final(self).hash_view().chunks() == hc.remove_keys(Set::new(|k: ChunkCoord|
                        in_chunk_zone(no, nw, nh, k) && hc.contains_key(k) && chunk_within(k, no, nw, nh)))
            }),
            final(self).hash_view().slab_total() == old(self).hash_view().slab_total(),
    {
        let ghost w0 = *self;
        let ghost hc = w0.hash_view().chunks();
        let no = self.store.origin();
        let nw = self.store.width();
        let nh = self.store.height();
        let n = self.chunk_dirty.len();
        proof { lemma_chunk_counts(nw as int, nh as int); }
        let mut loaded: Vec<ChunkCoord> = Vec::new();
        let mut j: usize = 0;
        while j < n
            invariant
                self.wf(),
                w0.wf(),
                self.same_setup(&w0),
                self.hash_chunks == w0.hash_chunks,
                self.rigid_ids == w0.rigid_ids,
                self.chunk_dirty == w0.chunk_dirty,
                self.chunk_physics_dirty == w0.chunk_physics_dirty,
                self.chunk_awake == w0.chunk_awake,
                self.chunk_awake_next == w0.chunk_awake_next,
                hc == w0.hash_view().chunks(),
                no == w0.store_view().spec_origin(),
                nw == w0.store_view().spec_width(),
                nh == w0.store_view().spec_height(),
                zone_geometry_ok(no, nw as int, nh as int),
                n == chunks_for(nw as int) * chunks_for(nh as int),
                j <= n,
                forall|q: Vec2i| #[trigger] self.in_grid(q) ==> self.cell_at(q) == (
                    if incoming(hc, oo, ow as int, oh as int, no, nw as int, nh as int, q) && zone_slot(no, nw as int, world_chunk_of(q)) < j {
                        hc[world_chunk_of(q)][world_chunk_index(q)]
                    } else {
                        w0.cell_at(q)
                    }),
                loaded@.no_duplicates(),
                forall|k: ChunkCoord| #[trigger] loaded@.contains(k) <==> (in_chunk_zone(no, nw as int, nh as int, k)
                    && zone_slot(no, nw as int, k) < j && hc.contains_key(k) && chunk_within(k, no, nw as int, nh as int)),
            decreases n - j,
        {
            let k = zone_chunk(no, nw, nh, j);
            proof {
                lemma_zone_chunk(no, nw as int, nh as int, k);
                crate::world::store::SpatialHashChunkStore::lemma_chunk_sizes(&self.hash_chunks);
            }
            let ghost start = *self;
            let ghost old_loaded = loaded@;
            match self.hash_chunks.get_chunk(k) {
                Some(slab) => {
                    let mut i: usize = 0;
                    while i < 1024
                        invariant
                            self.wf(),
                            w0.wf(),
                            self.same_setup(&w0),
                            self.hash_chunks == w0.hash_chunks,
                            self.rigid_ids == w0.rigid_ids,
                            self.chunk_dirty == w0.chunk_dirty,
                            self.chunk_physics_dirty == w0.chunk_physics_dirty,
                            self.chunk_awake == w0.chunk_awake,
                            self.chunk_awake_next == w0.chunk_awake_next,
                            hc == w0.hash_view().chunks(),
                            no == w0.store_view().spec_origin(),
                            nw == w0.store_view().spec_width(),
                            nh == w0.store_view().spec_height(),
                            in_chunk_zone(no, nw as int, nh as int, k),
                            zone_slot(no, nw as int, k) == j,
                            forall|c: ChunkCoord| in_chunk_zone(no, nw as int, nh as int, c) && #[trigger] zone_slot(no, nw as int, c) == j ==> c == k,
                            i32::MIN <= k.x * 32, k.x * 32 + 31 <= i32::MAX,
                            i32::MIN <= k.y * 32, k.y * 32 + 31 <= i32::MAX,
                            hc.contains_key(k),
                            slab@ == hc[k],
                            slab@.len() == 1024,
                            i <= 1024,
                            forall|q: Vec2i| #[trigger] self.in_grid(q) ==> self.cell_at(q) == (
                                if incoming(hc, oo, ow as int, oh as int, no, nw as int, nh as int, q)
                                    && (zone_slot(no, nw as int, world_chunk_of(q)) < j
                                        || (world_chunk_of(q) == k && world_chunk_index(q) < i)) {
                                    hc[world_chunk_of(q)][world_chunk_index(q)]
                                } else {
                                    w0.cell_at(q)
                                }),
                        decreases 1024 - i,
                    {
                        proof { lemma_chunk_point(k, i as int); }
                        let p = Vec2i::new(k.x * 32 + (i % 32) as i32, k.y * 32 + (i / 32) as i32);
                        assert(p == chunk_point(k, i as int));
                        let in_old = oo.x as i64 <= p.x as i64 && (p.x as i64) < oo.x as i64 + ow as i64
                            && oo.y as i64 <= p.y as i64 && (p.y as i64) < oo.y as i64 + oh as i64;
                        let c = slab[i];
                        let ghost before = *self;
                        if !in_old && c.material() != material::EMPTY {
                            let ok = self.store.set_read(p, c);
                            proof {
                                if ok {
                                    before.store.lemma_read_at_update(&self.store, p, c);
                                }
                                assert(self.rigid_map() =~= before.rigid_map());
                            }
                        }
                        proof {
                            assert(incoming(hc, oo, ow as int, oh as int, no, nw as int, nh as int, p) == (!in_old && c@.material != material::EMPTY));
                            assert forall|q: Vec2i| #[trigger] self.in_grid(q) implies self.cell_at(q) == (
                                if incoming(hc, oo, ow as int, oh as int, no, nw as int, nh as int, q)
                                    && (zone_slot(no, nw as int, world_chunk_of(q)) < j
                                        || (world_chunk_of(q) == k && world_chunk_index(q) < i + 1)) {
                                    hc[world_chunk_of(q)][world_chunk_index(q)]
                                } else {
                                    w0.cell_at(q)
                                }) by {
                                assert(before.in_grid(q));
                                if q != p {
                                    assert(self.cell_at(q) == before.cell_at(q));
                                    if world_chunk_of(q) == k && world_chunk_index(q) == i {
                                        lemma_point_chunk(q);
                                    }
                                }
                            }
                        }
                        i = i + 1;
                    }
                    let inside = no.x as i64 <= k.x as i64 * 32 && k.x as i64 * 32 + 31 <= no.x as i64 + nw as i64 - 1
                        && no.y as i64 <= k.y as i64 * 32 && k.y as i64 * 32 + 31 <= no.y as i64 + nh as i64 - 1;
                    if inside {
                        proof {
                            assert(!loaded@.contains(k));
                        }
                        loaded.push(k);
                    }
                }
                None => {}
            }
            proof {
                assert forall|q: Vec2i| #[trigger] self.in_grid(q) implies self.cell_at(q) == (
                    if incoming(hc, oo, ow as int, oh as int, no, nw as int, nh as int, q) && zone_slot(no, nw as int, world_chunk_of(q)) < j + 1 {
                        hc[world_chunk_of(q)][world_chunk_index(q)]
                    } else {
                        w0.cell_at(q)
                    }) by {
                    lemma_point_chunk(q);
                }
                let pushed = hc.contains_key(k) && chunk_within(k, no, nw as int, nh as int);
                if pushed {
                    assert(loaded@ =~= old_loaded.push(k));
                } else {
                    assert(loaded@ == old_loaded);
                }
                assert forall|c: ChunkCoord| #[trigger] loaded@.contains(c) <==> (in_chunk_zone(no, nw as int, nh as int, c)
                    && zone_slot(no, nw as int, c) < j + 1 && hc.contains_key(c) && chunk_within(c, no, nw as int, nh as int)) by {
                    if pushed {
                        if loaded@.contains(c) && c != k {
                            let a = choose|a: int| 0 <= a < loaded@.len() && loaded@[a] == c;
                            assert(old_loaded[a] == c);
                        }
                        if old_loaded.contains(c) {
                            let a = choose|a: int| 0 <= a < old_loaded.len() && old_loaded[a] == c;
                            assert(loaded@[a] == c);
                        }
                        if c == k { assert(loaded@[loaded@.len() - 1] == c); }
                    }
                    if in_chunk_zone(no, nw as int, nh as int, c) && zone_slot(no, nw as int, c) == j {
                        assert(c == k);
                    }
                }
            }
            j = j + 1;
        }
        let ghost removed = Set::new(|k: ChunkCoord| in_chunk_zone(no, nw as int, nh as int, k) && hc.contains_key(k) && chunk_within(k, no, nw as int, nh as int));
        let ghost mid_store = self.store;
        let ghost wmid = *self;
        proof {
            assert forall|q: Vec2i| #[trigger] self.in_grid(q) implies self.cell_at(q) == (
                if incoming(hc, oo, ow as int, oh as int, no, nw as int, nh as int, q) { hc[world_chunk_of(q)][world_chunk_index(q)] }
                else { w0.cell_at(q) }) by {
                if incoming(hc, oo, ow as int, oh as int, no, nw as int, nh as int, q) {
                    lemma_zone_chunk(no, nw as int, nh as int, world_chunk_of(q));
                }
            }
            assert forall|k: ChunkCoord| #[trigger] loaded@.contains(k) <==> removed.contains(k) by {
                if in_chunk_zone(no, nw as int, nh as int, k) { lemma_zone_chunk(no, nw as int, nh as int, k); }
            }
        }
        let mut t: usize = 0;
        while t < loaded.len()
            invariant
                self.wf(),
                w0.wf(),
                self.same_setup(&w0),
                self.rigid_ids == w0.rigid_ids,
                self.chunk_dirty == w0.chunk_dirty,
                self.chunk_physics_dirty == w0.chunk_physics_dirty,
                self.chunk_awake == w0.chunk_awake,
                self.chunk_awake_next == w0.chunk_awake_next,
                t <= loaded@.len(),
                self.store == mid_store,
                self.hash_view().chunks() == hc.remove_keys(loaded@.take(t as int).to_set()),
                self.hash_view().slab_total() == w0.hash_view().slab_total(),
            decreases loaded@.len() - t,
        {
            let k = loaded[t];
            let ghost cells_before = *self;
            self.hash_chunks.remove_chunk(k);
            proof {
                let t0 = loaded@.take(t as int);
                let t1 = loaded@.take(t as int + 1);
                assert(t1 =~= t0.push(k));
                assert forall|c: ChunkCoord| #[trigger] t1.to_set().contains(c) <==> t0.to_set().insert(k).contains(c) by {
                    if t1.contains(c) {
                        let a = choose|a: int| 0 <= a < t1.len() && t1[a] == c;
                        if a < t { assert(t0[a] == c); }
                    }
                    if t0.contains(c) {
                        let a = choose|a: int| 0 <= a < t0.len() && t0[a] == c;
                        assert(t1[a] == c);
                    }
                    if c == k { assert(t1[t as int] == c); }
                }
                assert(t1.to_set() =~= t0.to_set().insert(k));
                assert(self.hash_view().chunks() =~= hc.remove_keys(loaded@.take(t as int + 1).to_set()));
                assert(self.rigid_map() =~= cells_before.rigid_map());
                assert forall|q: Vec2i| #[trigger] self.in_grid(q) implies self.cell_at(q) == cells_before.cell_at(q) by {}
            }
            t = t + 1;
        }
        proof {
            assert(loaded@.take(loaded@.len() as int) =~= loaded@);
            assert(loaded@.to_set() =~= removed);
            assert forall|q: Vec2i| #[trigger] self.in_grid(q) implies self.cell_at(q) == (
                if incoming(hc, oo, ow as int, oh as int, no, nw as int, nh as int, q) { hc[world_chunk_of(q)][world_chunk_index(q)] }
                else { w0.cell_at(q) }) by {
                assert(wmid.in_grid(q));
                assert(self.cell_at(q) == wmid.cell_at(q));
            }
        }
    }
}

impl World {
    /// Chunk bookkeeping for a freshly sized grid: every chunk dirty and awake, no wake requests.
    pub open spec fn fresh_chunk_flags(&self) -> bool {
        &&& self.dirty_view() == Seq::new(self.slot_count() as nat, |i: int| true)
        &&& self.physics_dirty_view() == Seq::new(self.slot_count() as nat, |i: int| true)
        &&& self.awake_view() == Seq::new(self.slot_count() as nat, |i: int| WAKE_COOLDOWN)
        &&& self.awake_next_view() == Seq::new(self.slot_count() as nat, |i: int| false)
    }

    /// Recomputes the chunk counts from the grid size and resets the chunk flags.
    fn reset_chunk_meta(&mut self)
        requires
            old(self).store.wf(),
            old(self).chunk_size == CHUNK_SIZE,
            0 < old(self).region_size,
            old(self).hash_chunks.wf(),
            old(self).material_props@.len() == 1024,
            old(self).material_rules@.len() == 1024,
            old(self).reactions@.len() == 1024 * 1024,
            0 <= old(self).active_radius_regions <= 1,
        ensures
            final(self).wf(),
            final(self).fresh_chunk_flags(),
            final(self).store == old(self).store,
            final(self).hash_chunks == old(self).hash_chunks,
            final(self).rigid_ids == old(self).rigid_ids,
            final(self).spec_chunks_x() == chunks_for(old(self).store.spec_width()),
            final(self).spec_chunks_y() == chunks_for(old(self).store.spec_height()),
            final(self).props_view() == old(self).props_view(),
            final(self).rules_view() == old(self).rules_view(),
            final(self).reactions_view() == old(self).reactions_view(),
            final(self).spec_ambient() == old(self).spec_ambient(),
            final(self).spec_region_size() == old(self).spec_region_size(),
            final(self).spec_focus() == old(self).spec_focus(),
            final(self).spec_solid_bounds() == old(self).spec_solid_bounds(),
            final(self).active_region_set() == old(self).active_region_set(),
            final(self).spec_active_radius() == old(self).spec_active_radius(),
            final(self).spec_debug_pass_enabled() == old(self).spec_debug_pass_enabled(),
            final(self).debug_pass_view() == old(self).debug_pass_view(),
            final(self).spec_debug_chunk_highlight() == old(self).spec_debug_chunk_highlight(),
            final(self).spec_debug_pass_batch_outlines() == old(self).spec_debug_pass_batch_outlines(),
    {
        let w = self.store.width();
        let h = self.store.height();
        proof { lemma_chunk_counts(w as int, h as int); }
        let cx = ((w as i64 + 31) / 32) as i32;
        let cy = ((h as i64 + 31) / 32) as i32;
        proof {
            assert(cx <= w && cy <= h);
            assert(cx * cy <= w * h) by (nonlinear_arith) requires 0 <= cx <= w, 0 <= cy <= h;
        }
        let n = (cx as usize) * (cy as usize);
        self.chunks_x = cx;
        self.chunks_y = cy;
        self.chunk_dirty = filled_bools(n, true);
        self.chunk_physics_dirty = filled_bools(n, true);
        self.chunk_awake = filled_bytes(n, WAKE_COOLDOWN);
        self.chunk_awake_next = filled_bools(n, false);
        proof {
            assert(self.rigid_map() =~= old(self).rigid_map());
            assert(self.active_region_set() =~= old(self).active_region_set());
        }
    }

    /// Fixes the simulation bounds; when they change the grid's origin or size, the grid is rebuilt
    /// zeroed at the new geometry, the chunk store is emptied and the chunk flags are reset.
    pub fn set_solid_bounds(&mut self, bounds: RectI)
        requires
            old(self).wf(),
            ({
                let w = bounds.max.x - bounds.min.x + 1;
                let h = bounds.max.y - bounds.min.y + 1;
                &&& 0 <= w && 0 <= h
                &&& w * h <= i32::MAX
                &&& grid_geometry_ok(bounds.min, w, h)
            }),
        ensures
            final(self).wf(),
            final(self).spec_solid_bounds() == Some(bounds),
            final(self).rigid_map() == old(self).rigid_map(),
            final(self).props_view() == old(self).props_view(),
            final(self).rules_view() == old(self).rules_view(),
            final(self).reactions_view() == old(self).reactions_view(),
            final(self).spec_ambient() == old(self).spec_ambient(),
            final(self).spec_debug_pass_enabled() == old(self).spec_debug_pass_enabled(),
            final(self).debug_pass_view() == old(self).debug_pass_view(),
            final(self).active_region_set() == old(self).active_region_set(),
            final(self).store_view().spec_origin() == bounds.min,
            final(self).store_view().spec_width() == bounds.max.x - bounds.min.x + 1,
            final(self).store_view().spec_height() == bounds.max.y - bounds.min.y + 1,
            ({
                let same = old(self).store_view().spec_origin() == bounds.min
                    && old(self).store_view().spec_width() == bounds.max.x - bounds.min.x + 1
                    && old(self).store_view().spec_height() == bounds.max.y - bounds.min.y + 1;
                &&& same ==> final(self).store_view() == old(self).store_view()
                    && final(self).hash_view() == old(self).hash_view()
                    && final(self).dirty_view() == old(self).dirty_view()
                    && final(self).physics_dirty_view() == old(self).physics_dirty_view()
                    && final(self).awake_view() == old(self).awake_view()
                    && final(self).awake_next_view() == old(self).awake_next_view()
                &&& !same ==> (forall|p: Vec2i| #[trigger] final(self).in_grid(p) ==> final(self).cell_at(p) == Cell(0))
                    && final(self).hash_view().chunks() == Map::<ChunkCoord, Seq<Cell>>::empty()
                    && final(self).fresh_chunk_flags()
            }),
    {
        self.solid_bounds = Some(bounds);
        let new_w = bounds.max.x - bounds.min.x + 1;
        let new_h = bounds.max.y - bounds.min.y + 1;
        if new_w != self.store.width() || new_h != self.store.height() || bounds.min != self.store.origin() {
            self.store.resize(new_w, new_h, bounds.min);
            proof {
                lemma_chunk_counts(new_w as int, new_h as int);
                assert(new_w * new_h >= 0) by (nonlinear_arith) requires new_w >= 0, new_h >= 0;
            }
            let cx = ((new_w as i64 + 31) / 32) as usize;
            let cy = ((new_h as i64 + 31) / 32) as usize;
            proof {
                let a = cx as int;
                let b = cy as int;
                let wi = new_w as int;
                let hi = new_h as int;
                assert((a * 32) * (b * 32) <= (wi + 31) * (hi + 31)) by (nonlinear_arith)
                    requires 0 <= a * 32 <= wi + 31, 0 <= b * 32 <= hi + 31;
                assert((wi + 31) * (hi + 31) == wi * hi + 31 * wi + 31 * hi + 961) by (nonlinear_arith);
                assert((a * 32) * (b * 32) == 1024 * (a * b)) by (nonlinear_arith);
                assert(a * b <= 0x800_0000);
            }
            let cap = if cx * cy > 1 { cx * cy } else { 1 };
            self.hash_chunks = SpatialHashChunkStore::with_capacity(cap * 4);
            self.reset_chunk_meta();
            proof {
                assert forall|p: Vec2i| #[trigger] self.in_grid(p) implies self.cell_at(p) == Cell(0) by {
                    super::store::lemma_grid_index_bounds(bounds.min, new_w as int, new_h as int, p);
                }
            }
        }
        proof {
            assert(self.rigid_map() =~= old(self).rigid_map());
            assert(self.active_region_set() =~= old(self).active_region_set());
        }
    }

    /// Whether `center` and half-extents `half_w`×`half_h` satisfy what [`World::relocate_around`]
    /// asks of its arguments and of this world.
    pub open spec fn can_relocate_to(&self, center: Vec2i, half_w: int, half_h: int) -> bool {
        &&& 0 <= half_w && 0 <= half_h
        &&& i32::MIN <= center.x - half_w && i32::MIN <= center.y - half_h
        &&& (2 * half_w) * (2 * half_h) <= i32::MAX
        &&& zone_geometry_ok(Vec2i { x: (center.x - half_w) as i32, y: (center.y - half_h) as i32 }, 2 * half_w, 2 * half_h)
        &&& zone_geometry_ok(self.store_view().spec_origin(), self.store_view().spec_width(), self.store_view().spec_height())
        &&& self.hash_view().slab_total() + self.slot_count() < usize::MAX
    }

    /// Re-centres the grid on `camera_center` when [`relocation_half_sizes`] asks for it and the
    /// new grid fits ([`World::can_relocate_to`]); returns whether the grid moved. Otherwise the
    /// world is left as it was.
    pub fn relocate_if_needed(&mut self, camera_center: Vec2i, screen_w: i32, screen_h: i32) -> (moved: bool)
        requires
            old(self).wf(),
            0 <= screen_w, 0 <= screen_h,
            screen_w * 3 <= i32::MAX, screen_h * 3 <= i32::MAX,
        ensures
            ({
                let o = old(self).store_view().spec_origin();
                let r = spec_relocation_half_sizes(o, old(self).store_view().spec_width(), old(self).store_view().spec_height(),
                    camera_center, screen_w as int, screen_h as int);
                &&& (r is None || !old(self).can_relocate_to(camera_center, r.unwrap().0, r.unwrap().1)) ==> !moved && *final(self) == *old(self)
                &&& r is Some && old(self).can_relocate_to(camera_center, r.unwrap().0, r.unwrap().1) ==> ({
                    let hs = r.unwrap();
                    let no = Vec2i { x: (camera_center.x - hs.0) as i32, y: (camera_center.y - hs.1) as i32 };
                    let nw = 2 * hs.0;
                    let nh = 2 * hs.1;
                    &&& moved == !(o == no && old(self).store_view().spec_width() == nw && old(self).store_view().spec_height() == nh)
                    &&& !moved ==> *final(self) == *old(self)
                    &&& moved ==> {
                        &&& final(self).wf()
                        &&& final(self).store_view().spec_origin() == no
                        &&& final(self).store_view().spec_width() == nw
                        &&& final(self).store_view().spec_height() == nh
                        &&& forall|p: Vec2i| #[trigger] final(self).in_grid(p) ==> final(self).cell_at(p) == old(self).relocated_cell(no, nw, nh, p)
                        &&& final(self).hash_view().chunks() == old(self).relocated_chunks(no, nw, nh)
                    }
                })
            }),
    {
        let origin = self.grid_origin();
        let gw = self.grid_width();
        let gh = self.grid_height();
        match relocation_half_sizes(origin, gw, gh, camera_center, screen_w, screen_h) {
            None => false,
            Some((half_w, half_h)) => {
                let nx = camera_center.x as i64 - half_w as i64;
                let ny = camera_center.y as i64 - half_h as i64;
                if nx < i32::MIN as i64 || ny < i32::MIN as i64 {
                    return false;
                }
                proof {
                    assert((2 * half_w) * (2 * half_h) <= 0x4000_0000_0000_0000) by (nonlinear_arith)
                        requires 0 <= half_w <= 0x4000_0000, 0 <= half_h <= 0x4000_0000;
                }
                let area = (2 * half_w as i64) * (2 * half_h as i64);
                if area > i32::MAX as i64 {
                    return false;
                }
                let no = Vec2i::new(nx as i32, ny as i32);
                if !zone_geometry_fits(no, 2 * half_w as i64, 2 * half_h as i64) || !zone_geometry_fits(origin, gw as i64, gh as i64) {
                    return false;
                }
                if !self.chunk_store_has_room() {
                    return false;
                }
                self.relocate_around(camera_center, half_w, half_h)
            }
        }
    }

    /// The grid of a well-formed world keeps every cell coordinate in `i32`.
    pub proof fn lemma_grid_geometry(&self)
        requires self.wf(),
        ensures grid_geometry_ok(self.store_view().spec_origin(), self.store_view().spec_width(), self.store_view().spec_height()),
    {
    }

    /// Whether the chunk store can still take one slab for every chunk slot of the grid, which
    /// [`World::relocate_around`] needs.
    pub fn chunk_store_has_room(&self) -> (b: bool)
        requires self.wf(),
        ensures b == (self.hash_view().slab_total() + self.slot_count() < usize::MAX),
    {
        let slabs = self.hash_chunks.slab_total_count() as i128;
        let cx = self.chunks_x;
        let cy = self.chunks_y;
        proof {
            assert(0 <= cx && 0 <= cy);
            assert(cx * cy <= 0x4000_0000_0000_0000) by (nonlinear_arith)
                requires 0 <= cx <= i32::MAX, 0 <= cy <= i32::MAX;
        }
        let slots = cx as i128 * cy as i128;
        proof {
            assert(0 <= self.chunks_x <= i32::MAX && 0 <= self.chunks_y <= i32::MAX ==>
                self.chunks_x as i128 * self.chunks_y as i128 <= 0x4000_0000_0000_0000) by (nonlinear_arith);
        }
        slabs + slots < usize::MAX as i128
    }

    /// Re-centres the dense grid on `center` with half-extents `half_w`×`half_h`. Non-empty cells that
    /// leave the grid are saved into the chunk store (for the chunks visited from the old origin);
    /// cells that enter it are loaded from the stored chunks visited from the new origin, and stored
    /// chunks wholly inside the new grid are dropped. The chunk flags are reset and the solid bounds
    /// cleared. Returns whether the grid moved or changed size.
    pub fn relocate_around(&mut self, center: Vec2i, half_w: i32, half_h: i32) -> (changed: bool)
        requires
            old(self).wf(),
            0 <= half_w, 0 <= half_h,
            i32::MIN <= center.x - half_w, i32::MIN <= center.y - half_h,
            (2 * half_w) * (2 * half_h) <= i32::MAX,
            zone_geometry_ok(Vec2i { x: (center.x - half_w) as i32, y: (center.y - half_h) as i32 }, 2 * half_w, 2 * half_h),
            zone_geometry_ok(old(self).store_view().spec_origin(), old(self).store_view().spec_width(), old(self).store_view().spec_height()),
            old(self).hash_view().slab_total() + old(self).slot_count() < usize::MAX,
        ensures
            ({
                let no = Vec2i { x: (center.x - half_w) as i32, y: (center.y - half_h) as i32 };
                let nw = 2 * half_w;
                let nh = 2 * half_h;
                let same = old(self).store_view().spec_origin() == no && old(self).store_view().spec_width() == nw
                    && old(self).store_view().spec_height() == nh;
                &&& changed == !same
                &&& !changed ==> *final(self) == *old(self)
                &&& changed ==> {
                    &&& final(self).wf()
                    &&& final(self).store_view().spec_origin() == no
                    &&& final(self).store_view().spec_width() == nw
                    &&& final(self).store_view().spec_height() == nh
                    &&& forall|p: Vec2i| #[trigger] final(self).in_grid(p) ==> final(self).cell_at(p) == old(self).relocated_cell(no, nw, nh, p)
                    &&& final(self).hash_view().chunks() == old(self).relocated_chunks(no, nw, nh)
                    &&& final(self).hash_view().slab_total() <= old(self).hash_view().slab_total() + old(self).slot_count()
                    &&& final(self).slot_count() == chunks_for(nw) * chunks_for(nh)
                    &&& final(self).fresh_chunk_flags()
                    &&& final(self).spec_solid_bounds() is None
                    &&& final(self).rigid_map() == old(self).rigid_map()
                    &&& final(self).props_view() == old(self).props_view()
                    &&& final(self).rules_view() == old(self).rules_view()
                    &&& final(self).reactions_view() == old(self).reactions_view()
                    &&& final(self).spec_ambient() == old(self).spec_ambient()
                    &&& final(self).active_region_set() == old(self).active_region_set()
                    &&& final(self).spec_debug_pass_enabled() == old(self).spec_debug_pass_enabled()
                    &&& old(self).spec_debug_pass_enabled() ==> final(self).debug_pass_view() == Seq::new((nw * nh) as nat, |i: int| 0xFFu8)
                    &&& !old(self).spec_debug_pass_enabled() ==> final(self).debug_pass_view() == old(self).debug_pass_view()
                }
            }),
    {
        let new_origin = Vec2i::new(center.x - half_w, center.y - half_h);
        let new_w = half_w * 2;
        let new_h = half_h * 2;
        if new_origin == self.store.origin() && new_w == self.store.width() && new_h == self.store.height() {
            return false;
        }
        let ghost w0 = *self;
        let old_origin = self.store.origin();
        let old_w = self.store.width();
        let old_h = self.store.height();
        self.save_outgoing(new_origin, new_w, new_h);
        let ghost w1 = *self;
        let _ = self.store.relocate(new_origin, new_w, new_h);
        let ghost wr = self.store;
        proof {
            assert(self.hash_chunks.wf());
        }
        self.reset_chunk_meta();
        let ghost w2 = *self;
        self.load_incoming(old_origin, old_w, old_h);
        let ghost w3 = *self;
        self.solid_bounds = None;
        if self.debug_pass_enabled {
            proof {
                assert(new_w * new_h >= 0) by (nonlinear_arith) requires new_w >= 0, new_h >= 0;
            }
            self.debug_pass = filled_bytes((new_w as usize) * (new_h as usize), 0xFF);
        }
        proof {
            let no = new_origin;
            let mid = w0.saved_chunks(no, new_w as int, new_h as int);
            assert(w2.hash_view().chunks() == mid);
            assert(w2.store == wr);
            assert forall|p: Vec2i| #[trigger] self.in_grid(p) implies self.cell_at(p) == w0.relocated_cell(no, new_w as int, new_h as int, p) by {
                assert(w2.in_grid(p));
                assert(wr.contains(p));
                assert(w2.cell_at(p) == wr.read_at(p));
                assert(wr.read_at(p) == if w1.store.contains(p) { w1.store.read_at(p) } else { Cell(0) });
                assert(w1.store == w0.store);
                assert(self.cell_at(p) == w3.cell_at(p));
                assert(w3.cell_at(p) == (if incoming(mid, old_origin, old_w as int, old_h as int, no, new_w as int, new_h as int, p)
                    { mid[world_chunk_of(p)][world_chunk_index(p)] } else { w2.cell_at(p) }));
                assert(w0.in_grid(p) == grid_contains(old_origin, old_w as int, old_h as int, p));
            }
            assert(self.rigid_map() =~= w0.rigid_map());
            assert(self.active_region_set() =~= w0.active_region_set());
        }
        true
    }
}

/// For a grid whose origin is chunk-aligned, every grid cell's world chunk is visited.
proof fn lemma_aligned_zone(o: Vec2i, w: int, h: int, p: Vec2i)
    requires
        o.x % 32 == 0, o.y % 32 == 0,
        grid_contains(o, w, h, p),
    ensures in_chunk_zone(o, w, h, world_chunk_of(p)),
{
    vstd::arithmetic::div_mod::lemma_fundamental_div_mod(o.x as int, 32);
    vstd::arithmetic::div_mod::lemma_fundamental_div_mod(o.y as int, 32);
    vstd::arithmetic::div_mod::lemma_fundamental_div_mod(w + 31, 32);
    vstd::arithmetic::div_mod::lemma_mod_bound(w + 31, 32);
    vstd::arithmetic::div_mod::lemma_fundamental_div_mod(h + 31, 32);
    vstd::arithmetic::div_mod::lemma_mod_bound(h + 31, 32);
    lemma_point_chunk(p);
}

/// Moving the grid away and back again restores every cell of the first grid that held something,
/// and every cell that both grids share, provided the first grid's origin is chunk-aligned.
/// `w1` is the world after the first move (to origin `ob`, size `wb`×`hb`) and `w2` after the move
/// back, each as [`World::relocate_around`] describes.
pub proof fn lemma_relocate_round_trip(w0: &World, w1: &World, w2: &World, p: Vec2i)
    requires
        w0.wf(),
        w0.store_view().spec_origin().x % 32 == 0,
        w0.store_view().spec_origin().y % 32 == 0,
        forall|q: Vec2i| #[trigger] w1.in_grid(q) ==> w1.cell_at(q) == w0.relocated_cell(
            w1.store_view().spec_origin(), w1.store_view().spec_width(), w1.store_view().spec_height(), q),
        w1.hash_view().chunks() == w0.relocated_chunks(
            w1.store_view().spec_origin(), w1.store_view().spec_width(), w1.store_view().spec_height()),
        w2.store_view().spec_origin() == w0.store_view().spec_origin(),
        w2.store_view().spec_width() == w0.store_view().spec_width(),
        w2.store_view().spec_height() == w0.store_view().spec_height(),
        forall|q: Vec2i| #[trigger] w2.in_grid(q) ==> w2.cell_at(q) == w1.relocated_cell(
            w0.store_view().spec_origin(), w0.store_view().spec_width(), w0.store_view().spec_height(), q),
        w0.in_grid(p),
        w0.cell_at(p)@.material != material::EMPTY || w1.in_grid(p),
    ensures
        w2.cell_at(p) == w0.cell_at(p),
{
    let oa = w0.store_view().spec_origin();
    let wa = w0.store_view().spec_width();
    let ha = w0.store_view().spec_height();
    let ob = w1.store_view().spec_origin();
    let wb = w1.store_view().spec_width();
    let hb = w1.store_view().spec_height();
    assert(w2.in_grid(p));
    if w1.in_grid(p) {
        assert(w1.cell_at(p) == w0.cell_at(p));
    } else {
        let k = world_chunk_of(p);
        let i = world_chunk_index(p);
        lemma_point_chunk(p);
        lemma_aligned_zone(oa, wa, ha, p);
        assert(w0.out_at(ob, wb, hb, k, i));
        assert(w0.has_outgoing(ob, wb, hb, k));
        let mid1 = w0.saved_chunks(ob, wb, hb);
        assert(mid1.contains_key(k));
        assert(mid1[k][i] == w0.cell_at(p));
        assert(!chunk_within(k, ob, wb, hb));
        assert(w1.hash_view().chunks().contains_key(k));
        assert(w1.hash_view().chunks()[k] == mid1[k]);
        let mid2 = w1.saved_chunks(oa, wa, ha);
        assert(!w1.out_at(oa, wa, ha, k, i));
        assert(mid2.contains_key(k));
        assert(mid2[k][i] == w0.cell_at(p));
    }
}

impl World {
    /// Region coordinate holding cell `p`.
    pub open spec fn region_of(&self, p: Vec2i) -> Vec2i {
        Vec2i {
            x: spec_div_floor(p.x as int, self.spec_region_size()) as i32,
            y: spec_div_floor(p.y as int, self.spec_region_size()) as i32,
        }
    }

    /// Region `r` is within the active radius of the focus region.
    pub open spec fn desired_region(&self, r: Vec2i) -> bool {
        let f = self.region_of(self.spec_focus());
        &&& f.x - self.spec_active_radius() <= r.x <= f.x + self.spec_active_radius()
        &&& f.y - self.spec_active_radius() <= r.y <= f.y + self.spec_active_radius()
    }

    /// The regions around the focus region have coordinates in range.
    pub open spec fn focus_regions_fit(&self) -> bool {
        let f = self.region_of(self.spec_focus());
        &&& i32::MIN + 1 <= spec_div_floor(self.spec_focus().x as int, self.spec_region_size()) <= i32::MAX - 1
        &&& i32::MIN + 1 <= spec_div_floor(self.spec_focus().y as int, self.spec_region_size()) <= i32::MAX - 1
    }

    /// Keys of the active regions, each once.
    fn active_keys(&self) -> (v: Vec<u64>)
        ensures
            v@.to_set() == self.active_regions@,
            v@.no_duplicates(),
    {
        let mut v: Vec<u64> = Vec::new();
        proof {
            vstd::std_specs::hash::axiom_spec_hash_keys_iter(&self.active_regions);
        }
        for k in it: self.active_regions.iter()
            invariant
                v@ == it.seq().take(it.index() as int).unref(),
                it.seq().unref().to_set() == self.active_regions@,
                it.seq().unref().no_duplicates(),
                it.index() == it.seq().len() ==> v@.to_set() == self.active_regions@ && v@.no_duplicates(),
        {
            v.push(*k);
            assert(it.index() + 1 == it.seq().len() ==> v@ =~= it.seq().unref());
        }
        v
    }

    /// Brings the active regions in line with the focus: every active region outside the radius is
    /// dropped (a `RegionSaved` event each), then every missing region inside it is added (a
    /// `RegionLoaded` event each). Saving and loading the region files is the caller's part.
    fn sync_streaming_regions(&mut self) -> (events: Vec<WorldEvent>)
        requires old(self).wf(), old(self).focus_regions_fit(),
        ensures
            final(self).wf(),
            final(self).store_view() == old(self).store_view(),
            final(self).hash_view() == old(self).hash_view(),
            final(self).rigid_map() == old(self).rigid_map(),
            final(self).dirty_view() == old(self).dirty_view(),
            final(self).spec_focus() == old(self).spec_focus(),
            final(self).spec_region_size() == old(self).spec_region_size(),
            final(self).spec_active_radius() == old(self).spec_active_radius(),
            final(self).active_region_set() == Set::new(|r: Vec2i| old(self).desired_region(r)),
            events@.no_duplicates(),
            forall|r: Vec2i| #[trigger] events@.contains(WorldEvent::RegionSaved(r)) <==>
                (old(self).active_region_set().contains(r) && !old(self).desired_region(r)),
            forall|r: Vec2i| #[trigger] events@.contains(WorldEvent::RegionLoaded(r)) <==>
                (old(self).desired_region(r) && !old(self).active_region_set().contains(r)),
            forall|a: int, b: int| 0 <= a < b < events@.len() && (#[trigger] events@[a]) is RegionLoaded
                ==> (#[trigger] events@[b]) is RegionLoaded,
    {
        let ghost w0 = *self;
        let rs = self.region_size;
        let fx = div_floor(self.focus.x, rs);
        let fy = div_floor(self.focus.y, rs);
        let rad = self.active_radius_regions;
        let keys = self.active_keys();
        let mut events: Vec<WorldEvent> = Vec::new();
        let mut i: usize = 0;
        while i < keys.len()
            invariant
                self.wf(),
                w0.wf(),
                self.store == w0.store,
                self.hash_chunks == w0.hash_chunks,
                self.rigid_ids == w0.rigid_ids,
                self.chunk_dirty == w0.chunk_dirty,
                self.focus == w0.focus,
                self.region_size == w0.region_size,
                self.active_radius_regions == w0.active_radius_regions,
                rs == w0.region_size, rad == w0.active_radius_regions,
                fx == w0.region_of(w0.spec_focus()).x,
                fy == w0.region_of(w0.spec_focus()).y,
                keys@.to_set() == w0.active_regions@,
                keys@.no_duplicates(),
                i <= keys@.len(),
                forall|k: u64| #[trigger] self.active_regions@.contains(k) <==> (w0.active_regions@.contains(k)
                    && !(keys@.take(i as int).contains(k) && !w0.desired_region(key_point(k)))),
                events@.no_duplicates(),
                forall|e: WorldEvent| #[trigger] events@.contains(e) ==> e is RegionSaved,
                forall|r: Vec2i| #[trigger] events@.contains(WorldEvent::RegionSaved(r)) <==>
                    (keys@.take(i as int).contains(point_key(r)) && !w0.desired_region(r)),
            decreases keys@.len() - i,
        {
            let k = keys[i];
            let r = point_of_key(k);
            let ghost before_ev = events@;
            let ghost before_set = self.active_regions@;
            proof {
                lemma_point_key_roundtrip(r, k);
                assert(keys@.to_set().contains(k));
            }
            let want = fx as i64 - rad as i64 <= r.x as i64 && r.x as i64 <= fx as i64 + rad as i64
                && fy as i64 - rad as i64 <= r.y as i64 && r.y as i64 <= fy as i64 + rad as i64;
            if !want {
                self.active_regions.remove(&k);
                proof {
                    assert(!before_ev.contains(WorldEvent::RegionSaved(r))) by {
                        if before_ev.contains(WorldEvent::RegionSaved(r)) {
                            let a = choose|a: int| 0 <= a < i && keys@[a] == point_key(r);
                            assert(keys@.take(i as int)[a] == point_key(r));
                        }
                    }
                }
                events.push(WorldEvent::RegionSaved(r));
            }
            proof {
                let t0 = keys@.take(i as int);
                let t1 = keys@.take(i as int + 1);
                assert(t1 =~= t0.push(k));
                assert forall|c: u64| #[trigger] t1.contains(c) <==> (t0.contains(c) || c == k) by {
                    if t1.contains(c) {
                        let a = choose|a: int| 0 <= a < t1.len() && t1[a] == c;
                        if a < i { assert(t0[a] == c); }
                    }
                    if t0.contains(c) {
                        let a = choose|a: int| 0 <= a < t0.len() && t0[a] == c;
                        assert(t1[a] == c);
                    }
                    if c == k { assert(t1[i as int] == c); }
                }
                assert(want == w0.desired_region(r));
                assert forall|c: u64| #[trigger] self.active_regions@.contains(c) <==> (w0.active_regions@.contains(c)
                    && !(t1.contains(c) && !w0.desired_region(key_point(c)))) by {
                    if c == k { lemma_point_key_roundtrip(r, k); }
                }
                assert forall|e: WorldEvent| #[trigger] events@.contains(e) <==> (before_ev.contains(e) || (!want && e == WorldEvent::RegionSaved(r))) by {
                    if !want {
                        assert(events@ =~= before_ev.push(WorldEvent::RegionSaved(r)));
                        if events@.contains(e) && e != WorldEvent::RegionSaved(r) {
                            let a = choose|a: int| 0 <= a < events@.len() && events@[a] == e;
                            assert(before_ev[a] == e);
                        }
                        if before_ev.contains(e) {
                            let a = choose|a: int| 0 <= a < before_ev.len() && before_ev[a] == e;
                            assert(events@[a] == e);
                        }
                        if e == WorldEvent::RegionSaved(r) { assert(events@[events@.len() - 1] == e); }
                    }
                }
                assert forall|q: Vec2i| #[trigger] events@.contains(WorldEvent::RegionSaved(q)) <==>
                    (t1.contains(point_key(q)) && !w0.desired_region(q)) by {
                    lemma_point_key_roundtrip(q, k);
                }
            }
            i = i + 1;
        }
        proof {
            assert(keys@.take(keys@.len() as int) =~= keys@);
        }
        let ghost mid_events = events@;
        let ghost mid_set = self.active_regions@;
        let mut ry: i32 = -rad;
        while ry <= rad
            invariant
                self.wf(),
                w0.wf(),
                self.store == w0.store,
                self.hash_chunks == w0.hash_chunks,
                self.rigid_ids == w0.rigid_ids,
                self.chunk_dirty == w0.chunk_dirty,
                self.focus == w0.focus,
                self.region_size == w0.region_size,
                self.active_radius_regions == w0.active_radius_regions,
                rad == w0.active_radius_regions,
                0 <= rad <= 1,
                fx == w0.region_of(w0.spec_focus()).x,
                fy == w0.region_of(w0.spec_focus()).y,
                w0.focus_regions_fit(),
                -rad <= ry <= rad + 1,
                forall|k: u64| #[trigger] mid_set.contains(k) <==> (w0.active_regions@.contains(k) && w0.desired_region(key_point(k))),
                forall|k: u64| #[trigger] self.active_regions@.contains(k) <==> (mid_set.contains(k)
                    || (w0.desired_region(key_point(k)) && key_point(k).y < fy + ry && point_key(key_point(k)) == k)),
                events@.no_duplicates(),
                mid_events.len() <= events@.len(),
                events@.subrange(0, mid_events.len() as int) == mid_events,
                forall|a: int| mid_events.len() <= a < events@.len() ==> (#[trigger] events@[a]) is RegionLoaded,
                forall|e: WorldEvent| #[trigger] mid_events.contains(e) ==> e is RegionSaved,
                forall|q: Vec2i| #[trigger] events@.contains(WorldEvent::RegionLoaded(q)) <==>
                    (w0.desired_region(q) && !w0.active_region_set().contains(q) && q.y < fy + ry),
                forall|q: Vec2i| #[trigger] events@.contains(WorldEvent::RegionSaved(q)) <==> mid_events.contains(WorldEvent::RegionSaved(q)),
            decreases rad + 1 - ry,
        {
            let mut rx: i32 = -rad;
            while rx <= rad
                invariant
                    self.wf(),
                    w0.wf(),
                    self.store == w0.store,
                    self.hash_chunks == w0.hash_chunks,
                    self.rigid_ids == w0.rigid_ids,
                    self.chunk_dirty == w0.chunk_dirty,
                    self.focus == w0.focus,
                    self.region_size == w0.region_size,
                    self.active_radius_regions == w0.active_radius_regions,
                    rad == w0.active_radius_regions,
                    0 <= rad <= 1,
                    fx == w0.region_of(w0.spec_focus()).x,
                    fy == w0.region_of(w0.spec_focus()).y,
                    w0.focus_regions_fit(),
                    -rad <= ry <= rad,
                    -rad <= rx <= rad + 1,
                    forall|k: u64| #[trigger] mid_set.contains(k) <==> (w0.active_regions@.contains(k) && w0.desired_region(key_point(k))),
                    forall|k: u64| #[trigger] self.active_regions@.contains(k) <==> (mid_set.contains(k)
                        || (w0.desired_region(key_point(k)) && point_key(key_point(k)) == k
                            && (key_point(k).y < fy + ry || (key_point(k).y == fy + ry && key_point(k).x < fx + rx)))),
                    events@.no_duplicates(),
                    mid_events.len() <= events@.len(),
                    events@.subrange(0, mid_events.len() as int) == mid_events,
                    forall|a: int| mid_events.len() <= a < events@.len() ==> (#[trigger] events@[a]) is RegionLoaded,
                    forall|e: WorldEvent| #[trigger] mid_events.contains(e) ==> e is RegionSaved,
                    forall|q: Vec2i| #[trigger] events@.contains(WorldEvent::RegionLoaded(q)) <==>
                        (w0.desired_region(q) && !w0.active_region_set().contains(q)
                            && (q.y < fy + ry || (q.y == fy + ry && q.x < fx + rx))),
                    forall|q: Vec2i| #[trigger] events@.contains(WorldEvent::RegionSaved(q)) <==> mid_events.contains(WorldEvent::RegionSaved(q)),
                decreases rad + 1 - rx,
            {
                let r = Vec2i::new(fx + rx, fy + ry);
                let k = point_key_of(r);
                let ghost before_ev = events@;
                proof { lemma_point_key_roundtrip(r, k); }
                if !self.active_regions.contains(&k) {
                    self.active_regions.insert(k);
                    proof {
                        assert(!before_ev.contains(WorldEvent::RegionLoaded(r)));
                    }
                    events.push(WorldEvent::RegionLoaded(r));
                }
                proof {
                    assert(w0.desired_region(r));
                    assert forall|c: u64| #[trigger] self.active_regions@.contains(c) <==> (mid_set.contains(c)
                        || (w0.desired_region(key_point(c)) && point_key(key_point(c)) == c
                            && (key_point(c).y < fy + ry || (key_point(c).y == fy + ry && key_point(c).x < fx + rx + 1)))) by {
                        lemma_point_key_roundtrip(key_point(c), c);
                    }
                    assert forall|e: WorldEvent| #[trigger] events@.contains(e) <==> (before_ev.contains(e) || (events@.len() > before_ev.len() && e == WorldEvent::RegionLoaded(r))) by {
                        if events@.len() > before_ev.len() {
                            assert(events@ =~= before_ev.push(WorldEvent::RegionLoaded(r)));
                            if events@.contains(e) && e != WorldEvent::RegionLoaded(r) {
                                let a = choose|a: int| 0 <= a < events@.len() && events@[a] == e;
                                assert(before_ev[a] == e);
                            }
                            if before_ev.contains(e) {
                                let a = choose|a: int| 0 <= a < before_ev.len() && before_ev[a] == e;
                                assert(events@[a] == e);
                            }
                            assert(events@[events@.len() - 1] == WorldEvent::RegionLoaded(r));
                        }
                    }
                    assert(w0.active_region_set().contains(r) == w0.active_regions@.contains(k));
                    assert(self.active_regions@.contains(k));
                    assert(events@.subrange(0, mid_events.len() as int) =~= mid_events);
                }
                rx = rx + 1;
            }
            ry = ry + 1;
        }
        proof {
            assert forall|r: Vec2i| #[trigger] self.active_region_set().contains(r) <==> w0.desired_region(r) by {
                lemma_point_key_roundtrip(r, 0);
            }
            assert(self.active_region_set() =~= Set::new(|r: Vec2i| w0.desired_region(r)));
            assert(self.rigid_map() =~= w0.rigid_map());
            assert forall|a: int, b: int| 0 <= a < b < events@.len() && (#[trigger] events@[a]) is RegionLoaded
                implies (#[trigger] events@[b]) is RegionLoaded by {
                if a < mid_events.len() {
                    assert(events@[a] == mid_events[a]);
                    assert(mid_events.contains(mid_events[a]));
                }
            }
            assert forall|r: Vec2i| #[trigger] events@.contains(WorldEvent::RegionSaved(r)) <==>
                (w0.active_region_set().contains(r) && !w0.desired_region(r)) by {
                lemma_point_key_roundtrip(r, 0);
                if w0.active_region_set().contains(r) {
                    assert(keys@.to_set().contains(point_key(r)));
                }
            }
        }
        events
    }
}

impl World {
    /// Moves the streaming focus and brings the active regions in line with it (see the events).
    pub fn set_focus(&mut self, focus: Vec2i) -> (events: Vec<WorldEvent>)
        requires
            old(self).wf(),
            i32::MIN + 1 <= spec_div_floor(focus.x as int, old(self).spec_region_size()) <= i32::MAX - 1,
            i32::MIN + 1 <= spec_div_floor(focus.y as int, old(self).spec_region_size()) <= i32::MAX - 1,
        ensures
            final(self).wf(),
            final(self).spec_focus() == focus,
            final(self).store_view() == old(self).store_view(),
            final(self).hash_view() == old(self).hash_view(),
            final(self).rigid_map() == old(self).rigid_map(),
            final(self).dirty_view() == old(self).dirty_view(),
            final(self).active_region_set() == Set::new(|r: Vec2i| final(self).desired_region(r)),
            events@.no_duplicates(),
            forall|r: Vec2i| #[trigger] events@.contains(WorldEvent::RegionSaved(r)) <==>
                (old(self).active_region_set().contains(r) && !final(self).desired_region(r)),
            forall|r: Vec2i| #[trigger] events@.contains(WorldEvent::RegionLoaded(r)) <==>
                (final(self).desired_region(r) && !old(self).active_region_set().contains(r)),
            forall|a: int, b: int| 0 <= a < b < events@.len() && (#[trigger] events@[a]) is RegionLoaded
                ==> (#[trigger] events@[b]) is RegionLoaded,
    {
        self.focus = focus;
        proof { assert(self.active_region_set() =~= old(self).active_region_set()); }
        self.sync_streaming_regions()
    }

    /// Ends a frame: every chunk is marked for redraw and the active regions are brought in line with
    /// the focus (see [`World::set_focus`]).
    pub fn finish_frame(&mut self) -> (events: Vec<WorldEvent>)
        requires old(self).wf(), old(self).focus_regions_fit(),
        ensures
            final(self).wf(),
            final(self).store_view() == old(self).store_view(),
            final(self).hash_view() == old(self).hash_view(),
            final(self).rigid_map() == old(self).rigid_map(),
            final(self).dirty_view() == Seq::new(old(self).dirty_view().len(), |i: int| true),
            final(self).active_region_set() == Set::new(|r: Vec2i| old(self).desired_region(r)),
            events@.no_duplicates(),
            forall|r: Vec2i| #[trigger] events@.contains(WorldEvent::RegionSaved(r)) <==>
                (old(self).active_region_set().contains(r) && !old(self).desired_region(r)),
            forall|r: Vec2i| #[trigger] events@.contains(WorldEvent::RegionLoaded(r)) <==>
                (old(self).desired_region(r) && !old(self).active_region_set().contains(r)),
            forall|a: int, b: int| 0 <= a < b < events@.len() && (#[trigger] events@[a]) is RegionLoaded
                ==> (#[trigger] events@[b]) is RegionLoaded,
    {
        let n = self.chunk_dirty.len();
        self.chunk_dirty = filled_bools(n, true);
        proof {
            assert(self.active_region_set() =~= old(self).active_region_set());
            assert(self.rigid_map() =~= old(self).rigid_map());
        }
        self.sync_streaming_regions()
    }

    /// Committed cells of world chunk `k` (zero outside the grid).
    pub open spec fn chunk_snapshot(&self, k: ChunkCoord) -> Seq<Cell> {
        Seq::new(1024, |i: int| if self.in_grid(chunk_point(k, i)) { self.cell_at(chunk_point(k, i)) } else { Cell(0) })
    }

    /// First chunk column of region `r`.
    pub open spec fn region_c0x(&self, r: Vec2i) -> int { spec_div_floor(r.x * self.spec_region_size(), 32) }
    /// First chunk row of region `r`.
    pub open spec fn region_c0y(&self, r: Vec2i) -> int { spec_div_floor(r.y * self.spec_region_size(), 32) }
    /// Number of chunk columns covering region `r`.
    pub open spec fn region_ncx(&self, r: Vec2i) -> int {
        spec_div_floor(r.x * self.spec_region_size() + self.spec_region_size() - 1, 32) - self.region_c0x(r) + 1
    }
    /// Number of chunk rows covering region `r`.
    pub open spec fn region_ncy(&self, r: Vec2i) -> int {
        spec_div_floor(r.y * self.spec_region_size() + self.spec_region_size() - 1, 32) - self.region_c0y(r) + 1
    }
    /// `s`-th chunk (row-major) covering region `r`.
    pub open spec fn region_chunk(&self, r: Vec2i, s: int) -> ChunkCoord {
        ChunkCoord {
            x: (self.region_c0x(r) + s % self.region_ncx(r)) as i32,
            y: (self.region_c0y(r) + s / self.region_ncx(r)) as i32,
        }
    }

    /// Chunks covering region `r` that hold something, with their committed cells, in row-major
    /// order: the contents of the region file for `r`.
    pub fn region_chunk_cells(&self, region: Vec2i) -> (out: Vec<(ChunkCoord, Vec<Cell>)>)
        requires
            self.wf(),
            i32::MIN <= region.x * self.spec_region_size(),
            region.x * self.spec_region_size() + self.spec_region_size() - 1 <= i32::MAX,
            i32::MIN <= region.y * self.spec_region_size(),
            region.y * self.spec_region_size() + self.spec_region_size() - 1 <= i32::MAX,
        ensures
            ({
                let pick = |s: int| exists|i: int| 0 <= i < 1024
                    && (#[trigger] self.chunk_snapshot(self.region_chunk(region, s))[i])@.material != material::EMPTY;
                let want = picked(pick, |s: int| self.region_chunk(region, s), self.region_ncx(region) * self.region_ncy(region));
                &&& out@.len() == want.len()
                &&& forall|j: int| 0 <= j < out@.len() ==> (#[trigger] out@[j]).0 == want[j]
                    && out@[j].1@ == self.chunk_snapshot(want[j])
            }),
    {
        let rs = self.region_size;
        let min_x = region.x * rs;
        let min_y = region.y * rs;
        let max_x = min_x + (rs - 1);
        let max_y = min_y + (rs - 1);
        let c0x = div_floor(min_x, 32);
        let c0y = div_floor(min_y, 32);
        let c1x = div_floor(max_x, 32);
        let c1y = div_floor(max_y, 32);
        proof {
            vstd::arithmetic::div_mod::lemma_fundamental_div_mod(min_x as int, 32);
            vstd::arithmetic::div_mod::lemma_mod_bound(min_x as int, 32);
            vstd::arithmetic::div_mod::lemma_fundamental_div_mod(max_x as int, 32);
            vstd::arithmetic::div_mod::lemma_mod_bound(max_x as int, 32);
            vstd::arithmetic::div_mod::lemma_fundamental_div_mod(min_y as int, 32);
            vstd::arithmetic::div_mod::lemma_mod_bound(min_y as int, 32);
            vstd::arithmetic::div_mod::lemma_fundamental_div_mod(max_y as int, 32);
            vstd::arithmetic::div_mod::lemma_mod_bound(max_y as int, 32);
        }
        let ncx = (c1x as i64 - c0x as i64 + 1) as usize;
        let ncy = (c1y as i64 - c0y as i64 + 1) as usize;
        proof {
            assert(1 <= ncx <= 0x800_0000);
            assert(1 <= ncy <= 0x800_0000);
            assert(ncx * ncy <= 0x800_0000 * 0x800_0000) by (nonlinear_arith) requires 1 <= ncx <= 0x800_0000, 1 <= ncy <= 0x800_0000;
            assert(self.region_ncx(region) == ncx);
            assert(self.region_ncy(region) == ncy);
        }
        let total: u64 = ncx as u64 * ncy as u64;
        let ghost pick = |s: int| exists|i: int| 0 <= i < 1024
            && (#[trigger] self.chunk_snapshot(self.region_chunk(region, s))[i])@.material != material::EMPTY;
        let ghost f = |s: int| self.region_chunk(region, s);
        let mut out: Vec<(ChunkCoord, Vec<Cell>)> = Vec::new();
        let mut s: u64 = 0;
        while s < total
            invariant
                self.wf(),
                total == self.region_ncx(region) * self.region_ncy(region),
                ncx == self.region_ncx(region),
                ncy == self.region_ncy(region),
                1 <= ncx <= 0x800_0000,
                1 <= ncy <= 0x800_0000,
                c0x == self.region_c0x(region),
                c0y == self.region_c0y(region),
                c0x as int + ncx <= c1x + 1,
                c1x as int * 32 + 31 <= i32::MAX + 31,
                c0x as int * 32 >= i32::MIN,
                c0y as int * 32 >= i32::MIN,
                c1y as int * 32 + 31 <= i32::MAX + 31,
                c0y as int + ncy <= c1y + 1,
                s <= total,
                pick == (|s: int| exists|i: int| 0 <= i < 1024
                    && (#[trigger] self.chunk_snapshot(self.region_chunk(region, s))[i])@.material != material::EMPTY),
                f == (|s: int| self.region_chunk(region, s)),
                out@.len() == picked(pick, f, s as int).len(),
                forall|j: int| 0 <= j < out@.len() ==> (#[trigger] out@[j]).0 == picked(pick, f, s as int)[j]
                    && out@[j].1@ == self.chunk_snapshot(picked(pick, f, s as int)[j]),
            decreases total - s,
        {
            let lx = (s % ncx as u64) as i64;
            let ly = (s / ncx as u64) as i64;
            proof {
                vstd::arithmetic::div_mod::lemma_fundamental_div_mod(s as int, ncx as int);
                vstd::arithmetic::div_mod::lemma_mod_bound(s as int, ncx as int);
                let q = s as int / ncx as int;
                let rr = s as int % ncx as int;
                assert(0 <= q < ncy) by (nonlinear_arith)
                    requires s == ncx * q + rr, 0 <= rr < ncx, 0 <= s < ncx * ncy, ncx > 0,
                {
                    if q >= ncy { assert(ncx * q >= ncx * ncy); }
                    if q < 0 { assert(ncx * q <= -(ncx as int)); }
                }
            }
            let coord = ChunkCoord { x: (c0x as i64 + lx) as i32, y: (c0y as i64 + ly) as i32 };
            assert(coord == self.region_chunk(region, s as int));
            let cells = self.chunk_cells_of(coord);
            let mut any = false;
            let mut i: usize = 0;
            while i < 1024
                invariant
                    cells@.len() == 1024,
                    i <= 1024,
                    any == exists|j: int| 0 <= j < i && (#[trigger] cells@[j])@.material != material::EMPTY,
                decreases 1024 - i,
            {
                if cells[i].material() != material::EMPTY {
                    any = true;
                }
                i = i + 1;
            }
            proof {
                assert(any == pick(s as int)) by {
                    if any {
                        let j = choose|j: int| 0 <= j < 1024 && (#[trigger] cells@[j])@.material != material::EMPTY;
                        assert(self.chunk_snapshot(self.region_chunk(region, s as int))[j] == cells@[j]);
                    }
                    if pick(s as int) {
                        let j = choose|j: int| 0 <= j < 1024
                            && (#[trigger] self.chunk_snapshot(self.region_chunk(region, s as int))[j])@.material != material::EMPTY;
                        assert(cells@[j] == self.chunk_snapshot(self.region_chunk(region, s as int))[j]);
                    }
                }
            }
            let ghost before = out@;
            if any {
                out.push((coord, cells));
            }
            proof {
                let pp = picked(pick, f, s as int);
                let pn = picked(pick, f, s as int + 1);
                assert(pn == pp + if pick(s as int) { seq![f(s as int)] } else { Seq::<ChunkCoord>::empty() });
                assert forall|j: int| 0 <= j < out@.len() implies (#[trigger] out@[j]).0 == pn[j]
                    && out@[j].1@ == self.chunk_snapshot(pn[j]) by {
                    if j < before.len() {
                        assert(out@[j] == before[j]);
                        assert(pn[j] == pp[j]);
                    }
                }
            }
            s = s + 1;
        }
        out
    }

    /// Committed cells of world chunk `k`, zero outside the grid.
    fn chunk_cells_of(&self, k: ChunkCoord) -> (v: Vec<Cell>)
        requires
            self.wf(),
            i32::MIN <= k.x * 32, k.x * 32 + 31 <= i32::MAX,
            i32::MIN <= k.y * 32, k.y * 32 + 31 <= i32::MAX,
        ensures v@ == self.chunk_snapshot(k),
    {
        let mut v: Vec<Cell> = Vec::new();
        let mut i: usize = 0;
        while i < 1024
            invariant
                self.wf(),
                i32::MIN <= k.x * 32, k.x * 32 + 31 <= i32::MAX,
                i32::MIN <= k.y * 32, k.y * 32 + 31 <= i32::MAX,
                i <= 1024,
                v@ == self.chunk_snapshot(k).take(i as int),
            decreases 1024 - i,
        {
            proof { lemma_chunk_point(k, i as int); }
            let p = Vec2i::new(k.x * 32 + (i % 32) as i32, k.y * 32 + (i / 32) as i32);
            assert(p == chunk_point(k, i as int));
            let c = match self.store.get_read(p) {
                Some(c) => c,
                None => Cell::new(),
            };
            proof { crate::cell64::lemma_zero_fields(); }
            v.push(c);
            proof {
                assert(v@ =~= self.chunk_snapshot(k).take(i as int + 1));
            }
            i = i + 1;
        }
        proof { assert(self.chunk_snapshot(k).take(1024) =~= self.chunk_snapshot(k)); }
        v
    }
}

/// Cell an entry of a region file puts at `p`: the entry's non-empty cell covering `p`, if any.
pub open spec fn entry_cell(cs: int, coord: ChunkCoord, cells: Seq<Cell>, p: Vec2i) -> Option<Cell> {
    let lx = p.x - coord.x * cs;
    let ly = p.y - coord.y * cs;
    if 0 <= lx < cs && 0 <= ly < cs && cells[ly * cs + lx]@.material != material::EMPTY {
        Some(cells[ly * cs + lx])
    } else {
        None
    }
}

/// The entry's chunk square of side `cs` fits in `i32` and the entry holds a full square of cells.
pub open spec fn entry_fits(cs: int, coord: ChunkCoord, cells: Seq<Cell>) -> bool {
    &&& 0 < cs <= 46340
    &&& cs * cs <= cells.len()
    &&& i32::MIN <= coord.x * cs && coord.x * cs + cs <= i32::MAX
    &&& i32::MIN <= coord.y * cs && coord.y * cs + cs <= i32::MAX
}

impl World {
    /// Stored chunks after the first `n` cells of an entry, in row-major order, are mirrored
    /// into `base`: each non-empty cell that lands in the grid is written into its chunk.
    pub open spec fn entry_mirrored(&self, base: Map<ChunkCoord, Seq<Cell>>, cs: int, coord: ChunkCoord, cells: Seq<Cell>, n: nat)
        -> Map<ChunkCoord, Seq<Cell>>
        decreases n,
    {
        if n == 0 {
            base
        } else {
            let prev = self.entry_mirrored(base, cs, coord, cells, (n - 1) as nat);
            let p = entry_point(cs, coord, n - 1);
            let c = cells[n - 1];
            if c@.material != material::EMPTY && self.in_grid(p) { mirrored(prev, p, c) } else { prev }
        }
    }

    /// Stored chunks after loading one entry: a full-size chunk entry is stored whole, then
    /// every non-empty entry cell that lands in the grid is mirrored into its chunk.
    pub open spec fn entry_chunks(&self, cs: int, coord: ChunkCoord, cells: Seq<Cell>) -> Map<ChunkCoord, Seq<Cell>> {
        let h1 = if cs == 32 && cells.len() == 1024 {
            self.hash_view().chunks().insert(coord, cells)
        } else {
            self.hash_view().chunks()
        };
        self.entry_mirrored(h1, cs, coord, cells, (cs * cs) as nat)
    }

    /// `w2` is `self` after loading one entry (`coord`, `cells`) of a region file with chunk side `cs`.
    pub open spec fn entry_loaded(&self, w2: World, cs: int, coord: ChunkCoord, cells: Seq<Cell>) -> bool {
        &&& w2.wf()
        &&& w2.same_setup(self)
        &&& w2.rigid_map() == self.rigid_map()
        &&& w2.dirty_view() == self.dirty_view()
        &&& forall|p: Vec2i| #[trigger] w2.cell_at(p) == (
                if self.in_grid(p) && entry_cell(cs, coord, cells, p) is Some { entry_cell(cs, coord, cells, p)->0 }
                else { self.cell_at(p) })
        &&& w2.hash_view().chunks() == self.entry_chunks(cs, coord, cells)
    }
}

/// Position of the entry cell with square index `k` (row-major over side `cs`).
pub open spec fn entry_point(cs: int, coord: ChunkCoord, k: int) -> Vec2i {
    Vec2i { x: (coord.x * cs + k % cs) as i32, y: (coord.y * cs + k / cs) as i32 }
}

/// Cell `p` of the entry square at `coord` comes before square index `n` in row-major order.
pub open spec fn entry_before(cs: int, coord: ChunkCoord, p: Vec2i, n: int) -> bool {
    let lx = p.x - coord.x * cs;
    let ly = p.y - coord.y * cs;
    ly < n / cs || (ly == n / cs && lx < n % cs)
}

impl World {
    /// Loads one entry (`coord`, `cells`) of a region file with chunk side `cs`: every non-empty cell
    /// of the entry's square that lands in the grid is committed there and mirrored into the chunk
    /// store; a full-size chunk entry is also stored as a chunk first.
    pub fn load_region_entry(&mut self, cs: i32, coord: ChunkCoord, cells: &Vec<Cell>)
        requires
            old(self).wf(),
            entry_fits(cs as int, coord, cells@),
            old(self).hash_view().slab_total() + cs * cs + 1 < usize::MAX,
        ensures
            old(self).entry_loaded(*final(self), cs as int, coord, cells@),
            final(self).hash_view().slab_total() <= old(self).hash_view().slab_total() + cs * cs + 1,
    {
        let ghost w0 = *self;
        if cs == 32 && cells.len() == 1024 {
            let _ = self.hash_chunks.upsert_chunk(coord, cells.as_slice());
        }
        let ghost base = self.hash_view().chunks();
        proof {
            assert(self.rigid_map() =~= w0.rigid_map());
            assert(self.active_region_set() =~= w0.active_region_set());
            assert(cs * cs <= 46340 * 46340) by (nonlinear_arith) requires 0 < cs <= 46340;
            vstd::arithmetic::div_mod::lemma_fundamental_div_mod_converse(0, cs as int, 0, 0);
        }
        let total: usize = (cs as usize) * (cs as usize);
        let mut k: usize = 0;
        while k < total
            invariant
                self.wf(),
                w0.wf(),
                self.same_setup(&w0),
                self.rigid_map() == w0.rigid_map(),
                self.dirty_view() == w0.dirty_view(),
                entry_fits(cs as int, coord, cells@),
                total == cs * cs,
                k <= total,
                self.hash_view().slab_total() <= w0.hash_view().slab_total() + 1 + k,
                w0.hash_view().slab_total() + cs * cs + 1 < usize::MAX,
                base == (if cs == 32 && cells@.len() == 1024 { w0.hash_view().chunks().insert(coord, cells@) }
                    else { w0.hash_view().chunks() }),
                forall|p: Vec2i| #[trigger] self.cell_at(p) == (
                    if w0.in_grid(p) && entry_cell(cs as int, coord, cells@, p) is Some && entry_before(cs as int, coord, p, k as int) {
                        entry_cell(cs as int, coord, cells@, p)->0
                    } else {
                        w0.cell_at(p)
                    }),
                self.hash_view().chunks() == w0.entry_mirrored(base, cs as int, coord, cells@, k as nat),
            decreases total - k,
        {
            let ghost kk: int = k as int;
            let ghost csi: int = cs as int;
            proof {
                vstd::arithmetic::div_mod::lemma_fundamental_div_mod(kk, csi);
                vstd::arithmetic::div_mod::lemma_mod_bound(kk, csi);
                let q: int = kk / csi;
                let r: int = kk % csi;
                assert(0 <= q < csi) by (nonlinear_arith)
                    requires kk == csi * q + r, 0 <= r < csi, 0 <= kk < csi * csi, csi > 0,
                {
                    if q >= csi { assert(csi * q >= csi * csi); }
                    if q < 0 { assert(csi * q <= -csi); }
                }
                assert(q * csi + r == kk) by (nonlinear_arith) requires kk == csi * q + r;
                assert(q * csi + r < csi * csi);
                assert(q * csi + r < cells@.len());
                if r + 1 < csi {
                    vstd::arithmetic::div_mod::lemma_fundamental_div_mod_converse(kk + 1, csi, q, r + 1);
                } else {
                    assert((q + 1) * csi + 0 == kk + 1) by (nonlinear_arith) requires q * csi + r == kk, r + 1 == csi;
                    vstd::arithmetic::div_mod::lemma_fundamental_div_mod_converse(kk + 1, csi, q + 1, 0);
                }
            }
            let lx = (k % (cs as usize)) as i32;
            let ly = (k / (cs as usize)) as i32;
            let p = Vec2i::new(coord.x * cs + lx, coord.y * cs + ly);
            assert(p == entry_point(cs as int, coord, k as int));
            let c = cells[k];
            assert(entry_cell(cs as int, coord, cells@, p) == (if c@.material != material::EMPTY { Some(c) } else { None::<Cell> }));
            let ghost before = *self;
            if c.material() != material::EMPTY {
                if self.store.set_read(p, c) {
                    proof {
                        before.store.lemma_read_at_update(&self.store, p, c);
                        assert(self.rigid_map() =~= before.rigid_map());
                        assert(self.active_region_set() =~= before.active_region_set());
                    }
                    let (chunk, cidx) = SpatialHashChunkStore::split_world_to_chunk(p);
                    self.hash_chunks.ensure_chunk(chunk);
                    self.hash_chunks.set_chunk_cell(chunk, cidx, c);
                    proof {
                        lemma_point_chunk(p);
                        assert(chunk == world_chunk_of(p));
                        assert(cidx as int == world_chunk_index(p));
                        assert(self.hash_view().chunks() =~= mirrored(before.hash_view().chunks(), p, c));
                    }
                } else {
                    proof {
                        assert(self.store == before.store);
                    }
                }
            }
            proof {
                assert(w0.entry_mirrored(base, cs as int, coord, cells@, (k + 1) as nat)
                    == (if c@.material != material::EMPTY && w0.in_grid(p) {
                        mirrored(w0.entry_mirrored(base, cs as int, coord, cells@, k as nat), p, c)
                    } else {
                        w0.entry_mirrored(base, cs as int, coord, cells@, k as nat)
                    }));
                assert forall|q: Vec2i| #[trigger] self.cell_at(q) == (
                    if w0.in_grid(q) && entry_cell(cs as int, coord, cells@, q) is Some && entry_before(cs as int, coord, q, k + 1) {
                        entry_cell(cs as int, coord, cells@, q)->0
                    } else {
                        w0.cell_at(q)
                    }) by {
                    if q != p {
                        assert(self.cell_at(q) == before.cell_at(q));
                    }
                }
            }
            k = k + 1;
        }
        proof {
            vstd::arithmetic::div_mod::lemma_fundamental_div_mod_converse(cs * cs, cs as int, cs as int, 0);
        }
    }
}

impl World {
    /// In-progress cell at `p` during a simulation step; stone outside the dense grid.
    pub open spec fn sim_cell(&self, p: Vec2i) -> Cell {
        if self.in_grid(p) { self.store_view().write_at(p) } else { stone_cell() }
    }

    /// `w` is `self` after simulation work: only in-progress cells, wake requests (which are
    /// only ever raised) and debug pass stamps may differ.
    pub open spec fn sim_frame(&self, w: &World) -> bool {
        &&& w.wf()
        &&& w.store_view().same_geometry(&self.store_view())
        &&& w.spec_chunks_x() == self.spec_chunks_x()
        &&& w.spec_chunks_y() == self.spec_chunks_y()
        &&& w.props_view() == self.props_view()
        &&& w.rules_view() == self.rules_view()
        &&& w.reactions_view() == self.reactions_view()
        &&& w.spec_ambient() == self.spec_ambient()
        &&& w.spec_region_size() == self.spec_region_size()
        &&& w.spec_focus() == self.spec_focus()
        &&& w.spec_solid_bounds() == self.spec_solid_bounds()
        &&& w.active_region_set() == self.active_region_set()
        &&& w.spec_debug_pass_enabled() == self.spec_debug_pass_enabled()
        &&& w.debug_pass_view().len() == self.debug_pass_view().len()
        &&& w.spec_debug_chunk_highlight() == self.spec_debug_chunk_highlight()
        &&& w.spec_debug_pass_batch_outlines() == self.spec_debug_pass_batch_outlines()
        &&& w.store_view().read_view() == self.store_view().read_view()
        &&& w.hash_view() == self.hash_view()
        &&& w.rigid_map() == self.rigid_map()
        &&& w.dirty_view() == self.dirty_view()
        &&& w.physics_dirty_view() == self.physics_dirty_view()
        &&& w.awake_view() == self.awake_view()
        &&& w.awake_next_view().len() == self.awake_next_view().len()
        &&& forall|s: int| 0 <= s < self.awake_next_view().len() && #[trigger] self.awake_next_view()[s]
                ==> w.awake_next_view()[s]
    }

    /// `w` is `self` after stepping cells: a [`Self::sim_frame`] that leaves the debug pass
    /// stamps as they were.
    pub open spec fn step_frame(&self, w: &World) -> bool {
        &&& self.sim_frame(w)
        &&& w.debug_pass_view() == self.debug_pass_view()
    }

    /// Wake requests after the chunks around cell `p` are asked to stay awake.
    pub open spec fn woken_around(&self, p: Vec2i) -> Seq<bool> {
        Seq::new(self.awake_next_view().len(), |s: int| self.awake_next_view()[s]
            || self.in_wake_block(self.chunk_col(p.x as int), self.chunk_row(p.y as int), s))
    }

    /// Whether `p` is a cell of the dense grid.
    pub fn sim_in_grid(&self, p: Vec2i) -> (b: bool)
        requires self.wf(),
        ensures b == self.in_grid(p),
    {
        self.store.grid_index(p).is_some()
    }

    /// In-progress cell at `p`; stone outside the dense grid.
    pub fn sim_get(&self, p: Vec2i) -> (c: Cell)
        requires self.wf(),
        ensures c == self.sim_cell(p),
    {
        match self.store.get_write(p) {
            Some(c) => c,
            None => Cell(4),
        }
    }

    /// Whether the in-progress cell at grid cell `p` already differs from the committed one.
    pub fn was_moved(&self, p: Vec2i) -> (b: bool)
        requires self.wf(),
        ensures b == (self.in_grid(p) && self.cell_at(p) != self.sim_cell(p)),
    {
        match self.store.get_read(p) {
            Some(r) => match self.store.get_write(p) {
                Some(w) => r != w,
                None => false,
            },
            None => false,
        }
    }

    /// Keeps the chunk of `p` and its eight neighbours awake next tick.
    pub fn sim_wake(&mut self, p: Vec2i)
        requires old(self).wf(),
        ensures
            old(self).sim_frame(final(self)),
            final(self).store_view() == old(self).store_view(),
            final(self).debug_pass_view() == old(self).debug_pass_view(),
            final(self).awake_next_view() == old(self).woken_around(p),
    {
        let ghost w0 = *self;
        self.wake_chunk_and_neighbors(p);
        proof { assert(self.awake_next_view() =~= w0.woken_around(p)); }
    }

    /// Writes `c` to the in-progress cell at grid cell `p` and keeps the surrounding chunks awake;
    /// no effect outside the grid.
    pub fn sim_put(&mut self, p: Vec2i, c: Cell)
        requires old(self).wf(),
        ensures
            old(self).sim_frame(final(self)),
            final(self).debug_pass_view() == old(self).debug_pass_view(),
            forall|q: Vec2i| #[trigger] final(self).sim_cell(q) == (if q == p && old(self).in_grid(p) { c } else { old(self).sim_cell(q) }),
            old(self).in_grid(p) ==> final(self).store_view().write_view()
                == old(self).store_view().write_view().update(old(self).store_view().index_of(p), c),
            old(self).in_grid(p) ==> final(self).awake_next_view() == old(self).woken_around(p),
            !old(self).in_grid(p) ==> *final(self) == *old(self),
    {
        let ghost w0 = *self;
        if self.store.set_write(p, c) {
            proof {
                w0.store.lemma_write_at_update(&self.store, p, c);
                assert(self.rigid_map() =~= w0.rigid_map());
                assert(self.active_region_set() =~= w0.active_region_set());
            }
            self.wake_chunk_and_neighbors(p);
            proof { assert(self.awake_next_view() =~= w0.woken_around(p)); }
        }
    }

    /// Marks cell `p` with scheduler pass `pass` in the debug overlay when it is enabled.
    pub fn stamp_debug_pass(&mut self, p: Vec2i, pass: u8)
        requires old(self).wf(),
        ensures
            old(self).sim_frame(final(self)),
            final(self).store_view() == old(self).store_view(),
            final(self).awake_next_view() == old(self).awake_next_view(),
            old(self).spec_debug_pass_enabled() && old(self).in_grid(p)
                && old(self).store_view().index_of(p) < old(self).debug_pass_view().len()
                ==> final(self).debug_pass_view() == old(self).debug_pass_view().update(old(self).store_view().index_of(p), pass),
            !(old(self).spec_debug_pass_enabled() && old(self).in_grid(p)
                && old(self).store_view().index_of(p) < old(self).debug_pass_view().len())
                ==> final(self).debug_pass_view() == old(self).debug_pass_view(),
    {
        let ghost w0 = *self;
        if self.debug_pass_enabled {
            match self.store.grid_index(p) {
                Some(i) => {
                    if i < self.debug_pass.len() {
                        self.debug_pass.set(i, pass);
                    }
                }
                None => {}
            }
        }
        proof {
            assert(self.rigid_map() =~= w0.rigid_map());
            assert(self.active_region_set() =~= w0.active_region_set());
        }
    }
}

} // verus!
