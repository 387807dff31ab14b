//! Neighbour flag and lifetime effects of a stepped cell ([`AdjacentInfluenceRule`]): fire
//! spreading into fuel, water wetting and drying, transition spawns.
use vstd::prelude::*;
use rand::rngs::SmallRng;

use crate::cell64::{Cell, CellFields};
use crate::world::geom::Vec2i;
use crate::world::material;
use crate::world::props::{AdjacentInfluenceRule, InfluenceSourceEffect, InfluenceVictimLifetime, MaterialProps};
use crate::world::state::{spec_initial_lifetime, World};
use crate::world::MaterialId;
use crate::sim::rng::{gen_range_u8, gen_ratio, shuffle_targets};
use crate::sim::{keeps_all_but_temperature_except, keeps_materials_except, local_change, neighbor8, offset, shifted, sim_ready, sim_set_lifetime, spec_neighbor8, within};

verus! {

/// A heat factor `num / den` in `0..=1` with a denominator of at most 255.
pub open spec fn heat_ok(num: u32, den: u32) -> bool {
    0 < den <= 255 && num <= den
}

/// Lifetime of a transition spawn: drawn from the rule's range when it is non-empty, else the
/// spawned material's initial lifetime.
fn influence_transition_spawn_lifetime(rule: &AdjacentInfluenceRule, spawn_mat: MaterialId, spawn_props: &MaterialProps, rng: &mut SmallRng) -> (l: u8)
    ensures
        rule.spawn_lifetime_hi > rule.spawn_lifetime_lo ==> rule.spawn_lifetime_lo <= l < rule.spawn_lifetime_hi,
        rule.spawn_lifetime_hi <= rule.spawn_lifetime_lo ==> l == spec_initial_lifetime(spawn_mat, *spawn_props),
{
    if rule.spawn_lifetime_hi > rule.spawn_lifetime_lo {
        gen_range_u8(rng, rule.spawn_lifetime_lo, rule.spawn_lifetime_hi)
    } else {
        World::initial_lifetime_for(spawn_mat, spawn_props)
    }
}

/// Lifetime of an empty-neighbour spawn, chosen like [`influence_transition_spawn_lifetime`].
fn influence_empty_neighbor_spawn_lifetime(rule: &AdjacentInfluenceRule, spawn_mat: MaterialId, spawn_props: &MaterialProps, rng: &mut SmallRng) -> (l: u8)
    ensures
        rule.empty_neighbor_spawn_lifetime_hi > rule.empty_neighbor_spawn_lifetime_lo ==>
            rule.empty_neighbor_spawn_lifetime_lo <= l < rule.empty_neighbor_spawn_lifetime_hi,
        rule.empty_neighbor_spawn_lifetime_hi <= rule.empty_neighbor_spawn_lifetime_lo ==>
            l == spec_initial_lifetime(spawn_mat, *spawn_props),
{
    if rule.empty_neighbor_spawn_lifetime_hi > rule.empty_neighbor_spawn_lifetime_lo {
        gen_range_u8(rng, rule.empty_neighbor_spawn_lifetime_lo, rule.empty_neighbor_spawn_lifetime_hi)
    } else {
        World::initial_lifetime_for(spawn_mat, spawn_props)
    }
}

/// The eight neighbour offsets as a list, in [`neighbor8`] order.
fn neighbor_offsets() -> (v: Vec<Vec2i>)
    ensures
        v@.len() == 8,
        forall|i: int| 0 <= i < 8 ==> (#[trigger] v@[i]).x == spec_neighbor8(i).0 && v@[i].y == spec_neighbor8(i).1,
{
    let mut v: Vec<Vec2i> = Vec::new();
    let mut i: usize = 0;
    while i < 8
        invariant
            i <= 8, v@.len() == i,
            forall|j: int| 0 <= j < i ==> (#[trigger] v@[j]).x == spec_neighbor8(j).0 && v@[j].y == spec_neighbor8(j).1,
        decreases 8 - i,
    {
        let d = neighbor8(i);
        v.push(Vec2i::new(d.0, d.1));
        i = i + 1;
    }
    v
}

/// The `i`-th of the eight neighbours of `p`, in [`neighbor8`] order.
pub open spec fn neighbor_at(p: Vec2i, i: int) -> Vec2i {
    offset(p, spec_neighbor8(i).0 as int, spec_neighbor8(i).1 as int)
}

/// Some neighbour of `p` holds an empty in-progress cell.
pub open spec fn has_empty_neighbor(w: &World, p: Vec2i) -> bool {
    exists|i: int| 0 <= i < 8 && (#[trigger] w.sim_cell(neighbor_at(p, i)))@.material == material::EMPTY
}

/// Places the rule's empty-neighbour spawn in the first empty cell of a random permutation of the
/// eight neighbours of `victim_pos`. When the rule names a spawn and some neighbour is empty,
/// exactly one empty neighbour receives it (with the rule's lifetime and the spawned material's
/// base temperature); otherwise nothing changes.
fn try_place_influence_empty_neighbor_spawn(world: &mut World, victim_pos: Vec2i, rule: &AdjacentInfluenceRule, rng: &mut SmallRng)
    requires sim_ready(old(world), victim_pos, 2),
    ensures
        old(world).step_frame(final(world)),
        local_change(old(world), final(world), victim_pos, 1),
        rule.empty_neighbor_spawn == material::EMPTY || !has_empty_neighbor(old(world), victim_pos)
            ==> *final(world) == *old(world),
        keeps_materials_except(old(world), final(world), victim_pos, victim_pos),
        forall|r: Vec2i| old(world).sim_cell(r)@.material != material::EMPTY ==> #[trigger] final(world).sim_cell(r) == old(world).sim_cell(r),
        rule.empty_neighbor_spawn != material::EMPTY && has_empty_neighbor(old(world), victim_pos) ==>
            exists|i: int| 0 <= i < 8 && {
                let q = #[trigger] neighbor_at(victim_pos, i);
                let c = final(world).sim_cell(q)@;
                &&& old(world).sim_cell(q)@.material == material::EMPTY
                &&& c.material == rule.empty_neighbor_spawn & 0x3FF
                &&& c.temperature == (if crate::explosion::props_for(old(world), rule.empty_neighbor_spawn).base_temperature > crate::cell64::MAX_TEMPERATURE {
                        crate::cell64::MAX_TEMPERATURE } else { crate::explosion::props_for(old(world), rule.empty_neighbor_spawn).base_temperature })
                &&& (rule.empty_neighbor_spawn_lifetime_hi > rule.empty_neighbor_spawn_lifetime_lo ==>
                        rule.empty_neighbor_spawn_lifetime_lo <= c.lifetime < rule.empty_neighbor_spawn_lifetime_hi)
                &&& (rule.empty_neighbor_spawn_lifetime_hi <= rule.empty_neighbor_spawn_lifetime_lo ==>
                        c.lifetime == spec_initial_lifetime(rule.empty_neighbor_spawn, crate::explosion::props_for(old(world), rule.empty_neighbor_spawn)))
                &&& forall|r: Vec2i| r != q ==> #[trigger] final(world).sim_cell(r) == old(world).sim_cell(r)
            },
{
    let sm = rule.empty_neighbor_spawn;
    if sm == material::EMPTY {
        return;
    }
    let sprops = world.material_props(sm);
    let life = influence_empty_neighbor_spawn_lifetime(rule, sm, &sprops, rng);
    let mut offs = neighbor_offsets();
    let ghost before = offs@;
    shuffle_targets(&mut offs, rng);
    proof {
        offs@.to_multiset_ensures();
        before.to_multiset_ensures();
        assert forall|i: int| 0 <= i < 8 implies before.contains(#[trigger] offs@[i]) by {
            assert(offs@.contains(offs@[i]));
            assert(offs@.to_multiset().count(offs@[i]) > 0);
            assert(before.to_multiset().count(offs@[i]) > 0);
        }
        assert forall|j: int| 0 <= j < 8 implies offs@.contains(#[trigger] before[j]) by {
            assert(before.contains(before[j]));
            assert(before.to_multiset().count(before[j]) > 0);
            assert(offs@.to_multiset().count(before[j]) > 0);
        }
    }
    let ghost w0 = *world;
    let mut k: usize = 0;
    while k < 8
        invariant
            w0 == *old(world),
            sim_ready(&w0, victim_pos, 2),
            *world == w0,
            sm == rule.empty_neighbor_spawn, sm != material::EMPTY,
            sprops == crate::explosion::props_for(&w0, sm),
            rule.empty_neighbor_spawn_lifetime_hi > rule.empty_neighbor_spawn_lifetime_lo ==>
                rule.empty_neighbor_spawn_lifetime_lo <= life < rule.empty_neighbor_spawn_lifetime_hi,
            rule.empty_neighbor_spawn_lifetime_hi <= rule.empty_neighbor_spawn_lifetime_lo ==>
                life == spec_initial_lifetime(sm, sprops),
            offs@.len() == 8, before.len() == 8,
            forall|i: int| 0 <= i < 8 ==> (#[trigger] before[i]).x == spec_neighbor8(i).0 && before[i].y == spec_neighbor8(i).1,
            forall|i: int| 0 <= i < 8 ==> before.contains(#[trigger] offs@[i]),
            forall|j: int| 0 <= j < 8 ==> offs@.contains(#[trigger] before[j]),
            forall|i: int| 0 <= i < k ==> (#[trigger] w0.sim_cell(offset(victim_pos, offs@[i].x as int, offs@[i].y as int)))@.material != material::EMPTY,
            k <= 8,
        decreases 8 - k,
    {
        let o = offs[k];
        proof {
            assert(before.contains(offs@[k as int]));
            let j = choose|j: int| 0 <= j < before.len() && before[j] == offs@[k as int];
            assert(before[j].x == spec_neighbor8(j).0);
            assert(-1 <= o.x <= 1 && -1 <= o.y <= 1);
        }
        k = k + 1;
        let np = shifted(world, victim_pos, o.x, o.y);
        if world.sim_get(np).material() != material::EMPTY {
            continue;
        }
        let variant = gen_range_u8(rng, 0, 16);
        world.sim_put(np, Cell::new()
            .with_material(sm)
            .with_lifetime(life)
            .with_temperature(sprops.base_temperature)
            .with_variant(variant));
        proof {
            assert(before.contains(offs@[k - 1]));
            let j = choose|j: int| 0 <= j < before.len() && before[j] == offs@[k - 1];
            assert(neighbor_at(victim_pos, j) == np);
            crate::sim::lemma_stone_cell();
            assert(w0.in_grid(np));
            assert(has_empty_neighbor(&w0, victim_pos));
            assert forall|q: Vec2i| !within(victim_pos, q, 1) implies #[trigger] world.sim_cell(q) == w0.sim_cell(q) by {
                assert(q != np);
            }
            assert forall|r: Vec2i| r != neighbor_at(victim_pos, j) implies #[trigger] world.sim_cell(r) == w0.sim_cell(r) by {}
            assert forall|q: Vec2i| q != victim_pos && q != victim_pos && w0.sim_cell(q)@.material != material::EMPTY
                implies #[trigger] world.sim_cell(q)@.material == w0.sim_cell(q)@.material by {
                assert(q != np);
            }
            assert forall|r: Vec2i| w0.sim_cell(r)@.material != material::EMPTY implies #[trigger] world.sim_cell(r) == w0.sim_cell(r) by {
                assert(r != np);
            }
        }
        return;
    }
    proof {
        assert(!has_empty_neighbor(&w0, victim_pos)) by {
            assert forall|j: int| 0 <= j < 8 implies (#[trigger] w0.sim_cell(neighbor_at(victim_pos, j)))@.material != material::EMPTY by {
                assert(offs@.contains(before[j]));
                let i = choose|i: int| 0 <= i < offs@.len() && offs@[i] == before[j];
                assert(w0.sim_cell(offset(victim_pos, offs@[i].x as int, offs@[i].y as int))@.material != material::EMPTY);
            }
        }
    }
}

/// A write to `a`, then a change of `b` alone, then a change that keeps every non-empty cell's
/// material keep the materials of all non-empty cells other than `a` and `b`.
proof fn lemma_keeps_chain(w0: &World, w1: &World, w2: &World, w3: &World, a: Vec2i, b: Vec2i)
    requires
        forall|q: Vec2i| q != a ==> #[trigger] w1.sim_cell(q) == w0.sim_cell(q),
        local_change(w1, w2, b, 0),
        keeps_materials_except(w2, w3, a, a),
        forall|r: Vec2i| w2.sim_cell(r)@.material != material::EMPTY ==> #[trigger] w3.sim_cell(r) == w2.sim_cell(r),
    ensures
        keeps_materials_except(w0, w3, a, b),
        keeps_all_but_temperature_except(w0, w3, a, b),
{
    assert forall|q: Vec2i| q != a && q != b && w0.sim_cell(q)@.material != material::EMPTY
        implies #[trigger] w3.sim_cell(q)@.material == w0.sim_cell(q)@.material by {
        assert(w1.sim_cell(q) == w0.sim_cell(q));
        assert(!within(b, q, 0));
        assert(w2.sim_cell(q) == w1.sim_cell(q));
    }
    assert forall|q: Vec2i| q != a && q != b && w0.sim_cell(q)@.material != material::EMPTY
        implies (#[trigger] w3.sim_cell(q))@ == (CellFields { temperature: w3.sim_cell(q)@.temperature, ..w0.sim_cell(q)@ }) by {
        assert(w1.sim_cell(q) == w0.sim_cell(q));
        assert(!within(b, q, 0));
        assert(w2.sim_cell(q) == w1.sim_cell(q));
        assert(w3.sim_cell(q) == w2.sim_cell(q));
    }
}

/// The victim written with `c`, then the source effect, then a spawn into an empty cell give
/// [`influence_outcome`].
proof fn lemma_influence_outcome(w0: &World, w1: &World, w2: &World, w3: &World, source_pos: Vec2i, source_material: MaterialId,
    neighbor_pos: Vec2i, rule: AdjacentInfluenceRule, ncell: Cell, nprops: MaterialProps, c: Cell)
    requires
        source_pos != neighbor_pos,
        influence_victim_result(w0, rule, ncell, nprops, c),
        forall|q: Vec2i| #[trigger] w1.sim_cell(q) == (if q == neighbor_pos && w0.in_grid(neighbor_pos) { c } else { w0.sim_cell(q) }),
        w1.in_grid(source_pos) == w0.in_grid(source_pos),
        local_change(w1, w2, source_pos, 0),
        w1.in_grid(source_pos) ==> w2.sim_cell(source_pos)@ == source_effect_fields(w1.sim_cell(source_pos), source_material, rule.source_effect),
        forall|r: Vec2i| w2.sim_cell(r)@.material != material::EMPTY ==> #[trigger] w3.sim_cell(r) == w2.sim_cell(r),
    ensures
        influence_outcome(w0, *w3, source_pos, source_material, neighbor_pos, rule, ncell, nprops),
{
    assert(w1.sim_cell(source_pos) == w0.sim_cell(source_pos));
    if w0.in_grid(neighbor_pos) && c@.material != material::EMPTY {
        assert(w1.sim_cell(neighbor_pos) == c);
        assert(!within(source_pos, neighbor_pos, 0));
        assert(w2.sim_cell(neighbor_pos) == c);
        assert(w3.sim_cell(neighbor_pos) == c);
    }
}

/// The fields of source cell `c` after `effect`: cleared, or (while it still holds
/// `source_material`) its lifetime raised up to 255 or lowered down to 0.
pub open spec fn source_effect_fields(c: Cell, source_material: MaterialId, effect: InfluenceSourceEffect) -> CellFields {
    match effect {
        InfluenceSourceEffect::NoEffect => c@,
        InfluenceSourceEffect::ClearSourceCell => Cell(0)@,
        InfluenceSourceEffect::AddSourceLifetime(n) => if c@.material == source_material {
            CellFields { lifetime: if c@.lifetime + n <= 255 { (c@.lifetime + n) as u8 } else { 255u8 }, ..c@ }
        } else { c@ },
        InfluenceSourceEffect::SubtractSourceLifetime(n) => if c@.material == source_material {
            CellFields { lifetime: if c@.lifetime >= n { (c@.lifetime - n) as u8 } else { 0u8 }, ..c@ }
        } else { c@ },
    }
}

/// Effect of a successful influence on the source cell: cleared, or its lifetime raised or lowered
/// (saturating) while it still holds `source_material`.
fn apply_influence_source_effect(world: &mut World, source_pos: Vec2i, source_material: MaterialId, effect: InfluenceSourceEffect)
    requires old(world).wf(),
    ensures
        old(world).step_frame(final(world)),
        local_change(old(world), final(world), source_pos, 0),
        old(world).in_grid(source_pos) ==> final(world).sim_cell(source_pos)@
            == source_effect_fields(old(world).sim_cell(source_pos), source_material, effect),
        !old(world).in_grid(source_pos) ==> *final(world) == *old(world),
{
    match effect {
        InfluenceSourceEffect::NoEffect => {}
        InfluenceSourceEffect::ClearSourceCell => {
            world.sim_put(source_pos, Cell::new());
        }
        InfluenceSourceEffect::AddSourceLifetime(n) => {
            let c = world.sim_get(source_pos);
            if c.material() == source_material {
                let l = if c.lifetime() as u16 + n as u16 <= 255 { c.lifetime() + n } else { 255 };
                sim_set_lifetime(world, source_pos, l);
            }
        }
        InfluenceSourceEffect::SubtractSourceLifetime(n) => {
            let c = world.sim_get(source_pos);
            if c.material() == source_material {
                let l = if c.lifetime() >= n { c.lifetime() - n } else { 0 };
                sim_set_lifetime(world, source_pos, l);
            }
        }
    }
}

/// Success odds `(num, den)` of an influence rule with `chance_percent` on a neighbour of
/// ignitability `ign`, scaled by the heat factor `hn / hd`; `num >= den` means certain.
pub open spec fn influence_odds(rule: AdjacentInfluenceRule, ign: int, hn: int, hd: int) -> (int, int) {
    if rule.requires_victim_ignitability {
        if ign >= 255 { (1, 1) } else { (rule.chance_percent * hn * ign, 100 * hd * 255) }
    } else {
        (rule.chance_percent * hn, 100 * hd)
    }
}

/// The rule's flag update on a victim with flags `old_flags` clears a watched flag (or sets one)
/// that has a spawn attached, so the victim is replaced by that spawn.
pub open spec fn influence_transition_spawns(rule: AdjacentInfluenceRule, old_flags: u8) -> bool {
    let new_flags = (old_flags | rule.flags_or) & !rule.flags_clear;
    ||| (rule.if_cleared_mask != 0 && rule.spawn_on_clear_material != material::EMPTY
        && old_flags & rule.if_cleared_mask != 0 && new_flags & rule.if_cleared_mask == 0)
    ||| (rule.if_set_mask != 0 && rule.spawn_on_set_material != material::EMPTY
        && old_flags & rule.if_set_mask == 0 && new_flags & rule.if_set_mask != 0)
}

/// Influence rule `rule` takes effect on the victim `ncell` (props `nprops`) at offset `(dx, dy)`
/// when its roll succeeds: it is active, names the victim's material, allows the direction, finds
/// the required flags and none of the excluded ones, needs no ignitability or finds some, and —
/// unless its flag update replaces the victim — has the lifetime it asks for.
pub open spec fn influence_rule_applies(rule: AdjacentInfluenceRule, ncell: Cell, nprops: MaterialProps, dx: int, dy: int) -> bool {
    &&& rule.spec_is_active()
    &&& ncell@.material == rule.victim
    &&& (!rule.cardinal_neighbors_only || dx == 0 || dy == 0)
    &&& (rule.require_victim_flags_any == 0 || ncell@.flags & rule.require_victim_flags_any != 0)
    &&& (rule.exclude_victim_flags_any == 0 || ncell@.flags & rule.exclude_victim_flags_any == 0)
    &&& (!rule.requires_victim_ignitability || nprops.ignitability > 0)
    &&& (influence_transition_spawns(rule, ncell@.flags) || !(rule.victim_lifetime is UseVictimFuelMass) || nprops.fuel_mass > 0)
}

/// The roll of `rule` cannot fail: its odds are at least one.
pub open spec fn influence_certain(rule: AdjacentInfluenceRule, nprops: MaterialProps, hn: int, hd: int) -> bool {
    let o = influence_odds(rule, nprops.ignitability as int, hn, hd);
    o.0 >= o.1
}

/// Cell `c` is a spawn of material `sm` from rule `rule` in world `w`: that material, no flags, the
/// material's base temperature (capped), and the rule's spawn lifetime (from its range when
/// non-empty, else the material's initial lifetime).
pub open spec fn influence_spawn_cell(w: &World, rule: AdjacentInfluenceRule, sm: MaterialId, c: Cell) -> bool {
    let sp = crate::explosion::props_for(w, sm);
    &&& c@.material == sm & 0x3FF
    &&& c@.flags == 0
    &&& c@.temperature == (if sp.base_temperature > crate::cell64::MAX_TEMPERATURE { crate::cell64::MAX_TEMPERATURE } else { sp.base_temperature })
    &&& (rule.spawn_lifetime_hi > rule.spawn_lifetime_lo ==> rule.spawn_lifetime_lo <= c@.lifetime < rule.spawn_lifetime_hi)
    &&& (rule.spawn_lifetime_hi <= rule.spawn_lifetime_lo ==> c@.lifetime == spec_initial_lifetime(sm, sp))
}

/// Cell `c` is what rule `rule` makes of the victim `ncell` (props `nprops`) in world `w`: a flag
/// transition with a spawn replaces it by that spawn; otherwise its flags are updated and its
/// lifetime kept, set, or set to its fuel mass, as the rule says.
pub open spec fn influence_victim_result(w: &World, rule: AdjacentInfluenceRule, ncell: Cell, nprops: MaterialProps, c: Cell) -> bool {
    let old_flags = ncell@.flags;
    let new_flags = (old_flags | rule.flags_or) & !rule.flags_clear;
    let cleared = rule.if_cleared_mask != 0 && rule.spawn_on_clear_material != material::EMPTY
        && old_flags & rule.if_cleared_mask != 0 && new_flags & rule.if_cleared_mask == 0;
    let set = rule.if_set_mask != 0 && rule.spawn_on_set_material != material::EMPTY
        && old_flags & rule.if_set_mask == 0 && new_flags & rule.if_set_mask != 0;
    if cleared {
        influence_spawn_cell(w, rule, rule.spawn_on_clear_material, c)
    } else if set {
        influence_spawn_cell(w, rule, rule.spawn_on_set_material, c)
    } else {
        c@ == (CellFields {
            flags: new_flags,
            lifetime: match rule.victim_lifetime {
                InfluenceVictimLifetime::Unchanged => ncell@.lifetime,
                InfluenceVictimLifetime::SetTo(v) => v,
                InfluenceVictimLifetime::UseVictimFuelMass => nprops.fuel_mass,
            },
            ..ncell@
        })
    }
}

/// `w2` is `w` after rule `rule` took effect on the victim `ncell` (props `nprops`) at
/// `neighbor_pos`: a grid victim becomes [`influence_victim_result`] (unless that is empty, when
/// the empty-neighbour spawn may take its place), and a grid source becomes
/// [`source_effect_fields`] under the same proviso.
pub open spec fn influence_outcome(w: &World, w2: World, source_pos: Vec2i, source_material: MaterialId, neighbor_pos: Vec2i,
    rule: AdjacentInfluenceRule, ncell: Cell, nprops: MaterialProps) -> bool
{
    let sf = source_effect_fields(w.sim_cell(source_pos), source_material, rule.source_effect);
    &&& exists|c: Cell| #[trigger] influence_victim_result(w, rule, ncell, nprops, c)
            && (w.in_grid(neighbor_pos) && c@.material != material::EMPTY ==> w2.sim_cell(neighbor_pos) == c)
    &&& w.in_grid(source_pos) && sf.material != material::EMPTY ==> w2.sim_cell(source_pos)@ == sf
}

/// Tries the influence `rules` of the source at `source_pos` (holding `source_material`) on the
/// neighbour at `neighbor_pos` (offset `(dx, dy)`); the first rule that matches the victim and
/// wins its roll applies: a flag transition may replace the victim with a spawn, otherwise its
/// flags and lifetime are updated; then the source effect and the empty-neighbour spawn run.
/// Returns whether a rule applied; when none did, nothing changed.
pub fn try_adjacent_influence_on_neighbor(
    world: &mut World,
    source_pos: Vec2i,
    source_material: MaterialId,
    neighbor_pos: Vec2i,
    dx: i32,
    dy: i32,
    rules: &[AdjacentInfluenceRule; 8],
    hf_num: u32,
    hf_den: u32,
    rng: &mut SmallRng,
) -> (applied: bool)
    requires
        sim_ready(old(world), source_pos, 1),
        heat_ok(hf_num, hf_den),
        -1 <= dx <= 1, -1 <= dy <= 1,
        neighbor_pos == crate::sim::offset(source_pos, dx as int, dy as int),
    ensures
        old(world).step_frame(final(world)),
        local_change(old(world), final(world), source_pos, 2),
        !applied ==> *final(world) == *old(world),
        keeps_materials_except(old(world), final(world), neighbor_pos, source_pos),
        keeps_all_but_temperature_except(old(world), final(world), neighbor_pos, source_pos),
        ({
            let w = old(world);
            let ncell = w.sim_cell(neighbor_pos);
            let nprops = w.props_of(ncell@.material);
            let eligible = w.sim_cell(source_pos)@.material == source_material
                && ncell@.material != material::EMPTY && ncell@.material != source_material;
            &&& applied ==> eligible && exists|i: int| 0 <= i < 8 && influence_rule_applies(#[trigger] rules[i], ncell, nprops, dx as int, dy as int)
            &&& (eligible && exists|i: int| 0 <= i < 8 && influence_rule_applies(#[trigger] rules[i], ncell, nprops, dx as int, dy as int)
                    && influence_certain(rules[i], nprops, hf_num as int, hf_den as int)
                    && forall|j: int| 0 <= j < i ==> !influence_rule_applies(#[trigger] rules[j], ncell, nprops, dx as int, dy as int))
                ==> applied
            &&& applied ==> exists|i: int| 0 <= i < 8 && influence_outcome(w, *final(world), source_pos, source_material, neighbor_pos,
                    #[trigger] rules[i], ncell, nprops)
                    && forall|j: int| 0 <= j < i && influence_rule_applies(#[trigger] rules[j], ncell, nprops, dx as int, dy as int)
                        ==> !influence_certain(rules[j], nprops, hf_num as int, hf_den as int)
        }),
{
    if world.sim_get(source_pos).material() != source_material {
        return false;
    }
    let ncell = world.sim_get(neighbor_pos);
    if ncell.material() == material::EMPTY || ncell.material() == source_material {
        return false;
    }
    let nprops = world.material_props(ncell.material());
    let ghost w0 = *world;
    let mut i: usize = 0;
    while i < 8
        invariant
            w0 == *old(world),
            *world == w0,
            sim_ready(&w0, source_pos, 1),
            heat_ok(hf_num, hf_den),
            -1 <= dx <= 1, -1 <= dy <= 1,
            neighbor_pos == crate::sim::offset(source_pos, dx as int, dy as int),
            i <= 8,
            ncell == w0.sim_cell(neighbor_pos),
            nprops == w0.props_of(ncell@.material),
            w0.sim_cell(source_pos)@.material == source_material,
            ncell@.material != material::EMPTY,
            ncell@.material != source_material,
            forall|j: int| 0 <= j < i ==> (influence_rule_applies(#[trigger] rules[j], ncell, nprops, dx as int, dy as int)
                ==> !influence_certain(rules[j], nprops, hf_num as int, hf_den as int)),
        decreases 8 - i,
    {
        let rule = rules[i];
        i = i + 1;
        if !rule.is_active() {
            continue;
        }
        if ncell.material() != rule.victim {
            continue;
        }
        if rule.cardinal_neighbors_only && !(dx == 0 || dy == 0) {
            continue;
        }
        if rule.require_victim_flags_any != 0 && (ncell.flags() & rule.require_victim_flags_any) == 0 {
            continue;
        }
        if rule.exclude_victim_flags_any != 0 && (ncell.flags() & rule.exclude_victim_flags_any) != 0 {
            continue;
        }
        let chance = rule.chance_percent as u32;
        proof {
            assert(chance * hf_num <= 255 * 255) by (nonlinear_arith) requires chance <= 255, hf_num <= 255;
            assert(chance * hf_num * 254 <= 255 * 255 * 254) by (nonlinear_arith) requires chance * hf_num <= 255 * 255;
        }
        let ch = chance * hf_num;
        let (num, den): (u32, u32) = if rule.requires_victim_ignitability {
            let ign = nprops.ignitability as u32;
            if ign == 0 {
                continue;
            }
            if ign >= 255 {
                (1, 1)
            } else {
                proof { assert(ch * ign <= 255 * 255 * 254) by (nonlinear_arith) requires ch <= 255 * 255, ign <= 254; }
                (ch * ign, 100 * hf_den * 255)
            }
        } else {
            (ch, 100 * hf_den)
        };
        if num < den && !gen_ratio(rng, num, den) {
            continue;
        }
        let old_flags = ncell.flags();
        let new_flags = (old_flags | rule.flags_or) & !rule.flags_clear;
        if rule.if_cleared_mask != 0 && rule.spawn_on_clear_material != material::EMPTY {
            let m = rule.if_cleared_mask;
            if (old_flags & m) != 0 && (new_flags & m) == 0 {
                let sm = rule.spawn_on_clear_material;
                let sprops = world.material_props(sm);
                let life = influence_transition_spawn_lifetime(&rule, sm, &sprops, rng);
                proof {
                    assert(influence_transition_spawns(rule, ncell@.flags));
                    assert(influence_rule_applies(rules[i - 1], ncell, nprops, dx as int, dy as int));
                }
                let spawned = Cell::new().with_material(sm).with_lifetime(life).with_temperature(sprops.base_temperature);
                proof {
                    crate::cell64::lemma_zero_fields();
                    assert(influence_victim_result(&w0, rule, ncell, nprops, spawned));
                }
                world.sim_put(neighbor_pos, spawned);
                let ghost w1 = *world;
                apply_influence_source_effect(world, source_pos, source_material, rule.source_effect);
                let ghost w2 = *world;
                try_place_influence_empty_neighbor_spawn(world, neighbor_pos, &rule, rng);
                proof {
                    lemma_keeps_chain(&w0, &w1, &w2, world, neighbor_pos, source_pos);
                    lemma_influence_outcome(&w0, &w1, &w2, world, source_pos, source_material, neighbor_pos, rule, ncell, nprops, spawned);
                }
                return true;
            }
        }
        if rule.if_set_mask != 0 && rule.spawn_on_set_material != material::EMPTY {
            let m = rule.if_set_mask;
            if (old_flags & m) == 0 && (new_flags & m) != 0 {
                let sm = rule.spawn_on_set_material;
                let sprops = world.material_props(sm);
                let life = influence_transition_spawn_lifetime(&rule, sm, &sprops, rng);
                proof {
                    assert(influence_transition_spawns(rule, ncell@.flags));
                    assert(influence_rule_applies(rules[i - 1], ncell, nprops, dx as int, dy as int));
                }
                let spawned = Cell::new().with_material(sm).with_lifetime(life).with_temperature(sprops.base_temperature);
                proof {
                    crate::cell64::lemma_zero_fields();
                    assert(influence_victim_result(&w0, rule, ncell, nprops, spawned));
                }
                world.sim_put(neighbor_pos, spawned);
                let ghost w1 = *world;
                apply_influence_source_effect(world, source_pos, source_material, rule.source_effect);
                let ghost w2 = *world;
                try_place_influence_empty_neighbor_spawn(world, neighbor_pos, &rule, rng);
                proof {
                    lemma_keeps_chain(&w0, &w1, &w2, world, neighbor_pos, source_pos);
                    lemma_influence_outcome(&w0, &w1, &w2, world, source_pos, source_material, neighbor_pos, rule, ncell, nprops, spawned);
                }
                return true;
            }
        }
        let new_lifetime = match rule.victim_lifetime {
            InfluenceVictimLifetime::Unchanged => ncell.lifetime(),
            InfluenceVictimLifetime::SetTo(v) => v,
            InfluenceVictimLifetime::UseVictimFuelMass => {
                if nprops.fuel_mass == 0 {
                    continue;
                }
                nprops.fuel_mass
            }
        };
        let mut updated = world.sim_get(neighbor_pos);
        updated.set_flags((updated.flags() | rule.flags_or) & !rule.flags_clear);
        updated.set_lifetime(new_lifetime);
        proof { assert(influence_victim_result(&w0, rule, ncell, nprops, updated)); }
        world.sim_put(neighbor_pos, updated);
        let ghost w1 = *world;
        apply_influence_source_effect(world, source_pos, source_material, rule.source_effect);
        let ghost w2 = *world;
        try_place_influence_empty_neighbor_spawn(world, neighbor_pos, &rule, rng);
        proof {
            lemma_keeps_chain(&w0, &w1, &w2, world, neighbor_pos, source_pos);
            lemma_influence_outcome(&w0, &w1, &w2, world, source_pos, source_material, neighbor_pos, rule, ncell, nprops, updated);
        }
        return true;
    }
    false
}

/// Runs the influence `rules` of the source at `p` on all eight neighbours in turn, stopping once
/// the source cell no longer holds `source_material`; returns whether it stopped for that reason.
pub fn liquid_adjacent_influence_pass(world: &mut World, p: Vec2i, source_material: MaterialId, rules: &[AdjacentInfluenceRule; 8], rng: &mut SmallRng) -> (gone: bool)
    requires sim_ready(old(world), p, 1),
    ensures
        old(world).step_frame(final(world)),
        local_change(old(world), final(world), p, 2),
        !gone ==> final(world).sim_cell(p)@.material == source_material,
        gone ==> final(world).sim_cell(p)@.material != source_material || final(world).sim_cell(p)@.material == material::EMPTY,
        old(world).sim_cell(p)@.material != source_material ==> gone && *final(world) == *old(world),
{
    let ghost w0 = *world;
    let mut n: usize = 0;
    while n < 8
        invariant
            w0 == *old(world),
            sim_ready(&w0, p, 1),
            w0.step_frame(world),
            local_change(&w0, world, p, 2),
            n <= 8,
            n > 0 ==> world.sim_cell(p)@.material == source_material,
            n > 0 ==> w0.sim_cell(p)@.material == source_material,
            n == 0 ==> *world == w0,
        decreases 8 - n,
    {
        if world.sim_get(p).material() != source_material {
            return true;
        }
        let d = neighbor8(n);
        n = n + 1;
        let np = shifted(world, p, d.0, d.1);
        if try_adjacent_influence_on_neighbor(world, p, source_material, np, d.0, d.1, rules, 1, 1, rng) {
            let m = world.sim_get(p).material();
            if m == material::EMPTY || m != source_material {
                return true;
            }
        }
    }
    false
}

/// A fresh steam cell at 393 K with a random lifetime in `36..72`.
pub fn water_to_steam_cell(rng: &mut SmallRng) -> (c: Cell)
    ensures
        c@.material == material::STEAM,
        c@.temperature == 393,
        36 <= c@.lifetime < 72,
        c@.flags == 0,
{
    let l = gen_range_u8(rng, 36, 72);
    proof {
        crate::cell64::lemma_zero_fields();
        crate::sim::lemma_material_mask(material::STEAM);
    }
    Cell::new().with_material(material::STEAM).with_lifetime(l).with_temperature(393)
}

} // verus!
