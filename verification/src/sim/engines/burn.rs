//! Burning: ignition of neighbours, smoulder burnout, fuel elimination and neighbour spawns.
use vstd::prelude::*;
use rand::rngs::SmallRng;

use crate::cell64::{Cell, CellFields, MAX_TEMPERATURE};
use crate::world::cell_flags;
use crate::world::geom::Vec2i;
use crate::world::material;
use crate::world::props::{MaterialProps, Phase};
use crate::world::state::World;
use crate::world::MaterialId;
use crate::sim::rng::{gen_range_u8, gen_range_usize, gen_ratio};
use crate::sim::thermal::{tdiv, tdiv_i64, thermal_props_for};
use crate::sim::{cardinal4, keeps_all_but_temperature_except, keeps_materials_except, local_change, neighbor8, shifted, sim_ready, spec_cardinal4};
use super::influence::{heat_ok, neighbor_at, try_adjacent_influence_on_neighbor, water_to_steam_cell};

verus! {

/// Scale of the ignition heat pulse.
pub const IGNITION_PULSE_SCALE: i64 = 256;

/// The `i`-th of the four cardinal neighbours of `p`, in [`cardinal4`] order.
pub open spec fn cardinal_at(p: Vec2i, i: int) -> Vec2i {
    crate::sim::offset(p, spec_cardinal4(i).0 as int, spec_cardinal4(i).1 as int)
}

/// `q` is one of the four cardinal neighbours of `p`.
pub open spec fn is_cardinal_of(p: Vec2i, q: Vec2i) -> bool {
    ||| (q.x == p.x && (q.y == p.y - 1 || q.y == p.y + 1))
    ||| (q.y == p.y && (q.x == p.x - 1 || q.x == p.x + 1))
}

/// Strength of the ignition heat pulse of a material: its configured pulse, or else six times its
/// heat generation rate, at least 8.
pub open spec fn ignition_pulse(props: MaterialProps) -> int {
    if props.ignition_thermal_pulse != 0 {
        props.ignition_thermal_pulse as int
    } else if props.heat_generation_rate * 6 >= 8 {
        props.heat_generation_rate * 6
    } else {
        8
    }
}

/// Fields of cell `c` (props `nprops`) after an ignition pulse of strength `pulse`: stone keeps
/// them; any other cell has its temperature moved by `pulse * 256 / capacity` (rounded toward
/// zero, capacity at least 1), clamped to `0..=MAX_TEMPERATURE`.
pub open spec fn pulsed_fields(c: Cell, nprops: MaterialProps, pulse: int) -> crate::cell64::CellFields {
    if c@.material == material::STONE {
        c@
    } else {
        let vhc: int = if nprops.volumetric_heat_capacity >= 1 { nprops.volumetric_heat_capacity as int } else { 1 };
        let t = c@.temperature + tdiv(pulse * IGNITION_PULSE_SCALE, vhc);
        crate::cell64::CellFields {
            temperature: (if t < 0 { 0 } else if t > MAX_TEMPERATURE { MAX_TEMPERATURE as int } else { t }) as u16,
            ..c@
        }
    }
}

/// When a cell first becomes burning fuel, heat (or, for a negative `ignition_thermal_pulse`, cool)
/// its four cardinal neighbours; the change is inversely proportional to each neighbour's heat
/// capacity. Stone is not affected.
pub fn apply_ignition_neighbor_pulse(world: &mut World, center: Vec2i, props: &MaterialProps)
    requires sim_ready(old(world), center, 2),
    ensures
        old(world).step_frame(final(world)),
        local_change(old(world), final(world), center, 1),
        forall|i: int| 0 <= i < 4 && old(world).in_grid(cardinal_at(center, i)) ==>
            (#[trigger] final(world).sim_cell(cardinal_at(center, i)))@ == pulsed_fields(
                old(world).sim_cell(cardinal_at(center, i)),
                old(world).props_of(old(world).sim_cell(cardinal_at(center, i))@.material),
                ignition_pulse(*props)),
        forall|q: Vec2i| !is_cardinal_of(center, q) ==> #[trigger] final(world).sim_cell(q) == old(world).sim_cell(q),
        forall|q: Vec2i| #[trigger] final(world).sim_cell(q)@.material == old(world).sim_cell(q)@.material,
{
    let pulse: i64 = if props.ignition_thermal_pulse != 0 {
        props.ignition_thermal_pulse as i64
    } else {
        let h = props.heat_generation_rate as i64 * 6;
        if h >= 8 { h } else { 8 }
    };
    let ghost w0 = *world;
    let mut i: usize = 0;
    while i < 4
        invariant
            sim_ready(&w0, center, 2),
            w0 == *old(world),
            w0.step_frame(world),
            local_change(&w0, world, center, 1),
            -32768 <= pulse <= 65535 * 6,
            pulse == ignition_pulse(*props),
            i <= 4,
            forall|j: int| 0 <= j < i && w0.in_grid(cardinal_at(center, j)) ==>
                (#[trigger] world.sim_cell(cardinal_at(center, j)))@ == pulsed_fields(
                    w0.sim_cell(cardinal_at(center, j)), w0.props_of(w0.sim_cell(cardinal_at(center, j))@.material), pulse as int),
            forall|j: int| i <= j < 4 ==> #[trigger] world.sim_cell(cardinal_at(center, j)) == w0.sim_cell(cardinal_at(center, j)),
            forall|q: Vec2i| !is_cardinal_of(center, q) ==> #[trigger] world.sim_cell(q) == w0.sim_cell(q),
            forall|q: Vec2i| #[trigger] world.sim_cell(q)@.material == w0.sim_cell(q)@.material,
        decreases 4 - i,
    {
        let d = cardinal4(i);
        let ghost ii = i as int;
        let ghost wb = *world;
        i = i + 1;
        let np = shifted(world, center, d.0, d.1);
        proof {
            assert(np == cardinal_at(center, ii));
            assert forall|j: int| 0 <= j < 4 && j != ii implies cardinal_at(center, j) != np by {}
        }
        let nc = world.sim_get(np);
        proof {
            assert(wb.sim_cell(cardinal_at(center, ii)) == w0.sim_cell(cardinal_at(center, ii)));
            crate::sim::lemma_stone_cell();
        }
        let np_props = match thermal_props_for(nc, world) {
            Some(pr) => pr,
            None => { continue; }
        };
        let vhc: i64 = if np_props.volumetric_heat_capacity >= 1 { np_props.volumetric_heat_capacity as i64 } else { 1 };
        let dt = tdiv_i64(pulse * IGNITION_PULSE_SCALE, vhc);
        let t = nc.temperature() as i64 + dt;
        let nt: u16 = if t < 0 { 0 } else if t > MAX_TEMPERATURE as i64 { MAX_TEMPERATURE } else { t as u16 };
        crate::sim::sim_set_temperature(world, np, nt);
        proof {
            assert forall|q: Vec2i| #[trigger] world.sim_cell(q)@.material == w0.sim_cell(q)@.material by {
                assert(wb.sim_cell(q)@.material == w0.sim_cell(q)@.material);
            }
            assert forall|q: Vec2i| !is_cardinal_of(center, q) implies #[trigger] world.sim_cell(q) == w0.sim_cell(q) by {
                assert(q != np);
                assert(wb.sim_cell(q) == w0.sim_cell(q));
            }
            assert forall|j: int| i <= j < 4 implies #[trigger] world.sim_cell(cardinal_at(center, j)) == w0.sim_cell(cardinal_at(center, j)) by {
                assert(cardinal_at(center, j) != np);
                assert(wb.sim_cell(cardinal_at(center, j)) == w0.sim_cell(cardinal_at(center, j)));
            }
            assert forall|j: int| 0 <= j < i && w0.in_grid(cardinal_at(center, j)) implies
                (#[trigger] world.sim_cell(cardinal_at(center, j)))@ == pulsed_fields(
                    w0.sim_cell(cardinal_at(center, j)), w0.props_of(w0.sim_cell(cardinal_at(center, j))@.material), pulse as int) by {
                if j != ii {
                    assert(cardinal_at(center, j) != np);
                    assert(world.sim_cell(cardinal_at(center, j)) == wb.sim_cell(cardinal_at(center, j)));
                }
            }
        }
    }
}

/// Material left when smouldering is quenched: the configured one, or smoke.
pub fn smolder_replacement_material(props: &MaterialProps) -> (m: MaterialId)
    ensures m == (if props.smolder_extinguish_material == material::EMPTY { material::SMOKE } else { props.smolder_extinguish_material }),
{
    if props.smolder_extinguish_material == material::EMPTY {
        material::SMOKE
    } else {
        props.smolder_extinguish_material
    }
}

/// Lifetime of the cell replacing a dying fire-like cell: from `on_death_lifetime_lo..hi` when that
/// range is non-empty, else from `20..60`.
pub fn on_death_replacement_lifetime(props: &MaterialProps, rng: &mut SmallRng) -> (l: u8)
    ensures
        props.on_death_lifetime_hi > props.on_death_lifetime_lo ==> props.on_death_lifetime_lo <= l < props.on_death_lifetime_hi,
        props.on_death_lifetime_hi <= props.on_death_lifetime_lo ==> 20 <= l < 60,
{
    let lo = props.on_death_lifetime_lo;
    let hi = props.on_death_lifetime_hi;
    if hi > lo {
        gen_range_u8(rng, lo, hi)
    } else {
        gen_range_u8(rng, 20, 60)
    }
}

/// Lifetime range of the cell left by quenched smouldering (default `24..64`).
pub fn smolder_replacement_lifetime_range(props: &MaterialProps) -> (r: (u8, u8))
    ensures
        r.0 < r.1,
        props.smolder_extinguish_lifetime_hi > props.smolder_extinguish_lifetime_lo ==>
            r == (props.smolder_extinguish_lifetime_lo, props.smolder_extinguish_lifetime_hi),
        props.smolder_extinguish_lifetime_hi <= props.smolder_extinguish_lifetime_lo ==> r == (24u8, 64u8),
{
    let lo = props.smolder_extinguish_lifetime_lo;
    let hi = props.smolder_extinguish_lifetime_hi;
    if hi > lo { (lo, hi) } else { (24, 64) }
}

/// Lifetime range of the cell left by smoulder burnout (default `20..56`).
pub fn smolder_burnout_lifetime_range(props: &MaterialProps) -> (r: (u8, u8))
    ensures
        r.0 < r.1,
        props.smolder_burnout_lifetime_hi > props.smolder_burnout_lifetime_lo ==>
            r == (props.smolder_burnout_lifetime_lo, props.smolder_burnout_lifetime_hi),
        props.smolder_burnout_lifetime_hi <= props.smolder_burnout_lifetime_lo ==> r == (20u8, 56u8),
{
    let lo = props.smolder_burnout_lifetime_lo;
    let hi = props.smolder_burnout_lifetime_hi;
    if hi > lo { (lo, hi) } else { (20, 56) }
}

/// Replacement for a fuel with no `fuel_mass` that heat ignites at once: its burnout material (or
/// fire) with a lifetime capped at `child_life_cap`.
pub fn instant_heat_ignition_cell(nprops: &MaterialProps, child_life_cap: u8, rng: &mut SmallRng) -> (r: (MaterialId, u8))
    ensures
        r.0 == (if nprops.smolder_burnout_become != material::EMPTY { nprops.smolder_burnout_become } else { material::FIRE }),
        r.1 <= child_life_cap,
{
    let mat = if nprops.smolder_burnout_become != material::EMPTY { nprops.smolder_burnout_become } else { material::FIRE };
    let raw_life = if nprops.smolder_burnout_lifetime_hi > nprops.smolder_burnout_lifetime_lo {
        gen_range_u8(rng, nprops.smolder_burnout_lifetime_lo, nprops.smolder_burnout_lifetime_hi)
    } else if nprops.smolder_burnout_become != material::EMPTY {
        let (lo, hi) = smolder_burnout_lifetime_range(nprops);
        gen_range_u8(rng, lo, hi)
    } else {
        let d = gen_range_u8(rng, 10, 30);
        if child_life_cap >= d { child_life_cap - d } else { 0 }
    };
    (mat, if raw_life <= child_life_cap { raw_life } else { child_life_cap })
}

/// Replacement material and lifetime range when smouldering ends, as
/// [`smolder_elimination_replace`] gives them.
pub open spec fn smolder_elimination_replace_spec(props: MaterialProps, is_burnout: bool) -> (u16, u8, u8) {
    if is_burnout && props.smolder_burnout_become != material::EMPTY {
        (props.smolder_burnout_become,
            if props.smolder_burnout_lifetime_hi > props.smolder_burnout_lifetime_lo { props.smolder_burnout_lifetime_lo } else { 20u8 },
            if props.smolder_burnout_lifetime_hi > props.smolder_burnout_lifetime_lo { props.smolder_burnout_lifetime_hi } else { 56u8 })
    } else {
        (if props.smolder_extinguish_material == material::EMPTY { material::SMOKE } else { props.smolder_extinguish_material },
            if props.smolder_extinguish_lifetime_hi > props.smolder_extinguish_lifetime_lo { props.smolder_extinguish_lifetime_lo } else { 24u8 },
            if props.smolder_extinguish_lifetime_hi > props.smolder_extinguish_lifetime_lo { props.smolder_extinguish_lifetime_hi } else { 64u8 })
    }
}

/// Replacement material and lifetime range when smouldering ends: the burnout material on a
/// burnout that has one, else the quench material.
pub fn smolder_elimination_replace(props: &MaterialProps, is_burnout: bool) -> (r: (MaterialId, u8, u8))
    ensures
        r.1 < r.2,
        is_burnout && props.smolder_burnout_become != material::EMPTY ==> (r.1, r.2) == (
            if props.smolder_burnout_lifetime_hi > props.smolder_burnout_lifetime_lo {
                (props.smolder_burnout_lifetime_lo, props.smolder_burnout_lifetime_hi) } else { (20u8, 56u8) }),
        !(is_burnout && props.smolder_burnout_become != material::EMPTY) ==> (r.1, r.2) == (
            if props.smolder_extinguish_lifetime_hi > props.smolder_extinguish_lifetime_lo {
                (props.smolder_extinguish_lifetime_lo, props.smolder_extinguish_lifetime_hi) } else { (24u8, 64u8) }),
        is_burnout && props.smolder_burnout_become != material::EMPTY ==> r.0 == props.smolder_burnout_become,
        !(is_burnout && props.smolder_burnout_become != material::EMPTY) ==>
            r.0 == (if props.smolder_extinguish_material == material::EMPTY { material::SMOKE } else { props.smolder_extinguish_material }),
{
    if is_burnout && props.smolder_burnout_become != material::EMPTY {
        let (lo, hi) = smolder_burnout_lifetime_range(props);
        (props.smolder_burnout_become, lo, hi)
    } else {
        let mat = smolder_replacement_material(props);
        let (lo, hi) = smolder_replacement_lifetime_range(props);
        (mat, lo, hi)
    }
}

/// Heat ignition of a neighbour with props `nprops` at heat factor `hn / hd` cannot fail: it is
/// ignitable and its ignitability is 255 or its odds reach one.
pub open spec fn ignition_certain(nprops: MaterialProps, hn: int, hd: int) -> bool {
    nprops.ignitability > 0 && (nprops.ignitability == 255 || nprops.ignitability * hn >= 255 * hd)
}

/// Temperature `t` capped at the maximum a cell stores.
pub open spec fn capped_temperature(t: int) -> int {
    if t > MAX_TEMPERATURE { MAX_TEMPERATURE as int } else { t }
}

/// What heat ignition of the victim `ncell` (props `nprops`) at `np` does, with heat factor
/// `hn / hd`, turning world `w` with explosions `e` into `w2` with `e2`: an unignitable victim
/// changes nothing; with certain odds an explosive is queued and cleared, an `on_heat_become`
/// material takes its place (keeping lifetime and variant, at that material's base temperature),
/// and fuel starts burning (flagged, lifetime its fuel mass unless it already burned, temperature
/// at least its autoignition point); no explosion is queued in the last two cases.
pub open spec fn ignition_outcome(w: &World, w2: &World, e: Seq<(Vec2i, i32)>, e2: Seq<(Vec2i, i32)>, np: Vec2i,
    ncell: Cell, nprops: MaterialProps, hn: int, hd: int) -> bool
{
    let certain = ignition_certain(nprops, hn, hd);
    let c = w2.sim_cell(np)@;
    &&& nprops.ignitability == 0 ==> *w2 == *w && e2 == e
    &&& certain && nprops.explosion_radius > 0 ==> {
        &&& e2 == e.push((np, nprops.explosion_radius as i32))
        &&& w.in_grid(np) ==> w2.sim_cell(np) == Cell(0)
    }
    &&& certain && nprops.explosion_radius == 0 && nprops.on_heat_become != material::EMPTY && w.in_grid(np) ==> {
        &&& c.material == nprops.on_heat_become & 0x3FF
        &&& c.flags == 0
        &&& c.lifetime == ncell@.lifetime
        &&& c.variant == ncell@.variant & 3
        &&& c.temperature == capped_temperature(crate::explosion::props_for(w, nprops.on_heat_become).base_temperature as int)
        &&& e2 == e
    }
    &&& certain && nprops.explosion_radius == 0 && nprops.on_heat_become == material::EMPTY && nprops.fuel_mass > 0 && w.in_grid(np) ==> {
        &&& c.material == ncell@.material
        &&& c.flags == ncell@.flags | cell_flags::ON_FIRE
        &&& ncell@.flags & cell_flags::ON_FIRE != 0 ==> *w2 == *w
        &&& ncell@.flags & cell_flags::ON_FIRE == 0 ==> {
            &&& c.lifetime == nprops.fuel_mass
            &&& c.temperature == capped_temperature(if ncell@.temperature >= nprops.autoignition_temperature {
                    ncell@.temperature as int } else { nprops.autoignition_temperature as int })
            &&& c.variant == ncell@.variant & 3
        }
        &&& e2 == e
    }
}

/// Heat ignition of the neighbour `ncell` (props `nprops`) at `np` that no influence rule took:
/// with odds `ignitability/255 × heat factor` (certain at 255) it explodes, turns into its
/// `on_heat_become` material, starts burning as fuel (with an ignition pulse), or — unless solid —
/// becomes an instant-heat replacement.
fn ignite_neighbor(
    world: &mut World,
    np: Vec2i,
    ncell: Cell,
    nprops: &MaterialProps,
    hf_num: u32,
    hf_den: u32,
    child_life_cap: u8,
    rng: &mut SmallRng,
    explosions: &mut Vec<(Vec2i, i32)>,
)
    requires
        sim_ready(old(world), np, 2),
        heat_ok(hf_num, hf_den),
        ncell == old(world).sim_cell(np),
        *nprops == old(world).props_of(ncell@.material),
    ensures
        old(world).step_frame(final(world)),
        local_change(old(world), final(world), np, 1),
        old(explosions)@.is_prefix_of(final(explosions)@),
        keeps_materials_except(old(world), final(world), np, np),
        keeps_all_but_temperature_except(old(world), final(world), np, np),
        ignition_outcome(old(world), final(world), old(explosions)@, final(explosions)@, np, ncell, *nprops, hf_num as int, hf_den as int),
{
    if nprops.ignitability == 0 {
        return;
    }
    let always_ignite = nprops.ignitability == 255;
    if !always_ignite {
        proof { assert(nprops.ignitability as u32 * hf_num <= 255 * 255) by (nonlinear_arith) requires nprops.ignitability <= 255, hf_num <= 255; }
        let num = nprops.ignitability as u32 * hf_num;
        let den = 255 * hf_den;
        if num < den && !gen_ratio(rng, num, den) {
            return;
        }
    }
    if nprops.explosion_radius > 0 {
        explosions.push((np, nprops.explosion_radius as i32));
        world.sim_put(np, Cell::new());
        return;
    }
    if nprops.on_heat_become != material::EMPTY {
        let become_props = world.material_props(nprops.on_heat_become);
        proof { crate::cell64::lemma_zero_fields(); }
        world.sim_put(np, Cell::new()
            .with_material(nprops.on_heat_become)
            .with_lifetime(ncell.lifetime())
            .with_temperature(become_props.base_temperature)
            .with_variant(ncell.variant()));
        return;
    }
    if nprops.fuel_mass > 0 {
        proof {
            let b = ncell.0;
            assert(((b & 0x3FFu64) as u16) & 0x3FFu16 == ((b & 0x3FFu64) as u16)) by (bit_vector);
        }
        if ncell.has_flag(cell_flags::ON_FIRE) {
            proof {
                let f = ncell@.flags;
                assert(f & cell_flags::ON_FIRE != 0 ==> f | cell_flags::ON_FIRE == f) by (bit_vector);
            }
            return;
        }
        let ignite_temp = if ncell.temperature() >= nprops.autoignition_temperature { ncell.temperature() } else { nprops.autoignition_temperature };
        world.sim_put(np, Cell::new()
            .with_material(ncell.material())
            .with_flags(ncell.flags() | cell_flags::ON_FIRE)
            .with_lifetime(nprops.fuel_mass)
            .with_temperature(ignite_temp)
            .with_variant(ncell.variant()));
        let ghost wp = *world;
        apply_ignition_neighbor_pulse(world, np, nprops);
        proof {
            assert(!is_cardinal_of(np, np));
            let w0 = *old(world);
            assert forall|q: Vec2i| q != np && q != np && w0.sim_cell(q)@.material != material::EMPTY
                implies #[trigger] world.sim_cell(q)@.material == w0.sim_cell(q)@.material by {
                assert(world.sim_cell(q)@.material == wp.sim_cell(q)@.material);
                assert(wp.sim_cell(q) == w0.sim_cell(q));
            }
            assert forall|q: Vec2i| q != np && q != np && w0.sim_cell(q)@.material != material::EMPTY
                implies (#[trigger] world.sim_cell(q))@ == (CellFields { temperature: world.sim_cell(q)@.temperature, ..w0.sim_cell(q)@ }) by {
                assert(wp.sim_cell(q) == w0.sim_cell(q));
                if is_cardinal_of(np, q) {
                    if wp.in_grid(q) {
                        let i: int = if q.y == np.y - 1 { 0 } else if q.y == np.y + 1 { 1 } else if q.x == np.x - 1 { 2 } else { 3 };
                        assert(q == cardinal_at(np, i));
                    } else {
                        assert(world.in_grid(q) == wp.in_grid(q));
                    }
                }
            }
        }
        return;
    }
    if nprops.phase() == Phase::Solid {
        return;
    }
    let (ignite_mat, ignite_life) = instant_heat_ignition_cell(nprops, child_life_cap, rng);
    let ignite_props = world.material_props(ignite_mat);
    world.sim_put(np, Cell::new()
        .with_material(ignite_mat)
        .with_lifetime(ignite_life)
        .with_temperature(ignite_props.base_temperature)
        .with_variant(if ignite_mat == material::FIRE { 0 } else { ncell.variant() }));
}

/// Grid cell `q` holds a non-empty liquid that puts out fire.
pub open spec fn quenching_liquid_at(w: &World, q: Vec2i) -> bool {
    let m = w.sim_cell(q)@.material;
    let np = crate::explosion::props_for(w, m);
    &&& w.in_grid(q)
    &&& m != material::EMPTY
    &&& np.motion is Liquid
    &&& np.motion->extinguishes_fire
}

/// When a smouldering cell burns out and its material ignites neighbours, try to ignite each of the
/// eight neighbours at full heat (water turns to steam).
pub fn flash_ignite_adjacent_from_burnout(world: &mut World, p: Vec2i, rng: &mut SmallRng, explosions: &mut Vec<(Vec2i, i32)>)
    requires sim_ready(old(world), p, 1),
    ensures
        old(world).step_frame(final(world)),
        local_change(old(world), final(world), p, 2),
        old(explosions)@.is_prefix_of(final(explosions)@),
        forall|k: int| 0 <= k < 8 && #[trigger] quenching_liquid_at(old(world), neighbor_at(p, k)) ==>
            final(world).sim_cell(neighbor_at(p, k))@.material == material::STEAM,
{
    let source_material = world.sim_get(p).material();
    let ghost w0 = *world;
    let ghost e0 = explosions@;
    let mut n: usize = 0;
    while n < 8
        invariant
            sim_ready(&w0, p, 1),
            w0.step_frame(world),
            local_change(&w0, world, p, 2),
            e0.is_prefix_of(explosions@),
            n <= 8,
            forall|j: int| n <= j < 8 && w0.sim_cell(neighbor_at(p, j))@.material != material::EMPTY ==>
                (#[trigger] world.sim_cell(neighbor_at(p, j)))@.material == w0.sim_cell(neighbor_at(p, j))@.material,
            forall|j: int| 0 <= j < n && #[trigger] quenching_liquid_at(&w0, neighbor_at(p, j)) ==>
                world.sim_cell(neighbor_at(p, j))@.material == material::STEAM,
        decreases 8 - n,
    {
        let d = neighbor8(n);
        let ghost nn = n as int;
        let ghost wb = *world;
        n = n + 1;
        let np = shifted(world, p, d.0, d.1);
        proof { assert(np == neighbor_at(p, nn)); }
        try_flash_ignite_neighbor(world, p, source_material, np, d.0, d.1, 72, rng, explosions);
        proof {
            assert forall|j: int| n <= j < 8 && w0.sim_cell(neighbor_at(p, j))@.material != material::EMPTY implies
                (#[trigger] world.sim_cell(neighbor_at(p, j)))@.material == w0.sim_cell(neighbor_at(p, j))@.material by {
                lemma_neighbors_distinct(p, j, nn);
                assert(wb.sim_cell(neighbor_at(p, j))@.material == w0.sim_cell(neighbor_at(p, j))@.material);
            }
            assert forall|j: int| 0 <= j < n && #[trigger] quenching_liquid_at(&w0, neighbor_at(p, j)) implies
                world.sim_cell(neighbor_at(p, j))@.material == material::STEAM by {
                if j < nn {
                    lemma_neighbors_distinct(p, j, nn);
                } else {
                    assert(wb.sim_cell(np)@.material == w0.sim_cell(np)@.material);
                    assert(wb.in_grid(np) == w0.in_grid(np));
                }
            }
        }
    }
}

/// A flash from a source of `source_material` reaches the neighbour at `np` as plain heat: the
/// neighbour is not empty, does not put out fire and is not its own death material, and the source
/// has no influence rules and does not pass fire's on.
pub open spec fn flash_heats_directly(w: &World, source_material: MaterialId, np: Vec2i) -> bool {
    let m = w.sim_cell(np)@.material;
    let nprops = crate::explosion::props_for(w, m);
    let sp = crate::explosion::props_for(w, source_material);
    &&& m != material::EMPTY
    &&& !(nprops.motion is Liquid && nprops.motion->extinguishes_fire)
    &&& !(nprops.on_death_become != material::EMPTY && m == nprops.on_death_become)
    &&& forall|i: int| 0 <= i < 8 ==> !(#[trigger] sp.adjacent_influence@[i]).spec_is_active()
    &&& !sp.smolder_burnout_ignites_neighbors
}

/// Flash ignition of one neighbour: water becomes steam; the source's influence rules (or fire's,
/// for a burnout that ignites neighbours) get the first chance; otherwise heat ignition at full heat.
fn try_flash_ignite_neighbor(
    world: &mut World,
    source_pos: Vec2i,
    source_material: MaterialId,
    np: Vec2i,
    dx: i32,
    dy: i32,
    child_life_cap: u8,
    rng: &mut SmallRng,
    explosions: &mut Vec<(Vec2i, i32)>,
)
    requires
        sim_ready(old(world), source_pos, 1),
        -1 <= dx <= 1, -1 <= dy <= 1,
        np == crate::sim::offset(source_pos, dx as int, dy as int),
    ensures
        old(world).step_frame(final(world)),
        local_change(old(world), final(world), source_pos, 2),
        old(explosions)@.is_prefix_of(final(explosions)@),
        old(world).sim_cell(np)@.material == material::EMPTY ==>
            *final(world) == *old(world) && final(explosions)@ == old(explosions)@,
        keeps_materials_except(old(world), final(world), np, source_pos),
        old(world).in_grid(np) && old(world).sim_cell(np)@.material != material::EMPTY
            && crate::explosion::props_for(old(world), old(world).sim_cell(np)@.material).motion is Liquid
            && crate::explosion::props_for(old(world), old(world).sim_cell(np)@.material).motion->extinguishes_fire ==> ({
            let c = final(world).sim_cell(np)@;
            &&& c.material == material::STEAM
            &&& c.temperature == 393
            &&& 36 <= c.lifetime < 72
            &&& c.flags == 0
            &&& forall|q: Vec2i| q != np ==> #[trigger] final(world).sim_cell(q) == old(world).sim_cell(q)
            &&& final(explosions)@ == old(explosions)@
        }),
        flash_heats_directly(old(world), source_material, np) ==> ignition_outcome(old(world), final(world),
            old(explosions)@, final(explosions)@, np, old(world).sim_cell(np),
            old(world).props_of(old(world).sim_cell(np)@.material), 1, 1),
{
    let ncell = world.sim_get(np);
    if ncell.material() == material::EMPTY {
        return;
    }
    let nprops = world.material_props(ncell.material());
    if nprops.extinguishes_fire() {
        let steam = water_to_steam_cell(rng);
        world.sim_put(np, steam);
        return;
    }
    if nprops.on_death_become != material::EMPTY && ncell.material() == nprops.on_death_become {
        return;
    }
    let src_props = world.material_props(source_material);
    if src_props.has_adjacent_influence() {
        if try_adjacent_influence_on_neighbor(world, source_pos, source_material, np, dx, dy, &src_props.adjacent_influence, 1, 1, rng) {
            return;
        }
    } else if src_props.smolder_burnout_ignites_neighbors {
        let fire_props = world.material_props(material::FIRE);
        if try_adjacent_influence_on_neighbor(world, source_pos, source_material, np, dx, dy, &fire_props.adjacent_influence, 1, 1, rng) {
            return;
        }
    }
    ignite_neighbor(world, np, ncell, &nprops, 1, 1, child_life_cap, rng, explosions);
}

/// Smouldering ends at `p` (quenched, or burnt out): a burnout may flash-ignite the neighbours and,
/// with an explosion radius, queue an explosion instead of leaving a replacement; otherwise the cell
/// becomes the replacement material with a random lifetime from its range, keeping its variant.
pub fn eliminate_smoldering_fuel_at(
    world: &mut World,
    p: Vec2i,
    props: &MaterialProps,
    dead_cell: &Cell,
    rng: &mut SmallRng,
    explosions: &mut Vec<(Vec2i, i32)>,
    is_burnout: bool,
)
    requires sim_ready(old(world), p, 1),
    ensures
        old(world).step_frame(final(world)),
        local_change(old(world), final(world), p, 2),
        old(explosions)@.is_prefix_of(final(explosions)@),
        is_burnout && props.smolder_burnout_explosion_radius > 0 ==>
            final(explosions)@.last() == (p, props.smolder_burnout_explosion_radius as i32),
        !is_burnout ==> final(explosions)@ == old(explosions)@
            && forall|q: Vec2i| q != p ==> #[trigger] final(world).sim_cell(q) == old(world).sim_cell(q),
        !(is_burnout && props.smolder_burnout_explosion_radius > 0) && old(world).in_grid(p) ==> ({
            let r = smolder_elimination_replace_spec(*props, is_burnout);
            let c = final(world).sim_cell(p)@;
            &&& c.material == r.0 & 0x3FF
            &&& r.1 <= c.lifetime < r.2
            &&& c.variant == dead_cell@.variant & 3
            &&& c.flags == 0
        }),
{
    if is_burnout {
        if props.smolder_burnout_ignites_neighbors {
            flash_ignite_adjacent_from_burnout(world, p, rng, explosions);
        }
        let r = props.smolder_burnout_explosion_radius;
        if r > 0 {
            explosions.push((p, r as i32));
            return;
        }
    }
    let (mat, lo, hi) = smolder_elimination_replace(props, is_burnout);
    let life = gen_range_u8(rng, lo, hi);
    proof { crate::cell64::lemma_zero_fields(); }
    world.sim_put(p, Cell::new().with_material(mat).with_lifetime(life).with_variant(dead_cell.variant()));
}

/// Each active neighbour-spawn rule of `props` fires with odds `chance/256` and places its material
/// in the first empty cell of the eight neighbours, starting from a random one; the spawner's chunk
/// is kept awake.
pub fn try_neighbor_spawns(world: &mut World, p: Vec2i, props: &MaterialProps, rng: &mut SmallRng)
    requires sim_ready(old(world), p, 1),
    ensures
        old(world).step_frame(final(world)),
        local_change(old(world), final(world), p, 1),
        (exists|i: int| 0 <= i < 4 && (#[trigger] props.neighbor_spawns@[i]).spec_is_active()) ==>
            forall|s: int| 0 <= s < old(world).awake_next_view().len() && #[trigger] old(world).woken_around(p)[s]
                ==> final(world).awake_next_view()[s],
        forall|q: Vec2i| old(world).sim_cell(q)@.material != material::EMPTY ==>
            #[trigger] final(world).sim_cell(q) == old(world).sim_cell(q),
{
    if !props.has_neighbor_spawns() {
        return;
    }
    world.sim_wake(p);
    let ghost w0 = *world;
    let mut j: usize = 0;
    while j < 4
        invariant
            sim_ready(&w0, p, 1),
            w0.step_frame(world),
            local_change(&w0, world, p, 1),
            j <= 4,
            forall|q: Vec2i| w0.sim_cell(q)@.material != material::EMPTY ==>
                #[trigger] world.sim_cell(q) == w0.sim_cell(q),
        decreases 4 - j,
    {
        let rule = props.neighbor_spawns[j];
        j = j + 1;
        if !rule.is_active() {
            continue;
        }
        if !gen_ratio(rng, rule.chance as u32, 256) {
            continue;
        }
        let start = gen_range_usize(rng, 0, 8);
        let mut i: usize = 0;
        while i < 8
            invariant
                sim_ready(&w0, p, 1),
                w0.step_frame(world),
                local_change(&w0, world, p, 1),
                start < 8,
                i <= 8,
                forall|q: Vec2i| w0.sim_cell(q)@.material != material::EMPTY ==>
                    #[trigger] world.sim_cell(q) == w0.sim_cell(q),
            decreases 8 - i,
        {
            let d = neighbor8((start + i) % 8);
            i = i + 1;
            let np = shifted(world, p, d.0, d.1);
            if world.sim_get(np).material() != material::EMPTY {
                continue;
            }
            let spawn_props = world.material_props(rule.spawn_material);
            let lifetime = if rule.lifetime_hi > rule.lifetime_lo {
                gen_range_u8(rng, rule.lifetime_lo, rule.lifetime_hi)
            } else {
                World::initial_lifetime_for(rule.spawn_material, &spawn_props)
            };
            let variant = gen_range_u8(rng, 0, 16);
            world.sim_put(np, Cell::new()
                .with_material(rule.spawn_material)
                .with_flags(rule.spawn_flags)
                .with_lifetime(lifetime)
                .with_temperature(spawn_props.base_temperature)
                .with_variant(variant));
            break;
        }
    }
}

/// None of the eight influence rules of `props` is active.
pub open spec fn no_influence_rules(props: MaterialProps) -> bool {
    forall|i: int| 0 <= i < 8 ==> !(#[trigger] props.adjacent_influence@[i]).spec_is_active()
}

/// The loop state of [`spread_burn_to_neighbors`] after its first `k` neighbours: the rest keep
/// all their fields but temperature, and each of the first `k` that was sure to explode is queued
/// and each sure heat target is reached.
pub open spec fn spread_progress(w0: &World, w: &World, e: Seq<(Vec2i, i32)>, p: Vec2i, sm: MaterialId, hn: int, hd: int, k: int) -> bool {
    &&& forall|j: int| k <= j < 8 && w0.sim_cell(neighbor_at(p, j))@.material != material::EMPTY ==>
        (#[trigger] w.sim_cell(neighbor_at(p, j)))@
            == (CellFields { temperature: w.sim_cell(neighbor_at(p, j))@.temperature, ..w0.sim_cell(neighbor_at(p, j))@ })
    &&& forall|j: int| 0 <= j < k && #[trigger] neighbor_explodes(w0, p, sm, hn, hd, j) ==>
        e.contains((neighbor_at(p, j), w0.props_of(w0.sim_cell(neighbor_at(p, j))@.material).explosion_radius as i32))
    &&& forall|j: int| 0 <= j < k && (#[trigger] neighbor_heat_target(w0, p, sm, hn, hd, j)) is Some ==>
        heat_target_reached(neighbor_heat_target(w0, p, sm, hn, hd, j)->0, w.sim_cell(neighbor_at(p, j)))
}

/// The eight neighbours of `p` are distinct and none is `p`.
pub proof fn lemma_neighbors_distinct(p: Vec2i, i: int, j: int)
    requires
        0 <= i < 8, 0 <= j < 8, i != j,
        i32::MIN < p.x < i32::MAX, i32::MIN < p.y < i32::MAX,
    ensures neighbor_at(p, i) != neighbor_at(p, j), neighbor_at(p, i) != p,
{
    let a = crate::sim::spec_neighbor8(i);
    let b = crate::sim::spec_neighbor8(j);
    assert(a != b);
    assert(neighbor_at(p, i).x == p.x + a.0 && neighbor_at(p, i).y == p.y + a.1);
    assert(neighbor_at(p, j).x == p.x + b.0 && neighbor_at(p, j).y == p.y + b.1);
}

/// Neighbour `k` of the spread loop was passed over (neither sure to explode nor a sure heat
/// target) and the step kept every cell but `a` and `b` up to temperature.
proof fn lemma_spread_skip_kept(w0: &World, wb: &World, wa: &World, eb: Seq<(Vec2i, i32)>, ea: Seq<(Vec2i, i32)>,
    p: Vec2i, sm: MaterialId, hn: int, hd: int, k: int, b: Vec2i)
    requires
        0 <= k < 8,
        spread_progress(w0, wb, eb, p, sm, hn, hd, k),
        eb.is_prefix_of(ea),
        keeps_all_but_temperature_except(wb, wa, neighbor_at(p, k), b),
        b == p,
        i32::MIN < p.x < i32::MAX, i32::MIN < p.y < i32::MAX,
        !neighbor_explodes(w0, p, sm, hn, hd, k),
        neighbor_heat_target(w0, p, sm, hn, hd, k) is None,
    ensures spread_progress(w0, wa, ea, p, sm, hn, hd, k + 1),
{
    let q = neighbor_at(p, k);
    assert forall|j: int| k + 1 <= j < 8 && w0.sim_cell(neighbor_at(p, j))@.material != material::EMPTY implies
        (#[trigger] wa.sim_cell(neighbor_at(p, j)))@
            == (CellFields { temperature: wa.sim_cell(neighbor_at(p, j))@.temperature, ..w0.sim_cell(neighbor_at(p, j))@ }) by {
        lemma_neighbors_distinct(p, j, k);
        assert(wb.sim_cell(neighbor_at(p, j))@.material == w0.sim_cell(neighbor_at(p, j))@.material);
    }
    assert forall|j: int| 0 <= j < k + 1 && #[trigger] neighbor_explodes(w0, p, sm, hn, hd, j) implies
        ea.contains((neighbor_at(p, j), w0.props_of(w0.sim_cell(neighbor_at(p, j))@.material).explosion_radius as i32)) by {
        let x = (neighbor_at(p, j), w0.props_of(w0.sim_cell(neighbor_at(p, j))@.material).explosion_radius as i32);
        let i = choose|i: int| 0 <= i < eb.len() && eb[i] == x;
        assert(ea[i] == x);
    }
    assert forall|j: int| 0 <= j < k + 1 && (#[trigger] neighbor_heat_target(w0, p, sm, hn, hd, j)) is Some implies
        heat_target_reached(neighbor_heat_target(w0, p, sm, hn, hd, j)->0, wa.sim_cell(neighbor_at(p, j))) by {
        lemma_neighbors_distinct(p, j, k);
        assert(wb.sim_cell(neighbor_at(p, j))@.material != material::EMPTY);
    }
}

/// Neighbour `k` of the spread loop was handed to heat ignition (no influence rule took it), which
/// kept every other cell up to temperature.
proof fn lemma_spread_ignite_kept(w0: &World, wb: &World, wa: &World, eb: Seq<(Vec2i, i32)>, ea: Seq<(Vec2i, i32)>,
    p: Vec2i, sm: MaterialId, hn: int, hd: int, k: int)
    requires
        0 <= k < 8,
        i32::MIN < p.x < i32::MAX, i32::MIN < p.y < i32::MAX,
        w0.step_frame(wb),
        spread_progress(w0, wb, eb, p, sm, hn, hd, k),
        eb.is_prefix_of(ea),
        keeps_all_but_temperature_except(wb, wa, neighbor_at(p, k), neighbor_at(p, k)),
        wb.sim_cell(neighbor_at(p, k))@.material != material::EMPTY,
        ignition_outcome(wb, wa, eb, ea, neighbor_at(p, k), wb.sim_cell(neighbor_at(p, k)),
            wb.props_of(wb.sim_cell(neighbor_at(p, k))@.material), hn, hd),
    ensures spread_progress(w0, wa, ea, p, sm, hn, hd, k + 1),
{
    let q = neighbor_at(p, k);
    assert(wb.in_grid(q) == w0.in_grid(q));
    if w0.sim_cell(q)@.material != material::EMPTY {
        assert(wb.sim_cell(q)@.material == w0.sim_cell(q)@.material);
        assert(wb.props_of(wb.sim_cell(q)@.material) == w0.props_of(w0.sim_cell(q)@.material));
    }
    assert forall|j: int| k + 1 <= j < 8 && w0.sim_cell(neighbor_at(p, j))@.material != material::EMPTY implies
        (#[trigger] wa.sim_cell(neighbor_at(p, j)))@
            == (CellFields { temperature: wa.sim_cell(neighbor_at(p, j))@.temperature, ..w0.sim_cell(neighbor_at(p, j))@ }) by {
        lemma_neighbors_distinct(p, j, k);
        assert(wb.sim_cell(neighbor_at(p, j))@.material == w0.sim_cell(neighbor_at(p, j))@.material);
    }
    assert forall|j: int| 0 <= j < k + 1 && #[trigger] neighbor_explodes(w0, p, sm, hn, hd, j) implies
        ea.contains((neighbor_at(p, j), w0.props_of(w0.sim_cell(neighbor_at(p, j))@.material).explosion_radius as i32)) by {
        let x = (neighbor_at(p, j), w0.props_of(w0.sim_cell(neighbor_at(p, j))@.material).explosion_radius as i32);
        if j < k {
            let i = choose|i: int| 0 <= i < eb.len() && eb[i] == x;
            assert(ea[i] == x);
        } else {
            assert(ea[eb.len() as int] == x);
        }
    }
    assert forall|j: int| 0 <= j < k + 1 && (#[trigger] neighbor_heat_target(w0, p, sm, hn, hd, j)) is Some implies
        heat_target_reached(neighbor_heat_target(w0, p, sm, hn, hd, j)->0, wa.sim_cell(neighbor_at(p, j))) by {
        if j < k {
            lemma_neighbors_distinct(p, j, k);
            assert(wb.sim_cell(neighbor_at(p, j))@.material != material::EMPTY);
        }
    }
}

/// Spreads burning from the source at `p` (material `source_material`, heat factor
/// `hf_num / hf_den`) to each of its eight neighbours that is neither empty nor the same material,
/// not water and not the source's own death product: influence rules first, then heat ignition.
/// Returns whether the source was extinguished, which this never does.
pub fn spread_burn_to_neighbors(
    world: &mut World,
    p: Vec2i,
    source_material: MaterialId,
    hf_num: u32,
    hf_den: u32,
    child_life_cap: u8,
    rng: &mut SmallRng,
    explosions: &mut Vec<(Vec2i, i32)>,
) -> (extinguished: bool)
    requires
        sim_ready(old(world), p, 1),
        heat_ok(hf_num, hf_den),
    ensures
        old(world).step_frame(final(world)),
        local_change(old(world), final(world), p, 2),
        old(explosions)@.is_prefix_of(final(explosions)@),
        !extinguished,
        neighbor_explodes(old(world), p, source_material, hf_num as int, hf_den as int, 0) ==> {
            &&& final(explosions)@.len() > old(explosions)@.len()
            &&& final(explosions)@[old(explosions)@.len() as int] == (neighbor_at(p, 0),
                    old(world).props_of(old(world).sim_cell(neighbor_at(p, 0))@.material).explosion_radius as i32)
        },
        forall|k: int| 0 <= k < 8 && #[trigger] neighbor_explodes(old(world), p, source_material, hf_num as int, hf_den as int, k) ==>
            final(explosions)@.contains((neighbor_at(p, k),
                old(world).props_of(old(world).sim_cell(neighbor_at(p, k))@.material).explosion_radius as i32)),
        forall|k: int| 0 <= k < 8 && (#[trigger] neighbor_heat_target(old(world), p, source_material, hf_num as int, hf_den as int, k)) is Some ==>
            heat_target_reached(neighbor_heat_target(old(world), p, source_material, hf_num as int, hf_den as int, k)->0,
                final(world).sim_cell(neighbor_at(p, k))),
        old(world).sim_cell(p)@.material != material::EMPTY
            && no_influence_rules(crate::explosion::props_for(old(world), source_material)) ==>
            final(world).sim_cell(p)@ == (CellFields { temperature: final(world).sim_cell(p)@.temperature, ..old(world).sim_cell(p)@ }),
{
    let src_props = world.material_props(source_material);
    let ghost w0 = *world;
    let ghost e0 = explosions@;
    let ghost q0 = neighbor_at(p, 0);
    let ghost cond = neighbor_explodes(&w0, p, source_material, hf_num as int, hf_den as int, 0);
    let ghost x0 = (q0, w0.props_of(w0.sim_cell(q0)@.material).explosion_radius as i32);
    let mut n: usize = 0;
    while n < 8
        invariant
            sim_ready(&w0, p, 1),
            heat_ok(hf_num, hf_den),
            w0.step_frame(world),
            local_change(&w0, world, p, 2),
            e0.is_prefix_of(explosions@),
            n <= 8,
            w0 == *old(world), e0 == old(explosions)@,
            src_props == crate::explosion::props_for(&w0, source_material),
            q0 == neighbor_at(p, 0),
            cond == neighbor_explodes(&w0, p, source_material, hf_num as int, hf_den as int, 0),
            x0 == (q0, w0.props_of(w0.sim_cell(q0)@.material).explosion_radius as i32),
            n == 0 ==> *world == w0 && explosions@ == e0,
            n > 0 && cond ==> explosions@.len() > e0.len() && explosions@[e0.len() as int] == x0,
            spread_progress(&w0, world, explosions@, p, source_material, hf_num as int, hf_den as int, n as int),
            w0.sim_cell(p)@.material != material::EMPTY && no_influence_rules(src_props) ==>
                world.sim_cell(p)@ == (CellFields { temperature: world.sim_cell(p)@.temperature, ..w0.sim_cell(p)@ }),
        decreases 8 - n,
    {
        let d = neighbor8(n);
        let ghost nn = n as int;
        let ghost eb = explosions@;
        let ghost wb = *world;
        n = n + 1;
        let np = shifted(world, p, d.0, d.1);
        proof {
            assert(np == neighbor_at(p, nn));
            assert(q0 != p);
            if nn >= 1 { assert(np != q0); }
        }
        let ncell = world.sim_get(np);
        if ncell.material() == material::EMPTY || ncell.material() == source_material {
            proof { lemma_spread_skip_kept(&w0, &wb, world, eb, explosions@, p, source_material, hf_num as int, hf_den as int, nn, p); }
            continue;
        }
        let nprops = world.material_props(ncell.material());
        if nprops.extinguishes_fire() {
            proof { lemma_spread_skip_kept(&w0, &wb, world, eb, explosions@, p, source_material, hf_num as int, hf_den as int, nn, p); }
            continue;
        }
        if nprops.on_death_become != material::EMPTY && ncell.material() == nprops.on_death_become {
            proof { lemma_spread_skip_kept(&w0, &wb, world, eb, explosions@, p, source_material, hf_num as int, hf_den as int, nn, p); }
            continue;
        }
        if src_props.has_adjacent_influence() {
            if try_adjacent_influence_on_neighbor(world, p, source_material, np, d.0, d.1, &src_props.adjacent_influence, hf_num, hf_den, rng) {
                proof { lemma_spread_skip_kept(&w0, &wb, world, eb, explosions@, p, source_material, hf_num as int, hf_den as int, nn, p); }
                continue;
            }
        }
        ignite_neighbor(world, np, ncell, &nprops, hf_num, hf_den, child_life_cap, rng, explosions);
        proof {
            if w0.sim_cell(p)@.material != material::EMPTY && no_influence_rules(src_props) {
                lemma_neighbors_distinct(p, nn, if nn == 0 { 1 } else { 0 });
                assert(wb.sim_cell(p)@.material != material::EMPTY);
            }
            if nn > 0 && cond {
                assert(eb.is_prefix_of(explosions@));
                assert(explosions@[e0.len() as int] == eb[e0.len() as int]);
            }
            lemma_spread_ignite_kept(&w0, &wb, world, eb, explosions@, p, source_material, hf_num as int, hf_den as int, nn);
        }
    }
    proof {
        assert(spread_progress(&w0, world, explosions@, p, source_material, hf_num as int, hf_den as int, 8));
    }
    false
}

/// The fields neighbour `k` of `p` (in [`neighbor_at`] order) is sure to end with, all but its
/// temperature, when spreading fire from `p` (source `source_material`, heat factor `hn / hd`)
/// ignites it for certain without an explosion: the source has no influence rules, and that
/// neighbour is a grid cell of another material that does not put out fire and is not its own death
/// material. It becomes its `on_heat_become` material (when that is not empty) keeping its
/// lifetime (with no flags), or, as fuel, starts burning with its fuel mass as lifetime unless it already burned.
pub open spec fn neighbor_heat_target(w: &World, p: Vec2i, source_material: MaterialId, hn: int, hd: int, k: int) -> Option<CellFields> {
    let q = neighbor_at(p, k);
    let c = w.sim_cell(q);
    let np = w.props_of(c@.material);
    let sp = crate::explosion::props_for(w, source_material);
    if w.in_grid(q)
        && c@.material != material::EMPTY
        && c@.material != source_material
        && !(np.motion is Liquid && np.motion->extinguishes_fire)
        && !(np.on_death_become != material::EMPTY && c@.material == np.on_death_become)
        && (forall|i: int| 0 <= i < 8 ==> !(#[trigger] sp.adjacent_influence@[i]).spec_is_active())
        && ignition_certain(np, hn, hd)
        && np.explosion_radius == 0
    {
        if np.on_heat_become != material::EMPTY {
            if np.on_heat_become & 0x3FF != material::EMPTY {
                Some(CellFields { material: np.on_heat_become & 0x3FF, flags: 0, ..c@ })
            } else {
                None
            }
        } else if np.fuel_mass > 0 {
            Some(CellFields {
                flags: c@.flags | cell_flags::ON_FIRE,
                lifetime: if c@.flags & cell_flags::ON_FIRE == 0 { np.fuel_mass } else { c@.lifetime },
                ..c@
            })
        } else {
            None
        }
    } else {
        None
    }
}

/// Cell `c` has the material, flags and lifetime of `t`.
pub open spec fn heat_target_reached(t: CellFields, c: Cell) -> bool {
    &&& c@.material == t.material
    &&& c@.flags == t.flags
    &&& c@.lifetime == t.lifetime
}

/// Spreading fire from `p` (source material `source_material`, heat factor `hn / hd`) is sure to
/// blow up its neighbour `k` (in [`neighbor_at`] order): the source has no influence rules, and that
/// neighbour is a non-empty cell of another material that does not put out fire, is not its own
/// death material, ignites with certain odds and explodes.
pub open spec fn neighbor_explodes(w: &World, p: Vec2i, source_material: MaterialId, hn: int, hd: int, k: int) -> bool {
    let q = neighbor_at(p, k);
    let c = w.sim_cell(q);
    let np = w.props_of(c@.material);
    let sp = crate::explosion::props_for(w, source_material);
    &&& c@.material != material::EMPTY
    &&& c@.material != source_material
    &&& !(np.motion is Liquid && np.motion->extinguishes_fire)
    &&& !(np.on_death_become != material::EMPTY && c@.material == np.on_death_become)
    &&& forall|i: int| 0 <= i < 8 ==> !(#[trigger] sp.adjacent_influence@[i]).spec_is_active()
    &&& ignition_certain(np, hn, hd)
    &&& np.explosion_radius > 0
}

} // verus!
