//! The per-cell step: temperature, ignition, chemistry heat, phase changes, then the behaviour of
//! the cell's material.
use vstd::prelude::*;
use rand::rngs::SmallRng;

use crate::cell64::MAX_TEMPERATURE;
use crate::world::cell_flags;
use crate::world::geom::Vec2i;
use crate::world::material;
use crate::world::props::Phase;
use crate::world::state::World;
use super::engines::adjacent::step_adjacent_transform_neighbors;
use super::engines::burn::{apply_ignition_neighbor_pulse, eliminate_smoldering_fuel_at, try_neighbor_spawns};
use super::engines::granular::step_sand;
use super::engines::liquid::{neighbourless_liquid, step_liquid};
use super::engines::smolder::step_smoldering_fuel;
use super::rng::{gen_range_incl_u32, gen_range_usize, gen_ratio};
use super::steps::{
    aged, carried_up, explosions_queued, heat_targets_reached, same_but_temperature, same_but_velocity, step_ember, step_fire,
    step_gas, step_smoke, step_steam,
};
use super::engines::burn::{heat_target_reached, neighbor_heat_target, no_influence_rules};
use super::engines::influence::neighbor_at;
use super::thermal::{check_phase_transition, next_temperature, phase_change, step_temperature};
use crate::cell64::CellFields;
use super::{
    is_burning, lemma_local_compose, lemma_local_step, local_change, moves_into_empty, neighbor8, no_reactions_from, offset,
    same_cells_except, within,
    shifted, sim_clear_flag, sim_ready, sim_set_flag, sim_set_lifetime, sim_set_temperature, FlameSpawn,
};

verus! {

/// Heat from chemistry: `ΔT = heat_generation_rate * 256 / volumetric_heat_capacity`.
pub const HEAT_GEN_SCALE: u32 = 256;
/// Chemistry heat is applied every this many ticks.
pub const CHEMISTRY_HEAT_PERIOD: u64 = 5;
/// Range of `N` for the `1/N` odds of a flame particle from burning fuel.
pub const FLAME_PARTICLE_ODDS_LO: u32 = 48;
pub const FLAME_PARTICLE_ODDS_HI: u32 = 140;

/// Burning fuel at `p` (not a flame) sometimes emits a flame particle into the first empty cell of
/// its eight neighbours, starting from a random one, at its own temperature.
fn maybe_spawn_flame_particle(world: &World, p: Vec2i, rng: &mut SmallRng, flame_spawns: &mut Vec<FlameSpawn>)
    requires sim_ready(world, p, 0),
    ensures
        old(flame_spawns)@.is_prefix_of(final(flame_spawns)@),
        final(flame_spawns)@.len() <= old(flame_spawns)@.len() + 1,
        forall|i: int| old(flame_spawns)@.len() <= i < final(flame_spawns)@.len() ==> {
            let s = #[trigger] final(flame_spawns)@[i];
            &&& world.sim_cell(s.pos)@.material == material::EMPTY
            &&& s.temperature_k == world.sim_cell(p)@.temperature
            &&& super::within(p, s.pos, 1)
        },
        world.sim_cell(p)@.material == material::FIRE || world.sim_cell(p)@.flags & cell_flags::ON_FIRE == 0
            ==> final(flame_spawns)@ == old(flame_spawns)@,
{
    let cell = world.sim_get(p);
    if cell.material() == material::FIRE || !cell.has_flag(cell_flags::ON_FIRE) {
        return;
    }
    let n = gen_range_incl_u32(rng, FLAME_PARTICLE_ODDS_LO, FLAME_PARTICLE_ODDS_HI);
    if !gen_ratio(rng, 1, n) {
        return;
    }
    let start = gen_range_usize(rng, 0, 8);
    let mut i: usize = 0;
    while i < 8
        invariant
            sim_ready(world, p, 0),
            cell == world.sim_cell(p),
            cell@.material != material::FIRE && cell@.flags & cell_flags::ON_FIRE != 0,
            start < 8,
            i <= 8,
            flame_spawns@ == old(flame_spawns)@,
        decreases 8 - i,
    {
        let d = neighbor8((start + i) % 8);
        i = i + 1;
        let np = shifted(world, p, d.0, d.1);
        if world.sim_get(np).material() == material::EMPTY {
            flame_spawns.push(FlameSpawn { pos: np, temperature_k: cell.temperature() });
            return;
        }
    }
}

/// Thermal part of a non-empty cell's tick; returns whether the tick ends here. Flames lose the
/// burning flag, heat is conducted; a hot explosive detonates (queued, cell cleared); fuel reaching
/// its autoignition point starts burning with an ignition pulse; heat-generating chemistry warms the
/// cell every fifth tick.
fn pixel_heat(world: &mut World, p: Vec2i, rng: &mut SmallRng, explosions: &mut Vec<(Vec2i, i32)>, sim_tick: u64) -> (stop: bool)
    requires sim_ready(old(world), p, 0),
    ensures
        old(world).step_frame(final(world)),
        old(explosions)@.is_prefix_of(final(explosions)@),
        local_change(old(world), final(world), p, 1),
        stop ==> final(explosions)@ == old(explosions)@.push((p,
            crate::explosion::props_for(old(world), old(world).sim_cell(p)@.material).explosion_radius as i32)),
        stop && old(world).in_grid(p) ==> final(world).sim_cell(p) == crate::cell64::Cell(0),
        !stop ==> final(explosions)@ == old(explosions)@,
        old(world).in_grid(p) && old(world).sim_cell(p)@.material == material::FIRE
            && crate::explosion::props_for(old(world), material::FIRE).fuel_mass == 0
            ==> final(world).sim_cell(p)@.flags & cell_flags::ON_FIRE == 0,
        heat_step(old(world), final(world), old(explosions)@, final(explosions)@, p, stop),
{
    let ghost w0 = *old(world);
    let cell = world.sim_get(p);
    if cell.material() == material::FIRE && cell.has_flag(cell_flags::ON_FIRE) {
        sim_clear_flag(world, p, cell_flags::ON_FIRE);
        proof {
            let f = w0.sim_cell(p)@.flags;
            assert((f & !cell_flags::ON_FIRE) & cell_flags::ON_FIRE == 0) by (bit_vector);
        }
    }
    proof {
        assert(same_cells_except(&w0, world, p, p));
        lemma_local_step(&w0, &w0, world, p, 1, p, p);
        crate::cell64::lemma_zero_fields();
        assert(0u8 & cell_flags::ON_FIRE == 0) by (bit_vector);
        assert(world.sim_cell(p)@.material == w0.sim_cell(p)@.material);
    }
    let ghost w1 = *world;
    step_temperature(world, p, rng, sim_tick);
    proof {
        assert(same_cells_except(&w1, world, p, p));
        lemma_local_step(&w0, &w1, world, p, 1, p, p);
    }
    let c = world.sim_get(p);
    let pr = world.material_props(c.material());
    if pr.explosion_radius > 0 && pr.autoignition_temperature > 0 && c.temperature() >= pr.autoignition_temperature {
        explosions.push((p, pr.explosion_radius as i32));
        let ghost w2 = *world;
        world.sim_put(p, crate::cell64::Cell::new());
        proof { lemma_local_step(&w0, &w2, world, p, 1, p, p); }
        return true;
    }
    if pr.fuel_mass > 0 && pr.autoignition_temperature > 0 && c.temperature() >= pr.autoignition_temperature
        && !c.has_flag(cell_flags::ON_FIRE)
    {
        let ghost w3 = *world;
        if c.lifetime() == 0 {
            sim_set_lifetime(world, p, pr.fuel_mass);
        }
        proof {
            assert(same_cells_except(&w3, world, p, p));
            lemma_local_step(&w0, &w3, world, p, 1, p, p);
        }
        let ghost w4 = *world;
        sim_set_flag(world, p, cell_flags::ON_FIRE);
        proof {
            assert(same_cells_except(&w4, world, p, p));
            lemma_local_step(&w0, &w4, world, p, 1, p, p);
        }
        let ghost w5 = *world;
        apply_ignition_neighbor_pulse(world, p, &pr);
        proof { lemma_local_compose(&w0, &w5, world, p, 1, 1, 1); }
    }
    let c = world.sim_get(p);
    let pr = world.material_props(c.material());
    let chemistry = if pr.fuel_mass == 0 {
        true
    } else if pr.autoignition_temperature == 0 {
        c.lifetime() > 0
    } else {
        is_burning(c, &pr)
    };
    if pr.heat_generation_rate > 0 && c.lifetime() > 0 && chemistry && sim_tick % CHEMISTRY_HEAT_PERIOD == 0 {
        let vhc: u32 = if pr.volumetric_heat_capacity >= 1 { pr.volumetric_heat_capacity as u32 } else { 1 };
        let raw = pr.heat_generation_rate as u32 * HEAT_GEN_SCALE / vhc;
        let add: u32 = if raw <= MAX_TEMPERATURE as u32 { raw } else { MAX_TEMPERATURE as u32 };
        let sum = c.temperature() as u32 + add;
        let new_temp: u16 = if sum <= MAX_TEMPERATURE as u32 { sum as u16 } else { MAX_TEMPERATURE };
        let ghost w6 = *world;
        sim_set_temperature(world, p, new_temp);
        proof {
            assert(same_cells_except(&w6, world, p, p));
            lemma_local_step(&w0, &w6, world, p, 1, p, p);
        }
    }
    false
}

/// What the thermal part of a tick does to world `w` (explosions `e`) at `p`, giving `w2` (`e2`)
/// and whether the tick stops there: see [`pixel_heat`].
pub open spec fn heat_step(w: &World, w2: &World, e: Seq<(Vec2i, i32)>, e2: Seq<(Vec2i, i32)>, p: Vec2i, stop: bool) -> bool {
    &&& w.step_frame(w2)
    &&& e.is_prefix_of(e2)
    &&& local_change(w, w2, p, 1)
    &&& stop ==> e2 == e.push((p, crate::explosion::props_for(w, w.sim_cell(p)@.material).explosion_radius as i32))
    &&& stop && w.in_grid(p) ==> w2.sim_cell(p) == crate::cell64::Cell(0)
    &&& !stop ==> e2 == e
    &&& w.in_grid(p) && w.sim_cell(p)@.material == material::FIRE
            && crate::explosion::props_for(w, material::FIRE).fuel_mass == 0
            ==> w2.sim_cell(p)@.flags & cell_flags::ON_FIRE == 0
}

/// What a phase change does to world `w` at `p`, giving `w2`: the cell changes to the phase
/// change's fields, or nothing changes when there is none.
pub open spec fn phase_step(w: &World, w2: &World, p: Vec2i) -> bool {
    let c = w.sim_cell(p);
    &&& w.step_frame(w2)
    &&& forall|q: Vec2i| q != p ==> #[trigger] w2.sim_cell(q) == w.sim_cell(q)
    &&& match phase_change(c, w.props_of(c@.material)) {
        Some(f) => w.in_grid(p) ==> w2.sim_cell(p)@ == f,
        None => *w2 == *w,
    }
}

/// The cell at `p` moves by its phase alone: it is not empty, not an ember, not quenched fuel, not
/// burning, has no adjacent transforms or neighbour spawns, is not inert and not part of a rigid body.
pub open spec fn plain_mover(w: &World, p: Vec2i) -> bool {
    let c = w.sim_cell(p);
    let pr = crate::explosion::props_for(w, c@.material);
    &&& c@.material != material::EMPTY
    &&& c@.material != material::EMBER
    &&& !(pr.fuel_mass > 0 && pr.autoignition_temperature > 0 && c@.lifetime > 0 && c@.temperature < pr.autoignition_temperature)
    &&& !super::spec_is_burning(c, pr)
    &&& forall|i: int| 0 <= i < 4 ==> !(#[trigger] pr.adjacent_transforms@[i]).spec_is_active()
    &&& forall|i: int| 0 <= i < 4 ==> !(#[trigger] pr.neighbor_spawns@[i]).spec_is_active()
    &&& !(pr.motion is InertSolid)
    &&& c@.flags & cell_flags::RIGID_PIXEL == 0
}

/// What the material part of a tick does to world `w` (explosions `e`) at `p`, giving `w2` (`e2`):
/// see [`pixel_behaviour`].
pub open spec fn behaviour_step(w: &World, w2: &World, e: Seq<(Vec2i, i32)>, e2: Seq<(Vec2i, i32)>, p: Vec2i) -> bool {
    let c = w.sim_cell(p);
    let pr = crate::explosion::props_for(w, c@.material);
    let phase = pr.motion.spec_phase();
    &&& w.step_frame(w2)
    &&& e.is_prefix_of(e2)
    &&& local_change(w, w2, p, 130)
    &&& c@.material == material::EMPTY ==> *w2 == *w && e2 == e
    &&& w.in_grid(p) && c@.material == material::EMBER && c@.lifetime == 0 ==> {
        &&& w2.sim_cell(p)@.material == material::SMOKE
        &&& 18 <= w2.sim_cell(p)@.lifetime < 52
        &&& e2 == e
    }
    &&& plain_mover(w, p) && phase == Phase::Solid && moves_into_empty(w, p, offset(p, 0, 1))
        ==> w2.sim_cell(p) == crate::cell64::Cell(0)
    &&& plain_mover(w, p) && phase == Phase::Liquid && neighbourless_liquid(pr) && moves_into_empty(w, p, offset(p, 0, 1)) ==> {
        &&& w2.sim_cell(p) == crate::cell64::Cell(0)
        &&& no_reactions_from(w, c@.material) ==> exists|q: Vec2i| q.y > p.y && within(p, q, 130)
                && (#[trigger] w2.sim_cell(q))@.material == c@.material
    }
    &&& plain_mover(w, p) && phase == Phase::Liquid && neighbourless_liquid(pr) && no_reactions_from(w, c@.material)
        ==> exists|q: Vec2i| within(p, q, 130) && (#[trigger] w2.sim_cell(q))@.material == c@.material
    &&& plain_mover(w, p) && phase == Phase::Gas && w.in_grid(p) && c@.lifetime == 0 && c@.material == material::SMOKE
        ==> w2.sim_cell(p) == crate::cell64::Cell(0)
    &&& plain_mover(w, p) && phase == Phase::Gas && w.in_grid(p) && c@.lifetime == 0 && c@.material == material::STEAM
        ==> w2.sim_cell(p)@.material == material::LIQUID
    &&& plain_mover(w, p) && phase == Phase::Gas && c@.material != material::SMOKE && c@.material != material::STEAM
        && pr.on_death_become == material::EMPTY && c@.lifetime == 0 && moves_into_empty(w, p, offset(p, 0, -1))
        ==> w2.sim_cell(p) == crate::cell64::Cell(0)
    &&& plain_mover(w, p) && phase == Phase::Gas && c@.material != material::SMOKE && c@.material != material::STEAM
        && pr.on_death_become != material::EMPTY && w.in_grid(p) && c@.lifetime == 0 ==> {
        &&& w2.sim_cell(p)@.material == pr.on_death_become & 0x3FF
        &&& e2 == e
    }
    &&& w.in_grid(p) && c@.material == material::EMBER && c@.lifetime > 0
        && !(pr.fuel_mass > 0 && pr.autoignition_temperature > 0 && c@.temperature < pr.autoignition_temperature) ==> {
        let hn = w.props_of(material::EMBER).ignitability as int;
        &&& explosions_queued(w, e2, p, material::EMBER, hn, 255)
        &&& forall|k: int| 0 <= k < 8 && (#[trigger] neighbor_heat_target(w, p, material::EMBER, hn, 255, k)) is Some ==>
            heat_target_reached(neighbor_heat_target(w, p, material::EMBER, hn, 255, k)->0, w2.sim_cell(neighbor_at(p, k)))
        &&& no_influence_rules(crate::explosion::props_for(w, material::EMBER)) ==>
            same_but_temperature(w2.sim_cell(p), c@) || same_but_temperature(w2.sim_cell(p), aged(c@))
            || (w2.sim_cell(p)@.material == material::SMOKE && c@.lifetime <= 1)
    }
    &&& plain_mover(w, p) && phase == Phase::Solid && no_reactions_from(w, c@.material) ==>
        exists|q: Vec2i| within(p, q, 130) && (moves_into_empty(w, p, offset(p, 0, 1)) ==> q.y > p.y)
            && (#[trigger] w2.sim_cell(q))@.material == c@.material
    &&& plain_mover(w, p) && phase == Phase::Gas && w.in_grid(p) && c@.lifetime > 0 && c@.material != material::STEAM
        && (c@.material == material::SMOKE || pr.on_death_become == material::EMPTY)
        ==> carried_up(w, w2, p, aged(c@), 127)
    &&& plain_mover(w, p) && phase == Phase::Gas && c@.material != material::SMOKE && c@.material != material::STEAM
        && pr.on_death_become == material::EMPTY && c@.lifetime == 0
        ==> carried_up(w, w2, p, c@, 127)
    &&& plain_mover(w, p) && phase == Phase::Gas && c@.material == material::STEAM && w.in_grid(p) && c@.lifetime > 0
        && no_reactions_from(w, c@.material) ==>
        exists|q: Vec2i| q.y <= p.y && within(p, q, 129) && #[trigger] same_but_velocity(w2.sim_cell(q), aged(c@))
    &&& plain_mover(w, p) && phase == Phase::Gas && c@.material != material::SMOKE && c@.material != material::STEAM
        && pr.on_death_become != material::EMPTY && w.in_grid(p) && c@.lifetime > 0 ==> {
        &&& explosions_queued(w, e2, p, c@.material, c@.lifetime as int, 255)
        &&& no_influence_rules(pr) && no_reactions_from(w, c@.material) ==> {
            &&& exists|q: Vec2i| within(p, q, 1) && #[trigger] same_but_temperature(w2.sim_cell(q), aged(c@))
            &&& heat_targets_reached(w, w2, p, c@.material, c@.lifetime as int, 255)
        }
    }
}

/// Material part of a cell's tick, after heat and phase changes: fuel cooled below autoignition is
/// quenched; embers, lava reactions, smouldering (then liquid motion for molten fuel), adjacent
/// transforms and spawns run; then non-inert cells outside rigid bodies move by phase: granular,
/// liquid, or smoke, steam, fire and plain gas.
fn pixel_behaviour(world: &mut World, p: Vec2i, rng: &mut SmallRng, explosions: &mut Vec<(Vec2i, i32)>)
    requires sim_ready(old(world), p, 0),
    ensures
        old(world).step_frame(final(world)),
        old(explosions)@.is_prefix_of(final(explosions)@),
        local_change(old(world), final(world), p, 130),
        old(world).sim_cell(p)@.material == material::EMPTY ==> *final(world) == *old(world) && final(explosions)@ == old(explosions)@,
        old(world).in_grid(p) && old(world).sim_cell(p)@.material == material::EMBER && old(world).sim_cell(p)@.lifetime == 0 ==> ({
            let c = final(world).sim_cell(p)@;
            &&& c.material == material::SMOKE
            &&& 18 <= c.lifetime < 52
            &&& final(explosions)@ == old(explosions)@
        }),
        behaviour_step(old(world), final(world), old(explosions)@, final(explosions)@, p),
{
    let ghost w0 = *old(world);
    let cell = world.sim_get(p);
    if cell.material() == material::EMPTY {
        return;
    }
    let props_quench = world.material_props(cell.material());
    if props_quench.fuel_mass > 0 && props_quench.autoignition_temperature > 0 && cell.lifetime() > 0
        && cell.temperature() < props_quench.autoignition_temperature
    {
        eliminate_smoldering_fuel_at(world, p, &props_quench, &cell, rng, explosions, false);
        proof { lemma_local_compose(&w0, &w0, world, p, 0, 2, 130); }
        return;
    }
    if cell.material() == material::EMBER {
        step_ember(world, p, rng, explosions);
        proof { lemma_local_compose(&w0, &w0, world, p, 0, 2, 130); }
        return;
    }
    let props = world.material_props(cell.material());
    let lava_adj_early = cell.material() == material::LAVA && props.has_adjacent_transforms();
    if lava_adj_early {
        step_adjacent_transform_neighbors(world, p, &props, rng);
    }
    proof { lemma_local_compose(&w0, &w0, world, p, 0, 1, 130); }
    if is_burning(cell, &props) && cell.material() != material::FIRE {
        let ghost wa = *world;
        step_smoldering_fuel(world, p, rng, explosions);
        proof { lemma_local_compose(&w0, &wa, world, p, 130, 2, 130); }
        let after = world.sim_get(p);
        if after.material() != material::EMPTY {
            let after_props = world.material_props(after.material());
            if after_props.phase() == Phase::Liquid {
                let ghost wb = *world;
                step_liquid(world, p, rng);
                proof { lemma_local_compose(&w0, &wb, world, p, 130, 130, 130); }
            }
        }
        return;
    }
    if props.has_adjacent_transforms() && !lava_adj_early {
        let ghost wc = *world;
        step_adjacent_transform_neighbors(world, p, &props, rng);
        proof { lemma_local_compose(&w0, &wc, world, p, 130, 1, 130); }
    }
    if props.has_neighbor_spawns() {
        let burning = is_burning(cell, &props);
        let m = cell.material();
        let cold_spawner = m == material::TORCH || m == material::WELL || m == material::SPOUT;
        if burning || cold_spawner {
            let ghost wd = *world;
            try_neighbor_spawns(world, p, &props, rng);
            proof { lemma_local_compose(&w0, &wd, world, p, 130, 1, 130); }
        }
    }
    if props.inert() {
        return;
    }
    let cell = world.sim_get(p);
    if cell.has_flag(cell_flags::RIGID_PIXEL) {
        return;
    }
    let ghost we = *world;
    match props.phase() {
        Phase::Solid => step_sand(world, p, rng),
        Phase::Liquid => step_liquid(world, p, rng),
        Phase::Gas => {
            if cell.material() == material::SMOKE {
                step_smoke(world, p, rng);
            } else if cell.material() == material::STEAM {
                step_steam(world, p, rng);
            } else if props.on_death_become != material::EMPTY {
                step_fire(world, p, rng, explosions);
            } else if cell.lifetime() > 0 {
                step_smoke(world, p, rng);
            } else {
                step_gas(world, p, rng);
            }
        }
    }
    proof { lemma_local_compose(&w0, &we, world, p, 130, 130, 130); }
}

/// What one tick of the cell at `p` (tick `tick`) does to world `w` with explosions `e`, giving `w2`
/// and `e2`: a cell that already moved this tick is left alone; an empty cell only takes its next
/// temperature; any other cell runs the thermal part ([`heat_step`], which may blow it up and end
/// its tick), its phase change ([`phase_step`]) and its material's behaviour ([`behaviour_step`]).
/// Nothing further than 130 cells from `p` changes.
pub open spec fn pixel_outcome(w: &World, w2: &World, e: Seq<(Vec2i, i32)>, e2: Seq<(Vec2i, i32)>, p: Vec2i, tick: int) -> bool {
    &&& w.step_frame(w2)
    &&& e.is_prefix_of(e2)
    &&& w.in_grid(p) && w.cell_at(p) != w.sim_cell(p) ==> *w2 == *w
    &&& local_change(w, w2, p, 130)
    &&& w.cell_at(p) == w.sim_cell(p) && w.sim_cell(p)@.material == material::EMPTY ==> {
        &&& forall|q: Vec2i| q != p ==> #[trigger] w2.sim_cell(q) == w.sim_cell(q)
        &&& exists|nudge: bool| w2.sim_cell(p)@ == (CellFields {
                temperature: #[trigger] next_temperature(w, p, tick, nudge), ..w.sim_cell(p)@ })
        &&& e2 == e
    }
    &&& w.cell_at(p) == w.sim_cell(p) && w.sim_cell(p)@.material != material::EMPTY ==>
        exists|w1: World, e1: Seq<(Vec2i, i32)>, stop: bool| #[trigger] heat_step(w, &w1, e, e1, p, stop)
            && (stop ==> *w2 == w1 && e2 == e1)
            && (!stop ==> exists|wm: World| #[trigger] phase_step(&w1, &wm, p)
                && behaviour_step(&wm, w2, e1, e2, p))
}

/// One tick of the cell at `p`, unless it already moved this tick: empty cells only conduct heat;
/// others run the thermal part, may emit a flame particle, change phase, then run their
/// material's behaviour.
pub fn step_pixel(
    world: &mut World,
    p: Vec2i,
    rng: &mut SmallRng,
    explosions: &mut Vec<(Vec2i, i32)>,
    flame_spawns: &mut Vec<FlameSpawn>,
    sim_tick: u64,
)
    requires sim_ready(old(world), p, 0),
    ensures
        pixel_outcome(old(world), final(world), old(explosions)@, final(explosions)@, p, sim_tick as int),
        old(flame_spawns)@.is_prefix_of(final(flame_spawns)@),
        old(world).cell_at(p) == old(world).sim_cell(p) && old(world).sim_cell(p)@.material == material::EMPTY ==>
            final(flame_spawns)@ == old(flame_spawns)@,
{
    if world.was_moved(p) {
        return;
    }
    let cell = world.sim_get(p);
    if cell.material() == material::EMPTY {
        let ghost wt = *world;
        step_temperature(world, p, rng, sim_tick);
        proof {
            assert(same_cells_except(&wt, world, p, p));
            lemma_local_step(&wt, &wt, world, p, 130, p, p);
        }
        return;
    }
    let ghost w0 = *world;
    let ghost e0 = explosions@;
    let stop = pixel_heat(world, p, rng, explosions, sim_tick);
    proof { lemma_local_compose(&w0, &w0, world, p, 0, 1, 130); }
    if stop {
        proof { assert(heat_step(&w0, world, e0, explosions@, p, stop)); }
        return;
    }
    maybe_spawn_flame_particle(world, p, rng, flame_spawns);
    let ghost w1 = *world;
    let ghost e1 = explosions@;
    check_phase_transition(world, p);
    proof {
        assert(same_cells_except(&w1, world, p, p));
        lemma_local_step(&w0, &w1, world, p, 130, p, p);
        assert(phase_step(&w1, world, p));
    }
    let ghost w2 = *world;
    pixel_behaviour(world, p, rng, explosions);
    proof {
        lemma_local_compose(&w0, &w2, world, p, 130, 130, 130);
        assert(heat_step(&w0, &w1, e0, e1, p, false));
        assert(phase_step(&w1, &w2, p));
        assert(behaviour_step(&w2, world, e1, explosions@, p));
    }
}

} // verus!
