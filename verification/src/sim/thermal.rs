//! Heat conduction on the grid and the phase changes it drives.
//!
//! Each step exchanges heat with the four cardinal neighbours in turn (up, down, left, right):
//! the flux is proportional to the smaller thermal conductivity of the pair and inversely to the
//! volumetric heat capacity of the cell being updated, boosted for large differences. Blank empty
//! cells take part as ambient air; stone does not conduct. The cell then relaxes towards ambient:
//! linearly for large differences, by a random 1 K nudge for small ones, and by an extra pull
//! every sixth tick.
use vstd::prelude::*;
use rand::rngs::SmallRng;

use crate::cell64::{Cell, CellFields, MAX_TEMPERATURE};
use crate::world::cell_flags;
use crate::world::geom::Vec2i;
use crate::world::material;
use crate::world::props::MaterialProps;
use crate::world::state::World;
use super::rng::gen_ratio;
use super::{cardinal4, offset, shifted, sim_ready, sim_set_temperature, spec_cardinal4};

verus! {

/// Added to the conductivity across an edge with water on either side (convection, boiling).
pub const LIQUID_EDGE_THERMAL_BONUS: i64 = 112;
/// Divisor of the linear relaxation towards ambient.
pub const AMBIENT_RELAX_DIV: i64 = 2048;
/// Average period, in ticks, of the 1 K nudge towards ambient when the linear step rounds to 0.
pub const NEAR_AMBIENT_NUDGE_PERIOD: u32 = 28;
/// Every this many ticks an extra pull towards ambient runs.
pub const AMBIENT_GLOBAL_TICK_PERIOD: u64 = 6;
pub const AMBIENT_GLOBAL_EXTRA_DIV: i64 = 384;

/// Quotient rounded toward zero, as Rust's `/` on signed integers.
pub open spec fn tdiv(a: int, d: int) -> int {
    if a >= 0 { a / d } else { -((-a) / d) }
}

pub open spec fn abs(a: int) -> int {
    if a < 0 { -a } else { a }
}

pub open spec fn min(a: int, b: int) -> int {
    if a <= b { a } else { b }
}

/// Temperature a cell conducts with: a blank empty cell (0 K) counts as ambient air.
pub open spec fn effective_temp(c: Cell, ambient: int) -> int {
    if c@.material == material::EMPTY && c@.temperature == 0 { ambient } else { c@.temperature as int }
}

/// Extra flux scale for large differences.
pub open spec fn gradient_boost(diff: int) -> int {
    256 + min(abs(diff), 2048)
}

/// Temperature `temp` after exchanging heat across an edge of conductivity `k` with a neighbour at
/// `e`, for a cell of volumetric heat capacity `cv`.
pub open spec fn flux(temp: int, k: int, cv: int, e: int) -> int {
    let diff = e - temp;
    let base = tdiv(diff * k, cv * 16);
    temp + tdiv(base * gradient_boost(diff), 256)
}

/// Conductivity across the edge between `cell` (props `a`) and neighbour `nc` (props `b`).
pub open spec fn edge_conductivity(cell: Cell, a: MaterialProps, nc: Cell, b: MaterialProps) -> int {
    let k = min(a.thermal_conductivity as int, b.thermal_conductivity as int);
    if cell@.material == material::LIQUID || nc@.material == material::LIQUID { min(k + 112, 255) } else { k }
}

/// Temperature `temp` of the cell at `p` after exchanging heat with neighbour `i` of [`spec_cardinal4`].
pub open spec fn exchange(w: &World, p: Vec2i, temp: int, i: int) -> int {
    let cell = w.sim_cell(p);
    let props = w.props_of(cell@.material);
    let d = spec_cardinal4(i);
    let nc = w.sim_cell(offset(p, d.0 as int, d.1 as int));
    if nc@.material == material::STONE {
        temp
    } else {
        let cv = if props.volumetric_heat_capacity == 0 { 1 } else { props.volumetric_heat_capacity as int };
        flux(temp, edge_conductivity(cell, props, nc, w.props_of(nc@.material)), cv,
            effective_temp(nc, w.spec_ambient() as int))
    }
}

/// Temperature of the cell at `p` after conduction with its first `n` cardinal neighbours.
pub open spec fn conducted(w: &World, p: Vec2i, n: nat) -> int
    decreases n,
{
    if n == 0 {
        effective_temp(w.sim_cell(p), w.spec_ambient() as int)
    } else {
        exchange(w, p, conducted(w, p, (n - 1) as nat), n - 1)
    }
}

/// Heat flows from hot to cold: exchanging across an edge of conductivity `k ≥ 1` with a hotter
/// neighbour at `e` warms a cell of heat capacity `cv` once the difference carries at least one
/// unit (`(e - temp)·k ≥ 16·cv`).
pub proof fn lemma_flux_warms(temp: int, k: int, cv: int, e: int)
    requires k >= 1, cv >= 1, e > temp, (e - temp) * k >= cv * 16,
    ensures flux(temp, k, cv, e) > temp,
{
    let diff = e - temp;
    let base = tdiv(diff * k, cv * 16);
    assert(base >= 1) by (nonlinear_arith)
        requires base == tdiv(diff * k, cv * 16), diff * k >= cv * 16, cv >= 1, diff > 0, k >= 1;
    let g = gradient_boost(diff);
    assert(g >= 256);
    assert(tdiv(base * g, 256) >= 1) by (nonlinear_arith) requires base >= 1, g >= 256;
}

/// The neighbour of `p` in cardinal direction `i` (up, down, left, right) conducts heat to `p`
/// when it is hotter by enough to carry a unit: it is not stone, the edge conducts, and
/// `(e - temp)·k ≥ 16·cv` for its effective temperature `e`.
pub open spec fn hot_conducting_neighbor(w: &World, p: Vec2i, temp: int, i: int) -> bool {
    let cell = w.sim_cell(p);
    let props = w.props_of(cell@.material);
    let d = spec_cardinal4(i);
    let nc = w.sim_cell(offset(p, d.0 as int, d.1 as int));
    let cv = if props.volumetric_heat_capacity == 0 { 1 } else { props.volumetric_heat_capacity as int };
    let k = edge_conductivity(cell, props, nc, w.props_of(nc@.material));
    let e = effective_temp(nc, w.spec_ambient() as int);
    &&& nc@.material != material::STONE
    &&& k >= 1
    &&& e > temp
    &&& (e - temp) * k >= cv * 16
}

/// Conduction treats every side alike: a hot conducting neighbour above, below, left or right
/// warms the cell in its exchange.
pub proof fn lemma_exchange_warms_from_any_side(w: &World, p: Vec2i, temp: int, i: int)
    requires 0 <= i < 4, hot_conducting_neighbor(w, p, temp, i),
    ensures exchange(w, p, temp, i) > temp,
{
    let cell = w.sim_cell(p);
    let props = w.props_of(cell@.material);
    let d = spec_cardinal4(i);
    let nc = w.sim_cell(offset(p, d.0 as int, d.1 as int));
    let cv = if props.volumetric_heat_capacity == 0 { 1 } else { props.volumetric_heat_capacity as int };
    lemma_flux_warms(temp, edge_conductivity(cell, props, nc, w.props_of(nc@.material)), cv,
        effective_temp(nc, w.spec_ambient() as int));
}

/// Heat flows from hot to cold: exchanging with a colder neighbour at `e` cools the cell once the
/// difference carries at least one unit (`(temp - e)·k ≥ 16·cv`).
pub proof fn lemma_flux_cools(temp: int, k: int, cv: int, e: int)
    requires k >= 1, cv >= 1, e < temp, (temp - e) * k >= cv * 16,
    ensures flux(temp, k, cv, e) < temp,
{
    let diff = e - temp;
    let base = tdiv(diff * k, cv * 16);
    assert(diff * k == -((temp - e) * k)) by (nonlinear_arith) requires diff == e - temp;
    assert(base <= -1) by (nonlinear_arith)
        requires base == tdiv(diff * k, cv * 16), -(diff * k) >= cv * 16, cv >= 1, diff < 0, k >= 1;
    let g = gradient_boost(diff);
    assert(g >= 256);
    assert(tdiv(base * g, 256) <= -1) by (nonlinear_arith) requires base <= -1, g >= 256;
}

/// The neighbour of `p` in cardinal direction `i` draws heat from `p` when it is colder by enough
/// to carry a unit: it is not stone, the edge conducts, and `(temp - e)·k ≥ 16·cv`.
pub open spec fn cold_conducting_neighbor(w: &World, p: Vec2i, temp: int, i: int) -> bool {
    let cell = w.sim_cell(p);
    let props = w.props_of(cell@.material);
    let d = spec_cardinal4(i);
    let nc = w.sim_cell(offset(p, d.0 as int, d.1 as int));
    let cv = if props.volumetric_heat_capacity == 0 { 1 } else { props.volumetric_heat_capacity as int };
    let k = edge_conductivity(cell, props, nc, w.props_of(nc@.material));
    let e = effective_temp(nc, w.spec_ambient() as int);
    &&& nc@.material != material::STONE
    &&& k >= 1
    &&& e < temp
    &&& (temp - e) * k >= cv * 16
}

/// A cold conducting neighbour on any of the four sides cools the cell in its exchange.
pub proof fn lemma_exchange_cools_from_any_side(w: &World, p: Vec2i, temp: int, i: int)
    requires 0 <= i < 4, cold_conducting_neighbor(w, p, temp, i),
    ensures exchange(w, p, temp, i) < temp,
{
    let cell = w.sim_cell(p);
    let props = w.props_of(cell@.material);
    let d = spec_cardinal4(i);
    let nc = w.sim_cell(offset(p, d.0 as int, d.1 as int));
    let cv = if props.volumetric_heat_capacity == 0 { 1 } else { props.volumetric_heat_capacity as int };
    lemma_flux_cools(temp, edge_conductivity(cell, props, nc, w.props_of(nc@.material)), cv,
        effective_temp(nc, w.spec_ambient() as int));
}

/// A stone neighbour, or one at the cell's own temperature, leaves the temperature as it is.
pub proof fn lemma_exchange_neutral(w: &World, p: Vec2i, temp: int, i: int)
    requires
        0 <= i < 4,
        ({
            let d = spec_cardinal4(i);
            let nc = w.sim_cell(offset(p, d.0 as int, d.1 as int));
            nc@.material == material::STONE || effective_temp(nc, w.spec_ambient() as int) == temp
        }),
    ensures exchange(w, p, temp, i) == temp,
{
}

/// A cell whose only conducting neighbour is a hot one (the other three sides are stone), on any
/// of its four sides, comes out of conduction warmer than it went in.
pub proof fn lemma_conduction_warms_from_any_side(w: &World, p: Vec2i, i: int)
    requires
        0 <= i < 4,
        hot_conducting_neighbor(w, p, effective_temp(w.sim_cell(p), w.spec_ambient() as int), i),
        forall|j: int| 0 <= j < 4 && j != i ==>
            (#[trigger] w.sim_cell(offset(p, spec_cardinal4(j).0 as int, spec_cardinal4(j).1 as int)))@.material == material::STONE,
    ensures conducted(w, p, 4) > effective_temp(w.sim_cell(p), w.spec_ambient() as int),
{
    let t0 = effective_temp(w.sim_cell(p), w.spec_ambient() as int);
    assert(conducted(w, p, 0) == t0);
    assert forall|j: int, t: int| 0 <= j < 4 && j != i implies #[trigger] exchange(w, p, t, j) == t by {
        assert(w.sim_cell(offset(p, spec_cardinal4(j).0 as int, spec_cardinal4(j).1 as int))@.material == material::STONE);
    }
    lemma_exchange_warms_from_any_side(w, p, t0, i);
    let c1 = conducted(w, p, 1);
    let c2 = conducted(w, p, 2);
    let c3 = conducted(w, p, 3);
    let c4 = conducted(w, p, 4);
    assert(c1 == exchange(w, p, t0, 0));
    assert(c2 == exchange(w, p, c1, 1));
    assert(c3 == exchange(w, p, c2, 2));
    assert(c4 == exchange(w, p, c3, 3));
    if i == 0 {
        assert(c1 > t0);
        assert(c2 == c1 && c3 == c2 && c4 == c3);
    } else if i == 1 {
        assert(c1 == t0);
        assert(c2 > t0 && c3 == c2 && c4 == c3);
    } else if i == 2 {
        assert(c1 == t0 && c2 == t0);
        assert(c3 > t0 && c4 == c3);
    } else {
        assert(c1 == t0 && c2 == t0 && c3 == t0);
        assert(c4 > t0);
    }
}

pub open spec fn signum(a: int) -> int {
    if a > 0 { 1 } else if a < 0 { -1 } else { 0 }
}

/// Temperature after relaxing `temp` towards `ambient`; `nudge` is the outcome of the random 1 K
/// nudge (drawn only when the linear step rounds to zero away from ambient).
pub open spec fn relaxed(temp: int, ambient: int, tick: int, nudge: bool) -> int {
    let d = ambient - temp;
    let r = tdiv(d, 2048);
    let t1 = if r != 0 { temp + r } else if d != 0 && nudge { temp + signum(d) } else { temp };
    if tick % 6 == 0 { t1 + tdiv(ambient - t1, 384) } else { t1 }
}

pub open spec fn clamp_temp(t: int) -> u16 {
    if t < 0 { 0 } else if t > MAX_TEMPERATURE { MAX_TEMPERATURE } else { t as u16 }
}

/// Temperature the cell at `p` takes in this tick's thermal step.
pub open spec fn next_temperature(w: &World, p: Vec2i, tick: int, nudge: bool) -> u16 {
    clamp_temp(relaxed(conducted(w, p, 4), w.spec_ambient() as int, tick, nudge))
}

pub fn tdiv_i64(a: i64, d: i64) -> (r: i64)
    requires 0 < d, -0x4000_0000_0000_0000 <= a <= 0x4000_0000_0000_0000,
    ensures r == tdiv(a as int, d as int), abs(r as int) <= abs(a as int),
{
    proof {
        if a >= 0 {
            assert(a as int / d as int <= a) by (nonlinear_arith) requires a >= 0, d > 0;
        } else {
            assert((-a) as int / d as int <= -a) by (nonlinear_arith) requires a < 0, d > 0;
        }
    }
    if a >= 0 {
        ((a as u64) / (d as u64)) as i64
    } else {
        -((((-a) as u64) / (d as u64)) as i64)
    }
}

/// Bounds on the intermediate values of [`flux`] for a temperature of magnitude at most `b`.
proof fn lemma_flux_bound(temp: int, k: int, cv: int, e: int, b: int)
    requires
        abs(temp) <= b, b <= 0x80_0000_0000,
        0 <= k <= 255, 1 <= cv <= 65535, 0 <= e <= 65535,
    ensures
        abs((e - temp) * k) <= 255 * (b + 65535),
        abs(tdiv((e - temp) * k, cv * 16)) <= 16 * (b + 65535),
        abs(tdiv((e - temp) * k, cv * 16) * gradient_boost(e - temp)) <= 2304 * 16 * (b + 65535),
        abs(flux(temp, k, cv, e)) <= 145 * b + 144 * 65535,
{
    let diff = e - temp;
    assert(abs(diff) <= b + 65535);
    let a = diff * k;
    assert(abs(a) <= 255 * (b + 65535)) by (nonlinear_arith)
        requires a == diff * k, abs(diff) <= b + 65535, 0 <= k <= 255;
    assert(abs(a) <= abs(diff) * 255) by (nonlinear_arith)
        requires a == diff * k, 0 <= k <= 255;
    let q = tdiv(a, cv * 16);
    assert(abs(q) <= abs(a) / 16) by (nonlinear_arith)
        requires q == tdiv(a, cv * 16), 1 <= cv,
    {
        if a >= 0 {
            assert(a / (cv * 16) <= a / 16) by (nonlinear_arith) requires a >= 0, cv >= 1;
        } else {
            assert((-a) / (cv * 16) <= (-a) / 16) by (nonlinear_arith) requires a < 0, cv >= 1;
        }
    }
    assert(abs(q) <= 16 * abs(diff)) by (nonlinear_arith)
        requires abs(q) <= abs(a) / 16, abs(a) <= abs(diff) * 255;
    let g = gradient_boost(diff);
    assert(256 <= g <= 2304);
    let m = q * g;
    assert(abs(m) <= 2304 * abs(q)) by (nonlinear_arith) requires m == q * g, 256 <= g <= 2304;
    let t = tdiv(m, 256);
    assert(abs(t) <= abs(m) / 256) by (nonlinear_arith) requires t == tdiv(m, 256);
    assert(abs(m) <= 2304 * 16 * (b + 65535)) by (nonlinear_arith)
        requires abs(m) <= 2304 * abs(q), abs(q) <= 16 * abs(diff), abs(diff) <= b + 65535;
    assert(abs(t) <= 144 * abs(diff)) by (nonlinear_arith)
        requires abs(t) <= abs(m) / 256, abs(m) <= 2304 * abs(q), abs(q) <= 16 * abs(diff);
}

/// [`flux`] in machine integers.
fn flux_exec(temp: i64, k: i64, cv: i64, e: i64, Ghost(b): Ghost<int>) -> (r: i64)
    requires
        abs(temp as int) <= b, b <= 0x80_0000_0000,
        0 <= k <= 255, 1 <= cv <= 65535, 0 <= e <= 65535,
    ensures
        r == flux(temp as int, k as int, cv as int, e as int),
        abs(r as int) <= 145 * b + 144 * 65535,
{
    proof { lemma_flux_bound(temp as int, k as int, cv as int, e as int, b); }
    let diff = e - temp;
    let base = tdiv_i64(diff * k, cv * 16);
    let ad = if diff < 0 { -diff } else { diff };
    let boost = 256 + if ad <= 2048 { ad } else { 2048 };
    let transfer = tdiv_i64(base * boost, 256);
    temp + transfer
}

/// Material properties a cell conducts with; `None` for stone, which does not conduct.
pub fn thermal_props_for(cell: Cell, world: &World) -> (r: Option<MaterialProps>)
    requires world.wf(),
    ensures
        cell@.material == material::STONE ==> r is None,
        cell@.material != material::STONE ==> r == Some(world.props_of(cell@.material)),
{
    let mat = cell.material();
    if mat == material::STONE {
        return None;
    }
    Some(world.material_props(mat))
}

/// One conduction exchange of temperature `temp` (of the cell `cell` with props `props`) with the
/// neighbour `nc`.
fn exchange_exec(world: &World, cell: Cell, props: &MaterialProps, nc: Cell, temp: i64, ambient: i64, Ghost(b): Ghost<int>) -> (r: i64)
    requires
        world.wf(),
        *props == world.props_of(cell@.material),
        ambient == world.spec_ambient(),
        abs(temp as int) <= b, b <= 0x80_0000_0000,
    ensures
        nc@.material == material::STONE ==> r == temp,
        nc@.material != material::STONE ==> r == flux(temp as int,
            edge_conductivity(cell, *props, nc, world.props_of(nc@.material)),
            if props.volumetric_heat_capacity == 0 { 1 } else { props.volumetric_heat_capacity as int },
            effective_temp(nc, ambient as int)),
        abs(r as int) <= 145 * b + 144 * 65535,
{
    let np = match thermal_props_for(nc, world) {
        Some(np) => np,
        None => {
            assert(abs(temp as int) <= 145 * b + 144 * 65535) by (nonlinear_arith)
                requires abs(temp as int) <= b;
            return temp;
        }
    };
    let k0: i64 = if props.thermal_conductivity <= np.thermal_conductivity {
        props.thermal_conductivity as i64
    } else {
        np.thermal_conductivity as i64
    };
    let k: i64 = if cell.material() == material::LIQUID || nc.material() == material::LIQUID {
        if k0 + LIQUID_EDGE_THERMAL_BONUS <= 255 { k0 + LIQUID_EDGE_THERMAL_BONUS } else { 255 }
    } else {
        k0
    };
    let e: i64 = if nc.material() == material::EMPTY && nc.temperature() == 0 { ambient } else { nc.temperature() as i64 };
    let cv: i64 = if props.volumetric_heat_capacity == 0 { 1 } else { props.volumetric_heat_capacity as i64 };
    flux_exec(temp, k, cv, e, Ghost(b))
}

/// One tick of heat exchange for the cell at `p`: conduction with the four cardinal neighbours,
/// then relaxation towards ambient (see [`next_temperature`]). Stone does not change.
pub fn step_temperature(world: &mut World, p: Vec2i, rng: &mut SmallRng, sim_tick: u64)
    requires sim_ready(old(world), p, 1),
    ensures
        old(world).step_frame(final(world)),
        final(world).debug_pass_view() == old(world).debug_pass_view(),
        forall|q: Vec2i| q != p ==> #[trigger] final(world).sim_cell(q) == old(world).sim_cell(q),
        old(world).sim_cell(p)@.material == material::STONE ==> *final(world) == *old(world),
        old(world).sim_cell(p)@.material != material::STONE ==> exists|nudge: bool|
            final(world).sim_cell(p)@ == (CellFields {
                temperature: #[trigger] next_temperature(old(world), p, sim_tick as int, nudge), ..old(world).sim_cell(p)@ }),
{
    let ghost w0 = *world;
    proof { super::lemma_stone_cell(); }
    let cell = world.sim_get(p);
    let props = match thermal_props_for(cell, world) {
        Some(pr) => pr,
        None => { return; }
    };
    let ambient = world.ambient_temperature_k() as i64;
    let mut temp: i64 = if cell.material() == material::EMPTY && cell.temperature() == 0 { ambient } else { cell.temperature() as i64 };
    let ghost bounds: Seq<int> = seq![65535int, 18939615int, 2755681215int, 399583213215int, 57939575353215int];
    let mut i: usize = 0;
    while i < 4
        invariant
            sim_ready(&w0, p, 1),
            *world == w0,
            cell == w0.sim_cell(p),
            props == w0.props_of(cell@.material),
            ambient == w0.spec_ambient(),
            i <= 4,
            temp == conducted(&w0, p, i as nat),
            abs(temp as int) <= bounds[i as int],
            bounds == seq![65535int, 18939615int, 2755681215int, 399583213215int, 57939575353215int],
        decreases 4 - i,
    {
        let d = cardinal4(i);
        let np = shifted(world, p, d.0, d.1);
        let nc = world.sim_get(np);
        temp = exchange_exec(world, cell, &props, nc, temp, ambient, Ghost(bounds[i as int]));
        i = i + 1;
    }
    let ghost t4 = temp as int;
    let d_amb = ambient - temp;
    let relax = tdiv_i64(d_amb, AMBIENT_RELAX_DIV);
    let mut nudge = false;
    if relax != 0 {
        temp = temp + relax;
    } else if d_amb != 0 {
        nudge = gen_ratio(rng, 1, NEAR_AMBIENT_NUDGE_PERIOD);
        if nudge {
            temp = temp + if d_amb > 0 { 1 } else { -1 };
        }
    }
    if sim_tick % AMBIENT_GLOBAL_TICK_PERIOD == 0 {
        let d2 = ambient - temp;
        let pull = tdiv_i64(d2, AMBIENT_GLOBAL_EXTRA_DIV);
        temp = temp + pull;
    }
    assert(temp as int == relaxed(t4, ambient as int, sim_tick as int, nudge));
    let new_temp: u16 = if temp < 0 { 0 } else if temp > MAX_TEMPERATURE as i64 { MAX_TEMPERATURE } else { temp as u16 };
    assert(new_temp == next_temperature(&w0, p, sim_tick as int, nudge));
    if new_temp != cell.temperature() {
        sim_set_temperature(world, p, new_temp);
    }
    assert(world.sim_cell(p)@ == (CellFields { temperature: next_temperature(&w0, p, sim_tick as int, nudge), ..w0.sim_cell(p)@ }));
}

/// Fields of `cell` (props `props`) after a phase change, if its temperature triggers one: freezing
/// (at or below the freeze point) or melting (at or above the melt point, which also frees the cell
/// from any rigid body). Material and temperature change; lifetime, variant and velocities stay.
pub open spec fn phase_change(cell: Cell, props: MaterialProps) -> Option<CellFields> {
    let t = cell@.temperature;
    if props.freeze_temperature > 0 && t <= props.freeze_temperature && props.freeze_into != material::EMPTY {
        Some(CellFields { material: props.freeze_into & 0x3FF, temperature: t, ..cell@ })
    } else if props.melt_temperature > 0 && t >= props.melt_temperature && props.melt_into != material::EMPTY {
        Some(CellFields {
            material: props.melt_into & 0x3FF,
            temperature: t,
            flags: cell@.flags & !(cell_flags::RIGID_PIXEL | cell_flags::RIGID_BODY_SIM),
            rigid_source: 0,
            ..cell@
        })
    } else {
        None
    }
}

/// Applies [`phase_change`] to the in-progress cell at `p`.
pub fn check_phase_transition(world: &mut World, p: Vec2i)
    requires old(world).wf(),
    ensures
        old(world).step_frame(final(world)),
        final(world).debug_pass_view() == old(world).debug_pass_view(),
        forall|q: Vec2i| q != p ==> #[trigger] final(world).sim_cell(q) == old(world).sim_cell(q),
        ({
            let c = old(world).sim_cell(p);
            match phase_change(c, old(world).props_of(c@.material)) {
                Some(f) => old(world).in_grid(p) ==> final(world).sim_cell(p)@ == f,
                None => *final(world) == *old(world),
            }
        }),
        !old(world).in_grid(p) ==> *final(world) == *old(world),
{
    let cell = world.sim_get(p);
    let props = world.material_props(cell.material());
    let temp = cell.temperature();
    assert(0u16 & 0x3FFu16 == 0u16) by (bit_vector);
    if props.freeze_temperature > 0 && temp <= props.freeze_temperature && props.freeze_into != material::EMPTY {
        let new_cell = cell.with_material(props.freeze_into).with_temperature(temp);
        world.sim_put(p, new_cell);
    } else if props.melt_temperature > 0 && temp >= props.melt_temperature && props.melt_into != material::EMPTY {
        let new_cell = cell
            .with_material(props.melt_into)
            .with_temperature(temp)
            .with_flags(cell.flags() & !(cell_flags::RIGID_PIXEL | cell_flags::RIGID_BODY_SIM))
            .with_rigid_source_material(0);
        world.sim_put(p, new_cell);
    }
}

} // verus!
