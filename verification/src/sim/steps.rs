//! Short-lived gases and embers: fire, smoke, steam, plain gas and embers.
use vstd::prelude::*;
use rand::rngs::SmallRng;

use crate::cell64::Cell;
use crate::world::geom::Vec2i;
use crate::world::material;
use crate::world::state::World;
use super::engines::burn::{
    heat_target_reached, lemma_neighbors_distinct, neighbor_explodes, neighbor_heat_target, no_influence_rules,
    on_death_replacement_lifetime, spread_burn_to_neighbors, try_neighbor_spawns,
};
use super::engines::influence::neighbor_at;
use super::moved_into;
use super::engines::granular::accelerated;
use super::engines::liquid::lemma_no_reactions_kept;
use crate::cell64::CellFields;
use super::rng::{gen_range_u8, gen_ratio};
use super::{
    lemma_local_compose, lemma_local_recenter, lemma_local_step, local_change, moves_into_empty, near_grid, offset, same_cells_except, shifted,
    sim_ready, sim_set_lifetime, sim_set_velocity, try_displace, within, MoveIntent, no_reactions_from, reaction_of,
};

verus! {

/// The fields `f` one tick older: lifetime lowered by one.
pub open spec fn aged(f: CellFields) -> CellFields {
    CellFields { lifetime: (f.lifetime - 1) as u8, ..f }
}

/// Cell `c` has the fields `f`, its horizontal velocity aside.
pub open spec fn same_but_velocity(c: Cell, f: CellFields) -> bool {
    c@ == (CellFields { vx_bits: c@.vx_bits, ..f })
}

/// A cell that reacts with nothing, taken from `p` in `w`, stands in `w2` at some `q` no lower than
/// `p` and at most `r` cells away, with all its fields but velocity (and strictly higher when it
/// had an empty cell above it to move into).
pub open spec fn carried_up(w: &World, w2: &World, p: Vec2i, f: CellFields, r: int) -> bool {
    no_reactions_from(w, f.material) ==> exists|q: Vec2i| q.y <= p.y && within(p, q, r)
        && (moves_into_empty(w, p, offset(p, 0, -1)) ==> q.y < p.y)
        && #[trigger] same_but_velocity(w2.sim_cell(q), f)
}

/// Rises up to `steps` cells from `p`: straight up, else diagonally up (random side first);
/// blocked, it stops and loses its speed. A cell with an empty cell above it that it is sure to
/// move into leaves `p` empty. A cell that reacts with nothing is carried along intact.
fn rise(world: &mut World, p: Vec2i, steps: i32, rng: &mut SmallRng)
    requires sim_ready(old(world), p, 0), 1 <= steps <= 127,
    ensures
        old(world).step_frame(final(world)),
        local_change(old(world), final(world), p, 128),
        moves_into_empty(old(world), p, offset(p, 0, -1)) ==> final(world).sim_cell(p) == Cell(0),
        carried_up(old(world), final(world), p, old(world).sim_cell(p)@, steps as int),
{
    let mut current = p;
    let ghost w0 = *old(world);
    let ghost f0 = w0.sim_cell(p)@;
    let ghost nr = no_reactions_from(&w0, f0.material);
    let ghost mut left: bool = false;
    let mut k: i32 = 0;
    while k < steps
        invariant
            w0 == *old(world),
            sim_ready(&w0, p, 0),
            w0.step_frame(world),
            near_grid(&w0, current, 0),
            0 <= k <= steps,
            1 <= steps <= 127,
            within(p, current, k as int),
            local_change(&w0, world, p, 128),
            k == 0 ==> *world == w0 && current == p,
            k > 0 && moves_into_empty(&w0, p, offset(p, 0, -1)) ==> left,
            left ==> current.y < p.y && world.sim_cell(p) == Cell(0),
            current.y <= p.y,
            f0 == w0.sim_cell(p)@,
            nr == no_reactions_from(&w0, f0.material),
            nr ==> same_but_velocity(world.sim_cell(current), f0),
        ensures
            moves_into_empty(&w0, p, offset(p, 0, -1)) ==> world.sim_cell(p) == Cell(0),
            moves_into_empty(&w0, p, offset(p, 0, -1)) ==> current.y < p.y,
            current.y <= p.y,
            within(p, current, steps as int),
            nr ==> same_but_velocity(world.sim_cell(current), f0),
        decreases steps - k,
    {
        k = k + 1;
        let up = shifted(world, current, 0, -1);
        let ghost wa = *world;
        proof {
            if nr {
                lemma_no_reactions_kept(&w0, &wa, f0.material);
                assert(reaction_of(&wa, wa.sim_cell(current)@.material, wa.sim_cell(up)@.material) is NoReaction);
            }
        }
        if try_displace(world, current, up, MoveIntent::VerticalUp, rng) {
            proof {
                lemma_local_step(&w0, &wa, world, p, 128, current, up);
                if current == p && k == 1 && moves_into_empty(&w0, p, offset(p, 0, -1)) {
                    crate::cell64::lemma_zero_fields();
                    left = true;
                }
                if left && !(current == p && k == 1) {
                    assert(world.sim_cell(p) == wa.sim_cell(p));
                }
            }
            current = up;
            continue;
        }
        proof {
            lemma_local_step(&w0, &wa, world, p, 128, current, up);
            if k == 1 { assert(!moves_into_empty(&w0, p, offset(p, 0, -1))); }
        }
        let left_first = gen_ratio(rng, 1, 2);
        let ul = shifted(world, current, -1, -1);
        let ur = shifted(world, current, 1, -1);
        let (first, second) = if left_first { (ul, ur) } else { (ur, ul) };
        let ghost wb = *world;
        proof {
            if nr {
                lemma_no_reactions_kept(&w0, &wb, f0.material);
                assert(reaction_of(&wb, wb.sim_cell(current)@.material, wb.sim_cell(first)@.material) is NoReaction);
            }
        }
        if try_displace(world, current, first, MoveIntent::VerticalUp, rng) {
            proof {
                lemma_local_step(&w0, &wb, world, p, 128, current, first);
                if left { assert(world.sim_cell(p) == wb.sim_cell(p)); }
            }
            current = first;
        } else {
            proof { lemma_local_step(&w0, &wb, world, p, 128, current, first); }
            let ghost wc = *world;
            proof {
                if nr {
                    lemma_no_reactions_kept(&w0, &wc, f0.material);
                    assert(reaction_of(&wc, wc.sim_cell(current)@.material, wc.sim_cell(second)@.material) is NoReaction);
                }
            }
            if try_displace(world, current, second, MoveIntent::VerticalUp, rng) {
                proof {
                    lemma_local_step(&w0, &wc, world, p, 128, current, second);
                    if left { assert(world.sim_cell(p) == wc.sim_cell(p)); }
                }
                current = second;
            } else {
                proof { lemma_local_step(&w0, &wc, world, p, 128, current, second); }
                let ghost wd = *world;
                sim_set_velocity(world, current, 0);
                proof {
                    assert(same_cells_except(&wd, world, current, current));
                    lemma_local_step(&w0, &wd, world, p, 128, current, current);
                    if left { assert(world.sim_cell(p) == wd.sim_cell(p)); }
                }
                break;
            }
        }
    }
    proof {
        if nr {
            assert(same_but_velocity(world.sim_cell(current), f0));
        }
    }
}

/// What [`carried_up`] gives for the cell at `p` of `w1` also holds, for the fields `f` that agree
/// with it but for velocity, of the earlier world `w0` that differs from `w1` at `p` alone and in
/// neither the cell's material, its flags nor the cell above.
proof fn lemma_carried_up_from(w0: &World, w1: &World, w2: &World, p: Vec2i, f: CellFields, r: int, r2: int)
    requires
        w0.step_frame(w1),
        carried_up(w1, w2, p, w1.sim_cell(p)@, r),
        r <= r2,
        same_but_velocity(w1.sim_cell(p), f),
        w1.sim_cell(p)@.material == w0.sim_cell(p)@.material,
        w1.sim_cell(p)@.flags == w0.sim_cell(p)@.flags,
        w1.sim_cell(offset(p, 0, -1)) == w0.sim_cell(offset(p, 0, -1)),
        f.material == w0.sim_cell(p)@.material,
    ensures carried_up(w0, w2, p, f, r2),
{
    if no_reactions_from(w0, f.material) {
        lemma_no_reactions_kept(w0, w1, f.material);
        assert(moves_into_empty(w0, p, offset(p, 0, -1)) == moves_into_empty(w1, p, offset(p, 0, -1)));
        let q = choose|q: Vec2i| q.y <= p.y && within(p, q, r)
            && (moves_into_empty(w1, p, offset(p, 0, -1)) ==> q.y < p.y)
            && #[trigger] same_but_velocity(w2.sim_cell(q), w1.sim_cell(p)@);
        assert(same_but_velocity(w2.sim_cell(q), f));
    }
}

/// One tick of smoke at `p`: at lifetime 0 it vanishes; otherwise it ages by one, accelerates and
/// rises up to its speed in cells.
pub fn step_smoke(world: &mut World, p: Vec2i, rng: &mut SmallRng)
    requires sim_ready(old(world), p, 0),
    ensures
        old(world).step_frame(final(world)),
        old(world).in_grid(p) && old(world).sim_cell(p)@.lifetime == 0 ==> final(world).sim_cell(p) == Cell(0),
        local_change(old(world), final(world), p, 128),
        old(world).in_grid(p) && old(world).sim_cell(p)@.lifetime > 0 ==> carried_up(old(world), final(world), p,
            aged(old(world).sim_cell(p)@), 127),
{
    let ghost w0 = *old(world);
    let cell = world.sim_get(p);
    let life = cell.lifetime();
    if life == 0 {
        world.sim_put(p, Cell::new());
        proof { lemma_local_step(&w0, &w0, world, p, 128, p, p); }
        return;
    }
    sim_set_lifetime(world, p, life - 1);
    let props = world.material_props(cell.material());
    let new_vel = accelerated(cell.velocity_x(), props.acceleration(), props.max_speed());
    let ghost w1 = *world;
    sim_set_velocity(world, p, new_vel);
    proof {
        assert(same_cells_except(&w0, &w1, p, p));
        assert(same_cells_except(&w1, world, p, p));
        lemma_local_step(&w0, &w0, &w1, p, 0, p, p);
        lemma_local_step(&w0, &w1, world, p, 0, p, p);
    }
    let steps: i32 = if (new_vel as i32) >= 1 { new_vel as i32 } else { 1 };
    let ghost w2 = *world;
    rise(world, p, steps, rng);
    proof {
        lemma_local_compose(&w0, &w2, world, p, 0, 128, 128);
        let f = aged(w0.sim_cell(p)@);
        assert(offset(p, 0, -1) != p);
        lemma_carried_up_from(&w0, &w2, world, p, f, steps as int, 127);
    }
}

/// One tick of a plain gas at `p` (no lifetime): it accelerates and rises up to its speed in cells.
pub fn step_gas(world: &mut World, p: Vec2i, rng: &mut SmallRng)
    requires sim_ready(old(world), p, 0),
    ensures
        old(world).step_frame(final(world)),
        local_change(old(world), final(world), p, 128),
        moves_into_empty(old(world), p, offset(p, 0, -1)) ==> final(world).sim_cell(p) == Cell(0),
        carried_up(old(world), final(world), p, old(world).sim_cell(p)@, 127),
{
    let ghost w0 = *old(world);
    let cell = world.sim_get(p);
    let props = world.material_props(cell.material());
    let new_vel = accelerated(cell.velocity_x(), props.acceleration(), props.max_speed());
    sim_set_velocity(world, p, new_vel);
    proof {
        assert(same_cells_except(&w0, world, p, p));
        lemma_local_step(&w0, &w0, world, p, 0, p, p);
    }
    let steps: i32 = if (new_vel as i32) >= 1 { new_vel as i32 } else { 1 };
    let ghost w2 = *world;
    proof {
        if moves_into_empty(&w0, p, offset(p, 0, -1)) {
            let up = offset(p, 0, -1);
            assert(up != p);
            assert(w2.sim_cell(up) == w0.sim_cell(up));
            assert(w2.sim_cell(p)@.material == w0.sim_cell(p)@.material);
            assert(w2.sim_cell(p)@.flags == w0.sim_cell(p)@.flags);
            assert(moves_into_empty(&w2, p, up));
        }
    }
    rise(world, p, steps, rng);
    proof {
        lemma_local_compose(&w0, &w2, world, p, 0, 128, 128);
        assert(offset(p, 0, -1) != p);
        lemma_carried_up_from(&w0, &w2, world, p, w0.sim_cell(p)@, steps as int, 127);
    }
}

/// One tick of steam at `p`: at lifetime 0 it condenses to water at water's base temperature,
/// keeping its variant; otherwise it ages, drifts sideways two times in three, and rises.
pub fn step_steam(world: &mut World, p: Vec2i, rng: &mut SmallRng)
    requires sim_ready(old(world), p, 0),
    ensures
        old(world).step_frame(final(world)),
        old(world).in_grid(p) && old(world).sim_cell(p)@.lifetime == 0 ==>
            final(world).sim_cell(p)@.material == material::LIQUID,
        local_change(old(world), final(world), p, 129),
        old(world).in_grid(p) && old(world).sim_cell(p)@.lifetime > 0 && no_reactions_from(old(world), old(world).sim_cell(p)@.material) ==>
            exists|q: Vec2i| q.y <= p.y && within(p, q, 129) && #[trigger] same_but_velocity(final(world).sim_cell(q),
                aged(old(world).sim_cell(p)@)),
{
    let ghost w0 = *old(world);
    let cell = world.sim_get(p);
    let life = cell.lifetime();
    if life == 0 {
        let water_props = world.material_props(material::LIQUID);
        proof { crate::cell64::lemma_zero_fields(); super::lemma_material_mask(material::LIQUID); }
        world.sim_put(p, Cell::new()
            .with_material(material::LIQUID)
            .with_temperature(water_props.base_temperature)
            .with_variant(cell.variant()));
        proof { lemma_local_step(&w0, &w0, world, p, 129, p, p); }
        return;
    }
    sim_set_lifetime(world, p, life - 1);
    let props = world.material_props(material::STEAM);
    let new_vel = accelerated(cell.velocity_x(), props.acceleration(), props.max_speed());
    let ghost w1 = *world;
    sim_set_velocity(world, p, new_vel);
    proof {
        assert(same_cells_except(&w0, &w1, p, p));
        assert(same_cells_except(&w1, world, p, p));
        lemma_local_step(&w0, &w0, &w1, p, 129, p, p);
        lemma_local_step(&w0, &w1, world, p, 129, p, p);
    }
    let mut current = p;
    let dx: i32 = if gen_ratio(rng, 67, 100) {
        if gen_ratio(rng, 1, 2) { -1 } else { 1 }
    } else {
        0
    };
    let ghost f = aged(w0.sim_cell(p)@);
    let ghost nr = no_reactions_from(&w0, w0.sim_cell(p)@.material);
    proof { assert(same_but_velocity(world.sim_cell(p), f)); }
    if dx != 0 {
        let side = shifted(world, current, dx, 0);
        let ghost wa = *world;
        proof {
            if nr {
                lemma_no_reactions_kept(&w0, &wa, f.material);
                assert(reaction_of(&wa, wa.sim_cell(p)@.material, wa.sim_cell(side)@.material) is NoReaction);
            }
        }
        if try_displace(world, current, side, MoveIntent::Lateral, rng) {
            current = side;
        }
        proof { lemma_local_step(&w0, &wa, world, p, 129, p, side); }
    }
    let steps: i32 = if (new_vel as i32) >= 1 { new_vel as i32 } else { 1 };
    let ghost w2 = *world;
    proof {
        assert(current.y == p.y && within(p, current, 1));
        if nr { assert(same_but_velocity(w2.sim_cell(current), f)); }
    }
    rise(world, current, steps, rng);
    proof {
        lemma_local_recenter(&w2, world, current, 128, p, 1);
        lemma_local_compose(&w0, &w2, world, p, 129, 129, 129);
        if nr {
            lemma_no_reactions_kept(&w0, &w2, f.material);
            let q = choose|q: Vec2i| q.y <= current.y && within(current, q, steps as int)
                && (moves_into_empty(&w2, current, offset(current, 0, -1)) ==> q.y < current.y)
                && #[trigger] same_but_velocity(world.sim_cell(q), w2.sim_cell(current)@);
            assert(same_but_velocity(world.sim_cell(q), f));
            assert(within(p, q, 129));
        }
    }
}

/// Cell `c` has the fields `f`, its temperature aside.
pub open spec fn same_but_temperature(c: Cell, f: CellFields) -> bool {
    c@ == (CellFields { temperature: c@.temperature, ..f })
}

/// Every neighbour of `p` that spreading heat from `p` (source `m`, heat factor `hn / hd`) is sure
/// to turn into a heat target in `w` has reached it in `w2`, or its cell was swapped into `p`.
pub open spec fn heat_targets_reached(w: &World, w2: &World, p: Vec2i, m: u16, hn: int, hd: int) -> bool {
    forall|k: int| 0 <= k < 8 && (#[trigger] neighbor_heat_target(w, p, m, hn, hd, k)) is Some ==>
        heat_target_reached(neighbor_heat_target(w, p, m, hn, hd, k)->0, w2.sim_cell(neighbor_at(p, k)))
        || heat_target_reached(neighbor_heat_target(w, p, m, hn, hd, k)->0, w2.sim_cell(p))
}

/// Every neighbour of `p` that spreading heat from `p` is sure to blow up is queued in `e`.
pub open spec fn explosions_queued(w: &World, e: Seq<(Vec2i, i32)>, p: Vec2i, m: u16, hn: int, hd: int) -> bool {
    forall|k: int| 0 <= k < 8 && #[trigger] neighbor_explodes(w, p, m, hn, hd, k) ==>
        e.contains((neighbor_at(p, k), w.props_of(w.sim_cell(neighbor_at(p, k))@.material).explosion_radius as i32))
}

/// Heat targets and explosions read only the neighbours of `p` and the material tables, so a world
/// that differs from `w` at `p` alone gives the same ones.
proof fn lemma_targets_ignore_center(w: &World, w1: &World, p: Vec2i, m: u16, hn: int, hd: int)
    requires
        w.step_frame(w1),
        forall|q: Vec2i| q != p ==> #[trigger] w1.sim_cell(q) == w.sim_cell(q),
        i32::MIN < p.x < i32::MAX, i32::MIN < p.y < i32::MAX,
    ensures
        forall|k: int| 0 <= k < 8 ==> #[trigger] neighbor_heat_target(w1, p, m, hn, hd, k) == neighbor_heat_target(w, p, m, hn, hd, k),
        forall|k: int| 0 <= k < 8 ==> #[trigger] neighbor_explodes(w1, p, m, hn, hd, k) == neighbor_explodes(w, p, m, hn, hd, k),
{
    assert forall|k: int| 0 <= k < 8 implies #[trigger] neighbor_heat_target(w1, p, m, hn, hd, k) == neighbor_heat_target(w, p, m, hn, hd, k)
        && neighbor_explodes(w1, p, m, hn, hd, k) == neighbor_explodes(w, p, m, hn, hd, k) by {
        lemma_neighbors_distinct(p, k, if k == 0 { 1 } else { 0 });
        assert(w1.sim_cell(neighbor_at(p, k)) == w.sim_cell(neighbor_at(p, k)));
        assert(w1.in_grid(neighbor_at(p, k)) == w.in_grid(neighbor_at(p, k)));
    }
}

/// A flame at `p` (fields `f` but for temperature) with its heat targets reached around it in `ws`
/// either stays or trades places with the neighbour `t`: afterwards it stands within one cell of
/// `p` and the targets are still reached.
proof fn lemma_fire_move(w0: &World, ws: &World, w2: &World, p: Vec2i, t: Vec2i, f: CellFields, m: u16, hn: int, hd: int, moved: bool)
    requires
        within(p, t, 1), t != p,
        i32::MIN < p.x < i32::MAX, i32::MIN < p.y < i32::MAX,
        same_but_temperature(ws.sim_cell(p), f),
        forall|k: int| 0 <= k < 8 && (#[trigger] neighbor_heat_target(w0, p, m, hn, hd, k)) is Some ==>
            heat_target_reached(neighbor_heat_target(w0, p, m, hn, hd, k)->0, ws.sim_cell(neighbor_at(p, k))),
        moved ==> moved_into(ws, w2, p, t),
        !moved ==> *w2 == *ws,
    ensures
        exists|q: Vec2i| within(p, q, 1) && #[trigger] same_but_temperature(w2.sim_cell(q), f),
        heat_targets_reached(w0, w2, p, m, hn, hd),
{
    if moved {
        assert(same_but_temperature(w2.sim_cell(t), f));
        assert forall|k: int| 0 <= k < 8 && (#[trigger] neighbor_heat_target(w0, p, m, hn, hd, k)) is Some implies
            heat_target_reached(neighbor_heat_target(w0, p, m, hn, hd, k)->0, w2.sim_cell(neighbor_at(p, k)))
            || heat_target_reached(neighbor_heat_target(w0, p, m, hn, hd, k)->0, w2.sim_cell(p)) by {
            lemma_neighbors_distinct(p, k, if k == 0 { 1 } else { 0 });
            if neighbor_at(p, k) == t {
                assert(ws.sim_cell(t)@.material != material::EMPTY);
            }
        }
    } else {
        assert(same_but_temperature(w2.sim_cell(p), f));
        assert(within(p, p, 1));
    }
}

/// One tick of a flame at `p`: at lifetime 0 it becomes its death material (or smoke) with a fresh
/// lifetime; otherwise it ages, spreads heat with factor `lifetime/255`, and rises or drifts.
pub fn step_fire(world: &mut World, p: Vec2i, rng: &mut SmallRng, explosions: &mut Vec<(Vec2i, i32)>)
    requires sim_ready(old(world), p, 0),
    ensures
        old(world).step_frame(final(world)),
        old(explosions)@.is_prefix_of(final(explosions)@),
        local_change(old(world), final(world), p, 2),
        old(world).in_grid(p) && old(world).sim_cell(p)@.lifetime == 0 ==> ({
            let fp = crate::explosion::props_for(old(world), old(world).sim_cell(p)@.material);
            let dm = if fp.on_death_become != material::EMPTY { fp.on_death_become } else { material::SMOKE };
            let c = final(world).sim_cell(p)@;
            &&& c.material == dm & 0x3FF
            &&& (fp.on_death_lifetime_hi > fp.on_death_lifetime_lo ==> fp.on_death_lifetime_lo <= c.lifetime < fp.on_death_lifetime_hi)
            &&& (fp.on_death_lifetime_hi <= fp.on_death_lifetime_lo ==> 20 <= c.lifetime < 60)
            &&& final(explosions)@ == old(explosions)@
            &&& forall|q: Vec2i| q != p ==> #[trigger] final(world).sim_cell(q) == old(world).sim_cell(q)
        }),
        old(world).in_grid(p) && old(world).sim_cell(p)@.lifetime > 0 ==>
            explosions_queued(old(world), final(explosions)@, p, old(world).sim_cell(p)@.material,
                old(world).sim_cell(p)@.lifetime as int, 255),
        old(world).in_grid(p) && old(world).sim_cell(p)@.lifetime > 0 && old(world).sim_cell(p)@.material != material::EMPTY
            && no_influence_rules(crate::explosion::props_for(old(world), old(world).sim_cell(p)@.material))
            && no_reactions_from(old(world), old(world).sim_cell(p)@.material) ==> {
            &&& exists|q: Vec2i| within(p, q, 1) && #[trigger] same_but_temperature(final(world).sim_cell(q), aged(old(world).sim_cell(p)@))
            &&& heat_targets_reached(old(world), final(world), p, old(world).sim_cell(p)@.material,
                    old(world).sim_cell(p)@.lifetime as int, 255)
        },
{
    let ghost w0 = *old(world);
    let cell = world.sim_get(p);
    let fire_props = world.material_props(cell.material());
    let life = cell.lifetime();
    if life == 0 {
        let death_mat = if fire_props.on_death_become != material::EMPTY { fire_props.on_death_become } else { material::SMOKE };
        if death_mat == material::EMPTY {
            world.sim_put(p, Cell::new());
        } else {
            let l = on_death_replacement_lifetime(&fire_props, rng);
            proof { crate::cell64::lemma_zero_fields(); }
            world.sim_put(p, Cell::new().with_material(death_mat).with_lifetime(l));
        }
        proof { lemma_local_step(&w0, &w0, world, p, 2, p, p); }
        return;
    }
    sim_set_lifetime(world, p, life - 1);
    proof {
        assert(same_cells_except(&w0, world, p, p));
        lemma_local_step(&w0, &w0, world, p, 2, p, p);
    }
    let source_mat = cell.material();
    let ghost w1 = *world;
    let ghost m = w0.sim_cell(p)@.material;
    let ghost hn = life as int;
    let ghost f = aged(w0.sim_cell(p)@);
    let ghost good = m != material::EMPTY && no_influence_rules(crate::explosion::props_for(&w0, m)) && no_reactions_from(&w0, m);
    proof { lemma_targets_ignore_center(&w0, &w1, p, m, hn, 255); }
    let out = spread_burn_to_neighbors(world, p, source_mat, life as u32, 255, life, rng, explosions);
    let ghost ws = *world;
    proof {
        lemma_local_compose(&w0, &w1, world, p, 2, 2, 2);
        assert forall|k: int| 0 <= k < 8 && #[trigger] neighbor_explodes(&w0, p, m, hn, 255, k) implies
            explosions@.contains((neighbor_at(p, k), w0.props_of(w0.sim_cell(neighbor_at(p, k))@.material).explosion_radius as i32)) by {
            assert(neighbor_explodes(&w1, p, m, hn, 255, k));
            lemma_neighbors_distinct(p, k, if k == 0 { 1 } else { 0 });
            assert(w1.sim_cell(neighbor_at(p, k)) == w0.sim_cell(neighbor_at(p, k)));
        }
        assert forall|k: int| 0 <= k < 8 && (#[trigger] neighbor_heat_target(&w0, p, m, hn, 255, k)) is Some implies
            heat_target_reached(neighbor_heat_target(&w0, p, m, hn, 255, k)->0, ws.sim_cell(neighbor_at(p, k))) by {
            assert(neighbor_heat_target(&w1, p, m, hn, 255, k) == neighbor_heat_target(&w0, p, m, hn, 255, k));
        }
        if good {
            lemma_no_reactions_kept(&w0, &ws, m);
            assert(same_but_temperature(ws.sim_cell(p), f));
        }
    }
    if out {
        return;
    }
    let current = p;
    let up = shifted(world, current, 0, -1);
    let ghost wa = *world;
    let ghost ea = explosions@;
    if try_displace(world, current, up, MoveIntent::VerticalUp, rng) {
        proof {
            lemma_local_step(&w0, &wa, world, p, 2, current, up);
            if good { lemma_fire_move(&w0, &ws, world, p, up, f, m, hn, 255, true); }
        }
        return;
    }
    proof { lemma_local_step(&w0, &wa, world, p, 2, current, up); }
    let drift: i32 = if gen_ratio(rng, 1, 2) { -1 } else { 1 };
    let side_up = shifted(world, current, drift, -1);
    let ghost wb = *world;
    if try_displace(world, current, side_up, MoveIntent::VerticalUp, rng) {
        proof {
            lemma_local_step(&w0, &wb, world, p, 2, current, side_up);
            if good { lemma_fire_move(&w0, &ws, world, p, side_up, f, m, hn, 255, true); }
        }
        return;
    }
    proof { lemma_local_step(&w0, &wb, world, p, 2, current, side_up); }
    let side = shifted(world, current, drift, 0);
    let ghost wc = *world;
    let moved = try_displace(world, current, side, MoveIntent::Lateral, rng);
    proof {
        lemma_local_step(&w0, &wc, world, p, 2, current, side);
        if good { lemma_fire_move(&w0, &ws, world, p, side, f, m, hn, 255, moved); }
    }
}

/// One tick of an ember at `p`: at lifetime 0 it turns to smoke; otherwise it spreads heat with
/// factor `ignitability/255`, loses lifetime with odds `consumption_rate/256` (turning to smoke at
/// the last), and runs its neighbour spawns.
pub fn step_ember(world: &mut World, p: Vec2i, rng: &mut SmallRng, explosions: &mut Vec<(Vec2i, i32)>)
    requires sim_ready(old(world), p, 0),
    ensures
        old(world).step_frame(final(world)),
        old(explosions)@.is_prefix_of(final(explosions)@),
        local_change(old(world), final(world), p, 2),
        old(world).in_grid(p) && old(world).sim_cell(p)@.lifetime == 0 ==> ({
            let c = final(world).sim_cell(p)@;
            &&& c.material == material::SMOKE
            &&& 18 <= c.lifetime < 52
            &&& c.variant == old(world).sim_cell(p)@.variant & 3
            &&& final(explosions)@ == old(explosions)@
            &&& forall|q: Vec2i| q != p ==> #[trigger] final(world).sim_cell(q) == old(world).sim_cell(q)
        }),
        old(world).in_grid(p) && old(world).sim_cell(p)@.lifetime > 0 ==> {
            let hn = old(world).props_of(material::EMBER).ignitability as int;
            &&& explosions_queued(old(world), final(explosions)@, p, material::EMBER, hn, 255)
            &&& forall|k: int| 0 <= k < 8 && (#[trigger] neighbor_heat_target(old(world), p, material::EMBER, hn, 255, k)) is Some ==>
                heat_target_reached(neighbor_heat_target(old(world), p, material::EMBER, hn, 255, k)->0,
                    final(world).sim_cell(neighbor_at(p, k)))
        },
        old(world).in_grid(p) && old(world).sim_cell(p)@.lifetime > 0 && old(world).sim_cell(p)@.material != material::EMPTY
            && no_influence_rules(crate::explosion::props_for(old(world), material::EMBER)) ==>
            same_but_temperature(final(world).sim_cell(p), old(world).sim_cell(p)@)
            || same_but_temperature(final(world).sim_cell(p), aged(old(world).sim_cell(p)@))
            || (final(world).sim_cell(p)@.material == material::SMOKE && old(world).sim_cell(p)@.lifetime <= 1),
{
    let ghost w0 = *old(world);
    let cell = world.sim_get(p);
    let ember_props = world.material_props(material::EMBER);
    let life0 = cell.lifetime();
    if life0 == 0 {
        let l = gen_range_u8(rng, 18, 52);
        proof { crate::cell64::lemma_zero_fields(); super::lemma_material_mask(material::SMOKE); }
        world.sim_put(p, Cell::new().with_material(material::SMOKE).with_lifetime(l).with_variant(cell.variant()));
        proof { lemma_local_step(&w0, &w0, world, p, 2, p, p); }
        return;
    }
    let out = spread_burn_to_neighbors(world, p, material::EMBER, ember_props.ignitability as u32, 255, life0, rng, explosions);
    let ghost hn = ember_props.ignitability as int;
    let ghost good = w0.sim_cell(p)@.material != material::EMPTY && no_influence_rules(crate::explosion::props_for(&w0, material::EMBER));
    if out {
        return;
    }
    let life = world.sim_get(p).lifetime();
    let rate: u32 = if ember_props.consumption_rate >= 1 { ember_props.consumption_rate as u32 } else { 1 };
    let ghost w1 = *world;
    proof {
        if good { assert(life == life0); }
    }
    if gen_ratio(rng, rate, 256) {
        if life <= 1 {
            let l = gen_range_u8(rng, 18, 52);
            proof { crate::cell64::lemma_zero_fields(); super::lemma_material_mask(material::SMOKE); }
            world.sim_put(p, Cell::new().with_material(material::SMOKE).with_lifetime(l).with_variant(cell.variant()));
            proof {
                lemma_local_step(&w0, &w1, world, p, 2, p, p);
                assert forall|k: int| 0 <= k < 8 && (#[trigger] neighbor_heat_target(&w0, p, material::EMBER, hn, 255, k)) is Some implies
                    heat_target_reached(neighbor_heat_target(&w0, p, material::EMBER, hn, 255, k)->0, world.sim_cell(neighbor_at(p, k))) by {
                    lemma_neighbors_distinct(p, k, if k == 0 { 1 } else { 0 });
                }
            }
            return;
        }
        sim_set_lifetime(world, p, life - 1);
        proof {
            assert(same_cells_except(&w1, world, p, p));
            lemma_local_step(&w0, &w1, world, p, 2, p, p);
        }
    }
    let ghost w2 = *world;
    proof {
        assert forall|k: int| 0 <= k < 8 && (#[trigger] neighbor_heat_target(&w0, p, material::EMBER, hn, 255, k)) is Some implies
            heat_target_reached(neighbor_heat_target(&w0, p, material::EMBER, hn, 255, k)->0, w2.sim_cell(neighbor_at(p, k)))
            && w2.sim_cell(neighbor_at(p, k))@.material != material::EMPTY by {
            lemma_neighbors_distinct(p, k, if k == 0 { 1 } else { 0 });
        }
    }
    try_neighbor_spawns(world, p, &ember_props, rng);
    proof {
        lemma_local_compose(&w0, &w2, world, p, 2, 1, 2);
        if good { assert(w2.sim_cell(p)@.material != material::EMPTY); }
    }
}

} // verus!
