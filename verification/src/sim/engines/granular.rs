//! Granular solids: falling, sliding off diagonals and dislodging their neighbours.
use vstd::prelude::*;
use rand::rngs::SmallRng;

use crate::world::cell_flags;
use crate::world::geom::Vec2i;
use crate::world::material;
use crate::world::props::Phase;
use crate::world::state::World;
use crate::sim::rng::gen_ratio;
use crate::sim::{
    lemma_local_step, local_change, moves_into_empty, near_grid, offset, same_cells_except, shifted, sim_clear_flag, sim_ready,
    sim_set_flag, sim_set_velocity, spec_allows_density_swap, try_displace, vertical_down_allows_density_swap,
    within, MoveIntent, no_reactions_from, reaction_of, displace_blocked, spec_verdict, Verdict,
};
use crate::sim::engines::liquid::lemma_no_reactions_kept;

verus! {

/// A resting granular cell at `p` starts to fall: the cell below is empty, or a non-inert cell of a
/// phase it may sink through and lower density.
pub open spec fn sand_starts_falling(w: &World, p: Vec2i) -> bool {
    let c = w.sim_cell(p);
    let b = w.sim_cell(offset(p, 0, 1));
    let cp = w.props_of(c@.material);
    let bp = w.props_of(b@.material);
    b@.material == material::EMPTY
        || (!(bp.motion is InertSolid) && spec_allows_density_swap(cp.motion.spec_phase(), bp.motion.spec_phase())
            && cp.density > bp.density)
}

/// A move of the cell at `from` into `to` is sure to be refused: something blocks it, or no
/// reaction is configured and the displacement rules never allow it.
pub open spec fn move_refused(w: &World, from: Vec2i, to: Vec2i, intent: MoveIntent) -> bool {
    let fc = w.sim_cell(from);
    let tc = w.sim_cell(to);
    ||| displace_blocked(w, from, to)
    ||| (reaction_of(w, fc@.material, tc@.material) is NoReaction
        && spec_verdict(w.props_of(fc@.material), tc, w.props_of(tc@.material), intent) == Verdict::Never)
}

/// A falling grain at `p` cannot go straight down, but slides off: the cell below refuses it,
/// at least one lower diagonal is empty for it to move into, and each lower diagonal either
/// takes it (being empty) or refuses it.
pub open spec fn sand_slides_off(w: &World, p: Vec2i) -> bool {
    let dl = offset(p, -1, 1);
    let dr = offset(p, 1, 1);
    &&& move_refused(w, p, offset(p, 0, 1), MoveIntent::VerticalDown)
    &&& moves_into_empty(w, p, dl) || moves_into_empty(w, p, dr)
    &&& moves_into_empty(w, p, dl) || move_refused(w, p, dl, MoveIntent::VerticalDown)
    &&& moves_into_empty(w, p, dr) || move_refused(w, p, dr, MoveIntent::VerticalDown)
}

/// The grain at `p` falls at most one cell this tick: it is granular and its speed plus one tick
/// of acceleration is at most one.
pub open spec fn falls_one_cell(w: &World, p: Vec2i) -> bool {
    let c = w.sim_cell(p);
    let m = w.props_of(c@.material).motion;
    &&& m is SolidGranular
    &&& c.spec_velocity_x() + m->SolidGranular_acceleration <= 1
}

/// Moves out of `p` look the same in two worlds that differ at `p` only in flags other than the
/// rigid-body one, and in velocity.
proof fn lemma_sand_slides_same(w0: &World, w1: &World, p: Vec2i)
    requires
        w0.step_frame(w1),
        i32::MIN < p.x < i32::MAX, i32::MIN < p.y < i32::MAX,
        w1.sim_cell(p)@.material == w0.sim_cell(p)@.material,
        w1.sim_cell(p)@.flags & cell_flags::RIGID_PIXEL == w0.sim_cell(p)@.flags & cell_flags::RIGID_PIXEL,
        forall|q: Vec2i| q != p ==> #[trigger] w1.sim_cell(q) == w0.sim_cell(q),
    ensures
        sand_slides_off(w1, p) == sand_slides_off(w0, p),
        moves_into_empty(w1, p, offset(p, -1, 1)) == moves_into_empty(w0, p, offset(p, -1, 1)),
        moves_into_empty(w1, p, offset(p, 1, 1)) == moves_into_empty(w0, p, offset(p, 1, 1)),
{
    let dl = offset(p, -1, 1);
    let dr = offset(p, 1, 1);
    let b = offset(p, 0, 1);
    assert(dl != p && dr != p && b != p);
    assert(w1.sim_cell(dl) == w0.sim_cell(dl));
    assert(w1.sim_cell(dr) == w0.sim_cell(dr));
    assert(w1.sim_cell(b) == w0.sim_cell(b));
}

/// Velocity after one tick of acceleration: `vx + acceleration`, capped at `max_speed`, in the
/// `i8` that the step count is taken from (a cap above 127 wraps around in that `i8`).
pub fn accelerated(vx: i8, acceleration: u8, max_speed: u8) -> (v: i8)
    ensures v == (if vx + acceleration <= max_speed { vx + acceleration } else { max_speed as int }) as i8,
{
    let s = vx as i16 + acceleration as i16;
    let m = if s <= max_speed as i16 { s } else { max_speed as i16 };
    m as i8
}

/// One tick of a granular cell at `p`. At rest it starts falling when the cell below is empty or a
/// lighter fluid it may sink through; otherwise, resting on liquid, it sometimes slides sideways
/// into an empty cell. Falling, it accelerates and moves down, or diagonally (random side first),
/// up to its speed in cells; blocked, it stops. After moving it may dislodge solid neighbours.
pub fn step_sand(world: &mut World, p: Vec2i, rng: &mut SmallRng)
    requires sim_ready(old(world), p, 0),
    ensures
        old(world).step_frame(final(world)),
        local_change(old(world), final(world), p, 128),
        old(world).sim_cell(p)@.flags & cell_flags::IS_FREE_FALLING == 0 && !sand_starts_falling(old(world), p)
            && old(world).props_of(old(world).sim_cell(offset(p, 0, 1))@.material).motion.spec_phase() != Phase::Liquid
            ==> *final(world) == *old(world),
        moves_into_empty(old(world), p, offset(p, 0, 1)) ==> final(world).sim_cell(p) == crate::cell64::Cell(0),
        no_reactions_from(old(world), old(world).sim_cell(p)@.material) ==>
            exists|q: Vec2i| within(p, q, 128)
                && (moves_into_empty(old(world), p, offset(p, 0, 1)) ==> q.y > p.y)
                && (#[trigger] final(world).sim_cell(q))@.material == old(world).sim_cell(p)@.material,
        (old(world).sim_cell(p)@.flags & cell_flags::IS_FREE_FALLING != 0 || sand_starts_falling(old(world), p))
            && sand_slides_off(old(world), p)
            ==> final(world).sim_cell(p) == crate::cell64::Cell(0),
        (old(world).sim_cell(p)@.flags & cell_flags::IS_FREE_FALLING != 0 || sand_starts_falling(old(world), p))
            && sand_slides_off(old(world), p) && falls_one_cell(old(world), p) ==> {
            ||| moves_into_empty(old(world), p, offset(p, -1, 1))
                && final(world).sim_cell(offset(p, -1, 1))@.material == old(world).sim_cell(p)@.material
            ||| moves_into_empty(old(world), p, offset(p, 1, 1))
                && final(world).sim_cell(offset(p, 1, 1))@.material == old(world).sim_cell(p)@.material
        },
{
    let ghost w0 = *old(world);
    let ghost m0 = w0.sim_cell(p)@.material;
    let ghost nr = no_reactions_from(&w0, m0);
    let cell = world.sim_get(p);
    let props = world.material_props(cell.material());
    let free_falling = cell.has_flag(cell_flags::IS_FREE_FALLING);
    if !free_falling {
        let below = shifted(world, p, 0, 1);
        let below_cell = world.sim_get(below);
        let below_props = world.material_props(below_cell.material());
        if below_cell.material() == material::EMPTY
            || (!below_props.inert()
                && vertical_down_allows_density_swap(props.phase(), below_props.phase())
                && props.density > below_props.density)
        {
            sim_set_flag(world, p, cell_flags::IS_FREE_FALLING);
            proof {
                assert(same_cells_except(&w0, world, p, p));
                lemma_local_step(&w0, &w0, world, p, 128, p, p);
            }
        } else {
            if below_props.phase() == Phase::Liquid && gen_ratio(rng, 1, 5) {
                let dir: i32 = if gen_ratio(rng, 1, 2) { -1 } else { 1 };
                let side = shifted(world, p, dir, 0);
                if world.sim_get(side).material() == material::EMPTY {
                    proof {
                        if nr { assert(reaction_of(&w0, w0.sim_cell(p)@.material, w0.sim_cell(side)@.material) is NoReaction); }
                    }
                    let moved = try_displace(world, p, side, MoveIntent::Lateral, rng);
                    proof {
                        lemma_local_step(&w0, &w0, world, p, 128, p, side);
                        if nr {
                            if moved { assert(world.sim_cell(side)@.material == m0); assert(within(p, side, 128)); }
                            else { assert(world.sim_cell(p)@.material == m0); assert(within(p, p, 128)); }
                        }
                    }
                    return;
                }
            }
            proof { if nr { assert(world.sim_cell(p)@.material == m0); assert(within(p, p, 128)); } }
            return;
        }
    }
    let new_vel = accelerated(cell.velocity_x(), props.acceleration(), props.max_speed());
    let ghost w1 = *world;
    sim_set_velocity(world, p, new_vel);
    proof {
        assert(same_cells_except(&w1, world, p, p));
        lemma_local_step(&w0, &w1, world, p, 128, p, p);
        if moves_into_empty(&w0, p, offset(p, 0, 1)) {
            let f = w0.sim_cell(p)@.flags;
            assert((f | cell_flags::IS_FREE_FALLING) & cell_flags::RIGID_PIXEL == f & cell_flags::RIGID_PIXEL) by (bit_vector);
            assert(world.sim_cell(p)@.material == w0.sim_cell(p)@.material);
            assert(world.sim_cell(p)@.flags & cell_flags::RIGID_PIXEL == w0.sim_cell(p)@.flags & cell_flags::RIGID_PIXEL);
            assert(world.sim_cell(offset(p, 0, 1)) == w0.sim_cell(offset(p, 0, 1)));
            assert(moves_into_empty(world, p, offset(p, 0, 1)));
        }
    }
    let ghost wm = *world;
    proof {
        let f = w0.sim_cell(p)@.flags;
        assert((f | cell_flags::IS_FREE_FALLING) & cell_flags::RIGID_PIXEL == f & cell_flags::RIGID_PIXEL) by (bit_vector);
        assert(wm.sim_cell(p)@.material == w0.sim_cell(p)@.material);
        assert(wm.sim_cell(p)@.flags & cell_flags::RIGID_PIXEL == w0.sim_cell(p)@.flags & cell_flags::RIGID_PIXEL);
        lemma_sand_slides_same(&w0, &wm, p);
    }
    let ghost diag = sand_slides_off(&wm, p);
    let ghost one = falls_one_cell(&w0, p);
    let ghost mut left: bool = false;
    let steps: i32 = if (new_vel as i32) >= 1 { new_vel as i32 } else { 1 };
    proof {
        if one {
            assert(props.motion is SolidGranular);
            assert(steps == 1);
        }
    }
    let mut current = p;
    let mut moved = false;
    let mut k: i32 = 0;
    while k < steps
        invariant
            w0 == *old(world),
            sim_ready(&w0, p, 0),
            w0.step_frame(world),
            near_grid(&w0, current, 0),
            0 <= k <= steps,
            steps <= 127,
            within(p, current, k as int),
            local_change(&w0, world, p, 128),
            1 <= steps,
            k == 0 ==> *world == wm && current == p,
            k > 0 && moves_into_empty(&wm, p, offset(p, 0, 1)) ==> left,
            left ==> current.y > p.y && world.sim_cell(p) == crate::cell64::Cell(0),
            m0 == w0.sim_cell(p)@.material,
            nr == no_reactions_from(&w0, m0),
            nr ==> world.sim_cell(current)@.material == m0,
            diag == sand_slides_off(&wm, p),
            k > 0 && diag ==> left,
            one ==> steps == 1,
            m0 == wm.sim_cell(p)@.material,
            k > 0 && diag && one ==> (current == offset(p, -1, 1) && moves_into_empty(&wm, p, offset(p, -1, 1)) || current == offset(p, 1, 1) && moves_into_empty(&wm, p, offset(p, 1, 1))) && world.sim_cell(current)@.material == m0,
        ensures
            diag ==> left,
            diag && one ==> (current == offset(p, -1, 1) && moves_into_empty(&wm, p, offset(p, -1, 1)) || current == offset(p, 1, 1) && moves_into_empty(&wm, p, offset(p, 1, 1))) && world.sim_cell(current)@.material == m0,
            moves_into_empty(&wm, p, offset(p, 0, 1)) ==> left,
            left ==> current.y > p.y && world.sim_cell(p) == crate::cell64::Cell(0),
            within(p, current, steps as int),
            nr ==> world.sim_cell(current)@.material == m0,
        decreases steps - k,
    {
        k = k + 1;
        let down = shifted(world, current, 0, 1);
        let ghost wa = *world;
        proof {
            if nr {
                lemma_no_reactions_kept(&w0, &wa, m0);
                assert(reaction_of(&wa, wa.sim_cell(current)@.material, wa.sim_cell(down)@.material) is NoReaction);
            }
        }
        if try_displace(world, current, down, MoveIntent::VerticalDown, rng) {
            proof {
                lemma_local_step(&w0, &wa, world, p, 128, current, down);
                if current == p && k == 1 && moves_into_empty(&wm, p, offset(p, 0, 1)) {
                    crate::cell64::lemma_zero_fields();
                    left = true;
                }
                if left && !(current == p && k == 1) {
                    assert(world.sim_cell(p) == wa.sim_cell(p));
                }
            }
            current = down;
            moved = true;
            continue;
        }
        proof {
            lemma_local_step(&w0, &wa, world, p, 128, current, down);
            if k == 1 { assert(!moves_into_empty(&wm, p, offset(p, 0, 1))); }
        }
        let left_first = gen_ratio(rng, 1, 2);
        let dl = shifted(world, current, -1, 1);
        let dr = shifted(world, current, 1, 1);
        let (first, second) = if left_first { (dl, dr) } else { (dr, dl) };
        let ghost wb = *world;
        proof {
            if nr {
                lemma_no_reactions_kept(&w0, &wb, m0);
                assert(reaction_of(&wb, wb.sim_cell(current)@.material, wb.sim_cell(first)@.material) is NoReaction);
            }
        }
        if try_displace(world, current, first, MoveIntent::VerticalDown, rng) {
            proof {
                lemma_local_step(&w0, &wb, world, p, 128, current, first);
                if left { assert(world.sim_cell(p) == wb.sim_cell(p)); }
                if k == 1 && diag {
                    crate::cell64::lemma_zero_fields();
                    assert(moves_into_empty(&wb, p, first));
                    left = true;
                }
            }
            current = first;
            moved = true;
        } else {
            proof { lemma_local_step(&w0, &wb, world, p, 128, current, first); }
            let ghost wc = *world;
            proof {
                if nr {
                    lemma_no_reactions_kept(&w0, &wc, m0);
                    assert(reaction_of(&wc, wc.sim_cell(current)@.material, wc.sim_cell(second)@.material) is NoReaction);
                }
            }
            if try_displace(world, current, second, MoveIntent::VerticalDown, rng) {
                proof {
                    lemma_local_step(&w0, &wc, world, p, 128, current, second);
                    if left { assert(world.sim_cell(p) == wc.sim_cell(p)); }
                    if k == 1 && diag {
                        crate::cell64::lemma_zero_fields();
                        assert(moves_into_empty(&wc, p, second));
                        left = true;
                    }
                }
                current = second;
                moved = true;
            } else {
                proof { lemma_local_step(&w0, &wc, world, p, 128, current, second); }
                let ghost wd = *world;
                sim_set_velocity(world, current, 0);
                proof {
                    assert(same_cells_except(&wd, world, current, current));
                    lemma_local_step(&w0, &wd, world, p, 128, current, current);
                    if left { assert(world.sim_cell(p) == wd.sim_cell(p)); }
                }
                let ghost we = *world;
                sim_clear_flag(world, current, cell_flags::IS_FREE_FALLING);
                proof {
                    assert(same_cells_except(&we, world, current, current));
                    lemma_local_step(&w0, &we, world, p, 128, current, current);
                    if left { assert(world.sim_cell(p) == we.sim_cell(p)); }
                }
                break;
            }
        }
    }
    if moved {
        let mut s: usize = 0;
        while s < 2
            invariant
                w0 == *old(world),
                sim_ready(&w0, p, 0),
                w0.step_frame(world),
                near_grid(&w0, current, 0),
                s <= 2,
                within(p, current, 127),
                local_change(&w0, world, p, 128),
                left ==> current.y > p.y && world.sim_cell(p) == crate::cell64::Cell(0),
                nr ==> world.sim_cell(current)@.material == m0,
                diag && one ==> (current == offset(p, -1, 1) && moves_into_empty(&wm, p, offset(p, -1, 1)) || current == offset(p, 1, 1) && moves_into_empty(&wm, p, offset(p, 1, 1))) && world.sim_cell(current)@.material == m0,
            decreases 2 - s,
        {
            let dx: i32 = if s == 0 { -1 } else { 1 };
            s = s + 1;
            let neighbor = shifted(world, current, dx, 0);
            let ncell = world.sim_get(neighbor);
            if ncell.material() != material::EMPTY && !ncell.has_flag(cell_flags::IS_FREE_FALLING) {
                let nprops = world.material_props(ncell.material());
                if nprops.phase() == Phase::Solid && !nprops.inert() && nprops.inertial_resistance() < 255 {
                    let dislodge_chance = (255 - nprops.inertial_resistance()) as u32;
                    let odds: u32 = if dislodge_chance >= 1 { dislodge_chance } else { 1 };
                    if gen_ratio(rng, odds, 256) {
                        let ghost wf = *world;
                        sim_set_flag(world, neighbor, cell_flags::IS_FREE_FALLING);
                        proof {
                            assert(same_cells_except(&wf, world, neighbor, neighbor));
                            lemma_local_step(&w0, &wf, world, p, 128, neighbor, neighbor);
                            if left { assert(world.sim_cell(p) == wf.sim_cell(p)); }
                        }
                    }
                }
            }
        }
    }
}

} // verus!
