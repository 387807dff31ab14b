//! Probabilistic `from` → `to` rewrites of neighbours ([`MaterialProps::adjacent_transforms`]).
use vstd::prelude::*;
use rand::rngs::SmallRng;

use crate::cell64::Cell;
use crate::world::geom::Vec2i;
use crate::world::material;
use crate::world::props::MaterialProps;
use crate::world::state::World;
use crate::sim::rng::gen_range_u8;
use crate::sim::{local_change, neighbor8, shifted, sim_ready, sim_set_lifetime};
use super::influence::neighbor_at;

verus! {

/// The first transform rule of `props` is sure to rewrite the first neighbour of `p` (the upper
/// left one): it applies to diagonal neighbours, has certain odds, and names that neighbour's
/// material, which lies in the grid.
pub open spec fn first_transform_certain(w: &World, p: Vec2i, props: MaterialProps) -> bool {
    let r = props.adjacent_transforms@[0];
    let q = neighbor_at(p, 0);
    &&& r.chance_percent >= 100
    &&& !r.cardinal_neighbors_only
    &&& w.in_grid(q)
    &&& w.sim_cell(q)@.material == r.from
}

/// For each of the eight neighbours, the first active rule whose `from` matches and whose
/// neighbour set admits it gets one roll: on success the neighbour becomes `to` (steam with a
/// random lifetime, other materials with their initial lifetime and base temperature, a random
/// variant; `to == EMPTY` erases it) and the acting cell loses `actor_lifetime_delta`; on failure
/// the remaining rules are skipped for that neighbour.
pub fn step_adjacent_transform_neighbors(world: &mut World, p: Vec2i, props: &MaterialProps, rng: &mut SmallRng)
    requires sim_ready(old(world), p, 1),
    ensures
        old(world).step_frame(final(world)),
        local_change(old(world), final(world), p, 1),
        first_transform_certain(old(world), p, *props) ==>
            final(world).sim_cell(neighbor_at(p, 0))@.material == props.adjacent_transforms@[0].to & 0x3FF,
{
    let ghost w0 = *world;
    let ghost q0 = neighbor_at(p, 0);
    let ghost cond = first_transform_certain(&w0, p, *props);
    proof {
        crate::cell64::lemma_zero_fields();
        assert(material::EMPTY & 0x3FF == material::EMPTY) by (bit_vector);
    }
    let mut n: usize = 0;
    while n < 8
        invariant
            sim_ready(&w0, p, 1),
            w0.step_frame(world),
            local_change(&w0, world, p, 1),
            n <= 8,
            w0 == *old(world),
            q0 == neighbor_at(p, 0),
            cond == first_transform_certain(&w0, p, *props),
            n == 0 ==> *world == w0,
            n > 0 && cond ==> world.sim_cell(q0)@.material == props.adjacent_transforms@[0].to & 0x3FF,
        decreases 8 - n,
    {
        let d = neighbor8(n);
        let ghost nn = n as int;
        n = n + 1;
        let np = shifted(world, p, d.0, d.1);
        proof {
            assert(np == neighbor_at(p, nn));
            assert(p != q0);
            if nn >= 1 { assert(np != q0); }
        }
        let neighbor_mat = world.sim_get(np).material();
        let mut j: usize = 0;
        while j < 4
            invariant_except_break
                nn == 0 && cond ==> j == 0,
            invariant
                sim_ready(&w0, p, 1),
                w0.step_frame(world),
                local_change(&w0, world, p, 1),
                np == crate::sim::offset(p, d.0 as int, d.1 as int),
                -1 <= d.0 <= 1, -1 <= d.1 <= 1,
                j <= 4,
                w0 == *old(world),
                q0 == neighbor_at(p, 0),
                p != q0,
                0 <= nn < 8,
                nn >= 1 ==> np != q0,
                nn == 0 ==> np == q0 && d == crate::sim::spec_neighbor8(0) && neighbor_mat == w0.sim_cell(q0)@.material,
                cond == first_transform_certain(&w0, p, *props),
                nn == 0 && j == 0 ==> *world == w0,
                (nn > 0 || j > 0) && cond ==> world.sim_cell(q0)@.material == props.adjacent_transforms@[0].to & 0x3FF,
            ensures
                cond ==> world.sim_cell(q0)@.material == props.adjacent_transforms@[0].to & 0x3FF,
            decreases 4 - j,
        {
            let rule = props.adjacent_transforms[j];
            proof {
                assert(rule == props.adjacent_transforms@[j as int]);
                crate::cell64::lemma_zero_fields();
                assert(material::EMPTY & 0x3FF == material::EMPTY) by (bit_vector);
            }
            j = j + 1;
            if !rule.is_active() {
                continue;
            }
            let chance = if rule.chance_percent <= 100 { rule.chance_percent } else { 100 };
            if rule.cardinal_neighbors_only && d.0 != 0 && d.1 != 0 {
                continue;
            }
            if neighbor_mat != rule.from {
                continue;
            }
            if gen_range_u8(rng, 0, 100) >= chance {
                break;
            }
            if rule.to == material::EMPTY {
                world.sim_put(np, Cell::new());
            } else {
                let to_props = world.material_props(rule.to);
                let new_lifetime = if rule.to == material::STEAM {
                    gen_range_u8(rng, 36, 72)
                } else {
                    World::initial_lifetime_for(rule.to, &to_props)
                };
                let variant = gen_range_u8(rng, 0, 16);
                world.sim_put(np, Cell::new()
                    .with_material(rule.to)
                    .with_lifetime(new_lifetime)
                    .with_temperature(to_props.base_temperature)
                    .with_variant(variant));
            }
            if rule.actor_lifetime_delta > 0 {
                let actor = world.sim_get(p);
                let nl = if actor.lifetime() >= rule.actor_lifetime_delta { actor.lifetime() - rule.actor_lifetime_delta } else { 0 };
                sim_set_lifetime(world, p, nl);
            }
            break;
        }
    }
}

} // verus!
