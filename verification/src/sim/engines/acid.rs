//! Corrosive liquids eating vulnerable cardinal neighbours.
use vstd::prelude::*;
use rand::rngs::SmallRng;

use crate::cell64::Cell;
use crate::world::geom::Vec2i;
use crate::world::material;
use crate::world::props::MaterialProps;
use crate::world::state::World;
use crate::sim::rng::gen_range_u8;
use crate::sim::{cardinal4, local_change, shifted, sim_ready, sim_set_lifetime};
use super::burn::cardinal_at;

verus! {

/// Acid with props `acid_props` at `p` is sure to erase its upper neighbour on its first check:
/// it corrodes, holds a non-empty material with lifetime left, and the upper neighbour is a
/// non-empty grid cell that is vulnerable with certain odds and has no hit points to lose.
pub open spec fn acid_erases_first_neighbor(w: &World, p: Vec2i, acid_props: MaterialProps) -> bool {
    let ac = acid_props.acid_corrosion;
    let c = w.sim_cell(p);
    let q = cardinal_at(p, 0);
    let n = w.sim_cell(q);
    let np = crate::explosion::props_for(w, n@.material);
    &&& (ac.neighbor_damage != 0 || ac.self_lifetime_cost != 0)
    &&& c@.material != material::EMPTY
    &&& c@.lifetime > 0
    &&& w.in_grid(q)
    &&& n@.material != material::EMPTY
    &&& np.acid_vulnerability.affected
    &&& np.acid_vulnerability.chance_percent >= 100
    &&& np.corrosion_max_hp == 0
}

/// Acid with props `acid_props` at `p` is sure to erase its cardinal neighbour `k` (up, down,
/// left, right) when it gets to it: it corrodes, holds a non-empty material with lifetime left,
/// and that neighbour is a non-empty grid cell that is vulnerable with certain odds and has no hit
/// points to lose.
pub open spec fn acid_erases_neighbor(w: &World, p: Vec2i, acid_props: MaterialProps, k: int) -> bool {
    let ac = acid_props.acid_corrosion;
    let c = w.sim_cell(p);
    let q = cardinal_at(p, k);
    let n = w.sim_cell(q);
    let np = crate::explosion::props_for(w, n@.material);
    &&& (ac.neighbor_damage != 0 || ac.self_lifetime_cost != 0)
    &&& c@.material != material::EMPTY
    &&& c@.lifetime > 0
    &&& w.in_grid(q)
    &&& n@.material != material::EMPTY
    &&& np.acid_vulnerability.affected
    &&& np.acid_vulnerability.chance_percent >= 100
    &&& np.corrosion_max_hp == 0
}

proof fn lemma_cost_mono(a: int, b: int, c: int)
    requires a <= b, c >= 0,
    ensures a * c <= b * c,
{
    assert(a * c <= b * c) by (nonlinear_arith) requires a <= b, c >= 0;
}

/// Each cardinal neighbour that acid can damage may, with its own odds, lose `neighbor_damage`
/// hit points (stored in its lifetime; at zero it is erased), while the acid pays
/// `self_lifetime_cost` of its own lifetime and disappears when that runs out.
pub fn acid_corrode_neighbors(world: &mut World, p: Vec2i, acid_props: &MaterialProps, rng: &mut SmallRng)
    requires sim_ready(old(world), p, 1),
    ensures
        old(world).step_frame(final(world)),
        local_change(old(world), final(world), p, 1),
        acid_erases_first_neighbor(old(world), p, *acid_props) ==> final(world).sim_cell(cardinal_at(p, 0)) == Cell(0),
        forall|k: int| 0 <= k < 4 && #[trigger] acid_erases_neighbor(old(world), p, *acid_props, k)
            && old(world).sim_cell(p)@.lifetime > k * acid_props.acid_corrosion.self_lifetime_cost
            ==> final(world).sim_cell(cardinal_at(p, k)) == Cell(0),
{
    let src = acid_props.acid_corrosion;
    if !src.is_active() {
        return;
    }
    let acid0 = world.sim_get(p);
    let corrosive_mat = acid0.material();
    if corrosive_mat == material::EMPTY || acid0.lifetime() == 0 {
        return;
    }
    let ghost w0 = *world;
    let ghost q0 = cardinal_at(p, 0);
    let ghost erase = acid_erases_first_neighbor(&w0, p, *acid_props);
    let mut i: usize = 0;
    while i < 4
        invariant
            w0 == *old(world),
            sim_ready(&w0, p, 1),
            w0.step_frame(world),
            local_change(&w0, world, p, 1),
            i <= 4,
            src == acid_props.acid_corrosion,
            corrosive_mat == w0.sim_cell(p)@.material,
            q0 == cardinal_at(p, 0),
            erase == acid_erases_first_neighbor(&w0, p, *acid_props),
            i == 0 ==> *world == w0,
            i > 0 && erase ==> world.sim_cell(q0) == Cell(0),
            world.sim_cell(p)@.material == corrosive_mat,
            world.sim_cell(p)@.lifetime > 0,
            world.sim_cell(p)@.lifetime >= w0.sim_cell(p)@.lifetime - i * src.self_lifetime_cost,
            forall|j: int| i <= j < 4 ==> #[trigger] world.sim_cell(cardinal_at(p, j)) == w0.sim_cell(cardinal_at(p, j)),
            forall|j: int| 0 <= j < i && #[trigger] acid_erases_neighbor(&w0, p, *acid_props, j)
                && w0.sim_cell(p)@.lifetime > j * src.self_lifetime_cost
                ==> world.sim_cell(cardinal_at(p, j)) == Cell(0),
        decreases 4 - i,
    {
        let ghost wb = *world;
        let acid = world.sim_get(p);
        if acid.material() != corrosive_mat || acid.lifetime() == 0 {
            return;
        }
        let d = cardinal4(i);
        let ghost ii = i as int;
        i = i + 1;
        proof {
            assert(i * src.self_lifetime_cost == ii * src.self_lifetime_cost + src.self_lifetime_cost) by (nonlinear_arith)
                requires i == ii + 1;
        }
        let np = shifted(world, p, d.0, d.1);
        proof {
            assert(np == cardinal_at(p, ii));
            assert(p != q0);
            if ii >= 1 { assert(np != q0); }
            crate::cell64::lemma_zero_fields();
        }
        if !world.sim_in_grid(np) {
            continue;
        }
        let ncell = world.sim_get(np);
        if ncell.material() == material::EMPTY {
            continue;
        }
        let nprops = world.material_props(ncell.material());
        if !nprops.acid_vulnerability.affected {
            continue;
        }
        let chance = if nprops.acid_vulnerability.chance_percent <= 100 { nprops.acid_vulnerability.chance_percent } else { 100 };
        if chance == 0 || gen_range_u8(rng, 0, 100) >= chance {
            continue;
        }
        if src.neighbor_damage == 0 && src.self_lifetime_cost == 0 {
            continue;
        }
        if nprops.corrosion_max_hp == 0 {
            world.sim_put(np, Cell::new());
        } else {
            let cur_hp = if ncell.lifetime() == 0 { nprops.corrosion_max_hp } else { ncell.lifetime() };
            let new_hp = if cur_hp >= src.neighbor_damage { cur_hp - src.neighbor_damage } else { 0 };
            if new_hp == 0 {
                world.sim_put(np, Cell::new());
            } else {
                world.sim_put(np, ncell.with_lifetime(new_hp));
            }
        }
        let next_acid = if acid.lifetime() >= src.self_lifetime_cost { acid.lifetime() - src.self_lifetime_cost } else { 0 };
        if next_acid == 0 {
            world.sim_put(p, Cell::new());
            proof {
                assert forall|k: int| 0 <= k < 4 && #[trigger] acid_erases_neighbor(&w0, p, *acid_props, k)
                    && w0.sim_cell(p)@.lifetime > k * src.self_lifetime_cost
                    implies world.sim_cell(cardinal_at(p, k)) == Cell(0) by {
                    if k > ii { lemma_cost_mono(i as int, k, src.self_lifetime_cost as int); }
                }
            }
            return;
        }
        sim_set_lifetime(world, p, next_acid);
    }
}

} // verus!
