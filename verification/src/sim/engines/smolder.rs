//! Burning fuel that is not a flame: lifetime consumption, spawns and spreading the fire.
use vstd::prelude::*;
use rand::rngs::SmallRng;

use crate::world::geom::Vec2i;
use crate::world::material;
use crate::world::props::Phase;
use crate::world::state::World;
use crate::sim::rng::gen_ratio;
use crate::sim::{is_burning, local_change, sim_ready, sim_set_lifetime};
use super::burn::{eliminate_smoldering_fuel_at, spread_burn_to_neighbors, try_neighbor_spawns};

verus! {

/// One tick of burning fuel at `p`: its chunk stays awake; with odds `consumption_rate/256` it
/// loses one lifetime (burning out at the last one); its neighbour spawns run; then molten lava
/// spreads heat with factor `lifetime/255`, and burning solids with `min(lifetime/fuel_mass, 1)`.
pub fn step_smoldering_fuel(world: &mut World, p: Vec2i, rng: &mut SmallRng, explosions: &mut Vec<(Vec2i, i32)>)
    requires sim_ready(old(world), p, 1),
    ensures
        old(world).step_frame(final(world)),
        local_change(old(world), final(world), p, 2),
        old(explosions)@.is_prefix_of(final(explosions)@),
        forall|s: int| 0 <= s < old(world).awake_next_view().len() && #[trigger] old(world).woken_around(p)[s]
            ==> final(world).awake_next_view()[s],
{
    let ghost w0 = *world;
    world.sim_wake(p);
    let ghost w1 = *world;
    let cell = world.sim_get(p);
    let props = world.material_props(cell.material());
    let life = cell.lifetime();
    let rate: u32 = if props.consumption_rate >= 1 { props.consumption_rate as u32 } else { 1 };
    if gen_ratio(rng, rate, 256) {
        if life <= 1 {
            eliminate_smoldering_fuel_at(world, p, &props, &cell, rng, explosions, true);
            return;
        }
        sim_set_lifetime(world, p, life - 1);
    }
    try_neighbor_spawns(world, p, &props, rng);
    let c = world.sim_get(p);
    let molten_lava = c.material() == material::LAVA && c.lifetime() > 0 && is_burning(c, &props);
    if molten_lava {
        let life = c.lifetime();
        let _ = spread_burn_to_neighbors(world, p, material::LAVA, life as u32, 255, life, rng, explosions);
    } else if is_burning(c, &props) && props.phase() == Phase::Solid {
        let life = c.lifetime();
        let fm: u32 = if props.fuel_mass >= 1 { props.fuel_mass as u32 } else { 1 };
        let hn: u32 = if (life as u32) <= fm { life as u32 } else { fm };
        let _ = spread_burn_to_neighbors(world, p, c.material(), hn, fm, life, rng, explosions);
    }
}

} // verus!
