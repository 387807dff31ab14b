//! Rule tables referenced by more than one built-in material.
use vstd::prelude::*;

use crate::world::{
    cell_flags, material, AdjacentInfluenceRule, AdjacentTransformRule, InfluenceSourceEffect,
    InfluenceVictimLifetime, NeighborSpawnRule,
};

verus! {

pub open spec fn spec_adj_plant_growth() -> [AdjacentTransformRule; 4] {
    let x = AdjacentTransformRule::inactive_value();
    [AdjacentTransformRule { from: material::LIQUID, to: material::PLANT, chance_percent: 20, cardinal_neighbors_only: true, actor_lifetime_delta: 0 }, x, x, x]
}

pub open spec fn spec_adj_hot_vaporize_water() -> [AdjacentTransformRule; 4] {
    let x = AdjacentTransformRule::inactive_value();
    [AdjacentTransformRule { from: material::LIQUID, to: material::STEAM, chance_percent: 1, cardinal_neighbors_only: false, actor_lifetime_delta: 0 }, x, x, x]
}

pub open spec fn spec_adj_hot_influence() -> [AdjacentInfluenceRule; 8] {
    let x = AdjacentInfluenceRule::inactive_value();
    [
        AdjacentInfluenceRule {
            victim: material::SAND,
            chance_percent: 100,
            cardinal_neighbors_only: false,
            requires_victim_ignitability: false,
            require_victim_flags_any: cell_flags::WET,
            exclude_victim_flags_any: 0,
            flags_or: 0,
            flags_clear: cell_flags::WET,
            victim_lifetime: InfluenceVictimLifetime::Unchanged,
            source_effect: InfluenceSourceEffect::NoEffect,
            if_cleared_mask: 0,
            spawn_on_clear_material: material::EMPTY,
            if_set_mask: 0,
            spawn_on_set_material: material::EMPTY,
            spawn_lifetime_lo: 0,
            spawn_lifetime_hi: 0,
            empty_neighbor_spawn: material::STEAM,
            empty_neighbor_spawn_lifetime_lo: 36,
            empty_neighbor_spawn_lifetime_hi: 72,
        },
        x, x, x, x, x, x, x,
    ]
}

pub open spec fn spec_ns_fire_smolder_wax() -> [NeighborSpawnRule; 4] {
    let x = NeighborSpawnRule::inactive_value();
    [NeighborSpawnRule { spawn_material: material::FIRE, chance: 1, lifetime_lo: 2, lifetime_hi: 5, spawn_flags: 0 }, x, x, x]
}

pub open spec fn spec_ns_fire_smolder_1() -> [NeighborSpawnRule; 4] {
    let x = NeighborSpawnRule::inactive_value();
    [NeighborSpawnRule { spawn_material: material::FIRE, chance: 1, lifetime_lo: 0, lifetime_hi: 15, spawn_flags: 0 }, x, x, x]
}

/// Plant and wood: a cardinal water neighbour may become plant (20% per neighbour per tick).
pub fn adj_plant_growth() -> (r: [AdjacentTransformRule; 4])
    ensures r == spec_adj_plant_growth(),
{
    let x = AdjacentTransformRule::inactive();
    [
        AdjacentTransformRule {
            from: material::LIQUID,
            to: material::PLANT,
            chance_percent: 20,
            cardinal_neighbors_only: true,
            actor_lifetime_delta: 0,
        },
        x, x, x,
    ]
}

/// Fire / lava: rare adjacent water → steam.
pub fn adj_hot_vaporize_water() -> (r: [AdjacentTransformRule; 4])
    ensures r == spec_adj_hot_vaporize_water(),
{
    let x = AdjacentTransformRule::inactive();
    [
        AdjacentTransformRule {
            from: material::LIQUID,
            to: material::STEAM,
            chance_percent: 1,
            cardinal_neighbors_only: false,
            actor_lifetime_delta: 0,
        },
        x, x, x,
    ]
}

/// Fire / lava / ember: dry wet sand in place and optionally puff steam into an empty neighbour.
pub fn adj_hot_influence() -> (r: [AdjacentInfluenceRule; 8])
    ensures r == spec_adj_hot_influence(),
{
    let x = AdjacentInfluenceRule::inactive();
    [
        AdjacentInfluenceRule {
            victim: material::SAND,
            chance_percent: 100,
            cardinal_neighbors_only: false,
            requires_victim_ignitability: false,
            require_victim_flags_any: cell_flags::WET,
            exclude_victim_flags_any: 0,
            flags_or: 0,
            flags_clear: cell_flags::WET,
            victim_lifetime: InfluenceVictimLifetime::Unchanged,
            source_effect: InfluenceSourceEffect::NoEffect,
            if_cleared_mask: 0,
            spawn_on_clear_material: material::EMPTY,
            if_set_mask: 0,
            spawn_on_set_material: material::EMPTY,
            spawn_lifetime_lo: 0,
            spawn_lifetime_hi: 0,
            empty_neighbor_spawn: material::STEAM,
            empty_neighbor_spawn_lifetime_lo: 36,
            empty_neighbor_spawn_lifetime_hi: 72,
        },
        x, x, x, x, x, x, x,
    ]
}

/// Solid and molten wax: smolder may throw short-lived fire sparks.
pub fn ns_fire_smolder_wax() -> (r: [NeighborSpawnRule; 4])
    ensures r == spec_ns_fire_smolder_wax(),
{
    let x = NeighborSpawnRule::inactive();
    [NeighborSpawnRule { spawn_material: material::FIRE, chance: 1, lifetime_lo: 2, lifetime_hi: 5, spawn_flags: 0 }, x, x, x]
}

/// Lava smolder and wood: low-rate fire neighbour spawns.
pub fn ns_fire_smolder_1() -> (r: [NeighborSpawnRule; 4])
    ensures r == spec_ns_fire_smolder_1(),
{
    let x = NeighborSpawnRule::inactive();
    [NeighborSpawnRule { spawn_material: material::FIRE, chance: 1, lifetime_lo: 0, lifetime_hi: 15, spawn_flags: 0 }, x, x, x]
}

} // verus!
