//! Definitions of the built-in materials.
use vstd::prelude::*;

use super::shared_rules::{
    adj_hot_influence, adj_hot_vaporize_water, adj_plant_growth, ns_fire_smolder_1, ns_fire_smolder_wax,
    spec_adj_hot_influence, spec_adj_hot_vaporize_water, spec_adj_plant_growth, spec_ns_fire_smolder_1,
    spec_ns_fire_smolder_wax,
};
use super::MaterialDef;
use crate::world::{
    cell_flags, material, AcidCorrosionSource, AcidVulnerability, AdjacentInfluenceRule, AdjacentTransformRule,
    InfluenceSourceEffect, InfluenceVictimLifetime, MaterialMotion, MaterialProps, MaterialRule, NeighborSpawnRule,
};

verus! {

/// Water: high chance to erase adjacent fire (the neighbour becomes empty).
fn adj_liquid_extinguish() -> (r: [AdjacentTransformRule; 4])
    ensures r == spec_adj_liquid_extinguish(),
{
    let x = AdjacentTransformRule::inactive();
    [
        AdjacentTransformRule {
            from: material::FIRE,
            to: material::EMPTY,
            chance_percent: 98,
            cardinal_neighbors_only: false,
            actor_lifetime_delta: 0,
        },
        x, x, x,
    ]
}

/// Water wets dry sand (and is used up doing so).
fn adj_water_influence() -> (r: [AdjacentInfluenceRule; 8])
    ensures r == spec_adj_water_influence(),
{
    let x = AdjacentInfluenceRule::inactive();
    [
        AdjacentInfluenceRule {
            victim: material::SAND,
            chance_percent: 45,
            cardinal_neighbors_only: true,
            requires_victim_ignitability: false,
            require_victim_flags_any: 0,
            exclude_victim_flags_any: cell_flags::WET,
            flags_or: cell_flags::WET,
            flags_clear: 0,
            victim_lifetime: InfluenceVictimLifetime::Unchanged,
            source_effect: InfluenceSourceEffect::ClearSourceCell,
            if_cleared_mask: 0,
            spawn_on_clear_material: material::EMPTY,
            if_set_mask: 0,
            spawn_on_set_material: material::EMPTY,
            spawn_lifetime_lo: 0,
            spawn_lifetime_hi: 0,
            empty_neighbor_spawn: material::EMPTY,
            empty_neighbor_spawn_lifetime_lo: 0,
            empty_neighbor_spawn_lifetime_hi: 0,
        },
        x, x, x, x, x, x, x,
    ]
}

pub open spec fn spec_adj_liquid_extinguish() -> [AdjacentTransformRule; 4] {
    let x = AdjacentTransformRule::inactive_value();
    [AdjacentTransformRule { from: material::FIRE, to: material::EMPTY, chance_percent: 98, cardinal_neighbors_only: false, actor_lifetime_delta: 0 }, x, x, x]
}

pub open spec fn spec_adj_water_influence() -> [AdjacentInfluenceRule; 8] {
    let x = AdjacentInfluenceRule::inactive_value();
    [
        AdjacentInfluenceRule {
            victim: material::SAND,
            chance_percent: 45,
            cardinal_neighbors_only: true,
            requires_victim_ignitability: false,
            require_victim_flags_any: 0,
            exclude_victim_flags_any: cell_flags::WET,
            flags_or: cell_flags::WET,
            flags_clear: 0,
            victim_lifetime: InfluenceVictimLifetime::Unchanged,
            source_effect: InfluenceSourceEffect::ClearSourceCell,
            if_cleared_mask: 0,
            spawn_on_clear_material: material::EMPTY,
            if_set_mask: 0,
            spawn_on_set_material: material::EMPTY,
            spawn_lifetime_lo: 0,
            spawn_lifetime_hi: 0,
            empty_neighbor_spawn: material::EMPTY,
            empty_neighbor_spawn_lifetime_lo: 0,
            empty_neighbor_spawn_lifetime_hi: 0,
        },
        x, x, x, x, x, x, x,
    ]
}

pub open spec fn spec_ns_ember_sparks() -> [NeighborSpawnRule; 4] {
    let x = NeighborSpawnRule::inactive_value();
    [NeighborSpawnRule { spawn_material: material::FIRE, chance: 42, lifetime_lo: 12, lifetime_hi: 38, spawn_flags: 0 }, x, x, x]
}

pub open spec fn spec_ns_torch_fire() -> [NeighborSpawnRule; 4] {
    let x = NeighborSpawnRule::inactive_value();
    [NeighborSpawnRule { spawn_material: material::FIRE, chance: 24, lifetime_lo: 18, lifetime_hi: 48, spawn_flags: 0 }, x, x, x]
}

pub open spec fn spec_ns_well_water() -> [NeighborSpawnRule; 4] {
    let x = NeighborSpawnRule::inactive_value();
    [NeighborSpawnRule { spawn_material: material::LIQUID, chance: 14, lifetime_lo: 0, lifetime_hi: 0, spawn_flags: 0 }, x, x, x]
}

fn ns_ember_sparks() -> (r: [NeighborSpawnRule; 4])
    ensures r == spec_ns_ember_sparks(),
{
    let x = NeighborSpawnRule::inactive();
    [NeighborSpawnRule { spawn_material: material::FIRE, chance: 42, lifetime_lo: 12, lifetime_hi: 38, spawn_flags: 0 }, x, x, x]
}

fn ns_torch_fire() -> (r: [NeighborSpawnRule; 4])
    ensures r == spec_ns_torch_fire(),
{
    let x = NeighborSpawnRule::inactive();
    [NeighborSpawnRule { spawn_material: material::FIRE, chance: 24, lifetime_lo: 18, lifetime_hi: 48, spawn_flags: 0 }, x, x, x]
}

fn ns_well_water() -> (r: [NeighborSpawnRule; 4])
    ensures r == spec_ns_well_water(),
{
    let x = NeighborSpawnRule::inactive();
    [NeighborSpawnRule { spawn_material: material::LIQUID, chance: 14, lifetime_lo: 0, lifetime_hi: 0, spawn_flags: 0 }, x, x, x]
}

/// Properties of the built-in empty material.
pub open spec fn empty_props() -> MaterialProps {
    MaterialProps {
        density: i16::MIN,
        motion: MaterialMotion::Gas { viscosity: 0, max_speed: 0, acceleration: 0 },
        durability: 0,
        thermal_conductivity: 52,
        volumetric_heat_capacity: 95,
        ..MaterialProps::spec_default()
    }
}

pub fn empty_def() -> (d: MaterialDef)
    ensures d.id == material::EMPTY, d.color_argb == 0xFF000000u32, d.rule.lateral_spread == 1, d.rule.miscible == true, d.props == empty_props(),
{
    MaterialDef {
        id: material::EMPTY,
        name: "Empty",
        props: MaterialProps {
            density: i16::MIN,
            motion: MaterialMotion::Gas { viscosity: 0, max_speed: 0, acceleration: 0 },
            durability: 0,
            thermal_conductivity: 52,
            volumetric_heat_capacity: 95,
            ..MaterialProps::default_const()
        },
        rule: MaterialRule { lateral_spread: 1, miscible: true },
        color_argb: 0xFF000000,
    }
}

/// Properties of the built-in sand material.
pub open spec fn sand_props() -> MaterialProps {
    MaterialProps {
        density: 180,
        motion: MaterialMotion::SolidGranular { viscosity: 100, max_speed: 4, acceleration: 2, inertial_resistance: 80 },
        acid_vulnerability: AcidVulnerability { affected: true, chance_percent: 71 },
        structure_integrity_bits: 0x3F0C_CCCD,
        durability: 72,
        ..MaterialProps::spec_default()
    }
}

pub fn sand_def() -> (d: MaterialDef)
    ensures d.id == material::SAND, d.color_argb == 0xFFFFC369u32, d.rule.lateral_spread == 1, d.rule.miscible == false, d.props == sand_props(),
{
    MaterialDef {
        id: material::SAND,
        name: "Sand",
        props: MaterialProps {
            density: 180,
            motion: MaterialMotion::SolidGranular { viscosity: 100, max_speed: 4, acceleration: 2, inertial_resistance: 80 },
            acid_vulnerability: AcidVulnerability { affected: true, chance_percent: 71 },
            structure_integrity_bits: 0x3F0C_CCCD,
            durability: 72,
            ..MaterialProps::default_const()
        },
        rule: MaterialRule { lateral_spread: 1, miscible: false },
        color_argb: 0xFFFFC369,
    }
}

/// Properties of the built-in water material.
pub open spec fn liquid_props() -> MaterialProps {
    MaterialProps {
        density: 100,
        motion: MaterialMotion::Liquid { viscosity: 5, max_speed: 4, acceleration: 1, extinguishes_fire: true },
        base_temperature: 293,
        thermal_conductivity: 255,
        volumetric_heat_capacity: 2200,
        freeze_temperature: 273,
        freeze_into: material::ICE,
        melt_temperature: 373,
        melt_into: material::STEAM,
        adjacent_transforms: spec_adj_liquid_extinguish(),
        adjacent_influence: spec_adj_water_influence(),
        durability: 58,
        acid_vulnerability: AcidVulnerability { affected: false, chance_percent: 0 },
        ..MaterialProps::spec_default()
    }
}

pub fn liquid_def() -> (d: MaterialDef)
    ensures d.id == material::LIQUID, d.color_argb == 0xFF3264D2u32, d.rule.lateral_spread == 4, d.rule.miscible == true, d.props == liquid_props(),
{
    MaterialDef {
        id: material::LIQUID,
        name: "Water",
        props: MaterialProps {
            density: 100,
            motion: MaterialMotion::Liquid { viscosity: 5, max_speed: 4, acceleration: 1, extinguishes_fire: true },
            base_temperature: 293,
            thermal_conductivity: 255,
            volumetric_heat_capacity: 2200,
            freeze_temperature: 273,
            freeze_into: material::ICE,
            melt_temperature: 373,
            melt_into: material::STEAM,
            adjacent_transforms: adj_liquid_extinguish(),
            adjacent_influence: adj_water_influence(),
            durability: 58,
            acid_vulnerability: AcidVulnerability::inactive(),
            ..MaterialProps::default_const()
        },
        rule: MaterialRule { lateral_spread: 4, miscible: true },
        color_argb: 0xFF3264D2,
    }
}

/// Properties of the built-in gas material.
pub open spec fn gas_props() -> MaterialProps {
    MaterialProps {
        density: 10,
        motion: MaterialMotion::Gas { viscosity: 1, max_speed: 3, acceleration: 1 },
        durability: 0,
        ..MaterialProps::spec_default()
    }
}

pub fn gas_def() -> (d: MaterialDef)
    ensures d.id == material::GAS, d.color_argb == 0xFFBBBBBBu32, d.rule.lateral_spread == 4, d.rule.miscible == true, d.props == gas_props(),
{
    MaterialDef {
        id: material::GAS,
        name: "Gas",
        props: MaterialProps {
            density: 10,
            motion: MaterialMotion::Gas { viscosity: 1, max_speed: 3, acceleration: 1 },
            durability: 0,
            ..MaterialProps::default_const()
        },
        rule: MaterialRule { lateral_spread: 4, miscible: true },
        color_argb: 0xFFBBBBBB,
    }
}

/// Properties of the built-in stone material.
pub open spec fn stone_props() -> MaterialProps {
    MaterialProps {
        density: i16::MAX,
        motion: MaterialMotion::InertSolid,
        corrosion_max_hp: 96,
        acid_vulnerability: AcidVulnerability { affected: true, chance_percent: 28 },
        durability: 248,
        ..MaterialProps::spec_default()
    }
}

pub fn stone_def() -> (d: MaterialDef)
    ensures d.id == material::STONE, d.color_argb == 0xFF707070u32, d.rule.lateral_spread == 0, d.rule.miscible == false, d.props == stone_props(),
{
    MaterialDef {
        id: material::STONE,
        name: "Stone",
        props: MaterialProps {
            density: i16::MAX,
            motion: MaterialMotion::InertSolid,
            corrosion_max_hp: 96,
            acid_vulnerability: AcidVulnerability { affected: true, chance_percent: 28 },
            durability: 248,
            ..MaterialProps::default_const()
        },
        rule: MaterialRule { lateral_spread: 0, miscible: false },
        color_argb: 0xFF707070,
    }
}

/// Properties of the built-in rigid material.
pub open spec fn rigid_props() -> MaterialProps {
    MaterialProps {
        density: 220,
        motion: MaterialMotion::SolidGranular { viscosity: 255, max_speed: 0, acceleration: 0, inertial_resistance: 255 },
        structure_integrity_bits: 0x3F99_999A,
        durability: 85,
        ..MaterialProps::spec_default()
    }
}

pub fn rigid_def() -> (d: MaterialDef)
    ensures d.id == material::RIGID, d.color_argb == 0xFF8B7355u32, d.rule.lateral_spread == 1, d.rule.miscible == false, d.props == rigid_props(),
{
    MaterialDef {
        id: material::RIGID,
        name: "Rigid",
        props: MaterialProps {
            density: 220,
            motion: MaterialMotion::SolidGranular { viscosity: 255, max_speed: 0, acceleration: 0, inertial_resistance: 255 },
            structure_integrity_bits: 0x3F99_999A,
            durability: 85,
            ..MaterialProps::default_const()
        },
        rule: MaterialRule { lateral_spread: 1, miscible: false },
        color_argb: 0xFF8B7355,
    }
}

/// Properties of the built-in oil material.
pub open spec fn oil_props() -> MaterialProps {
    MaterialProps {
        density: 130,
        motion: MaterialMotion::Liquid { viscosity: 40, max_speed: 4, acceleration: 1, extinguishes_fire: false },
        ignitability: 255,
        consumption_rate: 255,
        fuel_mass: 6,
        smolder_burnout_become: material::FIRE,
        smolder_burnout_lifetime_lo: 40,
        smolder_burnout_lifetime_hi: 160,
        autoignition_temperature: 473,
        thermal_conductivity: 60,
        volumetric_heat_capacity: 100,
        heat_generation_rate: 9,
        durability: 42,
        ..MaterialProps::spec_default()
    }
}

pub fn oil_def() -> (d: MaterialDef)
    ensures d.id == material::OIL, d.color_argb == 0xFF3D2B1Fu32, d.rule.lateral_spread == 3, d.rule.miscible == true, d.props == oil_props(),
{
    MaterialDef {
        id: material::OIL,
        name: "Oil",
        props: MaterialProps {
            density: 130,
            motion: MaterialMotion::Liquid { viscosity: 40, max_speed: 4, acceleration: 1, extinguishes_fire: false },
            ignitability: 255,
            consumption_rate: 255,
            fuel_mass: 6,
            smolder_burnout_become: material::FIRE,
            smolder_burnout_lifetime_lo: 40,
            smolder_burnout_lifetime_hi: 160,
            autoignition_temperature: 473,
            thermal_conductivity: 60,
            volumetric_heat_capacity: 100,
            heat_generation_rate: 9,
            durability: 42,
            ..MaterialProps::default_const()
        },
        rule: MaterialRule { lateral_spread: 3, miscible: true },
        color_argb: 0xFF3D2B1F,
    }
}

/// Properties of the built-in fire material.
pub open spec fn fire_props() -> MaterialProps {
    MaterialProps {
        density: 1,
        motion: MaterialMotion::Gas { viscosity: 0, max_speed: 2, acceleration: 1 },
        on_death_become: material::SMOKE,
        on_death_lifetime_lo: 10,
        on_death_lifetime_hi: 96,
        base_temperature: 1200,
        thermal_conductivity: 220,
        volumetric_heat_capacity: 80,
        heat_generation_rate: 19,
        adjacent_influence: spec_adj_hot_influence(),
        durability: 0,
        ..MaterialProps::spec_default()
    }
}

pub fn fire_def() -> (d: MaterialDef)
    ensures d.id == material::FIRE, d.color_argb == 0xFFFF6600u32, d.rule.lateral_spread == 2, d.rule.miscible == true, d.props == fire_props(),
{
    MaterialDef {
        id: material::FIRE,
        name: "Fire",
        props: MaterialProps {
            density: 1,
            motion: MaterialMotion::Gas { viscosity: 0, max_speed: 2, acceleration: 1 },
            on_death_become: material::SMOKE,
            on_death_lifetime_lo: 10,
            on_death_lifetime_hi: 96,
            base_temperature: 1200,
            thermal_conductivity: 220,
            volumetric_heat_capacity: 80,
            heat_generation_rate: 19,
            adjacent_influence: adj_hot_influence(),
            durability: 0,
            ..MaterialProps::default_const()
        },
        rule: MaterialRule { lateral_spread: 2, miscible: true },
        color_argb: 0xFFFF6600,
    }
}

/// Properties of the built-in wax material.
pub open spec fn wax_props() -> MaterialProps {
    MaterialProps {
        density: 160,
        motion: MaterialMotion::InertSolid,
        ignitability: 48,
        consumption_rate: 30,
        neighbor_spawns: spec_ns_fire_smolder_wax(),
        fuel_mass: 220,
        acid_vulnerability: AcidVulnerability { affected: true, chance_percent: 67 },
        structure_integrity_bits: 0x3EE6_6666,
        autoignition_temperature: 310,
        thermal_conductivity: 10,
        volumetric_heat_capacity: 160,
        heat_generation_rate: 1,
        durability: 52,
        melt_temperature: 320,
        melt_into: material::MELTED_WAX,
        ..MaterialProps::spec_default()
    }
}

pub fn wax_def() -> (d: MaterialDef)
    ensures d.id == material::WAX, d.color_argb == 0xFFF5E6CAu32, d.rule.lateral_spread == 0, d.rule.miscible == false, d.props == wax_props(),
{
    MaterialDef {
        id: material::WAX,
        name: "Wax",
        props: MaterialProps {
            density: 160,
            motion: MaterialMotion::InertSolid,
            ignitability: 48,
            consumption_rate: 30,
            neighbor_spawns: ns_fire_smolder_wax(),
            fuel_mass: 220,
            acid_vulnerability: AcidVulnerability { affected: true, chance_percent: 67 },
            structure_integrity_bits: 0x3EE6_6666,
            autoignition_temperature: 310,
            thermal_conductivity: 10,
            volumetric_heat_capacity: 160,
            heat_generation_rate: 1,
            durability: 52,
            melt_temperature: 320,
            melt_into: material::MELTED_WAX,
            ..MaterialProps::default_const()
        },
        rule: MaterialRule { lateral_spread: 0, miscible: false },
        color_argb: 0xFFF5E6CA,
    }
}

/// Properties of the built-in melted wax material.
pub open spec fn melted_wax_props() -> MaterialProps {
    MaterialProps {
        density: 155,
        motion: MaterialMotion::Liquid { viscosity: 180, max_speed: 1, acceleration: 1, extinguishes_fire: false },
        ignitability: 48,
        consumption_rate: 30,
        neighbor_spawns: spec_ns_fire_smolder_wax(),
        fuel_mass: 220,
        acid_vulnerability: AcidVulnerability { affected: true, chance_percent: 67 },
        structure_integrity_bits: 0x3EB3_3333,
        autoignition_temperature: 310,
        thermal_conductivity: 38,
        volumetric_heat_capacity: 155,
        heat_generation_rate: 1,
        durability: 52,
        base_temperature: 336,
        freeze_temperature: 300,
        freeze_into: material::WAX,
        ..MaterialProps::spec_default()
    }
}

pub fn melted_wax_def() -> (d: MaterialDef)
    ensures d.id == material::MELTED_WAX, d.color_argb == 0xFFE2C9A4u32, d.rule.lateral_spread == 2, d.rule.miscible == false, d.props == melted_wax_props(),
{
    MaterialDef {
        id: material::MELTED_WAX,
        name: "Melted wax",
        props: MaterialProps {
            density: 155,
            motion: MaterialMotion::Liquid { viscosity: 180, max_speed: 1, acceleration: 1, extinguishes_fire: false },
            ignitability: 48,
            consumption_rate: 30,
            neighbor_spawns: ns_fire_smolder_wax(),
            fuel_mass: 220,
            acid_vulnerability: AcidVulnerability { affected: true, chance_percent: 67 },
            structure_integrity_bits: 0x3EB3_3333,
            autoignition_temperature: 310,
            thermal_conductivity: 38,
            volumetric_heat_capacity: 155,
            heat_generation_rate: 1,
            durability: 52,
            base_temperature: 336,
            freeze_temperature: 300,
            freeze_into: material::WAX,
            ..MaterialProps::default_const()
        },
        rule: MaterialRule { lateral_spread: 2, miscible: false },
        color_argb: 0xFFE2C9A4,
    }
}

/// Properties of the built-in c4 material.
pub open spec fn c4_props() -> MaterialProps {
    MaterialProps {
        density: i16::MAX,
        motion: MaterialMotion::InertSolid,
        ignitability: 255,
        explosion_radius: 40,
        autoignition_temperature: 453,
        durability: 28,
        corrosion_max_hp: 48,
        acid_vulnerability: AcidVulnerability { affected: true, chance_percent: 28 },
        ..MaterialProps::spec_default()
    }
}

pub fn c4_def() -> (d: MaterialDef)
    ensures d.id == material::C4, d.color_argb == 0xFFC8D8C0u32, d.rule.lateral_spread == 0, d.rule.miscible == false, d.props == c4_props(),
{
    MaterialDef {
        id: material::C4,
        name: "C4",
        props: MaterialProps {
            density: i16::MAX,
            motion: MaterialMotion::InertSolid,
            ignitability: 255,
            explosion_radius: 40,
            autoignition_temperature: 453,
            durability: 28,
            corrosion_max_hp: 48,
            acid_vulnerability: AcidVulnerability { affected: true, chance_percent: 28 },
            ..MaterialProps::default_const()
        },
        rule: MaterialRule { lateral_spread: 0, miscible: false },
        color_argb: 0xFFC8D8C0,
    }
}

/// Properties of the built-in smoke material.
pub open spec fn smoke_props() -> MaterialProps {
    MaterialProps {
        density: 3,
        motion: MaterialMotion::Gas { viscosity: 0, max_speed: 2, acceleration: 1 },
        durability: 0,
        ..MaterialProps::spec_default()
    }
}

pub fn smoke_def() -> (d: MaterialDef)
    ensures d.id == material::SMOKE, d.color_argb == 0xAA888888u32, d.rule.lateral_spread == 3, d.rule.miscible == true, d.props == smoke_props(),
{
    MaterialDef {
        id: material::SMOKE,
        name: "Smoke",
        props: MaterialProps {
            density: 3,
            motion: MaterialMotion::Gas { viscosity: 0, max_speed: 2, acceleration: 1 },
            durability: 0,
            ..MaterialProps::default_const()
        },
        rule: MaterialRule { lateral_spread: 3, miscible: true },
        color_argb: 0xAA888888,
    }
}

/// Properties of the built-in plant material.
pub open spec fn plant_props() -> MaterialProps {
    MaterialProps {
        density: 210,
        motion: MaterialMotion::InertSolid,
        ignitability: 200,
        consumption_rate: 230,
        fuel_mass: 3,
        smolder_extinguish_material: material::SMOKE,
        smolder_burnout_ignites_neighbors: true,
        smolder_burnout_become: material::FIRE,
        smolder_burnout_lifetime_lo: 6,
        smolder_burnout_lifetime_hi: 14,
        adjacent_transforms: spec_adj_plant_growth(),
        acid_vulnerability: AcidVulnerability { affected: true, chance_percent: 61 },
        autoignition_temperature: 523,
        thermal_conductivity: 25,
        volumetric_heat_capacity: 150,
        heat_generation_rate: 21,
        durability: 48,
        ..MaterialProps::spec_default()
    }
}

pub fn plant_def() -> (d: MaterialDef)
    ensures d.id == material::PLANT, d.color_argb == 0xFF2D8A3Eu32, d.rule.lateral_spread == 0, d.rule.miscible == false, d.props == plant_props(),
{
    MaterialDef {
        id: material::PLANT,
        name: "Plant",
        props: MaterialProps {
            density: 210,
            motion: MaterialMotion::InertSolid,
            ignitability: 200,
            consumption_rate: 230,
            fuel_mass: 3,
            smolder_extinguish_material: material::SMOKE,
            smolder_burnout_ignites_neighbors: true,
            smolder_burnout_become: material::FIRE,
            smolder_burnout_lifetime_lo: 6,
            smolder_burnout_lifetime_hi: 14,
            adjacent_transforms: adj_plant_growth(),
            acid_vulnerability: AcidVulnerability { affected: true, chance_percent: 61 },
            autoignition_temperature: 523,
            thermal_conductivity: 25,
            volumetric_heat_capacity: 150,
            heat_generation_rate: 21,
            durability: 48,
            ..MaterialProps::default_const()
        },
        rule: MaterialRule { lateral_spread: 0, miscible: false },
        color_argb: 0xFF2D8A3E,
    }
}

/// Properties of the built-in acid material.
pub open spec fn acid_props() -> MaterialProps {
    MaterialProps {
        density: 115,
        motion: MaterialMotion::Liquid { viscosity: 28, max_speed: 3, acceleration: 1, extinguishes_fire: false },
        acid_corrosion: AcidCorrosionSource { neighbor_damage: 200, self_lifetime_cost: 200 },
        acid_vulnerability: AcidVulnerability { affected: false, chance_percent: 0 },
        durability: 50,
        ..MaterialProps::spec_default()
    }
}

pub fn acid_def() -> (d: MaterialDef)
    ensures d.id == material::ACID, d.color_argb == 0xFF6BCC3Au32, d.rule.lateral_spread == 3, d.rule.miscible == true, d.props == acid_props(),
{
    MaterialDef {
        id: material::ACID,
        name: "Acid",
        props: MaterialProps {
            density: 115,
            motion: MaterialMotion::Liquid { viscosity: 28, max_speed: 3, acceleration: 1, extinguishes_fire: false },
            acid_corrosion: AcidCorrosionSource { neighbor_damage: 200, self_lifetime_cost: 200 },
            acid_vulnerability: AcidVulnerability::inactive(),
            durability: 50,
            ..MaterialProps::default_const()
        },
        rule: MaterialRule { lateral_spread: 3, miscible: true },
        color_argb: 0xFF6BCC3A,
    }
}

/// Properties of the built-in ember material.
pub open spec fn ember_props() -> MaterialProps {
    MaterialProps {
        density: 225,
        motion: MaterialMotion::InertSolid,
        ignitability: 165,
        fuel_mass: 1,
        consumption_rate: 6,
        neighbor_spawns: spec_ns_ember_sparks(),
        adjacent_influence: spec_adj_hot_influence(),
        base_temperature: 900,
        autoignition_temperature: 520,
        thermal_conductivity: 100,
        volumetric_heat_capacity: 60,
        heat_generation_rate: 4,
        durability: 38,
        ..MaterialProps::spec_default()
    }
}

pub fn ember_def() -> (d: MaterialDef)
    ensures d.id == material::EMBER, d.color_argb == 0xFF7A2E0Au32, d.rule.lateral_spread == 0, d.rule.miscible == false, d.props == ember_props(),
{
    MaterialDef {
        id: material::EMBER,
        name: "Ember",
        props: MaterialProps {
            density: 225,
            motion: MaterialMotion::InertSolid,
            ignitability: 165,
            fuel_mass: 1,
            consumption_rate: 6,
            neighbor_spawns: ns_ember_sparks(),
            adjacent_influence: adj_hot_influence(),
            base_temperature: 900,
            autoignition_temperature: 520,
            thermal_conductivity: 100,
            volumetric_heat_capacity: 60,
            heat_generation_rate: 4,
            durability: 38,
            ..MaterialProps::default_const()
        },
        rule: MaterialRule { lateral_spread: 0, miscible: false },
        color_argb: 0xFF7A2E0A,
    }
}

/// Properties of the built-in wood material.
pub open spec fn wood_props() -> MaterialProps {
    MaterialProps {
        density: 210,
        motion: MaterialMotion::InertSolid,
        ignitability: 240,
        consumption_rate: 50,
        neighbor_spawns: spec_ns_fire_smolder_1(),
        fuel_mass: 30,
        smolder_burnout_ignites_neighbors: true,
        smolder_extinguish_material: material::EMBER,
        smolder_extinguish_lifetime_lo: 120,
        smolder_extinguish_lifetime_hi: 200,
        adjacent_transforms: spec_adj_plant_growth(),
        acid_vulnerability: AcidVulnerability { affected: true, chance_percent: 53 },
        autoignition_temperature: 490,
        thermal_conductivity: 62,
        volumetric_heat_capacity: 520,
        heat_generation_rate: 25,
        durability: 75,
        ..MaterialProps::spec_default()
    }
}

pub fn wood_def() -> (d: MaterialDef)
    ensures d.id == material::WOOD, d.color_argb == 0xFF5C3D2Eu32, d.rule.lateral_spread == 0, d.rule.miscible == false, d.props == wood_props(),
{
    MaterialDef {
        id: material::WOOD,
        name: "Wood",
        props: MaterialProps {
            density: 210,
            motion: MaterialMotion::InertSolid,
            ignitability: 240,
            consumption_rate: 50,
            neighbor_spawns: ns_fire_smolder_1(),
            fuel_mass: 30,
            smolder_burnout_ignites_neighbors: true,
            smolder_extinguish_material: material::EMBER,
            smolder_extinguish_lifetime_lo: 120,
            smolder_extinguish_lifetime_hi: 200,
            adjacent_transforms: adj_plant_growth(),
            acid_vulnerability: AcidVulnerability { affected: true, chance_percent: 53 },
            autoignition_temperature: 490,
            thermal_conductivity: 62,
            volumetric_heat_capacity: 520,
            heat_generation_rate: 25,
            durability: 75,
            ..MaterialProps::default_const()
        },
        rule: MaterialRule { lateral_spread: 0, miscible: false },
        color_argb: 0xFF5C3D2E,
    }
}

/// Properties of the built-in steam material.
pub open spec fn steam_props() -> MaterialProps {
    MaterialProps {
        density: 2,
        motion: MaterialMotion::Gas { viscosity: 0, max_speed: 3, acceleration: 1 },
        base_temperature: 393,
        thermal_conductivity: 30,
        volumetric_heat_capacity: 40,
        freeze_temperature: 372,
        freeze_into: material::LIQUID,
        durability: 0,
        ..MaterialProps::spec_default()
    }
}

pub fn steam_def() -> (d: MaterialDef)
    ensures d.id == material::STEAM, d.color_argb == 0xCCDDEEFFu32, d.rule.lateral_spread == 3, d.rule.miscible == true, d.props == steam_props(),
{
    MaterialDef {
        id: material::STEAM,
        name: "Steam",
        props: MaterialProps {
            density: 2,
            motion: MaterialMotion::Gas { viscosity: 0, max_speed: 3, acceleration: 1 },
            base_temperature: 393,
            thermal_conductivity: 30,
            volumetric_heat_capacity: 40,
            freeze_temperature: 372,
            freeze_into: material::LIQUID,
            durability: 0,
            ..MaterialProps::default_const()
        },
        rule: MaterialRule { lateral_spread: 3, miscible: true },
        color_argb: 0xCCDDEEFF,
    }
}

/// Properties of the built-in lava material.
pub open spec fn lava_props() -> MaterialProps {
    MaterialProps {
        density: 240,
        motion: MaterialMotion::Liquid { viscosity: 255, max_speed: 1, acceleration: 1, extinguishes_fire: false },
        consumption_rate: 50,
        neighbor_spawns: spec_ns_fire_smolder_1(),
        fuel_mass: 255,
        smolder_extinguish_material: material::SAND,
        smolder_extinguish_lifetime_lo: 0,
        smolder_extinguish_lifetime_hi: 1,
        smolder_burnout_become: material::SAND,
        smolder_burnout_lifetime_lo: 0,
        smolder_burnout_lifetime_hi: 1,
        adjacent_transforms: spec_adj_hot_vaporize_water(),
        adjacent_influence: spec_adj_hot_influence(),
        structure_integrity_bits: 0x4030_0000,
        base_temperature: 1473,
        thermal_conductivity: 120,
        volumetric_heat_capacity: 2500,
        heat_generation_rate: 24,
        freeze_temperature: 548,
        freeze_into: material::OBSIDIAN,
        durability: 95,
        ..MaterialProps::spec_default()
    }
}

pub fn lava_def() -> (d: MaterialDef)
    ensures d.id == material::LAVA, d.color_argb == 0xFFFF3300u32, d.rule.lateral_spread == 1, d.rule.miscible == true, d.props == lava_props(),
{
    MaterialDef {
        id: material::LAVA,
        name: "Lava",
        props: MaterialProps {
            density: 240,
            motion: MaterialMotion::Liquid { viscosity: 255, max_speed: 1, acceleration: 1, extinguishes_fire: false },
            consumption_rate: 50,
            neighbor_spawns: ns_fire_smolder_1(),
            fuel_mass: 255,
            smolder_extinguish_material: material::SAND,
            smolder_extinguish_lifetime_lo: 0,
            smolder_extinguish_lifetime_hi: 1,
            smolder_burnout_become: material::SAND,
            smolder_burnout_lifetime_lo: 0,
            smolder_burnout_lifetime_hi: 1,
            adjacent_transforms: adj_hot_vaporize_water(),
            adjacent_influence: adj_hot_influence(),
            structure_integrity_bits: 0x4030_0000,
            base_temperature: 1473,
            thermal_conductivity: 120,
            volumetric_heat_capacity: 2500,
            heat_generation_rate: 24,
            freeze_temperature: 548,
            freeze_into: material::OBSIDIAN,
            durability: 95,
            ..MaterialProps::default_const()
        },
        rule: MaterialRule { lateral_spread: 1, miscible: true },
        color_argb: 0xFFFF3300,
    }
}

/// Properties of the built-in torch material.
pub open spec fn torch_props() -> MaterialProps {
    MaterialProps {
        density: 120,
        motion: MaterialMotion::InertSolid,
        neighbor_spawns: spec_ns_torch_fire(),
        base_temperature: 773,
        thermal_conductivity: 80,
        volumetric_heat_capacity: 100,
        durability: 55,
        ..MaterialProps::spec_default()
    }
}

pub fn torch_def() -> (d: MaterialDef)
    ensures d.id == material::TORCH, d.color_argb == 0xFF8B4513u32, d.rule.lateral_spread == 0, d.rule.miscible == false, d.props == torch_props(),
{
    MaterialDef {
        id: material::TORCH,
        name: "Torch",
        props: MaterialProps {
            density: 120,
            motion: MaterialMotion::InertSolid,
            neighbor_spawns: ns_torch_fire(),
            base_temperature: 773,
            thermal_conductivity: 80,
            volumetric_heat_capacity: 100,
            durability: 55,
            ..MaterialProps::default_const()
        },
        rule: MaterialRule { lateral_spread: 0, miscible: false },
        color_argb: 0xFF8B4513,
    }
}

/// Properties of the built-in well material.
pub open spec fn well_props() -> MaterialProps {
    MaterialProps {
        density: 200,
        motion: MaterialMotion::InertSolid,
        neighbor_spawns: spec_ns_well_water(),
        durability: 70,
        ..MaterialProps::spec_default()
    }
}

pub fn well_def() -> (d: MaterialDef)
    ensures d.id == material::WELL, d.color_argb == 0xFF4A6B8Au32, d.rule.lateral_spread == 0, d.rule.miscible == false, d.props == well_props(),
{
    MaterialDef {
        id: material::WELL,
        name: "Well",
        props: MaterialProps {
            density: 200,
            motion: MaterialMotion::InertSolid,
            neighbor_spawns: ns_well_water(),
            durability: 70,
            ..MaterialProps::default_const()
        },
        rule: MaterialRule { lateral_spread: 0, miscible: false },
        color_argb: 0xFF4A6B8A,
    }
}

/// Properties of the built-in dirt material.
pub open spec fn dirt_props() -> MaterialProps {
    MaterialProps {
        density: i16::MAX,
        motion: MaterialMotion::InertSolid,
        acid_vulnerability: AcidVulnerability { affected: true, chance_percent: 55 },
        structure_integrity_bits: 0x3EC2_8F5C,
        durability: 80,
        ..MaterialProps::spec_default()
    }
}

pub fn dirt_def() -> (d: MaterialDef)
    ensures d.id == material::DIRT, d.color_argb == 0xFF6B4226u32, d.rule.lateral_spread == 0, d.rule.miscible == false, d.props == dirt_props(),
{
    MaterialDef {
        id: material::DIRT,
        name: "Dirt",
        props: MaterialProps {
            density: i16::MAX,
            motion: MaterialMotion::InertSolid,
            acid_vulnerability: AcidVulnerability { affected: true, chance_percent: 55 },
            structure_integrity_bits: 0x3EC2_8F5C,
            durability: 80,
            ..MaterialProps::default_const()
        },
        rule: MaterialRule { lateral_spread: 0, miscible: false },
        color_argb: 0xFF6B4226,
    }
}

/// Properties of the built-in grass material.
pub open spec fn grass_props() -> MaterialProps {
    MaterialProps {
        density: i16::MAX,
        motion: MaterialMotion::InertSolid,
        ignitability: 210,
        consumption_rate: 200,
        fuel_mass: 5,
        smolder_extinguish_material: material::SMOKE,
        smolder_extinguish_lifetime_lo: 12,
        smolder_extinguish_lifetime_hi: 48,
        smolder_burnout_ignites_neighbors: true,
        acid_vulnerability: AcidVulnerability { affected: true, chance_percent: 55 },
        autoignition_temperature: 500,
        thermal_conductivity: 30,
        volumetric_heat_capacity: 180,
        heat_generation_rate: 20,
        durability: 24,
        ..MaterialProps::spec_default()
    }
}

pub fn grass_def() -> (d: MaterialDef)
    ensures d.id == material::GRASS, d.color_argb == 0xFF3A7D32u32, d.rule.lateral_spread == 0, d.rule.miscible == false, d.props == grass_props(),
{
    MaterialDef {
        id: material::GRASS,
        name: "Grass",
        props: MaterialProps {
            density: i16::MAX,
            motion: MaterialMotion::InertSolid,
            ignitability: 210,
            consumption_rate: 200,
            fuel_mass: 5,
            smolder_extinguish_material: material::SMOKE,
            smolder_extinguish_lifetime_lo: 12,
            smolder_extinguish_lifetime_hi: 48,
            smolder_burnout_ignites_neighbors: true,
            acid_vulnerability: AcidVulnerability { affected: true, chance_percent: 55 },
            autoignition_temperature: 500,
            thermal_conductivity: 30,
            volumetric_heat_capacity: 180,
            heat_generation_rate: 20,
            durability: 24,
            ..MaterialProps::default_const()
        },
        rule: MaterialRule { lateral_spread: 0, miscible: false },
        color_argb: 0xFF3A7D32,
    }
}

/// Properties of the built-in obsidian material.
pub open spec fn obsidian_props() -> MaterialProps {
    MaterialProps {
        density: 260,
        motion: MaterialMotion::InertSolid,
        thermal_conductivity: 80,
        volumetric_heat_capacity: 200,
        melt_temperature: 1273,
        melt_into: material::LAVA,
        durability: 250,
        ..MaterialProps::spec_default()
    }
}

pub fn obsidian_def() -> (d: MaterialDef)
    ensures d.id == material::OBSIDIAN, d.color_argb == 0xFF1A1A2Eu32, d.rule.lateral_spread == 0, d.rule.miscible == false, d.props == obsidian_props(),
{
    MaterialDef {
        id: material::OBSIDIAN,
        name: "Obsidian",
        props: MaterialProps {
            density: 260,
            motion: MaterialMotion::InertSolid,
            thermal_conductivity: 80,
            volumetric_heat_capacity: 200,
            melt_temperature: 1273,
            melt_into: material::LAVA,
            durability: 250,
            ..MaterialProps::default_const()
        },
        rule: MaterialRule { lateral_spread: 0, miscible: false },
        color_argb: 0xFF1A1A2E,
    }
}

/// Properties of the built-in ice material.
pub open spec fn ice_props() -> MaterialProps {
    MaterialProps {
        density: 100,
        motion: MaterialMotion::InertSolid,
        acid_vulnerability: AcidVulnerability { affected: true, chance_percent: 40 },
        base_temperature: 220,
        thermal_conductivity: 130,
        volumetric_heat_capacity: 210,
        melt_temperature: 274,
        melt_into: material::LIQUID,
        durability: 55,
        structure_integrity_bits: 0x3EE6_6666,
        ..MaterialProps::spec_default()
    }
}

pub fn ice_def() -> (d: MaterialDef)
    ensures d.id == material::ICE, d.color_argb == 0xFF9EC5E8u32, d.rule.lateral_spread == 0, d.rule.miscible == false, d.props == ice_props(),
{
    MaterialDef {
        id: material::ICE,
        name: "Ice",
        props: MaterialProps {
            density: 100,
            motion: MaterialMotion::InertSolid,
            acid_vulnerability: AcidVulnerability { affected: true, chance_percent: 40 },
            base_temperature: 220,
            thermal_conductivity: 130,
            volumetric_heat_capacity: 210,
            melt_temperature: 274,
            melt_into: material::LIQUID,
            durability: 55,
            structure_integrity_bits: 0x3EE6_6666,
            ..MaterialProps::default_const()
        },
        rule: MaterialRule { lateral_spread: 0, miscible: false },
        color_argb: 0xFF9EC5E8,
    }
}

} // verus!
