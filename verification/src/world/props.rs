//! Per-material physical properties and neighbour rules.
use vstd::prelude::*;

use super::material;
use super::MaterialId;

verus! {

#[derive(Clone, Copy, Debug)]
pub struct MaterialRule {
    pub lateral_spread: u8,
    /// Reserved for future tuning; not used for lateral liquid–liquid motion.
    pub miscible: bool,
}

impl MaterialRule {
    /// One cell of lateral spread, miscible.
    pub fn default_rule() -> (r: Self)
        ensures r.lateral_spread == 1, r.miscible,
    {
        MaterialRule { lateral_spread: 1, miscible: true }
    }
}

impl Default for MaterialRule {
    fn default() -> (r: Self)
        ensures r.lateral_spread == 1, r.miscible,
    {
        Self::default_rule()
    }
}

#[derive(Clone, Copy, PartialEq, Eq, Structural, Debug)]
pub enum ReactionOutcome {
    NoReaction,
    Swap,
    Transform(MaterialId, MaterialId),
}

#[derive(Clone, Copy, PartialEq, Eq, Structural, Debug)]
pub enum Phase {
    Solid,
    Liquid,
    Gas,
}

/// How a material participates in movement and displacement.
#[derive(Clone, Copy, PartialEq, Eq, Structural, Debug)]
pub enum MaterialMotion {
    /// Solid anchor: no granular / liquid / gas stepping.
    InertSolid,
    /// Solid grains or rigid chunks (granular stepping).
    SolidGranular { viscosity: u8, max_speed: u8, acceleration: u8, inertial_resistance: u8 },
    /// Flowing liquid.
    Liquid { viscosity: u8, max_speed: u8, acceleration: u8, extinguishes_fire: bool },
    /// Buoyant gas, smoke, steam, fire.
    Gas { viscosity: u8, max_speed: u8, acceleration: u8 },
}

impl MaterialMotion {
    pub open spec fn spec_phase(self) -> Phase {
        match self {
            MaterialMotion::InertSolid => Phase::Solid,
            MaterialMotion::SolidGranular { .. } => Phase::Solid,
            MaterialMotion::Liquid { .. } => Phase::Liquid,
            MaterialMotion::Gas { .. } => Phase::Gas,
        }
    }

    pub fn phase(self) -> (p: Phase)
        ensures p == self.spec_phase(),
    {
        match self {
            MaterialMotion::InertSolid | MaterialMotion::SolidGranular { .. } => Phase::Solid,
            MaterialMotion::Liquid { .. } => Phase::Liquid,
            MaterialMotion::Gas { .. } => Phase::Gas,
        }
    }

    pub fn inert(self) -> (b: bool)
        ensures b == (self is InertSolid),
    {
        match self {
            MaterialMotion::InertSolid => true,
            _ => false,
        }
    }

    pub fn viscosity(self) -> (v: u8)
        ensures
            self is InertSolid ==> v == 255,
            self is SolidGranular ==> v == self->SolidGranular_viscosity,
            self is Liquid ==> v == self->Liquid_viscosity,
            self is Gas ==> v == self->Gas_viscosity,
    {
        match self {
            MaterialMotion::InertSolid => 255,
            MaterialMotion::SolidGranular { viscosity, .. } => viscosity,
            MaterialMotion::Liquid { viscosity, .. } => viscosity,
            MaterialMotion::Gas { viscosity, .. } => viscosity,
        }
    }

    pub fn max_speed(self) -> (v: u8)
        ensures
            self is InertSolid ==> v == 0,
            self is SolidGranular ==> v == self->SolidGranular_max_speed,
            self is Liquid ==> v == self->Liquid_max_speed,
            self is Gas ==> v == self->Gas_max_speed,
    {
        match self {
            MaterialMotion::InertSolid => 0,
            MaterialMotion::SolidGranular { max_speed, .. } => max_speed,
            MaterialMotion::Liquid { max_speed, .. } => max_speed,
            MaterialMotion::Gas { max_speed, .. } => max_speed,
        }
    }

    pub fn acceleration(self) -> (v: u8)
        ensures
            self is InertSolid ==> v == 0,
            self is SolidGranular ==> v == self->SolidGranular_acceleration,
            self is Liquid ==> v == self->Liquid_acceleration,
            self is Gas ==> v == self->Gas_acceleration,
    {
        match self {
            MaterialMotion::InertSolid => 0,
            MaterialMotion::SolidGranular { acceleration, .. } => acceleration,
            MaterialMotion::Liquid { acceleration, .. } => acceleration,
            MaterialMotion::Gas { acceleration, .. } => acceleration,
        }
    }

    pub fn inertial_resistance(self) -> (v: u8)
        ensures
            self is SolidGranular ==> v == self->inertial_resistance,
            !(self is SolidGranular) ==> v == 255,
    {
        match self {
            MaterialMotion::SolidGranular { inertial_resistance, .. } => inertial_resistance,
            _ => 255,
        }
    }

    pub fn extinguishes_fire(self) -> (b: bool)
        ensures
            self is Liquid ==> b == self->extinguishes_fire,
            !(self is Liquid) ==> !b,
    {
        match self {
            MaterialMotion::Liquid { extinguishes_fire, .. } => extinguishes_fire,
            _ => false,
        }
    }
}

/// Max rules per material for [`MaterialProps::adjacent_transforms`].
pub const MAX_ADJACENT_TRANSFORM_RULES: usize = 4;
/// Max spawn rules per material for [`MaterialProps::neighbor_spawns`].
pub const MAX_NEIGHBOR_SPAWN_RULES: usize = 4;
/// Max rules per material for [`MaterialProps::adjacent_influence`].
pub const MAX_ADJACENT_INFLUENCE_RULES: usize = 8;

/// When this material is stepped, each neighbor may be replaced `from` → `to` with the given odds.
#[derive(Clone, Copy, PartialEq, Eq, Structural, Debug)]
pub struct AdjacentTransformRule {
    pub from: MaterialId,
    pub to: MaterialId,
    /// 0 = disabled. 1–100 = percent success.
    pub chance_percent: u8,
    /// If true, only the four cardinals; if false, all eight neighbors.
    pub cardinal_neighbors_only: bool,
    /// Subtract from the acting cell's `lifetime` after a successful transform.
    pub actor_lifetime_delta: u8,
}

impl AdjacentTransformRule {
    pub fn inactive() -> (r: Self)
        ensures
            r.from == material::EMPTY,
            r.to == material::EMPTY,
            r.chance_percent == 0,
            r.cardinal_neighbors_only,
            r.actor_lifetime_delta == 0,
    {
        AdjacentTransformRule {
            from: material::EMPTY,
            to: material::EMPTY,
            chance_percent: 0,
            cardinal_neighbors_only: true,
            actor_lifetime_delta: 0,
        }
    }

    pub open spec fn spec_is_active(self) -> bool {
        self.chance_percent > 0
    }

    pub fn is_active(self) -> (b: bool)
        ensures b == self.spec_is_active(),
    {
        self.chance_percent > 0
    }
}

impl Default for AdjacentTransformRule {
    fn default() -> (r: Self)
        ensures r == AdjacentTransformRule::inactive_value(),
    {
        Self::inactive()
    }
}

impl AdjacentTransformRule {
    pub open spec fn inactive_value() -> Self {
        AdjacentTransformRule {
            from: material::EMPTY,
            to: material::EMPTY,
            chance_percent: 0,
            cardinal_neighbors_only: true,
            actor_lifetime_delta: 0,
        }
    }
}

/// Each tick, with `chance`/256 odds, try to place `spawn_material` in a random empty 8-neighbor.
#[derive(Clone, Copy, PartialEq, Eq, Structural, Debug)]
pub struct NeighborSpawnRule {
    pub spawn_material: MaterialId,
    /// 0 = disabled.
    pub chance: u8,
    /// Half-open lifetime for the spawned cell when `hi > lo`.
    pub lifetime_lo: u8,
    pub lifetime_hi: u8,
    pub spawn_flags: u8,
}

impl NeighborSpawnRule {
    pub open spec fn inactive_value() -> Self {
        NeighborSpawnRule { spawn_material: material::EMPTY, chance: 0, lifetime_lo: 0, lifetime_hi: 0, spawn_flags: 0 }
    }

    pub fn inactive() -> (r: Self)
        ensures r == Self::inactive_value(),
    {
        NeighborSpawnRule { spawn_material: material::EMPTY, chance: 0, lifetime_lo: 0, lifetime_hi: 0, spawn_flags: 0 }
    }

    pub open spec fn spec_is_active(self) -> bool {
        self.spawn_material != material::EMPTY && self.chance > 0
    }

    pub fn is_active(self) -> (b: bool)
        ensures b == self.spec_is_active(),
    {
        self.spawn_material != material::EMPTY && self.chance > 0
    }
}

impl Default for NeighborSpawnRule {
    fn default() -> (r: Self)
        ensures r == NeighborSpawnRule::inactive_value(),
    {
        Self::inactive()
    }
}

/// Whether this material can be damaged by adjacent corrosive liquids and at what odds per tick.
#[derive(Clone, Copy, PartialEq, Eq, Structural, Debug)]
pub struct AcidVulnerability {
    pub affected: bool,
    pub chance_percent: u8,
}

impl AcidVulnerability {
    pub fn inactive() -> (r: Self)
        ensures !r.affected, r.chance_percent == 0,
    {
        AcidVulnerability { affected: false, chance_percent: 0 }
    }

    pub fn is_active(self) -> (b: bool)
        ensures b == (self.affected && self.chance_percent > 0),
    {
        self.affected && self.chance_percent > 0
    }
}

impl Default for AcidVulnerability {
    fn default() -> (r: Self)
        ensures !r.affected, r.chance_percent == 0,
    {
        Self::inactive()
    }
}

/// Damage dealt by a corrosive liquid to vulnerable neighbors and the cost to its own lifetime.
#[derive(Clone, Copy, PartialEq, Eq, Structural, Debug)]
pub struct AcidCorrosionSource {
    pub neighbor_damage: u8,
    pub self_lifetime_cost: u8,
}

impl AcidCorrosionSource {
    pub fn inactive() -> (r: Self)
        ensures r.neighbor_damage == 0, r.self_lifetime_cost == 0,
    {
        AcidCorrosionSource { neighbor_damage: 0, self_lifetime_cost: 0 }
    }

    pub fn is_active(self) -> (b: bool)
        ensures b == (self.neighbor_damage != 0 || self.self_lifetime_cost != 0),
    {
        self.neighbor_damage != 0 || self.self_lifetime_cost != 0
    }
}

impl Default for AcidCorrosionSource {
    fn default() -> (r: Self)
        ensures r.neighbor_damage == 0, r.self_lifetime_cost == 0,
    {
        Self::inactive()
    }
}

/// How an [`AdjacentInfluenceRule`] updates the neighbor lifetime when not using a transition spawn.
#[derive(Clone, Copy, PartialEq, Eq, Structural, Debug)]
pub enum InfluenceVictimLifetime {
    Unchanged,
    SetTo(u8),
    /// Use the victim's `fuel_mass` (smolder ignition).
    UseVictimFuelMass,
}

/// How the source cell changes after a successful influence on a neighbor.
#[derive(Clone, Copy, PartialEq, Eq, Structural, Debug)]
pub enum InfluenceSourceEffect {
    NoEffect,
    ClearSourceCell,
    AddSourceLifetime(u8),
    SubtractSourceLifetime(u8),
}

/// Probabilistic neighbor flag / lifetime effects from a stepped cell (fire spread, wetting, drying).
#[derive(Clone, Copy, PartialEq, Eq, Structural, Debug)]
pub struct AdjacentInfluenceRule {
    pub victim: MaterialId,
    pub chance_percent: u8,
    pub cardinal_neighbors_only: bool,
    pub requires_victim_ignitability: bool,
    pub require_victim_flags_any: u8,
    pub exclude_victim_flags_any: u8,
    pub flags_or: u8,
    pub flags_clear: u8,
    pub victim_lifetime: InfluenceVictimLifetime,
    pub source_effect: InfluenceSourceEffect,
    pub if_cleared_mask: u8,
    pub spawn_on_clear_material: MaterialId,
    pub if_set_mask: u8,
    pub spawn_on_set_material: MaterialId,
    pub spawn_lifetime_lo: u8,
    pub spawn_lifetime_hi: u8,
    pub empty_neighbor_spawn: MaterialId,
    pub empty_neighbor_spawn_lifetime_lo: u8,
    pub empty_neighbor_spawn_lifetime_hi: u8,
}

impl AdjacentInfluenceRule {
    pub open spec fn inactive_value() -> Self {
        AdjacentInfluenceRule {
            victim: material::EMPTY,
            chance_percent: 0,
            cardinal_neighbors_only: false,
            requires_victim_ignitability: false,
            require_victim_flags_any: 0,
            exclude_victim_flags_any: 0,
            flags_or: 0,
            flags_clear: 0,
            victim_lifetime: InfluenceVictimLifetime::Unchanged,
            source_effect: InfluenceSourceEffect::NoEffect,
            if_cleared_mask: 0,
            spawn_on_clear_material: material::EMPTY,
            if_set_mask: 0,
            spawn_on_set_material: material::EMPTY,
            spawn_lifetime_lo: 0,
            spawn_lifetime_hi: 0,
            empty_neighbor_spawn: material::EMPTY,
            empty_neighbor_spawn_lifetime_lo: 0,
            empty_neighbor_spawn_lifetime_hi: 0,
        }
    }

    pub fn inactive() -> (r: Self)
        ensures r == Self::inactive_value(),
    {
        AdjacentInfluenceRule {
            victim: material::EMPTY,
            chance_percent: 0,
            cardinal_neighbors_only: false,
            requires_victim_ignitability: false,
            require_victim_flags_any: 0,
            exclude_victim_flags_any: 0,
            flags_or: 0,
            flags_clear: 0,
            victim_lifetime: InfluenceVictimLifetime::Unchanged,
            source_effect: InfluenceSourceEffect::NoEffect,
            if_cleared_mask: 0,
            spawn_on_clear_material: material::EMPTY,
            if_set_mask: 0,
            spawn_on_set_material: material::EMPTY,
            spawn_lifetime_lo: 0,
            spawn_lifetime_hi: 0,
            empty_neighbor_spawn: material::EMPTY,
            empty_neighbor_spawn_lifetime_lo: 0,
            empty_neighbor_spawn_lifetime_hi: 0,
        }
    }

    pub open spec fn spec_is_active(self) -> bool {
        self.victim != material::EMPTY && self.chance_percent > 0
    }

    pub fn is_active(self) -> (b: bool)
        ensures b == self.spec_is_active(),
    {
        self.victim != material::EMPTY && self.chance_percent > 0
    }
}

impl Default for AdjacentInfluenceRule {
    fn default() -> (r: Self)
        ensures r == AdjacentInfluenceRule::inactive_value(),
    {
        Self::inactive()
    }
}


/// Properties of one material. `structure_integrity_bits` holds the IEEE-754 single-precision bit
/// pattern of the rigid-body structural integrity (collision stress a rigid pixel tolerates).
#[derive(Clone, Copy, Debug)]
pub struct MaterialProps {
    pub density: i16,
    pub motion: MaterialMotion,
    /// 0 = never ignites. 255 = always ignites from adjacent fire.
    pub ignitability: u8,
    /// While burning, weight out of 256 to lose one `lifetime` per tick.
    pub consumption_rate: u8,
    /// If > 0, ignition seeds `lifetime` with this value and sets `ON_FIRE`.
    pub fuel_mass: u8,
    /// Resistance to ray-style explosions.
    pub durability: u8,
    pub explosion_radius: u8,
    pub on_heat_become: MaterialId,
    pub on_death_become: MaterialId,
    pub on_death_lifetime_lo: u8,
    pub on_death_lifetime_hi: u8,
    /// Max acid hit points stored in `lifetime` when painted; 0 = first hit erases the cell.
    pub corrosion_max_hp: u8,
    pub acid_vulnerability: AcidVulnerability,
    pub acid_corrosion: AcidCorrosionSource,
    pub smolder_extinguish_material: MaterialId,
    pub smolder_extinguish_lifetime_lo: u8,
    pub smolder_extinguish_lifetime_hi: u8,
    pub smolder_burnout_ignites_neighbors: bool,
    pub smolder_burnout_explosion_radius: u8,
    pub smolder_burnout_become: MaterialId,
    pub smolder_burnout_lifetime_lo: u8,
    pub smolder_burnout_lifetime_hi: u8,
    pub adjacent_transforms: [AdjacentTransformRule; 4],
    pub adjacent_influence: [AdjacentInfluenceRule; 8],
    pub neighbor_spawns: [NeighborSpawnRule; 4],
    pub structure_integrity_bits: u32,
    /// Temperature (K) when spawned or painted.
    pub base_temperature: u16,
    pub thermal_conductivity: u8,
    pub volumetric_heat_capacity: u16,
    pub autoignition_temperature: u16,
    pub melt_temperature: u16,
    pub melt_into: MaterialId,
    pub freeze_temperature: u16,
    pub freeze_into: MaterialId,
    pub heat_generation_rate: u16,
    pub ignition_thermal_pulse: i16,
}

/// Bit pattern of the single-precision value `1.0`.
pub const STRUCTURE_INTEGRITY_ONE_BITS: u32 = 0x3F80_0000;

impl MaterialProps {
    /// The default values every built-in material starts from.
    pub open spec fn spec_default() -> Self {
        let t = AdjacentTransformRule::inactive_value();
        let i = AdjacentInfluenceRule::inactive_value();
        let n = NeighborSpawnRule::inactive_value();
        MaterialProps {
            density: 0,
            motion: MaterialMotion::InertSolid,
            ignitability: 0,
            consumption_rate: 0,
            fuel_mass: 0,
            durability: 0,
            explosion_radius: 0,
            on_heat_become: material::EMPTY,
            on_death_become: material::EMPTY,
            on_death_lifetime_lo: 0,
            on_death_lifetime_hi: 0,
            corrosion_max_hp: 0,
            acid_vulnerability: AcidVulnerability { affected: true, chance_percent: 50 },
            acid_corrosion: AcidCorrosionSource { neighbor_damage: 0, self_lifetime_cost: 0 },
            smolder_extinguish_material: material::EMPTY,
            smolder_extinguish_lifetime_lo: 24,
            smolder_extinguish_lifetime_hi: 64,
            smolder_burnout_ignites_neighbors: false,
            smolder_burnout_explosion_radius: 0,
            smolder_burnout_become: material::EMPTY,
            smolder_burnout_lifetime_lo: 0,
            smolder_burnout_lifetime_hi: 0,
            adjacent_transforms: [t, t, t, t],
            adjacent_influence: [i, i, i, i, i, i, i, i],
            neighbor_spawns: [n, n, n, n],
            structure_integrity_bits: STRUCTURE_INTEGRITY_ONE_BITS,
            base_temperature: 293,
            thermal_conductivity: 50,
            volumetric_heat_capacity: 128,
            autoignition_temperature: 0,
            melt_temperature: 0,
            melt_into: material::EMPTY,
            freeze_temperature: 0,
            freeze_into: material::EMPTY,
            heat_generation_rate: 0,
            ignition_thermal_pulse: 0,
        }
    }

    /// Same values as [`Default`].
    pub fn default_const() -> (p: Self)
        ensures p == Self::spec_default(),
    {
        let t = AdjacentTransformRule::inactive();
        let i = AdjacentInfluenceRule::inactive();
        let n = NeighborSpawnRule::inactive();
        let p = MaterialProps {
            density: 0,
            motion: MaterialMotion::InertSolid,
            ignitability: 0,
            consumption_rate: 0,
            fuel_mass: 0,
            durability: 0,
            explosion_radius: 0,
            on_heat_become: material::EMPTY,
            on_death_become: material::EMPTY,
            on_death_lifetime_lo: 0,
            on_death_lifetime_hi: 0,
            corrosion_max_hp: 0,
            acid_vulnerability: AcidVulnerability { affected: true, chance_percent: 50 },
            acid_corrosion: AcidCorrosionSource::inactive(),
            smolder_extinguish_material: material::EMPTY,
            smolder_extinguish_lifetime_lo: 24,
            smolder_extinguish_lifetime_hi: 64,
            smolder_burnout_ignites_neighbors: false,
            smolder_burnout_explosion_radius: 0,
            smolder_burnout_become: material::EMPTY,
            smolder_burnout_lifetime_lo: 0,
            smolder_burnout_lifetime_hi: 0,
            adjacent_transforms: [t, t, t, t],
            adjacent_influence: [i, i, i, i, i, i, i, i],
            neighbor_spawns: [n, n, n, n],
            structure_integrity_bits: STRUCTURE_INTEGRITY_ONE_BITS,
            base_temperature: 293,
            thermal_conductivity: 50,
            volumetric_heat_capacity: 128,
            autoignition_temperature: 0,
            melt_temperature: 0,
            melt_into: material::EMPTY,
            freeze_temperature: 0,
            freeze_into: material::EMPTY,
            heat_generation_rate: 0,
            ignition_thermal_pulse: 0,
        };
        p
    }

    pub fn phase(self) -> (p: Phase)
        ensures p == self.motion.spec_phase(),
    {
        self.motion.phase()
    }

    pub fn inert(self) -> (b: bool)
        ensures b == (self.motion is InertSolid),
    {
        self.motion.inert()
    }

    pub fn viscosity(self) -> (v: u8)
        ensures
            self.motion is InertSolid ==> v == 255,
            self.motion is SolidGranular ==> v == self.motion->SolidGranular_viscosity,
            self.motion is Liquid ==> v == self.motion->Liquid_viscosity,
            self.motion is Gas ==> v == self.motion->Gas_viscosity,
    {
        self.motion.viscosity()
    }

    pub fn max_speed(self) -> (v: u8)
        ensures
            self.motion is InertSolid ==> v == 0,
            self.motion is SolidGranular ==> v == self.motion->SolidGranular_max_speed,
            self.motion is Liquid ==> v == self.motion->Liquid_max_speed,
            self.motion is Gas ==> v == self.motion->Gas_max_speed,
    {
        self.motion.max_speed()
    }

    pub fn acceleration(self) -> (v: u8)
        ensures
            self.motion is InertSolid ==> v == 0,
            self.motion is SolidGranular ==> v == self.motion->SolidGranular_acceleration,
            self.motion is Liquid ==> v == self.motion->Liquid_acceleration,
            self.motion is Gas ==> v == self.motion->Gas_acceleration,
    {
        self.motion.acceleration()
    }

    pub fn inertial_resistance(self) -> (v: u8)
        ensures
            self.motion is SolidGranular ==> v == self.motion->inertial_resistance,
            !(self.motion is SolidGranular) ==> v == 255,
    {
        self.motion.inertial_resistance()
    }

    pub fn extinguishes_fire(self) -> (b: bool)
        ensures
            self.motion is Liquid ==> b == self.motion->extinguishes_fire,
            !(self.motion is Liquid) ==> !b,
    {
        self.motion.extinguishes_fire()
    }

    pub fn has_adjacent_transforms(self) -> (b: bool)
        ensures b == exists|i: int| 0 <= i < 4 && (#[trigger] self.adjacent_transforms@[i]).spec_is_active(),
    {
        let mut i: usize = 0;
        while i < 4
            invariant
                i <= 4,
                forall|j: int| 0 <= j < i ==> !(#[trigger] self.adjacent_transforms@[j]).spec_is_active(),
            decreases 4 - i,
        {
            if self.adjacent_transforms[i].is_active() {
                return true;
            }
            i = i + 1;
        }
        false
    }

    pub fn has_neighbor_spawns(self) -> (b: bool)
        ensures b == exists|i: int| 0 <= i < 4 && (#[trigger] self.neighbor_spawns@[i]).spec_is_active(),
    {
        let mut i: usize = 0;
        while i < 4
            invariant
                i <= 4,
                forall|j: int| 0 <= j < i ==> !(#[trigger] self.neighbor_spawns@[j]).spec_is_active(),
            decreases 4 - i,
        {
            if self.neighbor_spawns[i].is_active() {
                return true;
            }
            i = i + 1;
        }
        false
    }

    pub fn has_acid_corrosion(self) -> (b: bool)
        ensures b == (self.acid_corrosion.neighbor_damage != 0 || self.acid_corrosion.self_lifetime_cost != 0),
    {
        self.acid_corrosion.is_active()
    }

    pub fn has_adjacent_influence(self) -> (b: bool)
        ensures b == exists|i: int| 0 <= i < 8 && (#[trigger] self.adjacent_influence@[i]).spec_is_active(),
    {
        let mut i: usize = 0;
        while i < 8
            invariant
                i <= 8,
                forall|j: int| 0 <= j < i ==> !(#[trigger] self.adjacent_influence@[j]).spec_is_active(),
            decreases 8 - i,
        {
            if self.adjacent_influence[i].is_active() {
                return true;
            }
            i = i + 1;
        }
        false
    }
}

impl Default for MaterialProps {
    fn default() -> (p: Self)
        ensures p == MaterialProps::spec_default(),
    {
        Self::default_const()
    }
}

} // verus!
