//! The world grid: geometry, material tables and per-cell state.
pub mod cell_flags;
pub mod chunk_local_step;
pub mod geom;
pub mod material;
pub mod props;
pub mod state;
pub mod store;

pub use crate::cell64::Cell;
pub use state::{World, WorldEvent};
pub use props::{
    AcidCorrosionSource, AcidVulnerability, AdjacentInfluenceRule, AdjacentTransformRule,
    InfluenceSourceEffect, InfluenceVictimLifetime, MaterialMotion, MaterialProps, MaterialRule,
    NeighborSpawnRule, Phase, ReactionOutcome, MAX_ADJACENT_INFLUENCE_RULES,
    MAX_ADJACENT_TRANSFORM_RULES, MAX_NEIGHBOR_SPAWN_RULES,
};
pub use geom::{
    chunk_local_index, div_floor, ChunkCoord, RectI, Vec2i, CHUNK_AREA, CHUNK_H, CHUNK_SIZE,
    CHUNK_W, WAKE_COOLDOWN,
};

use vstd::prelude::*;

verus! {

pub type MaterialId = u16;

} // verus!
