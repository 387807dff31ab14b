//! Simulation set-up and the events it reports, plus the plain data handed to front ends.
use vstd::prelude::*;

use crate::world::geom::{Vec2i, CHUNK_SIZE};
use crate::world::state::WorldEvent;
use crate::world::MaterialId;

verus! {

/// Parameters of a new simulation.
#[derive(Clone, Copy, Debug)]
pub struct SimulationConfig {
    pub chunk_size: i32,
    pub region_size: i32,
    pub seed: u64,
    pub deterministic: bool,
    /// Single-threaded full-grid pass per tick (no checkerboard), for debugging seams.
    pub debug_full_world_single_pass: bool,
    /// Ambient temperature for thermal relaxation (Kelvin).
    pub ambient_temperature_k: u16,
}

impl Default for SimulationConfig {
    fn default() -> (c: Self)
        ensures
            c.chunk_size == CHUNK_SIZE,
            c.region_size == 512,
            c.seed == 1,
            c.deterministic,
            !c.debug_full_world_single_pass,
            c.ambient_temperature_k == 293,
    {
        SimulationConfig {
            chunk_size: CHUNK_SIZE,
            region_size: 512,
            seed: 1,
            deterministic: true,
            debug_full_world_single_pass: false,
            ambient_temperature_k: 293,
        }
    }
}

/// Something the simulation reports to its host.
#[derive(Clone, Copy, Debug)]
pub enum SimulationEvent {
    PixelEjectedToParticle { at: Vec2i },
    RegionLoaded { region: Vec2i },
    RegionSaved { region: Vec2i },
}

impl SimulationEvent {
    /// The simulation event reporting a streaming event of the world.
    pub fn from_world_event(e: WorldEvent) -> (s: SimulationEvent)
        ensures
            e matches WorldEvent::RegionLoaded(r) ==> s == (SimulationEvent::RegionLoaded { region: r }),
            e matches WorldEvent::RegionSaved(r) ==> s == (SimulationEvent::RegionSaved { region: r }),
    {
        match e {
            WorldEvent::RegionLoaded(region) => SimulationEvent::RegionLoaded { region },
            WorldEvent::RegionSaved(region) => SimulationEvent::RegionSaved { region },
        }
    }
}

/// Pixels of a changed region, positioned in world cells, for a texture upload.
pub struct TextureUpdate {
    pub position: Vec2i,
    pub width: usize,
    pub height: usize,
    pub rgba: Vec<u8>,
}

/// One column of generated terrain: the material of each filled cell, by row.
pub struct TerrainColumn {
    pub x: i32,
    pub cells: Vec<(i32, MaterialId)>,
}

} // verus!
