pub mod cell64;
pub mod world;
pub mod bresenham;
pub mod materials;
pub mod render;
pub mod game;
pub mod material_blurbs;
pub mod simulation;
pub mod explosion;
pub mod sim;
pub mod morph;
pub mod rigid;
pub mod contour;
pub mod frame_input;
pub use explosion::{base_strength_for_radius, ExplosionParams, ExplosionSpawn};
pub use simulation::{SimulationConfig, SimulationEvent, TerrainColumn, TextureUpdate};
pub use world::MaterialMotion;
pub use sim::FlameSpawn;
