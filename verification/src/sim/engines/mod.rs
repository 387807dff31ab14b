//! Per-material behaviours the pixel step dispatches to.
pub mod acid;
pub mod adjacent;
pub mod influence;
pub mod burn;
pub mod smolder;
pub mod granular;
pub mod liquid;
