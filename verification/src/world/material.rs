//! Built-in material ids.
use vstd::prelude::*;

verus! {

pub const EMPTY: u16 = 0;
pub const SAND: u16 = 1;
pub const LIQUID: u16 = 2;
pub const GAS: u16 = 3;
pub const STONE: u16 = 4;
pub const RIGID: u16 = 5;
pub const LIGHT_LIQUID: u16 = 6;
pub const HEAVY_LIQUID: u16 = 7;
pub const OIL: u16 = 8;
pub const FIRE: u16 = 9;
pub const WAX: u16 = 10;
pub const C4: u16 = 11;
pub const SMOKE: u16 = 12;
pub const PLANT: u16 = 13;
pub const ACID: u16 = 14;
pub const EMBER: u16 = 15;
pub const WOOD: u16 = 16;
pub const STEAM: u16 = 17;
pub const LAVA: u16 = 18;
pub const TORCH: u16 = 19;
pub const WELL: u16 = 20;
pub const SPOUT: u16 = 21;
pub const DIRT: u16 = 22;
pub const GRASS: u16 = 23;
pub const OBSIDIAN: u16 = 24;
pub const ICE: u16 = 25;
pub const MELTED_WAX: u16 = 26;
pub const MAX_MATERIALS: usize = 1024;

} // verus!
