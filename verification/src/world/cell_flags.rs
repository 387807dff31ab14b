//! Bits of [`crate::cell64::Cell::flags`].
use vstd::prelude::*;

verus! {

pub const IS_FREE_FALLING: u8 = 1;
pub const WET: u8 = 2;
pub const ELECTRIFIED: u8 = 4;
/// Legacy flag kept for backward compatibility. Prefer `RIGID_PIXEL`.
pub const RIGID_BODY_SIM: u8 = 8;
/// Marks a cell as belonging to a rigid body. The cell keeps its real material so the
/// sim rules (reactions, adjacent transforms, temperature, phase transitions) apply,
/// while movement is blocked.
pub const RIGID_PIXEL: u8 = 16;
/// Solid (or other) fuel is actively burning.
pub const ON_FIRE: u8 = 32;

} // verus!
