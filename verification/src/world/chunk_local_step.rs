//! Index offsets between neighbouring cells inside one chunk.
use vstd::prelude::*;

verus! {

pub const LEFT: i32 = -1;
pub const RIGHT: i32 = 1;
pub const UP: i32 = -32;
pub const DOWN: i32 = 32;
pub const UP_LEFT: i32 = -33;
pub const UP_RIGHT: i32 = -31;
pub const DOWN_LEFT: i32 = 31;
pub const DOWN_RIGHT: i32 = 33;

} // verus!
