use vstd::prelude::*;

verus! {

/// Fastest search of the block compressor.
pub const LOW: i32 = 0;

/// Balanced search of the block compressor.
pub const MEDIUM: i32 = 1;

/// Most thorough search of the block compressor.
pub const HIGH: i32 = 2;

} // verus!
