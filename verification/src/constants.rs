//! Fixed sizes of the viewer.

use vstd::prelude::*;

verus! {

/// Columns that the scrollbar takes: a space and the bar itself.
pub const SCROLLBAR_WIDTH: usize = 2;

/// Bytes that one step of a search reads: 16 MiB.
pub const BLOCK_SIZE: usize = 16777216;

/// Bytes of the blocks already read that a regular expression sees again
/// together with the next block.
pub const MAX_REGEX_OVERLAP: usize = 4096;

} // verus!
