pub mod frame_allocator;
pub mod heap;
pub mod memmap;

use vstd::prelude::*;

verus! {

/// Size of a physical frame and of a page.
pub const PAGE_SIZE: u64 = 4096;

} // verus!
