pub mod disk_format;
pub mod block_cache;
pub mod context_store;
pub mod oxide_fs;
pub mod path_order;
pub mod roundtrip;
pub mod virtio_blk;

use vstd::prelude::*;

verus! {

/// Bytes in a disk block.
pub const BLOCK_SIZE: u64 = 512;

} // verus!
