//! Memory allocators: a binary buddy allocator for blocks and pages, and a
//! slab allocator for fixed-size objects.
pub mod buddy;
pub mod slab;

pub use buddy::BuddyAllocator;
pub use slab::SlabAllocator;
