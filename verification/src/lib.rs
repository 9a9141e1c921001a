//! A verified model of a module/host memory boundary.
//!
//! The library centres on a boundary allocator: `allocate` hands out fresh
//! regions of a modelled heap, `deallocate` releases them, and the adapter
//! in `boundary` reconstructs an owned text value from a raw
//! (address, length) pair that the host hands back, taking ownership of the
//! region in the process.

pub mod boundary;
pub mod heap;

pub use boundary::CumulusCI;
pub use boundary::Freeze;
pub use boundary::OwnedString;
pub use boundary::RawBuffer;
pub use boundary::reconstruct;
pub use boundary::try_reconstruct;
pub use heap::Heap;
pub use heap::HeapModel;
pub use heap::allocate;
pub use heap::deallocate;
pub use heap::write_region;
