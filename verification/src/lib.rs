//! Allocators for the earliest phase of a kernel's boot, before any
//! general-purpose heap exists.
//!
//! Each allocator manages one contiguous range of addresses `[start, end)`:
//!
//! - [`EarlyAllocator`] hands out bytes from the low end and pages from the
//!   high end by moving two cursors towards each other;
//! - [`LabByteAllocator`] records every live allocation and serves a request
//!   from the first gap, in address order, that can hold it.
//!
//! Addresses are plain `usize` values: the allocators do the bookkeeping and
//! never touch the memory they describe.

pub mod align;
pub mod bump;
pub mod error;
pub mod free_list;
pub mod history;
pub mod order;

pub use bump::EarlyAllocator;
pub use error::AllocError;
pub use free_list::LabByteAllocator;
