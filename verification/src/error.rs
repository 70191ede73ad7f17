//! The ways in which an allocator turns a request down.

use vstd::prelude::*;

verus! {

/// Why an allocator turned a request down.
///
/// `NoMemory` and `NotAllocated` both mean that there is no room for the
/// request; a caller treats them alike.
#[derive(Clone, Copy, Debug, PartialEq, Eq, Structural)]
pub enum AllocError {
    /// The request cannot fit into the space that is still free.
    NoMemory,
    /// Every gap between the live allocations was tried and none can hold
    /// the request.
    NotAllocated,
    /// The allocator does not offer this operation.
    Unsupported,
}

} // verus!
