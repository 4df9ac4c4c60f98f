//! Shared memory-subsystem vocabulary: which address space a mapping belongs
//! to, the architectural page size, and the recoverable allocation failure
//! returned by both heap allocator strategies.

use vstd::prelude::*;

verus! {

/// The address space a memory mapping belongs to.
#[derive(Clone, Copy, PartialEq, Eq, Structural, Debug)]
pub enum MemorySpace {
    Kernel,
    User,
}

/// Size in bytes of an architectural base page.
pub const PAGE_SIZE: usize = 0x1000;

/// A recoverable allocation failure: the request could not be satisfied,
/// either because the heap is exhausted or because the size/alignment
/// arithmetic would overflow the address width. Allocator state is never
/// mutated by a failing request.
#[derive(Clone, Copy, PartialEq, Eq, Structural, Debug)]
pub struct AllocError;

} // verus!
