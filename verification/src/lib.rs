//! Early-boot memory subsystem of a freestanding kernel: discovery of the
//! largest usable physical memory region from whichever boot-information
//! format is present, a kernel heap allocator over that region (bump-pointer
//! and first-fit free-list strategies), and a page-table walk that marks
//! every present mapping as accessible from user mode.
//!
//! Everything here works on plain values: physical addresses are integers,
//! memory maps are vectors of descriptor records, and page tables are a
//! synthetic arena of 512-entry tables. The hardware edges (reading boot
//! tags out of memory, control registers, the framebuffer) live outside
//! this library and hand it these values.

pub mod bump;
pub mod first_fit;
pub mod memory;
pub mod memory_map;
pub mod paging;
pub mod syscall;
pub mod terminal;
