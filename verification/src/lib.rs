//! Memory-management core of a freestanding x86-64 kernel: a bit-packed
//! page-table entry model, a monotonic physical frame allocator over the
//! boot-time memory map, a four-level page-table walker over offset-mapped
//! physical memory, and a size-classed heap allocator with a first-fit
//! fallback.

pub mod addr;
pub mod allocator;
pub mod idt;
pub mod mem;
pub mod page;
pub mod pci;
