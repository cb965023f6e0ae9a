//! Core of a freestanding kernel: the dynamic memory manager that carves
//! allocations out of the usable physical memory, the bit-level codecs of
//! the descriptor tables, and the decisions of the output drivers.

pub mod allocator;
pub mod interrupts;
pub mod io;
pub mod utils;
