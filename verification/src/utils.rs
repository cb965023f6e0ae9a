//! Helpers shared by the rest of the kernel.

pub mod bits;
