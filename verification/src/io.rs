//! What the output drivers decide: where text goes on the screen, and what
//! the serial port's answers mean. The drivers themselves, which touch the
//! ports and the frame buffer, are not part of the library.

pub mod serial;
pub mod vga;
