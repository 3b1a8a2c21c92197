//! An interpreter for an 8-bit virtual machine with 16 byte-wide registers,
//! a 4KB address space, a 64x32 monochrome framebuffer drawn by an XOR blit,
//! and a 16-key polled keypad.

pub mod cpu;
pub mod decode;
pub mod display;
pub mod keypad;
pub mod laws;
