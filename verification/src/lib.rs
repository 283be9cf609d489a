//! A verified interpreter core for a small fixed 16-bit instruction set:
//! 4096 bytes of memory, 16 general 8-bit registers, a bounded call stack,
//! a 64x32 monochrome pixel grid with XOR sprite compositing, and two
//! saturating countdown timers. A host driver repeatedly fetches and
//! executes instructions, ticks the timers once per frame, and reads the
//! display and sound timer to drive presentation.

pub mod device;
pub mod display;
pub mod exec;
pub mod isa;
pub mod laws;
