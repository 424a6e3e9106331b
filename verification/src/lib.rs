//! A verified CHIP-8 interpreter core.
//!
//! The machine state (memory, registers, stack, timers, framebuffer, keys)
//! lives in [`cpu::CPU`]; one instruction is fetched, decoded and executed
//! per call of [`cpu::CPU::cycle`]. The exact semantics of every instruction
//! is given by the specification functions in [`model`], and each executable
//! step is proved to follow them.

pub mod cpu;
pub mod error;
pub mod font;
pub mod laws;
pub mod model;
pub mod quirks;

pub use error::RuntimeError;
pub use quirks::Quirks;
