//! The error taxonomy of the interpreter core.

use vstd::prelude::*;

verus! {

/// A fault raised by the interpreter while executing one instruction.
///
/// Every fault is surfaced to the host; the core never silently wraps an
/// address, corrupts the stack pointer, or ignores an unknown opcode.
#[derive(Clone, Copy, Debug, PartialEq, Eq, Structural)]
pub enum RuntimeError {
    /// The instruction word matches no defined opcode pattern.
    DecodeError,
    /// A call was made while the stack already held 16 return addresses.
    StackOverflow,
    /// A return was executed with no active call frame.
    StackUnderflow,
    /// A computed memory index would read or write outside 0..4096.
    AddressOutOfRange,
}

} // verus!
