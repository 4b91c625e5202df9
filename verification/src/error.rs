//! Error kinds reported by the virtual machine.
//!
//! Program-load failure is recoverable and reported to the host; a defective
//! program (unknown instruction, return on an empty stack, a memory or key
//! access outside the addressable range) is surfaced as a typed error from
//! the execution step instead of aborting the process, so a host can halt
//! one program while staying alive.

use vstd::prelude::*;

verus! {

#[derive(Debug, Clone, Copy, PartialEq, Eq, Structural)]
pub enum C8Error {
    /// Reading the program image from its source failed.
    ProgramLoadFailure,
    /// The program image does not fit between the program start offset and
    /// the end of memory.
    ProgramTooLarge,
    /// The four decoded nibbles match no instruction pattern.
    UnknownInstruction(u8, u8, u8, u8),
    /// A return was executed while the call stack was empty.
    StackUnderflow,
    /// An instruction addressed memory outside the 4096-byte range.
    MemoryOutOfBounds,
    /// A key-test instruction named a key outside the 16-key keypad.
    KeyOutOfRange,
}

} // verus!
