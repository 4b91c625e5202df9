//! A verified CHIP-8 virtual machine: a 4KB memory, sixteen 8-bit registers,
//! a 64x32 monochrome display, a call stack, two decaying timers and a
//! 16-key input vector, driven one instruction at a time by `tick`.

pub mod error;
pub mod machine;
pub mod semantics;
pub mod timer;

pub use error::C8Error;
pub use machine::C8;
pub use timer::Freq;
pub use timer::Timer;

use vstd::prelude::*;

verus! {

/// Display width in pixels.
pub const WIDTH: usize = 64;

/// Display height in pixels.
pub const HEIGHT: usize = 32;

} // verus!
