//! A deterministic 64-bit virtual machine for evolutionary algorithms.
//!
//! The machine has eight general-purpose registers (`R0` through `R7`),
//! a hardware stack with `SP` and `BP`, and word-at-a-time I/O carried as
//! big-endian bytes.  Programs are sequences of [`Instruction`]s; running
//! one yields an [`Outcome`] together with the output produced and the
//! number of instructions consumed.

use vstd::prelude::*;

pub mod codec;
pub mod instructions;
pub mod laws;
pub mod machine;
pub mod wire;

pub use instructions::{Address, Instruction, Register};
pub use machine::{execute, Machine, Outcome};

verus! {

/// One machine word: an atomic integer, a pointer, and so on.
/// Words are unsigned 64-bit; signed math is the program author's business.
pub type Word = u64;

/// A place on the instruction tape, which is a vector, so it is an index.
pub type JumpLocation = usize;

/// A program: a list of instructions, to be executed in order.
pub type Program = Vec<instructions::Instruction>;

} // verus!
