//! The instruction model: registers, addressing modes, and instructions.
//! Pure data with structural equality.

use vstd::prelude::*;

verus! {

use crate::Word;

/// Specifies a register in the machine.
///
/// This does not include the instruction pointer; jump instructions are
/// the only way to change that.
#[derive(PartialEq, Eq, Structural, Debug, Copy, Clone)]
pub enum Register {
    /// General purpose register 0
    R0,
    /// General purpose register 1
    R1,
    /// General purpose register 2
    R2,
    /// General purpose register 3
    R3,
    /// General purpose register 4
    R4,
    /// General purpose register 5
    R5,
    /// General purpose register 6
    R6,
    /// General purpose register 7
    R7,
    /// Stack position pointer
    SP,
    /// Stack base pointer
    BP,
}

/// Represents a place a value can come from: a register, a memory address,
/// a pointer to memory stored in a register, or a literal value.
#[derive(PartialEq, Eq, Structural, Debug, Copy, Clone)]
pub enum Address {
    /// A register named outright, like R1.
    RegAbs(Register),
    /// A memory address named outright, like 0x10.
    MemAbs(Word),
    /// A memory address stored in a register.  This serves as one level of
    /// indirection; for multiple indirection, multiple instructions must
    /// be used.
    MemReg(Register),
    /// A literal value.  Writing to a literal value is a fault.
    Literal(Word),
}

/// Possible instructions for the machine to execute.
/// For each instruction, the first operand is a, the second is b.
#[derive(PartialEq, Eq, Structural, Debug, Copy, Clone)]
pub enum Instruction {
    /// Increment IP.
    NoOp,
    /// Set a equal to 0
    Zero(Address),
    /// Set b equal to a
    Move(Address, Address),
    /// Push a onto the output
    Output(Address),
    /// Pop from the input into a
    Input(Address),
    /// Add the unsigned b to a, storing the result in a
    Add(Address, Address),
    /// Subtract the unsigned b from a, storing the result in a
    Sub(Address, Address),
    /// Unconditionally jump to the position given by a
    Jump(Address),
    /// Jump to a if the value at b is 0
    JumpIfZero(Address, Address),
    /// Jump to a if the value at b is NOT zero
    JumpNotZero(Address, Address),
    /// Push a to the stack
    Push(Address),
    /// Pop a value from the stack into the given address
    Pop(Address),
    /// Gracefully shut down the machine
    Halt,
    /// An illegal instruction.  Executing this is a Fault.
    Illegal,
}

} // verus!
