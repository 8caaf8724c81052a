use vstd::prelude::*;

verus! {

/// One operation of the tape machine.
#[derive(PartialEq, Eq, Structural, Debug, Clone, Copy)]
pub enum Instruction {
    /// Shift the data pointer by the offset (positive is forward).
    Move(isize),
    /// Add the delta to the current cell, modulo 256.
    Add(isize),
    /// Emit the current cell.
    Print,
    /// Reserved: tokenized, but the engine refuses to execute it.
    Read,
    /// Jump to the target when the current cell is zero.
    JumpIfZero(usize),
    /// Jump to the target when the current cell is not zero.
    JumpIfNotZero(usize),
    /// Set the current cell to zero.
    SetZero,
}

} // verus!
