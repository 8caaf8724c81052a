use vstd::prelude::*;

pub mod annotate;
pub mod fusion;
pub mod instruction;
pub mod machine;
pub mod optimize;
pub mod parse;

pub use annotate::annotate;
pub use instruction::Instruction;
pub use machine::{ExecutionOutput, Fault, VirtualMachine};
pub use optimize::{colapse_adds, colapse_moves, optimize};
pub use parse::{link_jumps, parse, tokenize, ProgramError};

verus! {

} // verus!
