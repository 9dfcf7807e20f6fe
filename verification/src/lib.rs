//! A compiler from Brainfuck source text to a compact instruction sequence,
//! and a virtual machine that runs such a sequence on a tape of byte cells.
//!
//! [`compile`] folds runs of identical operators into counted instructions
//! and pairs up the brackets. [`Vm`] runs the outcome step by step. It does
//! no input or output of its own: it hands out an [`Action`] and takes back
//! an [`Event`].
pub mod brackets;
pub mod compiler;
pub mod error;
pub mod instruction;
pub mod laws;
pub mod machine;
pub mod positions;
pub mod structure;
pub mod vm;

pub use crate::compiler::compile;
pub use crate::error::{RuntimeIOError, SyntaxError};
pub use crate::instruction::Instruction;
pub use crate::machine::{Action, Event, TAPE_LENGTH};
pub use crate::vm::Vm;
