use vstd::prelude::*;

verus! {

/// Why a source text could not be compiled. Lines and columns count from 1.
#[derive(Clone, Copy, Debug, PartialEq, Eq, Structural)]
pub enum SyntaxError {
    /// A `]` stands where no loop is open; the position is that of the `]`.
    UnbalancedClose { line: usize, column: usize },
    /// The text ended inside a loop; the position is that of the innermost
    /// `[` that was never closed.
    UnterminatedOpen { line: usize, column: usize },
}

/// Why a run was abandoned. Either failure is final: the machine is not
/// meant to be driven any further.
#[derive(Clone, Copy, Debug, PartialEq, Eq, Structural)]
pub enum RuntimeIOError {
    /// The input source was exhausted or could not be read.
    ReadFailed,
    /// The output sink refused a byte or could not be flushed.
    WriteFailed,
}

} // verus!
