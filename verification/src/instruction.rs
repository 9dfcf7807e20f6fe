use vstd::prelude::*;

verus! {

/// One operation of the virtual machine.
///
/// The first six variants carry the length of the run of identical source
/// characters that they stand for. The two jumps carry the index, within the
/// same program, of the instruction they are paired with.
#[derive(Clone, Copy, Debug, PartialEq, Eq, Structural)]
pub enum Instruction {
    /// Add the count to the current cell, modulo 256.
    Increment(usize),
    /// Subtract the count from the current cell, modulo 256.
    Decrement(usize),
    /// Move the memory pointer right by the count, around the tape.
    ShiftRight(usize),
    /// Move the memory pointer left by the count, around the tape.
    ShiftLeft(usize),
    /// Read the count's worth of bytes into the current cell, one after another.
    Input(usize),
    /// Write the current cell the count's worth of times, then flush.
    Output(usize),
    /// Opens a loop: jump to the paired close if the current cell is zero.
    JumpIfZero(usize),
    /// Closes a loop: jump to the paired open if the current cell is not zero.
    JumpIfNonZero(usize),
}

impl Instruction {
    /// The number an instruction carries: the count of a counted
    /// instruction, the target of a jump.
    pub open spec fn payload(self) -> usize {
        match self {
            Instruction::Increment(n) => n,
            Instruction::Decrement(n) => n,
            Instruction::ShiftRight(n) => n,
            Instruction::ShiftLeft(n) => n,
            Instruction::Input(n) => n,
            Instruction::Output(n) => n,
            Instruction::JumpIfZero(t) => t,
            Instruction::JumpIfNonZero(t) => t,
        }
    }

    /// Whether this is one of the two jumps.
    pub open spec fn is_jump(self) -> bool {
        self is JumpIfZero || self is JumpIfNonZero
    }
}

/// Every jump of `program` names an index of `program`.
pub open spec fn targets_in_range(program: Seq<Instruction>) -> bool {
    forall|i: int|
        0 <= i < program.len() && (#[trigger] program[i]).is_jump() ==> program[i].payload()
            < program.len()
}

/// What holds of every program that the compiler gives out: counts are
/// positive, each jump names its partner, which names it back, and no two
/// loops overlap without one lying inside the other.
pub open spec fn well_formed(program: Seq<Instruction>) -> bool {
    &&& forall|i: int|
        0 <= i < program.len() && !(#[trigger] program[i]).is_jump() ==> program[i].payload() >= 1
    &&& forall|i: int|
        0 <= i < program.len() ==> (#[trigger] program[i] matches Instruction::JumpIfZero(t) ==> i
            < t < program.len() && program[t as int] == Instruction::JumpIfNonZero(i as usize))
    &&& forall|j: int|
        0 <= j < program.len() ==> (#[trigger] program[j] matches Instruction::JumpIfNonZero(t)
            ==> t < j && program[t as int] == Instruction::JumpIfZero(j as usize))
    &&& forall|i: int, j: int|
        0 <= i < j < program.len() ==> (#[trigger] program[i] matches Instruction::JumpIfZero(t)
            ==> (#[trigger] program[j] matches Instruction::JumpIfZero(u) ==> j < t ==> u < t))
}

} // verus!
