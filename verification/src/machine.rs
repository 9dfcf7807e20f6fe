use vstd::prelude::*;
use crate::error::RuntimeIOError;
use crate::instruction::Instruction;

verus! {

/// The number of cells on the tape.
pub const TAPE_LENGTH: usize = 30000;

/// What the machine needs next from whoever drives it.
#[derive(Clone, Copy, Debug, PartialEq, Eq, Structural)]
pub enum Action {
    /// The instruction pointer is past the end: the run is over.
    Halt,
    /// The current instruction needs nothing from outside.
    Resume,
    /// Write this byte to the output sink.
    Write(u8),
    /// Flush the output sink.
    Flush,
    /// Read one byte from the input source.
    Read,
}

/// What whoever drives the machine reports back to it.
#[derive(Clone, Copy, Debug, PartialEq, Eq, Structural)]
pub enum Event {
    /// Nothing was asked for, and nothing happened.
    Idle,
    /// The write or the flush that was asked for has been carried out.
    Done,
    /// The read that was asked for gave this byte.
    Byte(u8),
    /// What was asked for could not be carried out.
    Failed,
}

/// The state of a virtual machine, as mathematics sees it.
pub struct Machine {
    /// The program being run. It never changes.
    pub program: Seq<Instruction>,
    /// The tape.
    pub memory: Seq<u8>,
    /// The memory pointer: the index of the current cell.
    pub mp: int,
    /// The instruction pointer: the index of the current instruction.
    pub ip: int,
    /// How many of the repetitions of the current input or output
    /// instruction have been carried out already.
    pub done: int,
}

impl Machine {
    /// The ranges that a machine's parts stay in.
    pub open spec fn valid(self) -> bool {
        &&& self.memory.len() == TAPE_LENGTH
        &&& 0 <= self.mp < TAPE_LENGTH
        &&& 0 <= self.ip <= self.program.len()
        &&& 0 <= self.done
    }

    /// Whether the run is over.
    pub open spec fn halted(self) -> bool {
        self.ip >= self.program.len()
    }

    /// The value of the current cell.
    pub open spec fn cell(self) -> u8 {
        self.memory[self.mp]
    }

    /// The machine with `value` in the current cell.
    pub open spec fn store(self, value: u8) -> Machine {
        Machine { memory: self.memory.update(self.mp, value), ..self }
    }

    /// The machine at the instruction with index `ip`, none of whose
    /// repetitions has been carried out.
    pub open spec fn at(self, ip: int) -> Machine {
        Machine { ip, done: 0, ..self }
    }

    /// Where a jump to `target` leaves the instruction pointer: one past the
    /// target. A target outside the program ends the run, as one past it is
    /// no instruction either.
    pub open spec fn landing(self, target: usize) -> int {
        if target < self.program.len() {
            target + 1
        } else {
            self.program.len() as int
        }
    }
}

/// The machine that is about to run `program`: every cell zero, both
/// pointers at the start.
pub open spec fn initial(program: Seq<Instruction>) -> Machine {
    Machine { program, memory: Seq::new(TAPE_LENGTH as nat, |i: int| 0u8), mp: 0, ip: 0, done: 0 }
}

/// What the machine needs from outside before its next step.
///
/// An `Output(n)` asks for `n` writes of the current cell and then for one
/// flush; an `Input(n)` asks for `n` reads.
pub open spec fn pending(machine: Machine) -> Action {
    if machine.halted() {
        Action::Halt
    } else {
        match machine.program[machine.ip] {
            Instruction::Output(n) => if machine.done < n {
                Action::Write(machine.cell())
            } else {
                Action::Flush
            },
            Instruction::Input(n) => if machine.done < n {
                Action::Read
            } else {
                Action::Resume
            },
            _ => Action::Resume,
        }
    }
}

/// The machine after a step that needs nothing from outside.
///
/// The two jumps overwrite the instruction pointer with their target if
/// their condition holds; every instruction then advances it by one.
pub open spec fn advance(machine: Machine) -> Machine {
    let next: int = machine.ip + 1;
    match machine.program[machine.ip] {
        Instruction::Increment(n) => machine.store(((machine.cell() + n) % 256) as u8).at(next),
        Instruction::Decrement(n) => machine.store(((machine.cell() - n) % 256) as u8).at(next),
        Instruction::ShiftRight(n) => Machine {
            mp: (machine.mp + n) % (TAPE_LENGTH as int),
            ..machine
        }.at(next),
        Instruction::ShiftLeft(n) => Machine {
            mp: (machine.mp - n) % (TAPE_LENGTH as int),
            ..machine
        }.at(next),
        Instruction::JumpIfZero(target) => if machine.cell() == 0 {
            machine.at(machine.landing(target))
        } else {
            machine.at(next)
        },
        Instruction::JumpIfNonZero(target) => if machine.cell() != 0 {
            machine.at(machine.landing(target))
        } else {
            machine.at(next)
        },
        Instruction::Input(_) => machine.at(next),
        Instruction::Output(_) => machine.at(next),
    }
}

/// The machine after one step, given what happened outside, or the error
/// that ends the run.
///
/// A write or a flush counts only when it is reported as `Done`, a read only
/// when it is reported with its byte: any other report fails the run. A step
/// that asked for nothing pays no attention to the report, and a machine
/// that has halted stays as it is.
pub open spec fn step(machine: Machine, event: Event) -> Result<Machine, RuntimeIOError> {
    match pending(machine) {
        Action::Halt => Ok(machine),
        Action::Resume => Ok(advance(machine)),
        Action::Write(_) => if event == Event::Done {
            Ok(Machine { done: machine.done + 1, ..machine })
        } else {
            Err(RuntimeIOError::WriteFailed)
        },
        Action::Flush => if event == Event::Done {
            Ok(advance(machine))
        } else {
            Err(RuntimeIOError::WriteFailed)
        },
        Action::Read => match event {
            Event::Byte(byte) => Ok(Machine { done: machine.done + 1, ..machine.store(byte) }),
            _ => Err(RuntimeIOError::ReadFailed),
        },
    }
}

/// The machine after at most `fuel` steps, stopping early where the next
/// step needs something from outside or the run is over.
pub open spec fn run(machine: Machine, fuel: nat) -> Machine
    decreases fuel,
{
    if fuel == 0 || pending(machine) != Action::Resume {
        machine
    } else {
        run(advance(machine), (fuel - 1) as nat)
    }
}

} // verus!
