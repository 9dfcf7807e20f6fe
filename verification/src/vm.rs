use vstd::prelude::*;
use crate::error::RuntimeIOError;
use crate::instruction::Instruction;
use crate::machine::{advance, initial, pending, run, step, Action, Event, Machine, TAPE_LENGTH};

verus! {

/// A virtual machine: a program, a tape of `TAPE_LENGTH` byte cells that
/// start at zero, and the two pointers.
///
/// The machine does no input or output itself. It says what it needs
/// ([`Vm::start`]), and is told what happened ([`Vm::execute`]).
pub struct Vm {
    memory: [u8; TAPE_LENGTH],
    mp: usize,
    ip: usize,
    done: usize,
    program: Vec<Instruction>,
}

impl View for Vm {
    type V = Machine;

    closed spec fn view(&self) -> Machine {
        Machine {
            program: self.program@,
            memory: self.memory@,
            mp: self.mp as int,
            ip: self.ip as int,
            done: self.done as int,
        }
    }
}

/// A cell's value after `count` is added to it, modulo 256.
fn raised(cell: u8, count: usize) -> (value: u8)
    ensures
        value == (cell + count) % 256,
{
    ((cell as usize + count % 256) % 256) as u8
}

/// A cell's value after `count` is subtracted from it, modulo 256.
fn lowered(cell: u8, count: usize) -> (value: u8)
    ensures
        value == (cell - count) % 256,
{
    ((cell as usize + 256 - count % 256) % 256) as u8
}

/// The memory pointer `count` cells to the right of `mp`, around the tape.
fn moved_right(mp: usize, count: usize) -> (moved: usize)
    requires
        mp < TAPE_LENGTH,
    ensures
        moved == (mp + count) % (TAPE_LENGTH as int),
        moved < TAPE_LENGTH,
{
    (mp + count % TAPE_LENGTH) % TAPE_LENGTH
}

/// The memory pointer `count` cells to the left of `mp`, around the tape.
fn moved_left(mp: usize, count: usize) -> (moved: usize)
    requires
        mp < TAPE_LENGTH,
    ensures
        moved == (mp - count) % (TAPE_LENGTH as int),
        moved < TAPE_LENGTH,
{
    (mp + TAPE_LENGTH - count % TAPE_LENGTH) % TAPE_LENGTH
}

impl Vm {
    #[verifier::type_invariant]
    spec fn in_range(&self) -> bool {
        self.mp < TAPE_LENGTH && self.ip <= self.program.len()
    }

    /// Creates a virtual machine that is about to run `program`.
    pub fn new(program: Vec<Instruction>) -> (vm: Vm)
        ensures
            vm@ == initial(program@),
            vm@.valid(),
    {
        let vm = Vm { memory: [0u8;TAPE_LENGTH], mp: 0, ip: 0, done: 0, program };
        assert(vm@.memory =~= initial(program@).memory);
        vm
    }

    /// The value of the current cell.
    pub fn current_cell(&self) -> (value: u8)
        ensures
            value == self@.cell(),
    {
        proof {
            use_type_invariant(self);
        }
        self.memory[self.mp]
    }

    /// The memory pointer.
    pub fn memory_pointer(&self) -> (mp: usize)
        ensures
            mp == self@.mp,
    {
        self.mp
    }

    /// The instruction pointer.
    pub fn instruction_pointer(&self) -> (ip: usize)
        ensures
            ip == self@.ip,
    {
        self.ip
    }

    /// What the machine needs from outside before its next step.
    pub fn pending(&self) -> (action: Action)
        ensures
            action == pending(self@),
    {
        proof {
            use_type_invariant(self);
        }
        if self.ip >= self.program.len() {
            Action::Halt
        } else {
            match self.program[self.ip] {
                Instruction::Output(n) => if self.done < n {
                    Action::Write(self.memory[self.mp])
                } else {
                    Action::Flush
                },
                Instruction::Input(n) => if self.done < n {
                    Action::Read
                } else {
                    Action::Resume
                },
                _ => Action::Resume,
            }
        }
    }

    /// Moves the instruction pointer to `ip`, with none of that instruction's
    /// repetitions carried out.
    fn go_to(&mut self, ip: usize)
        requires
            ip <= old(self)@.program.len(),
        ensures
            final(self)@ == old(self)@.at(ip as int),
    {
        proof {
            use_type_invariant(&*self);
        }
        self.ip = ip;
        self.done = 0;
    }

    /// Where a jump to `target` leaves the instruction pointer.
    fn landing(&self, target: usize) -> (ip: usize)
        ensures
            ip == self@.landing(target),
            ip <= self@.program.len(),
    {
        if target < self.program.len() {
            target + 1
        } else {
            self.program.len()
        }
    }

    /// Puts `value` into the current cell.
    fn store(&mut self, value: u8)
        ensures
            final(self)@ == old(self)@.store(value),
    {
        proof {
            use_type_invariant(&*self);
        }
        self.memory[self.mp] = value;
    }

    /// Moves the memory pointer to `mp`.
    fn point_at(&mut self, mp: usize)
        requires
            mp < TAPE_LENGTH,
        ensures
            final(self)@ == (Machine { mp: mp as int, ..old(self)@ }),
    {
        proof {
            use_type_invariant(&*self);
        }
        self.mp = mp;
    }

    /// Carries out a step that needs nothing from outside.
    fn advance(&mut self)
        requires
            !old(self)@.halted(),
        ensures
            final(self)@ == advance(old(self)@),
    {
        proof {
            use_type_invariant(&*self);
        }
        let next: usize = self.ip + 1;
        let cell: u8 = self.memory[self.mp];
        match self.program[self.ip] {
            Instruction::Increment(n) => {
                self.store(raised(cell, n));
                self.go_to(next);
            },
            Instruction::Decrement(n) => {
                self.store(lowered(cell, n));
                self.go_to(next);
            },
            Instruction::ShiftRight(n) => {
                self.point_at(moved_right(self.mp, n));
                self.go_to(next);
            },
            Instruction::ShiftLeft(n) => {
                self.point_at(moved_left(self.mp, n));
                self.go_to(next);
            },
            Instruction::JumpIfZero(target) => {
                let ip: usize = if cell == 0 {
                    self.landing(target)
                } else {
                    next
                };
                self.go_to(ip);
            },
            Instruction::JumpIfNonZero(target) => {
                let ip: usize = if cell != 0 {
                    self.landing(target)
                } else {
                    next
                };
                self.go_to(ip);
            },
            Instruction::Input(_) => {
                self.go_to(next);
            },
            Instruction::Output(_) => {
                self.go_to(next);
            },
        }
    }

    /// Executes one step: the current instruction, or one repetition of it
    /// where it reads or writes, given what happened outside.
    ///
    /// On an error the machine is left as it was.
    pub fn execute(&mut self, event: Event) -> (result: Result<(), RuntimeIOError>)
        ensures
            match result {
                Ok(_) => step(old(self)@, event) == Ok::<Machine, RuntimeIOError>(final(self)@),
                Err(error) => step(old(self)@, event) == Err::<Machine, RuntimeIOError>(error)
                    && final(self)@ == old(self)@,
            },
            final(self)@.valid(),
    {
        proof {
            use_type_invariant(&*self);
        }
        match self.pending() {
            Action::Halt => Ok(()),
            Action::Resume => {
                self.advance();
                Ok(())
            },
            Action::Write(_) => match event {
                Event::Done => {
                    self.done = self.done + 1;
                    Ok(())
                },
                _ => Err(RuntimeIOError::WriteFailed),
            },
            Action::Flush => match event {
                Event::Done => {
                    self.advance();
                    Ok(())
                },
                _ => Err(RuntimeIOError::WriteFailed),
            },
            Action::Read => match event {
                Event::Byte(byte) => {
                    self.memory[self.mp] = byte;
                    self.done = self.done + 1;
                    Ok(())
                },
                _ => Err(RuntimeIOError::ReadFailed),
            },
        }
    }

    /// Runs the machine for at most `fuel` steps, and stops early where the
    /// next step needs something from outside or the run is over. Says what
    /// the machine needs next: `Resume` if only the fuel ran out.
    pub fn start(&mut self, fuel: usize) -> (action: Action)
        ensures
            final(self)@ == run(old(self)@, fuel as nat),
            action == pending(final(self)@),
            final(self)@.valid(),
    {
        let mut left: usize = fuel;
        let mut action = self.pending();
        while left > 0 && action == Action::Resume
            invariant
                action == pending(self@),
                run(self@, left as nat) == run(old(self)@, fuel as nat),
            decreases left,
        {
            self.advance();
            left = left - 1;
            action = self.pending();
        }
        proof {
            use_type_invariant(&*self);
        }
        action
    }
}

} // verus!
