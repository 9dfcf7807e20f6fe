use brainfuck::{compile, Action, Event, Instruction, RuntimeIOError, Vm, TAPE_LENGTH};

/// Drives a machine to its end, with `input` as the source and a vector as
/// the sink. Hands back what was written and how often the sink was flushed.
fn drive(vm: &mut Vm, input: &[u8]) -> Result<(Vec<u8>, usize), RuntimeIOError> {
    let mut written = Vec::new();
    let mut flushes = 0;
    let mut source = input.iter();
    loop {
        match vm.start(64) {
            Action::Halt => return Ok((written, flushes)),
            Action::Resume => {}
            Action::Write(byte) => {
                written.push(byte);
                vm.execute(Event::Done)?;
            }
            Action::Flush => {
                flushes += 1;
                vm.execute(Event::Done)?;
            }
            Action::Read => match source.next() {
                Some(byte) => vm.execute(Event::Byte(*byte))?,
                None => vm.execute(Event::Failed)?,
            },
        }
    }
}

fn run(source: &str, input: &[u8]) -> Result<Vec<u8>, RuntimeIOError> {
    let mut vm = Vm::new(compile(source).unwrap());
    drive(&mut vm, input).map(|(written, _)| written)
}

#[test]
fn a_new_machine_is_at_the_start_with_a_zero_cell() {
    let vm = Vm::new(vec![Instruction::Increment(1)]);
    assert_eq!(vm.current_cell(), 0);
    assert_eq!(vm.memory_pointer(), 0);
    assert_eq!(vm.instruction_pointer(), 0);
    assert_eq!(vm.pending(), Action::Resume);
}

#[test]
fn an_empty_program_halts_at_once() {
    let mut vm = Vm::new(vec![]);
    assert_eq!(vm.pending(), Action::Halt);
    assert_eq!(vm.start(10), Action::Halt);
    assert_eq!(vm.execute(Event::Idle), Ok(()));
    assert_eq!(vm.instruction_pointer(), 0);
}

#[test]
fn decrement_of_zero_wraps_to_255() {
    let mut vm = Vm::new(vec![Instruction::Decrement(1)]);
    assert_eq!(vm.execute(Event::Idle), Ok(()));
    assert_eq!(vm.current_cell(), 255);
    assert_eq!(vm.instruction_pointer(), 1);
}

#[test]
fn increment_of_255_wraps_to_zero() {
    let mut vm = Vm::new(vec![Instruction::Increment(255), Instruction::Increment(1)]);
    assert_eq!(vm.start(1), Action::Resume);
    assert_eq!(vm.current_cell(), 255);
    assert_eq!(vm.start(1), Action::Halt);
    assert_eq!(vm.current_cell(), 0);
}

#[test]
fn counts_are_taken_modulo_256() {
    let mut vm = Vm::new(vec![Instruction::Increment(256 + 7), Instruction::Decrement(512 + 9)]);
    assert_eq!(vm.start(1), Action::Resume);
    assert_eq!(vm.current_cell(), 7);
    assert_eq!(vm.start(1), Action::Halt);
    assert_eq!(vm.current_cell(), 254);
}

#[test]
fn shift_left_from_zero_wraps_to_the_last_cell() {
    let mut vm = Vm::new(vec![Instruction::ShiftLeft(1)]);
    assert_eq!(vm.execute(Event::Idle), Ok(()));
    assert_eq!(vm.memory_pointer(), TAPE_LENGTH - 1);
}

#[test]
fn shift_right_from_the_last_cell_wraps_to_zero() {
    let mut vm = Vm::new(vec![Instruction::ShiftRight(TAPE_LENGTH - 1), Instruction::ShiftRight(1)]);
    assert_eq!(vm.start(1), Action::Resume);
    assert_eq!(vm.memory_pointer(), TAPE_LENGTH - 1);
    assert_eq!(vm.start(1), Action::Halt);
    assert_eq!(vm.memory_pointer(), 0);
}

#[test]
fn shifts_are_taken_modulo_the_tape_length() {
    let mut vm = Vm::new(vec![
        Instruction::ShiftRight(2 * TAPE_LENGTH + 5),
        Instruction::ShiftLeft(3 * TAPE_LENGTH + 7),
    ]);
    assert_eq!(vm.start(1), Action::Resume);
    assert_eq!(vm.memory_pointer(), 5);
    assert_eq!(vm.start(1), Action::Halt);
    assert_eq!(vm.memory_pointer(), TAPE_LENGTH - 2);
}

#[test]
fn the_tape_has_30000_cells() {
    assert_eq!(TAPE_LENGTH, 30000);
}

#[test]
fn clear_loop_leaves_the_cell_at_zero() {
    let mut vm = Vm::new(compile("+[-]").unwrap());
    assert_eq!(drive(&mut vm, &[]), Ok((vec![], 0)));
    assert_eq!(vm.current_cell(), 0);
    assert_eq!(vm.instruction_pointer(), 4);
}

#[test]
fn a_taken_jump_if_zero_lands_past_the_close() {
    let program = vec![
        Instruction::JumpIfZero(2),
        Instruction::Increment(1),
        Instruction::JumpIfNonZero(0),
        Instruction::Decrement(1),
    ];
    let mut vm = Vm::new(program);
    assert_eq!(vm.execute(Event::Idle), Ok(()));
    assert_eq!(vm.instruction_pointer(), 3);
    assert_eq!(vm.current_cell(), 0);
}

#[test]
fn a_taken_jump_if_non_zero_lands_on_the_body() {
    let program = vec![
        Instruction::Increment(2),
        Instruction::JumpIfZero(3),
        Instruction::Decrement(1),
        Instruction::JumpIfNonZero(1),
    ];
    let mut vm = Vm::new(program);
    assert_eq!(vm.start(4), Action::Resume);
    assert_eq!(vm.instruction_pointer(), 2);
    assert_eq!(vm.current_cell(), 1);
    assert_eq!(vm.start(2), Action::Halt);
    assert_eq!(vm.instruction_pointer(), 4);
    assert_eq!(vm.current_cell(), 0);
}

#[test]
fn a_jump_out_of_the_program_halts() {
    let mut vm = Vm::new(vec![Instruction::JumpIfZero(usize::MAX), Instruction::Increment(1)]);
    assert_eq!(vm.start(5), Action::Halt);
    assert_eq!(vm.current_cell(), 0);
    assert_eq!(vm.instruction_pointer(), 2);
}

#[test]
fn hello_world() {
    let source = "++++++++[>++++[>++>+++>+++>+<<<<-]>+>+>->>+[<]<-]>>.>---.+++++++..+++.>>.<-.<.+++.------.--------.>>+.>++.";
    assert_eq!(run(source, &[]), Ok(b"Hello World!\n".to_vec()));
}

#[test]
fn echo_copies_input_to_output() {
    assert_eq!(run(",.,.,.", b"abc"), Ok(b"abc".to_vec()));
    assert_eq!(run(",[.,]", b"hi\0"), Ok(b"hi".to_vec()));
}

#[test]
fn output_writes_the_count_and_flushes_once() {
    let mut vm = Vm::new(compile("+++...").unwrap());
    assert_eq!(drive(&mut vm, &[]), Ok((vec![3, 3, 3], 1)));
}

#[test]
fn output_asks_for_each_write_and_then_the_flush() {
    let mut vm = Vm::new(vec![Instruction::Increment(65), Instruction::Output(2)]);
    assert_eq!(vm.start(10), Action::Write(65));
    assert_eq!(vm.execute(Event::Done), Ok(()));
    assert_eq!(vm.start(10), Action::Write(65));
    assert_eq!(vm.execute(Event::Done), Ok(()));
    assert_eq!(vm.start(10), Action::Flush);
    assert_eq!(vm.instruction_pointer(), 1);
    assert_eq!(vm.execute(Event::Done), Ok(()));
    assert_eq!(vm.instruction_pointer(), 2);
    assert_eq!(vm.start(10), Action::Halt);
}

#[test]
fn input_keeps_the_last_byte_of_its_run() {
    let mut vm = Vm::new(compile(",,,").unwrap());
    assert_eq!(drive(&mut vm, b"xyz"), Ok((vec![], 0)));
    assert_eq!(vm.current_cell(), b'z');
}

#[test]
fn input_asks_for_each_read() {
    let mut vm = Vm::new(vec![Instruction::Input(2)]);
    assert_eq!(vm.start(10), Action::Read);
    assert_eq!(vm.execute(Event::Byte(7)), Ok(()));
    assert_eq!(vm.current_cell(), 7);
    assert_eq!(vm.start(0), Action::Read);
    assert_eq!(vm.execute(Event::Byte(9)), Ok(()));
    assert_eq!(vm.current_cell(), 9);
    assert_eq!(vm.instruction_pointer(), 0);
    assert_eq!(vm.start(10), Action::Halt);
    assert_eq!(vm.instruction_pointer(), 1);
}

#[test]
fn end_of_input_fails_the_run() {
    assert_eq!(run(",", &[]), Err(RuntimeIOError::ReadFailed));
    assert_eq!(run(",,", b"a"), Err(RuntimeIOError::ReadFailed));
}

#[test]
fn a_failed_read_leaves_the_machine_as_it_was() {
    let mut vm = Vm::new(compile("+++,").unwrap());
    assert_eq!(vm.start(10), Action::Read);
    assert_eq!(vm.execute(Event::Failed), Err(RuntimeIOError::ReadFailed));
    assert_eq!(vm.current_cell(), 3);
    assert_eq!(vm.instruction_pointer(), 1);
    assert_eq!(vm.pending(), Action::Read);
}

#[test]
fn a_failed_write_fails_the_run() {
    let mut vm = Vm::new(compile(".").unwrap());
    assert_eq!(vm.start(10), Action::Write(0));
    assert_eq!(vm.execute(Event::Failed), Err(RuntimeIOError::WriteFailed));
    assert_eq!(vm.pending(), Action::Write(0));
}

#[test]
fn a_failed_flush_fails_the_run() {
    let mut vm = Vm::new(compile(".").unwrap());
    assert_eq!(vm.start(10), Action::Write(0));
    assert_eq!(vm.execute(Event::Done), Ok(()));
    assert_eq!(vm.start(10), Action::Flush);
    assert_eq!(vm.execute(Event::Failed), Err(RuntimeIOError::WriteFailed));
    assert_eq!(vm.instruction_pointer(), 0);
}

#[test]
fn a_report_of_the_wrong_kind_fails_the_run() {
    let mut vm = Vm::new(compile(",").unwrap());
    assert_eq!(vm.execute(Event::Done), Err(RuntimeIOError::ReadFailed));
    assert_eq!(vm.execute(Event::Idle), Err(RuntimeIOError::ReadFailed));
    let mut vm = Vm::new(compile(".").unwrap());
    assert_eq!(vm.execute(Event::Byte(1)), Err(RuntimeIOError::WriteFailed));
    assert_eq!(vm.execute(Event::Idle), Err(RuntimeIOError::WriteFailed));
}

#[test]
fn fuel_bounds_an_endless_loop() {
    let mut vm = Vm::new(compile("+[]").unwrap());
    assert_eq!(vm.start(1000), Action::Resume);
    assert_eq!(vm.start(1001), Action::Resume);
    assert_eq!(vm.current_cell(), 1);
}

#[test]
fn no_fuel_no_step() {
    let mut vm = Vm::new(compile("+").unwrap());
    assert_eq!(vm.start(0), Action::Resume);
    assert_eq!(vm.current_cell(), 0);
    assert_eq!(vm.instruction_pointer(), 0);
}

#[test]
fn fuel_in_parts_runs_as_fuel_at_once() {
    let source = "++++[>+++<-]>";
    let mut whole = Vm::new(compile(source).unwrap());
    let mut parts = Vm::new(compile(source).unwrap());
    whole.start(17);
    parts.start(5);
    parts.start(12);
    assert_eq!(whole.instruction_pointer(), parts.instruction_pointer());
    assert_eq!(whole.memory_pointer(), parts.memory_pointer());
    assert_eq!(whole.current_cell(), parts.current_cell());
}

#[test]
fn multiplication_by_a_loop() {
    let mut vm = Vm::new(compile("++++[>+++<-]>").unwrap());
    assert_eq!(drive(&mut vm, &[]), Ok((vec![], 0)));
    assert_eq!(vm.memory_pointer(), 1);
    assert_eq!(vm.current_cell(), 12);
}

#[test]
fn the_memory_pointer_stays_on_the_tape() {
    let mut vm = Vm::new(compile("<<<>>>>>><<<<<<<<<").unwrap());
    loop {
        assert!(vm.memory_pointer() < TAPE_LENGTH);
        if vm.start(1) == Action::Halt {
            break;
        }
    }
    assert_eq!(vm.memory_pointer(), TAPE_LENGTH - 6);
}

#[test]
fn a_halted_machine_stays_as_it_is() {
    let mut vm = Vm::new(compile("+++>").unwrap());
    assert_eq!(vm.start(10), Action::Halt);
    assert_eq!(vm.start(10), Action::Halt);
    assert_eq!(vm.execute(Event::Done), Ok(()));
    assert_eq!(vm.instruction_pointer(), 2);
    assert_eq!(vm.memory_pointer(), 1);
    assert_eq!(vm.current_cell(), 0);
}

#[test]
fn a_machine_that_waits_does_not_move_on_fuel() {
    let mut vm = Vm::new(compile("+.+").unwrap());
    assert_eq!(vm.start(10), Action::Write(1));
    assert_eq!(vm.start(10), Action::Write(1));
    assert_eq!(vm.instruction_pointer(), 1);
    assert_eq!(vm.current_cell(), 1);
}

#[test]
fn cells_keep_their_values_apart() {
    let mut vm = Vm::new(compile("+++>++<").unwrap());
    assert_eq!(vm.start(10), Action::Halt);
    assert_eq!(vm.memory_pointer(), 0);
    assert_eq!(vm.current_cell(), 3);
}
