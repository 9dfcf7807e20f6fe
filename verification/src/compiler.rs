use vstd::prelude::*;
use crate::error::SyntaxError;
use crate::instruction::{well_formed, Instruction};
use crate::structure::{bounded, lemma_scan_holds, lemma_scan_refused};

verus! {

/// A `[` that has been scanned and not yet closed: where its jump stands in
/// the output, and where the bracket stands in the text.
#[derive(Clone, Copy, Debug, PartialEq, Eq, Structural)]
pub struct OpenLoop {
    pub index: usize,
    pub line: usize,
    pub column: usize,
}

/// What the compiler knows after reading a prefix of the source text.
pub struct ScanState {
    /// The instructions emitted so far.
    pub output: Seq<Instruction>,
    /// The loops that are still open, innermost last.
    pub loops: Seq<OpenLoop>,
    /// The line of the next character, counted from 1.
    pub line: nat,
    /// How many characters of the current line have been read.
    pub column: nat,
}

/// Whether `c` is one of the six characters whose repetitions fold into one
/// counted instruction.
pub open spec fn is_counted(c: char) -> bool {
    c == '+' || c == '-' || c == '>' || c == '<' || c == ',' || c == '.'
}

/// The instruction that stands for `count` repetitions of the counted
/// character `c`.
pub open spec fn run_of(c: char, count: usize) -> Instruction {
    if c == '+' {
        Instruction::Increment(count)
    } else if c == '-' {
        Instruction::Decrement(count)
    } else if c == '>' {
        Instruction::ShiftRight(count)
    } else if c == '<' {
        Instruction::ShiftLeft(count)
    } else if c == ',' {
        Instruction::Input(count)
    } else {
        Instruction::Output(count)
    }
}

/// Whether `instruction` is a run of the counted character `c`.
pub open spec fn is_run_of(c: char, instruction: Instruction) -> bool {
    is_counted(c) && instruction == run_of(c, instruction.payload())
}

/// The output after one more counted character `c`: the last instruction
/// grows by one if it is a run of `c`, else a new run of length 1 begins.
pub open spec fn fold(output: Seq<Instruction>, c: char) -> Seq<Instruction> {
    if output.len() > 0 && is_run_of(c, output.last()) {
        output.update(output.len() - 1, run_of(c, (output.last().payload() + 1) as usize))
    } else {
        output.push(run_of(c, 1))
    }
}

/// The state before anything has been read.
pub open spec fn initial_state() -> ScanState {
    ScanState { output: Seq::empty(), loops: Seq::empty(), line: 1, column: 0 }
}

/// The state after reading the character `c` in state `state`, or the error
/// that `c` causes there.
///
/// A `]` whose `[` stands at index 0 of the output closes a loop that can
/// never run, since every cell is zero when the program starts: the loop is
/// dropped, and the output is empty again.
pub open spec fn scan_one(state: ScanState, c: char) -> Result<ScanState, SyntaxError> {
    let column: nat = state.column + 1;
    if is_counted(c) {
        Ok(ScanState { output: fold(state.output, c), column, ..state })
    } else if c == '[' {
        let index: usize = state.output.len() as usize;
        Ok(
            ScanState {
                output: state.output.push(Instruction::JumpIfZero(index)),
                loops: state.loops.push(
                    OpenLoop { index, line: state.line as usize, column: column as usize },
                ),
                column,
                ..state
            },
        )
    } else if c == ']' {
        if state.loops.len() == 0 {
            Err(
                SyntaxError::UnbalancedClose {
                    line: state.line as usize,
                    column: column as usize,
                },
            )
        } else if state.loops.last().index == 0 {
            Ok(ScanState { output: Seq::empty(), loops: Seq::empty(), column, ..state })
        } else {
            let open: usize = state.loops.last().index;
            let close: usize = state.output.len() as usize;
            Ok(
                ScanState {
                    output: state.output.update(open as int, Instruction::JumpIfZero(close)).push(
                        Instruction::JumpIfNonZero(open),
                    ),
                    loops: state.loops.drop_last(),
                    column,
                    ..state
                },
            )
        }
    } else if c == '\n' {
        Ok(ScanState { line: state.line + 1, column: 0, ..state })
    } else {
        Ok(ScanState { column, ..state })
    }
}

/// The state after reading all of `source` from the initial state, or the
/// first error on the way.
pub open spec fn scan(source: Seq<char>) -> Result<ScanState, SyntaxError>
    decreases source.len(),
{
    if source.len() == 0 {
        Ok(initial_state())
    } else {
        match scan(source.drop_last()) {
            Ok(state) => scan_one(state, source.last()),
            Err(error) => Err(error),
        }
    }
}

/// The program that `source` compiles to, or the error it is refused with.
pub open spec fn compiled(source: Seq<char>) -> Result<Seq<Instruction>, SyntaxError> {
    match scan(source) {
        Ok(state) => if state.loops.len() == 0 {
            Ok(state.output)
        } else {
            Err(
                SyntaxError::UnterminatedOpen {
                    line: state.loops.last().line,
                    column: state.loops.last().column,
                },
            )
        },
        Err(error) => Err(error),
    }
}

/// A text has at most as many characters as its encoding has bytes.
proof fn lemma_chars_within_bytes(chars: Seq<char>)
    ensures
        chars.len() <= vstd::utf8::encode_utf8(chars).len(),
    decreases chars.len(),
{
    if chars.len() > 0 {
        lemma_chars_within_bytes(chars.drop_first());
    }
}

/// The instruction that the counted character `c` leaves in place of `last`,
/// if `last` is a run of `c`.
fn grown(c: char, last: Instruction) -> (result: Option<Instruction>)
    requires
        is_counted(c),
        last.payload() < usize::MAX,
    ensures
        result == if is_run_of(c, last) {
            Some(run_of(c, (last.payload() + 1) as usize))
        } else {
            None
        },
{
    match (c, last) {
        ('+', Instruction::Increment(n)) => Some(Instruction::Increment(n + 1)),
        ('-', Instruction::Decrement(n)) => Some(Instruction::Decrement(n + 1)),
        ('>', Instruction::ShiftRight(n)) => Some(Instruction::ShiftRight(n + 1)),
        ('<', Instruction::ShiftLeft(n)) => Some(Instruction::ShiftLeft(n + 1)),
        (',', Instruction::Input(n)) => Some(Instruction::Input(n + 1)),
        ('.', Instruction::Output(n)) => Some(Instruction::Output(n + 1)),
        _ => None,
    }
}

/// A run of length 1 of the counted character `c`.
fn single(c: char) -> (result: Instruction)
    requires
        is_counted(c),
    ensures
        result == run_of(c, 1),
{
    match c {
        '+' => Instruction::Increment(1),
        '-' => Instruction::Decrement(1),
        '>' => Instruction::ShiftRight(1),
        '<' => Instruction::ShiftLeft(1),
        ',' => Instruction::Input(1),
        _ => Instruction::Output(1),
    }
}

/// The compiler's working state while it reads a text.
struct Scanner {
    output: Vec<Instruction>,
    loops: Vec<OpenLoop>,
    /// How many line ends have been read: one less than the current line.
    newlines: usize,
    column: usize,
}

impl View for Scanner {
    type V = ScanState;

    closed spec fn view(&self) -> ScanState {
        ScanState {
            output: self.output@,
            loops: self.loops@,
            line: (self.newlines + 1) as nat,
            column: self.column as nat,
        }
    }
}

impl Scanner {
    fn new() -> (scanner: Scanner)
        ensures
            scanner@ == initial_state(),
    {
        Scanner { output: Vec::new(), loops: Vec::new(), newlines: 0, column: 0 }
    }

    /// Reads a counted character.
    fn count(&mut self, c: char, Ghost(read): Ghost<nat>)
        requires
            is_counted(c),
            bounded(old(self)@, read),
            read < usize::MAX,
        ensures
            scan_one(old(self)@, c) == Ok::<ScanState, SyntaxError>(final(self)@),
    {
        self.column = self.column + 1;
        let length: usize = self.output.len();
        let folded = if length > 0 {
            grown(c, self.output[length - 1])
        } else {
            None
        };
        match folded {
            Some(instruction) => {
                self.output[length - 1] = instruction;
            },
            None => {
                self.output.push(single(c));
            },
        }
    }

    /// Reads a `[`.
    fn open(&mut self, Ghost(read): Ghost<nat>)
        requires
            bounded(old(self)@, read),
            read < usize::MAX,
        ensures
            scan_one(old(self)@, '[') == Ok::<ScanState, SyntaxError>(final(self)@),
    {
        self.column = self.column + 1;
        let index: usize = self.output.len();
        self.loops.push(OpenLoop { index, line: self.newlines + 1, column: self.column });
        self.output.push(Instruction::JumpIfZero(index));
    }

    /// Reads a `]`.
    fn close(&mut self, Ghost(read): Ghost<nat>) -> (result: Result<(), SyntaxError>)
        requires
            bounded(old(self)@, read),
            read < usize::MAX,
        ensures
            match result {
                Ok(_) => scan_one(old(self)@, ']') == Ok::<ScanState, SyntaxError>(final(self)@),
                Err(error) => scan_one(old(self)@, ']') == Err::<ScanState, SyntaxError>(error),
            },
    {
        self.column = self.column + 1;
        match self.loops.pop() {
            None => Err(
                SyntaxError::UnbalancedClose { line: self.newlines + 1, column: self.column },
            ),
            Some(open) => {
                if open.index == 0 {
                    self.loops.clear();
                    self.output.clear();
                } else {
                    let close: usize = self.output.len();
                    self.output[open.index] = Instruction::JumpIfZero(close);
                    self.output.push(Instruction::JumpIfNonZero(open.index));
                }
                Ok(())
            },
        }
    }

    /// Reads any character.
    fn read(&mut self, c: char, Ghost(read): Ghost<nat>) -> (result: Result<(), SyntaxError>)
        requires
            bounded(old(self)@, read),
            read < usize::MAX,
        ensures
            match result {
                Ok(_) => scan_one(old(self)@, c) == Ok::<ScanState, SyntaxError>(final(self)@),
                Err(error) => scan_one(old(self)@, c) == Err::<ScanState, SyntaxError>(error),
            },
    {
        if c == '+' || c == '-' || c == '>' || c == '<' || c == ',' || c == '.' {
            self.count(c, Ghost(read));
            Ok(())
        } else if c == '[' {
            self.open(Ghost(read));
            Ok(())
        } else if c == ']' {
            self.close(Ghost(read))
        } else if c == '\n' {
            self.newlines = self.newlines + 1;
            self.column = 0;
            Ok(())
        } else {
            self.column = self.column + 1;
            Ok(())
        }
    }

    /// What the text read so far compiles to, if it ends here.
    fn finish(self) -> (result: Result<Vec<Instruction>, SyntaxError>)
        ensures
            result == if self@.loops.len() == 0 {
                Ok::<Vec<Instruction>, SyntaxError>(self.output)
            } else {
                Err::<Vec<Instruction>, SyntaxError>(
                    SyntaxError::UnterminatedOpen {
                        line: self@.loops.last().line,
                        column: self@.loops.last().column,
                    },
                )
            },
            self@.output == self.output@,
    {
        if self.loops.len() == 0 {
            Ok(self.output)
        } else {
            let open = self.loops[self.loops.len() - 1];
            Err(SyntaxError::UnterminatedOpen { line: open.line, column: open.column })
        }
    }
}

/// Compiles `source` into a program, or says where its brackets fail to
/// match.
///
/// Runs of `+`, `-`, `>`, `<`, `,` and `.` become one instruction each, `[`
/// and `]` become a pair of jumps that name each other, and every other
/// character is a comment. Input and output fold as the arithmetic does: a
/// run of `,` reads that many bytes, of which the last stays in the cell. A
/// loop that opens before any instruction has been emitted is dropped when
/// it closes.
pub fn compile(source: &str) -> (result: Result<Vec<Instruction>, SyntaxError>)
    ensures
        match result {
            Ok(program) => compiled(source@) == Ok::<Seq<Instruction>, SyntaxError>(program@),
            Err(error) => compiled(source@) == Err::<Seq<Instruction>, SyntaxError>(error),
        },
        result matches Ok(program) ==> well_formed(program@),
{
    // The text's bytes are a slice, and so bound its length in characters.
    let bytes = source.as_bytes();
    proof {
        lemma_chars_within_bytes(source@);
        assert(vstd::slice::spec_slice_len(bytes) == bytes@.len());
    }
    let mut scanner = Scanner::new();
    assert(source@.take(0) =~= Seq::<char>::empty());
    for c in it: source.chars()
        invariant
            it.seq() == source@,
            source@.len() <= usize::MAX,
            scan(source@.take(it.index())) == Ok::<ScanState, SyntaxError>(scanner@),
    {
        let ghost read = it.index();
        proof {
            lemma_scan_holds(source@.take(read));
            assert(source@.take(read + 1).drop_last() =~= source@.take(read));
            assert(source@.take(read + 1).last() == c);
        }
        match scanner.read(c, Ghost(read as nat)) {
            Ok(_) => {},
            Err(error) => {
                proof {
                    lemma_scan_refused(source@, read + 1);
                }
                return Err(error);
            },
        }
    }
    proof {
        assert(source@.take(source@.len() as int) =~= source@);
        lemma_scan_holds(source@);
    }
    scanner.finish()
}

} // verus!
