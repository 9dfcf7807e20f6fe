use vstd::prelude::*;
use crate::brackets::{balanced, closes_match, depth, is_operator};
use crate::compiler::{
    compile, compiled, initial_state, is_counted, run_of, scan, scan_one, ScanState,
};
use crate::error::SyntaxError;
use crate::instruction::{well_formed, Instruction};
use crate::machine::{advance, pending, run, step, Action, Event, Machine};
use crate::structure::lemma_scan_holds;

verus! {

/// Every program that comes out of the compiler is well formed: its counts
/// are positive, its jumps name each other, and its loops are nested.
pub proof fn lemma_compiled_is_well_formed(source: Seq<char>)
    requires
        source.len() <= usize::MAX,
    ensures
        compiled(source) matches Ok(program) ==> well_formed(program),
{
    lemma_scan_holds(source);
}

/// A text that is one counted character repeated compiles to one
/// instruction, whose count is the number of repetitions.
pub proof fn lemma_run_compiles_to_one_instruction(c: char, length: nat)
    requires
        is_counted(c),
        1 <= length <= usize::MAX,
    ensures
        compiled(Seq::new(length, |i: int| c)) == Ok::<Seq<Instruction>, SyntaxError>(
            seq![run_of(c, length as usize)],
        ),
    decreases length,
{
    let source = Seq::new(length, |i: int| c);
    let shorter = Seq::new((length - 1) as nat, |i: int| c);
    assert(source.drop_last() =~= shorter);
    assert(source.last() == c);
    lemma_run_scans_to_one_instruction(c, length);
}

/// The state after reading a counted character `length` times.
proof fn lemma_run_scans_to_one_instruction(c: char, length: nat)
    requires
        is_counted(c),
        1 <= length <= usize::MAX,
    ensures
        scan(Seq::new(length, |i: int| c)) == Ok::<ScanState, SyntaxError>(
            ScanState {
                output: seq![run_of(c, length as usize)],
                loops: Seq::empty(),
                line: 1,
                column: length,
            },
        ),
    decreases length,
{
    let source = Seq::new(length, |i: int| c);
    let shorter = Seq::new((length - 1) as nat, |i: int| c);
    assert(source.drop_last() =~= shorter);
    assert(source.last() == c);
    if length == 1 {
        assert(scan(shorter) == Ok::<ScanState, SyntaxError>(initial_state()));
        let next = scan_one(initial_state(), c).unwrap();
        assert(next.output =~= seq![run_of(c, 1)]);
    } else {
        lemma_run_scans_to_one_instruction(c, (length - 1) as nat);
        let before = scan(shorter).unwrap();
        let next = scan_one(before, c).unwrap();
        assert(before.output.last() == run_of(c, (length - 1) as usize));
        assert(next.output =~= seq![run_of(c, length as usize)]);
    }
}

/// Reading comments emits nothing and opens nothing.
proof fn lemma_comments_scan_to_nothing(comments: Seq<char>)
    requires
        forall|i: int| 0 <= i < comments.len() ==> !is_operator(#[trigger] comments[i]),
    ensures
        scan(comments) matches Ok(state) && state.output.len() == 0 && state.loops.len() == 0,
    decreases comments.len(),
{
    if comments.len() > 0 {
        lemma_comments_scan_to_nothing(comments.drop_last());
        assert(!is_operator(comments[comments.len() - 1]));
    }
}

/// While the body of a leading loop is being read, that loop stays open at
/// the bottom, with its jump at index 0.
proof fn lemma_inside_a_leading_loop(comments: Seq<char>, body: Seq<char>, read: int)
    requires
        forall|i: int| 0 <= i < comments.len() ==> !is_operator(#[trigger] comments[i]),
        closes_match(body),
        0 <= read <= body.len(),
        comments.len() + body.len() + 2 <= usize::MAX,
    ensures
        scan(comments.push('[') + body.take(read)) matches Ok(state) && state.loops.len() == 1
            + depth(body.take(read)) && state.loops[0].index == 0 && state.output.len() >= 1,
    decreases read,
{
    let text = comments.push('[') + body.take(read);
    if read == 0 {
        lemma_comments_scan_to_nothing(comments);
        assert(text =~= comments.push('['));
        assert(text.drop_last() =~= comments);
        assert(depth(body.take(0)) == 0);
    } else {
        let shorter = comments.push('[') + body.take(read - 1);
        lemma_inside_a_leading_loop(comments, body, read - 1);
        lemma_scan_holds(shorter);
        assert(text.drop_last() =~= shorter);
        assert(text.last() == body[read - 1]);
        assert(body.take(read).drop_last() =~= body.take(read - 1));
        assert(body.take(read).last() == body[read - 1]);
        assert(depth(body.take(read)) >= 0);
        let state = scan(shorter).unwrap();
        let c = body[read - 1];
        if c == ']' {
            assert(state.loops.len() >= 2);
            assert(state.loops[0].index < state.loops[state.loops.len() - 1].index);
            assert(scan_one(state, c).unwrap().loops[0] == state.loops[0]);
        } else if c == '[' {
            assert(scan_one(state, c).unwrap().loops[0] == state.loops[0]);
        }
    }
}

/// A loop that opens before anything else compiles to nothing, whatever its
/// body holds: a text made of comments, a `[`, a body whose brackets pair
/// up, and the `]` that closes the loop compiles to the empty program.
pub proof fn lemma_leading_loop_compiles_to_nothing(comments: Seq<char>, body: Seq<char>)
    requires
        forall|i: int| 0 <= i < comments.len() ==> !is_operator(#[trigger] comments[i]),
        balanced(body),
        comments.len() + body.len() + 2 <= usize::MAX,
    ensures
        compiled(comments.push('[') + body.push(']')) == Ok::<Seq<Instruction>, SyntaxError>(
            Seq::empty(),
        ),
{
    let text = comments.push('[') + body.push(']');
    let shorter = comments.push('[') + body.take(body.len() as int);
    lemma_inside_a_leading_loop(comments, body, body.len() as int);
    assert(body.take(body.len() as int) =~= body);
    assert(text.drop_last() =~= shorter);
    assert(text.last() == ']');
}

/// Compiling is a function of the text alone: whatever `compile` gives for
/// one text, it gives for an equal text again.
pub proof fn lemma_compile_is_deterministic(
    first_source: &str,
    second_source: &str,
    first: Result<Vec<Instruction>, SyntaxError>,
    second: Result<Vec<Instruction>, SyntaxError>,
)
    requires
        first_source@ == second_source@,
        call_ensures(compile, (first_source,), first),
        call_ensures(compile, (second_source,), second),
    ensures
        first is Ok <==> second is Ok,
        first is Ok ==> first->Ok_0@ == second->Ok_0@,
        first is Err ==> first->Err_0 == second->Err_0,
{
}

/// A step keeps a valid machine valid and its program as it is.
pub proof fn lemma_step_keeps_valid(machine: Machine, event: Event)
    requires
        machine.valid(),
    ensures
        step(machine, event) matches Ok(next) ==> next.valid() && next.program
            == machine.program,
{
}

/// Running keeps a valid machine valid and its program as it is.
pub proof fn lemma_run_keeps_valid(machine: Machine, fuel: nat)
    requires
        machine.valid(),
    ensures
        run(machine, fuel).valid(),
        run(machine, fuel).program == machine.program,
    decreases fuel,
{
    if fuel > 0 && pending(machine) == Action::Resume {
        lemma_step_keeps_valid(machine, Event::Idle);
        lemma_run_keeps_valid(advance(machine), (fuel - 1) as nat);
    }
}

/// Where a run stops with fuel to spare, it stops for good: the machine
/// has halted or needs something from outside, and more fuel changes
/// nothing.
pub proof fn lemma_run_stops_for_a_reason(machine: Machine, fuel: nat, more: nat)
    requires
        pending(run(machine, fuel)) != Action::Resume,
    ensures
        run(machine, fuel + more) == run(machine, fuel),
    decreases fuel,
{
    if fuel > 0 && pending(machine) == Action::Resume {
        lemma_run_stops_for_a_reason(advance(machine), (fuel - 1) as nat, more);
    }
}

/// Fuel may be handed out in parts: running on `first` and then on `second`
/// leads where running on both at once leads.
pub proof fn lemma_run_in_parts(machine: Machine, first: nat, second: nat)
    ensures
        run(run(machine, first), second) == run(machine, first + second),
    decreases first,
{
    if first > 0 && pending(machine) == Action::Resume {
        lemma_run_in_parts(advance(machine), (first - 1) as nat, second);
    } else if first > 0 {
        assert(run(machine, first) == machine);
        assert(run(machine, first + second) == machine);
        assert(run(machine, second) == machine);
    }
}

/// Running is stepping: one unit of fuel is one step that is told that
/// nothing happened outside, as long as the machine asks for nothing.
pub proof fn lemma_run_is_stepping(machine: Machine, fuel: nat)
    requires
        fuel > 0,
        pending(machine) == Action::Resume,
    ensures
        step(machine, Event::Idle) matches Ok(next) && run(machine, fuel) == run(
            next,
            (fuel - 1) as nat,
        ),
{
}

} // verus!
