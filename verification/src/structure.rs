use vstd::prelude::*;
use crate::compiler::{fold, is_counted, is_run_of, run_of, scan, scan_one, OpenLoop, ScanState};
use crate::instruction::Instruction;

verus! {

/// Whether one of the open loops has its jump at `index`.
pub open spec fn is_open(loops: Seq<OpenLoop>, index: int) -> bool {
    exists|k: int| 0 <= k < loops.len() && (#[trigger] loops[k]).index == index
}

/// Nothing in a state that was reached by reading `read` characters is
/// larger than `read` allows.
pub open spec fn bounded(state: ScanState, read: nat) -> bool {
    &&& state.column <= read
    &&& 1 <= state.line <= read + 1
    &&& state.output.len() <= read
    &&& forall|i: int|
        0 <= i < state.output.len() ==> (#[trigger] state.output[i]).payload() <= read
    &&& forall|k: int|
        0 <= k < state.loops.len() ==> {
            &&& (#[trigger] state.loops[k]).index < state.output.len()
            &&& 1 <= state.loops[k].line <= read
            &&& 1 <= state.loops[k].column <= read
        }
}

/// How the jumps of the output and the open loops belong together while a
/// text is being read.
pub open spec fn structured(state: ScanState) -> bool {
    let output = state.output;
    let loops = state.loops;
    &&& forall|i: int|
        0 <= i < output.len() && !(#[trigger] output[i]).is_jump() ==> output[i].payload() >= 1
    &&& forall|k: int|
        0 <= k < loops.len() ==> output[(#[trigger] loops[k]).index as int]
            == Instruction::JumpIfZero(loops[k].index)
    &&& forall|j: int, k: int|
        0 <= j < k < loops.len() ==> (#[trigger] loops[j]).index < (#[trigger] loops[k]).index
    &&& forall|i: int|
        0 <= i < output.len() ==> (#[trigger] output[i] matches Instruction::JumpIfZero(t) ==> {
            ||| t == i && is_open(loops, i)
            ||| i < t < output.len() && output[t as int] == Instruction::JumpIfNonZero(i as usize)
        })
    &&& forall|j: int|
        0 <= j < output.len() ==> (#[trigger] output[j] matches Instruction::JumpIfNonZero(t) ==> t
            < j && output[t as int] == Instruction::JumpIfZero(j as usize))
    &&& forall|k: int, j: int|
        0 <= k < loops.len() && 0 <= j < output.len() ==> (
        #[trigger] output[j] matches Instruction::JumpIfNonZero(t) ==> (#[trigger] loops[k]).index
            < j ==> loops[k].index < t)
    &&& forall|i: int, j: int|
        0 <= i < j < output.len() ==> (#[trigger] output[i] matches Instruction::JumpIfZero(t) ==> (
        #[trigger] output[j] matches Instruction::JumpIfZero(u) ==> j < t ==> u < t))
}

/// What holds of every state that the compiler passes through.
pub open spec fn scan_holds(state: ScanState, read: nat) -> bool {
    bounded(state, read) && structured(state)
}

/// A counted character keeps what holds of a state.
proof fn lemma_counted_preserves(state: ScanState, c: char, read: nat)
    requires
        scan_holds(state, read),
        read < usize::MAX,
        is_counted(c),
    ensures
        scan_holds(scan_one(state, c).unwrap(), read + 1),
{
    let next = scan_one(state, c).unwrap();
    let output = state.output;
    assert(next.output == fold(output, c));
    assert(next.loops == state.loops);
    assert(!run_of(c, 1).is_jump());
    if output.len() > 0 && is_run_of(c, output.last()) {
        let grown = run_of(c, (output.last().payload() + 1) as usize);
        assert(!grown.is_jump());
        assert(!output.last().is_jump());
        assert(next.output.len() == output.len());
        assert(forall|i: int| 0 <= i < output.len() - 1 ==> next.output[i] == output[i]);
        assert(next.output[output.len() - 1] == grown);
        assert forall|i: int| 0 <= i < next.output.len() implies (
        #[trigger] next.output[i] matches Instruction::JumpIfZero(t) ==> {
            ||| t == i && is_open(next.loops, i)
            ||| i < t < next.output.len() && next.output[t as int] == Instruction::JumpIfNonZero(
                i as usize,
            )
        }) by {
            if i < output.len() - 1 {
                assert(next.output[i] == output[i]);
            }
        }
        assert(structured(next));
        assert(bounded(next, read + 1));
    } else {
        assert(next.output == output.push(run_of(c, 1)));
        assert(forall|i: int| 0 <= i < output.len() ==> next.output[i] == output[i]);
        assert(structured(next));
        assert(bounded(next, read + 1));
    }
}

/// A `[` keeps what holds of a state.
proof fn lemma_open_preserves(state: ScanState, read: nat)
    requires
        scan_holds(state, read),
        read < usize::MAX,
    ensures
        scan_holds(scan_one(state, '[').unwrap(), read + 1),
{
    let next = scan_one(state, '[').unwrap();
    let output = state.output;
    let loops = state.loops;
    let index: usize = output.len() as usize;
    assert(next.output == output.push(Instruction::JumpIfZero(index)));
    assert(next.loops.len() == loops.len() + 1);
    assert(next.loops.last().index == index);
    assert(forall|i: int| 0 <= i < output.len() ==> next.output[i] == output[i]);
    assert(forall|k: int| 0 <= k < loops.len() ==> next.loops[k] == loops[k]);
    assert forall|i: int| 0 <= i < next.output.len() implies (
    #[trigger] next.output[i] matches Instruction::JumpIfZero(t) ==> {
        ||| t == i && is_open(next.loops, i)
        ||| i < t < next.output.len() && next.output[t as int] == Instruction::JumpIfNonZero(
            i as usize,
        )
    }) by {
        if i < output.len() {
            assert(next.output[i] == output[i]);
            if output[i] is JumpIfZero {
                let t: usize = output[i].payload();
                if t == i {
                    let k = choose|k: int| 0 <= k < loops.len() && (#[trigger] loops[k]).index == i;
                    assert(next.loops[k].index == i);
                }
            }
        } else {
            assert(next.loops[loops.len() as int].index == i);
        }
    }
    assert(structured(next));
    assert(bounded(next, read + 1));
}

/// A `]` that closes a loop keeps what holds of a state.
proof fn lemma_close_preserves(state: ScanState, read: nat)
    requires
        scan_holds(state, read),
        read < usize::MAX,
        state.loops.len() > 0,
    ensures
        scan_holds(scan_one(state, ']').unwrap(), read + 1),
{
    let next = scan_one(state, ']').unwrap();
    let output = state.output;
    let loops = state.loops;
    let open: usize = loops.last().index;
    if open != 0 {
        let close: usize = output.len() as usize;
        assert(next.output == output.update(open as int, Instruction::JumpIfZero(close)).push(
            Instruction::JumpIfNonZero(open),
        ));
        assert(next.loops == loops.drop_last());
        assert(forall|k: int| 0 <= k < next.loops.len() ==> next.loops[k] == loops[k]);
        assert(forall|i: int|
            0 <= i < output.len() && i != open ==> next.output[i] == output[i]);
        assert(next.output[open as int] == Instruction::JumpIfZero(close));
        assert(next.output[close as int] == Instruction::JumpIfNonZero(open));
        assert(output[open as int] == Instruction::JumpIfZero(open));
        assert forall|i: int| 0 <= i < next.output.len() implies (
        #[trigger] next.output[i] matches Instruction::JumpIfZero(t) ==> {
            ||| t == i && is_open(next.loops, i)
            ||| i < t < next.output.len() && next.output[t as int] == Instruction::JumpIfNonZero(
                i as usize,
            )
        }) by {
            if i < output.len() && i != open {
                assert(next.output[i] == output[i]);
                if output[i] is JumpIfZero {
                    let t: usize = output[i].payload();
                    if t == i {
                        let k = choose|k: int|
                            0 <= k < loops.len() && (#[trigger] loops[k]).index == i;
                        assert(k < loops.len() - 1);
                        assert(next.loops[k].index == i);
                    } else {
                        assert(output[t as int] == Instruction::JumpIfNonZero(i as usize));
                        assert(t != open);
                    }
                }
            }
        }
        assert(structured(next));
        assert(bounded(next, read + 1));
    }
}

/// One more character keeps what holds of a state, unless it is refused.
pub proof fn lemma_scan_one_holds(state: ScanState, c: char, read: nat)
    requires
        scan_holds(state, read),
        read < usize::MAX,
    ensures
        scan_one(state, c) matches Ok(next) ==> scan_holds(next, read + 1),
{
    if is_counted(c) {
        lemma_counted_preserves(state, c, read);
    } else if c == '[' {
        lemma_open_preserves(state, read);
    } else if c == ']' {
        if state.loops.len() > 0 {
            lemma_close_preserves(state, read);
        }
    }
}

/// Every state that reading a text leads to is bounded and structured.
pub proof fn lemma_scan_holds(source: Seq<char>)
    requires
        source.len() <= usize::MAX,
    ensures
        scan(source) matches Ok(state) ==> scan_holds(state, source.len()),
    decreases source.len(),
{
    if source.len() > 0 {
        lemma_scan_holds(source.drop_last());
        if let Ok(state) = scan(source.drop_last()) {
            lemma_scan_one_holds(state, source.last(), (source.len() - 1) as nat);
        }
    }
}

/// A text that is refused part of the way is refused as a whole, with the
/// same error.
pub proof fn lemma_scan_refused(source: Seq<char>, read: int)
    requires
        0 <= read <= source.len(),
        scan(source.take(read)) is Err,
    ensures
        scan(source) == scan(source.take(read)),
    decreases source.len() - read,
{
    if read < source.len() {
        assert(source.take(read + 1).drop_last() =~= source.take(read));
        lemma_scan_refused(source, read + 1);
    } else {
        assert(source.take(read) =~= source);
    }
}

} // verus!
