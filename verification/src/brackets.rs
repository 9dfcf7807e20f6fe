use vstd::prelude::*;
use crate::compiler::{compiled, is_counted, scan};
use crate::error::SyntaxError;
use crate::structure::lemma_scan_holds;

verus! {

/// Whether `c` means anything to the compiler beyond its place in the text.
pub open spec fn is_operator(c: char) -> bool {
    is_counted(c) || c == '[' || c == ']'
}

/// How many more `[` than `]` a text holds.
pub open spec fn depth(text: Seq<char>) -> int
    decreases text.len(),
{
    if text.len() == 0 {
        0
    } else {
        depth(text.drop_last()) + if text.last() == '[' {
            1int
        } else if text.last() == ']' {
            -1int
        } else {
            0int
        }
    }
}

/// No `]` of the text stands where no loop is open.
pub open spec fn closes_match(text: Seq<char>) -> bool {
    forall|k: int| 0 <= k <= text.len() ==> depth(#[trigger] text.take(k)) >= 0
}

/// The brackets of the text pair up.
pub open spec fn balanced(text: Seq<char>) -> bool {
    closes_match(text) && depth(text) == 0
}

/// What holds of a text's last character holds of the text, as far as
/// `closes_match` goes.
proof fn lemma_closes_match_grows(text: Seq<char>)
    requires
        text.len() > 0,
    ensures
        closes_match(text) <==> closes_match(text.drop_last()) && depth(text) >= 0,
{
    let shorter = text.drop_last();
    assert(text.take(text.len() as int) =~= text);
    if closes_match(text) {
        assert forall|k: int| 0 <= k <= shorter.len() implies depth(#[trigger] shorter.take(k))
            >= 0 by {
            assert(shorter.take(k) =~= text.take(k));
        }
    }
    if closes_match(shorter) && depth(text) >= 0 {
        assert forall|k: int| 0 <= k <= text.len() implies depth(#[trigger] text.take(k))
            >= 0 by {
            if k < text.len() {
                assert(shorter.take(k) =~= text.take(k));
            }
        }
    }
}

/// Reading a text succeeds exactly if each of its `]` closes a loop, and
/// then as many loops are open at its end as it holds more `[` than `]`.
pub proof fn lemma_scan_counts_depth(text: Seq<char>)
    requires
        text.len() <= usize::MAX,
    ensures
        scan(text) is Ok <==> closes_match(text),
        scan(text) matches Ok(state) ==> state.loops.len() == depth(text),
    decreases text.len(),
{
    if text.len() == 0 {
        assert forall|k: int| 0 <= k <= text.len() implies depth(#[trigger] text.take(k))
            >= 0 by {
            assert(text.take(k) =~= text);
        }
    } else {
        let shorter = text.drop_last();
        lemma_scan_counts_depth(shorter);
        lemma_closes_match_grows(text);
        lemma_scan_holds(shorter);
        if let Ok(state) = scan(shorter) {
            let c = text.last();
            if c == ']' && state.loops.len() > 0 && state.loops.last().index == 0 {
                if state.loops.len() > 1 {
                    assert(state.loops[0].index < state.loops[state.loops.len() - 1].index);
                }
            }
        }
    }
}

/// A text compiles exactly if its brackets pair up. It is refused as
/// unbalanced exactly if one of its `]` closes nothing, and as unterminated
/// exactly if each `]` closes a loop and a `[` is left open.
pub proof fn lemma_compiles_iff_balanced(source: Seq<char>)
    requires
        source.len() <= usize::MAX,
    ensures
        compiled(source) is Ok <==> balanced(source),
        compiled(source) matches Err(SyntaxError::UnbalancedClose { .. }) <==> !closes_match(
            source,
        ),
        compiled(source) matches Err(SyntaxError::UnterminatedOpen { .. }) <==> closes_match(
            source,
        ) && depth(source) > 0,
{
    lemma_scan_counts_depth(source);
    lemma_scan_only_refuses_a_close(source);
}

/// Reading a text fails on a `]` only.
proof fn lemma_scan_only_refuses_a_close(text: Seq<char>)
    ensures
        scan(text) matches Err(error) ==> error is UnbalancedClose,
    decreases text.len(),
{
    if text.len() > 0 {
        lemma_scan_only_refuses_a_close(text.drop_last());
    }
}

} // verus!
