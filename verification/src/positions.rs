use vstd::prelude::*;
use crate::brackets::{closes_match, depth, lemma_scan_counts_depth};
use crate::compiler::{compiled, scan, scan_one, ScanState};
use crate::error::SyntaxError;
use crate::instruction::Instruction;
use crate::structure::{lemma_scan_holds, lemma_scan_refused};

verus! {

/// The line, counted from 1, on which the character that follows `text`
/// stands: one more than the number of line ends in `text`.
pub open spec fn line_after(text: Seq<char>) -> nat
    decreases text.len(),
{
    if text.len() == 0 {
        1
    } else if text.last() == '\n' {
        line_after(text.drop_last()) + 1
    } else {
        line_after(text.drop_last())
    }
}

/// How many characters follow the last line end of `text`: the column,
/// counted from 1, of the last character of `text` unless that is a line
/// end.
pub open spec fn column_after(text: Seq<char>) -> nat
    decreases text.len(),
{
    if text.len() == 0 {
        0
    } else if text.last() == '\n' {
        0
    } else {
        column_after(text.drop_last()) + 1
    }
}

/// The index of the `[` that last raised the depth of `text` from `level`,
/// or -1 if none did.
pub open spec fn opener(text: Seq<char>, level: int) -> int
    decreases text.len(),
{
    if text.len() == 0 {
        -1
    } else if text.last() == '[' && depth(text.drop_last()) == level {
        text.len() - 1
    } else {
        opener(text.drop_last(), level)
    }
}

/// The open loop of `state` at `level` is the bracket that last raised the
/// depth of `text` from `level`, with its place in the text.
pub open spec fn loop_is_placed(state: ScanState, text: Seq<char>, level: int) -> bool {
    let place = opener(text, level);
    &&& 0 <= place < text.len()
    &&& state.loops[level].line == line_after(text.take(place))
    &&& state.loops[level].column == column_after(text.take(place)) + 1
}

/// Every open loop of `state` is placed.
pub open spec fn loops_are_placed(state: ScanState, text: Seq<char>) -> bool {
    forall|level: int|
        0 <= level < state.loops.len() ==> #[trigger] loop_is_placed(state, text, level)
}

/// The line and the column of a state fit the number of characters read.
proof fn lemma_place_is_bounded(text: Seq<char>)
    requires
        text.len() <= usize::MAX,
    ensures
        scan(text) matches Ok(state) ==> state.line <= text.len() + 1 && state.column
            <= text.len(),
{
    lemma_scan_holds(text);
}

/// One more character keeps the line, the column and the place of every
/// open loop.
proof fn lemma_scan_one_keeps_place(before: ScanState, text: Seq<char>)
    requires
        0 < text.len() <= usize::MAX,
        before.line == line_after(text.drop_last()),
        before.column == column_after(text.drop_last()),
        before.line <= text.len(),
        before.column < text.len(),
        before.loops.len() == depth(text.drop_last()),
        loops_are_placed(before, text.drop_last()),
    ensures
        scan_one(before, text.last()) matches Ok(state) ==> {
            &&& state.line == line_after(text)
            &&& state.column == column_after(text)
            &&& loops_are_placed(state, text)
        },
{
    let shorter = text.drop_last();
    let c = text.last();
    if let Ok(state) = scan_one(before, c) {
        assert forall|level: int| 0 <= level < state.loops.len() implies #[trigger] loop_is_placed(
            state,
            text,
            level,
        ) by {
            if c == '[' && level == before.loops.len() {
                assert(opener(text, level) == text.len() - 1);
                assert(text.take(text.len() - 1) =~= shorter);
            } else {
                assert(loop_is_placed(before, shorter, level));
                assert(state.loops[level] == before.loops[level]);
                let place = opener(shorter, level);
                assert(opener(text, level) == place);
                assert(text.take(place) =~= shorter.take(place));
            }
        }
    }
}

/// The compiler keeps the line and the column of the text it has read, and
/// the place of every open loop.
pub proof fn lemma_scan_keeps_place(text: Seq<char>)
    requires
        text.len() <= usize::MAX,
    ensures
        scan(text) matches Ok(state) ==> {
            &&& state.line == line_after(text)
            &&& state.column == column_after(text)
            &&& loops_are_placed(state, text)
        },
    decreases text.len(),
{
    if text.len() > 0 {
        let shorter = text.drop_last();
        lemma_scan_keeps_place(shorter);
        lemma_place_is_bounded(shorter);
        lemma_scan_counts_depth(shorter);
        if let Ok(before) = scan(shorter) {
            lemma_scan_one_keeps_place(before, text);
        }
    }
}

/// An unbalanced `]` is reported where it stands: if the `]` at index
/// `index` is the first that closes nothing, the text is refused with the
/// line and the column of that character.
pub proof fn lemma_unbalanced_close_is_placed(source: Seq<char>, index: int)
    requires
        source.len() <= usize::MAX,
        0 <= index < source.len(),
        closes_match(source.take(index)),
        depth(source.take(index + 1)) < 0,
    ensures
        source[index] == ']',
        line_after(source.take(index)) <= usize::MAX,
        column_after(source.take(index)) + 1 <= usize::MAX,
        compiled(source) == Err::<Seq<Instruction>, SyntaxError>(
            SyntaxError::UnbalancedClose {
                line: line_after(source.take(index)) as usize,
                column: (column_after(source.take(index)) + 1) as usize,
            },
        ),
{
    let before = source.take(index);
    let upto = source.take(index + 1);
    assert(upto.drop_last() =~= before);
    assert(upto.last() == source[index]);
    assert(before.take(index) =~= before);
    assert(depth(before) >= 0);
    lemma_scan_counts_depth(before);
    lemma_scan_keeps_place(before);
    lemma_scan_holds(before);
    lemma_scan_refused(source, index + 1);
}

/// The last `[` that raised the depth from `level` is at `index`, if the
/// depth stayed above `level` from then on.
proof fn lemma_opener_found(text: Seq<char>, index: int, upto: int)
    requires
        0 <= index < upto <= text.len(),
        text[index] == '[',
        forall|j: int| index < j <= text.len() ==> depth(#[trigger] text.take(j)) > depth(
            text.take(index),
        ),
    ensures
        opener(text.take(upto), depth(text.take(index))) == index,
    decreases upto,
{
    let prefix = text.take(upto);
    assert(prefix.drop_last() =~= text.take(upto - 1));
    assert(prefix.last() == text[upto - 1]);
    if upto - 1 > index {
        lemma_opener_found(text, index, upto - 1);
        assert(depth(text.take(upto - 1)) > depth(text.take(index)));
    }
}

/// An unterminated `[` is reported where it stands: if no `]` of the text
/// closes nothing, and the `[` at index `index` is the last after which the
/// depth never comes back down, the text is refused with the line and the
/// column of that character.
pub proof fn lemma_unterminated_open_is_placed(source: Seq<char>, index: int)
    requires
        source.len() <= usize::MAX,
        closes_match(source),
        0 <= index < source.len(),
        source[index] == '[',
        depth(source.take(index + 1)) == depth(source),
        forall|j: int| index < j <= source.len() ==> depth(#[trigger] source.take(j)) >= depth(
            source,
        ),
    ensures
        line_after(source.take(index)) <= usize::MAX,
        column_after(source.take(index)) + 1 <= usize::MAX,
        compiled(source) == Err::<Seq<Instruction>, SyntaxError>(
            SyntaxError::UnterminatedOpen {
                line: line_after(source.take(index)) as usize,
                column: (column_after(source.take(index)) + 1) as usize,
            },
        ),
{
    let upto = source.take(index + 1);
    assert(upto.drop_last() =~= source.take(index));
    assert(upto.last() == '[');
    let level = depth(source.take(index));
    assert(level == depth(source) - 1);
    assert(depth(source.take(index)) >= 0);
    lemma_opener_found(source, index, source.len() as int);
    assert(source.take(source.len() as int) =~= source);
    lemma_scan_counts_depth(source);
    lemma_scan_keeps_place(source);
    lemma_scan_holds(source);
    let state = scan(source).unwrap();
    assert(state.loops.len() == level + 1);
    assert(state.loops.last() == state.loops[level]);
    assert(loop_is_placed(state, source, level));
}

} // verus!
