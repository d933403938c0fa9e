//! The lines that a string takes when it is written out.

use vstd::prelude::*;

verus! {

/// The characters at which a line ends: line feed, carriage return, next
/// line, line separator and paragraph separator.
pub open spec fn is_break(c: char) -> bool {
    c == '\n' || c == '\r' || c == '\u{85}' || c == '\u{2028}' || c == '\u{2029}'
}

/// The number of characters of `text` at which a line ends.
pub open spec fn breaks(text: Seq<char>) -> nat
    decreases text.len(),
{
    if text.len() == 0 {
        0
    } else {
        breaks(text.drop_last()) + if is_break(text.last()) {
            1nat
        } else {
            0nat
        }
    }
}

/// No fewer than the lines that `text` takes: two, and two more for each
/// character at which a line ends.
pub open spec fn lines(text: Seq<char>) -> nat {
    2 + 2 * breaks(text)
}

/// A part of a text from its start has no more breaks than the text.
pub proof fn lemma_breaks_grow(text: Seq<char>, count: int)
    requires
        0 <= count <= text.len(),
    ensures
        breaks(text.take(count)) <= breaks(text),
    decreases text.len() - count,
{
    if count < text.len() {
        lemma_breaks_grow(text, count + 1);
        assert(text.take(count + 1).drop_last() =~= text.take(count));
    } else {
        assert(text.take(count) =~= text);
    }
}

/// A text without a character at which a line ends has no breaks.
pub proof fn lemma_no_breaks(text: Seq<char>)
    requires
        forall|i: int| 0 <= i < text.len() ==> !is_break(#[trigger] text[i]),
    ensures
        breaks(text) == 0,
    decreases text.len(),
{
    if text.len() > 0 {
        assert forall|i: int| 0 <= i < text.drop_last().len() implies !is_break(
            #[trigger] text.drop_last()[i],
        ) by {
            assert(text.drop_last()[i] == text[i]);
        }
        lemma_no_breaks(text.drop_last());
    }
}

/// Whether a line ends at `c`.
pub fn ends_line(c: char) -> (ends: bool)
    ensures
        ends == is_break(c),
{
    c == '\n' || c == '\r' || c == '\u{85}' || c == '\u{2028}' || c == '\u{2029}'
}

/// Takes the lines of `text` from `budget`: what is left of it, or `None`
/// where the text takes more than the budget.
pub fn take_lines(text: &str, budget: usize) -> (left: Option<usize>)
    ensures
        match left {
            Some(rest) => lines(text@) + rest == budget,
            None => lines(text@) > budget,
        },
{
    if budget < 2 {
        return None;
    }
    let mut rest: usize = budget - 2;
    assert(text@.take(0) =~= Seq::<char>::empty());
    for c in it: text.chars()
        invariant
            it.seq() == text@,
            2 + 2 * breaks(text@.take(it.index() as int)) + rest == budget,
    {
        let ghost seen = it.index() as int;
        proof {
            assert(text@.take(seen + 1).drop_last() =~= text@.take(seen));
            assert(text@.take(seen + 1).last() == c);
            lemma_breaks_grow(text@, seen + 1);
        }
        if ends_line(c) {
            if rest < 2 {
                return None;
            }
            rest = rest - 2;
        }
    }
    assert(text@.take(text@.len() as int) =~= text@);
    Some(rest)
}

} // verus!
