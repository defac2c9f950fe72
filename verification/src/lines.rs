//! Splitting a text into its lines.
//!
//! A line ends at a newline, or at a carriage return directly followed by a
//! newline; neither belongs to the line. The last line needs no line ending,
//! and a text that ends with one has no empty line after it. A carriage
//! return that no newline follows is data.

use crate::chars::lacks;
use vstd::prelude::*;

verus! {

/// The index of the first newline of `text`, or its length if it has none.
pub open spec fn line_end(text: Seq<char>) -> nat
    decreases text.len(),
{
    if text.len() == 0 || text[0] == '\n' {
        0
    } else {
        1 + line_end(text.drop_first())
    }
}

/// `line` without the carriage return at its end, if it has one there.
pub open spec fn without_cr(line: Seq<char>) -> Seq<char> {
    if line.len() > 0 && line.last() == '\r' {
        line.drop_last()
    } else {
        line
    }
}

/// The lines of `text`, in order.
pub open spec fn lines_of(text: Seq<char>) -> Seq<Seq<char>>
    decreases text.len(),
{
    if text.len() == 0 {
        Seq::empty()
    } else {
        let end = line_end(text) as int;
        if end >= text.len() {
            seq![text]
        } else {
            seq![without_cr(text.take(end))] + lines_of(text.skip(end + 1))
        }
    }
}

/// `line_end` is the place of the first newline: within the text, with no
/// newline before it and, unless it is the text's length, a newline at it.
pub proof fn lemma_line_end(text: Seq<char>)
    ensures
        line_end(text) <= text.len(),
        forall|i: int| 0 <= i < line_end(text) ==> text[i] != '\n',
        line_end(text) < text.len() ==> text[line_end(text) as int] == '\n',
    decreases text.len(),
{
    if text.len() > 0 && text[0] != '\n' {
        let rest = text.drop_first();
        lemma_line_end(rest);
        assert forall|i: int| 0 <= i < line_end(text) implies text[i] != '\n' by {
            if i > 0 {
                assert(text[i] == rest[i - 1]);
            }
        }
    }
}

/// A place with no newline before it, which holds a newline or is the text's
/// length, is the text's `line_end`.
pub proof fn lemma_line_end_is(text: Seq<char>, end: int)
    requires
        0 <= end <= text.len(),
        forall|i: int| 0 <= i < end ==> text[i] != '\n',
        end < text.len() ==> text[end] == '\n',
    ensures
        line_end(text) == end,
{
    lemma_line_end(text);
}

/// Only the empty text has no line.
pub proof fn lemma_text_without_lines(text: Seq<char>)
    ensures
        lines_of(text).len() == 0 <==> text.len() == 0,
{
}

/// No line holds a newline.
pub proof fn lemma_lines_hold_no_newline(text: Seq<char>, i: int)
    requires
        0 <= i < lines_of(text).len(),
    ensures
        lacks(lines_of(text)[i], '\n'),
    decreases text.len(),
{
    lemma_line_end(text);
    let end = line_end(text) as int;
    if end < text.len() && i > 0 {
        let rest = text.skip(end + 1);
        lemma_lines_hold_no_newline(rest, i - 1);
        assert(lines_of(text)[i] == lines_of(rest)[i - 1]);
    }
}

/// Where the first newline of `text.skip(from)` stands at `at` in `text`, the
/// lines from `from` on are the one that ends there and those after it.
proof fn lemma_line_ends_at(text: Seq<char>, from: int, at: int)
    requires
        0 <= from <= at < text.len(),
        forall|i: int| from <= i < at ==> text[i] != '\n',
        text[at] == '\n',
    ensures
        lines_of(text.skip(from)) == seq![without_cr(text.subrange(from, at))] + lines_of(
            text.skip(at + 1),
        ),
{
    let rest = text.skip(from);
    lemma_line_end_is(rest, at - from);
    assert(rest.take(at - from) =~= text.subrange(from, at));
    assert(rest.skip(at - from + 1) =~= text.skip(at + 1));
}

/// Where no newline stands in `text` from `from` on, and `from` is before its
/// end, the rest of `text` is its last line.
proof fn lemma_last_line(text: Seq<char>, from: int)
    requires
        0 <= from < text.len(),
        forall|i: int| from <= i < text.len() ==> text[i] != '\n',
    ensures
        lines_of(text.skip(from)) == seq![text.skip(from)],
{
    let rest = text.skip(from);
    lemma_line_end_is(rest, rest.len() as int);
}

/// Splits `text` into its lines.
pub fn split_lines(text: &str) -> (lines: Vec<String>)
    ensures
        lines.deep_view() == lines_of(text@),
{
    let mut lines: Vec<String> = Vec::new();
    let mut line = String::new();
    // A carriage return was read that is not yet known to be data.
    let mut held_cr = false;
    // The line under way has at least one character.
    let mut begun = false;
    // Where the line under way begins.
    let ghost mut from: int = 0;
    assert(lines.deep_view() =~= Seq::<Seq<char>>::empty());
    assert(text@.skip(0) =~= text@);
    for c in iter: text.chars()
        invariant
            iter.seq() == text@,
            0 <= from <= iter.index() <= text@.len(),
            begun == (from < iter.index()),
            forall|i: int| from <= i < iter.index() ==> text@[i] != '\n',
            lines_of(text@) == lines.deep_view() + lines_of(text@.skip(from)),
            text@.subrange(from, iter.index() as int) == if held_cr {
                line@.push('\r')
            } else {
                line@
            },
            !held_cr ==> without_cr(line@) == line@,
    {
        let ghost at = iter.index() as int;
        let ghost done = lines.deep_view();
        let ghost ended = line@;
        assert(text@.subrange(from, at + 1) =~= text@.subrange(from, at).push(c));
        if c == '\n' {
            proof {
                lemma_line_ends_at(text@, from, at);
                assert(without_cr(text@.subrange(from, at)) =~= ended);
            }
            lines.push(line);
            line = String::new();
            held_cr = false;
            begun = false;
            proof {
                from = at + 1;
                assert(lines.deep_view() =~= done.push(ended));
            }
        } else if c == '\r' {
            if held_cr {
                line.push('\r');
            }
            held_cr = true;
            begun = true;
        } else {
            if held_cr {
                line.push('\r');
            }
            line.push(c);
            held_cr = false;
            begun = true;
        }
    }
    if begun {
        if held_cr {
            line.push('\r');
        }
        let ghost done = lines.deep_view();
        proof {
            lemma_last_line(text@, from);
            assert(line@ =~= text@.skip(from));
        }
        lines.push(line);
        assert(lines.deep_view() =~= done + seq![text@.skip(from)]);
    } else {
        assert(text@.skip(from).len() == 0);
        assert(lines.deep_view() + Seq::<Seq<char>>::empty() =~= lines.deep_view());
    }
    lines
}

} // verus!
