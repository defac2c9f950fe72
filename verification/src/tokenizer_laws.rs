//! What holds of the tokenizer on every line.

use crate::chars::{count_of, is_stretch_of, joined, lacks};
use crate::tokenizer::{scan, start, step, tokenize, FieldState};
use vstd::prelude::*;

verus! {

/// The tokenizer has stopped after `n` characters exactly if one of them is a
/// newline.
pub proof fn lemma_stopped_iff_newline(line: Seq<char>, n: nat)
    requires
        n <= line.len(),
    ensures
        scan(line, n).stopped <==> !lacks(line.take(n as int), '\n'),
    decreases n,
{
    if n > 0 {
        let shorter = line.take(n - 1);
        let longer = line.take(n as int);
        lemma_stopped_iff_newline(line, (n - 1) as nat);
        if scan(line, n).stopped {
            if scan(line, (n - 1) as nat).stopped {
                let i = choose|i: int| 0 <= i < shorter.len() && shorter[i] == '\n';
                assert(longer[i] == '\n');
            } else {
                assert(longer[n - 1] == '\n');
            }
        } else {
            assert forall|i: int| 0 <= i < longer.len() implies longer[i] != '\n' by {
                if i < n - 1 {
                    assert(shorter[i] == longer[i]);
                }
            }
        }
    }
}

/// A completed field stays: what the tokenizer has completed after `n`
/// characters is the beginning of what it has completed after `m >= n`.
pub proof fn lemma_fields_stay(line: Seq<char>, n: nat, m: nat)
    requires
        n <= m,
    ensures
        scan(line, n).fields.is_prefix_of(scan(line, m).fields),
    decreases m,
{
    if n < m {
        lemma_fields_stay(line, n, (m - 1) as nat);
    }
}

/// Two lines that begin with the same `n` characters, and start in the same
/// state, are tokenized alike up to there.
pub proof fn lemma_scan_of_common_prefix(line: Seq<char>, other: Seq<char>, n: nat)
    requires
        n <= line.len(),
        n <= other.len(),
        line.take(n as int) == other.take(n as int),
        start(line) == start(other),
    ensures
        scan(line, n) == scan(other, n),
    decreases n,
{
    if n > 0 {
        assert(line.take(n - 1) =~= line.take(n as int).take(n - 1));
        assert(other.take(n - 1) =~= other.take(n as int).take(n - 1));
        lemma_scan_of_common_prefix(line, other, (n - 1) as nat);
        assert(line[n - 1] == line.take(n as int)[n - 1]);
        assert(other[n - 1] == other.take(n as int)[n - 1]);
    }
}

/// A line without a newline has at least one field.
pub proof fn lemma_line_has_a_field(line: Seq<char>)
    requires
        lacks(line, '\n'),
    ensures
        tokenize(line).len() >= 1,
{
    lemma_stopped_iff_newline(line, line.len());
    assert(line.take(line.len() as int) =~= line);
}

/// Before the first quote or newline of a line the tokenizer is never in or
/// after a quoted field, and has completed one field for each comma read.
proof fn lemma_unquoted_prefix(line: Seq<char>, n: nat)
    requires
        n <= line.len(),
        forall|i: int| 0 <= i < n ==> line[i] != '"' && line[i] != '\n',
    ensures
        !scan(line, n).stopped,
        scan(line, n).state == FieldState::InUnquotedField || scan(line, n).state
            == FieldState::OutsideField,
        scan(line, n).fields.len() == count_of(line.take(n as int), ','),
    decreases n,
{
    if n > 0 {
        lemma_unquoted_prefix(line, (n - 1) as nat);
        assert(line.take(n as int).drop_last() =~= line.take(n - 1));
    }
}

/// A line without quotes and without a newline has one field more than it
/// has commas.
pub proof fn lemma_unquoted_field_count(line: Seq<char>)
    requires
        lacks(line, '"'),
        lacks(line, '\n'),
    ensures
        tokenize(line).len() == count_of(line, ',') + 1,
{
    lemma_unquoted_prefix(line, line.len());
    assert(line.take(line.len() as int) =~= line);
}

/// In a line without quotes and newlines, the completed fields and the
/// gathered text, with a comma between each two, are what was read.
proof fn lemma_unquoted_prefix_joins(line: Seq<char>, n: nat)
    requires
        n <= line.len(),
        lacks(line, '"'),
        lacks(line, '\n'),
    ensures
        joined(scan(line, n).fields.push(scan(line, n).pending), ',') == line.take(n as int),
        lacks(scan(line, n).pending, ','),
        forall|k: int|
            0 <= k < scan(line, n).fields.len() ==> lacks(#[trigger] scan(line, n).fields[k], ','),
    decreases n,
{
    if n == 0 {
        assert(line.take(0) =~= Seq::<char>::empty());
    } else {
        lemma_unquoted_prefix(line, (n - 1) as nat);
        lemma_unquoted_prefix_joins(line, (n - 1) as nat);
        let before = scan(line, (n - 1) as nat);
        let after = scan(line, n);
        let c = line[n - 1];
        let parts = after.fields.push(after.pending);
        assert(after == step(before, c));
        assert(line.take(n as int) =~= line.take(n - 1).push(c));
        if c == ',' {
            assert(parts.drop_last() =~= before.fields.push(before.pending));
            assert(joined(parts, ',') =~= line.take(n - 1).push(c));
        } else if before.fields.len() > 0 {
            assert(parts.drop_last() =~= before.fields);
            assert(before.fields.push(before.pending).drop_last() =~= before.fields);
            assert(joined(parts, ',') =~= joined(before.fields.push(before.pending), ',').push(c));
        }
    }
}

/// A line without quotes and without a newline is split at its commas: no
/// field holds a comma, and the fields with a comma between each two are the
/// line again.
pub proof fn lemma_unquoted_line_splits_at_commas(line: Seq<char>)
    requires
        lacks(line, '"'),
        lacks(line, '\n'),
    ensures
        joined(tokenize(line), ',') == line,
        forall|k: int| 0 <= k < tokenize(line).len() ==> lacks(#[trigger] tokenize(line)[k], ','),
{
    lemma_unquoted_prefix(line, line.len());
    lemma_unquoted_prefix_joins(line, line.len());
    assert(line.take(line.len() as int) =~= line);
}

/// After an opening quote at `open`, and up to the next quote or newline, the
/// tokenizer gathers every character and completes no field.
proof fn lemma_inside_quotes(line: Seq<char>, open: int, at: int)
    requires
        0 <= open < at <= line.len(),
        line[open] == '"',
        !scan(line, open as nat).stopped,
        !scan(line, open as nat).state.is_active(),
        forall|i: int| open < i < at ==> line[i] != '"' && line[i] != '\n',
    ensures
        !scan(line, at as nat).stopped,
        scan(line, at as nat).state == FieldState::InQuotedField,
        scan(line, at as nat).fields == scan(line, open as nat).fields,
        scan(line, at as nat).pending == line.subrange(open + 1, at),
    decreases at,
{
    if at == open + 1 {
        assert(line.subrange(open + 1, at) =~= Seq::<char>::empty());
    } else {
        lemma_inside_quotes(line, open, at - 1);
        assert(line.subrange(open + 1, at) =~= line.subrange(open + 1, at - 1).push(line[at - 1]));
    }
}

/// A pair of quotes keeps what stands between them together, commas
/// included. Let the quote at `open` open a field (no newline stands before
/// it, and no field is active there), and let the next quote stand at
/// `close`, with no newline between the two. Then the characters between them
/// are one field of the line: the one that follows the fields completed
/// before `open`.
pub proof fn lemma_quoted_field_kept(line: Seq<char>, open: int, close: int)
    requires
        0 <= open < close < line.len(),
        line[open] == '"',
        line[close] == '"',
        forall|i: int| 0 <= i < close && i != open ==> line[i] != '\n',
        forall|i: int| open < i < close ==> line[i] != '"',
        !scan(line, open as nat).state.is_active(),
    ensures
        scan(line, open as nat).fields.len() < tokenize(line).len(),
        tokenize(line)[scan(line, open as nat).fields.len() as int] == line.subrange(
            open + 1,
            close,
        ),
{
    lemma_stopped_iff_newline(line, open as nat);
    assert(lacks(line.take(open), '\n'));
    lemma_inside_quotes(line, open, close);
    let nth = scan(line, open as nat).fields.len() as int;
    let closed = scan(line, (close + 1) as nat);
    assert(closed == step(scan(line, close as nat), '"'));
    assert(closed.fields[nth] == line.subrange(open + 1, close));
    lemma_fields_stay(line, (close + 1) as nat, line.len());
    assert(scan(line, line.len()).fields[nth] == closed.fields[nth]);
}

/// A line that begins with a quoted field has what stands between the two
/// quotes as its first field.
pub proof fn lemma_quoted_first_field(body: Seq<char>, rest: Seq<char>)
    requires
        lacks(body, '"'),
        lacks(body, '\n'),
    ensures
        tokenize(seq!['"'] + body + seq!['"'] + rest).len() >= 1,
        tokenize(seq!['"'] + body + seq!['"'] + rest)[0] == body,
{
    let line = seq!['"'] + body + seq!['"'] + rest;
    let close = body.len() as int + 1;
    assert forall|i: int| 0 < i < close implies line[i] != '"' && line[i] != '\n' by {
        assert(line[i] == body[i - 1]);
    }
    lemma_quoted_field_kept(line, 0, close);
    assert(line.subrange(1, close) =~= body);
}

/// A quoted field that follows plain fields and a comma is a field of the
/// line, after one field for each comma before it. Here `plain` is the text
/// before that comma.
pub proof fn lemma_quoted_field_after_plain_fields(
    plain: Seq<char>,
    body: Seq<char>,
    rest: Seq<char>,
)
    requires
        lacks(plain, '"'),
        lacks(plain, '\n'),
        lacks(body, '"'),
        lacks(body, '\n'),
    ensures
        count_of(plain, ',') + 1 < tokenize(plain + seq![',', '"'] + body + seq!['"'] + rest).len(),
        tokenize(plain + seq![',', '"'] + body + seq!['"'] + rest)[count_of(plain, ',') as int
            + 1] == body,
{
    let line = plain + seq![',', '"'] + body + seq!['"'] + rest;
    let open = plain.len() as int + 1;
    let close = open + body.len() + 1;
    assert forall|i: int| 0 <= i < open implies line[i] != '"' && line[i] != '\n' by {
        if i < plain.len() {
            assert(line[i] == plain[i]);
        }
    }
    assert forall|i: int| open < i < close implies line[i] != '"' && line[i] != '\n' by {
        assert(line[i] == body[i - open - 1]);
    }
    lemma_unquoted_prefix(line, open as nat);
    assert(scan(line, open as nat) == step(scan(line, plain.len()), ','));
    assert(line.take(open).drop_last() =~= plain);
    lemma_quoted_field_kept(line, open, close);
    assert(line.subrange(open + 1, close) =~= body);
}

/// Over characters that are no quote, comma or newline the tokenizer gathers
/// each of them and completes no field.
proof fn lemma_plain_tail(line: Seq<char>, from: int, at: int)
    requires
        0 <= from <= at <= line.len(),
        !scan(line, from as nat).stopped,
        forall|i: int| from <= i < at ==> line[i] != '"' && line[i] != ',' && line[i] != '\n',
    ensures
        !scan(line, at as nat).stopped,
        scan(line, at as nat).fields == scan(line, from as nat).fields,
        scan(line, at as nat).pending == scan(line, from as nat).pending + line.subrange(from, at),
    decreases at,
{
    let gathered = scan(line, from as nat).pending;
    if at == from {
        assert(gathered + line.subrange(from, at) =~= gathered);
    } else {
        lemma_plain_tail(line, from, at - 1);
        assert(gathered + line.subrange(from, at) =~= (gathered + line.subrange(
            from,
            at - 1,
        )).push(line[at - 1]));
    }
}

/// Nothing is lost at the end of a line. Where `tail` holds no quote, comma
/// or newline, and `head` no newline, the fields of `head + tail` are those
/// of `head` with `tail` added to the last of them.
pub proof fn lemma_trailing_text_kept(head: Seq<char>, tail: Seq<char>)
    requires
        lacks(head, '\n'),
        lacks(tail, '"'),
        lacks(tail, ','),
        lacks(tail, '\n'),
    ensures
        tokenize(head).len() >= 1,
        tokenize(head + tail) == tokenize(head).drop_last().push(tokenize(head).last() + tail),
{
    let line = head + tail;
    let split = head.len();
    lemma_line_has_a_field(head);
    lemma_stopped_iff_newline(head, split);
    assert(head.take(split as int) =~= head);
    assert(line.take(split as int) =~= head);
    if head.len() == 0 && tail.len() > 0 {
        assert(line[0] == tail[0]);
    }
    lemma_scan_of_common_prefix(line, head, split);
    assert forall|i: int| split <= i < line.len() implies line[i] != '"' && line[i] != ','
        && line[i] != '\n' by {
        assert(line[i] == tail[i - split]);
    }
    lemma_plain_tail(line, split as int, line.len() as int);
    assert(line.subrange(split as int, line.len() as int) =~= tail);
    assert(tokenize(head).drop_last() =~= scan(head, split).fields);
}

/// Neither the completed fields nor the gathered text hold a quote or a
/// newline.
proof fn lemma_no_delimiter_in_scan(line: Seq<char>, n: nat)
    requires
        n <= line.len(),
    ensures
        lacks(scan(line, n).pending, '"'),
        lacks(scan(line, n).pending, '\n'),
        forall|k: int|
            0 <= k < scan(line, n).fields.len() ==> lacks(
                #[trigger] scan(line, n).fields[k],
                '"',
            ) && lacks(scan(line, n).fields[k], '\n'),
    decreases n,
{
    if n > 0 {
        lemma_no_delimiter_in_scan(line, (n - 1) as nat);
    }
}

/// No field holds a quote or a newline.
pub proof fn lemma_fields_hold_no_delimiter(line: Seq<char>, k: int)
    requires
        0 <= k < tokenize(line).len(),
    ensures
        lacks(tokenize(line)[k], '"'),
        lacks(tokenize(line)[k], '\n'),
{
    lemma_no_delimiter_in_scan(line, line.len());
}

/// The completed fields and the gathered text are stretches of the line, and
/// while the scan goes on the gathered text is the stretch that ends at the
/// character read last.
proof fn lemma_stretches_in_scan(line: Seq<char>, n: nat)
    requires
        n <= line.len(),
    ensures
        forall|k: int|
            0 <= k < scan(line, n).fields.len() ==> is_stretch_of(
                #[trigger] scan(line, n).fields[k],
                line,
            ),
        is_stretch_of(scan(line, n).pending, line),
        !scan(line, n).stopped ==> exists|from: int|
            0 <= from <= n && scan(line, n).pending == #[trigger] line.subrange(from, n as int),
        !scan(line, n).stopped && scan(line, n).state == FieldState::JustClosedQuotedField
            ==> scan(line, n).pending.len() == 0,
    decreases n,
{
    if n == 0 {
        assert(scan(line, 0).pending =~= line.subrange(0, 0));
    } else {
        lemma_stretches_in_scan(line, (n - 1) as nat);
        let before = scan(line, (n - 1) as nat);
        let after = scan(line, n);
        assert(after == step(before, line[n - 1]));
        if !before.stopped && !after.stopped {
            let from = choose|from: int|
                0 <= from <= n - 1 && before.pending == #[trigger] line.subrange(from, n - 1);
            if after.pending.len() == 0 {
                assert(after.pending =~= line.subrange(n as int, n as int));
            } else {
                assert(after.pending == before.pending.push(line[n - 1]));
                assert(after.pending =~= line.subrange(from, n as int));
            }
        }
    }
}

/// Every field stands in the line as it is: its characters are a stretch of
/// the line, none added, none left out between them, none moved.
pub proof fn lemma_fields_are_stretches(line: Seq<char>, k: int)
    requires
        0 <= k < tokenize(line).len(),
    ensures
        is_stretch_of(tokenize(line)[k], line),
{
    lemma_stretches_in_scan(line, line.len());
}

} // verus!
