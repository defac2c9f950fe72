//! The line tokenizer: splits one line of comma-separated text into fields.
//!
//! A field is plain text up to the next comma, or text wrapped in a pair of
//! quotes, in which commas are data. The tokenizer reads the line character by
//! character and rejects nothing. Where a line is not of that form, it goes by
//! these rules:
//!
//! - A quote is never data. It closes the field where one is active, which is
//!   a quoted field or the plain field that begins the line. Anywhere else it
//!   opens a quoted field, which starts empty: plain text gathered since the
//!   last delimiter is dropped.
//! - The comma directly after a closing quote belongs to that delimiter, so
//!   `"a",b` has two fields. Only that one comma is taken, and only there.
//! - What has been gathered when the line ends is its last field, also where
//!   that is nothing: `"a"` has the fields `a` and the empty one. So a quote
//!   that is never closed loses no text.
//! - A newline ends the scan. The fields completed before it are the result;
//!   what was gathered after the last of them is not.

use vstd::prelude::*;

verus! {

/// Where the tokenizer stands between two characters of a line.
#[derive(Clone, Copy, Debug, PartialEq, Eq, Structural)]
pub enum FieldState {
    /// No field is active: a quote opens a quoted field here, a comma
    /// completes the plain text gathered so far. This is the state after such
    /// a comma, and before a line that begins with a quote.
    OutsideField,
    /// The plain field that begins the line is active: a quote or a comma
    /// completes it.
    InUnquotedField,
    /// A quote has opened a field that no quote has closed yet: a comma is
    /// data here.
    InQuotedField,
    /// The previous character was a quote that closed a field: a comma is
    /// dropped here.
    JustClosedQuotedField,
}

impl FieldState {
    /// Whether a field is active, so that a quote closes it.
    pub open spec fn is_active(self) -> bool {
        self == FieldState::InUnquotedField || self == FieldState::InQuotedField
    }
}

/// What the tokenizer has made of a prefix of a line.
pub struct Scan {
    /// The state after the last character read.
    pub state: FieldState,
    /// The completed fields, in the order in which they ended.
    pub fields: Seq<Seq<char>>,
    /// The characters gathered for the field that has not ended yet.
    pub pending: Seq<char>,
    /// Whether a newline was met; nothing is read after it.
    pub stopped: bool,
}

/// The tokenizer before the first character of `line`: a line that begins
/// with a quote starts outside any field, so that this quote opens one; every
/// other line starts inside a plain field.
pub open spec fn start(line: Seq<char>) -> Scan {
    Scan {
        state: if line.len() > 0 && line[0] == '"' {
            FieldState::OutsideField
        } else {
            FieldState::InUnquotedField
        },
        fields: Seq::empty(),
        pending: Seq::empty(),
        stopped: false,
    }
}

/// The tokenizer after it has read `c`.
///
/// - After a newline nothing changes any more.
/// - A quote closes the active field, which is then complete; where no field
///   is active it opens a quoted one, which starts empty.
/// - A comma directly after a closing quote is dropped; inside a quoted field
///   it is data; anywhere else it completes the field gathered so far.
/// - Every other character is data.
pub open spec fn step(s: Scan, c: char) -> Scan {
    if s.stopped {
        s
    } else if c == '\n' {
        Scan { stopped: true, ..s }
    } else if c == '"' {
        if s.state.is_active() {
            Scan {
                state: FieldState::JustClosedQuotedField,
                fields: s.fields.push(s.pending),
                pending: Seq::empty(),
                stopped: false,
            }
        } else {
            Scan { state: FieldState::InQuotedField, pending: Seq::empty(), ..s }
        }
    } else if c == ',' {
        match s.state {
            FieldState::JustClosedQuotedField => Scan { state: FieldState::OutsideField, ..s },
            FieldState::InQuotedField => Scan { pending: s.pending.push(c), ..s },
            _ => Scan {
                state: FieldState::OutsideField,
                fields: s.fields.push(s.pending),
                pending: Seq::empty(),
                stopped: false,
            },
        }
    } else {
        Scan {
            state: if s.state == FieldState::JustClosedQuotedField {
                FieldState::OutsideField
            } else {
                s.state
            },
            pending: s.pending.push(c),
            ..s
        }
    }
}

/// The tokenizer after the first `n` characters of `line`.
pub open spec fn scan(line: Seq<char>, n: nat) -> Scan
    recommends
        n <= line.len(),
    decreases n,
{
    if n == 0 {
        start(line)
    } else {
        step(scan(line, (n - 1) as nat), line[n - 1])
    }
}

/// The fields of `line`: those completed before its first newline if it has
/// one; otherwise those completed in the whole line, and after them what was
/// gathered when the line ended.
pub open spec fn tokenize(line: Seq<char>) -> Seq<Seq<char>> {
    let s = scan(line, line.len());
    if s.stopped {
        s.fields
    } else {
        s.fields.push(s.pending)
    }
}

/// Once a newline was read, the rest of the line changes nothing.
pub proof fn lemma_stopped_scan_stays(line: Seq<char>, k: nat, n: nat)
    requires
        k <= n,
        scan(line, k).stopped,
    ensures
        scan(line, n) == scan(line, k),
    decreases n,
{
    if k < n {
        lemma_stopped_scan_stays(line, k, (n - 1) as nat);
    }
}

/// The state in which the tokenizer reads the first character of `line`.
fn first_state(line: &str) -> (state: FieldState)
    ensures
        state == start(line@).state,
{
    let mut chars = line.chars();
    match chars.next() {
        Some(c) => {
            if c == '"' {
                FieldState::OutsideField
            } else {
                FieldState::InUnquotedField
            }
        },
        None => FieldState::InUnquotedField,
    }
}

/// Splits one line into its fields, in the order in which they stand in it.
pub fn parse_line(line: &str) -> (row: Vec<String>)
    ensures
        row.deep_view() == tokenize(line@),
{
    let mut row: Vec<String> = Vec::new();
    let mut cell = String::new();
    let mut state = first_state(line);
    assert(row.deep_view() =~= Seq::<Seq<char>>::empty());
    for c in iter: line.chars()
        invariant
            iter.seq() == line@,
            !scan(line@, iter.index() as nat).stopped,
            scan(line@, iter.index() as nat).state == state,
            scan(line@, iter.index() as nat).fields == row.deep_view(),
            scan(line@, iter.index() as nat).pending == cell@,
    {
        let ghost before = scan(line@, iter.index() as nat);
        assert(scan(line@, (iter.index() + 1) as nat) == step(before, c));
        if c == '\n' {
            proof {
                lemma_stopped_scan_stays(line@, (iter.index() + 1) as nat, line@.len());
            }
            return row;
        } else if c == '"' {
            match state {
                FieldState::InUnquotedField | FieldState::InQuotedField => {
                    row.push(cell);
                    assert(row.deep_view() =~= before.fields.push(before.pending));
                    state = FieldState::JustClosedQuotedField;
                },
                _ => {
                    state = FieldState::InQuotedField;
                },
            }
            cell = String::new();
        } else if c == ',' {
            match state {
                FieldState::JustClosedQuotedField => {
                    state = FieldState::OutsideField;
                },
                FieldState::InQuotedField => {
                    cell.push(c);
                },
                _ => {
                    row.push(cell);
                    assert(row.deep_view() =~= before.fields.push(before.pending));
                    cell = String::new();
                    state = FieldState::OutsideField;
                },
            }
        } else {
            cell.push(c);
            match state {
                FieldState::JustClosedQuotedField => {
                    state = FieldState::OutsideField;
                },
                _ => {},
            }
        }
    }
    let ghost done = scan(line@, line@.len());
    row.push(cell);
    assert(row.deep_view() =~= done.fields.push(done.pending));
    row
}

} // verus!
