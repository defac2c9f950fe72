//! The document: a header row and the data rows under it.
//!
//! The first line of a text is its header, every later line a data row. Each
//! is tokenized by itself; no row is held to the header's number of fields.

use crate::lines::{lemma_lines_hold_no_newline, lemma_text_without_lines, lines_of, split_lines};
use crate::tokenizer::{parse_line, tokenize};
use crate::tokenizer_laws::lemma_line_has_a_field;
use vstd::prelude::*;

verus! {

/// What a field's text stands for. The parser reads every field as text and
/// assigns no kind to it.
#[derive(Clone, Copy, Debug, PartialEq, Eq, Structural)]
pub enum CellType {
    Text,
    Number,
}

/// Why no document was built.
#[derive(Clone, Copy, Debug, PartialEq, Eq, Structural)]
pub enum CsvError {
    /// The input could not be read.
    UnreadableInput,
    /// The input has no line, so there is no header.
    EmptyInput,
}

impl CsvError {
    /// The text that `message` returns.
    pub open spec fn spec_message(self) -> Seq<char> {
        match self {
            CsvError::UnreadableInput => "Failed to read CSV."@,
            CsvError::EmptyInput => "CSV has no data."@,
        }
    }

    /// A sentence that names the failure.
    pub fn message(&self) -> (text: String)
        ensures
            text@ == self.spec_message(),
    {
        match self {
            CsvError::UnreadableInput => "Failed to read CSV.".to_owned(),
            CsvError::EmptyInput => "CSV has no data.".to_owned(),
        }
    }
}

/// A document as plain values: each field is the sequence of its characters.
pub struct Document {
    pub header: Seq<Seq<char>>,
    pub rows: Seq<Seq<Seq<char>>>,
}

/// The document that `text` holds, or the reason why it holds none.
pub open spec fn document_of(text: Seq<char>) -> Result<Document, CsvError> {
    let lines = lines_of(text);
    if lines.len() == 0 {
        Err(CsvError::EmptyInput)
    } else {
        Ok(
            Document {
                header: tokenize(lines[0]),
                rows: Seq::new((lines.len() - 1) as nat, |i: int| tokenize(lines[i + 1])),
            },
        )
    }
}

/// What was read, as plain values.
pub open spec fn text_of(read: Option<String>) -> Option<Seq<char>> {
    match read {
        Some(text) => Some(text@),
        None => None,
    }
}

/// The document that a read attempt gives: `None` stands for input that could
/// not be read.
pub open spec fn document_of_read(read: Option<Seq<char>>) -> Result<Document, CsvError> {
    match read {
        Some(text) => document_of(text),
        None => Err(CsvError::UnreadableInput),
    }
}

/// A parsed document. It does not change once it is built.
#[derive(Debug)]
pub struct CsvParser {
    header: Vec<String>,
    rows: Vec<Vec<String>>,
}

impl View for CsvParser {
    type V = Document;

    closed spec fn view(&self) -> Document {
        Document { header: self.header.deep_view(), rows: self.rows.deep_view() }
    }
}

impl CsvParser {
    /// Builds the document that `contents` holds. Only a text without any
    /// line, which is the empty text, holds none.
    pub fn new(contents: &str) -> (built: Result<CsvParser, CsvError>)
        ensures
            match built {
                Ok(doc) => document_of(contents@) == Ok::<Document, CsvError>(doc@),
                Err(e) => document_of(contents@) == Err::<Document, CsvError>(e),
            },
            built is Err <==> contents@.len() == 0,
    {
        let lines = split_lines(contents);
        proof {
            lemma_text_without_lines(contents@);
        }
        if lines.len() == 0 {
            return Err(CsvError::EmptyInput);
        }
        let header = parse_line(lines[0].as_str());
        let mut rows: Vec<Vec<String>> = Vec::new();
        let mut i: usize = 1;
        while i < lines.len()
            invariant
                1 <= i <= lines.len(),
                lines.deep_view() == lines_of(contents@),
                rows.len() == i - 1,
                forall|j: int|
                    0 <= j < rows.len() ==> (#[trigger] rows[j]).deep_view() == tokenize(
                        lines_of(contents@)[j + 1],
                    ),
            decreases lines.len() - i,
        {
            let row = parse_line(lines[i].as_str());
            assert(lines.deep_view()[i as int] == lines[i as int]@);
            rows.push(row);
            i += 1;
        }
        assert(lines.deep_view()[0] == lines[0]@);
        let doc = CsvParser { header, rows };
        assert(doc@.rows =~= document_of(contents@)->Ok_0.rows);
        Ok(doc)
    }

    /// Builds the document from what an attempt to read the input gave:
    /// `None` where it could not be read, else the text that was read.
    pub fn from_read(read: Option<String>) -> (built: Result<CsvParser, CsvError>)
        ensures
            match built {
                Ok(doc) => document_of_read(text_of(read)) == Ok::<Document, CsvError>(doc@),
                Err(e) => document_of_read(text_of(read)) == Err::<Document, CsvError>(e),
            },
    {
        match read {
            Some(text) => CsvParser::new(text.as_str()),
            None => Err(CsvError::UnreadableInput),
        }
    }

    /// The fields of the first line.
    pub fn header(&self) -> (header: &Vec<String>)
        ensures
            header.deep_view() == self@.header,
    {
        &self.header
    }

    /// The data rows, in the order of their lines.
    pub fn rows(&self) -> (rows: &Vec<Vec<String>>)
        ensures
            rows.deep_view() == self@.rows,
    {
        &self.rows
    }
}

/// The header and the rows come from one tokenizer: the header is what the
/// first line gives when it is tokenized by itself, and each row is what its
/// own line gives.
pub proof fn lemma_header_and_rows_tokenized_alike(text: Seq<char>)
    requires
        lines_of(text).len() > 0,
    ensures
        document_of(text) is Ok,
        document_of(text)->Ok_0.header == tokenize(lines_of(text)[0]),
        document_of(text)->Ok_0.rows.len() == lines_of(text).len() - 1,
        forall|i: int|
            0 <= i < lines_of(text).len() - 1 ==> #[trigger] document_of(text)->Ok_0.rows[i]
                == tokenize(lines_of(text)[i + 1]),
{
}

/// The empty text, and no other, holds no document: it gives `EmptyInput`.
pub proof fn lemma_empty_text_holds_no_document(text: Seq<char>)
    ensures
        text.len() == 0 <==> document_of(text) == Err::<Document, CsvError>(CsvError::EmptyInput),
        text.len() == 0 <==> document_of(text) is Err,
{
    lemma_text_without_lines(text);
}

/// A document has at least one header field, and each of its rows has at
/// least one field.
pub proof fn lemma_document_rows_have_a_field(text: Seq<char>)
    requires
        document_of(text) is Ok,
    ensures
        document_of(text)->Ok_0.header.len() >= 1,
        forall|i: int|
            0 <= i < document_of(text)->Ok_0.rows.len() ==> (#[trigger] document_of(
                text,
            )->Ok_0.rows[i]).len() >= 1,
{
    let lines = lines_of(text);
    assert forall|i: int| 0 <= i < lines.len() implies tokenize(#[trigger] lines[i]).len()
        >= 1 by {
        lemma_lines_hold_no_newline(text, i);
        lemma_line_has_a_field(lines[i]);
    }
    assert forall|i: int| 0 <= i < document_of(text)->Ok_0.rows.len() implies (
    #[trigger] document_of(text)->Ok_0.rows[i]).len() >= 1 by {
        assert(document_of(text)->Ok_0.rows[i] == tokenize(lines[i + 1]));
    }
}

} // verus!
