//! Reads comma-separated text into a header row and data rows.

pub mod chars;
pub mod document;
pub mod lines;
pub mod text;
pub mod tokenizer;
pub mod tokenizer_laws;

pub use document::{CellType, CsvError, CsvParser};
pub use lines::split_lines;
pub use tokenizer::parse_line;
