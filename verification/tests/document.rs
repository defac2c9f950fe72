use csv_parser::{parse_line, split_lines, CsvError, CsvParser};

fn strings(items: &[&str]) -> Vec<String> {
    items.iter().map(|s| String::from(*s)).collect()
}

#[test]
fn no_quotes() {
    let csv_parser = CsvParser::new(&String::from(
        "Column 1,Column 2,Column 3,Column 4,Column 5\n\
         1,2,3,4,5\n\
         6,7,8,9,10\n\
         11,12,13,14,15\n\
         16,17,18,19,20\n\
         21,22,23,24,25\n",
    ))
    .unwrap();
    let expected = vec![
        String::from("Column 1"),
        String::from("Column 2"),
        String::from("Column 3"),
        String::from("Column 4"),
        String::from("Column 5"),
    ];

    println!("{:?}", csv_parser);

    assert_eq!(*csv_parser.header(), expected);
    assert_eq!(csv_parser.rows().len(), 5);
}

#[test]
fn with_quotes() {
    let csv_parser = CsvParser::new(&String::from(
        "Column 1,Column 2,Column 3,Column 4,Column 5\n\
         1,2,3,4,5\n\
         foo,\"hello,world\",baz,qux,quux\n\
         11,12,13,14,15\n\
         16,17,18,19,20\n\
         21,22,23,24,25\n",
    ))
    .unwrap();
    let expected = vec![
        String::from("Column 1"),
        String::from("Column 2"),
        String::from("Column 3"),
        String::from("Column 4"),
        String::from("Column 5"),
    ];

    println!("{:?}", csv_parser);

    assert_eq!(*csv_parser.header(), expected);
    assert_eq!(csv_parser.rows().len(), 5);
    assert_eq!(csv_parser.rows()[1][1], String::from("hello,world"));
    assert_eq!(csv_parser.rows()[1][2], String::from("baz"));
}

#[test]
fn five_by_five_document() {
    let doc = CsvParser::new(
        "Column 1,Column 2,Column 3,Column 4,Column 5\n\
         a1,b1,c1,d1,e1\n\
         a2,b2,c2,d2,e2\n\
         a3,b3,c3,d3,e3\n\
         a4,b4,c4,d4,e4\n\
         a5,b5,c5,d5,e5",
    )
    .unwrap();
    assert_eq!(doc.header().len(), 5);
    assert_eq!(doc.rows().len(), 5);
    for row in doc.rows() {
        assert_eq!(row.len(), 5);
    }
    assert_eq!(doc.rows()[0], strings(&["a1", "b1", "c1", "d1", "e1"]));
    assert_eq!(doc.rows()[4], strings(&["a5", "b5", "c5", "d5", "e5"]));
}

#[test]
fn quoted_data_row() {
    let doc = CsvParser::new("h1,h2,h3,h4,h5\nfoo,\"hello,world\",baz,qux,quux\n").unwrap();
    assert_eq!(doc.rows().len(), 1);
    assert_eq!(doc.rows()[0], strings(&["foo", "hello,world", "baz", "qux", "quux"]));
}

#[test]
fn empty_text_is_empty_input() {
    assert_eq!(CsvParser::new("").err(), Some(CsvError::EmptyInput));
    assert_eq!(CsvParser::from_read(Some(String::new())).err(), Some(CsvError::EmptyInput));
}

#[test]
fn failed_read_is_unreadable_input() {
    assert_eq!(CsvParser::from_read(None).err(), Some(CsvError::UnreadableInput));
}

#[test]
fn read_text_is_built_like_the_text_itself() {
    let text = "a,b\n1,\"2,3\"\n";
    let from_read = CsvParser::from_read(Some(String::from(text))).unwrap();
    let direct = CsvParser::new(text).unwrap();
    assert_eq!(from_read.header(), direct.header());
    assert_eq!(from_read.rows(), direct.rows());
}

#[test]
fn header_only_text_has_no_rows() {
    let doc = CsvParser::new("a,b,c").unwrap();
    assert_eq!(*doc.header(), strings(&["a", "b", "c"]));
    assert!(doc.rows().is_empty());
}

#[test]
fn single_newline_is_a_document_with_an_empty_header_field() {
    let doc = CsvParser::new("\n").unwrap();
    assert_eq!(*doc.header(), strings(&[""]));
    assert!(doc.rows().is_empty());
}

#[test]
fn header_and_rows_are_tokenized_line_by_line() {
    let text = "name,\"last, first\",age\r\nx,\"y,z\",3\n\nlonger,row,than,the,header\nshort";
    let doc = CsvParser::new(text).unwrap();
    let lines = split_lines(text);
    assert_eq!(lines.len(), 5);
    assert_eq!(*doc.header(), parse_line(&lines[0]));
    assert_eq!(doc.rows().len(), lines.len() - 1);
    for (row, line) in doc.rows().iter().zip(lines.iter().skip(1)) {
        assert_eq!(*row, parse_line(line));
    }
}

#[test]
fn rows_are_not_held_to_the_header_width() {
    let doc = CsvParser::new("a,b\n1\n1,2,3\n").unwrap();
    assert_eq!(doc.header().len(), 2);
    assert_eq!(doc.rows()[0], strings(&["1"]));
    assert_eq!(doc.rows()[1], strings(&["1", "2", "3"]));
}

#[test]
fn blank_line_is_a_row_of_one_empty_field() {
    let doc = CsvParser::new("a\n\nb\n").unwrap();
    assert_eq!(doc.rows().len(), 2);
    assert_eq!(doc.rows()[0], strings(&[""]));
    assert_eq!(doc.rows()[1], strings(&["b"]));
}

#[test]
fn windows_line_endings_leave_no_carriage_return() {
    let doc = CsvParser::new("a,b\r\n1,2\r\n").unwrap();
    assert_eq!(*doc.header(), strings(&["a", "b"]));
    assert_eq!(doc.rows()[0], strings(&["1", "2"]));
}

#[test]
fn error_messages() {
    assert_eq!(CsvError::UnreadableInput.message(), "Failed to read CSV.");
    assert_eq!(CsvError::EmptyInput.message(), "CSV has no data.");
    assert_ne!(CsvError::UnreadableInput, CsvError::EmptyInput);
}
