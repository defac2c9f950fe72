use csv_parser::parse_line;

fn fields(line: &str) -> Vec<String> {
    parse_line(line)
}

fn strings(items: &[&str]) -> Vec<String> {
    items.iter().map(|s| String::from(*s)).collect()
}

#[test]
fn plain_line_splits_at_commas() {
    assert_eq!(fields("a,b,c"), strings(&["a", "b", "c"]));
}

#[test]
fn plain_line_has_one_field_more_than_commas() {
    for line in ["", "a", ",", "a,b", ",,", "one,two,,four,", " a , b "] {
        let commas = line.chars().filter(|c| *c == ',').count();
        assert_eq!(fields(line).len(), commas + 1, "line {:?}", line);
    }
}

#[test]
fn empty_line_is_one_empty_field() {
    assert_eq!(fields(""), strings(&[""]));
}

#[test]
fn empty_fields_are_kept() {
    assert_eq!(fields(",a,,b,"), strings(&["", "a", "", "b", ""]));
}

#[test]
fn spaces_are_data() {
    assert_eq!(fields(" a , b "), strings(&[" a ", " b "]));
}

#[test]
fn quoted_field_keeps_its_commas() {
    assert_eq!(fields("a,\"hello,world\",b"), strings(&["a", "hello,world", "b"]));
}

#[test]
fn quoted_row_of_five_fields() {
    assert_eq!(
        fields("foo,\"hello,world\",baz,qux,quux"),
        strings(&["foo", "hello,world", "baz", "qux", "quux"])
    );
}

#[test]
fn quoted_field_with_several_commas() {
    assert_eq!(fields("x,\",a,,b,\",y"), strings(&["x", ",a,,b,", "y"]));
}

#[test]
fn line_that_begins_with_a_quote() {
    assert_eq!(fields("\"a,b\",c"), strings(&["a,b", "c"]));
}

#[test]
fn comma_after_closing_quote_starts_no_field() {
    assert_eq!(fields("\"a\",b"), strings(&["a", "b"]));
    assert_eq!(fields("\"a\",\"b\",c"), strings(&["a", "b", "c"]));
}

#[test]
fn only_one_comma_after_closing_quote_is_dropped() {
    assert_eq!(fields("\"a\",,b"), strings(&["a", "", "b"]));
}

#[test]
fn comma_is_dropped_only_directly_after_the_quote() {
    assert_eq!(fields("\"a\"b,c"), strings(&["a", "b", "c"]));
}

#[test]
fn quoted_field_at_the_end_leaves_an_empty_field() {
    assert_eq!(fields("\"a\""), strings(&["a", ""]));
    assert_eq!(fields("a,\"b\""), strings(&["a", "b", ""]));
}

#[test]
fn trailing_text_is_the_last_field() {
    assert_eq!(fields("a,b,tail"), strings(&["a", "b", "tail"]));
    assert_eq!(fields("tail"), strings(&["tail"]));
    assert_eq!(fields("\"a\",tail"), strings(&["a", "tail"]));
}

#[test]
fn trailing_text_extends_the_last_field() {
    for head in ["", "a", "a,", "a,b", "\"a", "\"a\"", "\"a\",", "a\"b"] {
        let mut expected = fields(head);
        expected.last_mut().unwrap().push_str("xyz");
        let line = format!("{}xyz", head);
        assert_eq!(fields(&line), expected, "line {:?}", line);
    }
}

#[test]
fn unterminated_quote_yields_what_was_gathered() {
    assert_eq!(fields("a,\"bc"), strings(&["a", "bc"]));
    assert_eq!(fields("\"a,b"), strings(&["a,b"]));
}

#[test]
fn quote_inside_a_plain_first_field_ends_it() {
    assert_eq!(fields("ab\"cd"), strings(&["ab", "cd"]));
}

#[test]
fn quote_inside_a_quoted_field_ends_it() {
    assert_eq!(fields("\"ab\"cd\"ef"), strings(&["ab", "ef"]));
}

#[test]
fn opening_quote_starts_an_empty_field() {
    assert_eq!(fields("a,b\"c\""), strings(&["a", "c", ""]));
}

#[test]
fn newline_ends_the_scan_without_a_last_field() {
    assert_eq!(fields("a,b\nc,d"), strings(&["a"]));
    assert_eq!(fields("a,b,\n"), strings(&["a", "b"]));
    assert_eq!(fields("\n"), Vec::<String>::new());
    assert_eq!(fields("abc\n"), Vec::<String>::new());
    assert_eq!(fields("\"a,\nb\""), Vec::<String>::new());
}

#[test]
fn non_ascii_text_is_kept() {
    assert_eq!(fields("né,\"ü,ß\",日本"), strings(&["né", "ü,ß", "日本"]));
}

#[test]
fn fields_hold_no_quote() {
    for line in ["\"a\"", "a\"b\"c", "\"\"\"", "a,\"b,c\",d", "\"", "x\"y"] {
        for field in fields(line) {
            assert!(!field.contains('"'), "line {:?}", line);
        }
    }
}

#[test]
fn plain_fields_joined_by_commas_are_the_line() {
    for line in ["", "a", ",", "a,b", ",,", "one,two,,four,", " a , b ", "x\ry,z"] {
        let row = fields(line);
        assert_eq!(row.join(","), line);
        for field in row {
            assert!(!field.contains(','), "line {:?}", line);
        }
    }
}

#[test]
fn fields_are_stretches_of_the_line() {
    let lines = [
        "a,b,c",
        "a,\"b,c\",d",
        "\"a\"b,c",
        "a,b\"c\"",
        "\"a\"\"b,c\"",
        "ab\"cd\"ef\"gh",
        "\"a\" ,b",
        "a,\"b\nc\",d",
    ];
    for line in lines {
        for field in fields(line) {
            assert!(line.contains(field.as_str()), "line {:?} field {:?}", line, field);
        }
    }
}

#[test]
fn quoted_field_follows_one_field_for_each_comma_before_it() {
    for plain in ["", "a", "a,b", ",", "x,y,z"] {
        let line = format!("{},\"p,q\",rest", plain);
        let commas = plain.chars().filter(|c| *c == ',').count();
        assert_eq!(fields(&line)[commas + 1], "p,q", "line {:?}", line);
    }
}

#[test]
fn quote_right_after_a_closing_quote_opens_a_field() {
    assert_eq!(fields("\"a\"\"b,c\""), strings(&["a", "b,c", ""]));
}

#[test]
fn text_after_a_closing_quote_is_a_field_of_its_own() {
    assert_eq!(fields("\"a\" ,b"), strings(&["a", " ", "b"]));
}
