use line_parser::chars::ends_line;
use line_parser::{
    data_rows, parse_comment, parse_csv, parse_line, parse_lines, Comment, Line, ParseError, CSV,
};

#[test]
fn comment_of_marker_and_alphanumerics() {
    assert_eq!(parse_comment("#abc123XYZ"), Ok(("", Comment { text: "abc123XYZ" })));
}

#[test]
fn comment_may_be_empty() {
    assert_eq!(parse_comment("#"), Ok(("", Comment { text: "" })));
    assert_eq!(parse_comment("#\nx"), Ok(("\nx", Comment { text: "" })));
}

#[test]
fn comment_takes_free_text_up_to_the_line_terminator() {
    assert_eq!(
        parse_comment("# a, b; c!\n1,2"),
        Ok(("\n1,2", Comment { text: " a, b; c!" }))
    );
    assert_eq!(parse_comment("##x"), Ok(("", Comment { text: "#x" })));
}

#[test]
fn comment_keeps_a_carriage_return() {
    assert_eq!(parse_comment("#a\rb\nc"), Ok(("\nc", Comment { text: "a\rb" })));
    assert_eq!(parse_comment("#a\r\nc"), Ok(("\nc", Comment { text: "a\r" })));
}

#[test]
fn comment_keeps_characters_beyond_ascii() {
    assert_eq!(parse_comment("#h\u{e9}llo\nx"), Ok(("\nx", Comment { text: "h\u{e9}llo" })));
}

#[test]
fn comment_needs_the_marker() {
    assert_eq!(parse_comment("woob"), Err(ParseError::NotAComment));
    assert_eq!(parse_comment(""), Err(ParseError::NotAComment));
    assert_eq!(parse_comment(" #x"), Err(ParseError::NotAComment));
    assert_eq!(parse_comment("\n#x"), Err(ParseError::NotAComment));
}

#[test]
fn row_of_joined_fields() {
    assert_eq!(parse_csv("a1,b2,c3"), Ok(("", CSV { vals: vec!["a1", "b2", "c3"] })));
    assert_eq!(parse_csv("7"), Ok(("", CSV { vals: vec!["7"] })));
}

#[test]
fn row_stops_before_what_is_no_field() {
    assert_eq!(parse_csv("x,"), Ok((",", CSV { vals: vec!["x"] })));
    assert_eq!(parse_csv("x,,y"), Ok((",,y", CSV { vals: vec!["x"] })));
    assert_eq!(parse_csv("x,y z"), Ok((" z", CSV { vals: vec!["x", "y"] })));
    assert_eq!(parse_csv("x,y\nz"), Ok(("\nz", CSV { vals: vec!["x", "y"] })));
    assert_eq!(parse_csv("x, y"), Ok((", y", CSV { vals: vec!["x"] })));
}

#[test]
fn row_needs_a_first_field() {
    assert_eq!(parse_csv(""), Err(ParseError::MalformedRow));
    assert_eq!(parse_csv(",x"), Err(ParseError::MalformedRow));
    assert_eq!(parse_csv("!x"), Err(ParseError::MalformedRow));
    assert_eq!(parse_csv(" x"), Err(ParseError::MalformedRow));
    assert_eq!(parse_csv("#x"), Err(ParseError::MalformedRow));
}

#[test]
fn field_is_ascii_letters_and_digits() {
    assert_eq!(parse_csv("\u{e9}"), Err(ParseError::MalformedRow));
    assert_eq!(parse_csv("a\u{e9}"), Ok(("\u{e9}", CSV { vals: vec!["a"] })));
    assert_eq!(parse_csv("azAZ09_"), Ok(("_", CSV { vals: vec!["azAZ09"] })));
}

#[test]
fn line_tries_the_comment_first() {
    assert_eq!(parse_line("#x,y"), Ok(("", Line::Comment(Comment { text: "x,y" }))));
    assert_eq!(parse_line("x,y#z"), Ok(("#z", Line::Data(CSV { vals: vec!["x", "y"] }))));
}

#[test]
fn line_needs_a_comment_or_a_row() {
    assert_eq!(parse_line(""), Err(ParseError::UnrecognizedLine));
    assert_eq!(parse_line("!"), Err(ParseError::UnrecognizedLine));
    assert_eq!(parse_line("\n"), Err(ParseError::UnrecognizedLine));
    assert_eq!(parse_line(",a"), Err(ParseError::UnrecognizedLine));
}

#[test]
fn document_may_be_empty_or_blank() {
    assert_eq!(parse_lines(""), Ok(("", vec![])));
    assert_eq!(parse_lines("\n\n"), Ok(("", vec![])));
    assert_eq!(parse_lines(" \t\r\n"), Ok(("", vec![])));
}

#[test]
fn document_ignores_trailing_white_space() {
    let expected = vec![Line::Data(CSV { vals: vec!["a"] })];
    assert_eq!(parse_lines("a"), Ok(("", expected)));
    let expected = vec![Line::Data(CSV { vals: vec!["a"] })];
    assert_eq!(parse_lines("a\n"), Ok(("", expected)));
    let expected = vec![Line::Data(CSV { vals: vec!["a"] })];
    assert_eq!(parse_lines("a \t\r\n \n"), Ok(("", expected)));
}

#[test]
fn document_keeps_the_order_of_its_lines() {
    let expected = vec![
        Line::Data(CSV { vals: vec!["1", "2"] }),
        Line::Comment(Comment { text: " note" }),
        Line::Comment(Comment { text: "" }),
        Line::Data(CSV { vals: vec!["3"] }),
    ];
    assert_eq!(parse_lines("1,2\n# note\n#\n3\n"), Ok(("", expected)));
}

#[test]
fn document_with_a_line_of_punctuation_is_rejected() {
    assert_eq!(parse_lines("#xy\n!!!\n6,7"), Err(ParseError::TrailingInput));
    assert_eq!(parse_lines("!!!"), Err(ParseError::TrailingInput));
    assert_eq!(parse_lines("6,7\n;"), Err(ParseError::TrailingInput));
}

#[test]
fn document_with_a_half_parsed_line_is_rejected() {
    assert_eq!(parse_lines("a,b!\nc"), Err(ParseError::TrailingInput));
    assert_eq!(parse_lines("a,,b"), Err(ParseError::TrailingInput));
    assert_eq!(parse_lines("a,"), Err(ParseError::TrailingInput));
    assert_eq!(parse_lines("a b"), Err(ParseError::TrailingInput));
}

#[test]
fn document_with_a_blank_line_between_lines_is_rejected() {
    assert_eq!(parse_lines("a\n\nb"), Err(ParseError::TrailingInput));
    assert_eq!(parse_lines("\na"), Err(ParseError::TrailingInput));
    assert_eq!(parse_lines("a\r\nb"), Err(ParseError::TrailingInput));
}

#[test]
fn rows_of_a_document() {
    let (rest, lines) = parse_lines("#h\n1,2\n#c\n3\n").unwrap();
    assert_eq!(rest, "");
    let rows = data_rows(&lines);
    assert_eq!(rows, vec![&CSV { vals: vec!["1", "2"] }, &CSV { vals: vec!["3"] }]);
    assert_eq!(format!("{:?}", rows), "[CSV { vals: [\"1\", \"2\"] }, CSV { vals: [\"3\"] }]");
}

#[test]
fn rows_of_comments_only() {
    let (_, lines) = parse_lines("#a\n#b").unwrap();
    assert_eq!(lines.len(), 2);
    assert!(data_rows(&lines).is_empty());
    assert!(data_rows(&vec![]).is_empty());
}

#[test]
fn line_from_comment_and_from_row() {
    assert_eq!(Line::from(Comment { text: "c" }), Line::Comment(Comment { text: "c" }));
    assert_eq!(Line::from(CSV { vals: vec!["r"] }), Line::Data(CSV { vals: vec!["r"] }));
}

#[test]
fn only_the_line_feed_ends_a_line() {
    assert!(ends_line('\n'));
    assert!(!ends_line('\r'));
    assert!(!ends_line(' '));
    assert!(!ends_line('#'));
}
