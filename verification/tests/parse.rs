use line_parser::{parse_comment, parse_csv, parse_line, parse_lines, Comment, Line, CSV};

#[test]
fn test_parse_comment() {
    assert_eq!(parse_comment("#woob"), Ok(("", Comment { text: "woob" })));
}

#[test]
fn test_parse_comment_2() {
    assert_eq!(parse_comment("#woob"), Ok(("", Comment { text: "woob" })));
}

#[test]
fn test_parse_comment2() {
    assert_eq!(parse_comment("#woob\n#foob"), Ok(("\n#foob", Comment { text: "woob" })));
}

#[test]
fn test_parse_not_comment() {
    assert!(parse_comment("woob").is_err());
}

#[test]
fn test_parse_csv() {
    assert_eq!(parse_csv("x,y"), Ok(("", CSV { vals: vec!["x", "y"] })));
}

#[test]
fn test_parse_line_csv() {
    assert_eq!(parse_line("x,y"), Ok(("", Line::Data(CSV { vals: vec!["x", "y"] }))));
}

#[test]
fn test_parse_line_comment() {
    assert_eq!(parse_line("#xy"), Ok(("", Line::Comment(Comment { text: "xy" }))));
}

#[test]
fn test_parse_lines() {
    let src = "#xy\n6,7";
    let expected = vec![Comment { text: "xy"}.into(), CSV { vals: vec!["6","7"] }.into()];
    assert_eq!(parse_lines(src), Ok(("", expected)));
}

#[test]
fn test_parse_lines_trailing_newlines() {
    let src = "#xy\n6,7\n\n";
    let expected = vec![Comment { text: "xy"}.into(), CSV { vals: vec!["6","7"] }.into()];
    assert_eq!(parse_lines(src), Ok(("", expected)));
}
