//! A line-oriented parser: every line of a text is either a comment, which
//! starts with `#`, or a row of alphanumeric fields joined by `,`.

pub mod chars;
pub mod grammar;
pub mod laws;
pub mod line;
pub mod parser;
pub mod scan;

pub use line::{Comment, Line, ParseError, CSV};
pub use parser::{data_rows, parse_comment, parse_csv, parse_line, parse_lines};
