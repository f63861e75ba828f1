//! The values that the parser hands out: comments, rows, lines, and the
//! reasons for which it fails.

use vstd::prelude::*;

use crate::grammar::{is_comment_text, is_row, LineView};

verus! {

/// Why a text was not accepted.
#[derive(Debug, Clone, Copy, PartialEq, Eq)]
pub enum ParseError {
    /// The text does not start with the comment marker.
    NotAComment,
    /// The text does not start with a field.
    MalformedRow,
    /// The text starts with neither a comment nor a row.
    UnrecognizedLine,
    /// Something other than white space follows the last line.
    TrailingInput,
}

/// The text of a comment line, without the marker and the line terminator.
#[derive(Debug, PartialEq)]
pub struct Comment<'a> {
    pub text: &'a str,
}

/// The fields of a row, in the order of its columns.
#[derive(Debug, PartialEq)]
pub struct CSV<'a> {
    pub vals: Vec<&'a str>,
}

/// One line of a document.
#[derive(Debug, PartialEq)]
pub enum Line<'a> {
    Comment(Comment<'a>),
    Data(CSV<'a>),
}

/// The texts of `fields`, one for one.
pub open spec fn texts_of<'a>(fields: Seq<&'a str>) -> Seq<Seq<char>> {
    Seq::new(fields.len(), |i: int| fields[i]@)
}

/// The values of `lines`, one for one.
pub open spec fn views_of<'a>(lines: Seq<Line<'a>>) -> Seq<LineView> {
    Seq::new(lines.len(), |i: int| lines[i]@)
}

/// The fields of `rows`, one for one.
pub open spec fn fields_of<'a, 'b>(rows: Seq<&'b CSV<'a>>) -> Seq<Seq<Seq<char>>> {
    Seq::new(rows.len(), |i: int| rows[i]@)
}

impl<'a> View for Comment<'a> {
    type V = Seq<char>;

    open spec fn view(&self) -> Seq<char> {
        self.text@
    }
}

impl<'a> Comment<'a> {
    /// The text holds no line terminator.
    pub open spec fn wf(&self) -> bool {
        is_comment_text(self@)
    }
}

impl<'a> View for CSV<'a> {
    type V = Seq<Seq<char>>;

    open spec fn view(&self) -> Seq<Seq<char>> {
        texts_of(self.vals@)
    }
}

impl<'a> CSV<'a> {
    /// There is at least one field, and each is a non-empty text of letters
    /// and digits.
    pub open spec fn wf(&self) -> bool {
        is_row(self@)
    }
}

impl<'a> View for Line<'a> {
    type V = LineView;

    open spec fn view(&self) -> LineView {
        match self {
            Line::Comment(c) => LineView::Comment(c@),
            Line::Data(r) => LineView::Data(r@),
        }
    }
}

impl<'a> Line<'a> {
    /// The comment or the row that the line holds is well formed.
    pub open spec fn wf(&self) -> bool {
        self@.wf()
    }
}

impl<'a> From<Comment<'a>> for Line<'a> {
    /// The line that holds `comment`.
    fn from(comment: Comment<'a>) -> (line: Self) {
        Line::Comment(comment)
    }
}

impl<'a> vstd::std_specs::convert::FromSpecImpl<Comment<'a>> for Line<'a> {
    open spec fn obeys_from_spec() -> bool {
        true
    }

    open spec fn from_spec(comment: Comment<'a>) -> Self {
        Line::Comment(comment)
    }
}

impl<'a> From<CSV<'a>> for Line<'a> {
    /// The line that holds `row`.
    fn from(row: CSV<'a>) -> (line: Self) {
        Line::Data(row)
    }
}

impl<'a> vstd::std_specs::convert::FromSpecImpl<CSV<'a>> for Line<'a> {
    open spec fn obeys_from_spec() -> bool {
        true
    }

    open spec fn from_spec(row: CSV<'a>) -> Self {
        Line::Data(row)
    }
}

} // verus!
