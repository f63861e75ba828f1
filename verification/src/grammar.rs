//! The grammar of lines as functions on sequences of characters: what each
//! parser makes of a text, and how much of the text it leaves.

use vstd::prelude::*;

use crate::chars::{
    alphanumeric, is_alphanumeric, is_comment_marker, is_field_separator, is_line_terminator,
    is_whitespace, leading, lemma_leading_ends_run, line_text,
};
use crate::line::ParseError;

verus! {

/// The outcome of a parser that succeeded: what it recognised, and the part
/// of the text that it left.
pub ghost struct Parsed<T> {
    pub value: T,
    pub rest: Seq<char>,
}

/// A line as a value: the text of a comment, or the fields of a row.
pub ghost enum LineView {
    Comment(Seq<char>),
    Data(Seq<Seq<char>>),
}

/// A field is a non-empty text of letters and digits.
pub open spec fn is_field(f: Seq<char>) -> bool {
    &&& f.len() > 0
    &&& forall|i: int| 0 <= i < f.len() ==> is_alphanumeric(#[trigger] f[i])
}

/// A row has at least one field.
pub open spec fn is_row(fields: Seq<Seq<char>>) -> bool {
    &&& fields.len() > 0
    &&& forall|i: int| 0 <= i < fields.len() ==> is_field(#[trigger] fields[i])
}

/// No further field of a row can be taken from `rest`: it starts neither
/// with a letter or a digit, nor with a separator and then a letter or a
/// digit.
pub open spec fn ends_row(rest: Seq<char>) -> bool {
    &&& rest.len() > 0 ==> !is_alphanumeric(rest[0])
    &&& rest.len() > 1 && is_field_separator(rest[0]) ==> !is_alphanumeric(rest[1])
}

/// The text of a comment stays on its line.
pub open spec fn is_comment_text(text: Seq<char>) -> bool {
    forall|i: int| 0 <= i < text.len() ==> !is_line_terminator(#[trigger] text[i])
}

impl LineView {
    /// A line holds a comment's text or a row.
    pub open spec fn wf(self) -> bool {
        match self {
            LineView::Comment(text) => is_comment_text(text),
            LineView::Data(fields) => is_row(fields),
        }
    }
}

/// The texts of `parts` in their order, with `separator` between each two.
pub open spec fn joined(parts: Seq<Seq<char>>, separator: char) -> Seq<char>
    decreases parts.len(),
{
    if parts.len() == 0 {
        Seq::empty()
    } else if parts.len() == 1 {
        parts[0]
    } else {
        parts[0] + seq![separator] + joined(parts.skip(1), separator)
    }
}

/// A line as text: the marker and the text of a comment, or the fields of a
/// row with a separator between each two.
pub open spec fn text_of(line: LineView) -> Seq<char> {
    match line {
        LineView::Comment(text) => seq!['#'] + text,
        LineView::Data(fields) => joined(fields, ','),
    }
}

/// Lines as text, with a line terminator between each two.
pub open spec fn rendered(lines: Seq<LineView>) -> Seq<char> {
    joined(Seq::new(lines.len(), |i: int| text_of(lines[i])), '\n')
}

/// A comment: the marker, then all up to the line terminator or the end of
/// the text. `None` where `s` does not start with the marker.
pub open spec fn comment_of(s: Seq<char>) -> Option<Parsed<Seq<char>>> {
    if s.len() > 0 && is_comment_marker(s[0]) {
        let body = s.skip(1);
        let n = leading(body, line_text()) as int;
        Some(Parsed { value: body.take(n), rest: body.skip(n) })
    } else {
        None
    }
}

/// A row: a field, then as many times a separator and a field as the text
/// holds. `None` where `s` does not start with a field.
pub open spec fn row_of(s: Seq<char>) -> Option<Parsed<Seq<Seq<char>>>>
    decreases s.len(),
{
    let n = leading(s, alphanumeric()) as int;
    if n > 0 {
        proof {
            lemma_leading_ends_run(s, alphanumeric());
        }
        let more = following_fields(s.skip(n));
        Some(Parsed { value: seq![s.take(n)] + more.value, rest: more.rest })
    } else {
        None
    }
}

/// The fields that follow a field: a separator and a row, or else nothing,
/// with `s` left as it is.
pub open spec fn following_fields(s: Seq<char>) -> Parsed<Seq<Seq<char>>>
    decreases s.len(),
{
    if s.len() > 0 && is_field_separator(s[0]) {
        match row_of(s.skip(1)) {
            Some(row) => row,
            None => Parsed { value: Seq::empty(), rest: s },
        }
    } else {
        Parsed { value: Seq::empty(), rest: s }
    }
}

/// A line: a comment where `s` starts with the marker, else a row. `None`
/// where `s` starts with neither.
pub open spec fn line_of(s: Seq<char>) -> Option<Parsed<LineView>> {
    match comment_of(s) {
        Some(c) => Some(Parsed { value: LineView::Comment(c.value), rest: c.rest }),
        None => match row_of(s) {
            Some(r) => Some(Parsed { value: LineView::Data(r.value), rest: r.rest }),
            None => None,
        },
    }
}

/// A comment takes the marker and its text from the start of `s`, and no
/// line terminator: what it leaves is the end of `s`, shorter than `s`, and
/// starts at a line terminator unless it is empty.
pub proof fn lemma_comment_of_consumes(s: Seq<char>)
    ensures
        comment_of(s) matches Some(c) ==> {
            &&& c.rest.len() < s.len()
            &&& is_comment_text(c.value)
            &&& s == seq!['#'] + c.value + c.rest
            &&& c.rest.len() > 0 ==> is_line_terminator(c.rest[0])
        },
{
    if comment_of(s) is Some {
        let body = s.skip(1);
        lemma_leading_ends_run(body, line_text());
        let n = leading(body, line_text()) as int;
        assert(s =~= seq!['#'] + body.take(n) + body.skip(n));
    }
}

/// A row takes well-formed fields from the start of `s`, and no line
/// terminator: what it leaves is the end of `s`, shorter than `s`.
pub proof fn lemma_row_of_consumes(s: Seq<char>)
    ensures
        row_of(s) matches Some(r) ==> {
            &&& r.rest.len() < s.len()
            &&& is_row(r.value)
            &&& r.rest == s.skip(s.len() - r.rest.len())
            &&& forall|i: int|
                0 <= i < s.len() - r.rest.len() ==> !is_line_terminator(#[trigger] s[i])
        },
    decreases s.len(),
{
    let n = leading(s, alphanumeric()) as int;
    if n > 0 {
        lemma_leading_ends_run(s, alphanumeric());
        let after = s.skip(n);
        let more = following_fields(after);
        let r = row_of(s)->Some_0;
        if after.len() > 0 && is_field_separator(after[0]) && row_of(after.skip(1)) is Some {
            let next = after.skip(1);
            lemma_row_of_consumes(next);
            assert(r.rest =~= s.skip(s.len() - r.rest.len()));
            assert forall|i: int| 0 <= i < s.len() - r.rest.len() implies !is_line_terminator(
                #[trigger] s[i],
            ) by {
                if i > n {
                    assert(s[i] == next[i - n - 1]);
                }
            }
        }
        assert forall|i: int| 0 <= i < r.value.len() implies is_field(#[trigger] r.value[i]) by {
            if i > 0 {
                assert(r.value[i] == more.value[i - 1]);
            }
        }
    }
}

/// A line takes a well-formed comment or row from the start of `s`, and no
/// line terminator: what it leaves is the end of `s`, shorter than `s`.
pub proof fn lemma_line_of_consumes(s: Seq<char>)
    ensures
        line_of(s) matches Some(l) ==> {
            &&& l.rest.len() < s.len()
            &&& l.value.wf()
            &&& l.rest == s.skip(s.len() - l.rest.len())
            &&& forall|i: int|
                0 <= i < s.len() - l.rest.len() ==> !is_line_terminator(#[trigger] s[i])
        },
{
    lemma_comment_of_consumes(s);
    lemma_row_of_consumes(s);
    if comment_of(s) is Some {
        let c = comment_of(s)->Some_0;
        let used = s.len() - c.rest.len();
        assert(c.rest =~= s.skip(used));
        assert forall|i: int| 0 <= i < used implies !is_line_terminator(#[trigger] s[i]) by {
            if i > 0 {
                assert(s[i] == c.value[i - 1]);
            }
        }
    }
}

/// The lines at the start of `s`, each but the last followed by one line
/// terminator. None where `s` does not start with a line.
pub open spec fn lines_of(s: Seq<char>) -> Parsed<Seq<LineView>>
    decreases s.len(), 1nat,
{
    match line_of(s) {
        Some(line) => {
            proof {
                lemma_line_of_consumes(s);
            }
            let more = following_lines(line.rest);
            Parsed { value: seq![line.value] + more.value, rest: more.rest }
        },
        None => Parsed { value: Seq::empty(), rest: s },
    }
}

/// The lines that follow a line: a line terminator and at least one line, or
/// else nothing, with `s` left as it is.
pub open spec fn following_lines(s: Seq<char>) -> Parsed<Seq<LineView>>
    decreases s.len(), 0nat,
{
    if s.len() > 0 && is_line_terminator(s[0]) {
        let more = lines_of(s.skip(1));
        if more.value.len() > 0 {
            more
        } else {
            Parsed { value: Seq::empty(), rest: s }
        }
    } else {
        Parsed { value: Seq::empty(), rest: s }
    }
}

/// A text of nothing but white space.
pub open spec fn is_blank(s: Seq<char>) -> bool {
    forall|i: int| 0 <= i < s.len() ==> is_whitespace(#[trigger] s[i])
}

/// A document: the lines of `s`, where nothing but white space follows them.
pub open spec fn document_of(s: Seq<char>) -> Result<Seq<LineView>, ParseError> {
    let lines = lines_of(s);
    if is_blank(lines.rest) {
        Ok(lines.value)
    } else {
        Err(ParseError::TrailingInput)
    }
}

/// The rows among `lines`, in their order.
pub open spec fn rows_of(lines: Seq<LineView>) -> Seq<Seq<Seq<char>>>
    decreases lines.len(),
{
    if lines.len() == 0 {
        Seq::empty()
    } else {
        let before = rows_of(lines.drop_last());
        match lines.last() {
            LineView::Data(fields) => before.push(fields),
            LineView::Comment(_) => before,
        }
    }
}

/// A row put after `lines` comes last among their rows; a comment changes
/// nothing.
pub proof fn lemma_rows_of_push(lines: Seq<LineView>, line: LineView)
    ensures
        rows_of(lines.push(line)) == match line {
            LineView::Data(fields) => rows_of(lines).push(fields),
            LineView::Comment(_) => rows_of(lines),
        },
{
    assert(lines.push(line).drop_last() =~= lines);
}

} // verus!
