//! What holds of the grammar on every text.

use vstd::prelude::*;

use crate::chars::{
    alphanumeric, is_alphanumeric, is_comment_marker, is_field_separator, is_line_terminator,
    is_whitespace, leading, lemma_ends_run_unique, lemma_leading_ends_run, line_text,
};
use crate::grammar::{
    comment_of, document_of, ends_row, following_lines, is_blank, is_field, is_row, joined,
    lemma_comment_of_consumes, lemma_line_of_consumes, line_of, lines_of, rendered, row_of,
    text_of, LineView, Parsed,
};
use crate::line::ParseError;

verus! {

/// The marker followed by one or more letters and digits is a comment with
/// those characters as its text, and nothing is left of it.
pub proof fn lemma_comment_of_alphanumeric(s: Seq<char>)
    requires
        is_field(s),
    ensures
        comment_of(seq!['#'] + s) == Some(Parsed { value: s, rest: Seq::<char>::empty() }),
{
    let input = seq!['#'] + s;
    let body = input.skip(1);
    assert(body =~= s);
    lemma_ends_run_unique(body, body.len() as int, line_text());
    assert(body.take(body.len() as int) =~= s);
    assert(body.skip(body.len() as int) =~= Seq::<char>::empty());
}

/// Well-formed fields joined by `,` are a row with those fields, in their
/// order, and nothing is left of the text.
pub proof fn lemma_row_of_joined(fields: Seq<Seq<char>>)
    requires
        is_row(fields),
    ensures
        row_of(joined(fields, ',')) == Some(
            Parsed { value: fields, rest: Seq::<char>::empty() },
        ),
{
    lemma_row_of_joined_before(fields, Seq::empty());
    assert(joined(fields, ',') + Seq::<char>::empty() =~= joined(fields, ','));
}

/// Well-formed fields joined by `,` are a row with those fields also where
/// more text follows them, as long as no further field can be taken from it:
/// that text is what the row leaves.
pub proof fn lemma_row_of_joined_before(fields: Seq<Seq<char>>, after: Seq<char>)
    requires
        is_row(fields),
        ends_row(after),
    ensures
        row_of(joined(fields, ',') + after) == Some(Parsed { value: fields, rest: after }),
    decreases fields.len(),
{
    let s = joined(fields, ',') + after;
    let first = fields[0];
    let n = first.len() as int;
    assert(is_field(first));
    assert forall|i: int| 0 <= i < n implies alphanumeric()(#[trigger] s[i]) by {
        assert(s[i] == first[i]);
    }
    if fields.len() == 1 {
        lemma_ends_run_unique(s, n, alphanumeric());
        assert(s.take(n) =~= first);
        assert(s.skip(n) =~= after);
        if after.len() > 0 && is_field_separator(after[0]) {
            if after.len() > 1 {
                assert(after.skip(1)[0] == after[1]);
            }
            assert(row_of(after.skip(1)) is None);
        }
        assert(seq![first] + Seq::<Seq<char>>::empty() =~= fields);
    } else {
        let others = fields.skip(1);
        let tail = joined(others, ',');
        assert(is_row(others)) by {
            assert forall|i: int| 0 <= i < others.len() implies is_field(#[trigger] others[i]) by {
                assert(others[i] == fields[i + 1]);
            }
        }
        lemma_row_of_joined_before(others, after);
        assert(s =~= first + seq![','] + (tail + after));
        assert(s[n] == ',');
        lemma_ends_run_unique(s, n, alphanumeric());
        assert(s.take(n) =~= first);
        assert(s.skip(n).skip(1) =~= tail + after);
        assert(seq![first] + others =~= fields);
    }
}

/// The text that a row was parsed from is its fields joined by `,`, then
/// what the row leaves, from which no further field can be taken.
pub proof fn lemma_row_is_joined(s: Seq<char>)
    ensures
        row_of(s) matches Some(r) ==> s == joined(r.value, ',') + r.rest && ends_row(r.rest),
    decreases s.len(),
{
    let n = leading(s, alphanumeric()) as int;
    if n > 0 {
        lemma_leading_ends_run(s, alphanumeric());
        let first = s.take(n);
        let after = s.skip(n);
        let r = row_of(s)->Some_0;
        if after.len() > 0 && is_field_separator(after[0]) && row_of(after.skip(1)) is Some {
            let next = row_of(after.skip(1))->Some_0;
            lemma_row_is_joined(after.skip(1));
            assert(r.value.skip(1) =~= next.value);
            assert(after =~= seq![','] + after.skip(1));
            assert(s =~= first + after);
            assert(s =~= first + seq![','] + joined(next.value, ',') + next.rest);
        } else {
            assert(r.value =~= seq![first]);
            assert(s =~= first + after);
            if after.len() > 1 {
                assert(after.skip(1)[0] == after[1]);
            }
        }
    }
}

/// The text that a line was parsed from is the text of the line, then what
/// the line leaves.
pub proof fn lemma_line_is_text(s: Seq<char>)
    ensures
        line_of(s) matches Some(l) ==> s == text_of(l.value) + l.rest,
{
    lemma_comment_of_consumes(s);
    lemma_row_is_joined(s);
}

/// Two or more lines as text are the first as text, a line terminator, and
/// the others as text.
proof fn lemma_rendered_skip(lines: Seq<LineView>)
    requires
        lines.len() > 1,
    ensures
        rendered(lines) == text_of(lines[0]) + seq!['\n'] + rendered(lines.skip(1)),
{
    let texts = Seq::new(lines.len(), |i: int| text_of(lines[i]));
    let others = lines.skip(1);
    assert(texts.skip(1) =~= Seq::new(others.len(), |i: int| text_of(others[i])));
}

/// The text that lines were parsed from is the lines as text, each but the
/// last followed by a line terminator, then what the lines leave: nothing of
/// the text is dropped between them.
pub proof fn lemma_lines_are_rendered(s: Seq<char>)
    ensures
        s == rendered(lines_of(s).value) + lines_of(s).rest,
    decreases s.len(),
{
    match line_of(s) {
        None => {
            assert(s =~= Seq::<char>::empty() + s);
        },
        Some(line) => {
            lemma_line_of_consumes(s);
            lemma_line_is_text(s);
            let after = line.rest;
            let more = following_lines(after);
            if more.value.len() > 0 {
                let next = after.skip(1);
                lemma_lines_are_rendered(next);
                let lines = lines_of(s).value;
                assert(lines.skip(1) =~= more.value);
                lemma_rendered_skip(lines);
                assert(after =~= seq!['\n'] + next);
                assert(s =~= text_of(line.value) + seq!['\n'] + rendered(more.value) + more.rest);
            } else {
                assert(lines_of(s).value =~= seq![line.value]);
            }
        },
    }
}

/// An accepted document is its lines as text, with a line terminator between
/// each two, and then white space only: no part of it is passed over.
pub proof fn lemma_document_is_rendered(s: Seq<char>)
    ensures
        document_of(s) matches Ok(lines) ==> {
            &&& rendered(lines).is_prefix_of(s)
            &&& is_blank(s.skip(rendered(lines).len() as int))
        },
{
    lemma_lines_are_rendered(s);
    if document_of(s) is Ok {
        let text = rendered(lines_of(s).value);
        let blank = lines_of(s).rest;
        assert(s.subrange(0, text.len() as int) =~= text);
        assert(s.skip(text.len() as int) =~= blank);
    }
}

/// A well-formed line as text, before the end of the text or a line
/// terminator, is parsed as that line.
pub proof fn lemma_line_of_text(line: LineView, after: Seq<char>)
    requires
        line.wf(),
        after.len() > 0 ==> is_line_terminator(after[0]),
    ensures
        line_of(text_of(line) + after) == Some(Parsed { value: line, rest: after }),
{
    let s = text_of(line) + after;
    match line {
        LineView::Comment(text) => {
            let body = s.skip(1);
            assert(body =~= text + after);
            assert forall|i: int| 0 <= i < text.len() implies line_text()(#[trigger] body[i]) by {
                assert(body[i] == text[i]);
            }
            lemma_ends_run_unique(body, text.len() as int, line_text());
            assert(body.take(text.len() as int) =~= text);
            assert(body.skip(text.len() as int) =~= after);
        },
        LineView::Data(fields) => {
            lemma_row_of_joined_before(fields, after);
            assert(is_field(fields[0]));
            assert(s[0] == fields[0][0]) by {
                reveal_with_fuel(joined, 2);
            }
            assert(is_alphanumeric(s[0]));
        },
    }
}

/// No line is parsed at the start of a text of white space.
proof fn lemma_no_line_in_blank(s: Seq<char>)
    requires
        is_blank(s),
    ensures
        line_of(s) is None,
        lines_of(s) == (Parsed { value: Seq::<LineView>::empty(), rest: s }),
{
    if s.len() > 0 {
        assert(is_whitespace(s[0]));
    }
}

/// Well-formed lines as text, with a line terminator between each two and
/// then blank lines only, are parsed as those lines, and the blank lines are
/// left.
pub proof fn lemma_lines_of_rendered(lines: Seq<LineView>, blank: Seq<char>)
    requires
        forall|i: int| 0 <= i < lines.len() ==> (#[trigger] lines[i]).wf(),
        is_blank(blank),
        blank.len() > 0 ==> is_line_terminator(blank[0]),
    ensures
        lines_of(rendered(lines) + blank) == (Parsed { value: lines, rest: blank }),
    decreases lines.len(),
{
    let s = rendered(lines) + blank;
    if lines.len() == 0 {
        assert(s =~= blank);
        lemma_no_line_in_blank(blank);
        assert(lines =~= Seq::<LineView>::empty());
    } else {
        let line = lines[0];
        let others = lines.skip(1);
        if lines.len() == 1 {
            assert(rendered(lines) == text_of(line));
            lemma_line_of_text(line, blank);
            if blank.len() > 0 {
                lemma_blank_parts(seq![blank[0]], blank.skip(1));
                assert(blank =~= seq![blank[0]] + blank.skip(1));
                lemma_no_line_in_blank(blank.skip(1));
            }
            assert(seq![line] + Seq::<LineView>::empty() =~= lines);
        } else {
            lemma_rendered_skip(lines);
            let next = rendered(others) + blank;
            let after = seq!['\n'] + next;
            assert(s =~= text_of(line) + after);
            lemma_line_of_text(line, after);
            lemma_lines_of_rendered(others, blank);
            assert(after.skip(1) =~= next);
            assert(seq![line] + others =~= lines);
        }
    }
}

/// Well-formed lines as text, with a line terminator between each two and
/// then blank lines only, are accepted as the document of those lines.
pub proof fn lemma_document_of_rendered(lines: Seq<LineView>, blank: Seq<char>)
    requires
        forall|i: int| 0 <= i < lines.len() ==> (#[trigger] lines[i]).wf(),
        is_blank(blank),
        blank.len() > 0 ==> is_line_terminator(blank[0]),
    ensures
        document_of(rendered(lines) + blank) == Ok::<Seq<LineView>, ParseError>(lines),
{
    lemma_lines_of_rendered(lines, blank);
}

/// A text is all white space exactly when each of two parts of it is.
pub proof fn lemma_blank_parts(a: Seq<char>, b: Seq<char>)
    ensures
        is_blank(a + b) <==> is_blank(a) && is_blank(b),
{
    let s = a + b;
    if is_blank(s) {
        assert forall|i: int| 0 <= i < a.len() implies is_whitespace(#[trigger] a[i]) by {
            assert(a[i] == s[i]);
        }
        assert forall|i: int| 0 <= i < b.len() implies is_whitespace(#[trigger] b[i]) by {
            assert(b[i] == s[a.len() + i]);
        }
    }
}

/// The line that `s` starts with is a comment or a row: a line is parsed
/// there, up to a line terminator or to the end of `s`.
pub open spec fn starts_with_line(s: Seq<char>) -> bool {
    line_of(s) matches Some(l) && (l.rest.len() == 0 || is_line_terminator(l.rest[0]))
}

/// What is left of `s` after the line parsed at its start: all of `s` where
/// none is parsed there.
pub open spec fn after_line(s: Seq<char>) -> Seq<char> {
    match line_of(s) {
        Some(l) => l.rest,
        None => s,
    }
}

/// Let `tail` start at the start of a line of a text. Where the line that it
/// starts with is neither a comment nor a row, the lines of the text leave
/// more than white space, unless all that follows what is parsed at the
/// start of `tail` is white space.
proof fn lemma_lines_stop_at_unrecognized_line(head: Seq<char>, tail: Seq<char>)
    requires
        head.len() == 0 || is_line_terminator(head.last()),
        !starts_with_line(tail),
        !is_blank(after_line(tail)),
    ensures
        !is_blank(lines_of(head + tail).rest),
    decreases head.len(),
{
    let s = head + tail;
    lemma_line_of_consumes(tail);
    let kept = after_line(tail);
    let cut = tail.len() - kept.len();
    assert(tail =~= tail.take(cut) + kept);
    lemma_blank_parts(tail.take(cut), kept);
    assert(!is_blank(tail));
    if head.len() == 0 {
        assert(s =~= tail);
    } else {
        lemma_line_of_consumes(s);
        match line_of(s) {
            None => {
                lemma_blank_parts(head, tail);
            },
            Some(line) => {
                let used = s.len() - line.rest.len();
                assert(used < head.len()) by {
                    if used >= head.len() {
                        assert(s[head.len() - 1] == head.last());
                    }
                }
                assert(line.rest =~= head.skip(used) + tail);
                lemma_blank_parts(head.skip(used), tail);
                if is_line_terminator(line.rest[0]) {
                    let next = head.skip(used + 1);
                    assert(line.rest.skip(1) =~= next + tail);
                    if next.len() > 0 {
                        assert(next.last() == head.last());
                    }
                    lemma_lines_stop_at_unrecognized_line(next, tail);
                }
            },
        }
    }
}

/// A document with a line that is neither a comment nor a row is rejected,
/// unless nothing but white space follows what can be parsed at the start of
/// that line. Here `head` is the text before the line, empty or ending in a
/// line terminator, and `tail` the text from the start of the line on.
pub proof fn lemma_unrecognized_line_rejected(head: Seq<char>, tail: Seq<char>)
    requires
        head.len() == 0 || is_line_terminator(head.last()),
        !starts_with_line(tail),
        !is_blank(after_line(tail)),
    ensures
        document_of(head + tail) == Err::<Seq<LineView>, ParseError>(ParseError::TrailingInput),
{
    lemma_lines_stop_at_unrecognized_line(head, tail);
}

/// A document with a line that starts with a character which no line can
/// start with, and which is no white space, is rejected. Here `head` is the
/// text before the line, empty or ending in a line terminator, and `tail` the
/// text from the start of the line on.
pub proof fn lemma_stray_character_rejected(head: Seq<char>, tail: Seq<char>)
    requires
        head.len() == 0 || is_line_terminator(head.last()),
        tail.len() > 0,
        !is_comment_marker(tail[0]),
        !is_alphanumeric(tail[0]),
        !is_whitespace(tail[0]),
    ensures
        document_of(head + tail) == Err::<Seq<LineView>, ParseError>(ParseError::TrailingInput),
{
    assert(line_of(tail) is None);
    lemma_unrecognized_line_rejected(head, tail);
}

} // verus!
