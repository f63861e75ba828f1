//! The parsers: a comment, a row, a line, and a whole document.

use vstd::prelude::*;

use crate::chars::{
    alphanumeric, is_alphanumeric, is_whitespace, leading, lemma_ends_run_unique, line_text,
};
use crate::grammar::{
    comment_of, document_of, ends_row, following_fields, following_lines, is_blank, joined,
    lemma_comment_of_consumes, lemma_line_of_consumes, lemma_row_of_consumes,
    lemma_rows_of_push, line_of, lines_of, rendered, row_of, rows_of, text_of, LineView, Parsed,
};
use crate::laws::{lemma_document_is_rendered, lemma_line_is_text, lemma_row_is_joined};
use crate::line::{fields_of, texts_of, views_of, Comment, Line, ParseError, CSV};
use crate::scan::{alphanumeric1, multispace0, tag, take_till_line_end};

verus! {

/// Parses a comment at the start of `input`: the marker `#`, then the text up
/// to the next line terminator or the end of `input`. The text goes into the
/// comment; what follows it is handed back.
///
/// Fails with `NotAComment` exactly when `input` does not start with `#`.
pub fn parse_comment<'a>(input: &'a str) -> (r: Result<(&'a str, Comment<'a>), ParseError>)
    ensures
        r is Ok <==> input@.len() > 0 && input@[0] == '#',
        match r {
            Ok((rest, comment)) => {
                &&& comment_of(input@) == Some(Parsed { value: comment@, rest: rest@ })
                &&& input@ == seq!['#'] + comment@ + rest@
                &&& comment.wf()
                &&& rest@.len() > 0 ==> rest@[0] == '\n'
            },
            Err(e) => e == ParseError::NotAComment && comment_of(input@) is None,
        },
{
    proof {
        reveal_strlit("#");
        lemma_comment_of_consumes(input@);
    }
    match tag("#", input) {
        Err(_) => Err(ParseError::NotAComment),
        Ok((body, _)) => {
            assert(input@.len() > 0 && input@[0] == '#') by {
                assert("#"@.is_prefix_of(input@));
                assert("#"@[0] == input@.subrange(0, 1)[0]);
            }
            assert(body@ == input@.skip(1));
            match take_till_line_end(body) {
                Err(_) => Err(ParseError::NotAComment),
                Ok((rest, text)) => {
                    proof {
                        lemma_ends_run_unique(body@, text@.len() as int, line_text());
                        let n = leading(body@, line_text()) as int;
                        assert(text@ =~= body@.take(n));
                        assert(rest@ =~= body@.skip(n));
                    }
                    Ok((rest, Comment { text }))
                },
            }
        },
    }
}

/// Parses a row at the start of `input`: one field, then a `,` and a field
/// as often as `input` goes on so. A field is the longest run of ASCII
/// letters and digits. The fields go into the row in their order; what
/// follows the last of them is handed back.
///
/// Fails with `MalformedRow` exactly when `input` does not start with an
/// ASCII letter or digit.
pub fn parse_csv<'a>(input: &'a str) -> (r: Result<(&'a str, CSV<'a>), ParseError>)
    ensures
        r is Ok <==> input@.len() > 0 && is_alphanumeric(input@[0]),
        match r {
            Ok((rest, row)) => {
                &&& row_of(input@) == Some(Parsed { value: row@, rest: rest@ })
                &&& input@ == joined(row@, ',') + rest@
                &&& row.wf()
                &&& ends_row(rest@)
            },
            Err(e) => e == ParseError::MalformedRow && row_of(input@) is None,
        },
{
    proof {
        reveal_strlit(",");
    }
    match alphanumeric1(input) {
        Err(_) => Err(ParseError::MalformedRow),
        Ok((after, first)) => {
            proof {
                lemma_ends_run_unique(input@, first@.len() as int, alphanumeric());
                let n = leading(input@, alphanumeric()) as int;
                assert(first@ =~= input@.take(n));
                assert(after@ =~= input@.skip(n));
            }
            let mut vals: Vec<&'a str> = Vec::new();
            vals.push(first);
            let mut cur = after;
            assert(texts_of(vals@) =~= seq![first@]);
            loop
                invariant
                    ","@ == seq![','],
                    row_of(input@) == Some(
                        Parsed {
                            value: texts_of(vals@) + following_fields(cur@).value,
                            rest: following_fields(cur@).rest,
                        },
                    ),
                ensures
                    row_of(input@) == Some(Parsed { value: texts_of(vals@), rest: cur@ }),
                decreases cur@.len(),
            {
                let ghost before = texts_of(vals@);
                match tag(",", cur) {
                    Err(_) => {
                        assert(!(cur@.len() > 0 && cur@[0] == ',')) by {
                            if cur@.len() > 0 && cur@[0] == ',' {
                                assert(","@ =~= cur@.subrange(0, 1));
                            }
                        }
                        assert(before + Seq::<Seq<char>>::empty() =~= before);
                        break ;
                    },
                    Ok((field_start, _)) => {
                        assert(cur@.len() > 0 && cur@[0] == ',') by {
                            assert(","@[0] == cur@.subrange(0, 1)[0]);
                        }
                        assert(field_start@ == cur@.skip(1));
                        match alphanumeric1(field_start) {
                            Err(_) => {
                                assert(before + Seq::<Seq<char>>::empty() =~= before);
                                break ;
                            },
                            Ok((after, field)) => {
                                proof {
                                    lemma_ends_run_unique(
                                        field_start@,
                                        field@.len() as int,
                                        alphanumeric(),
                                    );
                                    let n = leading(field_start@, alphanumeric()) as int;
                                    assert(field@ =~= field_start@.take(n));
                                    assert(after@ =~= field_start@.skip(n));
                                }
                                vals.push(field);
                                cur = after;
                                proof {
                                    let more = following_fields(after@);
                                    assert(texts_of(vals@) =~= before + seq![field@]);
                                    assert(texts_of(vals@) + more.value =~= before + (seq![
                                        field@,
                                    ] + more.value));
                                }
                            },
                        }
                    },
                }
            }
            let row = CSV { vals };
            proof {
                lemma_row_of_consumes(input@);
                lemma_row_is_joined(input@);
            }
            Ok((cur, row))
        },
    }
}

/// Parses a line at the start of `input`: a comment where `input` starts
/// with `#`, else a row. What follows the line is handed back.
///
/// Fails with `UnrecognizedLine` exactly when `input` starts with neither
/// `#` nor an ASCII letter or digit.
pub fn parse_line<'a>(input: &'a str) -> (r: Result<(&'a str, Line<'a>), ParseError>)
    ensures
        r is Ok <==> input@.len() > 0 && (input@[0] == '#' || is_alphanumeric(input@[0])),
        match r {
            Ok((rest, line)) => {
                &&& line_of(input@) == Some(Parsed { value: line@, rest: rest@ })
                &&& input@ == text_of(line@) + rest@
                &&& line.wf()
            },
            Err(e) => e == ParseError::UnrecognizedLine && line_of(input@) is None,
        },
{
    proof {
        lemma_line_of_consumes(input@);
        lemma_line_is_text(input@);
    }
    match parse_comment(input) {
        Ok((rest, comment)) => Ok((rest, Line::Comment(comment))),
        Err(_) => match parse_csv(input) {
            Ok((rest, row)) => Ok((rest, Line::Data(row))),
            Err(_) => Err(ParseError::UnrecognizedLine),
        },
    }
}

/// Parses a whole document: lines separated by one line terminator each,
/// then nothing but white space to the end of `input`. The lines come out in
/// their order, with an empty remainder.
///
/// Fails with `TrailingInput` exactly when something other than white space
/// follows the last line that could be parsed.
pub fn parse_lines<'a>(input: &'a str) -> (r: Result<(&'a str, Vec<Line<'a>>), ParseError>)
    ensures
        match r {
            Ok((rest, lines)) => {
                &&& document_of(input@) == Ok::<Seq<LineView>, ParseError>(views_of(lines@))
                &&& rendered(views_of(lines@)).is_prefix_of(input@)
                &&& is_blank(input@.skip(rendered(views_of(lines@)).len() as int))
                &&& forall|i: int| 0 <= i < lines@.len() ==> (#[trigger] lines@[i]).wf()
                &&& rest@.len() == 0
            },
            Err(e) => e == ParseError::TrailingInput && document_of(input@) == Err::<
                Seq<LineView>,
                ParseError,
            >(e),
        },
{
    proof {
        reveal_strlit("\n");
        lemma_document_is_rendered(input@);
    }
    let mut lines: Vec<Line<'a>> = Vec::new();
    let mut cur = input;
    match parse_line(input) {
        Err(_) => {
            assert(views_of(lines@) =~= Seq::<LineView>::empty());
        },
        Ok((after, line)) => {
            lines.push(line);
            cur = after;
            assert(views_of(lines@) =~= seq![line@]);
            loop
                invariant
                    "\n"@ == seq!['\n'],
                    forall|i: int| 0 <= i < lines@.len() ==> (#[trigger] lines@[i]).wf(),
                    lines_of(input@) == (Parsed {
                        value: views_of(lines@) + following_lines(cur@).value,
                        rest: following_lines(cur@).rest,
                    }),
                ensures
                    forall|i: int| 0 <= i < lines@.len() ==> (#[trigger] lines@[i]).wf(),
                    lines_of(input@) == (Parsed { value: views_of(lines@), rest: cur@ }),
                decreases cur@.len(),
            {
                let ghost before = views_of(lines@);
                match tag("\n", cur) {
                    Err(_) => {
                        assert(!(cur@.len() > 0 && cur@[0] == '\n')) by {
                            if cur@.len() > 0 && cur@[0] == '\n' {
                                assert("\n"@ =~= cur@.subrange(0, 1));
                            }
                        }
                        assert(before + Seq::<LineView>::empty() =~= before);
                        break ;
                    },
                    Ok((line_start, _)) => {
                        assert(cur@.len() > 0 && cur@[0] == '\n') by {
                            assert("\n"@[0] == cur@.subrange(0, 1)[0]);
                        }
                        assert(line_start@ == cur@.skip(1));
                        match parse_line(line_start) {
                            Err(_) => {
                                assert(before + Seq::<LineView>::empty() =~= before);
                                break ;
                            },
                            Ok((after, line)) => {
                                lines.push(line);
                                cur = after;
                                proof {
                                    let more = following_lines(after@);
                                    assert(views_of(lines@) =~= before + seq![line@]);
                                    assert(views_of(lines@) + more.value =~= before + (seq![
                                        line@,
                                    ] + more.value));
                                }
                            },
                        }
                    },
                }
            }
        },
    }
    match multispace0(cur) {
        Err(_) => Err(ParseError::TrailingInput),
        Ok((rest, blank)) => {
            if rest.is_empty() {
                assert(is_blank(cur@)) by {
                    assert(blank@ =~= cur@);
                }
                Ok((rest, lines))
            } else {
                assert(!is_whitespace(cur@[blank@.len() as int]));
                Err(ParseError::TrailingInput)
            }
        },
    }
}

/// The rows among `lines`, in their order.
pub fn data_rows<'a, 'b>(lines: &'b Vec<Line<'a>>) -> (rows: Vec<&'b CSV<'a>>)
    ensures
        fields_of(rows@) == rows_of(views_of(lines@)),
{
    let mut rows: Vec<&'b CSV<'a>> = Vec::new();
    let mut i: usize = 0;
    while i < lines.len()
        invariant
            i <= lines@.len(),
            fields_of(rows@) == rows_of(views_of(lines@).take(i as int)),
        decreases lines@.len() - i,
    {
        let ghost seen = views_of(lines@).take(i as int);
        let ghost found = fields_of(rows@);
        proof {
            assert(views_of(lines@).take(i + 1) =~= seen.push(lines@[i as int]@));
            lemma_rows_of_push(seen, lines@[i as int]@);
        }
        match &lines[i] {
            Line::Data(row) => {
                rows.push(row);
                assert(fields_of(rows@) =~= found.push(row@));
            },
            Line::Comment(_) => {},
        }
        i += 1;
    }
    assert(views_of(lines@).take(i as int) =~= views_of(lines@));
    rows
}

} // verus!
