//! Character classes of the line grammar, and the longest run of a class at
//! the start of a text.

use vstd::prelude::*;

verus! {

/// The character that opens a comment line.
pub open spec fn is_comment_marker(c: char) -> bool {
    c == '#'
}

/// The character that separates the fields of a row.
pub open spec fn is_field_separator(c: char) -> bool {
    c == ','
}

/// The character that ends a line.
pub open spec fn is_line_terminator(c: char) -> bool {
    c == '\n'
}

/// ASCII letters and digits: the characters a field is made of.
pub open spec fn is_alphanumeric(c: char) -> bool {
    ('a' <= c && c <= 'z') || ('A' <= c && c <= 'Z') || ('0' <= c && c <= '9')
}

/// Space, tab, carriage return and line feed.
pub open spec fn is_whitespace(c: char) -> bool {
    c == ' ' || c == '\t' || c == '\r' || c == '\n'
}

/// The class of the characters that a field is made of.
pub open spec fn alphanumeric() -> spec_fn(char) -> bool {
    |c: char| is_alphanumeric(c)
}

/// The class of the characters that may trail the last line.
pub open spec fn whitespace() -> spec_fn(char) -> bool {
    |c: char| is_whitespace(c)
}

/// The class of the characters that a line may hold: all but the line
/// terminator.
pub open spec fn line_text() -> spec_fn(char) -> bool {
    |c: char| !is_line_terminator(c)
}

/// How many characters at the start of `s` belong to `class`.
pub open spec fn leading(s: Seq<char>, class: spec_fn(char) -> bool) -> nat
    decreases s.len(),
{
    if s.len() > 0 && class(s[0]) {
        1 + leading(s.skip(1), class)
    } else {
        0
    }
}

/// `n` is where the leading run of `class` in `s` ends: the first `n`
/// characters belong to the class and the next one, if any, does not.
pub open spec fn ends_run(s: Seq<char>, n: int, class: spec_fn(char) -> bool) -> bool {
    &&& 0 <= n <= s.len()
    &&& forall|i: int| 0 <= i < n ==> class(#[trigger] s[i])
    &&& n < s.len() ==> !class(s[n])
}

/// The leading run of a class ends where its length says.
pub proof fn lemma_leading_ends_run(s: Seq<char>, class: spec_fn(char) -> bool)
    ensures
        ends_run(s, leading(s, class) as int, class),
    decreases s.len(),
{
    if s.len() > 0 && class(s[0]) {
        let t = s.skip(1);
        lemma_leading_ends_run(t, class);
        let n = leading(s, class) as int;
        assert forall|i: int| 0 <= i < n implies class(#[trigger] s[i]) by {
            if i > 0 {
                assert(s[i] == t[i - 1]);
            }
        }
        if n < s.len() {
            assert(s[n] == t[n - 1]);
        }
    }
}

/// A run of a class ends in one place only: at the length of the leading
/// run.
pub proof fn lemma_ends_run_unique(s: Seq<char>, n: int, class: spec_fn(char) -> bool)
    requires
        ends_run(s, n, class),
    ensures
        leading(s, class) == n,
    decreases s.len(),
{
    if n > 0 {
        let t = s.skip(1);
        assert forall|i: int| 0 <= i < n - 1 implies class(#[trigger] t[i]) by {
            assert(t[i] == s[i + 1]);
        }
        if n - 1 < t.len() {
            assert(t[n - 1] == s[n]);
        }
        lemma_ends_run_unique(t, n - 1, class);
    }
}

/// Tells whether `c` ends a line.
pub fn ends_line(c: char) -> (b: bool)
    ensures
        b == is_line_terminator(c),
{
    c == '\n'
}

} // verus!
