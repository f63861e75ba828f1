//! The scanners of `nom` that the parser is built on, each with the contract
//! that the parser relies on.

use vstd::prelude::*;

use crate::chars::{alphanumeric, ends_line, ends_run, is_alphanumeric, line_text, whitespace};

verus! {

/// `nom::Err`, the failure of a `nom` parser. Nothing is known of a value.
#[verifier::external_type_specification]
#[verifier::external_body]
#[verifier::reject_recursive_types(E)]
pub struct ExErr<E>(nom::Err<E>);

/// `nom::error::Error`, the default error of a `nom` parser. Nothing is known
/// of a value.
#[verifier::external_type_specification]
#[verifier::external_body]
#[verifier::reject_recursive_types(I)]
pub struct ExError<I>(nom::error::Error<I>);

/// `nom::bytes::complete::tag`: succeeds exactly when `input` starts with
/// `pattern`, and then hands back what follows the pattern and the part of
/// `input` that matched it.
#[verifier::external_body]
pub(crate) fn tag<'a>(pattern: &str, input: &'a str) -> (r: Result<
    (&'a str, &'a str),
    nom::Err<nom::error::Error<&'a str>>,
>)
    ensures
        r is Ok <==> pattern@.is_prefix_of(input@),
        r matches Ok((rest, matched)) ==> {
            &&& matched@ == pattern@
            &&& rest@ == input@.skip(pattern@.len() as int)
        },
{
    nom::bytes::complete::tag(pattern)(input)
}

/// `nom::character::complete::alphanumeric1`: splits `input` after its
/// leading run of ASCII letters and digits, and fails exactly when that run
/// is empty.
#[verifier::external_body]
pub(crate) fn alphanumeric1<'a>(input: &'a str) -> (r: Result<
    (&'a str, &'a str),
    nom::Err<nom::error::Error<&'a str>>,
>)
    ensures
        r is Ok <==> (input@.len() > 0 && is_alphanumeric(input@[0])),
        r matches Ok((rest, run)) ==> {
            &&& run@ + rest@ == input@
            &&& ends_run(input@, run@.len() as int, alphanumeric())
        },
{
    nom::character::complete::alphanumeric1(input)
}

/// `nom::character::complete::multispace0`: splits `input` after its leading
/// run of spaces, tabs, carriage returns and line feeds. It never fails.
#[verifier::external_body]
pub(crate) fn multispace0<'a>(input: &'a str) -> (r: Result<
    (&'a str, &'a str),
    nom::Err<nom::error::Error<&'a str>>,
>)
    ensures
        r is Ok,
        r matches Ok((rest, run)) ==> {
            &&& run@ + rest@ == input@
            &&& ends_run(input@, run@.len() as int, whitespace())
        },
{
    nom::character::complete::multispace0(input)
}

/// `nom::bytes::complete::take_till`, stopping at the line terminator: splits
/// `input` before its first line terminator, or at its end where it has
/// none. It never fails.
#[verifier::external_body]
pub(crate) fn take_till_line_end<'a>(input: &'a str) -> (r: Result<
    (&'a str, &'a str),
    nom::Err<nom::error::Error<&'a str>>,
>)
    ensures
        r is Ok,
        r matches Ok((rest, text)) ==> {
            &&& text@ + rest@ == input@
            &&& ends_run(input@, text@.len() as int, line_text())
        },
{
    nom::bytes::complete::take_till(|c: char| ends_line(c))(input)
}

} // verus!
