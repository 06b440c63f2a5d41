//! Cutting a string slice at the two characters that give a document its
//! structure.

use vstd::prelude::*;
use crate::text::{first_sep, lemma_first_sep_is, split};

verus! {

/// The two characters with a meaning of their own.
#[derive(Debug, PartialEq, Eq, Clone, Copy)]
pub enum Separator {
    /// `','`, which ends a field.
    Comma,
    /// `'\n'`, which ends a line.
    Newline,
}

impl Separator {
    /// The character itself.
    pub open spec fn symbol(self) -> char {
        match self {
            Separator::Comma => ',',
            Separator::Newline => '\n',
        }
    }
}

/// The longest run of characters at the head of `input` that holds none of
/// the characters of `stops`, by `nom::bytes::complete::is_not`.
///
/// The contract claims: the call fails exactly when that run is empty, that
/// is on an empty input and on one that starts with a character of `stops`;
/// otherwise it hands back the rest and the run, which together are the
/// input, and the rest is empty or starts with a character of `stops`.
#[verifier::external_body]
pub(crate) fn take_until_any<'a>(input: &'a str, stops: &str) -> (r: Option<(&'a str, &'a str)>)
    ensures
        r is None <==> (input@.len() == 0 || stops@.contains(input@[0])),
        r matches Some((rest, run)) ==> {
            &&& run@ + rest@ == input@
            &&& run@.len() > 0
            &&& forall|i: int| 0 <= i < run@.len() ==> !stops@.contains(#[trigger] run@[i])
            &&& rest@.len() > 0 ==> stops@.contains(rest@[0])
        },
{
    let outcome: nom::IResult<&'a str, &'a str> = nom::bytes::complete::is_not(stops)(input);
    match outcome {
        Ok((rest, run)) => Some((rest, run)),
        Err(_) => None,
    }
}

/// One leading character `c` taken off `input`, by
/// `nom::character::complete::char`.
///
/// The contract claims: the call succeeds exactly when `input` starts with
/// `c`, and then hands back what follows that character.
#[verifier::external_body]
pub(crate) fn take_char<'a>(input: &'a str, c: char) -> (r: Option<&'a str>)
    ensures
        r is Some <==> (input@.len() > 0 && input@[0] == c),
        r matches Some(rest) ==> rest@ == input@.drop_first(),
{
    let outcome: nom::IResult<&'a str, char> = nom::character::complete::char(c)(input);
    match outcome {
        Ok((rest, _)) => Some(rest),
        Err(_) => None,
    }
}

/// One leading newline character taken off `input`, by
/// `nom::character::complete::newline`.
///
/// The contract claims: the call succeeds exactly when `input` starts with
/// `'\n'`, and then hands back what follows that character.
#[verifier::external_body]
pub(crate) fn take_newline<'a>(input: &'a str) -> (r: Option<&'a str>)
    ensures
        r is Some <==> (input@.len() > 0 && input@[0] == '\n'),
        r matches Some(rest) ==> rest@ == input@.drop_first(),
{
    let outcome: nom::IResult<&'a str, char> = nom::character::complete::newline(input);
    match outcome {
        Ok((rest, _)) => Some(rest),
        Err(_) => None,
    }
}

/// The separator as the set of characters at which a run ends.
fn stops_of(sep: Separator) -> (stops: &'static str)
    ensures
        stops@ == seq![sep.symbol()],
{
    proof {
        reveal_strlit(",");
        reveal_strlit("\n");
    }
    match sep {
        Separator::Comma => {
            ","
        },
        Separator::Newline => {
            "\n"
        },
    }
}

/// Takes the separator off the head of `input`, if it stands there.
fn take_separator<'a>(input: &'a str, sep: Separator) -> (r: Option<&'a str>)
    ensures
        r is Some <==> (input@.len() > 0 && input@[0] == sep.symbol()),
        r matches Some(rest) ==> rest@ == input@.drop_first(),
{
    match sep {
        Separator::Comma => take_char(input, ','),
        Separator::Newline => take_newline(input),
    }
}

/// Cuts `input` at every occurrence of the separator. The pieces are handed
/// out in their order; between two separators that touch, and before one at
/// the head or after one at the end, stands an empty piece.
pub fn split_on<'a>(input: &'a str, sep: Separator) -> (pieces: Vec<&'a str>)
    ensures
        pieces.deep_view() == split(input@, sep.symbol()),
{
    let stops = stops_of(sep);
    let ghost mark = sep.symbol();
    let mut pieces: Vec<&'a str> = Vec::new();
    let mut rest: &'a str = input;
    let mut done = false;
    while !done
        invariant
            mark == sep.symbol(),
            stops@ == seq![mark],
            !done ==> split(input@, mark) =~= pieces.deep_view() + split(rest@, mark),
            done ==> pieces.deep_view() =~= split(input@, mark),
        decreases rest@.len() + (if done { 0int } else { 1int }),
    {
        let ghost s = rest@;
        let after = match take_until_any(rest, stops) {
            Some((after, run)) => {
                pieces.push(run);
                proof {
                    assert(stops@[0] == mark);
                    assert(s.take(run@.len() as int) =~= run@);
                    lemma_first_sep_is(s, mark, run@.len() as int);
                }
                after
            },
            None => {
                proof {
                    reveal_strlit("");
                    lemma_first_sep_is(s, mark, 0);
                    assert(s.take(0) =~= ""@);
                }
                pieces.push("");
                rest
            },
        };
        match take_separator(after, sep) {
            Some(next) => {
                assert(next@ =~= s.skip(first_sep(s, mark) as int + 1));
                rest = next;
            },
            None => {
                assert(s.take(s.len() as int) =~= s);
                done = true;
            },
        }
    }
    pieces
}

/// The lines of `input`: its pieces between newline characters.
pub fn split_lines<'a>(input: &'a str) -> (lines: Vec<&'a str>)
    ensures
        lines.deep_view() == split(input@, '\n'),
{
    split_on(input, Separator::Newline)
}

/// The raw fields of `line`: its pieces between commas.
pub fn split_fields<'a>(line: &'a str) -> (fields: Vec<&'a str>)
    ensures
        fields.deep_view() == split(line@, ','),
{
    split_on(line, Separator::Comma)
}

} // verus!
