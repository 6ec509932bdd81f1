//! The parser on strings.
//!
//! `parse` is the entry point: it takes a text and returns the term that the
//! whole of it denotes. The other functions read one construct of the
//! grammar from the start of a text and return what is left of the text
//! with what they read.

use vstd::prelude::*;
use vstd::string::StrSliceExecFns;
use crate::error::{seen, seen_whole, Failure, ParseError, Reason};
use crate::bounds::{
    lemma_abstraction_within, lemma_application_within, lemma_expression_within,
};
use crate::grammar::{
    abstraction, application, expression, parsed_symbols, parsed_text, variable, MAX_DEPTH,
};
use crate::group::{find_group_end, group_end, law_group_end_sound};
use crate::reader::{read_expression, read_variable, read_whole, try_abstraction, try_application};
use crate::symbol::{read_symbols, symbols_of, Symbol};
use crate::term::Term;

verus! {

/// The result `r` of reading from the start of `input` is what `expected`
/// says: the same value with the rest of the input behind what was taken,
/// or the same failure.
pub open spec fn agrees<T>(
    r: Result<(&str, T), ParseError>,
    input: Seq<char>,
    expected: Result<(T, nat), Failure>,
) -> bool {
    match expected {
        Ok((value, n)) => r matches Ok((rest, found)) && found == value && rest@ == input.skip(
            n as int,
        ),
        Err(f) => r matches Err(e) && e@ == f,
    }
}

/// The variable at the start of a text, as a term.
pub open spec fn variable_term(text: Seq<char>) -> Result<(Term, nat), Failure> {
    match variable(symbols_of(text)) {
        Ok((name, n)) => Ok((Term::Variable(name), n)),
        Err(f) => Err(f),
    }
}

/// The characters of `input`, one by one.
fn chars_of(input: &str) -> (v: Vec<char>)
    ensures
        v@ == input@,
{
    let mut v: Vec<char> = Vec::new();
    let chars = input.chars();
    proof {
        vstd::string::axiom_spec_iter(input);
    }
    for c in it: chars
        invariant
            it.seq() == input@,
            v@ == input@.take(it.index()),
    {
        v.push(c);
    }
    v
}

/// The result of reading from the start of `input`, with what is left of
/// `input` in place of the number of characters taken.
fn with_rest<'a, T>(input: &'a str, len: usize, found: Result<(T, usize), ParseError>) -> (r:
    Result<(&'a str, T), ParseError>)
    requires
        len == input@.len(),
        found matches Ok((_, n)) ==> n <= len,
    ensures
        agrees(r, input@, seen(found)),
{
    match found {
        Ok((value, n)) => Ok((input.substring_char(n, len), value)),
        Err(e) => Err(e),
    }
}

/// Parses symbols, the whole of which must be one expression.
pub fn parse_symbols(symbols: &[Symbol]) -> (r: Result<Term, ParseError>)
    ensures
        seen_whole(r) == parsed_symbols(symbols@),
{
    read_whole(symbols, MAX_DEPTH)
}

/// Parses `input`, the whole of which must be one expression.
pub fn parse(input: &str) -> (r: Result<Term, ParseError>)
    ensures
        seen_whole(r) == parsed_text(input@),
{
    let symbols = read_symbols(input);
    parse_symbols(symbols.as_slice())
}

/// Reads an expression from the start of `input`.
pub fn parse_lambda_expression<'a>(input: &'a str) -> (r: Result<(&'a str, Term), ParseError>)
    ensures
        agrees(r, input@, expression(symbols_of(input@), MAX_DEPTH as nat)),
{
    let symbols = read_symbols(input);
    proof {
        lemma_expression_within(symbols@, MAX_DEPTH as nat);
    }
    with_rest(input, symbols.len(), read_expression(symbols.as_slice(), MAX_DEPTH))
}

/// Reads the name of a variable from the start of `input`.
pub fn parse_string_variable<'a>(input: &'a str) -> (r: Result<(&'a str, char), ParseError>)
    ensures
        agrees(r, input@, variable(symbols_of(input@))),
{
    let symbols = read_symbols(input);
    with_rest(input, symbols.len(), read_variable(symbols.as_slice()))
}

/// Reads a variable from the start of `input`.
pub fn parse_lambda_variable<'a>(input: &'a str) -> (r: Result<(&'a str, Term), ParseError>)
    ensures
        agrees(r, input@, variable_term(input@)),
{
    match parse_string_variable(input) {
        Ok((rest, name)) => Ok((rest, Term::Variable(name))),
        Err(e) => Err(e),
    }
}

/// Reads an abstraction from the start of `input`, as the outermost
/// expression would.
pub fn parse_lambda_abstraction<'a>(input: &'a str) -> (r: Result<(&'a str, Term), ParseError>)
    ensures
        agrees(r, input@, abstraction(symbols_of(input@), (MAX_DEPTH - 1) as nat).outcome()),
{
    let symbols = read_symbols(input);
    proof {
        lemma_abstraction_within(symbols@, (MAX_DEPTH - 1) as nat);
    }
    let found = try_abstraction(symbols.as_slice(), MAX_DEPTH - 1).into_result();
    with_rest(input, symbols.len(), found)
}

/// Reads an application, which must be the whole of `input`, as the
/// outermost expression would.
pub fn parse_lambda_application<'a>(input: &'a str) -> (r: Result<(&'a str, Term), ParseError>)
    ensures
        agrees(r, input@, application(symbols_of(input@), (MAX_DEPTH - 1) as nat).outcome()),
{
    let symbols = read_symbols(input);
    proof {
        lemma_application_within(symbols@, (MAX_DEPTH - 1) as nat);
    }
    let found = try_application(symbols.as_slice(), MAX_DEPTH - 1).into_result();
    with_rest(input, symbols.len(), found)
}

/// Reads the content of a group from the start of `input`, which begins
/// just behind the opening parenthesis of the group. It returns what is
/// left, which begins with the closing parenthesis unless it is empty, and
/// the content.
pub fn parse_string_balanced_expression<'a>(input: &'a str) -> (r: Result<
    (&'a str, &'a str),
    ParseError,
>)
    ensures
        match group_end(input@) {
            Some(k) => r matches Ok((rest, content)) && content@ == input@.take(k as int)
                && rest@ == input@.skip(k as int),
            None => r matches Err(e) && e@ == (Failure {
                offset: 0,
                reason: Reason::UnbalancedParentheses,
            }),
        },
{
    let chars = chars_of(input);
    match find_group_end(chars.as_slice()) {
        Some(k) => {
            proof {
                law_group_end_sound(input@);
            }
            Ok((input.substring_char(k, chars.len()), input.substring_char(0, k)))
        },
        None => Err(ParseError { offset: 0, reason: Reason::UnbalancedParentheses }),
    }
}

} // verus!
