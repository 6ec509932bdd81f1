//! What holds of the parser on every input.
//!
//! The first three laws are the rules of the grammar: what the parser makes
//! of a letter, of an abstraction and of a run of operands, given what it
//! makes of their parts. The laws of the scanner of groups stand with the
//! scanner, in `group`.

use vstd::prelude::*;
use crate::bounds::lemma_whole_within;
use crate::error::Failure;
use crate::grammar::{abstraction, expression, left_fold, parsed_text, whole, MAX_DEPTH};
use crate::group::well_nested;
use crate::names::{lemma_expression_well_formed, lemma_letters_of_text};
use crate::nested::{lemma_nesting_of_symbols, lemma_whole_is_nested};
use crate::parts::{
    lemma_abstraction_is_abstraction, lemma_application_is_run_of_pieces,
    lemma_binder_is_no_operand,
};
use crate::symbol::{is_name, symbols_of, Symbol};
use crate::term::{run_symbols, run_text, Term};
use crate::written::{
    is_run, lemma_abstraction_reads_back, lemma_abstraction_reads_body,
    lemma_application_reads_back, lemma_canonical_run, lemma_run_is_application,
    lemma_symbols_of_run, lemma_symbols_of_text, lemma_variable_reads_back, Piece,
};

verus! {

/// A letter alone is the variable that it names.
pub proof fn law_variable(name: char, depth: nat)
    requires
        depth >= 1,
    ensures
        expression(seq![Symbol::Letter(name)], depth) == Ok::<(Term, nat), Failure>(
            (Term::Variable(name), 1),
        ),
        whole(seq![Symbol::Letter(name)], depth) == Ok::<Term, Failure>(Term::Variable(name)),
{
    lemma_variable_reads_back(name, depth);
}

/// The binder, a parameter and a dot make an abstraction of what follows:
/// where the rest is an expression, the abstraction of the parameter over
/// it, and where the rest fails, the same failure.
pub proof fn law_abstraction(parameter: char, rest: Seq<Symbol>, depth: nat)
    requires
        depth >= 1,
    ensures
        expression(seq![Symbol::Binder, Symbol::Letter(parameter), Symbol::Dot] + rest, depth)
            == match expression(rest, (depth - 1) as nat) {
            Ok((body, n)) => Ok::<(Term, nat), Failure>(
                (Term::Abstraction(parameter, Box::new(body)), 3 + n),
            ),
            Err(f) => Err(f.shifted(3)),
        },
{
    lemma_abstraction_reads_body(parameter, rest, depth);
}

/// Nothing but an abstraction begins with the binder: what the grammar
/// makes of such a text is what its first alternative makes of it, and
/// where that fails, its failure is the failure of the expression.
pub proof fn law_binder(s: Seq<Symbol>, depth: nat)
    requires
        depth >= 1,
        s.len() >= 1,
        s[0] == Symbol::Binder,
    ensures
        expression(s, depth) == abstraction(s, (depth - 1) as nat).outcome(),
{
    lemma_binder_is_no_operand(s, (depth - 1) as nat);
}

/// Two operands or more, one behind the other, make the application that
/// folds them to the left. Each is written as a letter or as a group around
/// a text that parses to the operand; any number of blanks may stand before
/// each of them, and none need.
pub proof fn law_application(
    s: Seq<Symbol>,
    pieces: Seq<Piece>,
    gaps: Seq<nat>,
    operands: Seq<Term>,
    depth: nat,
)
    requires
        depth >= 1,
        is_run(s, pieces, gaps, operands, (depth - 1) as nat),
    ensures
        expression(s, depth) == Ok::<(Term, nat), Failure>((left_fold(operands), s.len())),
        whole(s, depth) == Ok::<Term, Failure>(left_fold(operands)),
{
    lemma_run_is_application(pieces, gaps, operands, depth);
}

/// The three rules are all there is. What parses to a variable is the
/// letter of the variable; what parses to an abstraction is the binder, the
/// parameter and a dot before what parses to the body; and what parses to
/// an application is a run of two pieces or more whose contents parse to
/// operands that fold to the application.
pub proof fn law_expression_only(s: Seq<Symbol>, depth: nat)
    ensures
        expression(s, depth) matches Ok((term, n)) ==> depth >= 1 && match term {
            Term::Variable(name) => n == 1 && s.len() >= 1 && s[0] == Symbol::Letter(name),
            Term::Abstraction(parameter, body) => {
                &&& s.len() >= 3
                &&& s[0] == Symbol::Binder
                &&& s[1] == Symbol::Letter(parameter)
                &&& s[2] == Symbol::Dot
                &&& expression(s.skip(3), (depth - 1) as nat) == Ok::<(Term, nat), Failure>(
                    (*body, (n - 3) as nat),
                )
            },
            Term::Application(_, _) => n == s.len() && exists|
                pieces: Seq<Piece>,
                gaps: Seq<nat>,
                operands: Seq<Term>,
            |
                #[trigger] is_run(s, pieces, gaps, operands, (depth - 1) as nat) && term
                    == left_fold(operands),
        },
{
    if depth >= 1 {
        lemma_application_is_run_of_pieces(s, (depth - 1) as nat);
        lemma_abstraction_is_abstraction(s, (depth - 1) as nat);
    }
}

/// A term written out in symbols parses to itself, if the parser may go as
/// deep as the term is high.
pub proof fn law_round_trip_symbols(term: Term, depth: nat)
    requires
        term.height() <= depth,
    ensures
        expression(term.symbols(), depth) == Ok::<(Term, nat), Failure>(
            (term, term.symbols().len()),
        ),
        whole(term.symbols(), depth) == Ok::<Term, Failure>(term),
    decreases term,
{
    match term {
        Term::Variable(name) => {
            lemma_variable_reads_back(name, depth);
        },
        Term::Abstraction(parameter, body) => {
            law_round_trip_symbols(*body, (depth - 1) as nat);
            lemma_abstraction_reads_back(parameter, *body, depth);
        },
        Term::Application(function, argument) => {
            law_round_trip_symbols(*function, (depth - 1) as nat);
            law_round_trip_symbols(*argument, (depth - 1) as nat);
            lemma_application_reads_back(*function, *argument, depth);
        },
    }
}

/// Applications associate to the left, and blanks between operands are
/// optional: two operands or more, written out one behind the other with
/// any number of blanks before each, parse to the application that folds
/// them to the left, if the parser may go deeper than each operand is high.
pub proof fn law_run_symbols(operands: Seq<Term>, gaps: Seq<nat>, depth: nat)
    requires
        operands.len() >= 2,
        operands.len() == gaps.len(),
        forall|i: int| 0 <= i < operands.len() ==> (#[trigger] operands[i]).height() < depth,
    ensures
        whole(run_symbols(operands, gaps), depth) == Ok::<Term, Failure>(left_fold(operands)),
{
    let below = (depth - 1) as nat;
    assert forall|i: int| 0 <= i < operands.len() implies whole(
        (#[trigger] operands[i]).symbols(),
        below,
    ) == Ok::<Term, Failure>(operands[i]) by {
        law_round_trip_symbols(operands[i], below);
    }
    lemma_canonical_run(operands, gaps, depth);
}

/// A well-formed term written out parses to itself, unless it is higher
/// than the parser goes deep.
pub proof fn law_round_trip(term: Term)
    requires
        term.well_formed(),
        term.height() <= MAX_DEPTH,
    ensures
        parsed_text(term.text()) == Ok::<Term, Failure>(term),
{
    lemma_symbols_of_text(term);
    law_round_trip_symbols(term, MAX_DEPTH as nat);
}

/// A single letter that may name a variable parses to that variable.
pub proof fn law_single_letter(name: char)
    requires
        is_name(name),
    ensures
        parsed_text(seq![name]) == Ok::<Term, Failure>(Term::Variable(name)),
{
    law_round_trip(Term::Variable(name));
}

/// What the parser returns is well formed: every variable and every
/// parameter is named by a letter that the grammar does not use itself.
pub proof fn law_parsed_is_well_formed(text: Seq<char>)
    ensures
        parsed_text(text) matches Ok(term) ==> term.well_formed(),
{
    lemma_letters_of_text(text);
    lemma_expression_well_formed(symbols_of(text), MAX_DEPTH as nat);
}

/// What was parsed, written out, parses to itself again, unless it is
/// higher than the parser goes deep.
pub proof fn law_idempotent(text: Seq<char>)
    ensures
        parsed_text(text) matches Ok(term) ==> term.height() <= MAX_DEPTH ==> parsed_text(
            term.text(),
        ) == Ok::<Term, Failure>(term),
{
    law_parsed_is_well_formed(text);
    if let Ok(term) = parsed_text(text) {
        if term.height() <= MAX_DEPTH {
            law_round_trip(term);
        }
    }
}

/// Applications associate to the left, and spaces between operands are
/// optional: two well-formed operands or more, written out one behind the
/// other with any number of spaces before each, parse to the application
/// that folds them to the left, unless one of them is as high as the parser
/// goes deep.
pub proof fn law_run(operands: Seq<Term>, gaps: Seq<nat>)
    requires
        operands.len() >= 2,
        operands.len() == gaps.len(),
        forall|i: int| 0 <= i < operands.len() ==> (#[trigger] operands[i]).well_formed(),
        forall|i: int|
            0 <= i < operands.len() ==> (#[trigger] operands[i]).height() < MAX_DEPTH,
    ensures
        parsed_text(run_text(operands, gaps)) == Ok::<Term, Failure>(left_fold(operands)),
{
    lemma_symbols_of_run(operands, gaps);
    law_run_symbols(operands, gaps, MAX_DEPTH as nat);
}

/// What parses has its parentheses correctly nested.
pub proof fn law_parsed_is_nested(text: Seq<char>)
    ensures
        parsed_text(text) is Ok ==> well_nested(text),
{
    lemma_whole_is_nested(symbols_of(text), MAX_DEPTH as nat);
    lemma_nesting_of_symbols(text);
}

/// Where the parser fails, it fails at a place of the text or at its end.
pub proof fn law_failure_within(text: Seq<char>)
    ensures
        parsed_text(text) matches Err(f) ==> f.offset <= text.len(),
{
    lemma_whole_within(symbols_of(text), MAX_DEPTH as nat);
}

} // verus!
