//! The abstract syntax of the untyped lambda calculus.

use vstd::prelude::*;
use crate::symbol::{is_name, Symbol, LAMBDA};

verus! {

/// A term of the untyped lambda calculus. Every node owns its children, so
/// a term is a finite tree.
#[derive(Debug, PartialEq, Eq)]
pub enum Term {
    /// A variable, named by one character.
    Variable(char),
    /// A function of one parameter: the parameter, then the body.
    Abstraction(char, Box<Term>),
    /// A function applied to an argument: the function, then the argument.
    Application(Box<Term>, Box<Term>),
}

impl Term {
    /// Every variable and every parameter of the term is named by a
    /// character that `is_name` admits.
    pub open spec fn well_formed(self) -> bool
        decreases self,
    {
        match self {
            Term::Variable(name) => is_name(name),
            Term::Abstraction(parameter, body) => is_name(parameter) && body.well_formed(),
            Term::Application(function, argument) => function.well_formed()
                && argument.well_formed(),
        }
    }

    /// The term written out in symbols: a variable as its name; an
    /// abstraction as the binder, the parameter, a dot and the body; an
    /// application as its function, a blank and its argument, each of them
    /// in parentheses unless it is a variable.
    pub open spec fn symbols(self) -> Seq<Symbol>
        decreases self, 0nat,
    {
        match self {
            Term::Variable(name) => seq![Symbol::Letter(name)],
            Term::Abstraction(parameter, body) => seq![
                Symbol::Binder,
                Symbol::Letter(parameter),
                Symbol::Dot,
            ] + body.symbols(),
            Term::Application(function, argument) => operand_symbols(*function) + seq![
                Symbol::Blank,
            ] + operand_symbols(*argument),
        }
    }

    /// The term written out in characters, as `symbols` writes it in
    /// symbols, with a space for the blank.
    pub open spec fn text(self) -> Seq<char>
        decreases self, 0nat,
    {
        match self {
            Term::Variable(name) => seq![name],
            Term::Abstraction(parameter, body) => seq![LAMBDA, parameter, '.'] + body.text(),
            Term::Application(function, argument) => operand_text(*function) + seq![' ']
                + operand_text(*argument),
        }
    }

    /// The number of nodes on the longest path from the root to a variable.
    pub open spec fn height(self) -> nat
        decreases self,
    {
        match self {
            Term::Variable(_) => 1,
            Term::Abstraction(_, body) => 1 + body.height(),
            Term::Application(function, argument) => 1 + if function.height()
                >= argument.height() {
                function.height()
            } else {
                argument.height()
            },
        }
    }
}

/// The symbols of a term as they stand in an application: as they are for
/// a variable, in parentheses for any other term.
pub open spec fn operand_symbols(term: Term) -> Seq<Symbol>
    decreases term, 1nat,
{
    if term is Variable {
        term.symbols()
    } else {
        seq![Symbol::Open] + term.symbols() + seq![Symbol::Close]
    }
}

/// The text of a term as it stands in an application: as it is for a
/// variable, in parentheses for any other term.
pub open spec fn operand_text(term: Term) -> Seq<char>
    decreases term, 1nat,
{
    if term is Variable {
        term.text()
    } else {
        seq!['('] + term.text() + seq![')']
    }
}

/// So many blanks.
pub open spec fn blanks(count: nat) -> Seq<Symbol> {
    Seq::new(count, |i: int| Symbol::Blank)
}

/// So many spaces.
pub open spec fn spaces(count: nat) -> Seq<char> {
    Seq::new(count, |i: int| ' ')
}

/// The symbols of a run of operands: each as it stands in an application,
/// the operand at `i` behind `gaps[i]` blanks.
pub open spec fn run_symbols(operands: Seq<Term>, gaps: Seq<nat>) -> Seq<Symbol>
    decreases operands.len(),
{
    if operands.len() == 0 {
        Seq::empty()
    } else {
        blanks(gaps[0]) + operand_symbols(operands[0]) + run_symbols(
            operands.drop_first(),
            gaps.drop_first(),
        )
    }
}

/// The text of a run of operands: each as it stands in an application, the
/// operand at `i` behind `gaps[i]` spaces.
pub open spec fn run_text(operands: Seq<Term>, gaps: Seq<nat>) -> Seq<char>
    decreases operands.len(),
{
    if operands.len() == 0 {
        Seq::empty()
    } else {
        spaces(gaps[0]) + operand_text(operands[0]) + run_text(
            operands.drop_first(),
            gaps.drop_first(),
        )
    }
}

} // verus!
