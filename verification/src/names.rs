//! Names: every variable and every parameter of a term that the parser
//! returns is named by a letter that was read as one.

use vstd::prelude::*;
use crate::bounds::{atoms_within, lemma_atoms_within};
use crate::grammar::{
    abstraction, application, atoms_from, expression, left_fold, operand, terms, whole, Atom,
    Attempt,
};
use crate::symbol::{is_name, symbols_of, Symbol};
use crate::term::Term;

verus! {

/// Every letter among the symbols may name a variable.
pub open spec fn letters_are_names(s: Seq<Symbol>) -> bool {
    forall|i: int|
        0 <= i < s.len() ==> ((#[trigger] s[i]) matches Symbol::Letter(name) ==> is_name(name))
}

/// Among the symbols of a text, every letter may name a variable.
pub proof fn lemma_letters_of_text(text: Seq<char>)
    ensures
        letters_are_names(symbols_of(text)),
{
}

/// Folding well-formed terms gives a well-formed term.
pub proof fn lemma_fold_well_formed(operands: Seq<Term>)
    requires
        operands.len() >= 1,
        forall|i: int| 0 <= i < operands.len() ==> (#[trigger] operands[i]).well_formed(),
    ensures
        left_fold(operands).well_formed(),
    decreases operands.len(),
{
    if operands.len() > 1 {
        lemma_fold_well_formed(operands.drop_last());
    }
}

/// Where every letter may name a variable, an expression is well formed.
pub proof fn lemma_expression_well_formed(s: Seq<Symbol>, depth: nat)
    requires
        letters_are_names(s),
    ensures
        expression(s, depth) matches Ok((term, _)) ==> term.well_formed(),
        whole(s, depth) matches Ok(term) ==> term.well_formed(),
    decreases depth, 0nat, 0nat,
{
    if depth > 0 {
        let below = (depth - 1) as nat;
        lemma_abstraction_well_formed(s, below);
        lemma_application_well_formed(s, below);
        if s.len() > 0 {
            assert(s[0] is Letter ==> is_name(s[0]->Letter_0));
        }
    }
}

/// Where every letter may name a variable, an abstraction is well formed.
pub proof fn lemma_abstraction_well_formed(s: Seq<Symbol>, below: nat)
    requires
        letters_are_names(s),
    ensures
        abstraction(s, below) matches Attempt::Matched((term, _)) ==> term.well_formed(),
    decreases below, 2nat, 0nat,
{
    if s.len() >= 3 {
        assert(s.skip(1)[0] == s[1]);
        assert(s[1] is Letter ==> is_name(s[1]->Letter_0));
        let rest = s.skip(3);
        assert forall|i: int| 0 <= i < rest.len() implies ((#[trigger] rest[i]) matches
            Symbol::Letter(name) ==> is_name(name)) by {
            assert(rest[i] == s[i + 3]);
        }
        lemma_expression_well_formed(s.skip(3), below);
    }
}

/// Where every letter may name a variable, the terms of atoms within the
/// text are well formed.
pub proof fn lemma_terms_well_formed(s: Seq<Symbol>, atoms: Seq<Atom>, below: nat)
    requires
        letters_are_names(s),
        atoms_within(atoms, s.len()),
    ensures
        terms(s, atoms, below) matches Ok(operands) ==> operands.len() == atoms.len()
            && forall|i: int| 0 <= i < operands.len() ==> (#[trigger] operands[i]).well_formed(),
    decreases below, 3nat, atoms.len(),
{
    if atoms.len() > 0 {
        let atom = atoms[0];
        let part = s.subrange(atom.start as int, atom.end as int);
        assert forall|i: int| 0 <= i < part.len() implies ((#[trigger] part[i]) matches
            Symbol::Letter(name) ==> is_name(name)) by {
            assert(part[i] == s[i + atom.start]);
        }
        lemma_expression_well_formed(part, below);
        let others = atoms.drop_first();
        assert forall|j: int| 0 <= j < others.len() implies (#[trigger] others[j]).start
            <= others[j].end <= s.len() by {
            assert(others[j] == atoms[j + 1]);
        }
        lemma_terms_well_formed(s, others, below);
        match (operand(s, atom, below), terms(s, others, below)) {
            (Ok(term), Ok(rest)) => {
                let operands = seq![term] + rest;
                assert forall|i: int| 0 <= i < operands.len() implies (
                #[trigger] operands[i]).well_formed() by {
                    if i > 0 {
                        assert(operands[i] == rest[i - 1]);
                    }
                }
            },
            _ => {},
        }
    }
}

/// Where every letter may name a variable, an application is well formed.
pub proof fn lemma_application_well_formed(s: Seq<Symbol>, below: nat)
    requires
        letters_are_names(s),
    ensures
        application(s, below) matches Attempt::Matched((term, _)) ==> term.well_formed(),
    decreases below, 4nat, 0nat,
{
    lemma_atoms_within(s, 0);
    match atoms_from(s, 0) {
        Ok(run) => {
            lemma_terms_well_formed(s, run.atoms, below);
            match terms(s, run.atoms, below) {
                Ok(operands) => {
                    if operands.len() >= 1 {
                        lemma_fold_well_formed(operands);
                    }
                },
                Err(_) => {},
            }
        },
        Err(_) => {},
    }
}

} // verus!
