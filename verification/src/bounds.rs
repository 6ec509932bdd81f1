//! Every position that the grammar speaks of lies within the text: what an
//! expression takes, where a run of atoms stops, and where a failure is.

use vstd::prelude::*;
use crate::error::Failure;
use crate::grammar::{
    abstraction, application, atom_at, atoms_from, expression, lemma_skip_blanks_bounds,
    operand, skip_blanks, terms, whole, Atom,
};
use crate::group::law_group_end_sound;
use crate::symbol::Symbol;

verus! {

/// A count of symbols taken that is at most `len`, or a failure at most
/// `len` symbols into the text.
pub open spec fn within<T>(r: Result<(T, nat), Failure>, len: nat) -> bool {
    match r {
        Ok((_, n)) => n <= len,
        Err(f) => f.offset <= len,
    }
}

/// Each of the atoms is a part of a text of `len` symbols.
pub open spec fn atoms_within(atoms: Seq<Atom>, len: nat) -> bool {
    forall|j: int| 0 <= j < atoms.len() ==> (#[trigger] atoms[j]).start <= atoms[j].end <= len
}

/// An atom lies behind the position where it was looked for, and within the
/// text; so does the position behind it.
pub proof fn lemma_atom_within(s: Seq<Symbol>, p: nat)
    ensures
        match atom_at(s, p) {
            Ok(Some((atom, next))) => p <= atom.start <= atom.end <= next <= s.len() && p < next,
            Ok(None) => true,
            Err(f) => f.offset == p && p < s.len(),
        },
{
    if p < s.len() && s[p as int] is Open {
        law_group_end_sound(s.skip(p as int + 1));
    }
}

/// A run of atoms lies within the text, and stops within it.
pub proof fn lemma_atoms_within(s: Seq<Symbol>, i: nat)
    requires
        i <= s.len(),
    ensures
        match atoms_from(s, i) {
            Ok(run) => i <= run.stop <= s.len() && atoms_within(run.atoms, s.len()),
            Err(f) => f.offset < s.len(),
        },
    decreases s.len() - i,
{
    let p = skip_blanks(s, i);
    lemma_skip_blanks_bounds(s, i);
    lemma_atom_within(s, p);
    match atom_at(s, p) {
        Ok(Some((atom, next))) => {
            lemma_atoms_within(s, next);
            match atoms_from(s, next) {
                Ok(run) => {
                    let all = seq![atom] + run.atoms;
                    assert forall|j: int| 0 <= j < all.len() implies (#[trigger] all[j]).start
                        <= all[j].end <= s.len() by {
                        if j > 0 {
                            assert(all[j] == run.atoms[j - 1]);
                        }
                    }
                },
                Err(_) => {},
            }
        },
        _ => {},
    }
}

/// An expression takes no more than the text, and fails within it.
pub proof fn lemma_expression_within(s: Seq<Symbol>, depth: nat)
    ensures
        within(expression(s, depth), s.len()),
    decreases depth, 0nat, 0nat,
{
    if depth > 0 {
        let below = (depth - 1) as nat;
        lemma_abstraction_within(s, below);
        lemma_application_within(s, below);
    }
}

/// An expression that is the whole of a text fails within the text.
pub proof fn lemma_whole_within(s: Seq<Symbol>, depth: nat)
    ensures
        whole(s, depth) matches Err(f) ==> f.offset <= s.len(),
    decreases depth, 1nat, 0nat,
{
    lemma_expression_within(s, depth);
}

/// An abstraction takes no more than the text, and fails within it.
pub proof fn lemma_abstraction_within(s: Seq<Symbol>, below: nat)
    ensures
        within(abstraction(s, below).outcome(), s.len()),
    decreases below, 2nat, 0nat,
{
    if s.len() >= 3 {
        lemma_expression_within(s.skip(3), below);
    }
}

/// The expression of an atom within the text fails within the text.
pub proof fn lemma_operand_within(s: Seq<Symbol>, atom: Atom, below: nat)
    requires
        atom.start <= atom.end <= s.len(),
    ensures
        operand(s, atom, below) matches Err(f) ==> f.offset <= s.len(),
    decreases below, 2nat, 0nat,
{
    lemma_whole_within(s.subrange(atom.start as int, atom.end as int), below);
}

/// The expressions of atoms within the text fail within the text.
pub proof fn lemma_terms_within(s: Seq<Symbol>, atoms: Seq<Atom>, below: nat)
    requires
        atoms_within(atoms, s.len()),
    ensures
        match terms(s, atoms, below) {
            Ok(operands) => operands.len() == atoms.len(),
            Err(f) => f.offset <= s.len(),
        },
    decreases below, 3nat, atoms.len(),
{
    if atoms.len() > 0 {
        lemma_operand_within(s, atoms[0], below);
        let others = atoms.drop_first();
        assert forall|j: int| 0 <= j < others.len() implies (#[trigger] others[j]).start
            <= others[j].end <= s.len() by {
            assert(others[j] == atoms[j + 1]);
        }
        lemma_terms_within(s, others, below);
    }
}

/// An application takes the whole of the text, and fails within it.
pub proof fn lemma_application_within(s: Seq<Symbol>, below: nat)
    ensures
        within(application(s, below).outcome(), s.len()),
    decreases below, 4nat, 0nat,
{
    lemma_atoms_within(s, 0);
    match atoms_from(s, 0) {
        Ok(run) => {
            lemma_terms_within(s, run.atoms, below);
        },
        Err(_) => {},
    }
}

} // verus!
