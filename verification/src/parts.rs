//! Texts taken apart: what parses as an application is a run of pieces whose
//! contents parse.

use vstd::prelude::*;
use crate::bounds::lemma_atoms_within;
use crate::error::Failure;
use crate::grammar::{
    abstraction, application, atom_at, atoms_from, expression, left_fold,
    lemma_skip_blanks_bounds, lemma_skipped_are_blanks, operand, skip_blanks, terms,
    variable, whole, Atom, Attempt,
};
use crate::group::{law_group_end_sound, Bracketed};
use crate::symbol::Symbol;
use crate::term::{blanks, Term};
use crate::written::{is_run, written_run, Piece};

verus! {

/// The pieces of the run of atoms that begins at position `i`.
pub open spec fn read_pieces(s: Seq<Symbol>, i: nat) -> Seq<Piece>
    decreases s.len() - i,
{
    let p = skip_blanks(s, i);
    match atom_at(s, p) {
        Ok(Some((atom, next))) => {
            proof {
                lemma_skip_blanks_bounds(s, i);
            }
            let piece = if s[p as int] is Letter {
                Piece::Letter(s[p as int]->Letter_0)
            } else {
                Piece::Group(s.subrange(atom.start as int, atom.end as int))
            };
            seq![piece] + read_pieces(s, next)
        },
        _ => Seq::empty(),
    }
}

/// The numbers of blanks before the pieces of the run of atoms that begins
/// at position `i`.
pub open spec fn read_gaps(s: Seq<Symbol>, i: nat) -> Seq<nat>
    decreases s.len() - i,
{
    let p = skip_blanks(s, i);
    match atom_at(s, p) {
        Ok(Some((_, next))) => {
            proof {
                lemma_skip_blanks_bounds(s, i);
            }
            seq![(p - i) as nat] + read_gaps(s, next)
        },
        _ => Seq::empty(),
    }
}

/// The atom at `p` is its piece written out: the part of the text from `p`
/// up to the position behind the atom.
proof fn lemma_atom_is_piece(s: Seq<Symbol>, p: nat)
    ensures
        atom_at(s, p) matches Ok(Some((atom, next))) ==> {
            let piece = if s[p as int] is Letter {
                Piece::Letter(s[p as int]->Letter_0)
            } else {
                Piece::Group(s.subrange(atom.start as int, atom.end as int))
            };
            &&& p < next <= s.len()
            &&& piece.symbols() == s.subrange(p as int, next as int)
            &&& piece.atom(p) == atom
            &&& piece.content() == s.subrange(atom.start as int, atom.end as int)
        },
{
    if let Ok(Some((atom, next))) = atom_at(s, p) {
        if s[p as int] is Letter {
            assert(seq![s[p as int]] =~= s.subrange(p as int, next as int));
        } else {
            let inner = s.skip(p as int + 1);
            let content = s.subrange(atom.start as int, atom.end as int);
            law_group_end_sound(inner);
            assert(inner[atom.end - atom.start] == s[atom.end as int]);
            assert(s[atom.end as int] == Symbol::Close);
            assert(seq![Symbol::Open] + content + seq![Symbol::Close] =~= s.subrange(
                p as int,
                next as int,
            ));
        }
    }
}

/// A run of atoms that stops at the end of the text is the run of its
/// pieces written out, and its atoms are the atoms of the pieces, each of
/// which holds the content of its piece.
pub proof fn lemma_run_is_pieces(s: Seq<Symbol>, i: nat)
    requires
        i <= s.len(),
    ensures
        atoms_from(s, i) matches Ok(run) ==> run.stop == s.len() ==> {
            let pieces = read_pieces(s, i);
            let gaps = read_gaps(s, i);
            &&& pieces.len() == run.atoms.len()
            &&& gaps.len() == run.atoms.len()
            &&& s.skip(i as int) == written_run(pieces, gaps)
            &&& forall|k: int|
                0 <= k < pieces.len() ==> (#[trigger] pieces[k]).content() == s.subrange(
                    run.atoms[k].start as int,
                    run.atoms[k].end as int,
                )
        },
    decreases s.len() - i,
{
    let p = skip_blanks(s, i);
    lemma_skip_blanks_bounds(s, i);
    lemma_atom_is_piece(s, p);
    match atom_at(s, p) {
        Ok(Some((atom, next))) => {
            lemma_run_is_pieces(s, next);
            if let Ok(rest) = atoms_from(s, next) {
                if rest.stop == s.len() {
                    let pieces = read_pieces(s, i);
                    let gaps = read_gaps(s, i);
                    let gap = blanks((p - i) as nat);
                    assert(s.subrange(i as int, p as int) =~= gap) by {
                        assert forall|j: int| 0 <= j < p - i implies s.subrange(
                            i as int,
                            p as int,
                        )[j] == gap[j] by {
                            lemma_skipped_are_blanks(s, i, i + j);
                        }
                    }
                    assert(pieces.drop_first() =~= read_pieces(s, next));
                    assert(gaps.drop_first() =~= read_gaps(s, next));
                    assert(s.skip(i as int) =~= gap + pieces[0].symbols() + s.skip(next as int));
                    let atoms = seq![atom] + rest.atoms;
                    assert forall|k: int| 0 <= k < pieces.len() implies (
                    #[trigger] pieces[k]).content() == s.subrange(
                        atoms[k].start as int,
                        atoms[k].end as int,
                    ) by {
                        if k > 0 {
                            assert(pieces[k] == read_pieces(s, next)[k - 1]);
                            assert(atoms[k] == rest.atoms[k - 1]);
                        }
                    }
                }
            }
        },
        Ok(None) => {
            if i == s.len() {
                assert(s.skip(i as int) =~= Seq::<Symbol>::empty());
            }
        },
        Err(_) => {},
    }
}

/// Where the atoms have terms, each atom parses to its term.
pub proof fn lemma_terms_are_operands(s: Seq<Symbol>, atoms: Seq<Atom>, below: nat)
    ensures
        terms(s, atoms, below) matches Ok(operands) ==> {
            &&& operands.len() == atoms.len()
            &&& forall|k: int|
                0 <= k < atoms.len() ==> whole(
                    s.subrange((#[trigger] atoms[k]).start as int, atoms[k].end as int),
                    below,
                ) == Ok::<Term, Failure>(operands[k])
        },
    decreases atoms.len(),
{
    if atoms.len() > 0 {
        let others = atoms.drop_first();
        lemma_terms_are_operands(s, others, below);
        if let Ok(operands) = terms(s, atoms, below) {
            let first = operand(s, atoms[0], below)->Ok_0;
            let rest = terms(s, others, below)->Ok_0;
            assert(operands == seq![first] + rest);
            assert forall|k: int| 0 <= k < atoms.len() implies whole(
                s.subrange((#[trigger] atoms[k]).start as int, atoms[k].end as int),
                below,
            ) == Ok::<Term, Failure>(operands[k]) by {
                if k > 0 {
                    assert(atoms[k] == others[k - 1]);
                    assert(operands[k] == rest[k - 1]);
                }
            }
        }
    }
}

/// What parses as an application is a run of pieces whose contents parse
/// to operands, and is what the operands fold to.
pub proof fn lemma_application_is_run_of_pieces(s: Seq<Symbol>, below: nat)
    ensures
        application(s, below) matches Attempt::Matched((term, n)) ==> {
            &&& n == s.len()
            &&& term is Application
            &&& exists|pieces: Seq<Piece>, gaps: Seq<nat>, operands: Seq<Term>|
                #[trigger] is_run(s, pieces, gaps, operands, below) && term == left_fold(
                    operands,
                )
        },
{
    if let Attempt::Matched((term, n)) = application(s, below) {
        let run = atoms_from(s, 0)->Ok_0;
        let operands = terms(s, run.atoms, below)->Ok_0;
        let pieces = read_pieces(s, 0);
        let gaps = read_gaps(s, 0);
        lemma_atoms_within(s, 0);
        lemma_run_is_pieces(s, 0);
        lemma_terms_are_operands(s, run.atoms, below);
        assert(s.skip(0) =~= s);
        assert(is_run(s, pieces, gaps, operands, below));
    }
}

/// What parses as an abstraction is an abstraction, behind whose binder,
/// parameter and dot stands what parses to its body.
pub proof fn lemma_abstraction_is_abstraction(s: Seq<Symbol>, below: nat)
    ensures
        abstraction(s, below) matches Attempt::Matched((term, n)) ==> {
            &&& s.len() >= 3
            &&& n >= 3
            &&& s[0] == Symbol::Binder
            &&& s[2] == Symbol::Dot
            &&& term matches Term::Abstraction(parameter, body) && s[1] == Symbol::Letter(
                parameter,
            ) && expression(s.skip(3), below) == Ok::<(Term, nat), Failure>(
                (*body, (n - 3) as nat),
            )
        },
{
    if abstraction(s, below) is Matched {
        assert(s.skip(1)[0] == s[1]);
    }
}

/// A text that begins with the binder is no application and no variable,
/// and the two fail where the text begins.
pub proof fn lemma_binder_is_no_operand(s: Seq<Symbol>, below: nat)
    requires
        s.len() >= 1,
        s[0] == Symbol::Binder,
    ensures
        application(s, below) matches Attempt::Declined(f) && f.offset == 0,
        variable(s) matches Err(f) && f.offset == 0,
{
    assert(skip_blanks(s, 0) == 0);
    assert(atom_at(s, 0) == Ok::<Option<(Atom, nat)>, Failure>(None));
}

} // verus!
