//! The grammar, as functions on sequences of symbols.
//!
//! An expression is one of three things, tried in this order: an
//! abstraction, an application, a variable. Every function here reads from
//! the start of the text it is given and counts offsets from there.

use vstd::prelude::*;
use crate::error::{Failure, Reason};
use crate::group::group_end;
use crate::symbol::{symbols_of, Symbol};
use crate::term::Term;

verus! {

/// How many expressions may stand one inside the other: the body of an
/// abstraction stands inside the abstraction, an operand inside its
/// application. The parser follows each with a call of its own, so that this
/// bounds its use of the stack; what lies deeper fails with
/// `Reason::TooDeep`. The operands of one application stand side by side,
/// however many they are: there is no limit on the length of a run, nor on
/// the height of the term that a run folds to.
pub const MAX_DEPTH: usize = 256;

/// What an alternative of the grammar makes of an input.
#[derive(Debug, PartialEq, Eq)]
pub enum Attempt<T, E> {
    /// The alternative applies, and this is what it read.
    Matched(T),
    /// The alternative does not apply to this input: the next one is tried.
    Declined(E),
    /// The alternative applies and the input is malformed: no other
    /// alternative is tried, and the failure is that of the whole parse.
    Aborted(E),
}

impl<T, E> Attempt<T, E> {
    /// The attempt as a result, for a caller that tries nothing else.
    pub open spec fn outcome(self) -> Result<T, E> {
        match self {
            Attempt::Matched(t) => Ok(t),
            Attempt::Declined(e) => Err(e),
            Attempt::Aborted(e) => Err(e),
        }
    }

    /// Makes a result of the attempt, for a caller that tries nothing else.
    pub fn into_result(self) -> (r: Result<T, E>)
        ensures
            r == self.outcome(),
    {
        match self {
            Attempt::Matched(t) => Ok(t),
            Attempt::Declined(e) => Err(e),
            Attempt::Aborted(e) => Err(e),
        }
    }
}

/// One operand of an application: the part of the text that is parsed as
/// its expression, from `start` up to `end`. For a variable this is its one
/// letter, for a group what stands between its parentheses.
pub struct Atom {
    pub start: nat,
    pub end: nat,
}

/// A run of atoms, and the place just behind the last of them.
pub struct Run {
    pub atoms: Seq<Atom>,
    pub stop: nat,
}

/// A variable at the start of `s`: its name and its length, which is one.
/// Where the text has ended or holds something else, a variable was due.
pub open spec fn variable(s: Seq<Symbol>) -> Result<(char, nat), Failure> {
    if s.len() > 0 && s[0] is Letter {
        Ok((s[0]->Letter_0, 1))
    } else {
        Err(Failure { offset: 0, reason: Reason::ExpectedVariable })
    }
}

/// Why `token` does not stand at position `i` of `s`, if it does not.
pub open spec fn missing(s: Seq<Symbol>, i: nat, token: Symbol) -> Option<Failure> {
    if i >= s.len() {
        Some(Failure { offset: i, reason: Reason::UnexpectedEnd })
    } else if s[i as int] != token {
        Some(Failure { offset: i, reason: Reason::ExpectedToken(token) })
    } else {
        None
    }
}

/// The first position from `i` on that holds no blank.
pub open spec fn skip_blanks(s: Seq<Symbol>, i: nat) -> nat
    decreases s.len() - i,
{
    if i < s.len() && s[i as int] is Blank {
        skip_blanks(s, i + 1)
    } else {
        i
    }
}

/// Skipping blanks moves to the right, and not beyond the end of the text.
pub proof fn lemma_skip_blanks_bounds(s: Seq<Symbol>, i: nat)
    ensures
        i <= skip_blanks(s, i),
        i <= s.len() ==> skip_blanks(s, i) <= s.len(),
    decreases s.len() - i,
{
    if i < s.len() && s[i as int] is Blank {
        lemma_skip_blanks_bounds(s, i + 1);
    }
}

/// Every symbol from `i` up to where skipping blanks stops is a blank.
pub proof fn lemma_skipped_are_blanks(s: Seq<Symbol>, i: nat, j: int)
    requires
        i <= j < skip_blanks(s, i),
        i <= s.len(),
    ensures
        j < s.len(),
        s[j] is Blank,
    decreases s.len() - i,
{
    if i < s.len() && s[i as int] is Blank {
        if j > i {
            lemma_skipped_are_blanks(s, i + 1, j);
        }
    }
}

/// The atom that begins at position `p`, with the position behind it; `None`
/// where no atom begins there. An opening parenthesis begins a group: it
/// must have its closing parenthesis.
pub open spec fn atom_at(s: Seq<Symbol>, p: nat) -> Result<Option<(Atom, nat)>, Failure> {
    if p >= s.len() {
        Ok(None)
    } else if s[p as int] is Letter {
        Ok(Some((Atom { start: p, end: p + 1 }, p + 1)))
    } else if s[p as int] is Open {
        match group_end(s.skip(p as int + 1)) {
            Some(k) => if p + 1 + k < s.len() {
                Ok(Some((Atom { start: p + 1, end: p + 1 + k }, p + 2 + k)))
            } else {
                Err(Failure { offset: p, reason: Reason::UnbalancedParentheses })
            },
            None => Err(Failure { offset: p, reason: Reason::UnbalancedParentheses }),
        }
    } else {
        Ok(None)
    }
}

/// The run `r` with the atoms `before` in front of it.
pub open spec fn prefixed(before: Seq<Atom>, r: Result<Run, Failure>) -> Result<Run, Failure> {
    match r {
        Ok(run) => Ok(Run { atoms: before + run.atoms, stop: run.stop }),
        Err(f) => Err(f),
    }
}

/// The longest run of atoms from position `i` on. Blanks may stand before
/// each atom and need not; the run stops behind its last atom.
pub open spec fn atoms_from(s: Seq<Symbol>, i: nat) -> Result<Run, Failure>
    decreases s.len() - i,
{
    match atom_at(s, skip_blanks(s, i)) {
        Err(f) => Err(f),
        Ok(None) => Ok(Run { atoms: Seq::empty(), stop: i }),
        Ok(Some((atom, next))) => {
            proof {
                lemma_skip_blanks_bounds(s, i);
            }
            prefixed(seq![atom], atoms_from(s, next))
        },
    }
}

/// The first alternative: the binder, a parameter, a dot, and the body,
/// which is an expression that may use `below` levels and takes what it
/// takes of the rest. The alternative applies where the dot is reached.
pub open spec fn abstraction(s: Seq<Symbol>, below: nat) -> Attempt<(Term, nat), Failure>
    decreases below, 2nat, 0nat,
{
    match missing(s, 0, Symbol::Binder) {
        Some(f) => Attempt::Declined(f),
        None => match variable(s.skip(1)) {
            Err(f) => Attempt::Declined(f.shifted(1)),
            Ok((parameter, _)) => match missing(s, 2, Symbol::Dot) {
                Some(f) => Attempt::Declined(f),
                None => match expression(s.skip(3), below) {
                    Err(f) => Attempt::Aborted(f.shifted(3)),
                    Ok((body, n)) => Attempt::Matched(
                        (Term::Abstraction(parameter, Box::new(body)), 3 + n),
                    ),
                },
            },
        },
    }
}

/// The expression of one atom, which must be the whole of the atom.
pub open spec fn operand(s: Seq<Symbol>, atom: Atom, below: nat) -> Result<Term, Failure>
    decreases below, 2nat, 0nat,
{
    match whole(s.subrange(atom.start as int, atom.end as int), below) {
        Ok(term) => Ok(term),
        Err(f) => Err(f.shifted(atom.start)),
    }
}

/// The expressions of the atoms, in the order of the atoms; the first
/// failure is the failure of all.
pub open spec fn terms(s: Seq<Symbol>, atoms: Seq<Atom>, below: nat) -> Result<Seq<Term>, Failure>
    decreases below, 3nat, atoms.len(),
{
    if atoms.len() == 0 {
        Ok(Seq::empty())
    } else {
        match operand(s, atoms[0], below) {
            Err(f) => Err(f),
            Ok(term) => match terms(s, atoms.drop_first(), below) {
                Err(f) => Err(f),
                Ok(others) => Ok(seq![term] + others),
            },
        }
    }
}

/// The terms joined into one application that associates to the left.
pub open spec fn left_fold(terms: Seq<Term>) -> Term
    decreases terms.len(),
{
    if terms.len() <= 1 {
        terms[0]
    } else {
        Term::Application(Box::new(left_fold(terms.drop_last())), Box::new(terms.last()))
    }
}

/// The second alternative: a run of two atoms or more that takes the whole
/// of `s`, each atom an expression that may use `below` levels; the terms
/// of the atoms are folded to the left. The alternative applies where such
/// a run is found; a group left open is a failure of the whole parse.
pub open spec fn application(s: Seq<Symbol>, below: nat) -> Attempt<(Term, nat), Failure>
    decreases below, 4nat, 0nat,
{
    match atoms_from(s, 0) {
        Err(f) => Attempt::Aborted(f),
        Ok(run) => if run.atoms.len() < 2 {
            Attempt::Declined(Failure { offset: run.stop, reason: Reason::ExpectedVariable })
        } else if run.stop < s.len() {
            Attempt::Declined(Failure { offset: run.stop, reason: Reason::TrailingInput })
        } else {
            match terms(s, run.atoms, below) {
                Err(f) => Attempt::Aborted(f),
                Ok(operands) => Attempt::Matched((left_fold(operands), s.len())),
            }
        },
    }
}

/// An expression at the start of `s`, with the number of symbols it takes:
/// the first of the three alternatives that applies. Where none applies, the
/// failure is that of the alternative that got furthest, and of the earlier
/// one where two got equally far. `depth` is the number of expressions that
/// may still stand one inside the other, this one included.
pub open spec fn expression(s: Seq<Symbol>, depth: nat) -> Result<(Term, nat), Failure>
    decreases depth, 0nat, 0nat,
{
    if depth == 0 {
        Err(Failure { offset: 0, reason: Reason::TooDeep })
    } else {
        let below = (depth - 1) as nat;
        match abstraction(s, below) {
            Attempt::Matched(found) => Ok(found),
            Attempt::Aborted(f) => Err(f),
            Attempt::Declined(first) => match application(s, below) {
                Attempt::Matched(found) => Ok(found),
                Attempt::Aborted(f) => Err(f),
                Attempt::Declined(second) => match variable(s) {
                    Ok((name, n)) => Ok((Term::Variable(name), n)),
                    Err(third) => Err(first.or_further(second).or_further(third)),
                },
            },
        }
    }
}

/// An expression that is the whole of `s`.
pub open spec fn whole(s: Seq<Symbol>, depth: nat) -> Result<Term, Failure>
    decreases depth, 1nat, 0nat,
{
    match expression(s, depth) {
        Ok((term, n)) => if n == s.len() {
            Ok(term)
        } else {
            Err(Failure { offset: n, reason: Reason::TrailingInput })
        },
        Err(f) => Err(f),
    }
}

/// What the parser makes of symbols: the term that the whole of them
/// denotes, or the failure.
pub open spec fn parsed_symbols(s: Seq<Symbol>) -> Result<Term, Failure> {
    whole(s, MAX_DEPTH as nat)
}

/// What the parser makes of a text: what it makes of its symbols.
pub open spec fn parsed_text(text: Seq<char>) -> Result<Term, Failure> {
    parsed_symbols(symbols_of(text))
}

} // verus!
