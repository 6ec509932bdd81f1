//! The parser on symbols: one function for each function of the grammar,
//! proved to return what that function says.

use vstd::prelude::*;
use vstd::slice::slice_subrange;
use crate::bounds::{
    atoms_within, lemma_atom_within, lemma_atoms_within, lemma_expression_within,
    lemma_whole_within,
};
use crate::error::{seen, seen_whole, Failure, ParseError, Reason};
use crate::grammar::{
    abstraction, application, atom_at, atoms_from, expression, left_fold,
    lemma_skip_blanks_bounds, missing, operand, prefixed, skip_blanks, terms, variable, whole,
    Atom, Attempt, Run,
};
use crate::group::{find_group_end, law_group_end_sound};
use crate::symbol::Symbol;
use crate::term::Term;

verus! {

/// A part of the text, from `start` up to `end`: an atom as the parser
/// holds it.
#[derive(Debug, Clone, Copy, PartialEq, Eq)]
pub struct Span {
    pub start: usize,
    pub end: usize,
}

impl View for Span {
    type V = Atom;

    open spec fn view(&self) -> Atom {
        Atom { start: self.start as nat, end: self.end as nat }
    }
}

/// The atoms that the spans stand for.
pub open spec fn atoms_of(spans: Seq<Span>) -> Seq<Atom> {
    spans.map_values(|span: Span| span@)
}

/// The attempt, as the grammar speaks of it.
pub open spec fn seen_attempt<T>(a: Attempt<(T, usize), ParseError>) -> Attempt<(T, nat), Failure> {
    match a {
        Attempt::Matched((t, n)) => Attempt::Matched((t, n as nat)),
        Attempt::Declined(e) => Attempt::Declined(e@),
        Attempt::Aborted(e) => Attempt::Aborted(e@),
    }
}

/// The atom read and the position behind it, as the grammar speaks of them.
pub open spec fn seen_atom(r: Result<Option<(Span, usize)>, ParseError>) -> Result<
    Option<(Atom, nat)>,
    Failure,
> {
    match r {
        Ok(Some((span, next))) => Ok(Some((span@, next as nat))),
        Ok(None) => Ok(None),
        Err(e) => Err(e@),
    }
}

/// The run read, as the grammar speaks of it.
pub open spec fn seen_run(r: Result<(Vec<Span>, usize), ParseError>) -> Result<Run, Failure> {
    match r {
        Ok((spans, stop)) => Ok(Run { atoms: atoms_of(spans@), stop: stop as nat }),
        Err(e) => Err(e@),
    }
}

/// The failure, if there is one, as the grammar speaks of it.
pub open spec fn seen_failure(r: Option<ParseError>) -> Option<Failure> {
    match r {
        Some(e) => Some(e@),
        None => None,
    }
}

/// Reads a variable at the start of `s`.
pub fn read_variable(s: &[Symbol]) -> (r: Result<(char, usize), ParseError>)
    ensures
        seen(r) == variable(s@),
{
    if s.len() > 0 {
        if let Symbol::Letter(name) = s[0] {
            return Ok((name, 1));
        }
    }
    Err(ParseError { offset: 0, reason: Reason::ExpectedVariable })
}

/// Tests whether `token` stands at position `i`, and says why if it does not.
pub fn expect(s: &[Symbol], i: usize, token: Symbol) -> (r: Option<ParseError>)
    ensures
        seen_failure(r) == missing(s@, i as nat, token),
{
    if i >= s.len() {
        Some(ParseError { offset: i, reason: Reason::UnexpectedEnd })
    } else if s[i] != token {
        Some(ParseError { offset: i, reason: Reason::ExpectedToken(token) })
    } else {
        None
    }
}

/// Moves from `i` to the first position that holds no blank.
pub fn pass_blanks(s: &[Symbol], i: usize) -> (p: usize)
    ensures
        p == skip_blanks(s@, i as nat),
{
    let mut p = i;
    while p < s.len() && s[p] == Symbol::Blank
        invariant
            skip_blanks(s@, i as nat) == skip_blanks(s@, p as nat),
        decreases s@.len() - p,
    {
        p = p + 1;
    }
    p
}

/// Reads the atom that begins at position `p`, if one does.
pub fn read_atom(s: &[Symbol], p: usize) -> (r: Result<Option<(Span, usize)>, ParseError>)
    ensures
        seen_atom(r) == atom_at(s@, p as nat),
{
    let n = s.len();
    if p >= n {
        Ok(None)
    } else if let Symbol::Letter(_) = s[p] {
        Ok(Some((Span { start: p, end: p + 1 }, p + 1)))
    } else if s[p] == Symbol::Open {
        let inner = slice_subrange(s, p + 1, n);
        match find_group_end(inner) {
            Some(k) => {
                proof {
                    law_group_end_sound(inner@);
                }
                if k < n - p - 1 {
                    Ok(Some((Span { start: p + 1, end: p + 1 + k }, p + 2 + k)))
                } else {
                    Err(ParseError { offset: p, reason: Reason::UnbalancedParentheses })
                }
            },
            None => Err(ParseError { offset: p, reason: Reason::UnbalancedParentheses }),
        }
    } else {
        Ok(None)
    }
}

/// Reads the longest run of atoms from the start of `s`.
pub fn read_atoms(s: &[Symbol]) -> (r: Result<(Vec<Span>, usize), ParseError>)
    ensures
        seen_run(r) == atoms_from(s@, 0),
{
    let mut spans: Vec<Span> = Vec::new();
    let mut i: usize = 0;
    loop
        invariant
            i <= s@.len(),
            atoms_from(s@, 0) == prefixed(atoms_of(spans@), atoms_from(s@, i as nat)),
        decreases s@.len() - i,
    {
        let p = pass_blanks(s, i);
        proof {
            lemma_skip_blanks_bounds(s@, i as nat);
            lemma_atom_within(s@, p as nat);
        }
        match read_atom(s, p) {
            Err(e) => {
                return Err(e);
            },
            Ok(None) => {
                assert(atoms_of(spans@) + Seq::<Atom>::empty() =~= atoms_of(spans@));
                return Ok((spans, i));
            },
            Ok(Some((span, next))) => {
                let ghost before = atoms_of(spans@);
                spans.push(span);
                proof {
                    assert(atoms_of(spans@) =~= before.push(span@));
                    match atoms_from(s@, next as nat) {
                        Ok(run) => {
                            assert(before + (seq![span@] + run.atoms) =~= before.push(span@)
                                + run.atoms);
                        },
                        Err(_) => {},
                    }
                }
                i = next;
            },
        }
    }
}

/// Reads an expression at the start of `s`, through at most `depth` levels.
pub fn read_expression(s: &[Symbol], depth: usize) -> (r: Result<(Term, usize), ParseError>)
    ensures
        seen(r) == expression(s@, depth as nat),
    decreases depth, 0nat, 0nat,
{
    if depth == 0 {
        return Err(ParseError { offset: 0, reason: Reason::TooDeep });
    }
    let below = depth - 1;
    let first = match try_abstraction(s, below) {
        Attempt::Matched(found) => {
            return Ok(found);
        },
        Attempt::Aborted(e) => {
            return Err(e);
        },
        Attempt::Declined(e) => e,
    };
    let second = match try_application(s, below) {
        Attempt::Matched(found) => {
            return Ok(found);
        },
        Attempt::Aborted(e) => {
            return Err(e);
        },
        Attempt::Declined(e) => e,
    };
    match read_variable(s) {
        Ok((name, n)) => Ok((Term::Variable(name), n)),
        Err(third) => Err(first.or_further(second).or_further(third)),
    }
}

/// Reads an expression that is the whole of `s`.
pub fn read_whole(s: &[Symbol], depth: usize) -> (r: Result<Term, ParseError>)
    ensures
        seen_whole(r) == whole(s@, depth as nat),
    decreases depth, 1nat, 0nat,
{
    match read_expression(s, depth) {
        Ok((term, n)) => if n == s.len() {
            Ok(term)
        } else {
            Err(ParseError { offset: n, reason: Reason::TrailingInput })
        },
        Err(e) => Err(e),
    }
}

/// Tries the first alternative, an abstraction, on `s`.
pub fn try_abstraction(s: &[Symbol], below: usize) -> (r: Attempt<(Term, usize), ParseError>)
    ensures
        seen_attempt(r) == abstraction(s@, below as nat),
    decreases below, 2nat, 0nat,
{
    if let Some(e) = expect(s, 0, Symbol::Binder) {
        return Attempt::Declined(e);
    }
    let parameter = match read_variable(slice_subrange(s, 1, s.len())) {
        Err(e) => {
            return Attempt::Declined(e.shifted(1));
        },
        Ok((name, _)) => name,
    };
    if let Some(e) = expect(s, 2, Symbol::Dot) {
        return Attempt::Declined(e);
    }
    let rest = slice_subrange(s, 3, s.len());
    proof {
        lemma_expression_within(rest@, below as nat);
    }
    match read_expression(rest, below) {
        Err(e) => Attempt::Aborted(e.shifted(3)),
        Ok((body, n)) => Attempt::Matched((Term::Abstraction(parameter, Box::new(body)), 3 + n)),
    }
}

/// Reads the expression of one atom, which must be the whole of the atom.
fn read_operand(s: &[Symbol], span: Span, below: usize) -> (r: Result<Term, ParseError>)
    requires
        span.start <= span.end <= s@.len(),
    ensures
        seen_whole(r) == operand(s@, span@, below as nat),
    decreases below, 2nat, 0nat,
{
    let part = slice_subrange(s, span.start, span.end);
    proof {
        lemma_whole_within(part@, below as nat);
    }
    match read_whole(part, below) {
        Ok(term) => Ok(term),
        Err(e) => Err(e.shifted(span.start)),
    }
}

/// Tries the second alternative, an application, on `s`.
pub fn try_application(s: &[Symbol], below: usize) -> (r: Attempt<(Term, usize), ParseError>)
    ensures
        seen_attempt(r) == application(s@, below as nat),
    decreases below, 4nat, 0nat,
{
    let (spans, stop) = match read_atoms(s) {
        Err(e) => {
            return Attempt::Aborted(e);
        },
        Ok(found) => found,
    };
    if spans.len() < 2 {
        return Attempt::Declined(ParseError { offset: stop, reason: Reason::ExpectedVariable });
    }
    if stop < s.len() {
        return Attempt::Declined(ParseError { offset: stop, reason: Reason::TrailingInput });
    }
    let ghost atoms = atoms_of(spans@);
    proof {
        lemma_atoms_within(s@, 0);
        assert(atoms[0] == spans[0]@);
    }
    let mut folded = match read_operand(s, spans[0], below) {
        Err(e) => {
            return Attempt::Aborted(e);
        },
        Ok(term) => term,
    };
    let ghost mut done: Seq<Term> = seq![folded];
    let mut k: usize = 1;
    while k < spans.len()
        invariant
            1 <= k <= spans.len(),
            stop == s@.len(),
            atoms == atoms_of(spans@),
            atoms_from(s@, 0) == Ok::<Run, Failure>(Run { atoms, stop: stop as nat }),
            atoms_within(atoms, s@.len()),
            done.len() == k,
            folded == left_fold(done),
            terms(s@, atoms, below as nat) == match terms(s@, atoms.skip(k as int), below as nat) {
                Ok(others) => Ok(done + others),
                Err(f) => Err(f),
            },
        decreases spans.len() - k,
    {
        proof {
            assert(atoms[k as int] == spans[k as int]@);
            assert(atoms.skip(k as int)[0] == atoms[k as int]);
            assert(atoms.skip(k as int).drop_first() =~= atoms.skip(k + 1));
        }
        match read_operand(s, spans[k], below) {
            Err(e) => {
                return Attempt::Aborted(e);
            },
            Ok(term) => {
                proof {
                    match terms(s@, atoms.skip(k + 1), below as nat) {
                        Ok(others) => {
                            assert(done + (seq![term] + others) =~= done.push(term) + others);
                        },
                        Err(_) => {},
                    }
                    assert(done.push(term).drop_last() =~= done);
                    done = done.push(term);
                }
                folded = Term::Application(Box::new(folded), Box::new(term));
            },
        }
        k = k + 1;
    }
    proof {
        assert(atoms.skip(k as int) =~= Seq::<Atom>::empty());
        assert(done + Seq::<Term>::empty() =~= done);
    }
    Attempt::Matched((folded, s.len()))
}

} // verus!
