//! Nesting: what parses has its parentheses correctly nested.

use vstd::prelude::*;
use crate::bounds::lemma_atoms_within;
use crate::grammar::{
    abstraction, application, atom_at, atoms_from, expression, lemma_skip_blanks_bounds,
    lemma_skipped_are_blanks, skip_blanks, whole, Attempt,
};
use crate::group::{
    excess, law_group_end_sound, lemma_nested_concat, lemma_nested_group,
    lemma_plain_is_nested, well_nested, Bracket, Bracketed,
};
use crate::symbol::{symbols_of, Symbol};

verus! {

/// What stands from `i` up to the first symbol that is no blank is
/// correctly nested.
pub proof fn lemma_blanks_are_nested(s: Seq<Symbol>, i: nat)
    requires
        i <= s.len(),
    ensures
        i <= skip_blanks(s, i) <= s.len(),
        well_nested(s.subrange(i as int, skip_blanks(s, i) as int)),
    decreases s.len() - i,
{
    lemma_skip_blanks_bounds(s, i);
    let p = skip_blanks(s, i);
    let gap = s.subrange(i as int, p as int);
    assert forall|j: int| 0 <= j < gap.len() implies (#[trigger] gap[j]) is Blank by {
        lemma_skipped_are_blanks(s, i, i + j);
    }
    lemma_plain_is_nested(gap);
}

/// An atom and the parentheses around it, if it has any, are correctly
/// nested.
pub proof fn lemma_atom_is_nested(s: Seq<Symbol>, p: nat)
    ensures
        atom_at(s, p) matches Ok(Some((_, next))) ==> p < next <= s.len() && well_nested(
            s.subrange(p as int, next as int),
        ),
{
    if let Ok(Some((atom, next))) = atom_at(s, p) {
        let piece = s.subrange(p as int, next as int);
        if s[p as int] is Letter {
            lemma_plain_is_nested(piece);
        } else {
            let inner = s.skip(p as int + 1);
            law_group_end_sound(inner);
            let content = inner.take(atom.end - atom.start);
            assert(piece =~= seq![Symbol::Open] + content + seq![Symbol::Close]);
            lemma_nested_group(Symbol::Open, content, Symbol::Close);
        }
    }
}

/// A run of atoms that stops at the end of the text is correctly nested,
/// from where it begins.
pub proof fn lemma_run_is_nested(s: Seq<Symbol>, i: nat)
    requires
        i <= s.len(),
    ensures
        atoms_from(s, i) matches Ok(run) ==> run.stop == s.len() ==> well_nested(
            s.skip(i as int),
        ),
    decreases s.len() - i,
{
    let p = skip_blanks(s, i);
    lemma_blanks_are_nested(s, i);
    lemma_atom_is_nested(s, p);
    match atom_at(s, p) {
        Ok(Some((_, next))) => {
            lemma_run_is_nested(s, next);
            if let Ok(run) = atoms_from(s, next) {
                if run.stop == s.len() {
                    let gap = s.subrange(i as int, p as int);
                    let piece = s.subrange(p as int, next as int);
                    lemma_nested_concat(gap, piece);
                    lemma_nested_concat(gap + piece, s.skip(next as int));
                    assert(s.skip(i as int) =~= gap + piece + s.skip(next as int));
                }
            }
        },
        Ok(None) => {
            if i == s.len() {
                lemma_plain_is_nested(s.skip(i as int));
            }
        },
        Err(_) => {},
    }
}

/// What an abstraction takes of a text is correctly nested, if what its
/// body takes is.
proof fn lemma_abstraction_is_nested(s: Seq<Symbol>, below: nat)
    requires
        expression(s.skip(3), below) matches Ok((_, m)) ==> m <= s.skip(3).len() && well_nested(
            s.skip(3).take(m as int),
        ),
    ensures
        abstraction(s, below) matches Attempt::Matched((_, n)) ==> n <= s.len() && well_nested(
            s.take(n as int),
        ),
{
    if let Attempt::Matched((_, n)) = abstraction(s, below) {
        let head = s.take(3);
        let body = s.skip(3).take(n - 3);
        assert(s.skip(1)[0] == s[1]);
        assert forall|i: int| 0 <= i < head.len() implies (#[trigger] head[i]).bracket()
            == Bracket::Neither by {
            assert(head[i] == s[i]);
        }
        lemma_plain_is_nested(head);
        lemma_nested_concat(head, body);
        assert(s.take(n as int) =~= head + body);
    }
}

/// What an application takes of a text, which is the whole of it, is
/// correctly nested.
proof fn lemma_application_is_nested(s: Seq<Symbol>, below: nat)
    ensures
        application(s, below) matches Attempt::Matched((_, n)) ==> n == s.len() && well_nested(
            s.take(n as int),
        ),
{
    if application(s, below) is Matched {
        lemma_atoms_within(s, 0);
        lemma_run_is_nested(s, 0);
        assert(s.skip(0) =~= s);
        assert(s.take(s.len() as int) =~= s);
    }
}

/// What an expression takes of a text is correctly nested.
pub proof fn lemma_expression_is_nested(s: Seq<Symbol>, depth: nat)
    ensures
        expression(s, depth) matches Ok((_, n)) ==> n <= s.len() && well_nested(
            s.take(n as int),
        ),
    decreases depth,
{
    if depth > 0 {
        let below = (depth - 1) as nat;
        lemma_expression_is_nested(s.skip(3), below);
        lemma_abstraction_is_nested(s, below);
        lemma_application_is_nested(s, below);
        if s.len() > 0 && s[0] is Letter {
            assert(s.take(1)[0] == s[0]);
            lemma_plain_is_nested(s.take(1));
        }
    }
}

/// What parses as a whole is correctly nested.
pub proof fn lemma_whole_is_nested(s: Seq<Symbol>, depth: nat)
    ensures
        whole(s, depth) is Ok ==> well_nested(s),
{
    lemma_expression_is_nested(s, depth);
    assert(s.take(s.len() as int) =~= s);
}

/// The symbols of a text have the excess of the text.
pub proof fn lemma_excess_of_symbols(text: Seq<char>)
    ensures
        excess(symbols_of(text)) == excess(text),
    decreases text.len(),
{
    if text.len() > 0 {
        lemma_excess_of_symbols(text.drop_last());
        assert(symbols_of(text).drop_last() =~= symbols_of(text.drop_last()));
    }
}

/// The symbols of a text are correctly nested where the text is.
pub proof fn lemma_nesting_of_symbols(text: Seq<char>)
    ensures
        well_nested(symbols_of(text)) == well_nested(text),
{
    lemma_excess_of_symbols(text);
    assert forall|k: int| 0 <= k <= text.len() implies excess(
        #[trigger] symbols_of(text).take(k),
    ) == excess(text.take(k)) by {
        lemma_excess_of_symbols(text.take(k));
        assert(symbols_of(text).take(k) =~= symbols_of(text.take(k)));
    }
    if well_nested(symbols_of(text)) {
        assert forall|k: int| 0 <= k <= text.len() implies excess(#[trigger] text.take(k))
            >= 0 by {
            assert(excess(symbols_of(text).take(k)) >= 0);
        }
    }
    if well_nested(text) {
        assert forall|k: int| 0 <= k <= symbols_of(text).len() implies excess(
            #[trigger] symbols_of(text).take(k),
        ) >= 0 by {
            assert(excess(text.take(k)) >= 0);
        }
    }
}

} // verus!
