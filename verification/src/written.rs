//! Texts written out, and read back: what the grammar makes of a text that
//! is put together from texts of which it is known what the grammar makes
//! of them.

use vstd::prelude::*;
use crate::error::Failure;
use crate::grammar::{
    abstraction, application, atom_at, atoms_from, expression, left_fold, operand, prefixed,
    skip_blanks, terms, whole, Atom, Attempt, Run,
};
use crate::group::{group_end, law_group_end_of_nested, well_nested};
use crate::nested::lemma_whole_is_nested;
use crate::symbol::{lemma_symbols_of_concat, symbols_of, Symbol, LAMBDA};
use crate::term::{
    blanks, operand_symbols, operand_text, run_symbols, run_text, spaces, Term,
};

verus! {

/// An operand of an application as it is written: a letter, or a group
/// around a text.
pub enum Piece {
    /// A letter.
    Letter(char),
    /// A text between parentheses.
    Group(Seq<Symbol>),
}

impl Piece {
    /// What of the piece is parsed as its expression: the letter, or the
    /// text between the parentheses.
    pub open spec fn content(self) -> Seq<Symbol> {
        match self {
            Piece::Letter(name) => seq![Symbol::Letter(name)],
            Piece::Group(text) => text,
        }
    }

    /// The piece written out.
    pub open spec fn symbols(self) -> Seq<Symbol> {
        match self {
            Piece::Letter(name) => seq![Symbol::Letter(name)],
            Piece::Group(text) => seq![Symbol::Open] + text + seq![Symbol::Close],
        }
    }

    /// The atom that the piece makes where it stands at position `p`.
    pub open spec fn atom(self, p: nat) -> Atom {
        match self {
            Piece::Letter(_) => Atom { start: p, end: p + 1 },
            Piece::Group(text) => Atom { start: p + 1, end: p + 1 + text.len() },
        }
    }
}

/// The pieces written out as a run: one behind the other, the piece at `i`
/// behind `gaps[i]` blanks.
pub open spec fn written_run(pieces: Seq<Piece>, gaps: Seq<nat>) -> Seq<Symbol>
    decreases pieces.len(),
{
    if pieces.len() == 0 {
        Seq::empty()
    } else {
        blanks(gaps[0]) + pieces[0].symbols() + written_run(
            pieces.drop_first(),
            gaps.drop_first(),
        )
    }
}

/// The atoms that a run of pieces makes where it begins at position `p`.
pub open spec fn run_atoms(pieces: Seq<Piece>, gaps: Seq<nat>, p: nat) -> Seq<Atom>
    decreases pieces.len(),
{
    if pieces.len() == 0 {
        Seq::empty()
    } else {
        seq![pieces[0].atom(p + gaps[0])] + run_atoms(
            pieces.drop_first(),
            gaps.drop_first(),
            p + gaps[0] + pieces[0].symbols().len(),
        )
    }
}

/// The text `s` is a run of the pieces, two or more, with the given numbers
/// of blanks before them, and the content of each piece parses to the
/// operand of its place.
pub open spec fn is_run(
    s: Seq<Symbol>,
    pieces: Seq<Piece>,
    gaps: Seq<nat>,
    operands: Seq<Term>,
    below: nat,
) -> bool {
    &&& pieces.len() >= 2
    &&& pieces.len() == gaps.len()
    &&& pieces.len() == operands.len()
    &&& s == written_run(pieces, gaps)
    &&& forall|i: int|
        0 <= i < pieces.len() ==> whole((#[trigger] pieces[i]).content(), below) == Ok::<
            Term,
            Failure,
        >(operands[i])
}

/// The piece that writes a term as an operand: its letter for a variable, a
/// group around the term written out for any other term.
pub open spec fn piece_of(term: Term) -> Piece {
    match term {
        Term::Variable(name) => Piece::Letter(name),
        _ => Piece::Group(term.symbols()),
    }
}

/// Where a piece whose content is correctly nested stands at position `p`
/// of `s`, an atom begins at `p`: it holds the content of the piece, and
/// ends where the piece ends.
pub proof fn lemma_piece_is_atom(s: Seq<Symbol>, p: nat, piece: Piece)
    requires
        p + piece.symbols().len() <= s.len(),
        s.subrange(p as int, p as int + piece.symbols().len()) == piece.symbols(),
        well_nested(piece.content()),
    ensures
        skip_blanks(s, p) == p,
        atom_at(s, p) == Ok::<Option<(Atom, nat)>, Failure>(
            Some((piece.atom(p), p + piece.symbols().len())),
        ),
        piece.atom(p).start <= piece.atom(p).end <= s.len(),
        s.subrange(piece.atom(p).start as int, piece.atom(p).end as int) == piece.content(),
{
    let written = piece.symbols();
    let n = written.len() as int;
    let at = p as int;
    assert(s[at] == s.subrange(at, at + n)[0]);
    match piece {
        Piece::Letter(_) => {
            assert(s.subrange(at, at + 1) =~= piece.content());
        },
        Piece::Group(content) => {
            let rest = s.skip(at + n);
            assert(s.skip(at + 1) =~= content + seq![Symbol::Close] + rest) by {
                assert forall|i: int| 0 <= i < s.len() - at - 1 implies s.skip(at + 1)[i] == (
                content + seq![Symbol::Close] + rest)[i] by {
                    if i < n - 1 {
                        assert(s[at + 1 + i] == s.subrange(at, at + n)[i + 1]);
                    }
                }
            }
            law_group_end_of_nested(content, Symbol::Close, rest);
            assert(s.subrange(at + 1, at + 1 + content.len()) =~= content) by {
                assert forall|i: int| 0 <= i < content.len() implies s.subrange(
                    at + 1,
                    at + 1 + content.len(),
                )[i] == content[i] by {
                    assert(s[at + 1 + i] == s.subrange(at, at + n)[i + 1]);
                }
            }
        },
    }
}

/// Past blanks, and then past what is no blank, skipping blanks stops.
pub proof fn lemma_skip_blanks_stops(s: Seq<Symbol>, p: nat, count: nat)
    requires
        p + count < s.len(),
        forall|i: int| p <= i < p + count ==> s[i] is Blank,
        !(s[p as int + count] is Blank),
    ensures
        skip_blanks(s, p) == p + count,
    decreases count,
{
    if count > 0 {
        lemma_skip_blanks_stops(s, p + 1, (count - 1) as nat);
    }
}

/// A run of pieces makes as many atoms as it has pieces.
pub proof fn lemma_run_atoms_len(pieces: Seq<Piece>, gaps: Seq<nat>, p: nat)
    ensures
        run_atoms(pieces, gaps, p).len() == pieces.len(),
    decreases pieces.len(),
{
    if pieces.len() > 0 {
        lemma_run_atoms_len(
            pieces.drop_first(),
            gaps.drop_first(),
            p + gaps[0] + pieces[0].symbols().len(),
        );
    }
}

/// Where a run of pieces stands from position `p` to the end of `s`, its
/// first piece stands behind its blanks, and behind it the other pieces.
pub proof fn lemma_run_unfolds(s: Seq<Symbol>, p: nat, pieces: Seq<Piece>, gaps: Seq<nat>)
    requires
        pieces.len() >= 1,
        p <= s.len(),
        s.skip(p as int) == written_run(pieces, gaps),
    ensures
        ({
            let start = p as int + gaps[0];
            let end = start + pieces[0].symbols().len();
            &&& start < end <= s.len()
            &&& forall|i: int| p <= i < start ==> s[i] is Blank
            &&& !(s[start] is Blank)
            &&& s.subrange(start, end) == pieces[0].symbols()
            &&& s.skip(end) == written_run(pieces.drop_first(), gaps.drop_first())
            &&& pieces.len() == 1 ==> end == s.len()
        }),
{
    let gap = blanks(gaps[0]);
    let first = pieces[0].symbols();
    let others = written_run(pieces.drop_first(), gaps.drop_first());
    let at = p as int;
    let start = at + gaps[0];
    let end = start + first.len();
    let run = s.skip(at);
    assert(run.len() == s.len() - at);
    assert(run == gap + first + others);
    assert forall|i: int| at <= i < start implies s[i] is Blank by {
        assert(run[i - at] == s[i]);
    }
    assert(run[gaps[0] as int] == s[start]);
    assert(s.subrange(start, end) =~= first) by {
        assert forall|i: int| 0 <= i < first.len() implies s.subrange(start, end)[i]
            == first[i] by {
            assert(run[gaps[0] + i] == s[start + i]);
        }
    }
    assert(s.skip(end) =~= others) by {
        assert forall|i: int| 0 <= i < others.len() implies s.skip(end)[i] == others[i] by {
            assert(run[gaps[0] + first.len() + i] == s[end + i]);
        }
    }
}

/// Where a run of pieces stands from position `p` to the end of `s`, the
/// run of atoms from `p` on is made of their atoms, and stops at the end.
pub proof fn lemma_run_is_atoms(s: Seq<Symbol>, p: nat, pieces: Seq<Piece>, gaps: Seq<nat>)
    requires
        pieces.len() >= 1,
        p <= s.len(),
        s.skip(p as int) == written_run(pieces, gaps),
        forall|i: int| 0 <= i < pieces.len() ==> well_nested((#[trigger] pieces[i]).content()),
    ensures
        atoms_from(s, p) == Ok::<Run, Failure>(
            Run { atoms: run_atoms(pieces, gaps, p), stop: s.len() },
        ),
    decreases pieces.len(),
{
    let first = pieces[0];
    let others = pieces.drop_first();
    let start = p + gaps[0];
    let end = start + first.symbols().len();
    let atom = first.atom(start);
    lemma_run_unfolds(s, p, pieces, gaps);
    lemma_piece_is_atom(s, start, first);
    lemma_skip_blanks_stops(s, p, gaps[0]);
    assert(atoms_from(s, p) == prefixed(seq![atom], atoms_from(s, end)));
    if pieces.len() == 1 {
        assert(skip_blanks(s, s.len()) == s.len());
        assert(atoms_from(s, end) == Ok::<Run, Failure>(
            Run { atoms: Seq::empty(), stop: s.len() },
        ));
        assert(run_atoms(others, gaps.drop_first(), end) =~= Seq::<Atom>::empty());
        assert(seq![atom] + Seq::<Atom>::empty() =~= run_atoms(pieces, gaps, p));
    } else {
        assert forall|i: int| 0 <= i < others.len() implies well_nested(
            (#[trigger] others[i]).content(),
        ) by {
            assert(others[i] == pieces[i + 1]);
        }
        lemma_run_is_atoms(s, end, others, gaps.drop_first());
    }
}

/// Where a run of pieces stands from position `p` to the end of `s`, and
/// the content of each piece parses to an operand, the terms of their atoms
/// are the operands.
pub proof fn lemma_run_is_terms(
    s: Seq<Symbol>,
    p: nat,
    pieces: Seq<Piece>,
    gaps: Seq<nat>,
    operands: Seq<Term>,
    below: nat,
)
    requires
        p <= s.len(),
        s.skip(p as int) == written_run(pieces, gaps),
        pieces.len() == operands.len(),
        forall|i: int|
            0 <= i < pieces.len() ==> whole((#[trigger] pieces[i]).content(), below) == Ok::<
                Term,
                Failure,
            >(operands[i]),
    ensures
        terms(s, run_atoms(pieces, gaps, p), below) == Ok::<Seq<Term>, Failure>(operands),
    decreases pieces.len(),
{
    if pieces.len() == 0 {
        assert(operands =~= Seq::<Term>::empty());
    } else {
        let first = pieces[0];
        let others = pieces.drop_first();
        let start = p + gaps[0];
        let end = start + first.symbols().len();
        let atom = first.atom(start);
        let atoms = run_atoms(pieces, gaps, p);
        lemma_run_unfolds(s, p, pieces, gaps);
        lemma_whole_is_nested(first.content(), below);
        lemma_piece_is_atom(s, start, first);
        assert(operand(s, atom, below) == Ok::<Term, Failure>(operands[0]));
        assert(atoms[0] == atom);
        assert(atoms.drop_first() =~= run_atoms(others, gaps.drop_first(), end));
        assert forall|i: int| 0 <= i < others.len() implies whole(
            (#[trigger] others[i]).content(),
            below,
        ) == Ok::<Term, Failure>(operands.drop_first()[i]) by {
            assert(others[i] == pieces[i + 1]);
        }
        lemma_run_is_terms(s, end, others, gaps.drop_first(), operands.drop_first(), below);
        assert(seq![operands[0]] + operands.drop_first() =~= operands);
    }
}

/// A run of two pieces or more, the content of each of which parses to an
/// operand, is the application that folds the operands to the left,
/// however many blanks stand before each piece.
pub proof fn lemma_run_is_application(
    pieces: Seq<Piece>,
    gaps: Seq<nat>,
    operands: Seq<Term>,
    depth: nat,
)
    requires
        depth >= 1,
        pieces.len() >= 2,
        pieces.len() == operands.len(),
        forall|i: int|
            0 <= i < pieces.len() ==> whole(
                (#[trigger] pieces[i]).content(),
                (depth - 1) as nat,
            ) == Ok::<Term, Failure>(operands[i]),
    ensures
        expression(written_run(pieces, gaps), depth) == Ok::<(Term, nat), Failure>(
            (left_fold(operands), written_run(pieces, gaps).len()),
        ),
        whole(written_run(pieces, gaps), depth) == Ok::<Term, Failure>(left_fold(operands)),
{
    let s = written_run(pieces, gaps);
    let below = (depth - 1) as nat;
    assert(s.skip(0) =~= s);
    assert(abstraction(s, below) is Declined) by {
        lemma_run_unfolds(s, 0, pieces, gaps);
        if gaps[0] == 0 {
            assert(s[0] == s.subrange(0, pieces[0].symbols().len() as int)[0]);
        }
    }
    assert(application(s, below) == Attempt::<(Term, nat), Failure>::Matched(
        (left_fold(operands), s.len()),
    )) by {
        assert forall|i: int| 0 <= i < pieces.len() implies well_nested(
            (#[trigger] pieces[i]).content(),
        ) by {
            lemma_whole_is_nested(pieces[i].content(), below);
        }
        lemma_run_is_atoms(s, 0, pieces, gaps);
        lemma_run_atoms_len(pieces, gaps, 0);
        lemma_run_is_terms(s, 0, pieces, gaps, operands, below);
    }
}

/// A letter is a variable, and no application.
pub proof fn lemma_variable_reads_back(name: char, depth: nat)
    requires
        depth >= 1,
    ensures
        expression(seq![Symbol::Letter(name)], depth) == Ok::<(Term, nat), Failure>(
            (Term::Variable(name), 1),
        ),
        whole(seq![Symbol::Letter(name)], depth) == Ok::<Term, Failure>(Term::Variable(name)),
{
    let s = seq![Symbol::Letter(name)];
    let below = (depth - 1) as nat;
    assert(application(s, below) is Declined) by {
        assert(skip_blanks(s, 0) == 0);
        assert(skip_blanks(s, 1) == 1);
        assert(atom_at(s, 1) == Ok::<Option<(Atom, nat)>, Failure>(None));
        assert(atoms_from(s, 1) == Ok::<Run, Failure>(Run { atoms: Seq::empty(), stop: 1 }));
        let atom = Atom { start: 0, end: 1 };
        assert(atom_at(s, 0) == Ok::<Option<(Atom, nat)>, Failure>(Some((atom, 1))));
        assert(atoms_from(s, 0) == prefixed(seq![atom], atoms_from(s, 1)));
        assert((seq![atom] + Seq::<Atom>::empty()).len() == 1);
    }
    assert(abstraction(s, below) is Declined);
}

/// Behind the binder, a parameter and a dot, what the grammar makes of a
/// text is what it makes of the rest as the body.
pub proof fn lemma_abstraction_reads_body(parameter: char, rest: Seq<Symbol>, depth: nat)
    requires
        depth >= 1,
    ensures
        expression(seq![Symbol::Binder, Symbol::Letter(parameter), Symbol::Dot] + rest, depth)
            == match expression(rest, (depth - 1) as nat) {
            Ok((body, n)) => Ok::<(Term, nat), Failure>(
                (Term::Abstraction(parameter, Box::new(body)), 3 + n),
            ),
            Err(f) => Err(f.shifted(3)),
        },
{
    let s = seq![Symbol::Binder, Symbol::Letter(parameter), Symbol::Dot] + rest;
    let below = (depth - 1) as nat;
    assert(s.skip(3) =~= rest);
    assert(s.skip(1)[0] == Symbol::Letter(parameter));
    assert(!(abstraction(s, below) is Declined));
}

/// An application written out is the run of its function and its argument
/// with one blank between them, and is what the two fold to.
pub proof fn lemma_application_is_run(function: Term, argument: Term)
    ensures
        run_symbols(seq![function, argument], seq![0nat, 1nat]) == Term::Application(
            Box::new(function),
            Box::new(argument),
        ).symbols(),
        left_fold(seq![function, argument]) == Term::Application(
            Box::new(function),
            Box::new(argument),
        ),
{
    let operands = seq![function, argument];
    let gaps = seq![0nat, 1nat];
    assert(left_fold(operands) == Term::Application(Box::new(function), Box::new(argument)))
        by {
        assert(operands.drop_last() =~= seq![function]);
        assert(left_fold(seq![function]) == function);
    }
    assert(run_symbols(operands, gaps) =~= operand_symbols(function) + seq![Symbol::Blank]
        + operand_symbols(argument)) by {
        assert(operands.drop_first() =~= seq![argument]);
        assert(gaps.drop_first() =~= seq![1nat]);
        assert(seq![argument].drop_first() =~= Seq::<Term>::empty());
        assert(run_symbols(Seq::<Term>::empty(), seq![1nat].drop_first())
            =~= Seq::<Symbol>::empty());
        assert(run_symbols(seq![argument], seq![1nat]) =~= seq![Symbol::Blank]
            + operand_symbols(argument));
    }
}

/// The canonical run of operands is the run of their pieces.
pub proof fn lemma_run_of_pieces(operands: Seq<Term>, gaps: Seq<nat>)
    ensures
        run_symbols(operands, gaps) == written_run(
            operands.map_values(|t: Term| piece_of(t)),
            gaps,
        ),
    decreases operands.len(),
{
    let pieces = operands.map_values(|t: Term| piece_of(t));
    if operands.len() > 0 {
        lemma_run_of_pieces(operands.drop_first(), gaps.drop_first());
        assert(pieces.drop_first() =~= operands.drop_first().map_values(|t: Term| piece_of(t)));
        assert(operand_symbols(operands[0]) == pieces[0].symbols());
    }
}

/// A run of operands written out, each of which parses to itself where it
/// is written out alone, is the application that folds them to the left.
pub proof fn lemma_canonical_run(operands: Seq<Term>, gaps: Seq<nat>, depth: nat)
    requires
        depth >= 1,
        operands.len() >= 2,
        forall|i: int|
            0 <= i < operands.len() ==> whole(
                (#[trigger] operands[i]).symbols(),
                (depth - 1) as nat,
            ) == Ok::<Term, Failure>(operands[i]),
    ensures
        expression(run_symbols(operands, gaps), depth) == Ok::<(Term, nat), Failure>(
            (left_fold(operands), run_symbols(operands, gaps).len()),
        ),
        whole(run_symbols(operands, gaps), depth) == Ok::<Term, Failure>(left_fold(operands)),
{
    let below = (depth - 1) as nat;
    let pieces = operands.map_values(|t: Term| piece_of(t));
    lemma_run_of_pieces(operands, gaps);
    assert forall|i: int| 0 <= i < pieces.len() implies whole(
        (#[trigger] pieces[i]).content(),
        below,
    ) == Ok::<Term, Failure>(operands[i]) by {
        assert(pieces[i] == piece_of(operands[i]));
    }
    lemma_run_is_application(pieces, gaps, operands, depth);
}

/// An abstraction written out, whose body parses to itself where it is
/// written out alone, parses to itself.
pub proof fn lemma_abstraction_reads_back(parameter: char, body: Term, depth: nat)
    requires
        depth >= 1,
        expression(body.symbols(), (depth - 1) as nat) == Ok::<(Term, nat), Failure>(
            (body, body.symbols().len()),
        ),
    ensures
        ({
            let term = Term::Abstraction(parameter, Box::new(body));
            &&& expression(term.symbols(), depth) == Ok::<(Term, nat), Failure>(
                (term, term.symbols().len()),
            )
            &&& whole(term.symbols(), depth) == Ok::<Term, Failure>(term)
        }),
{
    lemma_abstraction_reads_body(parameter, body.symbols(), depth);
}

/// Two operands written out with a blank between them, each of which
/// parses to itself where it is written out alone, are the application of
/// the one to the other.
pub proof fn lemma_pair_reads_back(function: Term, argument: Term, depth: nat)
    requires
        depth >= 1,
        whole(function.symbols(), (depth - 1) as nat) == Ok::<Term, Failure>(function),
        whole(argument.symbols(), (depth - 1) as nat) == Ok::<Term, Failure>(argument),
    ensures
        ({
            let operands = seq![function, argument];
            let written = run_symbols(operands, seq![0nat, 1nat]);
            &&& expression(written, depth) == Ok::<(Term, nat), Failure>(
                (left_fold(operands), written.len()),
            )
            &&& whole(written, depth) == Ok::<Term, Failure>(left_fold(operands))
        }),
{
    let operands = seq![function, argument];
    assert forall|i: int| 0 <= i < operands.len() implies whole(
        (#[trigger] operands[i]).symbols(),
        (depth - 1) as nat,
    ) == Ok::<Term, Failure>(operands[i]) by {
        if i == 0 {
            assert(operands[i] == function);
        } else {
            assert(operands[i] == argument);
        }
    }
    lemma_canonical_run(operands, seq![0nat, 1nat], depth);
}

/// An application written out, whose function and argument parse to
/// themselves where they are written out alone, parses to itself.
pub proof fn lemma_application_reads_back(function: Term, argument: Term, depth: nat)
    requires
        depth >= 1,
        whole(function.symbols(), (depth - 1) as nat) == Ok::<Term, Failure>(function),
        whole(argument.symbols(), (depth - 1) as nat) == Ok::<Term, Failure>(argument),
    ensures
        ({
            let term = Term::Application(Box::new(function), Box::new(argument));
            &&& expression(term.symbols(), depth) == Ok::<(Term, nat), Failure>(
                (term, term.symbols().len()),
            )
            &&& whole(term.symbols(), depth) == Ok::<Term, Failure>(term)
        }),
{
    lemma_application_is_run(function, argument);
    lemma_pair_reads_back(function, argument, depth);
}

/// A well-formed term written out in characters has the symbols of the
/// term written out in symbols.
pub proof fn lemma_symbols_of_text(term: Term)
    requires
        term.well_formed(),
    ensures
        symbols_of(term.text()) == term.symbols(),
        symbols_of(operand_text(term)) == operand_symbols(term),
    decreases term,
{
    match term {
        Term::Variable(name) => {
            assert(symbols_of(seq![name]) =~= seq![Symbol::Letter(name)]);
        },
        Term::Abstraction(parameter, body) => {
            let head = seq![LAMBDA, parameter, '.'];
            lemma_symbols_of_text(*body);
            lemma_symbols_of_concat(head, body.text());
            assert(symbols_of(head) =~= seq![
                Symbol::Binder,
                Symbol::Letter(parameter),
                Symbol::Dot,
            ]);
        },
        Term::Application(function, argument) => {
            let first = operand_text(*function);
            let second = operand_text(*argument);
            lemma_symbols_of_text(*function);
            lemma_symbols_of_text(*argument);
            lemma_symbols_of_concat(first, seq![' ']);
            lemma_symbols_of_concat(first + seq![' '], second);
            assert(symbols_of(seq![' ']) =~= seq![Symbol::Blank]);
        },
    }
    if !(term is Variable) {
        lemma_symbols_of_concat(seq!['('], term.text());
        lemma_symbols_of_concat(seq!['('] + term.text(), seq![')']);
        assert(symbols_of(seq!['(']) =~= seq![Symbol::Open]);
        assert(symbols_of(seq![')']) =~= seq![Symbol::Close]);
    }
}

/// A run of well-formed operands written out in characters has the symbols
/// of the run written out in symbols.
pub proof fn lemma_symbols_of_run(operands: Seq<Term>, gaps: Seq<nat>)
    requires
        forall|i: int| 0 <= i < operands.len() ==> (#[trigger] operands[i]).well_formed(),
    ensures
        symbols_of(run_text(operands, gaps)) == run_symbols(operands, gaps),
    decreases operands.len(),
{
    if operands.len() == 0 {
        assert(symbols_of(Seq::<char>::empty()) =~= Seq::<Symbol>::empty());
    } else {
        let gap = spaces(gaps[0]);
        let first = operand_text(operands[0]);
        let others = operands.drop_first();
        lemma_symbols_of_text(operands[0]);
        assert forall|i: int| 0 <= i < others.len() implies (
        #[trigger] others[i]).well_formed() by {
            assert(others[i] == operands[i + 1]);
        }
        lemma_symbols_of_run(others, gaps.drop_first());
        lemma_symbols_of_concat(gap, first);
        lemma_symbols_of_concat(gap + first, run_text(others, gaps.drop_first()));
        assert(symbols_of(gap) =~= blanks(gaps[0]));
    }
}

} // verus!
