//! The symbols of the grammar, and how a character becomes one.
//!
//! Whether a character is a letter is for the standard library to say, and
//! nothing of its answer is known here but that it depends on the character
//! alone. The grammar is therefore written over symbols, which hold that
//! answer: what it makes of given symbols can be worked out from them.

use vstd::prelude::*;

verus! {

/// The binder that opens an abstraction: the Greek small letter lambda. It
/// is a letter to Unicode and none to the grammar, so that nothing but an
/// abstraction begins with it.
pub const LAMBDA: char = '\u{3bb}';

/// What a character is to the grammar.
#[derive(Debug, Clone, Copy, PartialEq, Eq, Structural)]
pub enum Symbol {
    /// The binder, which opens an abstraction.
    Binder,
    /// The dot between the parameter of an abstraction and its body.
    Dot,
    /// The opening parenthesis.
    Open,
    /// The closing parenthesis.
    Close,
    /// A space or a tab.
    Blank,
    /// A letter other than the binder: the name of a variable.
    Letter(char),
    /// Any other character.
    Other(char),
}

/// The characters to which the grammar itself gives a meaning. Of these only
/// the binder is a letter.
pub open spec fn is_reserved(c: char) -> bool {
    c == LAMBDA || c == '.' || c == '(' || c == ')' || c == ' ' || c == '\t'
}

/// The symbol that `c` is, given whether it is a letter. The grammar's own
/// characters are what they are, letter or not.
pub open spec fn classified(c: char, letter: bool) -> Symbol {
    if c == LAMBDA {
        Symbol::Binder
    } else if c == '.' {
        Symbol::Dot
    } else if c == '(' {
        Symbol::Open
    } else if c == ')' {
        Symbol::Close
    } else if c == ' ' || c == '\t' {
        Symbol::Blank
    } else if letter {
        Symbol::Letter(c)
    } else {
        Symbol::Other(c)
    }
}

/// Whether Unicode gives `c` the Alphabetic property.
pub uninterp spec fn alphabetic(c: char) -> bool;

/// The characters that may name a variable or a parameter: every letter
/// that the grammar does not use itself.
pub open spec fn is_name(c: char) -> bool {
    alphabetic(c) && !is_reserved(c)
}

/// The symbol that `c` is.
pub open spec fn symbol_of(c: char) -> Symbol {
    classified(c, alphabetic(c))
}

/// The symbols of a text, one for each character.
pub open spec fn symbols_of(text: Seq<char>) -> Seq<Symbol> {
    text.map_values(|c: char| symbol_of(c))
}

/// `char::is_alphabetic` of the standard library. It returns whether the
/// character has the Alphabetic property of Unicode: a fixed function of the
/// character, of which nothing more is claimed here.
#[verifier::external_body]
fn has_alphabetic_property(c: char) -> (letter: bool)
    ensures
        letter == alphabetic(c),
{
    c.is_alphabetic()
}

/// Makes a symbol of `c`, given whether it is a letter.
pub fn classify(c: char, letter: bool) -> (symbol: Symbol)
    ensures
        symbol == classified(c, letter),
{
    if c == LAMBDA {
        Symbol::Binder
    } else if c == '.' {
        Symbol::Dot
    } else if c == '(' {
        Symbol::Open
    } else if c == ')' {
        Symbol::Close
    } else if c == ' ' || c == '\t' {
        Symbol::Blank
    } else if letter {
        Symbol::Letter(c)
    } else {
        Symbol::Other(c)
    }
}

/// Makes a symbol of `c`.
pub fn read_symbol(c: char) -> (symbol: Symbol)
    ensures
        symbol == symbol_of(c),
{
    classify(c, has_alphabetic_property(c))
}

/// Makes symbols of a text.
pub fn read_symbols(input: &str) -> (symbols: Vec<Symbol>)
    ensures
        symbols@ == symbols_of(input@),
{
    let mut symbols: Vec<Symbol> = Vec::new();
    let chars = input.chars();
    proof {
        vstd::string::axiom_spec_iter(input);
    }
    for c in it: chars
        invariant
            it.seq() == input@,
            symbols@ == symbols_of(input@.take(it.index())),
    {
        proof {
            let i = it.index();
            assert(symbols_of(input@.take(i + 1)) =~= symbols_of(input@.take(i)).push(
                symbol_of(input@[i]),
            ));
        }
        symbols.push(read_symbol(c));
    }
    proof {
        assert(input@.take(input@.len() as int) =~= input@);
    }
    symbols
}

/// The symbols of two texts, one behind the other, are the symbols of the
/// one and then those of the other.
pub proof fn lemma_symbols_of_concat(a: Seq<char>, b: Seq<char>)
    ensures
        symbols_of(a + b) == symbols_of(a) + symbols_of(b),
{
    assert(symbols_of(a + b) =~= symbols_of(a) + symbols_of(b));
}

} // verus!
