use lambda_ogham::error::{ParseError, Reason};
use lambda_ogham::grammar::{Attempt, MAX_DEPTH};
use lambda_ogham::group::{find_group_end, Bracket, Bracketed};
use lambda_ogham::parser::parse_symbols;
use lambda_ogham::reader::{
    expect, pass_blanks, read_atom, read_atoms, read_expression, read_variable, read_whole,
    try_abstraction, try_application, Span,
};
use lambda_ogham::symbol::{classify, read_symbol, read_symbols, Symbol, LAMBDA};
use lambda_ogham::term::Term;

fn letter(name: char) -> Symbol {
    Symbol::Letter(name)
}

fn variable(name: char) -> Term {
    Term::Variable(name)
}

fn apply(function: Term, argument: Term) -> Term {
    Term::Application(Box::new(function), Box::new(argument))
}

#[test]
fn the_binder_is_the_small_lambda() {
    assert_eq!(LAMBDA, 'λ');
}

#[test]
fn the_characters_of_the_grammar_are_symbols_of_their_own() {
    for is_letter in [false, true] {
        assert_eq!(classify('λ', is_letter), Symbol::Binder);
        assert_eq!(classify('.', is_letter), Symbol::Dot);
        assert_eq!(classify('(', is_letter), Symbol::Open);
        assert_eq!(classify(')', is_letter), Symbol::Close);
        assert_eq!(classify(' ', is_letter), Symbol::Blank);
        assert_eq!(classify('\t', is_letter), Symbol::Blank);
    }
}

#[test]
fn other_characters_are_letters_or_not() {
    assert_eq!(classify('x', true), Symbol::Letter('x'));
    assert_eq!(classify('x', false), Symbol::Other('x'));
    assert_eq!(classify('7', false), Symbol::Other('7'));
}

#[test]
fn unicode_says_what_a_letter_is() {
    assert_eq!(read_symbol('x'), Symbol::Letter('x'));
    assert_eq!(read_symbol('Ω'), Symbol::Letter('Ω'));
    assert_eq!(read_symbol('京'), Symbol::Letter('京'));
    assert_eq!(read_symbol('7'), Symbol::Other('7'));
    assert_eq!(read_symbol('_'), Symbol::Other('_'));
    assert_eq!(read_symbol('\n'), Symbol::Other('\n'));
    assert_eq!(read_symbol('💝'), Symbol::Other('💝'));
    assert_eq!(read_symbol('λ'), Symbol::Binder);
}

#[test]
fn a_text_has_one_symbol_for_each_character() {
    assert_eq!(read_symbols(""), vec![]);
    assert_eq!(
        read_symbols("λé.(a\tb) 1"),
        vec![
            Symbol::Binder,
            letter('é'),
            Symbol::Dot,
            Symbol::Open,
            letter('a'),
            Symbol::Blank,
            letter('b'),
            Symbol::Close,
            Symbol::Blank,
            Symbol::Other('1'),
        ]
    );
}

#[test]
fn symbols_parse_without_a_text() {
    let identity = [Symbol::Binder, letter('x'), Symbol::Dot, letter('x')];
    assert_eq!(
        parse_symbols(&identity),
        Ok(Term::Abstraction('x', Box::new(variable('x'))))
    );
    let run = [letter('a'), letter('b'), Symbol::Blank, letter('c')];
    assert_eq!(
        parse_symbols(&run),
        Ok(apply(apply(variable('a'), variable('b')), variable('c')))
    );
    assert_eq!(
        parse_symbols(&[Symbol::Other('1')]),
        Err(ParseError { offset: 0, reason: Reason::ExpectedToken(Symbol::Binder) })
    );
}

#[test]
fn brackets_of_characters_and_of_symbols() {
    assert_eq!('('.read_bracket(), Bracket::Opening);
    assert_eq!(')'.read_bracket(), Bracket::Closing);
    assert_eq!('x'.read_bracket(), Bracket::Neither);
    assert_eq!(Symbol::Open.read_bracket(), Bracket::Opening);
    assert_eq!(Symbol::Close.read_bracket(), Bracket::Closing);
    assert_eq!(Symbol::Letter('(').read_bracket(), Bracket::Neither);
}

#[test]
fn the_end_of_a_group() {
    let chars: Vec<char> = "(a) (b)) c".chars().collect();
    assert_eq!(find_group_end(&chars), Some(7));
    let open: Vec<char> = "(a".chars().collect();
    assert_eq!(find_group_end(&open), None);
    let none: Vec<char> = Vec::new();
    assert_eq!(find_group_end(&none), None);
    let plain: Vec<char> = "a b".chars().collect();
    assert_eq!(find_group_end(&plain), Some(3));
    assert_eq!(find_group_end(&read_symbols("(a) (b)) c")), Some(7));
    assert_eq!(find_group_end(&read_symbols("(")), None);
}

#[test]
fn variables_and_tokens() {
    assert_eq!(read_variable(&read_symbols("xy")), Ok(('x', 1)));
    assert_eq!(
        read_variable(&read_symbols(" x")),
        Err(ParseError { offset: 0, reason: Reason::ExpectedVariable })
    );
    let symbols = read_symbols("λx.");
    assert_eq!(expect(&symbols, 0, Symbol::Binder), None);
    assert_eq!(expect(&symbols, 2, Symbol::Dot), None);
    assert_eq!(
        expect(&symbols, 1, Symbol::Dot),
        Some(ParseError { offset: 1, reason: Reason::ExpectedToken(Symbol::Dot) })
    );
    assert_eq!(
        expect(&symbols, 3, Symbol::Dot),
        Some(ParseError { offset: 3, reason: Reason::UnexpectedEnd })
    );
    assert_eq!(
        expect(&symbols, 9, Symbol::Dot),
        Some(ParseError { offset: 9, reason: Reason::UnexpectedEnd })
    );
}

#[test]
fn blanks_are_passed() {
    let symbols = read_symbols("a \t b");
    assert_eq!(pass_blanks(&symbols, 0), 0);
    assert_eq!(pass_blanks(&symbols, 1), 4);
    assert_eq!(pass_blanks(&symbols, 5), 5);
    assert_eq!(pass_blanks(&symbols, 8), 8);
}

#[test]
fn atoms_one_by_one() {
    let symbols = read_symbols("a(b c)d(");
    assert_eq!(read_atom(&symbols, 0), Ok(Some((Span { start: 0, end: 1 }, 1))));
    assert_eq!(read_atom(&symbols, 1), Ok(Some((Span { start: 2, end: 5 }, 6))));
    assert_eq!(read_atom(&symbols, 3), Ok(None));
    assert_eq!(read_atom(&symbols, 5), Ok(None));
    assert_eq!(read_atom(&symbols, 8), Ok(None));
    assert_eq!(read_atom(&symbols, 20), Ok(None));
    assert_eq!(
        read_atom(&symbols, 7),
        Err(ParseError { offset: 7, reason: Reason::UnbalancedParentheses })
    );
}

#[test]
fn runs_of_atoms() {
    assert_eq!(
        read_atoms(&read_symbols(" a (b c)d  .")),
        Ok((
            vec![
                Span { start: 1, end: 2 },
                Span { start: 4, end: 7 },
                Span { start: 8, end: 9 }
            ],
            9
        ))
    );
    assert_eq!(read_atoms(&read_symbols("  ")), Ok((vec![], 0)));
    assert_eq!(read_atoms(&read_symbols("λx.x")), Ok((vec![], 0)));
    assert_eq!(
        read_atoms(&read_symbols("a (b")),
        Err(ParseError { offset: 2, reason: Reason::UnbalancedParentheses })
    );
}

#[test]
fn the_alternatives_decline_or_abort() {
    let not_an_abstraction = read_symbols("x y");
    assert_eq!(
        try_abstraction(&not_an_abstraction, 4),
        Attempt::Declined(ParseError { offset: 0, reason: Reason::ExpectedToken(Symbol::Binder) })
    );
    let without_body = read_symbols("λx.");
    assert_eq!(
        try_abstraction(&without_body, 4),
        Attempt::Aborted(ParseError { offset: 3, reason: Reason::UnexpectedEnd })
    );
    let single = read_symbols("(x y)");
    assert_eq!(
        try_application(&single, 4),
        Attempt::Declined(ParseError { offset: 5, reason: Reason::ExpectedVariable })
    );
    let open = read_symbols("x (y");
    assert_eq!(
        try_application(&open, 4),
        Attempt::Aborted(ParseError { offset: 2, reason: Reason::UnbalancedParentheses })
    );
    let bad_operand = read_symbols("x (y.)");
    assert_eq!(
        try_application(&bad_operand, 4),
        Attempt::Aborted(ParseError { offset: 4, reason: Reason::TrailingInput })
    );
    let application = read_symbols("x y");
    assert_eq!(
        try_application(&application, 4),
        Attempt::Matched((apply(variable('x'), variable('y')), 3))
    );
}

#[test]
fn the_depth_is_counted_in_expressions() {
    let symbols = read_symbols("a (b (c d))");
    let too_deep = |offset| Err(ParseError { offset, reason: Reason::TooDeep });
    assert_eq!(read_whole(&symbols, 0), too_deep(0));
    assert_eq!(read_whole(&symbols, 1), too_deep(0));
    assert_eq!(read_whole(&symbols, 2), too_deep(3));
    assert_eq!(read_whole(&symbols, 3), too_deep(6));
    assert_eq!(
        read_whole(&symbols, 4),
        Ok(apply(
            variable('a'),
            apply(variable('b'), apply(variable('c'), variable('d')))
        ))
    );
    assert_eq!(read_expression(&read_symbols("x"), 1), Ok((variable('x'), 1)));
    assert_eq!(read_expression(&read_symbols("x"), 0), too_deep(0).map(|t: Term| (t, 0)));
    assert_eq!(MAX_DEPTH, 256);
}

#[test]
fn failures_are_shifted_and_compared() {
    let near = ParseError { offset: 1, reason: Reason::ExpectedVariable };
    let far = ParseError { offset: 4, reason: Reason::TrailingInput };
    let tie = ParseError { offset: 1, reason: Reason::UnexpectedEnd };
    assert_eq!(near.shifted(3), ParseError { offset: 4, reason: Reason::ExpectedVariable });
    assert_eq!(near.or_further(far), far);
    assert_eq!(far.or_further(near), far);
    assert_eq!(near.or_further(tie), near);
    assert_eq!(tie.or_further(near), tie);
}
