use lambda_ogham::error::{ParseError, Reason};
use lambda_ogham::parser::{
    parse, parse_lambda_abstraction, parse_lambda_application, parse_lambda_expression,
    parse_lambda_variable, parse_string_balanced_expression, parse_string_variable,
};
use lambda_ogham::symbol::Symbol;
use lambda_ogham::term::Term;

fn var(name: char) -> Term {
    Term::Variable(name)
}

fn abs(parameter: char, body: Term) -> Term {
    Term::Abstraction(parameter, Box::new(body))
}

fn app(function: Term, argument: Term) -> Term {
    Term::Application(Box::new(function), Box::new(argument))
}

fn fails(offset: usize, reason: Reason) -> Result<Term, ParseError> {
    Err(ParseError { offset, reason })
}

#[test]
fn test_parse_lambda_application_simple() {
    let expr = String::from("x y");
    let parsed_expr = parse_lambda_application(&expr);
    assert!(parsed_expr.is_ok());
    let (input, expr) = parsed_expr.unwrap();
    assert_eq!(input, "");
    assert_eq!(expr, app(var('x'), var('y')));
}

#[test]
fn test_parse_lambda_variable() {
    let expr = String::from("x");
    let parsed_expr = parse_lambda_variable(&expr);
    assert!(parsed_expr.is_ok());
    let (input, expr) = parsed_expr.unwrap();
    assert_eq!(input, "");
    assert_eq!(expr, var('x'));
}

#[test]
fn test_parse_lambda_abstraction() {
    let expr = String::from("λx.x");
    let parsed_expr = parse_lambda_abstraction(&expr);
    assert!(parsed_expr.is_ok());
    let (input, expr) = parsed_expr.unwrap();
    assert_eq!(input, "");
    assert_eq!(expr, abs('x', var('x')));
}

#[test]
fn test_parse_lambda_application_complex_1() {
    let expr = String::from("(x y)z");
    let parsed_expr = parse_lambda_application(&expr);
    assert_eq!(parsed_expr, Ok(("", app(app(var('x'), var('y')), var('z')))));
}

#[test]
fn test_parse_lambda_application_complex_2() {
    let expr = String::from("(x y)(a b)");
    let parsed_expr = parse_lambda_application(&expr);
    assert_eq!(
        parsed_expr,
        Ok(("", app(app(var('x'), var('y')), app(var('a'), var('b')))))
    );
}

#[test]
fn test_parse_balanced_expression() {
    let expr = String::from("λx.f (x x))");
    let (rest, parsed) = parse_string_balanced_expression(&expr).unwrap();
    assert_eq!(rest, ")");
    assert_eq!(parsed, "λx.f (x x)");
}

#[test]
fn test_parse_balanced_expression_2() {
    let expr = String::from("x x)");
    let (rest, parsed) = parse_string_balanced_expression(&expr).unwrap();
    assert_eq!(rest, ")");
    assert_eq!(parsed, "x x");
}

#[test]
fn test_balanced_expression() {
    let expr = String::from("(x y)");
    let parsed_expr = parse_string_balanced_expression(&expr);
    assert!(parsed_expr.is_ok());
    let (input, expr) = parsed_expr.unwrap();
    assert_eq!(input, "");
    assert_eq!(expr, "(x y)");
}

#[test]
fn test_application() {
    let expr = String::from("f(x y)");
    let parsed_expr = parse_lambda_application(&expr);
    assert_eq!(parsed_expr, Ok(("", app(var('f'), app(var('x'), var('y'))))));
}

#[test]
fn test_parse_lambda_expression_true() {
    let expr = String::from("λx.λy.x");
    let parsed_expr = parse_lambda_expression(&expr);
    assert_eq!(parsed_expr, Ok(("", abs('x', abs('y', var('x'))))));
}

#[test]
fn test_parse_lambda_expression_false() {
    let expr = String::from("λx.λy.y");
    let parsed_expr = parse_lambda_expression(&expr);
    assert_eq!(parsed_expr, Ok(("", abs('x', abs('y', var('y'))))));
}

#[test]
fn test_parse_lambda_expression_s() {
    let expr = String::from("λx.λy.λz.(x z)(y z)");
    let parsed_expr = parse_lambda_expression(&expr);
    assert_eq!(
        parsed_expr,
        Ok((
            "",
            abs(
                'x',
                abs(
                    'y',
                    abs('z', app(app(var('x'), var('z')), app(var('y'), var('z'))))
                )
            )
        ))
    );
}

#[test]
fn test_parse_lambda_expression_optional_space_application_1() {
    let expr = String::from("f (x x)");
    let parsed_expr = parse_lambda_expression(&expr);
    assert_eq!(parsed_expr, Ok(("", app(var('f'), app(var('x'), var('x'))))));
}

#[test]
fn test_parse_lambda_expression_optional_space_application_2() {
    let expr = String::from("f(x x)");
    let parsed_expr = parse_lambda_expression(&expr);
    assert_eq!(parsed_expr, Ok(("", app(var('f'), app(var('x'), var('x'))))));
}

#[test]
fn test_parse_lambda_expression_y_part() {
    let expr = String::from("(λx.x x)(λx.f (x x))");
    let parsed_expr = parse_lambda_expression(&expr);
    assert_eq!(
        parsed_expr,
        Ok((
            "",
            app(
                abs('x', app(var('x'), var('x'))),
                abs('x', app(var('f'), app(var('x'), var('x'))))
            )
        ))
    );
}

#[test]
fn test_parse_lambda_expression_y() {
    let expr = String::from("λf.(λx.x x)(λx.f (x x))");
    let parsed_expr = parse_lambda_expression(&expr);
    assert_eq!(
        parsed_expr,
        Ok((
            "",
            abs(
                'f',
                app(
                    abs('x', app(var('x'), var('x'))),
                    abs('x', app(var('f'), app(var('x'), var('x'))))
                )
            )
        ))
    );
}

#[test]
fn test_parse_lambda_expression_church_numeral_4() {
    let expr = String::from("λf.λx.f(f(f(f x)))");
    let parsed_expr = parse_lambda_expression(&expr);
    assert_eq!(
        parsed_expr,
        Ok((
            "",
            abs(
                'f',
                abs(
                    'x',
                    app(
                        var('f'),
                        app(var('f'), app(var('f'), app(var('f'), var('x'))))
                    )
                )
            )
        ))
    );
}

#[test]
fn test_parse_lambda_expression_left_associative() {
    let expr = String::from("a b c");
    let parsed_expr = parse_lambda_expression(&expr);
    assert_eq!(parsed_expr, Ok(("", app(app(var('a'), var('b')), var('c')))));
}

#[test]
fn test_parse_lambda_expression_pred() {
    let expr = String::from("λn.λf.λx.n(λg.λh.h(g f))(λu.x)(λu.u)");
    let parsed_expr = parse_lambda_expression(&expr);
    assert_eq!(
        parsed_expr,
        Ok((
            "",
            abs(
                'n',
                abs(
                    'f',
                    abs(
                        'x',
                        app(
                            app(
                                app(
                                    var('n'),
                                    abs('g', abs('h', app(var('h'), app(var('g'), var('f')))))
                                ),
                                abs('u', var('x'))
                            ),
                            abs('u', var('u'))
                        )
                    )
                )
            )
        ))
    );
}

#[test]
fn test_parse_lambda_expression_function_application() {
    let expr = String::from("f(f x)");
    let parsed_expr = parse_lambda_expression(&expr);
    assert_eq!(parsed_expr, Ok(("", app(var('f'), app(var('f'), var('x'))))));
}

#[test]
fn single_letters_are_variables() {
    for name in ['x', 'Z', 'é', 'ß', 'я', '京', 'µ'] {
        assert_eq!(parse(&name.to_string()), Ok(var(name)));
    }
}

#[test]
fn the_binder_names_no_variable() {
    assert_eq!(parse("λ"), fails(1, Reason::ExpectedVariable));
    assert_eq!(parse("λλ.x"), fails(1, Reason::ExpectedVariable));
    assert_eq!(parse("x λ"), fails(1, Reason::TrailingInput));
}

#[test]
fn identity() {
    assert_eq!(parse("λx.x"), Ok(abs('x', var('x'))));
}

#[test]
fn abstractions_nest_to_the_right() {
    assert_eq!(parse("λx.λy.x"), Ok(abs('x', abs('y', var('x')))));
}

#[test]
fn applications_associate_to_the_left() {
    assert_eq!(parse("a b c"), Ok(app(app(var('a'), var('b')), var('c'))));
    assert_eq!(
        parse("a b c d"),
        Ok(app(app(app(var('a'), var('b')), var('c')), var('d')))
    );
}

#[test]
fn parentheses_group() {
    let left = parse("(a b) c");
    let right = parse("a (b c)");
    let plain = parse("a b c");
    assert_eq!(left, Ok(app(app(var('a'), var('b')), var('c'))));
    assert_eq!(right, Ok(app(var('a'), app(var('b'), var('c')))));
    assert_eq!(left, plain);
    assert_ne!(right, plain);
}

#[test]
fn blanks_between_atoms_are_optional() {
    let expected = Ok(app(var('f'), app(var('x'), var('x'))));
    assert_eq!(parse("f(x x)"), expected);
    assert_eq!(parse("f (x x)"), expected);
    assert_eq!(parse("f \t (x\tx)"), expected);
    assert_eq!(parse("  f(x x)"), expected);
}

#[test]
fn adjacent_letters_are_two_atoms() {
    assert_eq!(parse("ab"), Ok(app(var('a'), var('b'))));
    assert_eq!(parse("abc"), Ok(app(app(var('a'), var('b')), var('c'))));
}

#[test]
fn blanks_at_the_end_are_trailing_input() {
    assert_eq!(parse("a b "), fails(1, Reason::TrailingInput));
    assert_eq!(parse("a "), fails(1, Reason::TrailingInput));
}

#[test]
fn the_empty_text_fails() {
    assert_eq!(parse(""), fails(0, Reason::UnexpectedEnd));
}

#[test]
fn an_open_group_fails() {
    assert_eq!(parse("(a"), fails(0, Reason::UnbalancedParentheses));
    assert_eq!(parse("("), fails(0, Reason::UnbalancedParentheses));
    assert_eq!(parse("a ((b) c"), fails(2, Reason::UnbalancedParentheses));
    assert_eq!(parse("a (b (c d)"), fails(2, Reason::UnbalancedParentheses));
}

#[test]
fn a_missing_dot_fails() {
    assert_eq!(parse("λx x"), fails(2, Reason::ExpectedToken(Symbol::Dot)));
    assert_eq!(parse("λx"), fails(2, Reason::UnexpectedEnd));
}

#[test]
fn a_missing_parameter_fails() {
    assert_eq!(parse("λ.x"), fails(1, Reason::ExpectedVariable));
    assert_eq!(parse("λ1.x"), fails(1, Reason::ExpectedVariable));
}

#[test]
fn a_missing_body_fails() {
    assert_eq!(parse("λx."), fails(3, Reason::UnexpectedEnd));
    assert_eq!(parse("λx.λy."), fails(6, Reason::UnexpectedEnd));
}

#[test]
fn what_is_no_letter_fails_at_once() {
    assert_eq!(parse("1"), fails(0, Reason::ExpectedToken(Symbol::Binder)));
    assert_eq!(parse("."), fails(0, Reason::ExpectedToken(Symbol::Binder)));
    assert_eq!(parse(")"), fails(0, Reason::ExpectedToken(Symbol::Binder)));
}

#[test]
fn a_single_group_is_no_expression() {
    assert_eq!(parse("(a)"), fails(3, Reason::ExpectedVariable));
    assert_eq!(parse("(a b)"), fails(5, Reason::ExpectedVariable));
    assert_eq!(parse("((a b)) c"), fails(6, Reason::ExpectedVariable));
}

#[test]
fn trailing_input_fails() {
    assert_eq!(parse("a)"), fails(1, Reason::TrailingInput));
    assert_eq!(parse("a.b"), fails(1, Reason::TrailingInput));
    assert_eq!(parse("λx.y)"), fails(4, Reason::TrailingInput));
    assert_eq!(parse("a (b c))"), fails(1, Reason::TrailingInput));
}

#[test]
fn failures_inside_an_atom_are_located_in_the_whole() {
    assert_eq!(parse("a (λx)"), fails(5, Reason::UnexpectedEnd));
    assert_eq!(parse("a (b c) (λx y)"), fails(11, Reason::ExpectedToken(Symbol::Dot)));
    assert_eq!(parse("a (b.)"), fails(4, Reason::TrailingInput));
    assert_eq!(parse("a ()"), fails(3, Reason::UnexpectedEnd));
    assert_eq!(parse("λx.a (1)"), fails(6, Reason::ExpectedToken(Symbol::Binder)));
}

#[test]
fn an_abstraction_as_operand_needs_parentheses() {
    assert_eq!(parse("a λx.x"), fails(1, Reason::TrailingInput));
    assert_eq!(parse("a (λx.x)"), Ok(app(var('a'), abs('x', var('x')))));
    assert_eq!(parse("(λx.x) a"), Ok(app(abs('x', var('x')), var('a'))));
}

#[test]
fn the_body_of_an_abstraction_reaches_to_the_end() {
    assert_eq!(parse("λx.x y"), Ok(abs('x', app(var('x'), var('y')))));
    assert_eq!(
        parse("(λx.x) y z"),
        Ok(app(app(abs('x', var('x')), var('y')), var('z')))
    );
}

#[test]
fn the_alternatives_leave_what_they_do_not_take() {
    assert_eq!(parse_lambda_expression("x)"), Ok((")", var('x'))));
    assert_eq!(parse_lambda_expression("λx.y)"), Ok((")", abs('x', var('y')))));
    assert_eq!(parse_lambda_variable("xy"), Ok(("y", var('x'))));
    assert_eq!(parse_string_variable("éa"), Ok(("a", 'é')));
    assert_eq!(parse_lambda_abstraction("λx.y z"), Ok(("", abs('x', app(var('y'), var('z'))))));
}

#[test]
fn the_alternatives_fail_each_in_its_way() {
    assert_eq!(
        parse_string_variable(""),
        Err(ParseError { offset: 0, reason: Reason::ExpectedVariable })
    );
    assert_eq!(
        parse_lambda_variable("(x)"),
        Err(ParseError { offset: 0, reason: Reason::ExpectedVariable })
    );
    assert_eq!(
        parse_lambda_abstraction("x"),
        Err(ParseError { offset: 0, reason: Reason::ExpectedToken(Symbol::Binder) })
    );
    assert_eq!(
        parse_lambda_abstraction(""),
        Err(ParseError { offset: 0, reason: Reason::UnexpectedEnd })
    );
    assert_eq!(
        parse_lambda_application("x"),
        Err(ParseError { offset: 1, reason: Reason::ExpectedVariable })
    );
    assert_eq!(
        parse_lambda_application(""),
        Err(ParseError { offset: 0, reason: Reason::ExpectedVariable })
    );
    assert_eq!(
        parse_lambda_application("x y."),
        Err(ParseError { offset: 3, reason: Reason::TrailingInput })
    );
    assert_eq!(
        parse_lambda_application("x (y"),
        Err(ParseError { offset: 2, reason: Reason::UnbalancedParentheses })
    );
}

#[test]
fn the_scanner_stops_at_the_closing_parenthesis_of_the_group() {
    assert_eq!(parse_string_balanced_expression("a)"), Ok((")", "a")));
    assert_eq!(parse_string_balanced_expression(")"), Ok((")", "")));
    assert_eq!(parse_string_balanced_expression("(a) (b)) c) d"), Ok((") c) d", "(a) (b)")));
    assert_eq!(parse_string_balanced_expression("((a)(b))c"), Ok(("", "((a)(b))c")));
    assert_eq!(parse_string_balanced_expression("λ京)é"), Ok((")é", "λ京")));
}

#[test]
fn the_scanner_fails_on_the_empty_text_and_on_an_open_parenthesis() {
    let unbalanced = Err(ParseError { offset: 0, reason: Reason::UnbalancedParentheses });
    assert_eq!(parse_string_balanced_expression(""), unbalanced);
    assert_eq!(parse_string_balanced_expression("("), unbalanced);
    assert_eq!(parse_string_balanced_expression("(a"), unbalanced);
    assert_eq!(parse_string_balanced_expression("a (b (c)"), unbalanced);
}

fn nested_groups(levels: usize) -> String {
    let mut text = String::new();
    for _ in 0..levels {
        text.push_str("a (");
    }
    text.push_str("a a");
    for _ in 0..levels {
        text.push(')');
    }
    text
}

#[test]
fn expressions_nest_up_to_the_limit() {
    let mut chain = String::new();
    for _ in 0..255 {
        chain.push_str("λx.");
    }
    chain.push('x');
    assert!(parse(&chain).is_ok());
    assert!(parse(&nested_groups(254)).is_ok());
}

#[test]
fn expressions_beyond_the_limit_fail() {
    let mut chain = String::new();
    for _ in 0..256 {
        chain.push_str("λx.");
    }
    chain.push('x');
    assert_eq!(parse(&chain), fails(3 * 256, Reason::TooDeep));
    assert_eq!(parse(&nested_groups(255)), fails(3 * 255, Reason::TooDeep));
    assert!(parse(&nested_groups(100_000)).is_err());
}

fn text_of(term: &Term) -> String {
    match term {
        Term::Variable(name) => name.to_string(),
        Term::Abstraction(parameter, body) => format!("λ{}.{}", parameter, text_of(body)),
        Term::Application(function, argument) => {
            format!("{} {}", operand_of(function), operand_of(argument))
        }
    }
}

fn operand_of(term: &Term) -> String {
    match term {
        Term::Variable(name) => name.to_string(),
        _ => format!("({})", text_of(term)),
    }
}

#[test]
fn a_term_written_out_parses_to_itself() {
    let terms = vec![
        var('x'),
        abs('x', var('x')),
        app(var('f'), var('x')),
        app(app(var('a'), var('b')), var('c')),
        app(var('a'), app(var('b'), var('c'))),
        abs('f', app(abs('x', app(var('x'), var('x'))), abs('x', app(var('f'), var('x'))))),
        app(abs('x', abs('y', var('x'))), abs('z', var('z'))),
        abs('é', app(var('é'), abs('京', var('京')))),
    ];
    for term in terms {
        assert_eq!(parse(&text_of(&term)), Ok(term));
    }
}

#[test]
fn a_run_of_operands_folds_to_the_left() {
    let identity = abs('x', var('x'));
    let pair = app(var('a'), var('b'));
    assert_eq!(
        parse("(λx.x) (a b) c d"),
        Ok(app(app(app(identity, pair), var('c')), var('d')))
    );
    let mut expected = var('a');
    let mut text = String::from("a");
    for _ in 0..1000 {
        text.push_str(" b");
        expected = app(expected, var('b'));
    }
    assert_eq!(parse(&text), Ok(expected));
}

#[test]
fn what_is_parsed_is_written_out_and_parsed_again() {
    for text in ["λf.(λx.x x)(λx.f (x x))", "λn.λf.λx.n(λg.λh.h(g f))(λu.x)(λu.u)", "ab(c d)e"] {
        let term = parse(text).unwrap();
        assert_eq!(parse(&text_of(&term)), Ok(term));
    }
}
