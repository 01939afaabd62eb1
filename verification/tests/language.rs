//! Lexing, parsing and rendering behaviour on concrete inputs.
use vac::expr::Expr;
use vac::lexer::lex;
use vac::number::Number;
use vac::parser::parse;
use vac::token::Token;
use vac::token::token_eq;

fn parsed(input: &str) -> Expr {
    parse(lex(input.to_string()).expect("lexes")).expect("parses")
}

#[test]
fn lex_simple_tokens() {
    let ts = lex("( ) { } , + - * / ^ ! % | ... ~".to_string()).expect("lexes");
    let expected = vec![
        Token::EvalIn,
        Token::EvalOut,
        Token::SetIn,
        Token::SetOut,
        Token::Seperator,
        Token::Add,
        Token::Sub,
        Token::Mult,
        Token::Div,
        Token::Power,
        Token::Fraction,
        Token::Percent,
        Token::Pipe,
        Token::Continue,
        Token::Not,
    ];
    assert_eq!(ts.len(), expected.len());
    for (a, b) in ts.iter().zip(expected.iter()) {
        assert!(token_eq(a, b));
    }
}

#[test]
fn lex_two_character_operators() {
    let ts = lex("<- -> <= >= < > =".to_string()).expect("lexes");
    let expected = vec![
        Token::Store,
        Token::Into,
        Token::LessEqual,
        Token::GreaterEqual,
        Token::Less,
        Token::Greater,
        Token::Equal,
    ];
    assert_eq!(ts.len(), expected.len());
    for (a, b) in ts.iter().zip(expected.iter()) {
        assert!(token_eq(a, b));
    }
}

#[test]
fn lex_numbers_and_identifiers() {
    let ts = lex("x1 42 1.25 .5".to_string()).expect("lexes");
    assert!(token_eq(&ts[0], &Token::ID("x1".to_string())));
    assert!(token_eq(&ts[1], &Token::Int(42)));
    assert!(token_eq(&ts[2], &Token::Float(Number::Fin { num: 125, den: 100 })));
    assert!(token_eq(&ts[3], &Token::Float(Number::Fin { num: 5, den: 10 })));
}

#[test]
fn lex_rejects_unknown_character() {
    assert!(lex("1 + $".to_string()).is_err());
}

#[test]
fn lex_rejects_oversized_integer() {
    assert!(lex("9223372036854775808".to_string()).is_err());
    assert!(lex("9223372036854775807".to_string()).is_ok());
}

#[test]
fn parse_left_fold_subtraction() {
    // `1 - 2 - 3` parses as `((1 - 2) - 3)`.
    assert_eq!(parsed("1 - 2 - 3").text(), "((1 - 2) - 3)");
}

#[test]
fn parse_precedence_shape() {
    assert_eq!(parsed("2 + 3 * 4 ^ 2").text(), "(2 + (3 * (4 ^ 2)))");
}

#[test]
fn parse_grouping_is_not_a_vector() {
    // `(5)` is the bare literal five.
    match parsed("(5)") {
        Expr::Int(5) => {},
        other => panic!("expected a bare integer, got {}", other.text()),
    }
}

#[test]
fn parse_one_element_vector() {
    match parsed("(5,)") {
        Expr::Vector(es) => assert_eq!(es.len(), 1),
        other => panic!("expected a vector, got {}", other.text()),
    }
}

#[test]
fn parse_two_element_vector() {
    match parsed("(5, 6)") {
        Expr::Vector(es) => assert_eq!(es.len(), 2),
        other => panic!("expected a vector, got {}", other.text()),
    }
}

#[test]
fn parse_set_literal_always_container() {
    match parsed("{5}") {
        Expr::SetLit(es) => assert_eq!(es.len(), 1),
        other => panic!("expected a set literal, got {}", other.text()),
    }
}

#[test]
fn parse_absolute_value() {
    assert_eq!(parsed("|x|").text(), "| x |");
}

#[test]
fn parse_prefix_sign_binds_looser_than_postfix() {
    // `-x%` parses as `-(x%)`.
    assert_eq!(parsed("-x%").text(), "(- (x %))");
}

#[test]
fn parse_errors() {
    let toks = |s: &str| lex(s.to_string()).expect("lexes");
    assert!(parse(toks(")")).is_err());
    assert!(parse(toks("1 +")).is_err());
    assert!(parse(toks("(1, 2")).is_err());
    assert!(parse(toks("|x")).is_err());
    assert!(parse(toks("1 2")).is_err());
    assert!(parse(toks("")).is_err());
}

#[test]
fn expr_count_and_name() {
    let e = parsed("1 + 2");
    assert_eq!(e.count(), 3);
    assert_eq!(e.name(), "binary operation");
    assert_eq!(parsed("x").name(), "identifier");
    assert_eq!(parsed("(1, 2)").count(), 3);
}

#[test]
fn token_text_round() {
    assert_eq!(Token::LessEqual.text(), "<=");
    assert_eq!(Token::Int(-3).text(), "-3");
    assert_eq!(Token::Float(Number::Fin { num: 125, den: 100 }).text(), "125/100");
    assert_eq!(Token::ID("abc".to_string()).text(), "abc");
}

#[test]
fn parse_error_messages() {
    let toks = |s: &str| lex(s.to_string()).expect("lexes");
    match parse(toks("1 2")) {
        Err(e) => assert_eq!(e.message(), "cannot handle '2' at the end of input"),
        Ok(_) => panic!("expected a trailing-token error"),
    }
    match parse(toks("(1, 2")) {
        Err(e) => assert_eq!(e.message(), "unexpected end, expected token ')'"),
        Ok(_) => panic!("expected an unexpected-end error"),
    }
}
