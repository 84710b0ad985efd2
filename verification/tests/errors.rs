//! Error reporting: each failure kind, with an input that provokes it.

use letscope::const_eval::{ConstEvaluator, EvalError, Scope};
use letscope::lexer::TokenKind;
use letscope::parser::{Ast, ParseError, Parser};

fn parse(source: &[u8]) -> Result<Box<Ast>, ParseError> {
    let mut parser = Parser::new(source);
    parser.parse()
}

fn eval(source: &[u8]) -> Result<Vec<Scope>, EvalError> {
    let ast = parse(source).expect("the source should parse");
    ConstEvaluator::new().eval(&ast)
}

#[test]
fn missing_semicolon() {
    assert_eq!(parse(b"let a = 1").unwrap_err(), ParseError::MissingSemicolon);
}

#[test]
fn missing_identifier_after_let() {
    assert_eq!(parse(b"let = 1;").unwrap_err(), ParseError::ExpectedIdentifier);
}

#[test]
fn missing_equal_after_identifier() {
    assert_eq!(parse(b"let a 1;").unwrap_err(), ParseError::ExpectedEqual);
}

#[test]
fn token_that_cannot_start_a_declaration() {
    assert_eq!(
        parse(b"5;").unwrap_err(),
        ParseError::UnexpectedDeclaration(TokenKind::Number)
    );
    assert_eq!(
        parse(b"}").unwrap_err(),
        ParseError::UnexpectedDeclaration(TokenKind::RCurly)
    );
}

#[test]
fn token_that_cannot_start_a_primary() {
    assert_eq!(
        parse(b"let a = ;").unwrap_err(),
        ParseError::UnexpectedPrimary(TokenKind::Semicolon)
    );
    assert_eq!(
        parse(b"let a = let;").unwrap_err(),
        ParseError::UnexpectedPrimary(TokenKind::Let)
    );
}

#[test]
fn unrecognized_character_is_reported_as_such() {
    assert_eq!(parse(b"$").unwrap_err(), ParseError::UnrecognizedCharacter);
    assert_eq!(parse(b"let a = $;").unwrap_err(), ParseError::UnrecognizedCharacter);
    assert_eq!(parse(b"let a = 1 $").unwrap_err(), ParseError::UnrecognizedCharacter);
}

#[test]
fn addition_overflow() {
    assert_eq!(eval(b"let a = 2147483647 + 1;").unwrap_err(), EvalError::Overflow);
}

#[test]
fn subtraction_overflow() {
    assert_eq!(eval(b"let a = 0 - 2147483647 - 2;").unwrap_err(), EvalError::Overflow);
}

#[test]
fn multiplication_overflow() {
    assert_eq!(eval(b"let a = 65536 * 65536;").unwrap_err(), EvalError::Overflow);
    let scopes = eval(b"let a = 65536 * 32767;").expect("this product still fits");
    assert!(matches!(
        scopes[0].get(&b"a".to_vec()),
        Some(letscope::const_eval::ConstValue::Number(2147418112))
    ));
}

#[test]
fn division_overflow_at_the_edge() {
    assert_eq!(eval(b"let m = 0 - 2147483647 - 1; let n = 0 - 1; let o = m / n;").unwrap_err(), EvalError::Overflow);
}

#[test]
fn literal_too_large_is_malformed() {
    assert_eq!(eval(b"let a = 2147483648;").unwrap_err(), EvalError::MalformedLiteral);
    assert_eq!(eval(b"let a = 99999999999999999999;").unwrap_err(), EvalError::MalformedLiteral);
}

#[test]
fn division_truncates_towards_zero() {
    let scopes = eval(b"let a = 0 - 7; let b = a / 2; let c = 7 / 2;").expect("should evaluate");
    assert!(matches!(
        scopes[0].get(&b"b".to_vec()),
        Some(letscope::const_eval::ConstValue::Number(-3))
    ));
    assert!(matches!(
        scopes[0].get(&b"c".to_vec()),
        Some(letscope::const_eval::ConstValue::Number(3))
    ));
}

#[test]
fn division_by_negative_divisor() {
    let scopes = eval(b"let a = 7; let b = 0 - 2; let c = a / b;").expect("should evaluate");
    assert!(matches!(
        scopes[0].get(&b"c".to_vec()),
        Some(letscope::const_eval::ConstValue::Number(-3))
    ));
}

#[test]
fn largest_literal_still_fits() {
    let scopes = eval(b"let a = 2147483647;").expect("should evaluate");
    assert!(matches!(
        scopes[0].get(&b"a".to_vec()),
        Some(letscope::const_eval::ConstValue::Number(2147483647))
    ));
}

#[test]
fn leading_zeros_are_allowed() {
    let scopes = eval(b"let a = 0007;").expect("should evaluate");
    assert!(matches!(
        scopes[0].get(&b"a".to_vec()),
        Some(letscope::const_eval::ConstValue::Number(7))
    ));
}
