//! Whole-pipeline behaviour: parsing and scoped constant evaluation.

use letscope::const_eval::{ConstEvaluator, ConstValue, EvalError, Scope};
use letscope::lexer::TokenKind;
use letscope::parser::{Ast, ParseError, Parser};

fn parse(source: &[u8]) -> Result<Box<Ast>, ParseError> {
    let mut parser = Parser::new(source);
    parser.parse()
}

fn eval(source: &[u8]) -> Result<Vec<Scope>, EvalError> {
    let ast = parse(source).expect("the source should parse");
    ConstEvaluator::new().eval(&ast)
}

fn value_of(scope: &Scope, name: &[u8]) -> Option<i32> {
    match scope.get(&name.to_vec()) {
        Some(ConstValue::Number(n)) => Some(n),
        None => None,
    }
}

#[test]
fn precedence_tree_shape() {
    let ast = parse(b"let a = 2 + 3 * 4;").expect("should parse");
    let items = match *ast {
        Ast::Body(items) => items,
        _ => panic!("expected a body at the root"),
    };
    assert_eq!(items.len(), 1);
    let binding = match &*items[0] {
        Ast::Binding(b) => b,
        _ => panic!("expected a binding"),
    };
    assert_eq!(binding.identifier.lexeme, Some(b"a".to_vec()));
    let top = match &*binding.expr {
        Ast::Binary(b) => b,
        _ => panic!("expected a binary expression"),
    };
    assert_eq!(top.op.kind, TokenKind::Plus);
    match &*top.lhs {
        Ast::Literal(t) => assert_eq!(t.lexeme, Some(b"2".to_vec())),
        _ => panic!("expected the literal 2 on the left of +"),
    }
    let mul = match &*top.rhs {
        Ast::Binary(b) => b,
        _ => panic!("expected a * subtree on the right of +"),
    };
    assert_eq!(mul.op.kind, TokenKind::Star);
    match &*mul.lhs {
        Ast::Literal(t) => assert_eq!(t.lexeme, Some(b"3".to_vec())),
        _ => panic!("expected the literal 3"),
    }
    match &*mul.rhs {
        Ast::Literal(t) => assert_eq!(t.lexeme, Some(b"4".to_vec())),
        _ => panic!("expected the literal 4"),
    }
}

#[test]
fn precedence_value() {
    let scopes = eval(b"let a = 2 + 3 * 4;").expect("should evaluate");
    assert_eq!(scopes.len(), 1);
    assert_eq!(value_of(&scopes[0], b"a"), Some(14));
}

#[test]
fn left_associativity() {
    let scopes = eval(b"let a = 8 - 3 - 2;").expect("should evaluate");
    assert_eq!(value_of(&scopes[0], b"a"), Some(3));
}

#[test]
fn shadowing_and_nested_scope_visibility() {
    let source = b"
        let a = 2 * 4;
        { let b = a + 3 * 2; }
        let c = a + b;
        { let b = c / a; }
    ";
    let scopes = eval(source).expect("should evaluate");
    assert_eq!(scopes.len(), 3);

    assert_eq!(scopes[0].level(), 0);
    assert_eq!(value_of(&scopes[0], b"a"), Some(8));
    assert_eq!(value_of(&scopes[0], b"c"), Some(22));
    assert_eq!(value_of(&scopes[0], b"b"), None);

    assert_eq!(scopes[1].level(), 1);
    assert_eq!(value_of(&scopes[1], b"b"), Some(14));

    assert_eq!(scopes[2].level(), 1);
    assert_eq!(value_of(&scopes[2], b"b"), Some(2));
}

#[test]
fn division_by_zero_fails() {
    assert_eq!(eval(b"let a = 1 / 0;").unwrap_err(), EvalError::DivisionByZero);
}

#[test]
fn unresolved_identifier_fails() {
    assert_eq!(eval(b"let a = x + 1;").unwrap_err(), EvalError::UnresolvedIdentifier);
}

#[test]
fn empty_program_gives_no_scopes() {
    let ast = parse(b"").expect("an empty program parses");
    assert!(matches!(*ast, Ast::NoOp));
    let scopes = ConstEvaluator::new().eval(&ast).expect("and evaluates");
    assert_eq!(scopes.len(), 0);
}

#[test]
fn whitespace_only_program_gives_no_scopes() {
    let scopes = eval(b" \t\n ").expect("should evaluate");
    assert_eq!(scopes.len(), 0);
}

#[test]
fn unterminated_block_is_a_syntax_error() {
    assert_eq!(parse(b"{ let a = 1; ").unwrap_err(), ParseError::MissingBlockEnd);
}

#[test]
fn inner_scope_sees_outer_binding() {
    let scopes = eval(b"let a = 1; { let b = a + 1; }").expect("should evaluate");
    assert_eq!(scopes.len(), 2);
    assert_eq!(value_of(&scopes[1], b"b"), Some(2));
}

#[test]
fn inner_shadow_reads_outer_value() {
    let scopes = eval(b"let a = 1; { let a = a + 1; }").expect("should evaluate");
    assert_eq!(value_of(&scopes[0], b"a"), Some(1));
    assert_eq!(value_of(&scopes[1], b"a"), Some(2));
}

#[test]
fn rebinding_in_one_scope_overwrites() {
    let scopes = eval(b"let a = 1; let a = 2;").expect("should evaluate");
    assert_eq!(value_of(&scopes[0], b"a"), Some(2));
    assert_eq!(scopes[0].entries().len(), 1);
}

#[test]
fn deeply_nested_blocks() {
    let scopes = eval(b"{ { let x = 1; } }").expect("should evaluate");
    assert_eq!(scopes.len(), 3);
    assert_eq!(scopes[0].level(), 0);
    assert_eq!(scopes[1].level(), 1);
    assert_eq!(scopes[2].level(), 2);
    assert_eq!(value_of(&scopes[2], b"x"), Some(1));
}
