//! Tokenizer behaviour through the public lexer interface.

use letscope::lexer::{Lexer, TokenKind};

fn kinds_of(source: &[u8]) -> Vec<TokenKind> {
    let mut lexer = Lexer::new(source);
    let mut kinds = Vec::new();
    loop {
        let t = lexer.next();
        let k = t.kind;
        kinds.push(k);
        if k == TokenKind::Eof || k == TokenKind::Error {
            return kinds;
        }
    }
}

#[test]
fn fixed_spellings_round_trip() {
    let cases: Vec<(&[u8], TokenKind)> = vec![
        (b"+", TokenKind::Plus),
        (b"-", TokenKind::Minus),
        (b"*", TokenKind::Star),
        (b"/", TokenKind::Slash),
        (b"=", TokenKind::Equal),
        (b"{", TokenKind::LCurly),
        (b"}", TokenKind::RCurly),
        (b";", TokenKind::Semicolon),
        (b"let", TokenKind::Let),
    ];
    for (text, kind) in cases {
        let mut lexer = Lexer::new(text);
        let t = lexer.next();
        assert_eq!(t.kind, kind);
        assert_eq!(t.lexeme, None);
        assert_eq!(lexer.next().kind, TokenKind::Eof);
    }
}

#[test]
fn identifier_round_trip() {
    let mut lexer = Lexer::new(b"foo_1");
    let t = lexer.next();
    assert_eq!(t.kind, TokenKind::Identifier);
    assert_eq!(t.lexeme, Some(b"foo_1".to_vec()));
    assert_eq!(lexer.next().kind, TokenKind::Eof);
}

#[test]
fn number_round_trip() {
    let mut lexer = Lexer::new(b"12345");
    let t = lexer.next();
    assert_eq!(t.kind, TokenKind::Number);
    assert_eq!(t.lexeme, Some(b"12345".to_vec()));
    assert_eq!(lexer.next().kind, TokenKind::Eof);
}

#[test]
fn keyword_needs_exact_spelling() {
    let mut lexer = Lexer::new(b"letx");
    let t = lexer.next();
    assert_eq!(t.kind, TokenKind::Identifier);
    assert_eq!(t.lexeme, Some(b"letx".to_vec()));
}

#[test]
fn number_then_identifier() {
    let mut lexer = Lexer::new(b"12ab");
    let t = lexer.next();
    assert_eq!(t.kind, TokenKind::Number);
    assert_eq!(t.lexeme, Some(b"12".to_vec()));
    let t2 = lexer.next();
    assert_eq!(t2.kind, TokenKind::Identifier);
    assert_eq!(t2.lexeme, Some(b"ab".to_vec()));
}

#[test]
fn whitespace_is_skipped() {
    let mut lexer = Lexer::new(b" \t\n  let \n a ");
    assert_eq!(lexer.next().kind, TokenKind::Let);
    let t = lexer.next();
    assert_eq!(t.kind, TokenKind::Identifier);
    assert_eq!(t.lexeme, Some(b"a".to_vec()));
    assert_eq!(lexer.next().kind, TokenKind::Eof);
}

#[test]
fn empty_source_is_eof() {
    let mut lexer = Lexer::new(b"");
    assert_eq!(lexer.next().kind, TokenKind::Eof);
    assert_eq!(lexer.next().kind, TokenKind::Eof);
}

#[test]
fn unrecognized_byte_is_an_error_token() {
    let mut lexer = Lexer::new(b"$");
    assert_eq!(lexer.next().kind, TokenKind::Error);
}

#[test]
fn error_is_distinct_from_eof() {
    assert_eq!(kinds_of(b""), vec![TokenKind::Eof]);
    assert_eq!(kinds_of(b"#"), vec![TokenKind::Error]);
    assert_eq!(
        kinds_of(b"let a = 1;"),
        vec![
            TokenKind::Let,
            TokenKind::Identifier,
            TokenKind::Equal,
            TokenKind::Number,
            TokenKind::Semicolon,
            TokenKind::Eof,
        ]
    );
}
