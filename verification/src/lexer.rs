//! Tokenizer: turns source bytes into a stream of tokens.
//!
//! The spec function [`lex_next`] is the mathematical model: given the source
//! and a cursor, it says which token starts at or after the cursor and where
//! the cursor lands after it. [`Lexer::next`] is proved to return exactly
//! that token and to move the cursor exactly there. [`lex_all`] iterates the
//! model to the whole token sequence of a source text.

use vstd::prelude::*;

verus! {

/// The closed set of token kinds. `Number` and `Identifier` tokens carry a
/// lexeme; the fixed-spelling kinds carry none. `Error` marks a byte that
/// cannot start any token, which keeps a lexical error distinct from genuine
/// end of input (`Eof`).
#[derive(Clone, Copy, Debug, PartialEq, Eq, Structural)]
pub enum TokenKind {
    Plus,
    Minus,
    Star,
    Slash,
    Equal,
    LCurly,
    RCurly,
    Semicolon,
    Number,
    Let,
    Identifier,
    Error,
    Eof,
}

/// One lexical token: a kind and, for numbers and identifiers, the bytes of
/// its spelling.
#[derive(Debug, PartialEq, Eq)]
pub struct Token {
    pub kind: TokenKind,
    pub lexeme: Option<Vec<u8>>,
}

/// Mathematical image of a [`Token`]: the lexeme as a byte sequence.
pub struct SpecToken {
    pub kind: TokenKind,
    pub lexeme: Option<Seq<u8>>,
}

impl View for Token {
    type V = SpecToken;

    open spec fn view(&self) -> SpecToken {
        SpecToken {
            kind: self.kind,
            lexeme: match self.lexeme {
                Some(l) => Some(l@),
                None => None,
            },
        }
    }
}

impl Token {
    fn char(kind: TokenKind) -> (t: Token)
        ensures
            t@ == (SpecToken { kind, lexeme: None }),
    {
        Token { kind, lexeme: None }
    }

    fn keyword(kind: TokenKind) -> (t: Token)
        ensures
            t@ == (SpecToken { kind, lexeme: None }),
    {
        Token { kind, lexeme: None }
    }

    fn identifier(lexeme: Vec<u8>) -> (t: Token)
        ensures
            t@ == (SpecToken { kind: TokenKind::Identifier, lexeme: Some(lexeme@) }),
    {
        Token { kind: TokenKind::Identifier, lexeme: Some(lexeme) }
    }

    fn number(lexeme: Vec<u8>) -> (t: Token)
        ensures
            t@ == (SpecToken { kind: TokenKind::Number, lexeme: Some(lexeme@) }),
    {
        Token { kind: TokenKind::Number, lexeme: Some(lexeme) }
    }
}

/// Whitespace: space, tab, newline.
pub open spec fn is_ws(b: u8) -> bool {
    b == 32u8 || b == 9u8 || b == 10u8
}

/// Decimal digit.
pub open spec fn is_digit(b: u8) -> bool {
    48u8 <= b && b <= 57u8
}

/// A byte that may start an identifier: a letter or an underscore.
pub open spec fn is_alpha(b: u8) -> bool {
    (97u8 <= b && b <= 122u8) || (65u8 <= b && b <= 90u8) || b == 95u8
}

/// A byte that may continue an identifier.
pub open spec fn is_ident_cont(b: u8) -> bool {
    is_alpha(b) || is_digit(b)
}

/// The kind of a single-byte token, if the byte spells one.
pub open spec fn single_kind(b: u8) -> Option<TokenKind> {
    if b == 43u8 {
        Some(TokenKind::Plus)
    } else if b == 45u8 {
        Some(TokenKind::Minus)
    } else if b == 42u8 {
        Some(TokenKind::Star)
    } else if b == 47u8 {
        Some(TokenKind::Slash)
    } else if b == 61u8 {
        Some(TokenKind::Equal)
    } else if b == 123u8 {
        Some(TokenKind::LCurly)
    } else if b == 125u8 {
        Some(TokenKind::RCurly)
    } else if b == 59u8 {
        Some(TokenKind::Semicolon)
    } else {
        None
    }
}

/// First position at or after `i` that does not hold whitespace.
pub open spec fn skip_ws(s: Seq<u8>, i: int) -> int
    decreases s.len() - i,
{
    if 0 <= i && i < s.len() && is_ws(s[i]) {
        skip_ws(s, i + 1)
    } else {
        i
    }
}

/// End of the maximal identifier run starting at `i`.
pub open spec fn ident_end(s: Seq<u8>, i: int) -> int
    decreases s.len() - i,
{
    if 0 <= i && i < s.len() && is_ident_cont(s[i]) {
        ident_end(s, i + 1)
    } else {
        i
    }
}

/// End of the maximal digit run starting at `i`.
pub open spec fn num_end(s: Seq<u8>, i: int) -> int
    decreases s.len() - i,
{
    if 0 <= i && i < s.len() && is_digit(s[i]) {
        num_end(s, i + 1)
    } else {
        i
    }
}

/// The spelling of the `let` keyword.
pub open spec fn let_spelling() -> Seq<u8> {
    seq![108u8, 101u8, 116u8]
}

/// The model of the tokenizer: the token starting at or after cursor `i`,
/// and the cursor position just past it. At the end of the text the token is
/// `Eof`; at a byte that can start no token it is `Error` and the cursor
/// stays on that byte.
pub open spec fn lex_next(s: Seq<u8>, i: int) -> (SpecToken, int) {
    let j = skip_ws(s, i);
    if !(0 <= j && j < s.len()) {
        (SpecToken { kind: TokenKind::Eof, lexeme: None }, j)
    } else {
        match single_kind(s[j]) {
            Some(k) => (SpecToken { kind: k, lexeme: None }, j + 1),
            None => {
                if is_alpha(s[j]) {
                    let e = ident_end(s, j);
                    let lx = s.subrange(j, e);
                    if lx == let_spelling() {
                        (SpecToken { kind: TokenKind::Let, lexeme: None }, e)
                    } else {
                        (SpecToken { kind: TokenKind::Identifier, lexeme: Some(lx) }, e)
                    }
                } else if is_digit(s[j]) {
                    let e = num_end(s, j);
                    (SpecToken { kind: TokenKind::Number, lexeme: Some(s.subrange(j, e)) }, e)
                } else {
                    (SpecToken { kind: TokenKind::Error, lexeme: None }, j)
                }
            },
        }
    }
}

/// The whole token sequence of a source text from cursor `i` on, ending with
/// the `Eof` or `Error` token at which lexing stops.
pub open spec fn lex_all(s: Seq<u8>, i: int) -> Seq<SpecToken>
    decreases s.len() - i + 1,
{
    let (t, j) = lex_next(s, i);
    if t.kind == TokenKind::Eof || t.kind == TokenKind::Error {
        seq![t]
    } else if i < j && j <= s.len() {
        seq![t] + lex_all(s, j)
    } else {
        // unreachable: a real token always advances the cursor
        seq![t]
    }
}

/// Skipping whitespace never moves the cursor backwards, and never past the
/// end of the text when it starts inside it.
pub proof fn lemma_skip_ws_bounds(s: Seq<u8>, i: int)
    ensures
        i <= skip_ws(s, i),
        i <= s.len() ==> skip_ws(s, i) <= s.len(),
    decreases s.len() - i,
{
    if 0 <= i && i < s.len() && is_ws(s[i]) {
        lemma_skip_ws_bounds(s, i + 1);
    }
}

/// A run of identifier characters extends to the end of the text.
proof fn lemma_ident_end_all(s: Seq<u8>, i: int)
    requires
        0 <= i <= s.len(),
        forall|j: int| i <= j < s.len() ==> is_ident_cont(s[j]),
    ensures
        ident_end(s, i) == s.len(),
    decreases s.len() - i,
{
    if i < s.len() {
        lemma_ident_end_all(s, i + 1);
    }
}

/// A run of digits extends to the end of the text.
proof fn lemma_num_end_all(s: Seq<u8>, i: int)
    requires
        0 <= i <= s.len(),
        forall|j: int| i <= j < s.len() ==> is_digit(s[j]),
    ensures
        num_end(s, i) == s.len(),
    decreases s.len() - i,
{
    if i < s.len() {
        lemma_num_end_all(s, i + 1);
    }
}

/// The token kinds with a fixed spelling.
pub open spec fn is_fixed_kind(k: TokenKind) -> bool {
    k == TokenKind::Plus || k == TokenKind::Minus || k == TokenKind::Star || k == TokenKind::Slash
        || k == TokenKind::Equal || k == TokenKind::LCurly || k == TokenKind::RCurly || k
        == TokenKind::Semicolon || k == TokenKind::Let
}

/// The spelling of each fixed token kind.
pub open spec fn spelling_of(k: TokenKind) -> Seq<u8> {
    match k {
        TokenKind::Plus => seq![43u8],
        TokenKind::Minus => seq![45u8],
        TokenKind::Star => seq![42u8],
        TokenKind::Slash => seq![47u8],
        TokenKind::Equal => seq![61u8],
        TokenKind::LCurly => seq![123u8],
        TokenKind::RCurly => seq![125u8],
        TokenKind::Semicolon => seq![59u8],
        TokenKind::Let => let_spelling(),
        _ => Seq::empty(),
    }
}

/// Round trip for fixed-spelling tokens: tokenizing the exact spelling of
/// any fixed token kind yields a single token of that kind, with no lexeme,
/// consuming the whole text; the rest of the text tokenizes to end-of-input.
pub proof fn lemma_tokenize_fixed(k: TokenKind)
    requires
        is_fixed_kind(k),
    ensures
        lex_next(spelling_of(k), 0) == (
            SpecToken { kind: k, lexeme: None },
            spelling_of(k).len() as int,
        ),
        lex_next(spelling_of(k), spelling_of(k).len() as int).0.kind == TokenKind::Eof,
{
    let s = spelling_of(k);
    reveal_with_fuel(ident_end, 5);
    if k == TokenKind::Let {
        assert(s.subrange(0, 3) =~= let_spelling());
    }
}

/// Round trip for identifiers: tokenizing the exact text of any identifier
/// spelling other than `let` yields a single Identifier token whose lexeme
/// is that text, consuming the whole text; the rest tokenizes to
/// end-of-input.
pub proof fn lemma_tokenize_identifier(s: Seq<u8>)
    requires
        s.len() > 0,
        is_alpha(s[0]),
        forall|j: int| 0 <= j < s.len() ==> is_ident_cont(s[j]),
        s != let_spelling(),
    ensures
        lex_next(s, 0) == (
            SpecToken { kind: TokenKind::Identifier, lexeme: Some(s) },
            s.len() as int,
        ),
        lex_next(s, s.len() as int).0.kind == TokenKind::Eof,
{
    lemma_ident_end_all(s, 0);
    assert(s.subrange(0, s.len() as int) =~= s);
}

/// Round trip for numbers: tokenizing the exact text of any digit run
/// yields a single Number token whose lexeme is that text, consuming the
/// whole text; the rest tokenizes to end-of-input.
pub proof fn lemma_tokenize_number(s: Seq<u8>)
    requires
        s.len() > 0,
        forall|j: int| 0 <= j < s.len() ==> is_digit(s[j]),
    ensures
        lex_next(s, 0) == (SpecToken { kind: TokenKind::Number, lexeme: Some(s) }, s.len() as int),
        lex_next(s, s.len() as int).0.kind == TokenKind::Eof,
{
    lemma_num_end_all(s, 0);
    assert(s.subrange(0, s.len() as int) =~= s);
}

/// Copies a byte slice into a fresh vector.
pub(crate) fn copy_bytes(src: &[u8], from: usize, to: usize) -> (r: Vec<u8>)
    requires
        from <= to <= src@.len(),
    ensures
        r@ == src@.subrange(from as int, to as int),
{
    let mut r: Vec<u8> = Vec::new();
    let mut k = from;
    while k < to
        invariant
            from <= k <= to <= src@.len(),
            r@ == src@.subrange(from as int, k as int),
        decreases to - k,
    {
        r.push(src[k]);
        k = k + 1;
        proof {
            assert(src@.subrange(from as int, k as int) =~= src@.subrange(
                from as int,
                k - 1,
            ).push(src@[k - 1]));
        }
    }
    r
}

/// Cursor-driven tokenizer over a source text.
pub struct Lexer {
    source: Vec<u8>,
    ip: usize,
}

impl Lexer {
    /// The cursor never runs past the end of the source.
    pub closed spec fn wf(&self) -> bool {
        self.ip <= self.source@.len()
    }

    /// The source bytes.
    pub closed spec fn src(&self) -> Seq<u8> {
        self.source@
    }

    /// The cursor position.
    pub closed spec fn pos(&self) -> int {
        self.ip as int
    }

    pub fn new(source: &[u8]) -> (lx: Lexer)
        ensures
            lx.wf(),
            lx.src() == source@,
            lx.pos() == 0,
    {
        let v = copy_bytes(source, 0, source.len());
        proof {
            assert(source@.subrange(0, source@.len() as int) =~= source@);
        }
        Lexer { source: v, ip: 0 }
    }

    fn at_end(&self) -> (r: bool)
        ensures
            r == (self.pos() >= self.src().len()),
    {
        self.ip >= self.source.len()
    }

    fn advance(&mut self)
        requires
            old(self).pos() < old(self).src().len(),
        ensures
            final(self).src() == old(self).src(),
            final(self).pos() == old(self).pos() + 1,
            final(self).wf(),
    {
        proof {
            vstd::std_specs::vec::axiom_spec_len(&self.source);
        }
        self.ip = self.ip + 1;
    }

    fn peek(&self) -> (b: u8)
        requires
            self.wf(),
        ensures
            b == (if self.pos() < self.src().len() {
                self.src()[self.pos()]
            } else {
                0u8
            }),
    {
        if self.at_end() {
            return 0;
        }
        self.source[self.ip]
    }

    fn skip_whitespace(&mut self)
        requires
            old(self).wf(),
        ensures
            final(self).wf(),
            final(self).src() == old(self).src(),
            final(self).pos() == skip_ws(old(self).src(), old(self).pos()),
    {
        while self.ip < self.source.len() && (self.source[self.ip] == 32u8 || self.source[self.ip]
            == 9u8 || self.source[self.ip] == 10u8)
            invariant
                self.wf(),
                self.src() == old(self).src(),
                skip_ws(self.src(), self.pos()) == skip_ws(old(self).src(), old(self).pos()),
            decreases self.source@.len() - self.ip,
        {
            self.advance();
        }
    }

    fn char(&mut self, kind: TokenKind) -> (t: Token)
        requires
            old(self).wf(),
            old(self).pos() < old(self).src().len(),
        ensures
            final(self).wf(),
            final(self).src() == old(self).src(),
            final(self).pos() == old(self).pos() + 1,
            t@ == (SpecToken { kind, lexeme: None }),
    {
        self.advance();
        Token::char(kind)
    }

    fn identifier(&mut self) -> (t: Token)
        requires
            old(self).wf(),
            old(self).pos() < old(self).src().len(),
            is_alpha(old(self).src()[old(self).pos()]),
        ensures
            final(self).wf(),
            final(self).src() == old(self).src(),
            final(self).pos() == ident_end(old(self).src(), old(self).pos()),
            final(self).pos() > old(self).pos(),
            t@ == (if old(self).src().subrange(
                old(self).pos(),
                ident_end(old(self).src(), old(self).pos()),
            ) == let_spelling() {
                SpecToken { kind: TokenKind::Let, lexeme: None }
            } else {
                SpecToken {
                    kind: TokenKind::Identifier,
                    lexeme: Some(
                        old(self).src().subrange(
                            old(self).pos(),
                            ident_end(old(self).src(), old(self).pos()),
                        ),
                    ),
                }
            }),
    {
        let start = self.ip;
        self.advance();
        while self.ip < self.source.len() && ((self.source[self.ip] >= 97u8 && self.source[self.ip]
            <= 122u8) || (self.source[self.ip] >= 65u8 && self.source[self.ip] <= 90u8)
            || self.source[self.ip] == 95u8 || (self.source[self.ip] >= 48u8
            && self.source[self.ip] <= 57u8))
            invariant
                self.wf(),
                self.src() == old(self).src(),
                start < self.ip,
                ident_end(self.src(), self.pos()) == ident_end(old(self).src(), start as int),
            decreases self.source@.len() - self.ip,
        {
            self.advance();
        }
        let lex = copy_bytes(self.source.as_slice(), start, self.ip);
        if lex.len() == 3 && lex[0] == 108u8 && lex[1] == 101u8 && lex[2] == 116u8 {
            proof {
                assert(lex@ =~= let_spelling());
            }
            Token::keyword(TokenKind::Let)
        } else {
            proof {
                if lex@ == let_spelling() {
                    assert(lex@.len() == 3);
                    assert(lex@[0] == 108u8 && lex@[1] == 101u8 && lex@[2] == 116u8);
                }
            }
            Token::identifier(lex)
        }
    }

    fn number(&mut self) -> (t: Token)
        requires
            old(self).wf(),
            old(self).pos() < old(self).src().len(),
            is_digit(old(self).src()[old(self).pos()]),
        ensures
            final(self).wf(),
            final(self).src() == old(self).src(),
            final(self).pos() == num_end(old(self).src(), old(self).pos()),
            final(self).pos() > old(self).pos(),
            t@ == (SpecToken {
                kind: TokenKind::Number,
                lexeme: Some(
                    old(self).src().subrange(
                        old(self).pos(),
                        num_end(old(self).src(), old(self).pos()),
                    ),
                ),
            }),
    {
        let start = self.ip;
        self.advance();
        while self.ip < self.source.len() && self.source[self.ip] >= 48u8 && self.source[self.ip]
            <= 57u8
            invariant
                self.wf(),
                self.src() == old(self).src(),
                start < self.ip,
                num_end(self.src(), self.pos()) == num_end(old(self).src(), start as int),
            decreases self.source@.len() - self.ip,
        {
            self.advance();
        }
        let lex = copy_bytes(self.source.as_slice(), start, self.ip);
        Token::number(lex)
    }

    /// Returns the next token and advances the cursor past it, exactly as
    /// the model [`lex_next`] describes: `Eof` at the end of the text,
    /// `Error` on a byte that can start no token.
    pub fn next(&mut self) -> (t: Token)
        requires
            old(self).wf(),
        ensures
            final(self).wf(),
            final(self).src() == old(self).src(),
            (t@, final(self).pos()) == lex_next(old(self).src(), old(self).pos()),
            t@.kind != TokenKind::Eof && t@.kind != TokenKind::Error ==> old(self).pos()
                < final(self).pos(),
            final(self).pos() <= old(self).src().len(),
    {
        proof {
            lemma_skip_ws_bounds(old(self).src(), old(self).pos());
        }
        self.skip_whitespace();
        if self.at_end() {
            return Token::char(TokenKind::Eof);
        }
        let b = self.peek();
        if b == 43u8 {
            self.char(TokenKind::Plus)
        } else if b == 45u8 {
            self.char(TokenKind::Minus)
        } else if b == 42u8 {
            self.char(TokenKind::Star)
        } else if b == 47u8 {
            self.char(TokenKind::Slash)
        } else if b == 61u8 {
            self.char(TokenKind::Equal)
        } else if b == 123u8 {
            self.char(TokenKind::LCurly)
        } else if b == 125u8 {
            self.char(TokenKind::RCurly)
        } else if b == 59u8 {
            self.char(TokenKind::Semicolon)
        } else if (b >= 97u8 && b <= 122u8) || (b >= 65u8 && b <= 90u8) || b == 95u8 {
            self.identifier()
        } else if b >= 48u8 && b <= 57u8 {
            self.number()
        } else {
            Token::char(TokenKind::Error)
        }
    }
}

} // verus!
