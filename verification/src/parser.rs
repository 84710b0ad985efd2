//! Parser: builds a syntax tree from the token stream by recursive descent.
//!
//! The grammar, with the usual arithmetic precedence (`*` and `/` bind
//! tighter than `+` and `-`, both tiers left-associative):
//!
//! ```text
//! program    := declaration_list(until end-of-input)
//! block      := '{' declaration_list(until '}') '}'
//! declaration:= let_decl | block
//! let_decl   := 'let' IDENTIFIER '=' expr ';'
//! expr       := term
//! term       := factor (('+' | '-') factor)*
//! factor     := primary (('*' | '/') primary)*
//! primary    := NUMBER | IDENTIFIER
//! ```
//!
//! The spec functions [`spec_parse`], [`spec_decl_list`], [`spec_term`],
//! [`spec_factor`] and [`spec_primary`] are the mathematical model of this
//! grammar over a token sequence; [`Parser::parse`] is proved to return
//! exactly the tree (or exactly the error) that the model gives. Every
//! failure is a [`ParseError`] value naming the construct that was being
//! parsed; nothing panics.

use crate::lexer::{lex_all, lex_next, Lexer, SpecToken, Token, TokenKind};
use vstd::prelude::*;

verus! {

/// A `let` declaration: the bound identifier's token and the bound
/// expression.
#[derive(Debug)]
pub struct Binding {
    pub identifier: Token,
    pub expr: Box<Ast>,
}

/// An arithmetic operation: the operator's token and the two operands.
#[derive(Debug)]
pub struct Binary {
    pub op: Token,
    pub lhs: Box<Ast>,
    pub rhs: Box<Ast>,
}

/// A node of the syntax tree. The tree is strictly hierarchical: every
/// non-leaf node exclusively owns its children.
#[derive(Debug)]
pub enum Ast {
    /// An empty program.
    NoOp,
    /// An integer literal; carries its token for the lexeme.
    Literal(Token),
    /// A name reference; carries its token for the lexeme.
    Identifier(Token),
    /// A `let` declaration.
    Binding(Binding),
    /// An arithmetic operation.
    Binary(Binary),
    /// A block of declarations: the whole program or a `{...}` block.
    Body(Vec<Box<Ast>>),
}

/// Mathematical image of an [`Ast`].
pub enum SpecAst {
    NoOp,
    Literal(SpecToken),
    Identifier(SpecToken),
    Binding { ident: SpecToken, expr: Box<SpecAst> },
    Binary { op: SpecToken, lhs: Box<SpecAst>, rhs: Box<SpecAst> },
    Body(Seq<SpecAst>),
}

/// The mathematical image of a syntax tree node.
pub open spec fn ast_view(a: Ast) -> SpecAst
    decreases a,
{
    match a {
        Ast::NoOp => SpecAst::NoOp,
        Ast::Literal(t) => SpecAst::Literal(t@),
        Ast::Identifier(t) => SpecAst::Identifier(t@),
        Ast::Binding(b) => SpecAst::Binding {
            ident: b.identifier@,
            expr: Box::new(ast_view(*b.expr)),
        },
        Ast::Binary(b) => SpecAst::Binary {
            op: b.op@,
            lhs: Box::new(ast_view(*b.lhs)),
            rhs: Box::new(ast_view(*b.rhs)),
        },
        Ast::Body(items) => SpecAst::Body(asts_view(items@)),
    }
}

/// The mathematical image of a sequence of sibling nodes.
pub open spec fn asts_view(items: Seq<Box<Ast>>) -> Seq<SpecAst>
    decreases items,
{
    if items.len() == 0 {
        Seq::empty()
    } else {
        asts_view(items.subrange(0, items.len() - 1)).push(ast_view(*items[items.len() - 1]))
    }
}

/// `asts_view` maps the sequence element by element.
pub proof fn lemma_asts_view(items: Seq<Box<Ast>>)
    ensures
        asts_view(items).len() == items.len(),
        forall|i: int| 0 <= i < items.len() ==> asts_view(items)[i] == ast_view(*items[i]),
    decreases items.len(),
{
    if items.len() > 0 {
        lemma_asts_view(items.subrange(0, items.len() - 1));
    }
}

impl View for Ast {
    type V = SpecAst;

    open spec fn view(&self) -> SpecAst {
        ast_view(*self)
    }
}

/// A grammar violation, naming the construct that was being parsed and what
/// was expected. The first such failure aborts the whole parse.
#[derive(Clone, Copy, Debug, PartialEq, Eq, Structural)]
pub enum ParseError {
    /// A byte that cannot start any token stood where a token was expected.
    UnrecognizedCharacter,
    /// A token that cannot start a declaration (carried here) stood where a
    /// `let` declaration or a block was expected.
    UnexpectedDeclaration(TokenKind),
    /// A `let` declaration was not terminated by `;`.
    MissingSemicolon,
    /// A block was not terminated by `}` before the input ended.
    MissingBlockEnd,
    /// `let` was not followed by an identifier.
    ExpectedIdentifier,
    /// The identifier of a `let` declaration was not followed by `=`.
    ExpectedEqual,
    /// A token that cannot start a primary expression (carried here) stood
    /// where a number or an identifier was expected.
    UnexpectedPrimary(TokenKind),
}

/// The kind of the token at `pos`, or `Eof` past the end of the stream.
pub open spec fn kind_at(toks: Seq<SpecToken>, pos: int) -> TokenKind {
    if 0 <= pos && pos < toks.len() {
        toks[pos].kind
    } else {
        TokenKind::Eof
    }
}

/// The cursor after consuming the token at `pos`; stays put past the end.
pub open spec fn advance_pos(toks: Seq<SpecToken>, pos: int) -> int {
    if 0 <= pos && pos < toks.len() {
        pos + 1
    } else {
        pos
    }
}

/// Model of `primary := NUMBER | IDENTIFIER`.
pub open spec fn spec_primary(toks: Seq<SpecToken>, pos: int) -> Result<(SpecAst, int), ParseError> {
    let k = kind_at(toks, pos);
    if k == TokenKind::Number {
        Ok((SpecAst::Literal(toks[pos]), pos + 1))
    } else if k == TokenKind::Identifier {
        Ok((SpecAst::Identifier(toks[pos]), pos + 1))
    } else if k == TokenKind::Error {
        Err(ParseError::UnrecognizedCharacter)
    } else {
        Err(ParseError::UnexpectedPrimary(k))
    }
}

/// Model of the `(('*' | '/') primary)*` tail of `factor`: folds each
/// further operator application into the left operand `acc`.
pub open spec fn spec_factor_rest(toks: Seq<SpecToken>, pos: int, acc: SpecAst) -> Result<
    (SpecAst, int),
    ParseError,
>
    decreases toks.len() - pos,
{
    let k = kind_at(toks, pos);
    if k == TokenKind::Star || k == TokenKind::Slash {
        match spec_primary(toks, pos + 1) {
            Ok(pr) => {
                if pos < pr.1 && pr.1 <= toks.len() {
                    spec_factor_rest(
                        toks,
                        pr.1,
                        SpecAst::Binary { op: toks[pos], lhs: Box::new(acc), rhs: Box::new(pr.0) },
                    )
                } else {
                    // unreachable: a primary always advances the cursor
                    Err(ParseError::UnexpectedPrimary(k))
                }
            },
            Err(e) => Err(e),
        }
    } else {
        Ok((acc, pos))
    }
}

/// Model of `factor := primary (('*' | '/') primary)*`.
pub open spec fn spec_factor(toks: Seq<SpecToken>, pos: int) -> Result<(SpecAst, int), ParseError> {
    match spec_primary(toks, pos) {
        Ok(pr) => spec_factor_rest(toks, pr.1, pr.0),
        Err(e) => Err(e),
    }
}

/// Model of the `(('+' | '-') factor)*` tail of `term`.
pub open spec fn spec_term_rest(toks: Seq<SpecToken>, pos: int, acc: SpecAst) -> Result<
    (SpecAst, int),
    ParseError,
>
    decreases toks.len() - pos,
{
    let k = kind_at(toks, pos);
    if k == TokenKind::Plus || k == TokenKind::Minus {
        match spec_factor(toks, pos + 1) {
            Ok(pr) => {
                if pos < pr.1 && pr.1 <= toks.len() {
                    spec_term_rest(
                        toks,
                        pr.1,
                        SpecAst::Binary { op: toks[pos], lhs: Box::new(acc), rhs: Box::new(pr.0) },
                    )
                } else {
                    // unreachable: a factor always advances the cursor
                    Err(ParseError::UnexpectedPrimary(k))
                }
            },
            Err(e) => Err(e),
        }
    } else {
        Ok((acc, pos))
    }
}

/// Model of `term := factor (('+' | '-') factor)*`.
pub open spec fn spec_term(toks: Seq<SpecToken>, pos: int) -> Result<(SpecAst, int), ParseError> {
    match spec_factor(toks, pos) {
        Ok(pr) => spec_term_rest(toks, pr.1, pr.0),
        Err(e) => Err(e),
    }
}

/// Model of `expr := term`.
pub open spec fn spec_expr(toks: Seq<SpecToken>, pos: int) -> Result<(SpecAst, int), ParseError> {
    spec_term(toks, pos)
}

/// Model of `let_decl := 'let' IDENTIFIER '=' expr` (the trailing `;` is
/// checked by the declaration list). `pos` is at the `let` keyword.
pub open spec fn spec_let_binding(toks: Seq<SpecToken>, pos: int) -> Result<
    (SpecAst, int),
    ParseError,
> {
    let k1 = kind_at(toks, pos + 1);
    if k1 != TokenKind::Identifier {
        Err(
            if k1 == TokenKind::Error {
                ParseError::UnrecognizedCharacter
            } else {
                ParseError::ExpectedIdentifier
            },
        )
    } else {
        let k2 = kind_at(toks, pos + 2);
        if k2 != TokenKind::Equal {
            Err(
                if k2 == TokenKind::Error {
                    ParseError::UnrecognizedCharacter
                } else {
                    ParseError::ExpectedEqual
                },
            )
        } else {
            match spec_expr(toks, pos + 3) {
                Ok(pr) => Ok(
                    (SpecAst::Binding { ident: toks[pos + 1], expr: Box::new(pr.0) }, pr.1),
                ),
                Err(e) => Err(e),
            }
        }
    }
}

/// Model of a declaration list running until the terminator `end` (`}` for a
/// block, end-of-input for the whole program), which it consumes. Yields the
/// declarations in order.
pub open spec fn spec_decl_list(toks: Seq<SpecToken>, pos: int, end: TokenKind) -> Result<
    (Seq<SpecAst>, int),
    ParseError,
>
    decreases toks.len() - pos, 1int,
{
    let k = kind_at(toks, pos);
    if k == end {
        Ok((Seq::empty(), advance_pos(toks, pos)))
    } else if k == TokenKind::Let {
        match spec_let_binding(toks, pos) {
            Ok(pr) => {
                let k1 = kind_at(toks, pr.1);
                if k1 == TokenKind::Semicolon {
                    if pos < pr.1 + 1 && pr.1 + 1 <= toks.len() {
                        match spec_decl_list(toks, pr.1 + 1, end) {
                            Ok(rest) => Ok((seq![pr.0] + rest.0, rest.1)),
                            Err(e) => Err(e),
                        }
                    } else {
                        // unreachable: a declaration always advances the cursor
                        Err(ParseError::MissingSemicolon)
                    }
                } else if k1 == TokenKind::Error {
                    Err(ParseError::UnrecognizedCharacter)
                } else {
                    Err(ParseError::MissingSemicolon)
                }
            },
            Err(e) => Err(e),
        }
    } else if k == TokenKind::LCurly {
        match spec_body(toks, pos) {
            Ok(pr) => {
                if pos < pr.1 && pr.1 <= toks.len() {
                    match spec_decl_list(toks, pr.1, end) {
                        Ok(rest) => Ok((seq![pr.0] + rest.0, rest.1)),
                        Err(e) => Err(e),
                    }
                } else {
                    // unreachable: a block always advances the cursor
                    Err(ParseError::MissingBlockEnd)
                }
            },
            Err(e) => Err(e),
        }
    } else if k == TokenKind::Error {
        Err(ParseError::UnrecognizedCharacter)
    } else if k == TokenKind::Eof {
        Err(ParseError::MissingBlockEnd)
    } else {
        Err(ParseError::UnexpectedDeclaration(k))
    }
}

/// Model of `block := '{' declaration_list(until '}') '}'`. `pos` is at the
/// opening `{`.
pub open spec fn spec_body(toks: Seq<SpecToken>, pos: int) -> Result<(SpecAst, int), ParseError>
    decreases toks.len() - pos, 0int,
{
    if kind_at(toks, pos) == TokenKind::LCurly {
        match spec_decl_list(toks, pos + 1, TokenKind::RCurly) {
            Ok(pr) => Ok((SpecAst::Body(pr.0), pr.1)),
            Err(e) => Err(e),
        }
    } else {
        // unreachable: callers enter a block only at '{'
        Err(ParseError::MissingBlockEnd)
    }
}

/// Model of a whole program: an empty token stream is a no-op, anything else
/// is a declaration list running to end-of-input, wrapped in a body node.
pub open spec fn spec_parse(toks: Seq<SpecToken>, pos: int) -> Result<SpecAst, ParseError> {
    if kind_at(toks, pos) == TokenKind::Eof {
        Ok(SpecAst::NoOp)
    } else {
        match spec_decl_list(toks, pos, TokenKind::Eof) {
            Ok(pr) => Ok(SpecAst::Body(pr.0)),
            Err(e) => Err(e),
        }
    }
}

/// The mathematical image of a token vector.
pub open spec fn toks_of(ts: Seq<Token>) -> Seq<SpecToken> {
    Seq::new(ts.len(), |i: int| ts[i]@)
}

fn token_clone(t: &Token) -> (r: Token)
    ensures
        r@ == t@,
{
    match &t.lexeme {
        Some(l) => {
            let lx = crate::lexer::copy_bytes(l.as_slice(), 0, l.len());
            proof {
                assert(l@.subrange(0, l@.len() as int) =~= l@);
            }
            Token { kind: t.kind, lexeme: Some(lx) }
        },
        None => Token { kind: t.kind, lexeme: None },
    }
}

/// Recursive-descent parser with one token of lookahead over a pre-lexed
/// token stream.
pub struct Parser {
    tokens: Vec<Token>,
    pos: usize,
}

impl Parser {
    /// The cursor never runs past the end of the token stream.
    pub closed spec fn wf(&self) -> bool {
        self.pos <= self.tokens@.len()
    }

    /// The token stream.
    pub closed spec fn toks(&self) -> Seq<SpecToken> {
        toks_of(self.tokens@)
    }

    /// The cursor position in the token stream.
    pub closed spec fn cursor(&self) -> int {
        self.pos as int
    }

    /// Tokenizes the whole source text up front; the token stream always
    /// ends with the `Eof` or `Error` token at which lexing stopped.
    pub fn new(source: &[u8]) -> (p: Parser)
        ensures
            p.wf(),
            p.toks() == lex_all(source@, 0),
            p.cursor() == 0,
    {
        let mut lexer = Lexer::new(source);
        let mut tokens: Vec<Token> = Vec::new();
        let ghost mut prev: int = 0;
        let mut t = lexer.next();
        while t.kind != TokenKind::Eof && t.kind != TokenKind::Error
            invariant
                lexer.wf(),
                lexer.src() == source@,
                0 <= prev <= source@.len(),
                (t@, lexer.pos()) == lex_next(source@, prev),
                t@.kind != TokenKind::Eof && t@.kind != TokenKind::Error ==> prev < lexer.pos(),
                lexer.pos() <= source@.len(),
                lex_all(source@, 0) == toks_of(tokens@) + lex_all(source@, prev),
            decreases source@.len() - prev,
        {
            let ghost old_tokens = tokens@;
            tokens.push(t);
            proof {
                let pr = lex_next(source@, prev);
                assert(pr.0 == t@);
                assert(pr.1 == lexer.pos());
                assert(t@.kind != TokenKind::Eof && t@.kind != TokenKind::Error);
                assert(prev < lexer.pos() && lexer.pos() <= source@.len());
                assert(toks_of(old_tokens.push(t)) =~= toks_of(old_tokens).push(t@));
                assert(lex_all(source@, prev) =~= seq![t@] + lex_all(source@, lexer.pos()));
                assert(toks_of(old_tokens) + (seq![t@] + lex_all(source@, lexer.pos())) =~= toks_of(
                    old_tokens.push(t),
                ) + lex_all(source@, lexer.pos()));
                prev = lexer.pos();
            }
            t = lexer.next();
        }
        let ghost old_tokens = tokens@;
        tokens.push(t);
        proof {
            assert(lex_all(source@, prev) =~= seq![t@]);
            assert(toks_of(old_tokens.push(t)) =~= toks_of(old_tokens) + seq![t@]);
        }
        Parser { tokens, pos: 0 }
    }

    /// The kind of the current token, `Eof` if the stream is exhausted.
    fn current_kind(&self) -> (k: TokenKind)
        requires
            self.wf(),
        ensures
            k == kind_at(self.toks(), self.cursor()),
    {
        if self.pos < self.tokens.len() {
            self.tokens[self.pos].kind
        } else {
            TokenKind::Eof
        }
    }

    /// Returns the current token and consumes it.
    fn get_consume(&mut self) -> (t: Token)
        requires
            old(self).wf(),
            old(self).cursor() < old(self).toks().len(),
        ensures
            final(self).wf(),
            final(self).toks() == old(self).toks(),
            final(self).cursor() == old(self).cursor() + 1,
            t@ == old(self).toks()[old(self).cursor()],
    {
        let t = token_clone(&self.tokens[self.pos]);
        proof {
            vstd::std_specs::vec::axiom_spec_len(&self.tokens);
        }
        self.pos = self.pos + 1;
        t
    }

    /// Consumes the current token without looking at it.
    fn consume_here(&mut self)
        requires
            old(self).wf(),
            old(self).cursor() < old(self).toks().len(),
        ensures
            final(self).wf(),
            final(self).toks() == old(self).toks(),
            final(self).cursor() == old(self).cursor() + 1,
    {
        proof {
            vstd::std_specs::vec::axiom_spec_len(&self.tokens);
        }
        self.pos = self.pos + 1;
    }

    /// Consumes the current token if it has the expected kind, otherwise
    /// reports `err` (or the lexical error if an unrecognized byte stands
    /// here).
    fn consume(&mut self, expected: TokenKind, err: ParseError) -> (r: Result<(), ParseError>)
        requires
            old(self).wf(),
        ensures
            final(self).wf(),
            final(self).toks() == old(self).toks(),
            kind_at(old(self).toks(), old(self).cursor()) == expected ==> r == Ok::<
                (),
                ParseError,
            >(()) && final(self).cursor() == advance_pos(old(self).toks(), old(self).cursor()),
            kind_at(old(self).toks(), old(self).cursor()) != expected ==> final(self).cursor()
                == old(self).cursor() && r == Err::<(), ParseError>(
                if kind_at(old(self).toks(), old(self).cursor()) == TokenKind::Error {
                    ParseError::UnrecognizedCharacter
                } else {
                    err
                },
            ),
    {
        let k = self.current_kind();
        if k == expected {
            if self.pos < self.tokens.len() {
                self.pos = self.pos + 1;
            }
            Ok(())
        } else if k == TokenKind::Error {
            Err(ParseError::UnrecognizedCharacter)
        } else {
            Err(err)
        }
    }

    /// Consumes and returns the current token if its kind is one of
    /// `expected`.
    fn matches_any(&mut self, expected: &[TokenKind]) -> (r: Option<Token>)
        requires
            old(self).wf(),
            forall|i: int| 0 <= i < expected@.len() ==> expected@[i] != TokenKind::Eof,
        ensures
            final(self).wf(),
            final(self).toks() == old(self).toks(),
            (match r {
                Some(t) => {
                    &&& exists|i: int|
                        0 <= i < expected@.len() && kind_at(old(self).toks(), old(self).cursor())
                            == expected@[i]
                    &&& old(self).cursor() < old(self).toks().len()
                    &&& t@ == old(self).toks()[old(self).cursor()]
                    &&& final(self).cursor() == old(self).cursor() + 1
                },
                None => {
                    &&& forall|i: int|
                        0 <= i < expected@.len() ==> kind_at(old(self).toks(), old(self).cursor())
                            != expected@[i]
                    &&& final(self).cursor() == old(self).cursor()
                },
            }),
    {
        let mut i: usize = 0;
        while i < expected.len()
            invariant
                0 <= i <= expected@.len(),
                forall|j: int| 0 <= j < expected@.len() ==> expected@[j] != TokenKind::Eof,
                self.wf(),
                self.toks() == old(self).toks(),
                self.cursor() == old(self).cursor(),
                forall|j: int|
                    0 <= j < i ==> kind_at(old(self).toks(), old(self).cursor()) != expected@[j],
            decreases expected@.len() - i,
        {
            if self.current_kind() == expected[i] {
                proof {
                    assert(expected@[i as int] != TokenKind::Eof);
                    assert(kind_at(self.toks(), self.cursor()) != TokenKind::Eof);
                }
                let t = self.get_consume();
                return Some(t);
            }
            i = i + 1;
        }
        None
    }

    /// Consumes and returns the current token if it is an identifier,
    /// otherwise reports the failure.
    fn identifier(&mut self) -> (r: Result<Token, ParseError>)
        requires
            old(self).wf(),
        ensures
            final(self).wf(),
            final(self).toks() == old(self).toks(),
            (match r {
                Ok(t) => {
                    &&& kind_at(old(self).toks(), old(self).cursor()) == TokenKind::Identifier
                    &&& old(self).cursor() < old(self).toks().len()
                    &&& t@ == old(self).toks()[old(self).cursor()]
                    &&& final(self).cursor() == old(self).cursor() + 1
                },
                Err(e) => {
                    &&& kind_at(old(self).toks(), old(self).cursor()) != TokenKind::Identifier
                    &&& final(self).cursor() == old(self).cursor()
                    &&& e == (if kind_at(old(self).toks(), old(self).cursor()) == TokenKind::Error {
                        ParseError::UnrecognizedCharacter
                    } else {
                        ParseError::ExpectedIdentifier
                    })
                },
            }),
    {
        let k = self.current_kind();
        if k == TokenKind::Identifier {
            Ok(self.get_consume())
        } else if k == TokenKind::Error {
            Err(ParseError::UnrecognizedCharacter)
        } else {
            Err(ParseError::ExpectedIdentifier)
        }
    }

    /// Parses a primary expression: a number or an identifier.
    fn primary(&mut self) -> (r: Result<Box<Ast>, ParseError>)
        requires
            old(self).wf(),
        ensures
            final(self).wf(),
            final(self).toks() == old(self).toks(),
            old(self).cursor() <= final(self).cursor(),
            (match r {
                Ok(a) => spec_primary(old(self).toks(), old(self).cursor()) == Ok::<
                    (SpecAst, int),
                    ParseError,
                >((ast_view(*a), final(self).cursor())),
                Err(e) => spec_primary(old(self).toks(), old(self).cursor()) == Err::<
                    (SpecAst, int),
                    ParseError,
                >(e),
            }),
            r is Ok ==> old(self).cursor() < final(self).cursor(),
    {
        let k = self.current_kind();
        if k == TokenKind::Number {
            Ok(Box::new(Ast::Literal(self.get_consume())))
        } else if k == TokenKind::Identifier {
            Ok(Box::new(Ast::Identifier(self.get_consume())))
        } else if k == TokenKind::Error {
            Err(ParseError::UnrecognizedCharacter)
        } else {
            Err(ParseError::UnexpectedPrimary(k))
        }
    }

    /// Parses a factor: a primary followed by any run of `*` or `/`
    /// applications, folded left-associatively.
    fn factor(&mut self) -> (r: Result<Box<Ast>, ParseError>)
        requires
            old(self).wf(),
        ensures
            final(self).wf(),
            final(self).toks() == old(self).toks(),
            old(self).cursor() <= final(self).cursor(),
            (match r {
                Ok(a) => spec_factor(old(self).toks(), old(self).cursor()) == Ok::<
                    (SpecAst, int),
                    ParseError,
                >((ast_view(*a), final(self).cursor())),
                Err(e) => spec_factor(old(self).toks(), old(self).cursor()) == Err::<
                    (SpecAst, int),
                    ParseError,
                >(e),
            }),
            r is Ok ==> old(self).cursor() < final(self).cursor(),
    {
        let mut n = match self.primary() {
            Ok(v) => v,
            Err(e) => {
                return Err(e);
            },
        };
        loop
            invariant
                self.wf(),
                self.toks() == old(self).toks(),
                old(self).cursor() < self.cursor(),
                spec_factor(old(self).toks(), old(self).cursor()) == spec_factor_rest(
                    self.toks(),
                    self.cursor(),
                    ast_view(*n),
                ),
            ensures
                self.wf(),
                self.toks() == old(self).toks(),
                old(self).cursor() < self.cursor(),
                spec_factor(old(self).toks(), old(self).cursor()) == Ok::<
                    (SpecAst, int),
                    ParseError,
                >((ast_view(*n), self.cursor())),
            decreases self.toks().len() - self.cursor(),
        {
            let op = match self.matches_any(&[TokenKind::Star, TokenKind::Slash]) {
                Some(op) => op,
                None => {
                    break ;
                },
            };
            let rhs = match self.primary() {
                Ok(v) => v,
                Err(e) => {
                    return Err(e);
                },
            };
            n = Box::new(Ast::Binary(Binary { op, lhs: n, rhs }));
        }
        Ok(n)
    }

    /// Parses a term: a factor followed by any run of `+` or `-`
    /// applications, folded left-associatively.
    fn term(&mut self) -> (r: Result<Box<Ast>, ParseError>)
        requires
            old(self).wf(),
        ensures
            final(self).wf(),
            final(self).toks() == old(self).toks(),
            old(self).cursor() <= final(self).cursor(),
            (match r {
                Ok(a) => spec_term(old(self).toks(), old(self).cursor()) == Ok::<
                    (SpecAst, int),
                    ParseError,
                >((ast_view(*a), final(self).cursor())),
                Err(e) => spec_term(old(self).toks(), old(self).cursor()) == Err::<
                    (SpecAst, int),
                    ParseError,
                >(e),
            }),
            r is Ok ==> old(self).cursor() < final(self).cursor(),
    {
        let mut n = match self.factor() {
            Ok(v) => v,
            Err(e) => {
                return Err(e);
            },
        };
        loop
            invariant
                self.wf(),
                self.toks() == old(self).toks(),
                old(self).cursor() < self.cursor(),
                spec_term(old(self).toks(), old(self).cursor()) == spec_term_rest(
                    self.toks(),
                    self.cursor(),
                    ast_view(*n),
                ),
            ensures
                self.wf(),
                self.toks() == old(self).toks(),
                old(self).cursor() < self.cursor(),
                spec_term(old(self).toks(), old(self).cursor()) == Ok::<
                    (SpecAst, int),
                    ParseError,
                >((ast_view(*n), self.cursor())),
            decreases self.toks().len() - self.cursor(),
        {
            let op = match self.matches_any(&[TokenKind::Plus, TokenKind::Minus]) {
                Some(op) => op,
                None => {
                    break ;
                },
            };
            let rhs = match self.factor() {
                Ok(v) => v,
                Err(e) => {
                    return Err(e);
                },
            };
            n = Box::new(Ast::Binary(Binary { op, lhs: n, rhs }));
        }
        Ok(n)
    }

    /// Parses an expression.
    fn expr(&mut self) -> (r: Result<Box<Ast>, ParseError>)
        requires
            old(self).wf(),
        ensures
            final(self).wf(),
            final(self).toks() == old(self).toks(),
            old(self).cursor() <= final(self).cursor(),
            (match r {
                Ok(a) => spec_expr(old(self).toks(), old(self).cursor()) == Ok::<
                    (SpecAst, int),
                    ParseError,
                >((ast_view(*a), final(self).cursor())),
                Err(e) => spec_expr(old(self).toks(), old(self).cursor()) == Err::<
                    (SpecAst, int),
                    ParseError,
                >(e),
            }),
            r is Ok ==> old(self).cursor() < final(self).cursor(),
    {
        self.term()
    }

    /// Parses a `let` declaration, standing at the `let` keyword.
    fn let_binding(&mut self) -> (r: Result<Box<Ast>, ParseError>)
        requires
            old(self).wf(),
            kind_at(old(self).toks(), old(self).cursor()) == TokenKind::Let,
        ensures
            final(self).wf(),
            final(self).toks() == old(self).toks(),
            old(self).cursor() <= final(self).cursor(),
            (match r {
                Ok(a) => spec_let_binding(old(self).toks(), old(self).cursor()) == Ok::<
                    (SpecAst, int),
                    ParseError,
                >((ast_view(*a), final(self).cursor())),
                Err(e) => spec_let_binding(old(self).toks(), old(self).cursor()) == Err::<
                    (SpecAst, int),
                    ParseError,
                >(e),
            }),
            r is Ok ==> old(self).cursor() < final(self).cursor(),
    {
        self.consume_here();
        let identifier = match self.identifier() {
            Ok(t) => t,
            Err(e) => {
                return Err(e);
            },
        };
        match self.consume(TokenKind::Equal, ParseError::ExpectedEqual) {
            Ok(_) => {},
            Err(e) => {
                return Err(e);
            },
        }
        let e = match self.expr() {
            Ok(v) => v,
            Err(er) => {
                return Err(er);
            },
        };
        Ok(Box::new(Ast::Binding(Binding { identifier, expr: e })))
    }

    /// Parses declarations until the terminator `end` and consumes it.
    fn declaration_list(&mut self, end: TokenKind) -> (r: Result<Vec<Box<Ast>>, ParseError>)
        requires
            old(self).wf(),
        ensures
            final(self).wf(),
            final(self).toks() == old(self).toks(),
            old(self).cursor() <= final(self).cursor(),
            (match r {
                Ok(items) => spec_decl_list(old(self).toks(), old(self).cursor(), end) == Ok::<
                    (Seq<SpecAst>, int),
                    ParseError,
                >((asts_view(items@), final(self).cursor())),
                Err(e) => spec_decl_list(old(self).toks(), old(self).cursor(), end) == Err::<
                    (Seq<SpecAst>, int),
                    ParseError,
                >(e),
            }),
        decreases self.toks().len() - self.cursor(), 1int,
    {
        let mut items: Vec<Box<Ast>> = Vec::new();
        loop
            invariant
                self.wf(),
                self.toks() == old(self).toks(),
                old(self).cursor() <= self.cursor(),
                spec_decl_list(old(self).toks(), old(self).cursor(), end) == (match spec_decl_list(
                    self.toks(),
                    self.cursor(),
                    end,
                ) {
                    Ok(pr) => Ok::<(Seq<SpecAst>, int), ParseError>(
                        (asts_view(items@) + pr.0, pr.1),
                    ),
                    Err(e) => Err::<(Seq<SpecAst>, int), ParseError>(e),
                }),
            ensures
                self.wf(),
                self.toks() == old(self).toks(),
                old(self).cursor() <= self.cursor(),
                kind_at(self.toks(), self.cursor()) == end,
                spec_decl_list(old(self).toks(), old(self).cursor(), end) == (match spec_decl_list(
                    self.toks(),
                    self.cursor(),
                    end,
                ) {
                    Ok(pr) => Ok::<(Seq<SpecAst>, int), ParseError>(
                        (asts_view(items@) + pr.0, pr.1),
                    ),
                    Err(e) => Err::<(Seq<SpecAst>, int), ParseError>(e),
                }),
            decreases self.toks().len() - self.cursor(), 0int,
        {
            let k = self.current_kind();
            if k == end {
                break ;
            }
            let ghost cur = self.cursor();
            let item: Box<Ast>;
            if k == TokenKind::Let {
                let b = match self.let_binding() {
                    Ok(b) => b,
                    Err(e) => {
                        return Err(e);
                    },
                };
                match self.consume(TokenKind::Semicolon, ParseError::MissingSemicolon) {
                    Ok(_) => {},
                    Err(e) => {
                        return Err(e);
                    },
                }
                item = b;
            } else if k == TokenKind::LCurly {
                item = match self.body() {
                    Ok(b) => b,
                    Err(e) => {
                        return Err(e);
                    },
                };
            } else if k == TokenKind::Error {
                return Err(ParseError::UnrecognizedCharacter);
            } else if k == TokenKind::Eof {
                return Err(ParseError::MissingBlockEnd);
            } else {
                return Err(ParseError::UnexpectedDeclaration(k));
            }
            let ghost old_items = items@;
            items.push(item);
            proof {
                assert(old_items.push(item).subrange(0, old_items.len() as int) =~= old_items);
                assert(asts_view(old_items.push(item)) =~= asts_view(old_items).push(
                    ast_view(*item),
                ));
                assert(asts_view(old_items) + (seq![ast_view(*item)] + spec_rest_items(
                    self.toks(),
                    self.cursor(),
                    end,
                )) =~= asts_view(old_items.push(item)) + spec_rest_items(
                    self.toks(),
                    self.cursor(),
                    end,
                ));
            }
        }
        match self.consume(end, ParseError::MissingBlockEnd) {
            Ok(_) => {},
            Err(_) => {
                // unreachable: the loop stopped at the terminator
                proof {
                    assert(false);
                }
            },
        }
        proof {
            assert(asts_view(items@) + Seq::<SpecAst>::empty() =~= asts_view(items@));
        }
        Ok(items)
    }

    /// Parses a block, standing at the opening `{`.
    fn body(&mut self) -> (r: Result<Box<Ast>, ParseError>)
        requires
            old(self).wf(),
            kind_at(old(self).toks(), old(self).cursor()) == TokenKind::LCurly,
        ensures
            final(self).wf(),
            final(self).toks() == old(self).toks(),
            old(self).cursor() <= final(self).cursor(),
            (match r {
                Ok(a) => spec_body(old(self).toks(), old(self).cursor()) == Ok::<
                    (SpecAst, int),
                    ParseError,
                >((ast_view(*a), final(self).cursor())),
                Err(e) => spec_body(old(self).toks(), old(self).cursor()) == Err::<
                    (SpecAst, int),
                    ParseError,
                >(e),
            }),
            r is Ok ==> old(self).cursor() < final(self).cursor(),
        decreases self.toks().len() - self.cursor(), 0int,
    {
        self.consume_here();
        match self.declaration_list(TokenKind::RCurly) {
            Ok(items) => Ok(Box::new(Ast::Body(items))),
            Err(e) => Err(e),
        }
    }

    /// Parses the whole program: exactly the tree (or exactly the error)
    /// that the grammar model [`spec_parse`] gives for the token stream. An
    /// empty token stream yields the no-op tree.
    pub fn parse(&mut self) -> (r: Result<Box<Ast>, ParseError>)
        requires
            old(self).wf(),
        ensures
            final(self).wf(),
            final(self).toks() == old(self).toks(),
            (match r {
                Ok(a) => spec_parse(old(self).toks(), old(self).cursor()) == Ok::<
                    SpecAst,
                    ParseError,
                >(ast_view(*a)),
                Err(e) => spec_parse(old(self).toks(), old(self).cursor()) == Err::<
                    SpecAst,
                    ParseError,
                >(e),
            }),
    {
        if self.current_kind() == TokenKind::Eof {
            return Ok(Box::new(Ast::NoOp));
        }
        match self.declaration_list(TokenKind::Eof) {
            Ok(items) => Ok(Box::new(Ast::Body(items))),
            Err(e) => Err(e),
        }
    }
}

/// The declarations that the model yields from `pos` on (empty on error);
/// names the tail of a partly built declaration list in loop invariants.
pub open spec fn spec_rest_items(toks: Seq<SpecToken>, pos: int, end: TokenKind) -> Seq<SpecAst> {
    match spec_decl_list(toks, pos, end) {
        Ok(pr) => pr.0,
        Err(e) => Seq::empty(),
    }
}

} // verus!
