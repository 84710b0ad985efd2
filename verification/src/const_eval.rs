//! Scoped constant evaluator: walks the syntax tree and resolves every `let`
//! binding to a 32-bit integer, respecting lexical scoping and shadowing.
//!
//! The state is a pair of structures. The *retained scope list* records every
//! scope ever created, in creation order; it is the evaluator's output. The
//! *visible chain* is a stack of indices into that list saying which scopes
//! are visible at the point being evaluated; it is pushed when a body is
//! entered and popped when the body closes, while the scope itself stays in
//! the list. Identifier lookup walks the retained list backwards, skipping
//! scopes whose nesting level exceeds the current one — so a binding made in
//! an earlier sibling block at the same depth is still found, matching the
//! recorded behaviour of this language.
//!
//! The spec functions [`spec_visit`] and [`spec_eval_expr`] are the
//! mathematical model of the walk; [`ConstEvaluator::eval`] is proved to
//! return exactly the scope list (or exactly the error) that the model gives.
//!
//! Arithmetic is fixed-width 32-bit and trapping: any result outside the
//! 32-bit range is reported as [`EvalError::Overflow`] rather than wrapping,
//! and division is truncated towards zero as in Rust, with division by zero
//! reported as [`EvalError::DivisionByZero`]. In a binary operation the right
//! operand is evaluated before the left one.

use crate::lexer::{is_digit, TokenKind};
use crate::parser::{ast_view, asts_view, Ast, Binary, Binding, SpecAst};
use vstd::prelude::*;

verus! {

/// An evaluation failure.
#[derive(Clone, Copy, Debug, PartialEq, Eq, Structural)]
pub enum EvalError {
    /// A name was referenced with no visible binding for it.
    UnresolvedIdentifier,
    /// A division by zero.
    DivisionByZero,
    /// An arithmetic result outside the 32-bit range.
    Overflow,
    /// A literal whose lexeme is not a 32-bit number.
    MalformedLiteral,
    /// A node that the grammar should make impossible stood where a binding
    /// or an expression was expected.
    InvalidNode,
}

/// A constant value. Only numbers exist today; arithmetic demands numbers on
/// both sides.
#[derive(Clone, Copy, Debug, PartialEq, Eq, Structural)]
pub enum ConstValue {
    Number(i32),
}

/// The mathematical image of a constant value.
pub open spec fn cv_int(v: ConstValue) -> int {
    match v {
        ConstValue::Number(n) => n as int,
    }
}

/// Mathematical image of a [`Scope`]: its nesting level and its bindings as
/// a sequence of (name, value) pairs in insertion order.
#[verifier::ext_equal]
pub struct SpecScope {
    pub level: int,
    pub items: Seq<(Seq<u8>, int)>,
}

/// The value bound to `name`, scanning the pairs from the most recent one.
pub open spec fn lookup(items: Seq<(Seq<u8>, int)>, name: Seq<u8>) -> Option<int>
    decreases items.len(),
{
    if items.len() == 0 {
        None
    } else if items[items.len() - 1].0 == name {
        Some(items[items.len() - 1].1)
    } else {
        lookup(items.subrange(0, items.len() - 1), name)
    }
}

/// The first index bound to `name`, or -1 if none is.
pub open spec fn key_index(items: Seq<(Seq<u8>, int)>, name: Seq<u8>) -> int
    decreases items.len(),
{
    if items.len() == 0 {
        -1
    } else if items[0].0 == name {
        0
    } else {
        let r = key_index(items.subrange(1, items.len() as int), name);
        if r < 0 {
            -1
        } else {
            r + 1
        }
    }
}

/// Binds `name` to `v`: overwrites the binding already holding `name`, or
/// appends a new one.
pub open spec fn scope_add(items: Seq<(Seq<u8>, int)>, name: Seq<u8>, v: int) -> Seq<
    (Seq<u8>, int),
> {
    let i = key_index(items, name);
    if i >= 0 {
        items.update(i, (name, v))
    } else {
        items.push((name, v))
    }
}

proof fn lemma_key_index_found(items: Seq<(Seq<u8>, int)>, name: Seq<u8>, i: int)
    requires
        0 <= i < items.len(),
        items[i].0 == name,
        forall|j: int| 0 <= j < i ==> items[j].0 != name,
    ensures
        key_index(items, name) == i,
    decreases i,
{
    if items[0].0 == name {
        assert(i == 0);
    } else {
        let tail = items.subrange(1, items.len() as int);
        assert(tail[i - 1].0 == name);
        assert(forall|j: int| 0 <= j < i - 1 ==> tail[j].0 != name);
        lemma_key_index_found(tail, name, i - 1);
    }
}

proof fn lemma_key_index_absent(items: Seq<(Seq<u8>, int)>, name: Seq<u8>)
    requires
        forall|j: int| 0 <= j < items.len() ==> items[j].0 != name,
    ensures
        key_index(items, name) == -1,
    decreases items.len(),
{
    if items.len() > 0 {
        let tail = items.subrange(1, items.len() as int);
        assert(forall|j: int| 0 <= j < tail.len() ==> tail[j].0 != name);
        lemma_key_index_absent(tail, name);
    }
}

/// Compares two byte vectors for equality of contents.
fn bytes_eq(a: &Vec<u8>, b: &Vec<u8>) -> (r: bool)
    ensures
        r == (a@ == b@),
{
    if a.len() != b.len() {
        proof {
            if a@ == b@ {
                assert(a@.len() == b@.len());
            }
        }
        return false;
    }
    let mut i: usize = 0;
    while i < a.len()
        invariant
            0 <= i <= a@.len(),
            a@.len() == b@.len(),
            forall|j: int| 0 <= j < i ==> a@[j] == b@[j],
        decreases a@.len() - i,
    {
        if a[i] != b[i] {
            proof {
                if a@ == b@ {
                    assert(a@[i as int] == b@[i as int]);
                }
            }
            return false;
        }
        i = i + 1;
    }
    proof {
        assert(a@ =~= b@);
    }
    true
}

/// One lexical nesting level: the depth at which it was created and the
/// bindings made in it, keyed by the identifier's bytes.
#[derive(Debug)]
pub struct Scope {
    level: usize,
    items: Vec<(Vec<u8>, ConstValue)>,
}

impl View for Scope {
    type V = SpecScope;

    closed spec fn view(&self) -> SpecScope {
        SpecScope {
            level: self.level as int,
            items: Seq::new(self.items@.len(), |i: int| (self.items@[i].0@, cv_int(self.items@[i].1))),
        }
    }
}

impl Scope {
    /// The nesting depth at which this scope was created.
    pub fn level(&self) -> (l: usize)
        ensures
            l as int == self@.level,
    {
        self.level
    }

    /// The bindings of this scope, in insertion order.
    pub fn entries(&self) -> (r: &Vec<(Vec<u8>, ConstValue)>)
        ensures
            r@.len() == self@.items.len(),
            forall|i: int|
                0 <= i < r@.len() ==> (r@[i].0@, cv_int(r@[i].1)) == self@.items[i],
    {
        &self.items
    }

    /// The value bound to `name` in this scope, if any.
    pub fn get(&self, name: &Vec<u8>) -> (r: Option<ConstValue>)
        ensures
            (match r {
                Some(v) => lookup(self@.items, name@) == Some(cv_int(v)),
                None => lookup(self@.items, name@) == None::<int>,
            }),
    {
        let mut i: usize = self.items.len();
        proof {
            assert(self@.items.subrange(0, self@.items.len() as int) =~= self@.items);
        }
        while i > 0
            invariant
                0 <= i <= self@.items.len(),
                self@.items.len() == self.items@.len(),
                lookup(self@.items, name@) == lookup(self@.items.subrange(0, i as int), name@),
            decreases i,
        {
            i = i - 1;
            proof {
                assert(self@.items.subrange(0, i + 1).subrange(0, i as int) =~= self@.items.subrange(
                    0,
                    i as int,
                ));
                assert(self@.items.subrange(0, i + 1)[i as int] == self@.items[i as int]);
            }
            if bytes_eq(&self.items[i].0, name) {
                return Some(self.items[i].1);
            }
        }
        proof {
            assert(lookup(self@.items.subrange(0, 0), name@) == None::<int>);
        }
        None
    }

    /// Binds `identifier` to `value`, overwriting any binding of the same
    /// name already in this scope.
    fn add(&mut self, identifier: &Vec<u8>, value: ConstValue)
        ensures
            final(self)@.level == old(self)@.level,
            final(self)@.items == scope_add(old(self)@.items, identifier@, cv_int(value)),
    {
        let mut i: usize = 0;
        while i < self.items.len()
            invariant
                0 <= i <= self.items@.len(),
                self == old(self),
                forall|j: int| 0 <= j < i ==> old(self)@.items[j].0 != identifier@,
            decreases self.items@.len() - i,
        {
            if bytes_eq(&self.items[i].0, identifier) {
                proof {
                    lemma_key_index_found(old(self)@.items, identifier@, i as int);
                }
                let key = crate::lexer::copy_bytes(identifier.as_slice(), 0, identifier.len());
                proof {
                    assert(identifier@.subrange(0, identifier@.len() as int) =~= identifier@);
                }
                self.items[i] = (key, value);
                proof {
                    assert(self@.items =~~= scope_add(old(self)@.items, identifier@, cv_int(value)));
                }
                return ;
            }
            i = i + 1;
        }
        proof {
            lemma_key_index_absent(old(self)@.items, identifier@);
        }
        let key = crate::lexer::copy_bytes(identifier.as_slice(), 0, identifier.len());
        proof {
            assert(identifier@.subrange(0, identifier@.len() as int) =~= identifier@);
        }
        self.items.push((key, value));
        proof {
            assert(self@.items =~~= scope_add(old(self)@.items, identifier@, cv_int(value)));
        }
    }
}

/// The ordered list of all scopes an evaluation created.
pub type ConstScopes = Vec<Scope>;

/// Mathematical image of the evaluator's state: the current nesting level,
/// the retained scope list, and the visible chain of indices into that list
/// (innermost last).
#[verifier::ext_equal]
pub struct SpecEvalState {
    pub level: int,
    pub scopes: Seq<SpecScope>,
    pub chain: Seq<int>,
}

/// The state a fresh evaluator starts in.
pub open spec fn spec_init_state() -> SpecEvalState {
    SpecEvalState { level: 0, scopes: Seq::empty(), chain: Seq::empty() }
}

/// Entering a body: a fresh scope tagged with the current level is appended
/// to the retained list and becomes the innermost visible scope, and the
/// level rises.
pub open spec fn spec_open_scope(st: SpecEvalState) -> SpecEvalState {
    SpecEvalState {
        level: st.level + 1,
        scopes: st.scopes.push(SpecScope { level: st.level, items: Seq::empty() }),
        chain: st.chain.push(st.scopes.len() as int),
    }
}

/// Leaving a body: the level falls and visibility returns to the parent
/// scope; the outermost scope stays visible when there is no parent. The
/// retained list keeps the scope.
pub open spec fn spec_close_scope(st: SpecEvalState) -> SpecEvalState {
    SpecEvalState {
        level: st.level - 1,
        scopes: st.scopes,
        chain: if st.chain.len() > 1 {
            st.chain.subrange(0, st.chain.len() - 1)
        } else {
            st.chain
        },
    }
}

/// Identifier lookup: walks the retained scope list from the newest scope
/// backwards, skipping scopes created deeper than the current level, and
/// yields the first binding of `name`.
pub open spec fn spec_find(scopes: Seq<SpecScope>, level: int, name: Seq<u8>) -> Option<int>
    decreases scopes.len(),
{
    if scopes.len() == 0 {
        None
    } else {
        let s = scopes[scopes.len() - 1];
        let rest = scopes.subrange(0, scopes.len() - 1);
        if s.level > level {
            spec_find(rest, level, name)
        } else {
            match lookup(s.items, name) {
                Some(v) => Some(v),
                None => spec_find(rest, level, name),
            }
        }
    }
}

/// The 32-bit signed range.
pub open spec fn in_i32(v: int) -> bool {
    -0x8000_0000 <= v && v <= 0x7fff_ffff
}

pub open spec fn abs_int(a: int) -> int {
    if a < 0 {
        -a
    } else {
        a
    }
}

/// Division truncated towards zero, as Rust's `/` computes it.
pub open spec fn div_trunc(a: int, b: int) -> int {
    let q = abs_int(a) / abs_int(b);
    if (a < 0) == (b < 0) {
        q
    } else {
        -q
    }
}

/// The result of one arithmetic operation: trapping 32-bit arithmetic, with
/// division truncated towards zero and division by zero an error.
pub open spec fn spec_num_binary(op: TokenKind, l: int, r: int) -> Result<int, EvalError> {
    if op == TokenKind::Plus {
        if in_i32(l + r) {
            Ok(l + r)
        } else {
            Err(EvalError::Overflow)
        }
    } else if op == TokenKind::Minus {
        if in_i32(l - r) {
            Ok(l - r)
        } else {
            Err(EvalError::Overflow)
        }
    } else if op == TokenKind::Star {
        if in_i32(l * r) {
            Ok(l * r)
        } else {
            Err(EvalError::Overflow)
        }
    } else if op == TokenKind::Slash {
        if r == 0 {
            Err(EvalError::DivisionByZero)
        } else if in_i32(div_trunc(l, r)) {
            Ok(div_trunc(l, r))
        } else {
            Err(EvalError::Overflow)
        }
    } else {
        Err(EvalError::InvalidNode)
    }
}

/// The number a digit run denotes, most significant digit first.
pub open spec fn digits_value(s: Seq<u8>) -> int
    decreases s.len(),
{
    if s.len() == 0 {
        0
    } else {
        digits_value(s.subrange(0, s.len() - 1)) * 10 + (s[s.len() - 1] as int - 48)
    }
}

pub open spec fn all_digits(s: Seq<u8>) -> bool {
    forall|i: int| 0 <= i < s.len() ==> is_digit(s[i])
}

/// The value of a literal's lexeme: a nonempty digit run denoting a number
/// in the 32-bit range; anything else is malformed. A literal without a
/// lexeme cannot come from the parser and is an internal-consistency error.
pub open spec fn spec_literal_value(lexeme: Option<Seq<u8>>) -> Result<int, EvalError> {
    match lexeme {
        None => Err(EvalError::InvalidNode),
        Some(s) => {
            if s.len() == 0 || !all_digits(s) {
                Err(EvalError::MalformedLiteral)
            } else if digits_value(s) > 0x7fff_ffff {
                Err(EvalError::MalformedLiteral)
            } else {
                Ok(digits_value(s))
            }
        },
    }
}

/// The value of an expression in a given state. The right operand of a
/// binary operation is evaluated before the left one, so its failure wins.
pub open spec fn spec_eval_expr(st: SpecEvalState, a: SpecAst) -> Result<int, EvalError>
    decreases a,
{
    match a {
        SpecAst::Literal(t) => spec_literal_value(t.lexeme),
        SpecAst::Identifier(t) => {
            match t.lexeme {
                None => Err(EvalError::InvalidNode),
                Some(name) => {
                    match spec_find(st.scopes, st.level, name) {
                        Some(v) => Ok(v),
                        None => Err(EvalError::UnresolvedIdentifier),
                    }
                },
            }
        },
        SpecAst::Binary { op, lhs, rhs } => {
            match spec_eval_expr(st, *rhs) {
                Err(e) => Err(e),
                Ok(r) => {
                    match spec_eval_expr(st, *lhs) {
                        Err(e) => Err(e),
                        Ok(l) => spec_num_binary(op.kind, l, r),
                    }
                },
            }
        },
        _ => Err(EvalError::InvalidNode),
    }
}

/// The state after walking one node: a binding evaluates its expression and
/// records the value in the innermost visible scope; a body opens a scope,
/// walks its children and closes the scope again; other nodes change
/// nothing.
pub open spec fn spec_visit(st: SpecEvalState, a: SpecAst) -> Result<SpecEvalState, EvalError>
    decreases a,
{
    match a {
        SpecAst::Binding { ident, expr } => {
            match spec_eval_expr(st, *expr) {
                Err(e) => Err(e),
                Ok(v) => {
                    match ident.lexeme {
                        None => Err(EvalError::InvalidNode),
                        Some(name) => {
                            if st.chain.len() == 0 {
                                Err(EvalError::InvalidNode)
                            } else {
                                let idx = st.chain[st.chain.len() - 1];
                                if 0 <= idx && idx < st.scopes.len() {
                                    Ok(
                                        SpecEvalState {
                                            level: st.level,
                                            chain: st.chain,
                                            scopes: st.scopes.update(
                                                idx,
                                                SpecScope {
                                                    level: st.scopes[idx].level,
                                                    items: scope_add(st.scopes[idx].items, name, v),
                                                },
                                            ),
                                        },
                                    )
                                } else {
                                    Err(EvalError::InvalidNode)
                                }
                            }
                        },
                    }
                },
            }
        },
        SpecAst::Body(items) => {
            match spec_visit_seq(spec_open_scope(st), items) {
                Ok(st2) => Ok(spec_close_scope(st2)),
                Err(e) => Err(e),
            }
        },
        _ => Ok(st),
    }
}

/// The state after walking a run of sibling nodes in order.
pub open spec fn spec_visit_seq(st: SpecEvalState, items: Seq<SpecAst>) -> Result<
    SpecEvalState,
    EvalError,
>
    decreases items,
{
    if items.len() == 0 {
        Ok(st)
    } else {
        match spec_visit(st, items[0]) {
            Ok(st2) => spec_visit_seq(st2, items.subrange(1, items.len() as int)),
            Err(e) => Err(e),
        }
    }
}

/// The model of a whole evaluation: the retained scope list that walking the
/// tree leaves behind.
pub open spec fn spec_eval(st: SpecEvalState, a: SpecAst) -> Result<Seq<SpecScope>, EvalError> {
    match spec_visit(st, a) {
        Ok(st2) => Ok(st2.scopes),
        Err(e) => Err(e),
    }
}

/// Walking a node leaves the nesting level where it was.
pub proof fn lemma_visit_keeps_level(st: SpecEvalState, a: SpecAst)
    ensures
        (match spec_visit(st, a) {
            Ok(st2) => st2.level == st.level,
            Err(_) => true,
        }),
    decreases a,
{
    match a {
        SpecAst::Body(items) => {
            lemma_visit_seq_keeps_level(spec_open_scope(st), items);
        },
        _ => {},
    }
}

/// Walking a run of siblings leaves the nesting level where it was.
pub proof fn lemma_visit_seq_keeps_level(st: SpecEvalState, items: Seq<SpecAst>)
    ensures
        (match spec_visit_seq(st, items) {
            Ok(st2) => st2.level == st.level,
            Err(_) => true,
        }),
    decreases items,
{
    if items.len() > 0 {
        lemma_visit_keeps_level(st, items[0]);
        match spec_visit(st, items[0]) {
            Ok(st2) => {
                lemma_visit_seq_keeps_level(st2, items.subrange(1, items.len() as int));
            },
            Err(_) => {},
        }
    }
}

/// The mathematical image of a scope list.
pub open spec fn scopes_view(s: Seq<Scope>) -> Seq<SpecScope> {
    Seq::new(s.len(), |i: int| s[i]@)
}

/// Parses a literal's lexeme as a 32-bit number, exactly as
/// [`spec_literal_value`] describes.
fn literal_value(lex: &Vec<u8>) -> (r: Result<i32, EvalError>)
    ensures
        (match r {
            Ok(v) => spec_literal_value(Some(lex@)) == Ok::<int, EvalError>(v as int),
            Err(e) => spec_literal_value(Some(lex@)) == Err::<int, EvalError>(e),
        }),
{
    if lex.len() == 0 {
        return Err(EvalError::MalformedLiteral);
    }
    let mut acc: u64 = 0;
    let mut k: usize = 0;
    while k < lex.len()
        invariant
            0 <= k <= lex@.len(),
            forall|j: int| 0 <= j < k ==> is_digit(lex@[j]),
            acc as int == digits_value(lex@.subrange(0, k as int)),
            acc <= 0x7fff_ffff,
        decreases lex@.len() - k,
    {
        let b = lex[k];
        if b < 48 || b > 57 {
            proof {
                assert(!is_digit(lex@[k as int]));
            }
            return Err(EvalError::MalformedLiteral);
        }
        let d = (b - 48) as u64;
        acc = acc * 10 + d;
        k = k + 1;
        proof {
            assert(lex@.subrange(0, k as int).subrange(0, k - 1) =~= lex@.subrange(0, k - 1));
            assert(lex@.subrange(0, k as int)[k - 1] == lex@[k - 1]);
        }
        if acc > 0x7fff_ffff {
            proof {
                if all_digits(lex@) {
                    lemma_digits_prefix_bound(lex@, k as int);
                }
            }
            return Err(EvalError::MalformedLiteral);
        }
    }
    proof {
        assert(lex@.subrange(0, lex@.len() as int) =~= lex@);
    }
    Ok(acc as i32)
}

/// A digit run's value is at least the value of any of its prefixes.
proof fn lemma_digits_prefix_bound(s: Seq<u8>, k: int)
    requires
        0 <= k <= s.len(),
        all_digits(s),
    ensures
        digits_value(s.subrange(0, k)) <= digits_value(s),
    decreases s.len() - k,
{
    if k < s.len() {
        lemma_digits_prefix_bound(s, k + 1);
        lemma_digits_nonneg(s.subrange(0, k));
        assert(s.subrange(0, k + 1).subrange(0, k) =~= s.subrange(0, k));
        assert(s.subrange(0, k + 1)[k] == s[k]);
    } else {
        assert(s.subrange(0, s.len() as int) =~= s);
    }
}

/// A digit run's value is not negative.
proof fn lemma_digits_nonneg(s: Seq<u8>)
    requires
        all_digits(s),
    ensures
        digits_value(s) >= 0,
    decreases s.len(),
{
    if s.len() > 0 {
        let front = s.subrange(0, s.len() - 1);
        assert(all_digits(front));
        lemma_digits_nonneg(front);
    }
}

/// Walks a syntax tree, resolving every binding.
pub struct ConstEvaluator {
    current_level: usize,
    scopes: ConstScopes,
    chain: Vec<usize>,
}

impl View for ConstEvaluator {
    type V = SpecEvalState;

    closed spec fn view(&self) -> SpecEvalState {
        SpecEvalState {
            level: self.current_level as int,
            scopes: scopes_view(self.scopes@),
            chain: Seq::new(self.chain@.len(), |i: int| self.chain@[i] as int),
        }
    }
}

impl ConstEvaluator {
    /// The nesting level never exceeds the visible chain's depth.
    pub closed spec fn wf(&self) -> bool {
        self.current_level as int <= self.chain@.len()
    }

    pub fn new() -> (e: ConstEvaluator)
        ensures
            e.wf(),
            e@ == spec_init_state(),
    {
        let e = ConstEvaluator { current_level: 0, scopes: Vec::new(), chain: Vec::new() };
        proof {
            assert(e@ =~~= spec_init_state());
        }
        e
    }

    /// Walks the tree rooted at `root` and returns the scopes the walk
    /// created, in creation order, each with its resolved values — exactly
    /// as the model [`spec_eval`] describes — or the first evaluation error.
    pub fn eval(self, root: &Ast) -> (r: Result<ConstScopes, EvalError>)
        requires
            self.wf(),
        ensures
            (match r {
                Ok(scopes) => spec_eval(self@, ast_view(*root)) == Ok::<Seq<SpecScope>, EvalError>(
                    scopes_view(scopes@),
                ),
                Err(e) => spec_eval(self@, ast_view(*root)) == Err::<Seq<SpecScope>, EvalError>(e),
            }),
    {
        let mut this = self;
        match this.visit(root) {
            Ok(_) => Ok(this.scopes),
            Err(e) => Err(e),
        }
    }

    fn new_scope(&mut self)
        requires
            old(self).wf(),
        ensures
            final(self).wf(),
            final(self)@ == spec_open_scope(old(self)@),
    {
        let lvl = self.current_level;
        self.scopes.push(Scope { level: lvl, items: Vec::new() });
        let idx = self.scopes.len() - 1;
        self.chain.push(idx);
        let n = self.chain.len();
        proof {
            assert(old(self).current_level as int <= old(self).chain@.len());
            assert(n as int == old(self).chain@.len() + 1);
        }
        self.current_level = self.current_level + 1;
        proof {
            assert(self@ =~~= spec_open_scope(old(self)@));
        }
    }

    fn close_scope(&mut self)
        requires
            old(self).wf(),
            old(self)@.level >= 1,
        ensures
            final(self).wf(),
            final(self)@ == spec_close_scope(old(self)@),
    {
        self.current_level = self.current_level - 1;
        if self.chain.len() > 1 {
            let _popped = self.chain.pop();
        }
        proof {
            assert(self@ =~~= spec_close_scope(old(self)@));
        }
    }

    /// The index of the innermost visible scope.
    fn current_scope(&self) -> (i: usize)
        requires
            self@.chain.len() >= 1,
        ensures
            i as int == self@.chain[self@.chain.len() - 1],
    {
        self.chain[self.chain.len() - 1]
    }

    fn visit(&mut self, item: &Ast) -> (r: Result<(), EvalError>)
        requires
            old(self).wf(),
        ensures
            final(self).wf(),
            (match r {
                Ok(_) => spec_visit(old(self)@, ast_view(*item)) == Ok::<SpecEvalState, EvalError>(
                    final(self)@,
                ),
                Err(e) => spec_visit(old(self)@, ast_view(*item)) == Err::<
                    SpecEvalState,
                    EvalError,
                >(e),
            }),
        decreases *item,
    {
        match item {
            Ast::Binding(b) => self.binding(b),
            Ast::Body(items) => self.body(items),
            _ => Ok(()),
        }
    }

    fn binding(&mut self, binding: &Binding) -> (r: Result<(), EvalError>)
        requires
            old(self).wf(),
        ensures
            final(self).wf(),
            (match r {
                Ok(_) => spec_visit(
                    old(self)@,
                    SpecAst::Binding {
                        ident: binding.identifier@,
                        expr: Box::new(ast_view(*binding.expr)),
                    },
                ) == Ok::<SpecEvalState, EvalError>(final(self)@),
                Err(e) => spec_visit(
                    old(self)@,
                    SpecAst::Binding {
                        ident: binding.identifier@,
                        expr: Box::new(ast_view(*binding.expr)),
                    },
                ) == Err::<SpecEvalState, EvalError>(e),
            }),
    {
        let value = match self.eval_expr(&binding.expr) {
            Ok(v) => v,
            Err(e) => {
                return Err(e);
            },
        };
        let lex = match &binding.identifier.lexeme {
            Some(l) => l,
            None => {
                return Err(EvalError::InvalidNode);
            },
        };
        if self.chain.len() == 0 {
            return Err(EvalError::InvalidNode);
        }
        let index = self.current_scope();
        if index >= self.scopes.len() {
            return Err(EvalError::InvalidNode);
        }
        self.scopes[index].add(lex, value);
        proof {
            assert(self@ =~~= (SpecEvalState {
                level: old(self)@.level,
                chain: old(self)@.chain,
                scopes: old(self)@.scopes.update(
                    index as int,
                    SpecScope {
                        level: old(self)@.scopes[index as int].level,
                        items: scope_add(
                            old(self)@.scopes[index as int].items,
                            lex@,
                            cv_int(value),
                        ),
                    },
                ),
            }));
        }
        Ok(())
    }

    fn body(&mut self, items: &Vec<Box<Ast>>) -> (r: Result<(), EvalError>)
        requires
            old(self).wf(),
        ensures
            final(self).wf(),
            (match r {
                Ok(_) => spec_visit(old(self)@, SpecAst::Body(asts_view(items@))) == Ok::<
                    SpecEvalState,
                    EvalError,
                >(final(self)@),
                Err(e) => spec_visit(old(self)@, SpecAst::Body(asts_view(items@))) == Err::<
                    SpecEvalState,
                    EvalError,
                >(e),
            }),
        decreases items@,
    {
        self.new_scope();
        let ghost st0 = self@;
        let ghost views = asts_view(items@);
        proof {
            crate::parser::lemma_asts_view(items@);
        }
        proof {
            assert(views.subrange(0, views.len() as int) =~= views);
        }
        let mut j: usize = 0;
        while j < items.len()
            invariant
                self.wf(),
                st0 == spec_open_scope(old(self)@),
                0 <= j <= items@.len(),
                views == asts_view(items@),
                views.len() == items@.len(),
                forall|i: int| 0 <= i < items@.len() ==> views[i] == ast_view(*items@[i]),
                spec_visit_seq(st0, views) == spec_visit_seq(
                    self@,
                    views.subrange(j as int, views.len() as int),
                ),
            decreases items@.len() - j,
        {
            let ghost pre = self@;
            match self.visit(&items[j]) {
                Ok(_) => {},
                Err(e) => {
                    proof {
                        assert(views.subrange(j as int, views.len() as int)[0] == views[j as int]);
                    }
                    return Err(e);
                },
            }
            j = j + 1;
            proof {
                assert(views.subrange(j - 1, views.len() as int)[0] == views[j - 1]);
                assert(views.subrange(j - 1, views.len() as int).subrange(
                    1,
                    views.len() - (j - 1),
                ) =~= views.subrange(j as int, views.len() as int));
            }
        }
        proof {
            assert(views.subrange(items@.len() as int, views.len() as int) =~= Seq::<
                SpecAst,
            >::empty());
            lemma_visit_seq_keeps_level(st0, views);
        }
        self.close_scope();
        Ok(())
    }

    /// Identifier lookup over the retained scope list, exactly as
    /// [`spec_find`] describes.
    fn find_binding_value(&self, identifier: &Vec<u8>) -> (r: Option<ConstValue>)
        ensures
            (match r {
                Some(v) => spec_find(self@.scopes, self@.level, identifier@) == Some(cv_int(v)),
                None => spec_find(self@.scopes, self@.level, identifier@) == None::<int>,
            }),
    {
        let mut i: usize = self.scopes.len();
        proof {
            assert(self@.scopes.subrange(0, self@.scopes.len() as int) =~= self@.scopes);
        }
        while i > 0
            invariant
                0 <= i <= self.scopes@.len(),
                self@.scopes.len() == self.scopes@.len(),
                spec_find(self@.scopes, self@.level, identifier@) == spec_find(
                    self@.scopes.subrange(0, i as int),
                    self@.level,
                    identifier@,
                ),
            decreases i,
        {
            i = i - 1;
            proof {
                assert(self@.scopes.subrange(0, i + 1).subrange(0, i as int) =~= self@.scopes.subrange(
                    0,
                    i as int,
                ));
                assert(self@.scopes.subrange(0, i + 1)[i as int] == self@.scopes[i as int]);
            }
            let sc = &self.scopes[i];
            if sc.level <= self.current_level {
                match sc.get(identifier) {
                    Some(v) => {
                        return Some(v);
                    },
                    None => {},
                }
            }
        }
        proof {
            assert(spec_find(self@.scopes.subrange(0, 0), self@.level, identifier@)
                == None::<int>);
        }
        None
    }

    /// The value of an expression in the current state, exactly as
    /// [`spec_eval_expr`] describes.
    fn eval_expr(&self, item: &Ast) -> (r: Result<ConstValue, EvalError>)
        ensures
            (match r {
                Ok(v) => spec_eval_expr(self@, ast_view(*item)) == Ok::<int, EvalError>(cv_int(v)),
                Err(e) => spec_eval_expr(self@, ast_view(*item)) == Err::<int, EvalError>(e),
            }),
        decreases *item,
    {
        match item {
            Ast::Literal(lit) => {
                match &lit.lexeme {
                    Some(lx) => {
                        match literal_value(lx) {
                            Ok(n) => Ok(ConstValue::Number(n)),
                            Err(e) => Err(e),
                        }
                    },
                    None => Err(EvalError::InvalidNode),
                }
            },
            Ast::Binary(bin) => self.eval_binary_op(bin),
            Ast::Identifier(id) => {
                match &id.lexeme {
                    Some(lx) => {
                        match self.find_binding_value(lx) {
                            Some(v) => Ok(v),
                            None => Err(EvalError::UnresolvedIdentifier),
                        }
                    },
                    None => Err(EvalError::InvalidNode),
                }
            },
            _ => Err(EvalError::InvalidNode),
        }
    }

    /// The value of a binary operation: the right operand first, then the
    /// left, then the operator.
    fn eval_binary_op(&self, binary: &Binary) -> (r: Result<ConstValue, EvalError>)
        ensures
            (match r {
                Ok(v) => spec_eval_expr(
                    self@,
                    SpecAst::Binary {
                        op: binary.op@,
                        lhs: Box::new(ast_view(*binary.lhs)),
                        rhs: Box::new(ast_view(*binary.rhs)),
                    },
                ) == Ok::<int, EvalError>(cv_int(v)),
                Err(e) => spec_eval_expr(
                    self@,
                    SpecAst::Binary {
                        op: binary.op@,
                        lhs: Box::new(ast_view(*binary.lhs)),
                        rhs: Box::new(ast_view(*binary.rhs)),
                    },
                ) == Err::<int, EvalError>(e),
            }),
        decreases *binary,
    {
        let rhs = match self.eval_expr(&binary.rhs) {
            Ok(v) => v,
            Err(e) => {
                return Err(e);
            },
        };
        let lhs = match self.eval_expr(&binary.lhs) {
            Ok(v) => v,
            Err(e) => {
                return Err(e);
            },
        };
        match (lhs, rhs) {
            (ConstValue::Number(l), ConstValue::Number(r)) => self.eval_num_binary(
                binary.op.kind,
                l,
                r,
            ),
        }
    }

    /// One arithmetic operation on 32-bit numbers, exactly as
    /// [`spec_num_binary`] describes: trapping on overflow, division
    /// truncated towards zero, division by zero an error.
    fn eval_num_binary(&self, op: TokenKind, lhs: i32, rhs: i32) -> (r: Result<
        ConstValue,
        EvalError,
    >)
        ensures
            (match r {
                Ok(v) => spec_num_binary(op, lhs as int, rhs as int) == Ok::<int, EvalError>(
                    cv_int(v),
                ),
                Err(e) => spec_num_binary(op, lhs as int, rhs as int) == Err::<int, EvalError>(e),
            }),
    {
        if op == TokenKind::Plus {
            let v: i64 = lhs as i64 + rhs as i64;
            if v < -0x8000_0000i64 || v > 0x7fff_ffffi64 {
                Err(EvalError::Overflow)
            } else {
                Ok(ConstValue::Number(v as i32))
            }
        } else if op == TokenKind::Minus {
            let v: i64 = lhs as i64 - rhs as i64;
            if v < -0x8000_0000i64 || v > 0x7fff_ffffi64 {
                Err(EvalError::Overflow)
            } else {
                Ok(ConstValue::Number(v as i32))
            }
        } else if op == TokenKind::Star {
            proof {
                assert((lhs as int) * (rhs as int) <= 0x4000_0000_0000_0000int && (lhs as int) * (
                rhs as int) >= -0x4000_0000_0000_0000int) by (nonlinear_arith)
                    requires
                        -0x8000_0000 <= lhs as int <= 0x7fff_ffff,
                        -0x8000_0000 <= rhs as int <= 0x7fff_ffff,
                ;
            }
            let v: i64 = (lhs as i64) * (rhs as i64);
            if v < -0x8000_0000i64 || v > 0x7fff_ffffi64 {
                Err(EvalError::Overflow)
            } else {
                Ok(ConstValue::Number(v as i32))
            }
        } else if op == TokenKind::Slash {
            if rhs == 0 {
                Err(EvalError::DivisionByZero)
            } else if rhs == 1 {
                proof {
                    vstd::arithmetic::div_mod::lemma_div_basics(abs_int(lhs as int));
                    assert(div_trunc(lhs as int, 1) == lhs as int);
                }
                Ok(ConstValue::Number(lhs))
            } else if rhs == -1 {
                proof {
                    vstd::arithmetic::div_mod::lemma_div_basics(abs_int(lhs as int));
                    assert(div_trunc(lhs as int, -1) == -(lhs as int));
                }
                if lhs == -0x8000_0000i32 {
                    Err(EvalError::Overflow)
                } else {
                    Ok(ConstValue::Number(-lhs))
                }
            } else {
                let la: u64 = if lhs < 0 {
                    (-(lhs as i64)) as u64
                } else {
                    lhs as u64
                };
                let lb: u64 = if rhs < 0 {
                    (-(rhs as i64)) as u64
                } else {
                    rhs as u64
                };
                proof {
                    assert(la as int == abs_int(lhs as int));
                    assert(lb as int == abs_int(rhs as int));
                    assert(lb >= 2);
                }
                let q: u64 = la / lb;
                proof {
                    assert((la as int) / (lb as int) <= (la as int) / 2) by {
                        vstd::arithmetic::div_mod::lemma_div_is_ordered_by_denominator(
                            la as int,
                            2,
                            lb as int,
                        );
                    }
                }
                proof {
                    assert(q as int == abs_int(lhs as int) / abs_int(rhs as int));
                    assert(la <= 0x8000_0000u64);
                    assert(q <= 0x4000_0000u64);
                    assert(in_i32(div_trunc(lhs as int, rhs as int)));
                }
                let qi: i32 = q as i32;
                if (lhs < 0) != (rhs < 0) {
                    proof {
                        assert(div_trunc(lhs as int, rhs as int) == -(qi as int));
                    }
                    Ok(ConstValue::Number(-qi))
                } else {
                    proof {
                        assert(div_trunc(lhs as int, rhs as int) == qi as int);
                    }
                    Ok(ConstValue::Number(qi))
                }
            }
        } else {
            Err(EvalError::InvalidNode)
        }
    }
}

} // verus!
