//! The token model shared by the whole pipeline: the closed set of token
//! kinds, the token itself (a kind plus an optional numeric value), and the
//! error type that every fatal condition of the pipeline is reported through.
use vstd::prelude::*;

verus! {

/// The kind of a lexical unit: a number, one of the four arithmetic
/// operators, or a parenthesis.
#[derive(Clone, Copy, Debug, PartialEq, Eq, Structural)]
pub enum TokenKind {
    Plus,
    Minus,
    Times,
    Number,
    Divide,
    RParen,
    LParen,
}

/// One lexical unit. `value` is populated exactly for `Number` tokens;
/// tokens are never mutated after the lexer creates them.
#[derive(Clone, Copy, Debug, PartialEq, Eq)]
pub struct Token {
    pub kind: TokenKind,
    pub value: Option<i32>,
}

/// The single error type of the pipeline: every fatal condition of the
/// evaluator is reported as one of these kinds instead of aborting.
#[derive(Clone, Copy, Debug, PartialEq, Eq, Structural)]
pub enum EvalError {
    UnbalancedParens,
    DivisionByZero,
    StackUnderflow,
    NumericOverflow,
}

/// Precedence rank of a kind: parentheses rank 1, multiplicative operators
/// rank 2, additive operators rank 4; a lower rank binds tighter in the
/// comparisons the converter makes. `Number` has no rank and gets 0.
pub open spec fn spec_precedence(k: TokenKind) -> int {
    match k {
        TokenKind::RParen | TokenKind::LParen => 1,
        TokenKind::Times | TokenKind::Divide => 2,
        TokenKind::Plus | TokenKind::Minus => 4,
        TokenKind::Number => 0,
    }
}

/// True exactly for the four arithmetic operator kinds.
pub open spec fn spec_is_op(k: TokenKind) -> bool {
    match k {
        TokenKind::Plus | TokenKind::Minus | TokenKind::Times | TokenKind::Divide => true,
        _ => false,
    }
}

/// Every `Number` token of the sequence carries a value. The lexer only
/// makes such tokens, and the converter needs no more than that of its
/// input.
pub open spec fn nums_have_values(ts: Seq<Token>) -> bool {
    forall|i: int|
        0 <= i < ts.len() && (#[trigger] ts[i]).kind is Number ==> ts[i].value is Some
}

/// A token appended to a sequence of valued numbers keeps it one, provided
/// it carries a value when it is a number.
pub proof fn lemma_nums_push(ts: Seq<Token>, t: Token)
    requires
        nums_have_values(ts),
        t.kind is Number ==> t.value is Some,
    ensures
        nums_have_values(ts.push(t)),
{
    assert forall|i: int|
        0 <= i < ts.push(t).len() && (#[trigger] ts.push(t)[i]).kind is Number implies ts.push(
        t,
    )[i].value is Some by {
        if i < ts.len() {
            assert(ts.push(t)[i] == ts[i]);
        } else {
            assert(ts.push(t)[i] == t);
        }
    }
}

impl TokenKind {
    /// The integer precedence rank used by the shunting-yard comparisons.
    pub fn precedence(&self) -> (r: i32)
        ensures
            r as int == spec_precedence(*self),
    {
        match self {
            TokenKind::RParen | TokenKind::LParen => 1,
            TokenKind::Times | TokenKind::Divide => 2,
            TokenKind::Plus | TokenKind::Minus => 4,
            TokenKind::Number => 0,
        }
    }
}

impl Token {
    /// A token with the given kind and optional value.
    pub fn new(kind: TokenKind, value: Option<i32>) -> (t: Token)
        ensures
            t.kind == kind,
            t.value == value,
    {
        Token { kind, value }
    }

    /// A token with the given kind and no value.
    pub fn new_kind(kind: TokenKind) -> (t: Token)
        ensures
            t.kind == kind,
            t.value is None,
    {
        Token::new(kind, None)
    }

    /// True exactly when this token is one of the four arithmetic operators.
    pub fn is_op(&self) -> (r: bool)
        ensures
            r == spec_is_op(self.kind),
    {
        match self.kind {
            TokenKind::Plus | TokenKind::Minus => true,
            TokenKind::Times | TokenKind::Divide => true,
            _ => false,
        }
    }
}

} // verus!
