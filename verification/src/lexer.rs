//! The lexer: scans a line of text left to right and produces the token
//! queue for the converter. A maximal run of decimal digits becomes one
//! `Number` token; each of `+ - * / ( )` becomes one token; every other
//! character is skipped silently. A digit run whose value does not fit in
//! the 32-bit token value is reported as `NumericOverflow`.
use vstd::prelude::*;
use vstd::std_specs::iter::IteratorSpec;
use std::collections::VecDeque;
use crate::token::{EvalError, Token, TokenKind};

verus! {

/// True exactly for the ten ASCII decimal digits.
pub open spec fn is_digit_char(c: char) -> bool {
    ||| c == '0'
    ||| c == '1'
    ||| c == '2'
    ||| c == '3'
    ||| c == '4'
    ||| c == '5'
    ||| c == '6'
    ||| c == '7'
    ||| c == '8'
    ||| c == '9'
}

/// The numeric value of a decimal digit character.
pub open spec fn digit_val(c: char) -> int {
    if c == '0' {
        0
    } else if c == '1' {
        1
    } else if c == '2' {
        2
    } else if c == '3' {
        3
    } else if c == '4' {
        4
    } else if c == '5' {
        5
    } else if c == '6' {
        6
    } else if c == '7' {
        7
    } else if c == '8' {
        8
    } else {
        9
    }
}

/// True exactly for the six characters that lex to an operator or
/// parenthesis token.
pub open spec fn is_sym_char(c: char) -> bool {
    ||| c == '+'
    ||| c == '-'
    ||| c == '*'
    ||| c == '/'
    ||| c == '('
    ||| c == ')'
}

/// The token kind of an operator or parenthesis character.
pub open spec fn sym_kind(c: char) -> TokenKind {
    if c == '+' {
        TokenKind::Plus
    } else if c == '-' {
        TokenKind::Minus
    } else if c == '*' {
        TokenKind::Times
    } else if c == '/' {
        TokenKind::Divide
    } else if c == '(' {
        TokenKind::LParen
    } else {
        TokenKind::RParen
    }
}

/// The token an operator or parenthesis character lexes to.
pub open spec fn sym_token(c: char) -> Token {
    Token { kind: sym_kind(c), value: None }
}

/// The token a digit run of value `v` lexes to.
pub open spec fn num_token(v: int) -> Token {
    Token { kind: TokenKind::Number, value: Some(v as i32) }
}

/// Appends the pending digit run, if any, to the accumulated tokens; a
/// pending value that does not fit in the 32-bit token value is the
/// overflow failure, reported as `None`.
pub open spec fn flush_pending(pending: Option<int>, acc: Seq<Token>) -> Option<Seq<Token>> {
    match pending {
        None => Some(acc),
        Some(v) => if 0 <= v && v <= i32::MAX as int {
            Some(acc.push(num_token(v)))
        } else {
            None
        },
    }
}

/// One left-to-right pass of the lexer over `s` from position `i`, carrying
/// the value of the digit run in progress (`pending`) and the tokens
/// already produced (`acc`). `None` is the numeric-overflow failure.
pub open spec fn lex_fold(s: Seq<char>, i: int, pending: Option<int>, acc: Seq<Token>) -> Option<
    Seq<Token>,
>
    decreases s.len() - i,
{
    if i >= s.len() {
        flush_pending(pending, acc)
    } else {
        let c = s[i];
        if is_digit_char(c) {
            let p = match pending {
                None => digit_val(c),
                Some(v) => v * 10 + digit_val(c),
            };
            lex_fold(s, i + 1, Some(p), acc)
        } else {
            match flush_pending(pending, acc) {
                None => None,
                Some(acc2) => if is_sym_char(c) {
                    lex_fold(s, i + 1, None, acc2.push(sym_token(c)))
                } else {
                    lex_fold(s, i + 1, None, acc2)
                },
            }
        }
    }
}

/// What lexing a character sequence yields: the token sequence in input
/// order, or `None` when some digit run overflows the token value width.
pub open spec fn lex_spec(s: Seq<char>) -> Option<Seq<Token>> {
    lex_fold(s, 0, None, Seq::empty())
}

/// Once the digit run in progress has overflowed, the whole lex fails:
/// the run only grows until it is flushed, and flushing it fails.
proof fn lemma_lex_fold_overflow(s: Seq<char>, i: int, p: int, acc: Seq<Token>)
    requires
        p > i32::MAX as int,
    ensures
        lex_fold(s, i, Some(p), acc) is None,
    decreases s.len() - i,
{
    if i >= s.len() {
    } else if is_digit_char(s[i]) {
        assert(p * 10 + digit_val(s[i]) >= p) by (nonlinear_arith)
            requires
                p > 0,
                digit_val(s[i]) >= 0,
        ;
        lemma_lex_fold_overflow(s, i + 1, p * 10 + digit_val(s[i]), acc);
    } else {
    }
}

/// The characters of a string, in order.
pub fn chars_of(s: &str) -> (r: Vec<char>)
    ensures
        r@ == s@,
{
    let mut it = s.chars();
    let mut v: Vec<char> = Vec::new();
    proof {
        assert(v@ + it.remaining() =~= s@);
    }
    loop
        invariant_except_break
            it.obeys_prophetic_iter_laws(),
            v@ + it.remaining() == s@,
        ensures
            v@ == s@,
        decreases s@.len() - v@.len(),
    {
        match it.next() {
            Some(c) => {
                proof {
                    assert(v@.push(c) + it.remaining() =~= s@);
                }
                v.push(c);
            },
            None => {
                proof {
                    assert(v@ =~= s@);
                }
                break ;
            },
        }
    }
    v
}

/// The numeric value of a digit character, for the lexer's accumulator.
fn digit_value(c: char) -> (d: i64)
    requires
        is_digit_char(c),
    ensures
        d as int == digit_val(c),
        0 <= d <= 9,
{
    if c == '0' {
        0
    } else if c == '1' {
        1
    } else if c == '2' {
        2
    } else if c == '3' {
        3
    } else if c == '4' {
        4
    } else if c == '5' {
        5
    } else if c == '6' {
        6
    } else if c == '7' {
        7
    } else if c == '8' {
        8
    } else {
        9
    }
}

/// True exactly for the ten ASCII decimal digits.
fn is_digit(c: char) -> (r: bool)
    ensures
        r == is_digit_char(c),
{
    c == '0' || c == '1' || c == '2' || c == '3' || c == '4' || c == '5' || c == '6' || c == '7'
        || c == '8' || c == '9'
}

/// Scans `input` left to right and returns its tokens in input order: each
/// maximal digit run as one `Number` token carrying its value, each of
/// `+ - * / ( )` as one token, every other character skipped. The only
/// failure is a digit run whose value exceeds the 32-bit token value.
pub fn lex(input: &String) -> (r: Result<VecDeque<Token>, EvalError>)
    ensures
        match r {
            Ok(q) => lex_spec(input@) == Some(q@),
            Err(e) => e == EvalError::NumericOverflow && lex_spec(input@) is None,
        },
{
    let ghost s = input@;
    let cs = chars_of(input.as_str());
    let mut q = VecDeque::<Token>::new();
    let mut i: usize = 0;
    while i < cs.len()
        invariant
            s == input@,
            cs@ == s,
            i <= s.len(),
            lex_fold(s, i as int, None, q@) == lex_spec(s),
        decreases s.len() - i,
    {
        let c = cs[i];
        if is_digit(c) {
            let ghost i0 = i as int;
            let mut v: i64 = digit_value(c);
            i = i + 1;
            assert(lex_fold(s, i as int, Some(v as int), q@) == lex_spec(s));
            while i < cs.len() && is_digit(cs[i])
                invariant
                    s == input@,
                    cs@ == s,
                    i0 < i <= s.len(),
                    0 <= v <= i32::MAX as i64,
                    lex_fold(s, i as int, Some(v as int), q@) == lex_spec(s),
                decreases s.len() - i,
            {
                let d = digit_value(cs[i]);
                let v2: i64 = v * 10 + d;
                if v2 > i32::MAX as i64 {
                    proof {
                        assert(lex_fold(s, i as int, Some(v as int), q@) == lex_fold(
                            s,
                            i + 1,
                            Some(v2 as int),
                            q@,
                        ));
                        lemma_lex_fold_overflow(s, i + 1, v2 as int, q@);
                    }
                    return Err(EvalError::NumericOverflow);
                }
                v = v2;
                i = i + 1;
            }
            let ghost q0 = q@;
            q.push_back(Token { kind: TokenKind::Number, value: Some(v as i32) });
            proof {
                assert(q@ == q0.push(num_token(v as int)));
                assert(lex_fold(s, i as int, None, q@) == lex_spec(s));
            }
        } else {
            if c == '+' {
                q.push_back(Token::new_kind(TokenKind::Plus));
            } else if c == '-' {
                q.push_back(Token::new_kind(TokenKind::Minus));
            } else if c == '*' {
                q.push_back(Token::new_kind(TokenKind::Times));
            } else if c == '/' {
                q.push_back(Token::new_kind(TokenKind::Divide));
            } else if c == '(' {
                q.push_back(Token::new_kind(TokenKind::LParen));
            } else if c == ')' {
                q.push_back(Token::new_kind(TokenKind::RParen));
            }
            i = i + 1;
        }
    }
    Ok(q)
}

/// The digit character of a single decimal digit value.
pub open spec fn digit_char(d: int) -> char {
    if d == 0 {
        '0'
    } else if d == 1 {
        '1'
    } else if d == 2 {
        '2'
    } else if d == 3 {
        '3'
    } else if d == 4 {
        '4'
    } else if d == 5 {
        '5'
    } else if d == 6 {
        '6'
    } else if d == 7 {
        '7'
    } else if d == 8 {
        '8'
    } else {
        '9'
    }
}

/// The decimal digit characters of `v`, most significant first, with no
/// leading zero.
pub open spec fn dec_digits(v: int) -> Seq<char>
    decreases v,
    via dec_digits_decreases
{
    if v < 10 {
        seq![digit_char(v)]
    } else {
        dec_digits(v / 10).push(digit_char(v % 10))
    }
}

#[via_fn]
proof fn dec_digits_decreases(v: int) {
    if v >= 10 {
        vstd::arithmetic::div_mod::lemma_div_decreases(v, 10);
        vstd::arithmetic::div_mod::lemma_div_pos_is_pos(v, 10);
    }
}

/// The textual form of a token: the decimal digits of a number's value, or
/// the operator or parenthesis character itself.
pub open spec fn token_text(t: Token) -> Seq<char> {
    match t.kind {
        TokenKind::Number => dec_digits(t.value.unwrap() as int),
        TokenKind::Plus => seq!['+'],
        TokenKind::Minus => seq!['-'],
        TokenKind::Times => seq!['*'],
        TokenKind::Divide => seq!['/'],
        TokenKind::LParen => seq!['('],
        TokenKind::RParen => seq![')'],
    }
}

/// The concatenated textual forms of a token sequence.
pub open spec fn token_texts(ts: Seq<Token>) -> Seq<char>
    decreases ts.len(),
{
    if ts.len() == 0 {
        Seq::empty()
    } else {
        token_text(ts[0]) + token_texts(ts.drop_first())
    }
}

/// A character the lexer keeps: a digit or one of the six symbols.
pub open spec fn kept_char(c: char) -> bool {
    is_digit_char(c) || is_sym_char(c)
}

/// `s` from position `i` on, with every character the lexer skips removed.
pub open spec fn normalized_from(s: Seq<char>, i: int) -> Seq<char>
    decreases s.len() - i,
{
    if i >= s.len() {
        Seq::empty()
    } else if kept_char(s[i]) {
        seq![s[i]] + normalized_from(s, i + 1)
    } else {
        normalized_from(s, i + 1)
    }
}

/// `s` with every character the lexer skips removed.
pub open spec fn normalized(s: Seq<char>) -> Seq<char> {
    normalized_from(s, 0)
}

/// No digit run of two or more digits starts with a zero — the one shape
/// of input whose number tokens print shorter than their source text.
pub open spec fn no_leading_zeros(s: Seq<char>) -> bool {
    forall|i: int|
        0 <= i < s.len() - 1 && is_digit_char(#[trigger] s[i]) && is_digit_char(s[i + 1]) && (i
            == 0 || !is_digit_char(s[i - 1])) ==> s[i] != '0'
}

/// The text still owed by the digit run in progress.
spec fn pending_text(pending: Option<int>) -> Seq<char> {
    match pending {
        None => Seq::empty(),
        Some(v) => dec_digits(v),
    }
}

/// What the induction below knows of the digit run in progress: a pending
/// zero is a complete run (no digit follows), and no run is pending right
/// at a run start.
spec fn pending_ok(s: Seq<char>, i: int, pending: Option<int>) -> bool {
    match pending {
        None => i == 0 || !is_digit_char(s[i - 1]),
        Some(v) => v >= 0 && (v == 0 ==> (i == s.len() || !is_digit_char(s[i]))),
    }
}

/// Appending one decimal digit to a nonzero number appends its character.
proof fn lemma_dec_digits_step(v: int, d: int)
    requires
        1 <= v,
        0 <= d <= 9,
    ensures
        dec_digits(10 * v + d) == dec_digits(v) + seq![digit_char(d)],
{
    let x: int = 10 * v + d;
    vstd::arithmetic::div_mod::lemma_fundamental_div_mod_converse(x, 10, v, d);
    assert(x / 10 == v);
    assert(x % 10 == d);
    assert(dec_digits(v).push(digit_char(d)) =~= dec_digits(v) + seq![digit_char(d)]);
}

/// Texts distribute over appending one token.
proof fn lemma_texts_push(ts: Seq<Token>, t: Token)
    ensures
        token_texts(ts.push(t)) == token_texts(ts) + token_text(t),
    decreases ts.len(),
{
    assert(ts.push(t).len() > 0);
    assert(token_texts(ts.push(t)) == token_text(ts.push(t)[0]) + token_texts(
        ts.push(t).drop_first(),
    ));
    if ts.len() == 0 {
        assert(ts.push(t)[0] == t);
        assert(ts.push(t).drop_first() =~= Seq::<Token>::empty());
        assert(token_texts(Seq::<Token>::empty()) == Seq::<char>::empty());
        assert(token_texts(ts) == Seq::<char>::empty());
        assert(token_text(t) + Seq::<char>::empty() =~= token_text(t));
        assert(Seq::<char>::empty() + token_text(t) =~= token_text(t));
    } else {
        assert(ts.push(t)[0] == ts[0]);
        assert(token_texts(ts) == token_text(ts[0]) + token_texts(ts.drop_first()));
        assert(ts.push(t).drop_first() =~= ts.drop_first().push(t));
        lemma_texts_push(ts.drop_first(), t);
        assert(token_text(ts[0]) + (token_texts(ts.drop_first()) + token_text(t)) =~= (token_text(
            ts[0],
        ) + token_texts(ts.drop_first())) + token_text(t));
    }
}

/// The induction behind the round-trip law: the text of what the lexer
/// will produce is the text already produced, then the run in progress,
/// then the kept characters of the unread input.
proof fn lemma_lex_fold_text(
    s: Seq<char>,
    i: int,
    pending: Option<int>,
    acc: Seq<Token>,
    ts: Seq<Token>,
)
    requires
        0 <= i <= s.len(),
        lex_fold(s, i, pending, acc) == Some(ts),
        no_leading_zeros(s),
        pending_ok(s, i, pending),
    ensures
        token_texts(ts) == token_texts(acc) + pending_text(pending) + normalized_from(s, i),
    decreases s.len() - i,
{
    if i >= s.len() {
        match pending {
            None => {
                assert(token_texts(acc) + Seq::<char>::empty() + Seq::<char>::empty()
                    =~= token_texts(acc));
            },
            Some(v) => {
                assert(0 <= v && v <= i32::MAX as int);
                lemma_texts_push(acc, num_token(v));
                assert(token_text(num_token(v)) == dec_digits(v));
                assert(token_texts(acc) + dec_digits(v) + Seq::<char>::empty() =~= token_texts(acc)
                    + dec_digits(v));
            },
        }
    } else if is_digit_char(s[i]) {
        let c = s[i];
        let d: int = digit_val(c);
        match pending {
            None => {
                assert(d == 0 ==> (i + 1 == s.len() || !is_digit_char(s[i + 1]))) by {
                    if d == 0 && i + 1 < s.len() && is_digit_char(s[i + 1]) {
                        assert(s[i] == '0');
                        assert(false);
                    }
                }
                lemma_lex_fold_text(s, i + 1, Some(d), acc, ts);
                assert(dec_digits(d) =~= seq![c]);
                assert(token_texts(acc) + seq![c] + normalized_from(s, i + 1) =~= token_texts(acc)
                    + Seq::<char>::empty() + (seq![c] + normalized_from(s, i + 1)));
            },
            Some(v) => {
                assert(v >= 1);
                let p: int = v * 10 + d;
                assert(p == 0 ==> (i + 1 == s.len() || !is_digit_char(s[i + 1])));
                lemma_lex_fold_text(s, i + 1, Some(p), acc, ts);
                lemma_dec_digits_step(v, d);
                assert(digit_char(d) == c);
                assert(token_texts(acc) + (dec_digits(v) + seq![c]) + normalized_from(s, i + 1)
                    =~= token_texts(acc) + dec_digits(v) + (seq![c] + normalized_from(s, i + 1)));
            },
        }
    } else {
        let c = s[i];
        let acc2 = flush_pending(pending, acc).unwrap();
        match pending {
            None => {
                assert(acc2 == acc);
            },
            Some(v) => {
                assert(0 <= v && v <= i32::MAX as int);
                lemma_texts_push(acc, num_token(v));
                assert(token_texts(acc2) == token_texts(acc) + dec_digits(v));
            },
        }
        assert(token_texts(acc2) == token_texts(acc) + pending_text(pending));
        if is_sym_char(c) {
            lemma_texts_push(acc2, sym_token(c));
            assert(token_text(sym_token(c)) =~= seq![c]);
            lemma_lex_fold_text(s, i + 1, None, acc2.push(sym_token(c)), ts);
            assert(token_texts(acc2) + seq![c] + normalized_from(s, i + 1) =~= token_texts(acc)
                + pending_text(pending) + (seq![c] + normalized_from(s, i + 1)));
        } else {
            lemma_lex_fold_text(s, i + 1, None, acc2, ts);
            assert(token_texts(acc2) + Seq::<char>::empty() + normalized_from(s, i + 1)
                =~= token_texts(acc) + pending_text(pending) + normalized_from(s, i + 1));
        }
    }
}

/// Law: concatenating the textual forms of the tokens the lexer produces
/// reproduces the input text with whitespace and every other unrecognized
/// character removed — for inputs in which no digit run of two or more
/// digits starts with a zero, since a number token prints without leading
/// zeros.
pub proof fn lemma_lex_preserves_text(s: Seq<char>, ts: Seq<Token>)
    requires
        lex_spec(s) == Some(ts),
        no_leading_zeros(s),
    ensures
        token_texts(ts) == normalized(s),
{
    lemma_lex_fold_text(s, 0, None, Seq::empty(), ts);
    assert(token_texts(Seq::empty()) + Seq::<char>::empty() + normalized_from(s, 0)
        =~= normalized_from(s, 0));
}

} // verus!
