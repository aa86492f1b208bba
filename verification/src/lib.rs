//! An arithmetic expression evaluator: a lexer turns a line of text into a
//! token queue, a shunting-yard converter turns that queue into postfix
//! (reverse Polish) order, and a stack evaluator reduces the postfix queue to
//! a single integer. Every fatal condition (unbalanced parentheses, division
//! by zero, stack underflow, numeric overflow) is surfaced as an explicit
//! error value instead of aborting.
use vstd::prelude::*;

pub mod lexer;
pub mod matrix;
pub mod rpn;
pub mod shunting;
pub mod token;

use crate::lexer::{digit_val, flush_pending, is_digit_char, is_sym_char, lex, lex_fold, lex_spec,
    num_token, sym_token};
use crate::rpn::{evaluate_rpn, lemma_rpn_wf_concat, rpn_spec, rpn_wf};
use crate::shunting::{drain_ops, flush_ops, shunting_yard, sy_fold, sy_spec, until_lparen};
use crate::token::{lemma_nums_push, nums_have_values, spec_is_op, spec_precedence, EvalError,
    Token};

verus! {

/// What evaluating a line of text yields: the value of the expression, or
/// the error kind of the first fatal condition that the pipeline meets —
/// `NumericOverflow` from the lexer, `UnbalancedParens` from the converter,
/// or the evaluator's own error.
pub open spec fn evaluate_spec(s: Seq<char>) -> Result<i32, EvalError> {
    match lex_spec(s) {
        None => Err(EvalError::NumericOverflow),
        Some(ts) => match sy_spec(ts) {
            None => Err(EvalError::UnbalancedParens),
            Some(r) => rpn_spec(r),
        },
    }
}

/// Every `Number` token the lexer accumulates or emits carries a value.
proof fn lemma_lex_fold_nums(
    s: Seq<char>,
    i: int,
    pending: Option<int>,
    acc: Seq<Token>,
    ts: Seq<Token>,
)
    requires
        lex_fold(s, i, pending, acc) == Some(ts),
        nums_have_values(acc),
    ensures
        nums_have_values(ts),
    decreases s.len() - i,
{
    if i >= s.len() {
        match pending {
            None => {
            },
            Some(v) => {
                lemma_nums_push(acc, num_token(v));
            },
        }
    } else if is_digit_char(s[i]) {
        let p: int = match pending {
            None => digit_val(s[i]),
            Some(v) => v * 10 + digit_val(s[i]),
        };
        lemma_lex_fold_nums(s, i + 1, Some(p), acc, ts);
    } else {
        match flush_pending(pending, acc) {
            None => {
            },
            Some(acc2) => {
                match pending {
                    None => {
                    },
                    Some(v) => {
                        lemma_nums_push(acc, num_token(v));
                    },
                }
                if is_sym_char(s[i]) {
                    lemma_nums_push(acc2, sym_token(s[i]));
                    lemma_lex_fold_nums(s, i + 1, None, acc2.push(sym_token(s[i])), ts);
                } else {
                    lemma_lex_fold_nums(s, i + 1, None, acc2, ts);
                }
            },
        }
    }
}

/// A stack the converter can hold: operators and left parentheses only.
spec fn ops_stack_wf(ops: Seq<Token>) -> bool {
    forall|i: int|
        0 <= i < ops.len() ==> spec_is_op((#[trigger] ops[i]).kind) || ops[i].kind is LParen
}

/// Dropping the top of a well-formed operator stack leaves one.
proof fn lemma_ops_wf_drop_last(ops: Seq<Token>)
    requires
        ops_stack_wf(ops),
        ops.len() > 0,
    ensures
        ops_stack_wf(ops.drop_last()),
{
    assert forall|i: int|
        0 <= i < ops.drop_last().len() implies spec_is_op((#[trigger] ops.drop_last()[i]).kind)
        || ops.drop_last()[i].kind is LParen by {
        assert(ops.drop_last()[i] == ops[i]);
    }
}

/// An operator token alone is a queue the evaluator accepts.
proof fn lemma_single_op_wf(t: Token)
    requires
        spec_is_op(t.kind),
    ensures
        rpn_wf(seq![t]),
{
    assert(seq![t][0] == t);
}

/// What an incoming operator flushes is all operators, and what it leaves
/// is still a well-formed stack.
proof fn lemma_flush_ops_wf(ops: Seq<Token>, p: int)
    requires
        ops_stack_wf(ops),
    ensures
        rpn_wf(flush_ops(ops, p).0),
        ops_stack_wf(flush_ops(ops, p).1),
    decreases ops.len(),
{
    if ops.len() > 0 && spec_is_op(ops.last().kind) && spec_precedence(ops.last().kind) <= p {
        lemma_ops_wf_drop_last(ops);
        lemma_flush_ops_wf(ops.drop_last(), p);
        lemma_single_op_wf(ops.last());
        lemma_rpn_wf_concat(seq![ops.last()], flush_ops(ops.drop_last(), p).0);
    } else {
        assert(rpn_wf(Seq::<Token>::empty()));
    }
}

/// What a right parenthesis pops is all operators, and what it leaves
/// below the discarded left parenthesis is still a well-formed stack.
proof fn lemma_until_lparen_wf(ops: Seq<Token>)
    requires
        ops_stack_wf(ops),
    ensures
        match until_lparen(ops) {
            None => true,
            Some(r) => rpn_wf(r.0) && ops_stack_wf(r.1),
        },
    decreases ops.len(),
{
    if ops.len() == 0 {
    } else if ops.last().kind is LParen {
        lemma_ops_wf_drop_last(ops);
        assert(rpn_wf(Seq::<Token>::empty()));
    } else {
        lemma_ops_wf_drop_last(ops);
        lemma_until_lparen_wf(ops.drop_last());
        match until_lparen(ops.drop_last()) {
            None => {
            },
            Some(r) => {
                lemma_single_op_wf(ops.last());
                lemma_rpn_wf_concat(seq![ops.last()], r.0);
            },
        }
    }
}

/// What the final drain emits, when it succeeds, is all operators.
proof fn lemma_drain_ops_wf(ops: Seq<Token>)
    requires
        ops_stack_wf(ops),
    ensures
        match drain_ops(ops) {
            None => true,
            Some(d) => rpn_wf(d),
        },
    decreases ops.len(),
{
    if ops.len() == 0 {
        assert(rpn_wf(Seq::<Token>::empty()));
    } else if ops.last().kind is LParen {
    } else {
        lemma_ops_wf_drop_last(ops);
        lemma_drain_ops_wf(ops.drop_last());
        match drain_ops(ops.drop_last()) {
            None => {
            },
            Some(r) => {
                lemma_single_op_wf(ops.last());
                lemma_rpn_wf_concat(seq![ops.last()], r);
            },
        }
    }
}

/// The converter, run on tokens whose numbers carry values, yields a queue
/// the evaluator accepts: numbers still carry their values, and everything
/// else in the output is an operator.
proof fn lemma_sy_fold_wf(rest: Seq<Token>, ops: Seq<Token>, out: Seq<Token>)
    requires
        nums_have_values(rest),
        ops_stack_wf(ops),
        rpn_wf(out),
        sy_fold(rest, ops, out) is Some,
    ensures
        rpn_wf(sy_fold(rest, ops, out).unwrap()),
    decreases rest.len(),
{
    if rest.len() == 0 {
        lemma_drain_ops_wf(ops);
        match drain_ops(ops) {
            None => {
            },
            Some(d) => {
                lemma_rpn_wf_concat(out, d);
            },
        }
    } else {
        let t = rest[0];
        assert forall|i: int|
            0 <= i < rest.drop_first().len() && (#[trigger] rest.drop_first()[i]).kind
                is Number implies rest.drop_first()[i].value is Some by {
            assert(rest.drop_first()[i] == rest[i + 1]);
        }
        if t.kind is Number {
            assert(t.value is Some);
            assert forall|i: int|
                0 <= i < out.push(t).len() implies spec_is_op(#[trigger] out.push(t)[i].kind) || (
            out.push(t)[i].kind is Number && out.push(t)[i].value is Some) by {
                if i < out.len() {
                    assert(out.push(t)[i] == out[i]);
                } else {
                    assert(out.push(t)[i] == t);
                }
            }
            lemma_sy_fold_wf(rest.drop_first(), ops, out.push(t));
        } else if spec_is_op(t.kind) {
            lemma_flush_ops_wf(ops, spec_precedence(t.kind));
            let fr = flush_ops(ops, spec_precedence(t.kind));
            assert forall|i: int|
                0 <= i < fr.1.push(t).len() implies spec_is_op((#[trigger] fr.1.push(t)[i]).kind)
                || fr.1.push(t)[i].kind is LParen by {
                if i < fr.1.len() {
                    assert(fr.1.push(t)[i] == fr.1[i]);
                } else {
                    assert(fr.1.push(t)[i] == t);
                }
            }
            lemma_rpn_wf_concat(out, fr.0);
            lemma_sy_fold_wf(rest.drop_first(), fr.1.push(t), out + fr.0);
        } else if t.kind is LParen {
            assert forall|i: int|
                0 <= i < ops.push(t).len() implies spec_is_op((#[trigger] ops.push(t)[i]).kind)
                || ops.push(t)[i].kind is LParen by {
                if i < ops.len() {
                    assert(ops.push(t)[i] == ops[i]);
                } else {
                    assert(ops.push(t)[i] == t);
                }
            }
            lemma_sy_fold_wf(rest.drop_first(), ops.push(t), out);
        } else {
            lemma_until_lparen_wf(ops);
            match until_lparen(ops) {
                None => {
                },
                Some(r) => {
                    lemma_rpn_wf_concat(out, r.0);
                    lemma_sy_fold_wf(rest.drop_first(), r.1, out + r.0);
                },
            }
        }
    }
}

/// Evaluates one line of text: lexes it, converts the tokens to postfix,
/// and reduces the postfix queue to a single integer. Returns the value of
/// the expression, or the error kind of the first fatal condition met.
pub fn evaluate(input: &String) -> (r: Result<i32, EvalError>)
    ensures
        r == evaluate_spec(input@),
{
    let mut q = match lex(input) {
        Ok(q) => q,
        Err(e) => {
            return Err(e);
        },
    };
    let ghost ts = q@;
    let mut rpn = match shunting_yard(&mut q) {
        Ok(r) => r,
        Err(e) => {
            return Err(e);
        },
    };
    proof {
        lemma_lex_fold_nums(input@, 0, None, Seq::empty(), ts);
        lemma_sy_fold_wf(ts, Seq::empty(), Seq::empty());
    }
    evaluate_rpn(&mut rpn)
}

} // verus!
