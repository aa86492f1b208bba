//! The shunting-yard converter: consumes the lexer's token queue from the
//! front and produces the same tokens in postfix (reverse Polish) order,
//! using an internal operator stack. An operator flushes every stacked
//! operator whose precedence rank is less than or equal to its own before
//! it is pushed, which makes operators of equal rank group left to right.
//! A right parenthesis pops operators until the matching left parenthesis;
//! a parenthesis left unmatched either way is `UnbalancedParens`.
use vstd::prelude::*;
use std::collections::VecDeque;
use crate::token::{spec_is_op, spec_precedence, EvalError, Token, TokenKind};

verus! {

/// Splits the operator stack at an incoming operator of rank `p`: the first
/// component holds the operators popped into the output (topmost first) —
/// every stacked operator, counted from the top, whose rank is at most `p` —
/// and the second holds what remains on the stack.
pub open spec fn flush_ops(ops: Seq<Token>, p: int) -> (Seq<Token>, Seq<Token>)
    decreases ops.len(),
{
    if ops.len() > 0 && spec_is_op(ops.last().kind) && spec_precedence(ops.last().kind) <= p {
        let r = flush_ops(ops.drop_last(), p);
        (seq![ops.last()] + r.0, r.1)
    } else {
        (Seq::empty(), ops)
    }
}

/// Pops the operator stack down to its topmost left parenthesis: the first
/// component holds the popped operators (topmost first), the second what
/// remains below the discarded parenthesis. `None` when no left parenthesis
/// is on the stack — an unmatched right parenthesis.
pub open spec fn until_lparen(ops: Seq<Token>) -> Option<(Seq<Token>, Seq<Token>)>
    decreases ops.len(),
{
    if ops.len() == 0 {
        None
    } else if ops.last().kind is LParen {
        Some((Seq::empty(), ops.drop_last()))
    } else {
        match until_lparen(ops.drop_last()) {
            None => None,
            Some(r) => Some((seq![ops.last()] + r.0, r.1)),
        }
    }
}

/// Drains the operator stack at the end of the input, topmost first. A left
/// parenthesis still on the stack was never closed: `None`.
pub open spec fn drain_ops(ops: Seq<Token>) -> Option<Seq<Token>>
    decreases ops.len(),
{
    if ops.len() == 0 {
        Some(Seq::empty())
    } else if ops.last().kind is LParen {
        None
    } else {
        match drain_ops(ops.drop_last()) {
            None => None,
            Some(r) => Some(seq![ops.last()] + r),
        }
    }
}

/// One step-by-step run of the converter: `rest` is the unread input,
/// `ops` the operator stack (top at the end), `out` the postfix output so
/// far. `None` is the unbalanced-parentheses failure.
pub open spec fn sy_fold(rest: Seq<Token>, ops: Seq<Token>, out: Seq<Token>) -> Option<Seq<Token>>
    decreases rest.len(),
{
    if rest.len() == 0 {
        match drain_ops(ops) {
            None => None,
            Some(d) => Some(out + d),
        }
    } else {
        let t = rest[0];
        if t.kind is Number {
            sy_fold(rest.drop_first(), ops, out.push(t))
        } else if spec_is_op(t.kind) {
            let fr = flush_ops(ops, spec_precedence(t.kind));
            sy_fold(rest.drop_first(), fr.1.push(t), out + fr.0)
        } else if t.kind is LParen {
            sy_fold(rest.drop_first(), ops.push(t), out)
        } else {
            match until_lparen(ops) {
                None => None,
                Some(r) => sy_fold(rest.drop_first(), r.1, out + r.0),
            }
        }
    }
}

/// What converting a token sequence to postfix yields, or `None` when a
/// parenthesis is unmatched on either side.
pub open spec fn sy_spec(ts: Seq<Token>) -> Option<Seq<Token>> {
    sy_fold(ts, Seq::empty(), Seq::empty())
}

/// Law: the conversion to postfix is deterministic and side-effect-free on
/// its logical input — it is a function of the token sequence alone, so two
/// runs on equal (fresh) sequences yield the same postfix order.
pub proof fn lemma_to_postfix_deterministic(a: Seq<Token>, b: Seq<Token>)
    requires
        a == b,
    ensures
        sy_spec(a) == sy_spec(b),
{
}

/// Consumes `q` from the front and returns its tokens in postfix order:
/// numbers keep their relative order, and each operator follows its
/// operands, placed by the precedence-and-left-associativity rule of
/// `sy_spec`. The input queue is emptied. The only failure is an unmatched
/// parenthesis on either side.
pub fn shunting_yard(q: &mut VecDeque<Token>) -> (r: Result<VecDeque<Token>, EvalError>)
    ensures
        final(q)@.len() == 0,
        match r {
            Ok(rpn) => sy_spec(old(q)@) == Some(rpn@),
            Err(e) => e == EvalError::UnbalancedParens && sy_spec(old(q)@) is None,
        },
{
    let ghost inp = q@;
    let ghost goal = sy_spec(inp);
    let mut rpn = VecDeque::<Token>::new();
    let mut op = VecDeque::<Token>::new();
    while q.len() > 0
        invariant
            inp == old(q)@,
            goal == sy_spec(inp),
            sy_fold(q@, op@, rpn@) == goal,
        decreases q@.len(),
    {
        let ghost qb = q@;
        let token = q.pop_front().unwrap();
        proof {
            assert(q@ =~= qb.drop_first());
        }
        if token.kind == TokenKind::Number {
            rpn.push_back(token);
        } else if token.is_op() {
            let p = token.kind.precedence();
            proof {
                assert(sy_fold(qb, op@, rpn@) == sy_fold(
                    q@,
                    flush_ops(op@, p as int).1.push(token),
                    rpn@ + flush_ops(op@, p as int).0,
                ));
            }
            while op.len() > 0 && op[op.len() - 1].is_op() && op[op.len() - 1].kind.precedence()
                <= p
                invariant
                    sy_fold(q@, flush_ops(op@, p as int).1.push(token), rpn@ + flush_ops(
                        op@,
                        p as int,
                    ).0) == goal,
                decreases op@.len(),
            {
                let ghost opb = op@;
                let ghost rpnb = rpn@;
                let top = op.pop_back().unwrap();
                rpn.push_back(top);
                proof {
                    assert(op@ =~= opb.drop_last());
                    let fr = flush_ops(op@, p as int);
                    assert(flush_ops(opb, p as int).0 == seq![top] + fr.0);
                    assert(rpnb.push(top) + fr.0 =~= rpnb + (seq![top] + fr.0));
                }
            }
            proof {
                assert(flush_ops(op@, p as int) == (Seq::<Token>::empty(), op@));
                assert(rpn@ + Seq::<Token>::empty() =~= rpn@);
            }
            op.push_back(token);
        } else if token.kind == TokenKind::LParen {
            op.push_back(token);
        } else {
            while op.len() > 0 && !(op[op.len() - 1].kind == TokenKind::LParen)
                invariant
                    inp == old(q)@,
                    goal == sy_spec(inp),
                    (match until_lparen(op@) {
                        None => None,
                        Some(r) => sy_fold(q@, r.1, rpn@ + r.0),
                    }) == goal,
                decreases op@.len(),
            {
                let ghost opb = op@;
                let ghost rpnb = rpn@;
                let top = op.pop_back().unwrap();
                rpn.push_back(top);
                proof {
                    assert(op@ =~= opb.drop_last());
                    if let Some(r) = until_lparen(op@) {
                        assert(until_lparen(opb) == Some((seq![top] + r.0, r.1)));
                        assert(rpnb.push(top) + r.0 =~= rpnb + (seq![top] + r.0));
                    }
                }
            }
            if op.len() == 0 {
                proof {
                    assert(until_lparen(op@) is None);
                    assert(goal is None);
                }
                q.clear();
                return Err(EvalError::UnbalancedParens);
            }
            let ghost opb = op@;
            op.pop_back();
            proof {
                assert(op@ =~= opb.drop_last());
                assert(until_lparen(opb) == Some((Seq::<Token>::empty(), op@)));
                assert(rpn@ + Seq::<Token>::empty() =~= rpn@);
            }
        }
    }
    while op.len() > 0
        invariant
            inp == old(q)@,
            goal == sy_spec(inp),
            q@.len() == 0,
            (match drain_ops(op@) {
                None => None,
                Some(d) => Some(rpn@ + d),
            }) == goal,
        decreases op@.len(),
    {
        let top = op[op.len() - 1];
        if top.kind == TokenKind::LParen {
            proof {
                assert(op@.last().kind is LParen);
                assert(drain_ops(op@) is None);
                assert(goal is None);
            }
            return Err(EvalError::UnbalancedParens);
        }
        let ghost opb = op@;
        let ghost rpnb = rpn@;
        let popped = op.pop_back().unwrap();
        rpn.push_back(popped);
        proof {
            assert(op@ =~= opb.drop_last());
            if let Some(r) = drain_ops(op@) {
                assert(drain_ops(opb) == Some(seq![popped] + r));
                assert(rpnb.push(popped) + r =~= rpnb + (seq![popped] + r));
            }
        }
    }
    proof {
        assert(rpn@ + Seq::<Token>::empty() =~= rpn@);
    }
    Ok(rpn)
}

} // verus!
