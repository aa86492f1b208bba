//! The postfix (reverse Polish) evaluator: consumes the converter's output
//! queue from the front, pushing numbers on a value stack and reducing each
//! operator against the two topmost values — the deeper one is the left
//! operand, so non-commutative operators apply in source order. Division is
//! truncating integer division; dividing by zero, running out of operands,
//! and a result outside the 32-bit range are the fatal conditions, each
//! reported as its error kind.
use vstd::prelude::*;
use std::collections::VecDeque;
use crate::token::{spec_is_op, EvalError, Token, TokenKind};

verus! {

/// A postfix queue the evaluator accepts: every token is an operator or a
/// number carrying its value.
pub open spec fn rpn_wf(ts: Seq<Token>) -> bool {
    forall|i: int|
        0 <= i < ts.len() ==> spec_is_op(#[trigger] ts[i].kind) || (ts[i].kind is Number
            && ts[i].value is Some)
}

/// Concatenating two queues the evaluator accepts yields one it accepts.
pub proof fn lemma_rpn_wf_concat(a: Seq<Token>, b: Seq<Token>)
    requires
        rpn_wf(a),
        rpn_wf(b),
    ensures
        rpn_wf(a + b),
{
    assert forall|i: int|
        0 <= i < (a + b).len() implies spec_is_op(#[trigger] (a + b)[i].kind) || ((a + b)[i].kind
        is Number && (a + b)[i].value is Some) by {
        if i < a.len() {
            assert((a + b)[i] == a[i]);
        } else {
            assert((a + b)[i] == b[i - a.len()]);
        }
    }
}

/// The magnitude of an integer.
pub open spec fn abs_int(a: int) -> int {
    if a >= 0 {
        a
    } else {
        -a
    }
}

/// Integer division truncated toward zero, as the evaluator divides.
pub open spec fn trunc_div(a: int, b: int) -> int {
    if (a >= 0) == (b >= 0) {
        abs_int(a) / abs_int(b)
    } else {
        -(abs_int(a) / abs_int(b))
    }
}

/// True when `v` fits the 32-bit value a token carries.
pub open spec fn fits_i32(v: int) -> bool {
    i32::MIN as int <= v && v <= i32::MAX as int
}

/// What one operator does to its left operand `a` and right operand `b`:
/// the arithmetic result when it fits, `DivisionByZero` for a zero right
/// operand of a division, `NumericOverflow` for a result out of range.
pub open spec fn apply_op(k: TokenKind, a: i32, b: i32) -> Result<i32, EvalError> {
    match k {
        TokenKind::Plus => if fits_i32(a + b) {
            Ok((a + b) as i32)
        } else {
            Err(EvalError::NumericOverflow)
        },
        TokenKind::Minus => if fits_i32(a - b) {
            Ok((a - b) as i32)
        } else {
            Err(EvalError::NumericOverflow)
        },
        TokenKind::Times => if fits_i32(a * b) {
            Ok((a * b) as i32)
        } else {
            Err(EvalError::NumericOverflow)
        },
        TokenKind::Divide => if b == 0 {
            Err(EvalError::DivisionByZero)
        } else if fits_i32(trunc_div(a as int, b as int)) {
            Ok(trunc_div(a as int, b as int) as i32)
        } else {
            Err(EvalError::NumericOverflow)
        },
        _ => Ok(0),
    }
}

/// One step-by-step run of the evaluator: `rest` is the unread postfix
/// queue and `stack` the value stack, top at the end. The final result is
/// the bottommost value left on the stack; an empty stack at an operator
/// or at the end is `StackUnderflow`.
pub open spec fn rpn_fold(rest: Seq<Token>, stack: Seq<i32>) -> Result<i32, EvalError>
    decreases rest.len(),
{
    if rest.len() == 0 {
        if stack.len() == 0 {
            Err(EvalError::StackUnderflow)
        } else {
            Ok(stack[0])
        }
    } else {
        let t = rest[0];
        if spec_is_op(t.kind) {
            if stack.len() < 2 {
                Err(EvalError::StackUnderflow)
            } else {
                let b = stack.last();
                let a = stack[stack.len() - 2];
                match apply_op(t.kind, a, b) {
                    Ok(v) => rpn_fold(rest.drop_first(), stack.drop_last().drop_last().push(v)),
                    Err(e) => Err(e),
                }
            }
        } else {
            rpn_fold(rest.drop_first(), stack.push(t.value.unwrap()))
        }
    }
}

/// What evaluating a postfix token sequence yields.
pub open spec fn rpn_spec(ts: Seq<Token>) -> Result<i32, EvalError> {
    rpn_fold(ts, Seq::empty())
}

/// The arithmetic of one operator over 32-bit values, with the checks the
/// evaluator makes: truncating division, explicit division-by-zero and
/// out-of-range failures.
fn apply_op_exec(k: TokenKind, a: i32, b: i32) -> (r: Result<i32, EvalError>)
    ensures
        r == apply_op(k, a, b),
{
    match k {
        TokenKind::Plus => {
            let s: i64 = a as i64 + b as i64;
            if i32::MIN as i64 <= s && s <= i32::MAX as i64 {
                Ok(s as i32)
            } else {
                Err(EvalError::NumericOverflow)
            }
        },
        TokenKind::Minus => {
            let s: i64 = a as i64 - b as i64;
            if i32::MIN as i64 <= s && s <= i32::MAX as i64 {
                Ok(s as i32)
            } else {
                Err(EvalError::NumericOverflow)
            }
        },
        TokenKind::Times => {
            proof {
                assert((a as int) * (b as int) <= i64::MAX as int && (a as int) * (b as int)
                    >= i64::MIN as int) by (nonlinear_arith)
                    requires
                        i32::MIN as int <= a as int <= i32::MAX as int,
                        i32::MIN as int <= b as int <= i32::MAX as int,
                ;
            }
            let s: i64 = a as i64 * b as i64;
            if i32::MIN as i64 <= s && s <= i32::MAX as i64 {
                Ok(s as i32)
            } else {
                Err(EvalError::NumericOverflow)
            }
        },
        TokenKind::Divide => {
            if b == 0 {
                Err(EvalError::DivisionByZero)
            } else {
                let ai: i64 = a as i64;
                let bi: i64 = b as i64;
                let am: u64 = if ai >= 0 {
                    ai as u64
                } else {
                    (-ai) as u64
                };
                let bm: u64 = if bi >= 0 {
                    bi as u64
                } else {
                    (-bi) as u64
                };
                let qm: u64 = am / bm;
                proof {
                    assert(am as int == abs_int(a as int));
                    assert(bm as int == abs_int(b as int));
                    assert(qm as int == abs_int(a as int) / abs_int(b as int));
                }
                if (a >= 0) == (b >= 0) {
                    if qm > i32::MAX as u64 {
                        Err(EvalError::NumericOverflow)
                    } else {
                        Ok(qm as i32)
                    }
                } else {
                    if qm > 2147483648u64 {
                        Err(EvalError::NumericOverflow)
                    } else {
                        Ok((-(qm as i64)) as i32)
                    }
                }
            }
        },
        _ => Ok(0),
    }
}

/// Consumes the postfix queue and reduces it on a value stack: numbers are
/// pushed, each operator replaces the two topmost values (the deeper one on
/// the left) by its result. Returns the bottommost value left on the stack;
/// fails with the error kind of the first fatal condition met — too few
/// operands, an empty final stack, division by zero, or a result out of
/// range. The input queue is emptied.
pub fn evaluate_rpn(rpn: &mut VecDeque<Token>) -> (r: Result<i32, EvalError>)
    requires
        rpn_wf(old(rpn)@),
    ensures
        final(rpn)@.len() == 0,
        match r {
            Ok(v) => rpn_spec(old(rpn)@) == Ok::<i32, EvalError>(v),
            Err(e) => rpn_spec(old(rpn)@) == Err::<i32, EvalError>(e),
        },
{
    let ghost inp = rpn@;
    let ghost goal = rpn_spec(inp);
    let mut stack: Vec<i32> = Vec::new();
    while rpn.len() > 0
        invariant
            inp == old(rpn)@,
            goal == rpn_spec(inp),
            rpn_wf(rpn@),
            rpn_fold(rpn@, stack@) == goal,
        decreases rpn@.len(),
    {
        let ghost qb = rpn@;
        let ghost stb = stack@;
        let token = rpn.pop_front().unwrap();
        proof {
            assert(rpn@ =~= qb.drop_first());
            assert(forall|i: int| 0 <= i < rpn@.len() ==> rpn@[i] == qb[i + 1]);
        }
        if token.is_op() {
            if stack.len() < 2 {
                proof {
                    assert(goal == Err::<i32, EvalError>(EvalError::StackUnderflow));
                }
                rpn.clear();
                return Err(EvalError::StackUnderflow);
            }
            let b = stack.pop().unwrap();
            let a = stack.pop().unwrap();
            proof {
                assert(b == stb.last());
                assert(a == stb[stb.len() - 2]);
                assert(stack@ =~= stb.drop_last().drop_last());
            }
            match apply_op_exec(token.kind, a, b) {
                Ok(v) => {
                    stack.push(v);
                },
                Err(e) => {
                    proof {
                        assert(goal == Err::<i32, EvalError>(e));
                    }
                    rpn.clear();
                    return Err(e);
                },
            }
        } else {
            stack.push(token.value.unwrap());
        }
    }
    if stack.len() == 0 {
        Err(EvalError::StackUnderflow)
    } else {
        Ok(stack[0])
    }
}

} // verus!
