use std::collections::VecDeque;

use evalexpr::evaluate;
use evalexpr::lexer::lex;
use evalexpr::rpn::evaluate_rpn;
use evalexpr::shunting::shunting_yard;
use evalexpr::token::{EvalError, Token, TokenKind};

fn lex_ok(text: &str) -> VecDeque<Token> {
    lex(&String::from(text)).expect("lexing should succeed")
}

fn eval(text: &str) -> Result<i32, EvalError> {
    evaluate(&String::from(text))
}

#[test]
fn lexing_simple_sum_yields_number_plus_number() {
    let toks: Vec<Token> = lex_ok("12+3").into_iter().collect();
    assert_eq!(
        toks,
        vec![
            Token::new(TokenKind::Number, Some(12)),
            Token::new_kind(TokenKind::Plus),
            Token::new(TokenKind::Number, Some(3)),
        ]
    );
}

#[test]
fn lexing_skips_whitespace_and_unrecognized_characters() {
    let toks: Vec<Token> = lex_ok(" 1 +2x\n").into_iter().collect();
    let mut text = String::new();
    for t in &toks {
        match t.kind {
            TokenKind::Number => text.push_str(&t.value.unwrap().to_string()),
            TokenKind::Plus => text.push('+'),
            TokenKind::Minus => text.push('-'),
            TokenKind::Times => text.push('*'),
            TokenKind::Divide => text.push('/'),
            TokenKind::LParen => text.push('('),
            TokenKind::RParen => text.push(')'),
        }
    }
    assert_eq!(text, "1+2");
}

#[test]
fn lexing_empty_input_yields_no_tokens() {
    assert!(lex_ok("").is_empty());
}

#[test]
fn lexing_overflowing_literal_reports_numeric_overflow() {
    assert_eq!(
        lex(&String::from("9999999999")).unwrap_err(),
        EvalError::NumericOverflow
    );
    assert!(lex(&String::from("2147483647")).is_ok());
}

#[test]
fn conversion_is_deterministic_on_fresh_copies() {
    let first = {
        let mut q = lex_ok("1+2*(3-4)");
        shunting_yard(&mut q).expect("balanced input should convert")
    };
    let second = {
        let mut q = lex_ok("1+2*(3-4)");
        shunting_yard(&mut q).expect("balanced input should convert")
    };
    let a: Vec<Token> = first.into_iter().collect();
    let b: Vec<Token> = second.into_iter().collect();
    assert_eq!(a, b);
}

#[test]
fn conversion_empties_its_input_queue() {
    let mut q = lex_ok("1+2");
    let _ = shunting_yard(&mut q).unwrap();
    assert!(q.is_empty());
}

#[test]
fn conversion_orders_equal_precedence_left_to_right() {
    let mut q = lex_ok("10-3-2");
    let rpn: Vec<Token> = shunting_yard(&mut q).unwrap().into_iter().collect();
    assert_eq!(
        rpn,
        vec![
            Token::new(TokenKind::Number, Some(10)),
            Token::new(TokenKind::Number, Some(3)),
            Token::new_kind(TokenKind::Minus),
            Token::new(TokenKind::Number, Some(2)),
            Token::new_kind(TokenKind::Minus),
        ]
    );
}

#[test]
fn rpn_evaluation_applies_operands_in_source_order() {
    let mut rpn = VecDeque::from(vec![
        Token::new(TokenKind::Number, Some(10)),
        Token::new(TokenKind::Number, Some(3)),
        Token::new_kind(TokenKind::Minus),
    ]);
    assert_eq!(evaluate_rpn(&mut rpn), Ok(7));
    assert!(rpn.is_empty());
}

#[test]
fn rpn_evaluation_returns_bottom_of_leftover_stack() {
    let mut rpn = VecDeque::from(vec![
        Token::new(TokenKind::Number, Some(1)),
        Token::new(TokenKind::Number, Some(2)),
    ]);
    assert_eq!(evaluate_rpn(&mut rpn), Ok(1));
}

#[test]
fn multiplication_binds_tighter_than_addition() {
    assert_eq!(eval("2+3*4"), Ok(14));
}

#[test]
fn parentheses_override_precedence() {
    assert_eq!(eval("(2+3)*4"), Ok(20));
}

#[test]
fn subtraction_associates_to_the_left() {
    assert_eq!(eval("10-3-2"), Ok(5));
}

#[test]
fn division_truncates_toward_zero() {
    assert_eq!(eval("7/2"), Ok(3));
}

#[test]
fn negative_quotient_truncates_toward_zero() {
    assert_eq!(eval("(0-7)/2"), Ok(-3));
}

#[test]
fn single_number_evaluates_to_itself() {
    assert_eq!(eval("42"), Ok(42));
}

#[test]
fn whitespace_is_ignored_by_the_pipeline() {
    assert_eq!(eval(" 2 + 2 "), Ok(4));
}

#[test]
fn unclosed_left_paren_is_unbalanced() {
    assert_eq!(eval("(1+2"), Err(EvalError::UnbalancedParens));
}

#[test]
fn unmatched_right_paren_is_unbalanced() {
    assert_eq!(eval("1)"), Err(EvalError::UnbalancedParens));
    assert_eq!(eval(")"), Err(EvalError::UnbalancedParens));
}

#[test]
fn division_by_zero_is_reported() {
    assert_eq!(eval("1/0"), Err(EvalError::DivisionByZero));
}

#[test]
fn missing_operands_underflow_the_stack() {
    assert_eq!(eval(""), Err(EvalError::StackUnderflow));
    assert_eq!(eval("+"), Err(EvalError::StackUnderflow));
    assert_eq!(eval("1+"), Err(EvalError::StackUnderflow));
}

#[test]
fn overflowing_arithmetic_is_reported() {
    assert_eq!(eval("2147483647+1"), Err(EvalError::NumericOverflow));
    assert_eq!(eval("65536*65536"), Err(EvalError::NumericOverflow));
    assert_eq!(
        eval("(0-2147483647-1)/(0-1)"),
        Err(EvalError::NumericOverflow)
    );
    assert_eq!(eval("0-2147483647-1"), Ok(i32::MIN));
}

#[test]
fn non_ascii_characters_are_skipped_whole() {
    assert_eq!(eval("2+2é"), Ok(4));
    assert_eq!(eval("π"), Err(EvalError::StackUnderflow));
}

#[test]
fn leading_zeros_lex_as_the_same_value() {
    let toks: Vec<Token> = lex_ok("007+1").into_iter().collect();
    assert_eq!(
        toks,
        vec![
            Token::new(TokenKind::Number, Some(7)),
            Token::new_kind(TokenKind::Plus),
            Token::new(TokenKind::Number, Some(1)),
        ]
    );
    assert_eq!(eval("007"), Ok(7));
}

#[test]
fn leftover_operands_yield_the_first_value() {
    assert_eq!(eval("12 34"), Ok(12));
}

#[test]
fn precedence_ranks_match_the_design() {
    assert_eq!(TokenKind::LParen.precedence(), 1);
    assert_eq!(TokenKind::RParen.precedence(), 1);
    assert_eq!(TokenKind::Times.precedence(), 2);
    assert_eq!(TokenKind::Divide.precedence(), 2);
    assert_eq!(TokenKind::Plus.precedence(), 4);
    assert_eq!(TokenKind::Minus.precedence(), 4);
    assert_eq!(TokenKind::Number.precedence(), 0);
}

#[test]
fn only_the_four_arithmetic_kinds_are_operators() {
    assert!(Token::new_kind(TokenKind::Plus).is_op());
    assert!(Token::new_kind(TokenKind::Minus).is_op());
    assert!(Token::new_kind(TokenKind::Times).is_op());
    assert!(Token::new_kind(TokenKind::Divide).is_op());
    assert!(!Token::new_kind(TokenKind::LParen).is_op());
    assert!(!Token::new_kind(TokenKind::RParen).is_op());
    assert!(!Token::new(TokenKind::Number, Some(1)).is_op());
}
