use rpn_calc::evaluate;
use rpn_calc::EvalError;
use rpn_calc::Expression;
use rpn_calc::Lexem;
use rpn_calc::Number;
use rpn_calc::Operator;
use rpn_calc::Queue;
use rpn_calc::Token;
use rpn_calc::TokenType;

#[test]
fn test_calculate_simple() {
    let mut expr: Queue<Lexem> = Queue::new();
    expr.enqueue(Lexem::NumberLex(Number::from_int(1)));
    expr.enqueue(Lexem::NumberLex(Number::from_int(1)));

    let op: Token = (TokenType::BinaryOperator, "+".to_string());
    expr.enqueue(Lexem::OperatorLex(Operator::get_operator(&op)));

    assert_eq!(evaluate(&mut expr), Ok(Number::from_int(2)));
}

#[test]
fn test_calculate_two_plus_two_mult_two() {
    // operator priorities via 2+2*2 => 2 2 2 * +
    let mut expr: Queue<Lexem> = Queue::new();
    expr.enqueue(Lexem::NumberLex(Number::from_int(2)));
    expr.enqueue(Lexem::NumberLex(Number::from_int(2)));
    expr.enqueue(Lexem::NumberLex(Number::from_int(2)));

    let op1: Token = (TokenType::BinaryOperator, "*".to_string());
    expr.enqueue(Lexem::OperatorLex(Operator::get_operator(&op1)));

    let op2: Token = (TokenType::BinaryOperator, "+".to_string());
    expr.enqueue(Lexem::OperatorLex(Operator::get_operator(&op2)));

    assert_eq!(evaluate(&mut expr), Ok(Number::from_int(6)));
}

fn binary(sym: &str) -> Lexem {
    let op: Token = (TokenType::BinaryOperator, sym.to_string());
    Lexem::OperatorLex(Operator::get_operator(&op))
}

fn unary(sym: &str) -> Lexem {
    let op: Token = (TokenType::UnaryOperator, sym.to_string());
    Lexem::OperatorLex(Operator::get_operator(&op))
}

#[test]
fn evaluate_drained_expression_is_empty() {
    // the expression is single-use: a second run finds nothing
    let mut expr: Expression = Queue::new();
    expr.enqueue(Lexem::NumberLex(Number::from_int(1)));
    expr.enqueue(Lexem::NumberLex(Number::from_int(1)));
    expr.enqueue(binary("+"));

    assert_eq!(evaluate(&mut expr), Ok(Number::from_int(2)));
    assert_eq!(evaluate(&mut expr), Err(EvalError::EmptyExpression));
}

#[test]
fn evaluate_empty_expression() {
    let mut expr: Expression = Queue::new();
    assert_eq!(evaluate(&mut expr), Err(EvalError::EmptyExpression));
}

#[test]
fn evaluate_arity_underflow_unary() {
    let mut expr: Expression = Queue::new();
    expr.enqueue(unary("-"));
    assert_eq!(evaluate(&mut expr), Err(EvalError::ArityUnderflow));
}

#[test]
fn evaluate_arity_underflow_binary() {
    let mut expr: Expression = Queue::new();
    expr.enqueue(Lexem::NumberLex(Number::from_int(1)));
    expr.enqueue(binary("+"));
    assert_eq!(evaluate(&mut expr), Err(EvalError::ArityUnderflow));
}

#[test]
fn evaluate_leftover_operands() {
    let mut expr: Expression = Queue::new();
    expr.enqueue(Lexem::NumberLex(Number::from_int(1)));
    expr.enqueue(Lexem::NumberLex(Number::from_int(2)));
    assert_eq!(evaluate(&mut expr), Err(EvalError::LeftoverOperands));
}

#[test]
fn evaluate_division_by_zero_fails() {
    let mut expr: Expression = Queue::new();
    expr.enqueue(Lexem::NumberLex(Number::from_int(1)));
    expr.enqueue(Lexem::NumberLex(Number::from_int(0)));
    expr.enqueue(binary("/"));
    assert_eq!(evaluate(&mut expr), Err(EvalError::ArithmeticFailure));
}

#[test]
fn evaluate_subtraction_operand_order() {
    // 1 2 - is 1 - 2: the right-hand operand is popped first
    let mut expr: Expression = Queue::new();
    expr.enqueue(Lexem::NumberLex(Number::from_int(1)));
    expr.enqueue(Lexem::NumberLex(Number::from_int(2)));
    expr.enqueue(binary("-"));
    assert_eq!(evaluate(&mut expr), Ok(Number::from_int(-1)));
}

#[test]
fn evaluate_unary_negation() {
    let mut expr: Expression = Queue::new();
    expr.enqueue(Lexem::NumberLex(Number::from_int(5)));
    expr.enqueue(unary("-"));
    expr.enqueue(Lexem::NumberLex(Number::from_int(3)));
    expr.enqueue(binary("+"));
    assert_eq!(evaluate(&mut expr), Ok(Number::from_int(-2)));
}

#[test]
fn evaluate_exact_fractions() {
    // 1.1 + 1.1 over the common denominator 10 * 10
    let mut expr: Expression = Queue::new();
    expr.enqueue(Lexem::NumberLex(Number::from_parts(11, 10).unwrap()));
    expr.enqueue(Lexem::NumberLex(Number::from_parts(11, 10).unwrap()));
    expr.enqueue(binary("+"));
    assert_eq!(evaluate(&mut expr), Ok(Number::from_parts(220, 100).unwrap()));
}

#[test]
fn evaluate_remainder_truncates() {
    // 8 % 3 = 2
    let mut expr: Expression = Queue::new();
    expr.enqueue(Lexem::NumberLex(Number::from_int(8)));
    expr.enqueue(Lexem::NumberLex(Number::from_int(3)));
    expr.enqueue(binary("%"));
    assert_eq!(evaluate(&mut expr), Ok(Number::from_int(2)));
}

#[test]
fn evaluate_shifts_truncate_operands() {
    // 5 << 2 = 20, and 20.9 >> 2 truncates to 20 >> 2 = 5
    let mut expr: Expression = Queue::new();
    expr.enqueue(Lexem::NumberLex(Number::from_int(5)));
    expr.enqueue(Lexem::NumberLex(Number::from_int(2)));
    expr.enqueue(binary("<<"));
    assert_eq!(evaluate(&mut expr), Ok(Number::from_int(20)));

    let mut expr2: Expression = Queue::new();
    expr2.enqueue(Lexem::NumberLex(Number::from_parts(209, 10).unwrap()));
    expr2.enqueue(Lexem::NumberLex(Number::from_int(2)));
    expr2.enqueue(binary(">>"));
    assert_eq!(evaluate(&mut expr2), Ok(Number::from_int(5)));
}

#[test]
fn evaluate_power_with_negative_exponent() {
    // 2 ^ -2 = 1/4
    let mut expr: Expression = Queue::new();
    expr.enqueue(Lexem::NumberLex(Number::from_int(2)));
    expr.enqueue(Lexem::NumberLex(Number::from_int(-2)));
    expr.enqueue(binary("^"));
    assert_eq!(evaluate(&mut expr), Ok(Number::from_parts(1, 4).unwrap()));
}

#[test]
fn number_from_parts_needs_positive_denominator() {
    assert_eq!(Number::from_parts(1, 0), None);
    assert_eq!(Number::from_parts(1, -2), None);
    assert!(Number::from_parts(1, 2).is_some());
}

#[test]
fn evaluate_overflow_fails() {
    let big = Number::from_int(i64::MAX);
    let mut expr: Expression = Queue::new();
    expr.enqueue(Lexem::NumberLex(big));
    expr.enqueue(Lexem::NumberLex(big));
    expr.enqueue(binary("*"));
    assert_eq!(evaluate(&mut expr), Err(EvalError::ArithmeticFailure));
}
