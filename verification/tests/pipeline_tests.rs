use rpn_calc::evaluate;
use rpn_calc::InfixToRPN;
use rpn_calc::Number;
use rpn_calc::RegexpLexer;
use rpn_calc::Rule;
use rpn_calc::Validator;

/// Runs a whole line through the four pipeline stages.
fn run(input: &str) -> Number {
    let lexer = RegexpLexer::new();
    let mut validator = Validator::new();
    validator.add_rule(Rule::RetagSignAfterValue);
    validator.add_rule(Rule::RejectAdjacentBinary);
    let converter = InfixToRPN {};

    let tokens = lexer.tokenize(input).unwrap();
    let valid = validator.validate(tokens).unwrap();
    let mut expr = converter.convert(valid).unwrap();
    evaluate(&mut expr).unwrap()
}

#[test]
fn pipeline_two_plus_two_mult_two() {
    assert_eq!(run("2+2*2"), Number::from_int(6));
}

#[test]
fn pipeline_full_example() {
    assert_eq!(run("(1+-1.1)*2/3>>4<<5"), Number::from_int(0));
}

#[test]
fn pipeline_power_is_right_associative() {
    // 2^3^2 groups as 2^(3^2) = 512, never as (2^3)^2 = 64
    assert_eq!(run("2^3^2"), Number::from_int(512));
}

#[test]
fn pipeline_power_binds_tighter_than_plus() {
    // 2+3^2 = 11
    assert_eq!(run("2+3^2"), Number::from_int(11));
}

#[test]
fn pipeline_subtraction_after_number_is_binary() {
    assert_eq!(run("1-2"), Number::from_int(-1));
}

#[test]
fn pipeline_leading_sign_is_unary() {
    assert_eq!(run("-5+3"), Number::from_int(-2));
}

#[test]
fn pipeline_leading_plus_is_identity() {
    assert_eq!(run("+5"), Number::from_int(5));
}

#[test]
fn pipeline_division_is_exact() {
    assert_eq!(run("1/2"), Number::from_parts(1, 2).unwrap());
}

#[test]
fn pipeline_parentheses_override_priority() {
    assert_eq!(run("(2+2)*2"), Number::from_int(8));
}

#[test]
fn pipeline_separator_needs_only_matching_paren() {
    // `(1,1 1)` has its matching parenthesis, so conversion succeeds and
    // the flattened operands are only caught by the evaluator
    let lexer = RegexpLexer::new();
    let converter = InfixToRPN {};
    let tokens = lexer.tokenize("(1,1 1)").unwrap();
    let mut expr = converter.convert(tokens).unwrap();
    assert_eq!(evaluate(&mut expr), Err(rpn_calc::EvalError::LeftoverOperands));
}
