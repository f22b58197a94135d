use rpn_calc::Rule;
use rpn_calc::TokenList;
use rpn_calc::TokenType;
use rpn_calc::ValidationError;
use rpn_calc::Validator;

fn full_validator() -> Validator {
    let mut v = Validator::new();
    v.add_rule(Rule::RetagSignAfterValue);
    v.add_rule(Rule::RejectAdjacentBinary);
    v
}

#[test]
fn validator_no_rules_passes_through() {
    let v = Validator::new();
    let tokens: TokenList = vec![
        (TokenType::BinaryOperator, "+".to_string()),
        (TokenType::BinaryOperator, "+".to_string()),
    ];
    assert_eq!(v.validate(tokens.clone()), Ok(tokens));
}

#[test]
fn validator_leading_sign_stays_unary() {
    // nothing precedes the sign, so it is left unary
    let v = full_validator();
    let tokens: TokenList = vec![
        (TokenType::UnaryOperator, "+".to_string()),
        (TokenType::NumberInt, "1".to_string()),
    ];
    assert_eq!(v.validate(tokens.clone()), Ok(tokens));
}

#[test]
fn validator_retags_sign_after_number() {
    let v = full_validator();
    let tokens: TokenList = vec![
        (TokenType::NumberInt, "1".to_string()),
        (TokenType::UnaryOperator, "+".to_string()),
        (TokenType::NumberInt, "2".to_string()),
    ];
    let expected: TokenList = vec![
        (TokenType::NumberInt, "1".to_string()),
        (TokenType::BinaryOperator, "+".to_string()),
        (TokenType::NumberInt, "2".to_string()),
    ];
    assert_eq!(v.validate(tokens), Ok(expected));
}

#[test]
fn validator_retags_only_first_of_two_signs() {
    // in `1+-1.1` the first sign follows a number and becomes binary; the
    // second follows the rewritten sign and stays unary
    let v = full_validator();
    let tokens: TokenList = vec![
        (TokenType::NumberInt, "1".to_string()),
        (TokenType::UnaryOperator, "+".to_string()),
        (TokenType::UnaryOperator, "-".to_string()),
        (TokenType::NumberFloat, "1.1".to_string()),
    ];
    let expected: TokenList = vec![
        (TokenType::NumberInt, "1".to_string()),
        (TokenType::BinaryOperator, "+".to_string()),
        (TokenType::UnaryOperator, "-".to_string()),
        (TokenType::NumberFloat, "1.1".to_string()),
    ];
    assert_eq!(v.validate(tokens), Ok(expected));
}

#[test]
fn validator_retags_sign_after_closing_paren() {
    let v = full_validator();
    let tokens: TokenList = vec![
        (TokenType::ClosedParenthesis, ")".to_string()),
        (TokenType::UnaryOperator, "-".to_string()),
        (TokenType::NumberInt, "2".to_string()),
    ];
    let expected: TokenList = vec![
        (TokenType::ClosedParenthesis, ")".to_string()),
        (TokenType::BinaryOperator, "-".to_string()),
        (TokenType::NumberInt, "2".to_string()),
    ];
    assert_eq!(v.validate(tokens), Ok(expected));
}

#[test]
fn validator_rejects_adjacent_binary_operators() {
    let v = full_validator();
    let tokens: TokenList = vec![
        (TokenType::NumberInt, "1".to_string()),
        (TokenType::BinaryOperator, "*".to_string()),
        (TokenType::BinaryOperator, "/".to_string()),
        (TokenType::NumberInt, "2".to_string()),
    ];
    assert_eq!(v.validate(tokens), Err(ValidationError::ValidationFailed));
}

#[test]
fn validator_later_rule_sees_earlier_rewrite() {
    // `1 * +` with a trailing sign: the sign follows nothing numeric, so
    // the adjacent-binary rule sees `* +` only if the retag made the sign
    // binary; here it does not, so the sequence passes
    let v = full_validator();
    let tokens: TokenList = vec![
        (TokenType::NumberInt, "1".to_string()),
        (TokenType::BinaryOperator, "*".to_string()),
        (TokenType::UnaryOperator, "+".to_string()),
        (TokenType::NumberInt, "2".to_string()),
    ];
    assert_eq!(v.validate(tokens.clone()), Ok(tokens));
}
