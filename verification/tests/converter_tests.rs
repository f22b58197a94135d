use rpn_calc::BinaryKind;
use rpn_calc::ConversionError;
use rpn_calc::InfixToRPN;
use rpn_calc::Lexem;
use rpn_calc::Number;
use rpn_calc::Operator;
use rpn_calc::TokenList;
use rpn_calc::TokenType;

#[test]
fn test_convert() {
    let test_tokens: TokenList = vec![
        (TokenType::OpenedParenthesis, "(".to_string()),
        (TokenType::NumberInt, "1".to_string()),
        (TokenType::UnaryOperator, "+".to_string()),
        (TokenType::UnaryOperator, "-".to_string()),
        (TokenType::NumberFloat, "1.1".to_string()),
        (TokenType::ClosedParenthesis, ")".to_string()),
        (TokenType::BinaryOperator, "*".to_string()),
        (TokenType::NumberInt, "2".to_string()),
        (TokenType::BinaryOperator, "/".to_string()),
        (TokenType::NumberInt, "3".to_string()),
        (TokenType::BinaryOperator, ">>".to_string()),
        (TokenType::NumberInt, "4".to_string()),
        (TokenType::BinaryOperator, "<<".to_string()),
        (TokenType::NumberInt, "5".to_string()),
    ];

    let test_converter = InfixToRPN {};

    assert!(test_converter.convert(test_tokens).is_ok());
}

#[test]
fn test_convert_miss_brace() {
    let test_tokens: TokenList = vec![
        (TokenType::OpenedParenthesis, "(".to_string()),
        (TokenType::ClosedParenthesis, ")".to_string()),
        (TokenType::ClosedParenthesis, ")".to_string()),
    ];

    let test_converter = InfixToRPN {};

    assert!(test_converter.convert(test_tokens).is_err());
}

#[test]
fn convert_two_plus_two_mult_two_postfix_order() {
    // validated tokens of `2+2*2`: postfix order must be `2 2 2 * +`
    let tokens: TokenList = vec![
        (TokenType::NumberInt, "2".to_string()),
        (TokenType::BinaryOperator, "+".to_string()),
        (TokenType::NumberInt, "2".to_string()),
        (TokenType::BinaryOperator, "*".to_string()),
        (TokenType::NumberInt, "2".to_string()),
    ];
    let conv = InfixToRPN {};
    let e = conv.convert(tokens).unwrap();
    assert_eq!(e.queue.len(), 5);
    let two = Number::from_int(2);
    assert!(matches!(e.queue[0], Lexem::NumberLex(n) if n == two));
    assert!(matches!(e.queue[1], Lexem::NumberLex(n) if n == two));
    assert!(matches!(e.queue[2], Lexem::NumberLex(n) if n == two));
    assert!(
        matches!(&e.queue[3], Lexem::OperatorLex(Operator::Binary(b)) if b.apply == BinaryKind::Mul)
    );
    assert!(
        matches!(&e.queue[4], Lexem::OperatorLex(Operator::Binary(b)) if b.apply == BinaryKind::Add)
    );
}

#[test]
fn convert_close_without_open_is_missing_open_paren() {
    // `())`: the second closing parenthesis finds no opening one
    let tokens: TokenList = vec![
        (TokenType::OpenedParenthesis, "(".to_string()),
        (TokenType::ClosedParenthesis, ")".to_string()),
        (TokenType::ClosedParenthesis, ")".to_string()),
    ];
    let conv = InfixToRPN {};
    assert_eq!(conv.convert(tokens).unwrap_err(), ConversionError::MissingOpenParen);
}

#[test]
fn convert_leftover_open_is_unbalanced_paren() {
    let tokens: TokenList = vec![
        (TokenType::OpenedParenthesis, "(".to_string()),
        (TokenType::NumberInt, "1".to_string()),
    ];
    let conv = InfixToRPN {};
    assert_eq!(conv.convert(tokens).unwrap_err(), ConversionError::UnbalancedParen);
}

#[test]
fn convert_separator_without_open_paren_fails() {
    let tokens: TokenList = vec![
        (TokenType::NumberInt, "1".to_string()),
        (TokenType::ArgumentSeparator, ",".to_string()),
        (TokenType::NumberInt, "2".to_string()),
    ];
    let conv = InfixToRPN {};
    assert_eq!(conv.convert(tokens).unwrap_err(), ConversionError::MissingSeparatorOrOpenParen);
}

#[test]
fn convert_huge_literal_is_number_too_large() {
    let tokens: TokenList = vec![(TokenType::NumberInt, "99999999999999999999".to_string())];
    let conv = InfixToRPN {};
    assert_eq!(conv.convert(tokens).unwrap_err(), ConversionError::NumberTooLarge);
}

#[test]
fn convert_function_argument_flattening() {
    // `max(1,2)` becomes `1 2 max`
    let tokens: TokenList = vec![
        (TokenType::Function, "max".to_string()),
        (TokenType::OpenedParenthesis, "(".to_string()),
        (TokenType::NumberInt, "1".to_string()),
        (TokenType::ArgumentSeparator, ",".to_string()),
        (TokenType::NumberInt, "2".to_string()),
        (TokenType::ClosedParenthesis, ")".to_string()),
    ];
    let conv = InfixToRPN {};
    let e = conv.convert(tokens).unwrap();
    assert_eq!(e.queue.len(), 3);
    assert!(matches!(e.queue[0], Lexem::NumberLex(n) if n == Number::from_int(1)));
    assert!(matches!(e.queue[1], Lexem::NumberLex(n) if n == Number::from_int(2)));
    // an unrecognized function name resolves to the unknown operator
    assert!(matches!(&e.queue[2], Lexem::OperatorLex(Operator::Unknown)));
}

#[test]
fn convert_right_associative_power_stays_pushed() {
    // validated tokens of `2^3^2`: right associativity gives `2 3 2 ^ ^`
    let tokens: TokenList = vec![
        (TokenType::NumberInt, "2".to_string()),
        (TokenType::BinaryOperator, "^".to_string()),
        (TokenType::NumberInt, "3".to_string()),
        (TokenType::BinaryOperator, "^".to_string()),
        (TokenType::NumberInt, "2".to_string()),
    ];
    let conv = InfixToRPN {};
    let e = conv.convert(tokens).unwrap();
    assert_eq!(e.queue.len(), 5);
    assert!(
        matches!(&e.queue[3], Lexem::OperatorLex(Operator::Binary(b)) if b.apply == BinaryKind::Pow)
    );
    assert!(
        matches!(&e.queue[4], Lexem::OperatorLex(Operator::Binary(b)) if b.apply == BinaryKind::Pow)
    );
}

#[test]
fn convert_empty_input_is_empty_expression() {
    let conv = InfixToRPN {};
    let e = conv.convert(vec![]).unwrap();
    assert!(e.queue.is_empty());
}
