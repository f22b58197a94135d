use std::collections::HashMap;

use rpn_calc::RegexpLexer;
use rpn_calc::TokenList;
use rpn_calc::TokenType;

#[test]
fn test_lexer_unkown_tokens() {
    let mut test_str = HashMap::new();
    test_str.insert('&', "1      123 123123 & 123 213");
    test_str.insert('=', "1      1 = 123123 & 123 213");
    test_str.insert('!', "1      !13 123123 & 123 213");
    test_str.insert('#', "1      1#3 123123 & 123 213");
    test_str.insert(';', "1      ;23 123123 & 123 213");
    test_str.insert('%', "1      123 123123 % 123 213");

    let lex: RegexpLexer = RegexpLexer::new();
    for (r, s) in test_str {
        assert_eq!(lex.tokenize(s), Err(r));
    }
}

#[test]
fn lexer_all_known_tokens() {
    let test_str = "(1+-1.1)*2/3>>4<<5";
    let expected: TokenList = vec![
        (TokenType::OpenedParenthesis, "(".to_string()),
        (TokenType::NumberInt, "1".to_string()),
        (TokenType::UnaryOperator, "+".to_string()),
        (TokenType::UnaryOperator, "-".to_string()),
        (TokenType::NumberFloat, "1.1".to_string()),
        (TokenType::ClosedParenthesis, ")".to_string()),
        (TokenType::BinaryOperator, "*".to_string()),
        (TokenType::NumberInt, "2".to_string()),
        (TokenType::BinaryOperator, "/".to_string()),
        (TokenType::NumberInt, "3".to_string()),
        (TokenType::BinaryOperator, ">>".to_string()),
        (TokenType::NumberInt, "4".to_string()),
        (TokenType::BinaryOperator, "<<".to_string()),
        (TokenType::NumberInt, "5".to_string()),
    ];
    let lex: RegexpLexer = RegexpLexer::new();

    assert_eq!(lex.tokenize(test_str), Ok(expected));
}

#[test]
fn lexer_signs_default_unary() {
    // signs default to unary before validation
    let lex = RegexpLexer::new();
    let expected: TokenList = vec![
        (TokenType::NumberInt, "1".to_string()),
        (TokenType::UnaryOperator, "+".to_string()),
        (TokenType::UnaryOperator, "-".to_string()),
        (TokenType::NumberFloat, "1.1".to_string()),
    ];
    assert_eq!(lex.tokenize("1+-1.1"), Ok(expected));
}

#[test]
fn lexer_reports_first_unmatched_char() {
    let lex = RegexpLexer::new();
    assert_eq!(lex.tokenize("12+a&b"), Err('&'));
    assert_eq!(lex.tokenize("12&=3"), Err('&'));
    assert_eq!(lex.tokenize("="), Err('='));
}

#[test]
fn lexer_float_before_int() {
    let lex = RegexpLexer::new();
    let expected: TokenList = vec![(TokenType::NumberFloat, "12.5".to_string())];
    assert_eq!(lex.tokenize("12.5"), Ok(expected));
    // a lone trailing dot is no float, and nothing matches it
    assert_eq!(lex.tokenize("12."), Err('.'));
}

#[test]
fn lexer_function_names_and_separator() {
    let lex = RegexpLexer::new();
    let expected: TokenList = vec![
        (TokenType::Function, "max".to_string()),
        (TokenType::OpenedParenthesis, "(".to_string()),
        (TokenType::NumberInt, "1".to_string()),
        (TokenType::ArgumentSeparator, ",".to_string()),
        (TokenType::NumberInt, "2".to_string()),
        (TokenType::ClosedParenthesis, ")".to_string()),
    ];
    assert_eq!(lex.tokenize("max(1,2)"), Ok(expected));
}

#[test]
fn lexer_whitespace_runs_are_tokens() {
    let lex = RegexpLexer::new();
    let expected: TokenList = vec![
        (TokenType::NumberInt, "1".to_string()),
        (TokenType::Whitespaces, " \t".to_string()),
        (TokenType::NumberInt, "2".to_string()),
    ];
    assert_eq!(lex.tokenize("1 \t2"), Ok(expected));
    // the whitespace class covers the Unicode white-space characters
    let expected2: TokenList = vec![
        (TokenType::NumberInt, "1".to_string()),
        (TokenType::Whitespaces, "\u{2003}".to_string()),
        (TokenType::NumberInt, "2".to_string()),
    ];
    assert_eq!(lex.tokenize("1\u{2003}2"), Ok(expected2));
}

#[test]
fn lexer_empty_input() {
    let lex = RegexpLexer::new();
    assert_eq!(lex.tokenize(""), Ok(vec![]));
}

#[test]
fn lexer_single_angle_bracket_is_unmatched() {
    let lex = RegexpLexer::new();
    assert_eq!(lex.tokenize("1<2"), Err('<'));
    assert_eq!(lex.tokenize("1>2"), Err('>'));
}
