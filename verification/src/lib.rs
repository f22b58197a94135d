//! An arithmetic expression calculator: infix text is tokenized, validated,
//! converted to postfix (Reverse Polish) order by the shunting-yard algorithm,
//! and reduced with a stack machine over exact rational numbers.

pub mod ast;
pub mod converters;
pub mod evaluator;
pub mod lexer;
pub mod number;
pub mod operator;
pub mod queue;
pub mod stack;
pub mod token;
pub mod validator;

pub use converters::ConversionError;
pub use converters::InfixToRPN;
pub use evaluator::evaluate;
pub use evaluator::EvalError;
pub use lexer::RegexpLexer;
pub use operator::Expression;
pub use number::Number;
pub use operator::BaseOperator;
pub use operator::BinaryKind;
pub use operator::Lexem;
pub use operator::Operator;
pub use operator::UnaryKind;
pub use queue::Queue;
pub use stack::Stack;
pub use validator::check_for_binary_operator;
pub use validator::check_for_repeate_binary_operator;
pub use validator::Rule;
pub use validator::ValidationError;
pub use validator::Validator;
pub use token::Token;
pub use token::TokenList;
pub use token::TokenType;
