//! Token categories and the `(category, literal text)` pair that every later
//! stage of the pipeline consumes.

use vstd::prelude::*;

use crate::number::is_float_literal;
use crate::number::is_int_literal;

verus! {

/// The closed set of token categories the tokenizer can assign.
///
/// A category is immutable once assigned, with one deliberate exception: the
/// validator may re-tag a `UnaryOperator` as `BinaryOperator` when the token
/// is preceded by a number or a closing parenthesis.
#[derive(Debug, Copy, Clone, PartialEq, Eq, Structural)]
pub enum TokenType {
    NumberInt,
    NumberFloat,
    UnaryOperator,
    BinaryOperator,
    Function,
    OpenedParenthesis,
    ClosedParenthesis,
    ArgumentSeparator,
    Whitespaces,
}

/// A token: its category paired with the exact matched substring.
pub type Token = (TokenType, String);

/// An ordered token sequence, in original left-to-right input order.
pub type TokenList = Vec<Token>;

/// The ghost image of a token: its category with the text as a character
/// sequence.
pub type TokenView = (TokenType, Seq<char>);

/// The ghost image of a token list.
pub open spec fn tokens_view(v: Seq<Token>) -> Seq<TokenView> {
    v.map_values(|t: Token| (t.0, t.1@))
}

/// Every number token carries a literal of the shape the tokenizer
/// produces.
pub open spec fn num_literals_wf(ts: Seq<TokenView>) -> bool {
    forall|j: int|
        #![trigger ts[j]]
        0 <= j < ts.len() && (ts[j].0 == TokenType::NumberInt || ts[j].0
            == TokenType::NumberFloat) ==> is_int_literal(ts[j].1) || is_float_literal(ts[j].1)
}

} // verus!
