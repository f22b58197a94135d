//! The converter: Dijkstra's shunting-yard algorithm, turning a validated
//! infix token sequence into a postfix lexem sequence.
//!
//! The converter only reorders: it never evaluates numbers or applies
//! operators. An incoming binary operator pops stacked operators while the
//! stack top is greater-or-equal under the operator partial order, which is
//! defined only between two left-associative operators — a
//! right-associative operator (or an unrecognized stack top, such as a
//! parenthesis or a function name) therefore always stops the popping.

use vstd::prelude::*;

use crate::operator::lexem_spec;
use crate::operator::lexems_view;
use crate::operator::op_cmp_spec;
use crate::operator::operator_table_spec;
use crate::operator::Expression;
use crate::operator::Lexem;
use crate::operator::LexemV;
use crate::operator::Operator;
use crate::operator::OpView;
use crate::queue::Queue;
use crate::stack::Stack;
use crate::token::num_literals_wf;
use crate::token::Token;
use crate::token::TokenList;
use crate::token::TokenType;
use crate::token::TokenView;
use crate::token::tokens_view;

verus! {

/// The errors the converter reports.
#[derive(Debug, Clone, Copy, PartialEq, Eq, Structural)]
pub enum ConversionError {
    /// An argument separator drained the stack without finding an opening
    /// parenthesis.
    MissingSeparatorOrOpenParen,
    /// A closing parenthesis drained the stack without finding an opening
    /// parenthesis.
    MissingOpenParen,
    /// An opening parenthesis was left on the stack when the input ended.
    UnbalancedParen,
    /// A number literal overflows the machine word.
    NumberTooLarge,
}

/// Only these categories are ever pushed on the converter's stack.
pub open spec fn stack_cats_ok(s: Seq<TokenView>) -> bool {
    forall|j: int|
        #![trigger s[j]]
        0 <= j < s.len() ==> s[j].0 == TokenType::Function || s[j].0 == TokenType::UnaryOperator
            || s[j].0 == TokenType::BinaryOperator || s[j].0 == TokenType::OpenedParenthesis
}

/// The lexem a stacked token turns into when it is popped to the output.
pub open spec fn lexem_of(t: TokenView) -> LexemV {
    lexem_spec(t.0, t.1)->0
}

/// The stack-top operator pops while it is greater-or-equal to the
/// incoming one under the operator partial order.
pub open spec fn op_ge(a: OpView, b: OpView) -> bool {
    op_cmp_spec(a, b) matches Some(
        core::cmp::Ordering::Greater
        | core::cmp::Ordering::Equal,
    )
}

/// Pops operators to the output until the stack top is an opening
/// parenthesis or the stack is empty.
pub open spec fn pop_to_open(stack: Seq<TokenView>, out: Seq<LexemV>) -> (Seq<TokenView>, Seq<
    LexemV,
>)
    decreases stack.len(),
{
    if stack.len() == 0 {
        (stack, out)
    } else if stack.last().0 == TokenType::OpenedParenthesis {
        (stack, out)
    } else {
        pop_to_open(stack.drop_last(), out.push(lexem_of(stack.last())))
    }
}

/// Pops operators to the output while the incoming operator `op1` is
/// greater-or-equal to the resolved stack top.
pub open spec fn pop_ge(op1: OpView, stack: Seq<TokenView>, out: Seq<LexemV>) -> (Seq<TokenView>, Seq<
    LexemV,
>)
    decreases stack.len(),
{
    if stack.len() == 0 {
        (stack, out)
    } else if op_ge(op1, operator_table_spec(stack.last().0, stack.last().1)) {
        pop_ge(op1, stack.drop_last(), out.push(lexem_of(stack.last())))
    } else {
        (stack, out)
    }
}

/// Drains the stack into the output after the input is consumed; a leftover
/// opening parenthesis is an unbalanced-parenthesis error.
pub open spec fn finish_spec(stack: Seq<TokenView>, out: Seq<LexemV>) -> Result<
    Seq<LexemV>,
    ConversionError,
>
    decreases stack.len(),
{
    if stack.len() == 0 {
        Ok(out)
    } else if stack.last().0 == TokenType::OpenedParenthesis {
        Err(ConversionError::UnbalancedParen)
    } else {
        finish_spec(stack.drop_last(), out.push(lexem_of(stack.last())))
    }
}

/// The shunting-yard step function: what the converter's state becomes
/// from position `i` on.
pub open spec fn convert_from(
    ts: Seq<TokenView>,
    i: int,
    stack: Seq<TokenView>,
    out: Seq<LexemV>,
) -> Result<Seq<LexemV>, ConversionError>
    decreases ts.len() - i,
{
    if i < 0 || i >= ts.len() {
        finish_spec(stack, out)
    } else {
        let t = ts[i];
        match t.0 {
            TokenType::NumberInt | TokenType::NumberFloat => match lexem_spec(t.0, t.1) {
                Some(l) => convert_from(ts, i + 1, stack, out.push(l)),
                None => Err(ConversionError::NumberTooLarge),
            },
            TokenType::Function => convert_from(ts, i + 1, stack.push(t), out),
            TokenType::ArgumentSeparator => {
                let (s2, o2) = pop_to_open(stack, out);
                if s2.len() == 0 {
                    Err(ConversionError::MissingSeparatorOrOpenParen)
                } else {
                    convert_from(ts, i + 1, s2, o2)
                }
            },
            TokenType::UnaryOperator => convert_from(ts, i + 1, stack.push(t), out),
            TokenType::BinaryOperator => {
                let op1 = operator_table_spec(t.0, t.1);
                let (s2, o2) = pop_ge(op1, stack, out);
                convert_from(ts, i + 1, s2.push(t), o2)
            },
            TokenType::OpenedParenthesis => convert_from(ts, i + 1, stack.push(t), out),
            TokenType::ClosedParenthesis => {
                let (s2, o2) = pop_to_open(stack, out);
                if s2.len() == 0 {
                    Err(ConversionError::MissingOpenParen)
                } else {
                    let s3 = s2.drop_last();
                    if s3.len() > 0 && s3.last().0 == TokenType::Function {
                        convert_from(ts, i + 1, s3.drop_last(), o2.push(lexem_of(s3.last())))
                    } else {
                        convert_from(ts, i + 1, s3, o2)
                    }
                }
            },
            TokenType::Whitespaces => convert_from(ts, i + 1, stack, out),
        }
    }
}

/// The postfix lexem sequence of a whole token sequence.
pub open spec fn convert_spec(ts: Seq<TokenView>) -> Result<Seq<LexemV>, ConversionError> {
    convert_from(ts, 0, Seq::empty(), Seq::empty())
}

/// A copy of a token.
fn clone_token(t: &Token) -> (r: Token)
    ensures
        r == *t,
{
    (t.0, t.1.clone())
}

/// Turns a stacked token into the lexem the output receives.
fn op_lexem(tok: &Token) -> (l: Lexem)
    requires
        tok.0 == TokenType::Function || tok.0 == TokenType::UnaryOperator || tok.0
            == TokenType::BinaryOperator || tok.0 == TokenType::OpenedParenthesis,
    ensures
        l@ == lexem_of((tok.0, tok.1@)),
{
    match Lexem::new(tok) {
        Some(l) => l,
        None => {
            proof {
                assert(false);
            }
            Lexem::NumberLex(crate::number::Number::from_int(0))
        },
    }
}

/// The infix-to-postfix converter.
pub struct InfixToRPN {}

impl InfixToRPN {
    /// Converts a validated token sequence into the postfix lexem queue,
    /// or reports the first grouping error.
    pub fn convert(&self, input: TokenList) -> (r: Result<Expression, ConversionError>)
        requires
            num_literals_wf(tokens_view(input@)),
        ensures
            r matches Ok(e) ==> convert_spec(tokens_view(input@)) == Ok::<_, ConversionError>(
                lexems_view(e@),
            ),
            r matches Err(er) ==> convert_spec(tokens_view(input@)) == Err::<Seq<LexemV>, _>(er),
    {
        let ghost ts = tokens_view(input@);
        let mut stack: Stack<Token> = Stack::new();
        let mut output: Expression = Queue::new();
        let n = input.len();
        let mut i: usize = 0;
        proof {
            assert(tokens_view(stack@) =~= Seq::<TokenView>::empty());
            assert(lexems_view(output@) =~= Seq::<LexemV>::empty());
        }
        while i < n
            invariant
                i <= n,
                n == input@.len(),
                ts == tokens_view(input@),
                num_literals_wf(ts),
                stack_cats_ok(tokens_view(stack@)),
                convert_from(ts, i as int, tokens_view(stack@), lexems_view(output@))
                    == convert_spec(ts),
            decreases n - i,
        {
            let ghost sv = tokens_view(stack@);
            let ghost ov = lexems_view(output@);
            proof {
                assert(ts[i as int] == (input@[i as int].0, input@[i as int].1@));
            }
            let cat = input[i].0;
            match cat {
                TokenType::NumberInt | TokenType::NumberFloat => {
                    // a number goes straight to the output
                    match Lexem::new(&input[i]) {
                        Some(l) => {
                            output.enqueue(l);
                            proof {
                                assert(lexems_view(output@) =~= ov.push(l@));
                            }
                        },
                        None => {
                            return Err(ConversionError::NumberTooLarge);
                        },
                    }
                },
                TokenType::Function => {
                    // a function name waits on the stack for its closing
                    // parenthesis
                    let tok = clone_token(&input[i]);
                    stack.push(tok);
                    proof {
                        assert(tokens_view(stack@) =~= sv.push(ts[i as int]));
                    }
                },
                TokenType::ArgumentSeparator => {
                    // pop operators until the opening parenthesis
                    self.pop_until_open(&mut stack, &mut output);
                    if stack.is_empty() {
                        return Err(ConversionError::MissingSeparatorOrOpenParen);
                    }
                },
                TokenType::UnaryOperator => {
                    // a unary operator is never compared to the stack top
                    let tok = clone_token(&input[i]);
                    stack.push(tok);
                    proof {
                        assert(tokens_view(stack@) =~= sv.push(ts[i as int]));
                    }
                },
                TokenType::BinaryOperator => {
                    let op1 = Operator::get_operator(&input[i]);
                    let ghost op1v = operator_table_spec(ts[i as int].0, ts[i as int].1);
                    while !stack.is_empty() && op1.ge(&Operator::get_operator(
                        stack.peek().unwrap(),
                    ))
                        invariant
                            stack_cats_ok(tokens_view(stack@)),
                            op1@ == op1v,
                            pop_ge(op1v, tokens_view(stack@), lexems_view(output@)) == pop_ge(
                                op1v,
                                sv,
                                ov,
                            ),
                        decreases stack@.len(),
                    {
                        let ghost psv = tokens_view(stack@);
                        let ghost pov = lexems_view(output@);
                        let last = stack.pop().unwrap();
                        let l = op_lexem(&last);
                        output.enqueue(l);
                        proof {
                            let lastv: TokenView = (last.0, last.1@);
                            assert(psv.last() == lastv);
                            assert(psv.drop_last() =~= tokens_view(stack@));
                            assert(lexems_view(output@) =~= pov.push(l@));
                            assert(op_ge(op1v, operator_table_spec(lastv.0, lastv.1)));
                            assert(pop_ge(op1v, psv, pov) == pop_ge(
                                op1v,
                                tokens_view(stack@),
                                lexems_view(output@),
                            ));
                            assert forall|j: int|
                                0 <= j < tokens_view(stack@).len() implies (
                            #[trigger] tokens_view(stack@)[j]) == psv[j] by {}
                        }
                    }
                    proof {
                        assert(pop_ge(op1v, tokens_view(stack@), lexems_view(output@)) == (
                        tokens_view(stack@),
                        lexems_view(output@),
                        ));
                    }
                    let ghost s2 = tokens_view(stack@);
                    let tok = clone_token(&input[i]);
                    stack.push(tok);
                    proof {
                        assert(tokens_view(stack@) =~= s2.push(ts[i as int]));
                    }
                },
                TokenType::OpenedParenthesis => {
                    let tok = clone_token(&input[i]);
                    stack.push(tok);
                    proof {
                        assert(tokens_view(stack@) =~= sv.push(ts[i as int]));
                    }
                },
                TokenType::ClosedParenthesis => {
                    // pop operators until the opening parenthesis, then
                    // discard it; a function name right underneath is
                    // popped to the output as well
                    self.pop_until_open(&mut stack, &mut output);
                    if stack.is_empty() {
                        return Err(ConversionError::MissingOpenParen);
                    }
                    let ghost s2 = tokens_view(stack@);
                    let _ = stack.pop();
                    proof {
                        assert(tokens_view(stack@) =~= s2.drop_last());
                        assert forall|j: int|
                            0 <= j < tokens_view(stack@).len() implies (
                        #[trigger] tokens_view(stack@)[j]) == s2[j] by {}
                    }
                    let ghost s3 = tokens_view(stack@);
                    let mut fn_on_top = false;
                    match stack.peek() {
                        Some(t) => {
                            proof {
                                assert(s3.last() == ((stack@.last().0, stack@.last().1@)));
                            }
                            if t.0 == TokenType::Function {
                                fn_on_top = true;
                            }
                        },
                        None => {},
                    }
                    proof {
                        assert(fn_on_top == (s3.len() > 0 && s3.last().0 == TokenType::Function));
                    }
                    if fn_on_top {
                        let ghost pov = lexems_view(output@);
                        let last = stack.pop().unwrap();
                        let l = op_lexem(&last);
                        output.enqueue(l);
                        proof {
                            let lastv: TokenView = (last.0, last.1@);
                            assert(s3.last() == lastv);
                            assert(tokens_view(stack@) =~= s3.drop_last());
                            assert(lexems_view(output@) =~= pov.push(l@));
                            assert forall|j: int|
                                0 <= j < tokens_view(stack@).len() implies (
                            #[trigger] tokens_view(stack@)[j]) == s3[j] by {}
                        }
                    }
                },
                TokenType::Whitespaces => {
                    // never expected at this stage; a non-fatal anomaly
                    // that is skipped
                },
            }
            i = i + 1;
        }
        // input consumed: drain the stack into the output
        while !stack.is_empty()
            invariant
                ts == tokens_view(input@),
                stack_cats_ok(tokens_view(stack@)),
                finish_spec(tokens_view(stack@), lexems_view(output@)) == convert_spec(ts),
            decreases stack@.len(),
        {
            let ghost psv = tokens_view(stack@);
            let ghost pov = lexems_view(output@);
            proof {
                assert(psv.len() == stack@.len());
                assert(psv.last() == ((stack@.last().0, stack@.last().1@)));
            }
            let is_open = match stack.peek() {
                Some(t) => t.0 == TokenType::OpenedParenthesis,
                None => false,
            };
            if is_open {
                return Err(ConversionError::UnbalancedParen);
            }
            let last = stack.pop().unwrap();
            let l = op_lexem(&last);
            output.enqueue(l);
            proof {
                let lastv: TokenView = (last.0, last.1@);
                assert(psv.last() == lastv);
                assert(psv.drop_last() =~= tokens_view(stack@));
                assert(lexems_view(output@) =~= pov.push(l@));
                assert forall|j: int|
                    0 <= j < tokens_view(stack@).len() implies (
                #[trigger] tokens_view(stack@)[j]) == psv[j] by {}
            }
        }
        Ok(output)
    }

    /// Pops stacked operators to the output until the stack top is an
    /// opening parenthesis or the stack is empty.
    fn pop_until_open(&self, stack: &mut Stack<Token>, output: &mut Expression)
        requires
            stack_cats_ok(tokens_view(old(stack)@)),
        ensures
            stack_cats_ok(tokens_view(final(stack)@)),
            (tokens_view(final(stack)@), lexems_view(final(output)@)) == pop_to_open(
                tokens_view(old(stack)@),
                lexems_view(old(output)@),
            ),
            final(stack)@.len() == 0 || tokens_view(final(stack)@).last().0
                == TokenType::OpenedParenthesis,
    {
        while !stack.is_empty() && stack.peek().unwrap().0 != TokenType::OpenedParenthesis
            invariant
                stack_cats_ok(tokens_view(stack@)),
                pop_to_open(tokens_view(stack@), lexems_view(output@)) == pop_to_open(
                    tokens_view(old(stack)@),
                    lexems_view(old(output)@),
                ),
            decreases stack@.len(),
        {
            let ghost psv = tokens_view(stack@);
            let ghost pov = lexems_view(output@);
            let last = stack.pop().unwrap();
            let l = op_lexem(&last);
            output.enqueue(l);
            proof {
                let ghost lastv: TokenView = (last.0, last.1@);
                assert(psv.last() == lastv);
                assert(psv.drop_last() =~= tokens_view(stack@));
                assert(lexems_view(output@) =~= pov.push(l@));
                assert(pop_to_open(psv, pov) == pop_to_open(
                    tokens_view(stack@),
                    lexems_view(output@),
                ));
                assert forall|j: int| 0 <= j < tokens_view(stack@).len() implies (
                #[trigger] tokens_view(stack@)[j]) == psv[j] by {}
            }
        }
        proof {
            assert(pop_to_open(tokens_view(stack@), lexems_view(output@)) == (
            tokens_view(stack@),
            lexems_view(output@),
            ));
        }
    }
}

} // verus!
