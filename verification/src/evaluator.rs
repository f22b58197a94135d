//! The evaluator: drains a postfix expression front to back into an
//! explicit value stack, applying each operator's reduction in order.
//!
//! A binary operator pops its right-hand operand first and its left-hand
//! operand second, matching postfix order where the operator follows both
//! operands. After the drain exactly one value must remain: more is a
//! leftover-operand error, none means there was nothing to evaluate.

use vstd::prelude::*;

use crate::number::Number;
use crate::operator::apply_binary;
use crate::operator::apply_binary_spec;
use crate::operator::apply_unary;
use crate::operator::apply_unary_spec;
use crate::operator::lexem_wf;
use crate::operator::lexems_view;
use crate::operator::Expression;
use crate::operator::Lexem;
use crate::operator::LexemV;
use crate::operator::Operator;
use crate::operator::OpView;
use crate::stack::Stack;

verus! {

/// The errors the evaluator reports.
#[derive(Debug, Clone, Copy, PartialEq, Eq, Structural)]
pub enum EvalError {
    /// An operator found fewer operands on the stack than its arity needs.
    ArityUnderflow,
    /// More than one value remained after the drain.
    LeftoverOperands,
    /// No value remained after the drain.
    EmptyExpression,
    /// A reduction failed: an overflow, a division by zero, or a zero base
    /// under a negative exponent.
    ArithmeticFailure,
}

/// Every number in the lexem sequence is well formed.
pub open spec fn nums_wf(lexs: Seq<LexemV>) -> bool {
    forall|j: int| #![trigger lexs[j]] 0 <= j < lexs.len() ==> lexem_wf(lexs[j])
}

/// The evaluation of the lexems from position `i` on, over the value
/// stack so far.
pub open spec fn eval_from(lexs: Seq<LexemV>, i: int, stack: Seq<Number>) -> Result<
    Number,
    EvalError,
>
    decreases lexs.len() - i,
{
    if i < 0 || i >= lexs.len() {
        if stack.len() == 1 {
            Ok(stack.last())
        } else if stack.len() > 1 {
            Err(EvalError::LeftoverOperands)
        } else {
            Err(EvalError::EmptyExpression)
        }
    } else {
        match lexs[i] {
            LexemV::Num(n) => eval_from(lexs, i + 1, stack.push(n)),
            LexemV::Op(op) => match op {
                OpView::Unary(b) => if stack.len() == 0 {
                    Err(EvalError::ArityUnderflow)
                } else {
                    match apply_unary_spec(b.apply, stack.last()) {
                        Some(v) => eval_from(lexs, i + 1, stack.drop_last().push(v)),
                        None => Err(EvalError::ArithmeticFailure),
                    }
                },
                OpView::Binary(b) => if stack.len() < 2 {
                    Err(EvalError::ArityUnderflow)
                } else {
                    match apply_binary_spec(b.apply, stack[stack.len() - 2], stack.last()) {
                        Some(v) => eval_from(
                            lexs,
                            i + 1,
                            stack.drop_last().drop_last().push(v),
                        ),
                        None => Err(EvalError::ArithmeticFailure),
                    }
                },
                _ => eval_from(lexs, i + 1, stack),
            },
        }
    }
}

/// How many lexems the evaluator consumes before it stops: all of them on
/// success and on the end-of-drain errors, and everything up to and
/// including the failing lexem otherwise.
pub open spec fn eval_consumed(lexs: Seq<LexemV>, i: int, stack: Seq<Number>) -> int
    decreases lexs.len() - i,
{
    if i < 0 || i >= lexs.len() {
        i
    } else {
        match lexs[i] {
            LexemV::Num(n) => eval_consumed(lexs, i + 1, stack.push(n)),
            LexemV::Op(op) => match op {
                OpView::Unary(b) => if stack.len() == 0 {
                    i + 1
                } else {
                    match apply_unary_spec(b.apply, stack.last()) {
                        Some(v) => eval_consumed(lexs, i + 1, stack.drop_last().push(v)),
                        None => i + 1,
                    }
                },
                OpView::Binary(b) => if stack.len() < 2 {
                    i + 1
                } else {
                    match apply_binary_spec(b.apply, stack[stack.len() - 2], stack.last()) {
                        Some(v) => eval_consumed(
                            lexs,
                            i + 1,
                            stack.drop_last().drop_last().push(v),
                        ),
                        None => i + 1,
                    }
                },
                _ => eval_consumed(lexs, i + 1, stack),
            },
        }
    }
}

/// What a whole expression evaluates to.
pub open spec fn evaluate_spec(lexs: Seq<LexemV>) -> Result<Number, EvalError> {
    eval_from(lexs, 0, Seq::empty())
}

/// A drained expression evaluates to the empty-expression error: the
/// postfix program is single-use, front to back, and is not restartable.
pub proof fn lemma_drained_expression_is_empty(lexs: Seq<LexemV>)
    requires
        lexs.len() == 0,
    ensures
        evaluate_spec(lexs) == Err::<Number, EvalError>(EvalError::EmptyExpression),
{
}

/// Reduces the postfix expression to a single number, draining it front
/// to back; the queue is left holding whatever the drain did not consume.
pub fn evaluate(input: &mut Expression) -> (r: Result<Number, EvalError>)
    requires
        nums_wf(lexems_view(old(input)@)),
    ensures
        r == evaluate_spec(lexems_view(old(input)@)),
        final(input)@ == old(input)@.skip(
            eval_consumed(lexems_view(old(input)@), 0, Seq::empty()),
        ),
        r matches Ok(v) ==> v.wf() && final(input)@.len() == 0,
{
    let ghost lexs = lexems_view(old(input)@);
    let mut arguments_stack: Stack<Number> = Stack::new();
    let ghost mut i: int = 0;
    proof {
        assert(old(input)@.skip(0) =~= old(input)@);
    }
    while !input.is_empty()
        invariant
            0 <= i <= lexs.len(),
            lexs == lexems_view(old(input)@),
            lexs.len() == old(input)@.len(),
            nums_wf(lexs),
            input@ == old(input)@.skip(i),
            input@.len() == lexs.len() - i,
            forall|j: int| 0 <= j < arguments_stack@.len() ==> (#[trigger] arguments_stack@[j]).wf(),
            eval_from(lexs, i, arguments_stack@) == eval_from(lexs, 0, Seq::empty()),
            eval_consumed(lexs, i, arguments_stack@) == eval_consumed(lexs, 0, Seq::empty()),
        decreases input@.len(),
    {
        let ghost psv = arguments_stack@;
        let lexem = input.dequeue().unwrap();
        proof {
            assert(lexs[i] == old(input)@[i]@);
            assert(lexem == old(input)@[i]);
            assert(old(input)@.skip(i).drop_first() =~= old(input)@.skip(i + 1));
        }
        match lexem {
            Lexem::NumberLex(v) => {
                arguments_stack.push(v);
            },
            Lexem::OperatorLex(op) => {
                match op {
                    Operator::Unary(b) => {
                        match arguments_stack.pop() {
                            Some(arg) => {
                                match apply_unary(b.apply, arg) {
                                    Some(res) => {
                                        arguments_stack.push(res);
                                        proof {
                                            assert(arguments_stack@ =~= psv.drop_last().push(
                                                res,
                                            ));
                                        }
                                    },
                                    None => {
                                        proof {
                                            i = i + 1;
                                        }
                                        return Err(EvalError::ArithmeticFailure);
                                    },
                                }
                            },
                            None => {
                                proof {
                                    i = i + 1;
                                }
                                return Err(EvalError::ArityUnderflow);
                            },
                        }
                    },
                    Operator::Binary(b) => {
                        match arguments_stack.pop() {
                            Some(arg) => {
                                match arguments_stack.pop() {
                                    Some(arg2) => {
                                        match apply_binary(b.apply, arg2, arg) {
                                            Some(res) => {
                                                arguments_stack.push(res);
                                                proof {
                                                    assert(arguments_stack@
                                                        =~= psv.drop_last().drop_last().push(
                                                        res,
                                                    ));
                                                }
                                            },
                                            None => {
                                                proof {
                                                    i = i + 1;
                                                }
                                                return Err(EvalError::ArithmeticFailure);
                                            },
                                        }
                                    },
                                    None => {
                                        proof {
                                            i = i + 1;
                                        }
                                        return Err(EvalError::ArityUnderflow);
                                    },
                                }
                            },
                            None => {
                                proof {
                                    i = i + 1;
                                }
                                return Err(EvalError::ArityUnderflow);
                            },
                        }
                    },
                    _ => {
                        // an unknown operator never reaches the evaluator
                        // from the converter; it is skipped, as is the
                        // unused binary-function variant
                    },
                }
            },
        }
        proof {
            i = i + 1;
        }
    }
    proof {
        assert(input@ =~= Seq::<Lexem>::empty());
    }
    match arguments_stack.pop() {
        Some(result) => {
            if !arguments_stack.is_empty() {
                return Err(EvalError::LeftoverOperands);
            }
            Ok(result)
        },
        None => Err(EvalError::EmptyExpression),
    }
}

} // verus!
