//! Fully parenthesized expression trees, and the round trip through the
//! pipeline: converting the tree's infix token sequence yields exactly its
//! postfix linearization, and evaluating that postfix sequence yields
//! exactly the tree's direct evaluation.

use vstd::prelude::*;

use crate::converters::convert_from;
use crate::converters::convert_spec;
use crate::converters::finish_spec;
use crate::converters::lexem_of;
use crate::converters::op_ge;
use crate::converters::pop_ge;
use crate::converters::pop_to_open;
use crate::converters::ConversionError;
use crate::evaluator::eval_from;
use crate::evaluator::evaluate_spec;
use crate::evaluator::EvalError;
use crate::number::is_float_literal;
use crate::number::is_int_literal;
use crate::number::parse_literal_spec;
use crate::number::Number;
use crate::operator::apply_binary_spec;
use crate::operator::apply_unary_spec;
use crate::operator::lexem_spec;
use crate::operator::operator_table_spec;
use crate::operator::LexemV;
use crate::operator::OpView;
use crate::token::TokenType;
use crate::token::TokenView;

verus! {

/// A fully parenthesized expression: a number literal, or an operator
/// with each compound operand wrapped in its own parentheses.
pub enum Ast {
    /// A number token: its category and its literal text.
    Lit(TokenType, Seq<char>),
    /// `( sign operand )` for a unary sign with the given text.
    Unary(Seq<char>, Box<Ast>),
    /// `( left op right )` for a binary operator with the given text.
    Binary(Seq<char>, Box<Ast>, Box<Ast>),
}

/// A well-formed tree: literals have a number category, a literal text of
/// the tokenizer's shape and a value that fits the machine word, and every
/// operator text resolves in the operator table with the right arity.
pub open spec fn ast_wf(a: Ast) -> bool
    decreases a,
{
    match a {
        Ast::Lit(cat, text) => (cat == TokenType::NumberInt || cat == TokenType::NumberFloat) && (
        is_int_literal(text) || is_float_literal(text)) && parse_literal_spec(text) is Some,
        Ast::Unary(op, x) => (operator_table_spec(TokenType::UnaryOperator, op) matches
            OpView::Unary(_)) && ast_wf(*x),
        Ast::Binary(op, l, r) => (operator_table_spec(TokenType::BinaryOperator, op) matches
            OpView::Binary(_)) && ast_wf(*l) && ast_wf(*r),
    }
}

/// The infix token sequence of the tree, fully parenthesized.
pub open spec fn tokens_of(a: Ast) -> Seq<TokenView>
    decreases a,
{
    match a {
        Ast::Lit(cat, text) => seq![(cat, text)],
        Ast::Unary(op, x) => seq![
            (TokenType::OpenedParenthesis, "("@),
            (TokenType::UnaryOperator, op),
        ] + tokens_of(*x) + seq![(TokenType::ClosedParenthesis, ")"@)],
        Ast::Binary(op, l, r) => seq![(TokenType::OpenedParenthesis, "("@)] + tokens_of(*l)
            + seq![(TokenType::BinaryOperator, op)] + tokens_of(*r) + seq![
            (TokenType::ClosedParenthesis, ")"@),
        ],
    }
}

/// The postfix linearization of the tree: each operator follows all of
/// its operands.
pub open spec fn rpn_of(a: Ast) -> Seq<LexemV>
    decreases a,
{
    match a {
        Ast::Lit(cat, text) => seq![lexem_spec(cat, text)->0],
        Ast::Unary(op, x) => rpn_of(*x) + seq![
            LexemV::Op(operator_table_spec(TokenType::UnaryOperator, op)),
        ],
        Ast::Binary(op, l, r) => rpn_of(*l) + rpn_of(*r) + seq![
            LexemV::Op(operator_table_spec(TokenType::BinaryOperator, op)),
        ],
    }
}

/// Direct evaluation of the tree, left to right, each operator applied to
/// its operands' values; `None` when a reduction fails.
pub open spec fn eval_ast(a: Ast) -> Option<Number>
    decreases a,
{
    match a {
        Ast::Lit(cat, text) => parse_literal_spec(text),
        Ast::Unary(op, x) => match eval_ast(*x) {
            Some(v) => match operator_table_spec(TokenType::UnaryOperator, op) {
                OpView::Unary(b) => apply_unary_spec(b.apply, v),
                _ => None,
            },
            None => None,
        },
        Ast::Binary(op, l, r) => match (eval_ast(*l), eval_ast(*r)) {
            (Some(x), Some(y)) => match operator_table_spec(TokenType::BinaryOperator, op) {
                OpView::Binary(b) => apply_binary_spec(b.apply, x, y),
                _ => None,
            },
            _ => None,
        },
    }
}

/// Reveals every literal the operator table and the parenthesis tokens
/// use, so that the table can be evaluated on concrete texts.
proof fn reveal_table_literals()
    ensures
        "("@ =~= seq!['('],
        ")"@ =~= seq![')'],
        "+"@ =~= seq!['+'],
        "-"@ =~= seq!['-'],
        ">>"@ =~= seq!['>', '>'],
        "<<"@ =~= seq!['<', '<'],
        "/"@ =~= seq!['/'],
        "*"@ =~= seq!['*'],
        "%"@ =~= seq!['%'],
        "^"@ =~= seq!['^'],
{
    reveal_strlit("(");
    reveal_strlit(")");
    reveal_strlit("+");
    reveal_strlit("-");
    reveal_strlit(">>");
    reveal_strlit("<<");
    reveal_strlit("/");
    reveal_strlit("*");
    reveal_strlit("%");
    reveal_strlit("^");
}

/// The parenthesis token resolves to no operator, so it stops the
/// binary-operator popping.
proof fn lemma_open_paren_unknown()
    ensures
        operator_table_spec(TokenType::OpenedParenthesis, "("@) == OpView::Unknown,
        forall|op: OpView| !op_ge(op, OpView::Unknown),
{
    reveal_table_literals();
    assert("("@ != ">>"@);
    assert("("@ != "<<"@);
    assert("("@ != "+"@) by {
        assert("("@[0] == '(' && "+"@[0] == '+');
    }
    assert("("@ != "-"@) by {
        assert("("@[0] == '(' && "-"@[0] == '-');
    }
    assert("("@ != "/"@) by {
        assert("("@[0] == '(' && "/"@[0] == '/');
    }
    assert("("@ != "*"@) by {
        assert("("@[0] == '(' && "*"@[0] == '*');
    }
    assert("("@ != "%"@) by {
        assert("("@[0] == '(' && "%"@[0] == '%');
    }
    assert("("@ != "^"@) by {
        assert("("@[0] == '(' && "^"@[0] == '^');
    }
}

/// Converting the tree's token sequence, from any state whose stack top
/// is not a function name, appends exactly the tree's postfix
/// linearization to the output and leaves the stack as it was.
#[verifier::rlimit(100)]
proof fn lemma_convert_ast(a: Ast, ts: Seq<TokenView>, i: int, stack: Seq<TokenView>, out: Seq<
    LexemV,
>)
    requires
        ast_wf(a),
        0 <= i,
        i + tokens_of(a).len() <= ts.len(),
        ts.subrange(i, i + tokens_of(a).len()) == tokens_of(a),
        stack.len() == 0 || stack.last().0 != TokenType::Function,
    ensures
        convert_from(ts, i, stack, out) == convert_from(
            ts,
            i + tokens_of(a).len(),
            stack,
            out + rpn_of(a),
        ),
    decreases a,
{
    reveal_table_literals();
    match a {
        Ast::Lit(cat, text) => {
            assert(ts[i] == tokens_of(a)[0]);
            assert(lexem_spec(cat, text) is Some);
            assert(out.push(lexem_spec(cat, text)->0) =~= out + rpn_of(a));
        },
        Ast::Unary(op, x) => {
            let lx = tokens_of(*x).len() as int;
            let la = i + 2 + lx + 1;
            assert(tokens_of(a).len() == lx + 3);
            assert(ts[i] == tokens_of(a)[0]);
            assert(ts[i + 1] == tokens_of(a)[1]);
            assert(ts[i + 2 + lx] == tokens_of(a)[2 + lx]);
            assert(tokens_of(a)[0] == ((TokenType::OpenedParenthesis, "("@)));
            assert(tokens_of(a)[1] == ((TokenType::UnaryOperator, op)));
            assert(tokens_of(a)[2 + lx] == ((TokenType::ClosedParenthesis, ")"@)));
            let st1 = stack.push((TokenType::OpenedParenthesis, "("@));
            let st2 = st1.push((TokenType::UnaryOperator, op));
            assert(convert_from(ts, i, stack, out) == convert_from(ts, i + 1, st1, out));
            assert(convert_from(ts, i + 1, st1, out) == convert_from(ts, i + 2, st2, out));
            assert(ts.subrange(i + 2, i + 2 + lx) =~= tokens_of(*x)) by {
                assert forall|k: int| 0 <= k < lx implies ts.subrange(i + 2, i + 2 + lx)[k]
                    == tokens_of(*x)[k] by {
                    assert(ts[i + 2 + k] == tokens_of(a)[2 + k]);
                }
            }
            lemma_convert_ast(*x, ts, i + 2, st2, out);
            // the closing parenthesis pops the sign and discards the paren
            let o1 = out + rpn_of(*x);
            assert(st2.last() == ((TokenType::UnaryOperator, op)));
            assert(st2.drop_last() =~= st1);
            assert(pop_to_open(st2, o1) == pop_to_open(st1, o1.push(lexem_of(st2.last()))));
            assert(pop_to_open(st1, o1.push(lexem_of(st2.last()))) == (
            st1,
            o1.push(lexem_of(st2.last())),
            ));
            assert(st1.drop_last() =~= stack);
            assert(lexem_of((TokenType::UnaryOperator, op)) == LexemV::Op(
                operator_table_spec(TokenType::UnaryOperator, op),
            ));
            assert(o1.push(LexemV::Op(operator_table_spec(TokenType::UnaryOperator, op))) =~= out
                + rpn_of(a));
            assert(convert_from(ts, i + 2 + lx, st2, o1) == convert_from(
                ts,
                la,
                stack,
                out + rpn_of(a),
            ));
        },
        Ast::Binary(op, l, r) => {
            let ll = tokens_of(*l).len() as int;
            let lr = tokens_of(*r).len() as int;
            assert(tokens_of(a).len() == 1 + ll + 1 + lr + 1);
            assert(ts[i] == tokens_of(a)[0]);
            assert(ts[i + 1 + ll] == tokens_of(a)[1 + ll]);
            assert(ts[i + 1 + ll + 1 + lr] == tokens_of(a)[1 + ll + 1 + lr]);
            assert(tokens_of(a)[0] == ((TokenType::OpenedParenthesis, "("@)));
            assert(tokens_of(a)[1 + ll] == ((TokenType::BinaryOperator, op)));
            assert(tokens_of(a)[1 + ll + 1 + lr] == ((TokenType::ClosedParenthesis, ")"@)
               ));
            let st1 = stack.push((TokenType::OpenedParenthesis, "("@));
            assert(convert_from(ts, i, stack, out) == convert_from(ts, i + 1, st1, out));
            assert(ts.subrange(i + 1, i + 1 + ll) =~= tokens_of(*l)) by {
                assert forall|k: int| 0 <= k < ll implies ts.subrange(i + 1, i + 1 + ll)[k]
                    == tokens_of(*l)[k] by {
                    assert(ts[i + 1 + k] == tokens_of(a)[1 + k]);
                }
            }
            lemma_convert_ast(*l, ts, i + 1, st1, out);
            // the binary operator never pops past the open parenthesis
            let o1 = out + rpn_of(*l);
            let op1 = operator_table_spec(TokenType::BinaryOperator, op);
            lemma_open_paren_unknown();
            assert(pop_ge(op1, st1, o1) == (st1, o1));
            let st2 = st1.push((TokenType::BinaryOperator, op));
            assert(convert_from(ts, i + 1 + ll, st1, o1) == convert_from(
                ts,
                i + 1 + ll + 1,
                st2,
                o1,
            ));
            assert(ts.subrange(i + 2 + ll, i + 2 + ll + lr) =~= tokens_of(*r)) by {
                assert forall|k: int| 0 <= k < lr implies ts.subrange(i + 2 + ll, i + 2 + ll + lr)[k]
                    == tokens_of(*r)[k] by {
                    assert(ts[i + 2 + ll + k] == tokens_of(a)[2 + ll + k]);
                }
            }
            lemma_convert_ast(*r, ts, i + 2 + ll, st2, o1);
            // the closing parenthesis pops the operator and discards the
            // paren
            let o2 = o1 + rpn_of(*r);
            assert(st2.last() == ((TokenType::BinaryOperator, op)));
            assert(st2.drop_last() =~= st1);
            assert(pop_to_open(st2, o2) == pop_to_open(st1, o2.push(lexem_of(st2.last()))));
            assert(pop_to_open(st1, o2.push(lexem_of(st2.last()))) == (
            st1,
            o2.push(lexem_of(st2.last())),
            ));
            assert(st1.drop_last() =~= stack);
            assert(lexem_of((TokenType::BinaryOperator, op)) == LexemV::Op(op1));
            assert(o2.push(LexemV::Op(op1)) =~= out + rpn_of(a));
            assert(convert_from(ts, i + 2 + ll + lr, st2, o2) == convert_from(
                ts,
                i + tokens_of(a).len(),
                stack,
                out + rpn_of(a),
            ));
        },
    }
}

/// Evaluating the tree's postfix linearization, from any state, pushes
/// exactly the tree's direct value — or stops with the arithmetic
/// failure the direct evaluation runs into.
#[verifier::rlimit(100)]
proof fn lemma_eval_ast(a: Ast, lexs: Seq<LexemV>, i: int, stack: Seq<Number>)
    requires
        ast_wf(a),
        0 <= i,
        i + rpn_of(a).len() <= lexs.len(),
        lexs.subrange(i, i + rpn_of(a).len()) == rpn_of(a),
    ensures
        match eval_ast(a) {
            Some(v) => eval_from(lexs, i, stack) == eval_from(
                lexs,
                i + rpn_of(a).len(),
                stack.push(v),
            ),
            None => eval_from(lexs, i, stack) == Err::<Number, EvalError>(
                EvalError::ArithmeticFailure,
            ),
        },
    decreases a,
{
    match a {
        Ast::Lit(cat, text) => {
            assert(lexs[i] == rpn_of(a)[0]);
            assert(lexem_spec(cat, text) is Some);
            assert(lexs[i] == LexemV::Num(parse_literal_spec(text)->0));
        },
        Ast::Unary(op, x) => {
            let lx = rpn_of(*x).len() as int;
            assert(rpn_of(a).len() == lx + 1);
            assert(lexs.subrange(i, i + lx) =~= rpn_of(*x)) by {
                assert forall|k: int| 0 <= k < lx implies lexs.subrange(i, i + lx)[k] == rpn_of(
                    *x,
                )[k] by {
                    assert(lexs[i + k] == rpn_of(a)[k]);
                }
            }
            lemma_eval_ast(*x, lexs, i, stack);
            assert(lexs[i + lx] == rpn_of(a)[lx]);
            match eval_ast(*x) {
                Some(v) => {
                    let b = operator_table_spec(TokenType::UnaryOperator, op);
                    assert(lexs[i + lx] == LexemV::Op(b));
                    let st1 = stack.push(v);
                    match b {
                        OpView::Unary(bb) => {
                            match apply_unary_spec(bb.apply, v) {
                                Some(w) => {
                                    assert(st1.drop_last().push(w) =~= stack.push(w));
                                },
                                None => {},
                            }
                        },
                        _ => {
                            assert(false);
                        },
                    }
                },
                None => {},
            }
        },
        Ast::Binary(op, l, r) => {
            let ll = rpn_of(*l).len() as int;
            let lr = rpn_of(*r).len() as int;
            assert(rpn_of(a).len() == ll + lr + 1);
            assert(lexs.subrange(i, i + ll) =~= rpn_of(*l)) by {
                assert forall|k: int| 0 <= k < ll implies lexs.subrange(i, i + ll)[k] == rpn_of(
                    *l,
                )[k] by {
                    assert(lexs[i + k] == rpn_of(a)[k]);
                }
            }
            lemma_eval_ast(*l, lexs, i, stack);
            match eval_ast(*l) {
                Some(x) => {
                    let st1 = stack.push(x);
                    assert(lexs.subrange(i + ll, i + ll + lr) =~= rpn_of(*r)) by {
                        assert forall|k: int| 0 <= k < lr implies lexs.subrange(
                            i + ll,
                            i + ll + lr,
                        )[k] == rpn_of(*r)[k] by {
                            assert(lexs[i + ll + k] == rpn_of(a)[ll + k]);
                        }
                    }
                    lemma_eval_ast(*r, lexs, i + ll, st1);
                    match eval_ast(*r) {
                        Some(y) => {
                            let st2 = st1.push(y);
                            assert(lexs[i + ll + lr] == rpn_of(a)[ll + lr]);
                            let b = operator_table_spec(TokenType::BinaryOperator, op);
                            assert(lexs[i + ll + lr] == LexemV::Op(b));
                            match b {
                                OpView::Binary(bb) => {
                                    assert(st2.len() >= 2);
                                    assert(st2.last() == y);
                                    assert(st2[st2.len() - 2] == x);
                                    match apply_binary_spec(bb.apply, x, y) {
                                        Some(w) => {
                                            assert(st2.drop_last().drop_last().push(w)
                                                =~= stack.push(w));
                                        },
                                        None => {},
                                    }
                                },
                                _ => {
                                    assert(false);
                                },
                            }
                        },
                        None => {},
                    }
                },
                None => {},
            }
        },
    }
}

/// The round trip of a fully parenthesized expression: converting its
/// token sequence yields exactly its postfix linearization, and
/// evaluating that linearization yields exactly its direct left-to-right
/// evaluation — or the arithmetic failure the direct evaluation runs
/// into.
pub proof fn lemma_convert_evaluate_round_trip(a: Ast)
    requires
        ast_wf(a),
    ensures
        convert_spec(tokens_of(a)) == Ok::<Seq<LexemV>, ConversionError>(rpn_of(a)),
        evaluate_spec(rpn_of(a)) == (match eval_ast(a) {
            Some(v) => Ok::<Number, EvalError>(v),
            None => Err::<Number, EvalError>(EvalError::ArithmeticFailure),
        }),
{
    let ts = tokens_of(a);
    assert(ts.subrange(0, ts.len() as int) =~= ts);
    assert(Seq::<LexemV>::empty() + rpn_of(a) =~= rpn_of(a));
    lemma_convert_ast(a, ts, 0, Seq::empty(), Seq::empty());
    assert(convert_from(ts, ts.len() as int, Seq::empty(), rpn_of(a)) == finish_spec(
        Seq::empty(),
        rpn_of(a),
    ));
    let lexs = rpn_of(a);
    assert(lexs.subrange(0, lexs.len() as int) =~= lexs);
    lemma_eval_ast(a, lexs, 0, Seq::empty());
    match eval_ast(a) {
        Some(v) => {
            let st = Seq::<Number>::empty().push(v);
            assert(st.len() == 1);
            assert(st.last() == v);
        },
        None => {},
    }
}

} // verus!


