//! The operator table: the recognized operator symbols with their priority,
//! associativity and reduction, and the `Lexem` element of a postfix
//! expression.
//!
//! Two operators compare equal only when both are left-associative and share
//! a priority. Ordering is defined pairwise by priority alone and is
//! undefined (non-comparable) when either side is right-associative: the
//! converter then always pushes rather than pops, which is what a
//! right-associative operator needs.

use core::cmp::Ordering;
use vstd::prelude::*;

use crate::number::add_spec;
use crate::number::div_spec;
use crate::number::is_float_literal;
use crate::number::is_int_literal;
use crate::number::mul_spec;
use crate::number::neg_spec;
use crate::number::parse_literal_spec;
use crate::number::pow_spec;
use crate::number::rem_spec;
use crate::number::shl_spec;
use crate::number::shr_spec;
use crate::number::sub_spec;
use crate::number::Number;
use crate::token::Token;
use crate::token::TokenType;

verus! {

/// The reduction performed by a unary operator.
#[derive(Debug, Clone, Copy, PartialEq, Eq, Structural)]
pub enum UnaryKind {
    /// Identity.
    Pos,
    /// Negation.
    Neg,
}

/// The reduction performed by a binary operator.
#[derive(Debug, Clone, Copy, PartialEq, Eq, Structural)]
pub enum BinaryKind {
    Add,
    Sub,
    Mul,
    Div,
    Rem,
    Shl,
    Shr,
    Pow,
}

/// The data every operator carries: a display name, a priority, whether it
/// is left-associative, and its reduction.
#[derive(Debug, Clone)]
pub struct BaseOperator<K> {
    pub name: String,
    pub priority: u32,
    pub is_left: bool,
    pub apply: K,
}

/// An operator as the converter and the evaluator see it. `Unknown` stands
/// for a symbol outside the table; it compares unequal and unorderable to
/// everything and never reaches the evaluator from the converter.
#[derive(Debug, Clone)]
pub enum Operator {
    Unary(BaseOperator<UnaryKind>),
    Binary(BaseOperator<BinaryKind>),
    BinaryFunction(BaseOperator<BinaryKind>),
    Unknown,
}

/// The ghost image of a `BaseOperator`, with the name as a character
/// sequence.
pub struct BaseOpView<K> {
    pub name: Seq<char>,
    pub priority: u32,
    pub is_left: bool,
    pub apply: K,
}

/// The ghost image of an `Operator`.
pub enum OpView {
    Unary(BaseOpView<UnaryKind>),
    Binary(BaseOpView<BinaryKind>),
    BinaryFunction(BaseOpView<BinaryKind>),
    Unknown,
}

impl<K> View for BaseOperator<K> {
    type V = BaseOpView<K>;

    open spec fn view(&self) -> BaseOpView<K> {
        BaseOpView {
            name: self.name@,
            priority: self.priority,
            is_left: self.is_left,
            apply: self.apply,
        }
    }
}

impl View for Operator {
    type V = OpView;

    open spec fn view(&self) -> OpView {
        match self {
            Operator::Unary(b) => OpView::Unary(b@),
            Operator::Binary(b) => OpView::Binary(b@),
            Operator::BinaryFunction(b) => OpView::BinaryFunction(b@),
            Operator::Unknown => OpView::Unknown,
        }
    }
}

/// The priority and associativity of an operator, where they are defined.
pub open spec fn op_params(a: OpView) -> Option<(u32, bool)> {
    match a {
        OpView::Unary(b) => Some((b.priority, b.is_left)),
        OpView::Binary(b) => Some((b.priority, b.is_left)),
        _ => None,
    }
}

/// Equality of operators: both left-associative with the same priority.
pub open spec fn op_eq_spec(a: OpView, b: OpView) -> bool {
    match (op_params(a), op_params(b)) {
        (Some((p1, l1)), Some((p2, l2))) => l1 && l2 && p1 == p2,
        _ => false,
    }
}

/// The partial order of operators: defined by priority alone, and only
/// when both sides are left-associative.
pub open spec fn op_cmp_spec(a: OpView, b: OpView) -> Option<Ordering> {
    match (op_params(a), op_params(b)) {
        (Some((p1, l1)), Some((p2, l2))) => if l1 && l2 {
            if p1 < p2 {
                Some(Ordering::Less)
            } else if p1 > p2 {
                Some(Ordering::Greater)
            } else {
                Some(Ordering::Equal)
            }
        } else {
            None
        },
        _ => None,
    }
}

impl PartialEq for Operator {
    fn eq(&self, other: &Self) -> (r: bool) {
        let (p1, l1) = match self {
            Operator::Unary(b) => (b.priority, b.is_left),
            Operator::Binary(b) => (b.priority, b.is_left),
            _ => { return false },
        };
        let (p2, l2) = match other {
            Operator::Unary(b) => (b.priority, b.is_left),
            Operator::Binary(b) => (b.priority, b.is_left),
            _ => { return false },
        };
        l1 && l2 && p1 == p2
    }
}

impl vstd::std_specs::cmp::PartialEqSpecImpl for Operator {
    open spec fn obeys_eq_spec() -> bool {
        true
    }

    open spec fn eq_spec(&self, other: &Operator) -> bool {
        op_eq_spec(self@, other@)
    }
}

impl PartialOrd for Operator {
    fn partial_cmp(&self, other: &Self) -> (r: Option<Ordering>) {
        let (p1, l1) = match self {
            Operator::Unary(b) => (b.priority, b.is_left),
            Operator::Binary(b) => (b.priority, b.is_left),
            _ => { return None },
        };
        let (p2, l2) = match other {
            Operator::Unary(b) => (b.priority, b.is_left),
            Operator::Binary(b) => (b.priority, b.is_left),
            _ => { return None },
        };
        if l1 && l2 {
            if p1 < p2 {
                Some(Ordering::Less)
            } else if p1 > p2 {
                Some(Ordering::Greater)
            } else {
                Some(Ordering::Equal)
            }
        } else {
            None
        }
    }
}

impl vstd::std_specs::cmp::PartialOrdSpecImpl for Operator {
    open spec fn obeys_partial_cmp_spec() -> bool {
        true
    }

    open spec fn partial_cmp_spec(&self, other: &Operator) -> Option<Ordering> {
        op_cmp_spec(self@, other@)
    }
}

/// What `Operator::get_operator` resolves a token to: the fixed symbol
/// table of the calculator.
pub open spec fn operator_table_spec(cat: TokenType, text: Seq<char>) -> OpView {
    if text == "+"@ && cat == TokenType::UnaryOperator {
        OpView::Unary(
            BaseOpView { name: "POS"@, priority: 1u32, is_left: true, apply: UnaryKind::Pos },
        )
    } else if text == "-"@ && cat == TokenType::UnaryOperator {
        OpView::Unary(
            BaseOpView { name: "NEG"@, priority: 1u32, is_left: true, apply: UnaryKind::Neg },
        )
    } else if text == ">>"@ {
        OpView::Binary(
            BaseOpView { name: ""@, priority: 4u32, is_left: true, apply: BinaryKind::Shr },
        )
    } else if text == "<<"@ {
        OpView::Binary(
            BaseOpView { name: ""@, priority: 4u32, is_left: true, apply: BinaryKind::Shl },
        )
    } else if text == "+"@ {
        OpView::Binary(
            BaseOpView { name: "+"@, priority: 3u32, is_left: true, apply: BinaryKind::Add },
        )
    } else if text == "-"@ {
        OpView::Binary(
            BaseOpView { name: "-"@, priority: 3u32, is_left: true, apply: BinaryKind::Sub },
        )
    } else if text == "/"@ {
        OpView::Binary(
            BaseOpView { name: "/"@, priority: 2u32, is_left: true, apply: BinaryKind::Div },
        )
    } else if text == "*"@ {
        OpView::Binary(
            BaseOpView { name: "x"@, priority: 2u32, is_left: true, apply: BinaryKind::Mul },
        )
    } else if text == "%"@ {
        OpView::Binary(
            BaseOpView { name: "%"@, priority: 2u32, is_left: true, apply: BinaryKind::Rem },
        )
    } else if text == "^"@ {
        OpView::Binary(
            BaseOpView { name: "pow"@, priority: 5u32, is_left: false, apply: BinaryKind::Pow },
        )
    } else {
        OpView::Unknown
    }
}

impl BaseOperator<UnaryKind> {
    fn new(n: String, p: u32, l: bool, k: UnaryKind) -> (r: Operator)
        ensures
            r@ == OpView::Unary(BaseOpView { name: n@, priority: p, is_left: l, apply: k }),
    {
        Operator::Unary(BaseOperator { name: n, priority: p, is_left: l, apply: k })
    }
}

impl BaseOperator<BinaryKind> {
    fn new(n: String, p: u32, l: bool, k: BinaryKind) -> (r: Operator)
        ensures
            r@ == OpView::Binary(BaseOpView { name: n@, priority: p, is_left: l, apply: k }),
    {
        Operator::Binary(BaseOperator { name: n, priority: p, is_left: l, apply: k })
    }
}

/// `true` when the token's text reads exactly `lit`.
fn text_is(t: &Token, lit: &str) -> (b: bool)
    ensures
        b == (t.1@ == lit@),
{
    t.1 == String::from_str(lit)
}

impl Operator {
    /// Resolves a token to its operator by literal text, disambiguated by
    /// category for the overloaded `+` and `-`; anything outside the table
    /// is `Unknown`.
    pub fn get_operator(tok: &Token) -> (r: Operator)
        ensures
            r@ == operator_table_spec(tok.0, tok.1@),
    {
        if text_is(tok, "+") && tok.0 == TokenType::UnaryOperator {
            BaseOperator::<UnaryKind>::new(String::from_str("POS"), 1, true, UnaryKind::Pos)
        } else if text_is(tok, "-") && tok.0 == TokenType::UnaryOperator {
            BaseOperator::<UnaryKind>::new(String::from_str("NEG"), 1, true, UnaryKind::Neg)
        } else if text_is(tok, ">>") {
            BaseOperator::<BinaryKind>::new(String::from_str(""), 4, true, BinaryKind::Shr)
        } else if text_is(tok, "<<") {
            BaseOperator::<BinaryKind>::new(String::from_str(""), 4, true, BinaryKind::Shl)
        } else if text_is(tok, "+") {
            BaseOperator::<BinaryKind>::new(String::from_str("+"), 3, true, BinaryKind::Add)
        } else if text_is(tok, "-") {
            BaseOperator::<BinaryKind>::new(String::from_str("-"), 3, true, BinaryKind::Sub)
        } else if text_is(tok, "/") {
            BaseOperator::<BinaryKind>::new(String::from_str("/"), 2, true, BinaryKind::Div)
        } else if text_is(tok, "*") {
            BaseOperator::<BinaryKind>::new(String::from_str("x"), 2, true, BinaryKind::Mul)
        } else if text_is(tok, "%") {
            BaseOperator::<BinaryKind>::new(String::from_str("%"), 2, true, BinaryKind::Rem)
        } else if text_is(tok, "^") {
            BaseOperator::<BinaryKind>::new(String::from_str("pow"), 5, false, BinaryKind::Pow)
        } else {
            Operator::Unknown
        }
    }
}

/// What a unary operator's reduction returns.
pub open spec fn apply_unary_spec(k: UnaryKind, x: Number) -> Option<Number> {
    match k {
        UnaryKind::Pos => Some(x),
        UnaryKind::Neg => neg_spec(x),
    }
}

/// What a binary operator's reduction returns for the left operand `x` and
/// the right operand `y`.
pub open spec fn apply_binary_spec(k: BinaryKind, x: Number, y: Number) -> Option<Number> {
    match k {
        BinaryKind::Add => add_spec(x, y),
        BinaryKind::Sub => sub_spec(x, y),
        BinaryKind::Mul => mul_spec(x, y),
        BinaryKind::Div => div_spec(x, y),
        BinaryKind::Rem => rem_spec(x, y),
        BinaryKind::Shl => Some(shl_spec(x, y)),
        BinaryKind::Shr => Some(shr_spec(x, y)),
        BinaryKind::Pow => pow_spec(x, y),
    }
}

/// Performs a unary operator's reduction.
pub fn apply_unary(k: UnaryKind, x: Number) -> (r: Option<Number>)
    requires
        x.wf(),
    ensures
        r == apply_unary_spec(k, x),
        r matches Some(v) ==> v.wf(),
{
    match k {
        UnaryKind::Pos => Some(x),
        UnaryKind::Neg => x.checked_neg(),
    }
}

/// Performs a binary operator's reduction.
pub fn apply_binary(k: BinaryKind, x: Number, y: Number) -> (r: Option<Number>)
    requires
        x.wf(),
        y.wf(),
    ensures
        r == apply_binary_spec(k, x, y),
        r matches Some(v) ==> v.wf(),
{
    match k {
        BinaryKind::Add => x.checked_add(y),
        BinaryKind::Sub => x.checked_sub(y),
        BinaryKind::Mul => x.checked_mul(y),
        BinaryKind::Div => x.checked_div(y),
        BinaryKind::Rem => x.checked_rem(y),
        BinaryKind::Shl => Some(x.shift_left(y)),
        BinaryKind::Shr => Some(x.shift_right(y)),
        BinaryKind::Pow => x.checked_pow(y),
    }
}

/// An element of a postfix expression: a resolved numeric value or a
/// resolved operator.
#[derive(Debug, Clone)]
pub enum Lexem {
    NumberLex(Number),
    OperatorLex(Operator),
}

/// The ghost image of a `Lexem`.
pub enum LexemV {
    Num(Number),
    Op(OpView),
}

impl View for Lexem {
    type V = LexemV;

    open spec fn view(&self) -> LexemV {
        match self {
            Lexem::NumberLex(n) => LexemV::Num(*n),
            Lexem::OperatorLex(op) => LexemV::Op(op@),
        }
    }
}

/// The postfix program: an ordered queue of lexems, produced once by the
/// converter and drained once, front to back, by the evaluator.
pub type Expression = crate::queue::Queue<Lexem>;

/// The ghost image of a lexem sequence.
pub open spec fn lexems_view(s: Seq<Lexem>) -> Seq<LexemV> {
    s.map_values(|l: Lexem| l@)
}

/// The numbers a lexem carries are well formed.
pub open spec fn lexem_wf(l: LexemV) -> bool {
    match l {
        LexemV::Num(n) => n.wf(),
        LexemV::Op(_) => true,
    }
}

/// What `Lexem::new` builds from a token: number tokens are parsed to
/// their exact value (`None` on overflow), operator and function tokens
/// are resolved through the table, and anything else becomes the number
/// zero.
pub open spec fn lexem_spec(cat: TokenType, text: Seq<char>) -> Option<LexemV> {
    if cat == TokenType::NumberInt || cat == TokenType::NumberFloat {
        match parse_literal_spec(text) {
            Some(n) => Some(LexemV::Num(n)),
            None => None,
        }
    } else if cat == TokenType::UnaryOperator || cat == TokenType::BinaryOperator || cat
        == TokenType::Function {
        Some(LexemV::Op(operator_table_spec(cat, text)))
    } else {
        Some(LexemV::Num(Number { num: 0i64, den: 1i64 }))
    }
}

impl Lexem {
    /// Builds the postfix element for a token; `None` only when a number
    /// literal overflows the machine word.
    pub fn new(tok: &Token) -> (r: Option<Lexem>)
        requires
            tok.0 == TokenType::NumberInt || tok.0 == TokenType::NumberFloat ==> is_int_literal(
                tok.1@,
            ) || is_float_literal(tok.1@),
        ensures
            r matches Some(l) ==> Some(l@) == lexem_spec(tok.0, tok.1@) && lexem_wf(l@),
            r is None ==> lexem_spec(tok.0, tok.1@) is None,
    {
        match tok.0 {
            TokenType::NumberInt | TokenType::NumberFloat => {
                match Number::from_literal(tok.1.as_str()) {
                    Some(n) => Some(Lexem::NumberLex(n)),
                    None => None,
                }
            },
            TokenType::UnaryOperator | TokenType::BinaryOperator | TokenType::Function => {
                Some(Lexem::OperatorLex(Operator::get_operator(tok)))
            },
            _ => Some(Lexem::NumberLex(Number::from_int(0))),
        }
    }
}

} // verus!
