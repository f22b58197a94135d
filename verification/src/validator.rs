//! The validator: a thin pre-pass between the tokenizer and the converter.
//!
//! The tokenizer tags every `+` and `-` as unary; the first rule re-tags
//! such a token as binary when a number or a closing parenthesis
//! immediately precedes it. The second rule rejects two adjacent binary
//! operators. Rules run in registration order over a private copy of the
//! input, and a later rule sees the previous rule's rewrites.

use vstd::prelude::*;

use crate::token::num_literals_wf;
use crate::token::Token;
use crate::token::TokenList;
use crate::token::TokenType;
use crate::token::TokenView;
use crate::token::tokens_view;

verus! {

/// Whether a leading-sign token right after this category reads as binary.
pub open spec fn binds_sign_left(cat: TokenType) -> bool {
    cat == TokenType::NumberInt || cat == TokenType::NumberFloat || cat
        == TokenType::ClosedParenthesis
}

/// The re-tagging rule's result: every unary-operator token whose
/// immediate predecessor is a number or a closing parenthesis becomes a
/// binary-operator token; everything else is untouched.
pub open spec fn retag_spec(s: Seq<TokenView>) -> Seq<TokenView> {
    Seq::new(
        s.len(),
        |i: int|
            if s[i].0 == TokenType::UnaryOperator && i > 0 && binds_sign_left(s[i - 1].0) {
                (TokenType::BinaryOperator, s[i].1)
            } else {
                s[i]
            },
    )
}

/// Two binary-operator tokens stand next to each other.
pub open spec fn has_adjacent_binary(s: Seq<TokenView>) -> bool {
    exists|i: int|
        #![trigger s[i]]
        1 <= i < s.len() && s[i].0 == TokenType::BinaryOperator && s[i - 1].0
            == TokenType::BinaryOperator
}

/// Re-tags ambiguous leading-sign tokens as binary; see `retag_spec`.
/// Never rejects the sequence.
pub fn check_for_binary_operator(list: &mut TokenList) -> (r: bool)
    ensures
        r == true,
        tokens_view(final(list)@) == retag_spec(tokens_view(old(list)@)),
{
    let ghost orig = tokens_view(old(list)@);
    let list_size: usize = list.len();
    let mut ind: usize = 0;
    while ind < list_size
        invariant
            ind <= list_size,
            list_size == list@.len(),
            list_size == old(list)@.len(),
            orig == tokens_view(old(list)@),
            orig.len() == list_size,
            forall|j: int|
                0 <= j < ind ==> (#[trigger] list@[j]).0 == retag_spec(orig)[j].0 && list@[j].1
                    == old(list)@[j].1,
            forall|j: int| ind <= j < list_size ==> #[trigger] list@[j] == old(list)@[j],
        decreases list_size - ind,
    {
        let ghost before = list@;
        if list[ind].0 == TokenType::UnaryOperator {
            if ind > 0 {
                let prev: TokenType = list[ind - 1].0;
                proof {
                    // a rewrite only turns a unary tag into a binary one,
                    // and neither category binds a following sign, so the
                    // test on the working copy agrees with the input
                    assert(binds_sign_left(prev) == binds_sign_left(orig[ind - 1].0));
                }
                if prev == TokenType::NumberInt || prev == TokenType::NumberFloat || prev
                    == TokenType::ClosedParenthesis {
                    list[ind].0 = TokenType::BinaryOperator;
                }
            }
        }
        proof {
            assert(list@[ind as int].0 == retag_spec(orig)[ind as int].0);
            assert(list@[ind as int].1 == old(list)@[ind as int].1);
            assert(forall|j: int|
                0 <= j < list_size && j != ind ==> #[trigger] list@[j] == before[j]);
        }
        ind = ind + 1;
    }
    proof {
        assert forall|j: int| 0 <= j < orig.len() implies tokens_view(list@)[j] == retag_spec(
            orig,
        )[j] by {
            assert(tokens_view(list@)[j] == (list@[j].0, list@[j].1@));
            assert(orig[j] == (old(list)@[j].0, old(list)@[j].1@));
        }
        assert(tokens_view(list@) =~= retag_spec(orig));
    }
    true
}

/// Rejects the sequence when two binary operators stand next to each
/// other; never rewrites it.
pub fn check_for_repeate_binary_operator(list: &mut TokenList) -> (r: bool)
    ensures
        *final(list) == *old(list),
        r == !has_adjacent_binary(tokens_view(old(list)@)),
{
    let ghost s = tokens_view(old(list)@);
    let list_size: usize = list.len();
    let mut ind: usize = 0;
    while ind < list_size
        invariant
            ind <= list_size,
            list_size == list@.len(),
            list == old(list),
            s == tokens_view(old(list)@),
            s.len() == list_size,
            forall|i: int|
                #![trigger list@[i]]
                1 <= i < ind ==> !(list@[i].0 == TokenType::BinaryOperator && list@[i - 1].0
                    == TokenType::BinaryOperator),
        decreases list_size - ind,
    {
        if list[ind].0 == TokenType::BinaryOperator {
            if ind > 0 {
                let prev: TokenType = list[ind - 1].0;
                if prev == TokenType::BinaryOperator {
                    proof {
                        assert(s[ind as int].0 == list@[ind as int].0);
                        assert(s[ind as int - 1].0 == list@[ind as int - 1].0);
                        assert(has_adjacent_binary(s));
                    }
                    return false;
                }
            }
        }
        ind = ind + 1;
    }
    proof {
        if has_adjacent_binary(s) {
            let i = choose|i: int|
                #![trigger s[i]]
                1 <= i < s.len() && s[i].0 == TokenType::BinaryOperator && s[i - 1].0
                    == TokenType::BinaryOperator;
            assert(s[i].0 == list@[i].0);
            assert(s[i - 1].0 == list@[i - 1].0);
            assert(false);
        }
    }
    true
}

/// A named validation rule, applied in registration order.
#[derive(Debug, Clone, Copy, PartialEq, Eq, Structural)]
pub enum Rule {
    /// Re-tag a unary sign as binary after a number or a closing
    /// parenthesis; never rejects.
    RetagSignAfterValue,
    /// Reject two adjacent binary operators; never rewrites.
    RejectAdjacentBinary,
}

/// The one error a failing rule produces.
#[derive(Debug, Clone, Copy, PartialEq, Eq, Structural)]
pub enum ValidationError {
    ValidationFailed,
}

/// What one rule does to a token sequence: the rewritten sequence, or
/// rejection.
pub open spec fn apply_rule_spec(r: Rule, s: Seq<TokenView>) -> Result<Seq<TokenView>, ValidationError> {
    match r {
        Rule::RetagSignAfterValue => Ok(retag_spec(s)),
        Rule::RejectAdjacentBinary => if has_adjacent_binary(s) {
            Err(ValidationError::ValidationFailed)
        } else {
            Ok(s)
        },
    }
}

/// What a rule list does, first rule first; a later rule sees the
/// previous rule's rewrites.
pub open spec fn validate_spec(rules: Seq<Rule>, s: Seq<TokenView>) -> Result<
    Seq<TokenView>,
    ValidationError,
>
    decreases rules.len(),
{
    if rules.len() == 0 {
        Ok(s)
    } else {
        match apply_rule_spec(rules[0], s) {
            Ok(t) => validate_spec(rules.drop_first(), t),
            Err(e) => Err(e),
        }
    }
}

/// No rule ever touches a token's text or makes a token a number, so
/// well-shaped number literals survive validation and the converter's
/// demand on them can be met from the tokenizer's promise.
pub proof fn lemma_validate_preserves_literals(rules: Seq<Rule>, ts: Seq<TokenView>)
    requires
        num_literals_wf(ts),
    ensures
        validate_spec(rules, ts) matches Ok(v) ==> num_literals_wf(v),
    decreases rules.len(),
{
    if rules.len() > 0 {
        match apply_rule_spec(rules[0], ts) {
            Ok(t) => {
                if rules[0] == Rule::RetagSignAfterValue {
                    assert forall|j: int|
                        0 <= j < retag_spec(ts).len() && ((#[trigger] retag_spec(ts)[j]).0
                            == TokenType::NumberInt || retag_spec(ts)[j].0
                            == TokenType::NumberFloat) implies crate::number::is_int_literal(
                        retag_spec(ts)[j].1,
                    ) || crate::number::is_float_literal(retag_spec(ts)[j].1) by {
                        assert(retag_spec(ts)[j] == ts[j]);
                    }
                }
                lemma_validate_preserves_literals(rules.drop_first(), t);
            },
            Err(_) => {},
        }
    }
}

/// The validator: an ordered list of named predicate-rewriters.
pub struct Validator {
    pub rules: Vec<Rule>,
}

impl Validator {
    /// A validator with no rules: it passes every sequence through
    /// unchanged.
    pub fn new() -> (r: Self)
        ensures
            r.rules@ == Seq::<Rule>::empty(),
    {
        Self { rules: Vec::new() }
    }

    /// Appends a rule after the ones already registered.
    pub fn add_rule(&mut self, r: Rule)
        ensures
            final(self).rules@ == old(self).rules@.push(r),
    {
        self.rules.push(r);
    }

    /// Runs every rule, in order, over a private copy of `input`; returns
    /// the rewritten sequence, or the validation error of the first rule
    /// that rejects it.
    pub fn validate(&self, input: TokenList) -> (r: Result<TokenList, ValidationError>)
        ensures
            r matches Ok(v) ==> validate_spec(self.rules@, tokens_view(input@)) == Ok::<
                _,
                ValidationError,
            >(tokens_view(v@)),
            r matches Err(e) ==> validate_spec(self.rules@, tokens_view(input@)) == Err::<
                Seq<TokenView>,
                _,
            >(e),
    {
        if self.rules.is_empty() {
            return Ok(input);
        }
        // a private copy: the caller's sequence is never aliased
        let mut output: TokenList = Vec::new();
        let in_len = input.len();
        let mut c: usize = 0;
        while c < in_len
            invariant
                c <= in_len,
                in_len == input@.len(),
                output@.len() == c,
                forall|j: int| 0 <= j < c ==> #[trigger] output@[j] == input@[j],
            decreases in_len - c,
        {
            let text = input[c].1.clone();
            let cat = input[c].0;
            output.push((cat, text));
            c = c + 1;
        }
        proof {
            assert(output@ =~= input@);
            assert(self.rules@.skip(0) =~= self.rules@);
        }
        let n = self.rules.len();
        let mut k: usize = 0;
        while k < n
            invariant
                k <= n,
                n == self.rules@.len(),
                validate_spec(self.rules@, tokens_view(input@)) == validate_spec(
                    self.rules@.skip(k as int),
                    tokens_view(output@),
                ),
            decreases n - k,
        {
            let ghost pre = tokens_view(output@);
            let rule = self.rules[k];
            let ok = match rule {
                Rule::RetagSignAfterValue => check_for_binary_operator(&mut output),
                Rule::RejectAdjacentBinary => check_for_repeate_binary_operator(&mut output),
            };
            proof {
                assert(self.rules@.skip(k as int)[0] == self.rules@[k as int]);
                assert(self.rules@.skip(k as int).drop_first() =~= self.rules@.skip(k as int + 1));
            }
            if !ok {
                proof {
                    assert(apply_rule_spec(self.rules@[k as int], pre) == Err::<
                        Seq<TokenView>,
                        _,
                    >(ValidationError::ValidationFailed));
                }
                return Err(ValidationError::ValidationFailed);
            }
            proof {
                assert(apply_rule_spec(self.rules@[k as int], pre) == Ok::<_, ValidationError>(
                    tokens_view(output@),
                ));
            }
            k = k + 1;
        }
        proof {
            assert(self.rules@.skip(n as int) =~= Seq::<Rule>::empty());
        }
        Ok(output)
    }
}

} // verus!
