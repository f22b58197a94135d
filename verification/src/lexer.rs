//! The tokenizer: turns an input string into a token sequence by trying, at
//! each position, a fixed priority order of anchored patterns and taking
//! the first that matches. When no pattern matches, it fails with exactly
//! the character at which scanning broke.
//!
//! The order matters: the float pattern is tried before the integer
//! pattern, and the two-character shift operators are part of the same
//! binary-operator pattern as the single-character ones.

use vstd::prelude::*;

use crate::number::is_digit_char;
use crate::number::is_float_literal;
use crate::number::is_int_literal;
use crate::token::num_literals_wf;
use crate::token::Token;
use crate::token::TokenList;
use crate::token::TokenType;
use crate::token::TokenView;
use crate::token::tokens_view;

verus! {

/// An ASCII letter, the character class of a function name.
pub open spec fn is_alpha_char(c: char) -> bool {
    (65 <= (c as u32) <= 90) || (97 <= (c as u32) <= 122)
}

/// A whitespace character: the Unicode white-space class.
pub open spec fn is_space_char(c: char) -> bool {
    let v = c as u32;
    v == 9 || v == 10 || v == 11 || v == 12 || v == 13 || v == 32 || v == 0x85 || v == 0xA0 || v
        == 0x1680 || (0x2000 <= v && v <= 0x200A) || v == 0x2028 || v == 0x2029 || v == 0x202F || v
        == 0x205F || v == 0x3000
}

/// The length of the digit run starting at position `i`.
pub open spec fn digit_run_from(s: Seq<char>, i: int) -> nat
    decreases s.len() - i,
{
    if 0 <= i < s.len() && is_digit_char(s[i]) {
        1 + digit_run_from(s, i + 1)
    } else {
        0
    }
}

/// The length of the letter run starting at position `i`.
pub open spec fn alpha_run_from(s: Seq<char>, i: int) -> nat
    decreases s.len() - i,
{
    if 0 <= i < s.len() && is_alpha_char(s[i]) {
        1 + alpha_run_from(s, i + 1)
    } else {
        0
    }
}

/// The length of the whitespace run starting at position `i`.
pub open spec fn space_run_from(s: Seq<char>, i: int) -> nat
    decreases s.len() - i,
{
    if 0 <= i < s.len() && is_space_char(s[i]) {
        1 + space_run_from(s, i + 1)
    } else {
        0
    }
}

/// The length the binary-operator pattern matches at position `i`: one of
/// `/ * ^`, or a two-character shift `<<` or `>>`; zero otherwise.
pub open spec fn binop_len_at(s: Seq<char>, i: int) -> nat {
    if 0 <= i < s.len() && (s[i] == '/' || s[i] == '*' || s[i] == '^') {
        1
    } else if 0 <= i && i + 1 < s.len() && s[i] == '<' && s[i + 1] == '<' {
        2
    } else if 0 <= i && i + 1 < s.len() && s[i] == '>' && s[i + 1] == '>' {
        2
    } else {
        0
    }
}

/// The length the float pattern matches at position `i`: digits, a dot,
/// digits; zero otherwise.
pub open spec fn float_len_at(s: Seq<char>, i: int) -> nat {
    let d1 = digit_run_from(s, i);
    if d1 > 0 && i + d1 < s.len() && s[i + d1] == '.' && digit_run_from(s, i + d1 + 1) > 0 {
        d1 + 1 + digit_run_from(s, i + d1 + 1)
    } else {
        0
    }
}

/// The first pattern, in the fixed priority order, that matches at
/// position `i`, with its matched length; `None` when no pattern matches.
pub open spec fn first_match_at(s: Seq<char>, i: int) -> Option<(TokenType, nat)> {
    if i < 0 || i >= s.len() {
        None
    } else if s[i] == '(' {
        Some((TokenType::OpenedParenthesis, 1nat))
    } else if s[i] == ')' {
        Some((TokenType::ClosedParenthesis, 1nat))
    } else if alpha_run_from(s, i) > 0 {
        Some((TokenType::Function, alpha_run_from(s, i)))
    } else if binop_len_at(s, i) > 0 {
        Some((TokenType::BinaryOperator, binop_len_at(s, i)))
    } else if s[i] == '+' || s[i] == '-' {
        Some((TokenType::UnaryOperator, 1nat))
    } else if float_len_at(s, i) > 0 {
        Some((TokenType::NumberFloat, float_len_at(s, i)))
    } else if digit_run_from(s, i) > 0 {
        Some((TokenType::NumberInt, digit_run_from(s, i)))
    } else if s[i] == ',' {
        Some((TokenType::ArgumentSeparator, 1nat))
    } else if space_run_from(s, i) > 0 {
        Some((TokenType::Whitespaces, space_run_from(s, i)))
    } else {
        None
    }
}

/// A digit run never runs past the end of the string.
pub proof fn lemma_digit_run_bound(s: Seq<char>, i: int)
    requires
        0 <= i <= s.len(),
    ensures
        i + digit_run_from(s, i) <= s.len(),
    decreases s.len() - i,
{
    if i < s.len() && is_digit_char(s[i]) {
        lemma_digit_run_bound(s, i + 1);
    }
}

/// A letter run never runs past the end of the string.
pub proof fn lemma_alpha_run_bound(s: Seq<char>, i: int)
    requires
        0 <= i <= s.len(),
    ensures
        i + alpha_run_from(s, i) <= s.len(),
    decreases s.len() - i,
{
    if i < s.len() && is_alpha_char(s[i]) {
        lemma_alpha_run_bound(s, i + 1);
    }
}

/// A whitespace run never runs past the end of the string.
pub proof fn lemma_space_run_bound(s: Seq<char>, i: int)
    requires
        0 <= i <= s.len(),
    ensures
        i + space_run_from(s, i) <= s.len(),
    decreases s.len() - i,
{
    if i < s.len() && is_space_char(s[i]) {
        lemma_space_run_bound(s, i + 1);
    }
}

/// Whatever pattern matches, it matches at least one character and stays
/// inside the string.
pub proof fn lemma_first_match_bounds(s: Seq<char>, i: int)
    ensures
        first_match_at(s, i) matches Some((t, l)) ==> 1 <= l && i + l <= s.len(),
{
    if 0 <= i < s.len() {
        lemma_alpha_run_bound(s, i);
        lemma_digit_run_bound(s, i);
        lemma_space_run_bound(s, i);
        if float_len_at(s, i) > 0 {
            let d1 = digit_run_from(s, i);
            if d1 > 0 && i + d1 < s.len() && s[i + d1] == '.' && digit_run_from(s, i + d1 + 1)
                > 0 {
                lemma_digit_run_bound(s, i + d1 + 1);
            }
        }
    }
}

/// A character that no pattern recognizes anywhere: any input holding one
/// fails to tokenize.
pub open spec fn is_rejected_char(c: char) -> bool {
    c == '&' || c == '=' || c == '!' || c == '#' || c == ';' || c == '%'
}

/// Every character inside a digit run is a digit.
proof fn lemma_digit_run_chars(s: Seq<char>, i: int, j: int)
    requires
        0 <= i <= j,
        j < i + digit_run_from(s, i),
    ensures
        is_digit_char(s[j]),
    decreases j - i,
{
    if j > i {
        lemma_digit_run_chars(s, i + 1, j);
    }
}

/// Every character inside a letter run is a letter.
proof fn lemma_alpha_run_chars(s: Seq<char>, i: int, j: int)
    requires
        0 <= i <= j,
        j < i + alpha_run_from(s, i),
    ensures
        is_alpha_char(s[j]),
    decreases j - i,
{
    if j > i {
        lemma_alpha_run_chars(s, i + 1, j);
    }
}

/// Every character inside a whitespace run is whitespace.
proof fn lemma_space_run_chars(s: Seq<char>, i: int, j: int)
    requires
        0 <= i <= j,
        j < i + space_run_from(s, i),
    ensures
        is_space_char(s[j]),
    decreases j - i,
{
    if j > i {
        lemma_space_run_chars(s, i + 1, j);
    }
}

/// No matched token ever covers a rejected character: every pattern's
/// character classes exclude them all.
proof fn lemma_match_avoids_rejected(s: Seq<char>, i: int, j: int)
    requires
        0 <= i <= j,
        first_match_at(s, i) matches Some(m) && j < i + m.1,
    ensures
        !is_rejected_char(s[j]),
{
    if 0 <= i < s.len() {
        if s[i] == '(' || s[i] == ')' {
        } else if alpha_run_from(s, i) > 0 {
            lemma_alpha_run_chars(s, i, j);
        } else if binop_len_at(s, i) > 0 {
        } else if s[i] == '+' || s[i] == '-' {
        } else if float_len_at(s, i) > 0 {
            let d1 = digit_run_from(s, i);
            if j < i + d1 {
                lemma_digit_run_chars(s, i, j);
            } else if j > i + d1 {
                lemma_digit_run_chars(s, i + d1 + 1, j);
            }
        } else if digit_run_from(s, i) > 0 {
            lemma_digit_run_chars(s, i, j);
        } else if s[i] == ',' {
        } else if space_run_from(s, i) > 0 {
            lemma_space_run_chars(s, i, j);
        }
    }
}

/// Scanning from any position at or before a rejected character ends in
/// an error: no token can cover the character, and at the character
/// itself no pattern matches.
proof fn lemma_rejected_errs_from(s: Seq<char>, i: int, j: int)
    requires
        0 <= i <= j < s.len(),
        is_rejected_char(s[j]),
    ensures
        tokenize_from(s, i) is Err,
    decreases s.len() - i,
{
    match first_match_at(s, i) {
        None => {},
        Some((t, l)) => {
            lemma_first_match_bounds(s, i);
            if j < i + l {
                lemma_match_avoids_rejected(s, i, j);
                assert(false);
            } else {
                lemma_rejected_errs_from(s, i + l, j);
            }
        },
    }
}

/// Tokenizing any string that contains one of the rejected characters
/// `& = ! # ; %` fails: the scan stops at the first position where no
/// pattern matches and reports that character.
pub proof fn lemma_rejected_char_fails(s: Seq<char>, j: int)
    requires
        0 <= j < s.len(),
        is_rejected_char(s[j]),
    ensures
        tokenize_spec(s) is Err,
{
    lemma_rejected_errs_from(s, 0, j);
}

/// Every number token read from position `i` on carries a literal of the
/// matching shape.
proof fn lemma_token_shapes_from(s: Seq<char>, i: int)
    requires
        0 <= i,
    ensures
        tokenize_from(s, i) matches Ok(ts) ==> num_literals_wf(ts),
    decreases s.len() - i,
{
    if 0 <= i < s.len() {
        match first_match_at(s, i) {
            None => {},
            Some((t, l)) => {
                lemma_first_match_bounds(s, i);
                lemma_token_shapes_from(s, i + l);
                let text = s.subrange(i, i + l);
                if t == TokenType::NumberInt {
                    assert forall|m: int| 0 <= m < text.len() implies is_digit_char(
                        #[trigger] text[m],
                    ) by {
                        lemma_digit_run_chars(s, i, i + m);
                    }
                    assert(is_int_literal(text));
                } else if t == TokenType::NumberFloat {
                    let d1 = digit_run_from(s, i) as int;
                    let d2 = digit_run_from(s, i + d1 + 1) as int;
                    assert(text[d1] == s[i + d1]);
                    assert forall|m: int| 0 <= m < d1 implies is_digit_char(
                        #[trigger] text.take(d1)[m],
                    ) by {
                        lemma_digit_run_chars(s, i, i + m);
                    }
                    assert forall|m: int| 0 <= m < d2 implies is_digit_char(
                        #[trigger] text.skip(d1 + 1)[m],
                    ) by {
                        lemma_digit_run_chars(s, i + d1 + 1, i + d1 + 1 + m);
                    }
                    assert(0 < d1 < text.len() - 1 && text[d1] == '.' && crate::number::all_digits(
                        text.take(d1),
                    ) && crate::number::all_digits(text.skip(d1 + 1)));
                    assert(is_float_literal(text));
                }
                if let Ok(rest) = tokenize_from(s, i + l) {
                    let ts = seq![(t, text)] + rest;
                    assert forall|j: int|
                        0 <= j < ts.len() && ((#[trigger] ts[j]).0 == TokenType::NumberInt
                            || ts[j].0 == TokenType::NumberFloat) implies is_int_literal(ts[j].1)
                        || is_float_literal(ts[j].1) by {
                        if j > 0 {
                            assert(ts[j] == rest[j - 1]);
                        }
                    }
                }
            },
        }
    }
}

/// Every number token the tokenizer emits carries a literal of the
/// matching shape, so the converter can read its exact value.
pub proof fn lemma_tokenize_literals_wf(s: Seq<char>)
    ensures
        tokenize_spec(s) matches Ok(ts) ==> num_literals_wf(ts),
{
    lemma_token_shapes_from(s, 0);
}

/// The token sequence read from position `i` on: at each position the
/// first matching pattern yields a token whose text is the matched
/// substring, and a position where nothing matches yields that character
/// as the error.
pub open spec fn tokenize_from(s: Seq<char>, i: int) -> Result<Seq<TokenView>, char>
    decreases s.len() - i,
{
    if i < 0 || i >= s.len() {
        Ok(Seq::empty())
    } else {
        match first_match_at(s, i) {
            None => Err(s[i]),
            Some((t, l)) => {
                proof {
                    lemma_first_match_bounds(s, i);
                }
                match tokenize_from(s, i + l) {
                    Ok(rest) => Ok(seq![(t, s.subrange(i, i + l))] + rest),
                    Err(c) => Err(c),
                }
            },
        }
    }
}

/// The token sequence of a whole string.
pub open spec fn tokenize_spec(s: Seq<char>) -> Result<Seq<TokenView>, char> {
    tokenize_from(s, 0)
}

/// Prepends already-read tokens to the outcome of reading the rest.
pub open spec fn prepend_tokens(p: Seq<TokenView>, r: Result<Seq<TokenView>, char>) -> Result<
    Seq<TokenView>,
    char,
> {
    match r {
        Ok(ts) => Ok(p + ts),
        Err(c) => Err(c),
    }
}

/// The tokenizer. It recognizes tokens with a fixed list of anchored
/// patterns, longest match first within each pattern, tried in a fixed
/// priority order.
pub struct RegexpLexer {}

impl RegexpLexer {
    /// A tokenizer with the calculator's fixed pattern list.
    pub fn new() -> (r: Self) {
        RegexpLexer {}
    }

    /// Splits `input` into tokens; on failure returns the first character
    /// that no pattern matches.
    pub fn tokenize(&self, input: &str) -> (r: Result<TokenList, char>)
        ensures
            r matches Ok(v) ==> tokenize_spec(input@) == Ok::<_, char>(tokens_view(v@)),
            r matches Err(c) ==> tokenize_spec(input@) == Err::<Seq<TokenView>, _>(c),
    {
        let len = input.unicode_len();
        let mut tokens: Vec<Token> = Vec::new();
        let mut i: usize = 0;
        while i < len
            invariant
                i <= len,
                len == input@.len(),
                prepend_tokens(tokens_view(tokens@), tokenize_from(input@, i as int))
                    == tokenize_from(input@, 0),
            decreases len - i,
        {
            match Self::match_at(input, len, i) {
                Some((t, l)) => {
                    let text = input.substring_char(i, i + l).to_owned();
                    let ghost pre = tokens_view(tokens@);
                    let ghost tokv = (t, input@.subrange(i as int, i as int + l as int));
                    tokens.push((t, text));
                    proof {
                        assert(tokens_view(tokens@) =~= pre + seq![tokv]);
                        match tokenize_from(input@, i as int + l as int) {
                            Ok(rest) => {
                                assert((pre + seq![tokv]) + rest =~= pre + (seq![tokv] + rest));
                            },
                            Err(_) => {},
                        }
                    }
                    i = i + l;
                },
                None => {
                    let c = input.get_char(i);
                    return Err(c);
                },
            }
        }
        proof {
            assert(tokens_view(tokens@) + Seq::<TokenView>::empty() =~= tokens_view(tokens@));
        }
        Ok(tokens)
    }

    /// The first pattern that matches at position `i`, with its length.
    fn match_at(s: &str, len: usize, i: usize) -> (r: Option<(TokenType, usize)>)
        requires
            len == s@.len(),
            i < len,
        ensures
            r matches Some(m) ==> 1 <= m.1 && i + m.1 <= len && first_match_at(s@, i as int)
                == Some((m.0, m.1 as nat)),
            r is None ==> first_match_at(s@, i as int) is None,
    {
        let c = s.get_char(i);
        if c == '(' {
            return Some((TokenType::OpenedParenthesis, 1));
        }
        if c == ')' {
            return Some((TokenType::ClosedParenthesis, 1));
        }
        let ar = Self::alpha_run_at(s, len, i);
        if ar > 0 {
            return Some((TokenType::Function, ar));
        }
        if c == '/' || c == '*' || c == '^' {
            return Some((TokenType::BinaryOperator, 1));
        }
        if c == '<' && i + 1 < len && s.get_char(i + 1) == '<' {
            return Some((TokenType::BinaryOperator, 2));
        }
        if c == '>' && i + 1 < len && s.get_char(i + 1) == '>' {
            return Some((TokenType::BinaryOperator, 2));
        }
        if c == '+' || c == '-' {
            return Some((TokenType::UnaryOperator, 1));
        }
        let d1 = Self::digit_run_at(s, len, i);
        if d1 > 0 && i + d1 < len && s.get_char(i + d1) == '.' {
            let d2 = Self::digit_run_at(s, len, i + d1 + 1);
            if d2 > 0 {
                return Some((TokenType::NumberFloat, d1 + 1 + d2));
            }
        }
        if d1 > 0 {
            return Some((TokenType::NumberInt, d1));
        }
        if c == ',' {
            return Some((TokenType::ArgumentSeparator, 1));
        }
        let sr = Self::space_run_at(s, len, i);
        if sr > 0 {
            return Some((TokenType::Whitespaces, sr));
        }
        None
    }

    /// Scans the digit run starting at `i`.
    fn digit_run_at(s: &str, len: usize, i: usize) -> (n: usize)
        requires
            len == s@.len(),
            i <= len,
        ensures
            n == digit_run_from(s@, i as int),
            i + n <= len,
    {
        let mut j = i;
        while j < len && Self::digit_char(s.get_char(j))
            invariant
                i <= j <= len,
                len == s@.len(),
                digit_run_from(s@, i as int) == (j - i) + digit_run_from(s@, j as int),
            decreases len - j,
        {
            j = j + 1;
        }
        j - i
    }

    /// Scans the letter run starting at `i`.
    fn alpha_run_at(s: &str, len: usize, i: usize) -> (n: usize)
        requires
            len == s@.len(),
            i <= len,
        ensures
            n == alpha_run_from(s@, i as int),
            i + n <= len,
    {
        let mut j = i;
        while j < len && Self::alpha_char(s.get_char(j))
            invariant
                i <= j <= len,
                len == s@.len(),
                alpha_run_from(s@, i as int) == (j - i) + alpha_run_from(s@, j as int),
            decreases len - j,
        {
            j = j + 1;
        }
        j - i
    }

    /// Scans the whitespace run starting at `i`.
    fn space_run_at(s: &str, len: usize, i: usize) -> (n: usize)
        requires
            len == s@.len(),
            i <= len,
        ensures
            n == space_run_from(s@, i as int),
            i + n <= len,
    {
        let mut j = i;
        while j < len && Self::space_char(s.get_char(j))
            invariant
                i <= j <= len,
                len == s@.len(),
                space_run_from(s@, i as int) == (j - i) + space_run_from(s@, j as int),
            decreases len - j,
        {
            j = j + 1;
        }
        j - i
    }

    /// Decides the digit class.
    fn digit_char(c: char) -> (b: bool)
        ensures
            b == is_digit_char(c),
    {
        let v = c as u32;
        v >= 48 && v <= 57
    }

    /// Decides the letter class.
    fn alpha_char(c: char) -> (b: bool)
        ensures
            b == is_alpha_char(c),
    {
        let v = c as u32;
        (v >= 65 && v <= 90) || (v >= 97 && v <= 122)
    }

    /// Decides the whitespace class.
    fn space_char(c: char) -> (b: bool)
        ensures
            b == is_space_char(c),
    {
        let v = c as u32;
        v == 9 || v == 10 || v == 11 || v == 12 || v == 13 || v == 32 || v == 0x85 || v == 0xA0
            || v == 0x1680 || (v >= 0x2000 && v <= 0x200A) || v == 0x2028 || v == 0x2029 || v
            == 0x202F || v == 0x205F || v == 0x3000
    }
}

} // verus!
