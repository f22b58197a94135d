//! The numeric value flowing through the pipeline: an exact rational number
//! over machine integers.
//!
//! Every operation is exact. A result whose numerator or denominator no
//! longer fits an `i64` — and a division or remainder by zero — is reported
//! as `None` instead of being rounded or left undefined. The shift operators
//! deliberately truncate both operands to 32-bit signed integers first, and
//! the exponentiation operator truncates its exponent the same way.

use vstd::prelude::*;

verus! {

/// An exact rational number `num / den` with `den >= 1`.
#[derive(Debug, Clone, Copy, PartialEq, Eq, Structural)]
pub struct Number {
    pub num: i64,
    pub den: i64,
}

/// The exact sum of `a` and `b` over the common denominator
/// `a.den * b.den`, or `None` where an `i64` overflows.
pub open spec fn add_spec(a: Number, b: Number) -> Option<Number> {
    match (a.num.checked_mul(b.den), b.num.checked_mul(a.den), a.den.checked_mul(b.den)) {
        (Some(x), Some(y), Some(d)) => match x.checked_add(y) {
            Some(n) => Some(Number { num: n, den: d }),
            None => None,
        },
        _ => None,
    }
}

/// The exact difference of `a` and `b`, or `None` where an `i64` overflows.
pub open spec fn sub_spec(a: Number, b: Number) -> Option<Number> {
    match (a.num.checked_mul(b.den), b.num.checked_mul(a.den), a.den.checked_mul(b.den)) {
        (Some(x), Some(y), Some(d)) => match x.checked_sub(y) {
            Some(n) => Some(Number { num: n, den: d }),
            None => None,
        },
        _ => None,
    }
}

/// The exact product of `a` and `b`, or `None` where an `i64` overflows.
pub open spec fn mul_spec(a: Number, b: Number) -> Option<Number> {
    match (a.num.checked_mul(b.num), a.den.checked_mul(b.den)) {
        (Some(n), Some(d)) => Some(Number { num: n, den: d }),
        _ => None,
    }
}

/// The pair `n / d` with the sign moved into the numerator, or `None` when
/// `d` is zero or a negation overflows.
pub open spec fn norm_sign_spec(n: i64, d: i64) -> Option<Number> {
    if d == 0 {
        None
    } else if d >= 1 {
        Some(Number { num: n, den: d })
    } else {
        match ((0i64).checked_sub(n), (0i64).checked_sub(d)) {
            (Some(nn), Some(dd)) => Some(Number { num: nn, den: dd }),
            _ => None,
        }
    }
}

/// The exact quotient of `a` and `b`: `None` when `b` is zero or an `i64`
/// overflows.
pub open spec fn div_spec(a: Number, b: Number) -> Option<Number> {
    match (a.num.checked_mul(b.den), a.den.checked_mul(b.num)) {
        (Some(n), Some(d)) => norm_sign_spec(n, d),
        _ => None,
    }
}

/// The remainder `a - b * q` where `q` is the quotient `a / b` truncated
/// toward zero, matching the remainder operator on machine numbers: `None`
/// when `b` is zero or an `i64` overflows.
pub open spec fn rem_spec(a: Number, b: Number) -> Option<Number> {
    match (a.num.checked_mul(b.den), a.den.checked_mul(b.num), a.den.checked_mul(b.den)) {
        (Some(n), Some(d), Some(cd)) => match n.checked_div(d) {
            Some(q) => match q.checked_mul(d) {
                Some(t) => match n.checked_sub(t) {
                    Some(rn) => Some(Number { num: rn, den: cd }),
                    None => None,
                },
                None => None,
            },
            None => None,
        },
        _ => None,
    }
}

/// The negation of `a`, or `None` on the one overflowing numerator.
pub open spec fn neg_spec(a: Number) -> Option<Number> {
    match (0i64).checked_sub(a.num) {
        Some(n) => Some(Number { num: n, den: a.den }),
        None => None,
    }
}

/// `a` truncated toward zero and saturated to the `i32` range, the operand
/// form the shift operators work on.
pub open spec fn trunc32_spec(a: Number) -> i32 {
    let q = a.num.checked_div(a.den)->0;
    if q > i32::MAX as i64 {
        i32::MAX
    } else if q < i32::MIN as i64 {
        i32::MIN
    } else {
        q as i32
    }
}

/// The two's-complement reinterpretation of `y` as an unsigned shift count.
pub open spec fn shift_count_spec(y: i32) -> u32 {
    ((y as int) % 0x1_0000_0000int) as u32
}

/// Left shift: both operands truncated to `i32`, the shift count taken
/// modulo 32, the result wrapping as the machine shift does.
pub open spec fn shl_spec(a: Number, b: Number) -> Number {
    let x = trunc32_spec(a);
    let y = trunc32_spec(b);
    Number { num: x.wrapping_shl(shift_count_spec(y)) as i64, den: 1 }
}

/// Arithmetic right shift: both operands truncated to `i32`, the shift
/// count taken modulo 32.
pub open spec fn shr_spec(a: Number, b: Number) -> Number {
    let x = trunc32_spec(a);
    let y = trunc32_spec(b);
    Number { num: x.wrapping_shr(shift_count_spec(y)) as i64, den: 1 }
}

/// `b` raised to the power `m` by repeated checked multiplication.
pub open spec fn pow_checked_spec(b: i64, m: nat) -> Option<i64>
    decreases m,
{
    if m == 0 {
        Some(1i64)
    } else {
        match pow_checked_spec(b, (m - 1) as nat) {
            Some(p) => p.checked_mul(b),
            None => None,
        }
    }
}

/// Exponentiation. The exponent is truncated toward zero to an integer; a
/// negative exponent inverts the base, so a zero base is then reported as
/// `None`, as is any overflow.
pub open spec fn pow_spec(a: Number, b: Number) -> Option<Number> {
    let e = trunc32_spec(b);
    if e >= 0 {
        match (pow_checked_spec(a.num, e as nat), pow_checked_spec(a.den, e as nat)) {
            (Some(n), Some(d)) => Some(Number { num: n, den: d }),
            _ => None,
        }
    } else if a.num == 0 {
        None
    } else {
        let m = (-(e as int)) as nat;
        match (pow_checked_spec(a.den, m), pow_checked_spec(a.num, m)) {
            (Some(n), Some(d)) => norm_sign_spec(n, d),
            _ => None,
        }
    }
}

/// A decimal digit.
pub open spec fn is_digit_char(c: char) -> bool {
    48 <= (c as u32) <= 57
}

/// Every character of `s` is a decimal digit.
pub open spec fn all_digits(s: Seq<char>) -> bool {
    forall|i: int| 0 <= i < s.len() ==> is_digit_char(s[i])
}

/// The shape of an integer literal: one or more digits.
pub open spec fn is_int_literal(s: Seq<char>) -> bool {
    s.len() >= 1 && all_digits(s)
}

/// The shape of a float literal: digits, a dot, digits.
pub open spec fn is_float_literal(s: Seq<char>) -> bool {
    exists|k: int|
        0 < k < s.len() - 1 && s[k] == '.' && all_digits(s.take(k)) && all_digits(
            s.skip(k + 1),
        )
}

/// The value of a digit string read left to right with checked arithmetic:
/// `None` once the accumulator overflows an `i64`.
pub open spec fn parse_digits_spec(s: Seq<char>) -> Option<i64>
    decreases s.len(),
{
    if s.len() == 0 {
        Some(0i64)
    } else {
        match parse_digits_spec(s.drop_last()) {
            Some(acc) => match acc.checked_mul(10) {
                Some(t) => t.checked_add((((s.last() as u32) - 48) as i64)),
                None => None,
            },
            None => None,
        }
    }
}

/// `s` with the character at `k` removed, when `k` is in range.
pub open spec fn seq_without(s: Seq<char>, k: int) -> Seq<char> {
    if 0 <= k < s.len() {
        s.take(k) + s.skip(k + 1)
    } else {
        s
    }
}

/// The exact rational value of a number literal: an integer literal is read
/// whole; a float literal's digits are read without the dot and divided by
/// ten to the number of fraction digits. `None` when an `i64` overflows.
pub open spec fn parse_literal_spec(s: Seq<char>) -> Option<Number> {
    if is_int_literal(s) {
        match parse_digits_spec(s) {
            Some(n) => Some(Number { num: n, den: 1i64 }),
            None => None,
        }
    } else if is_float_literal(s) {
        let k = choose|k: int|
            0 < k < s.len() - 1 && s[k] == '.' && all_digits(s.take(k)) && all_digits(
                s.skip(k + 1),
            );
        match (parse_digits_spec(seq_without(s, k)), pow_checked_spec(
            10i64,
            (s.len() - 1 - k) as nat,
        )) {
            (Some(n), Some(d)) => Some(Number { num: n, den: d }),
            _ => None,
        }
    } else {
        None
    }
}

impl Number {
    /// The denominator is always positive, so the sign lives in the
    /// numerator and the value `num / den` is well defined.
    pub open spec fn wf(self) -> bool {
        self.den >= 1
    }

    /// The whole number `i`.
    pub fn from_int(i: i64) -> (r: Number)
        ensures
            r == (Number { num: i, den: 1i64 }),
            r.wf(),
    {
        Number { num: i, den: 1 }
    }

    /// The rational `num / den`, or `None` unless `den >= 1`.
    pub fn from_parts(num: i64, den: i64) -> (r: Option<Number>)
        ensures
            den >= 1 ==> r == Some(Number { num, den }),
            den < 1 ==> r is None,
            r matches Some(s) ==> s.wf(),
    {
        if den >= 1 {
            Some(Number { num, den })
        } else {
            None
        }
    }

    /// Reads a number literal into its exact rational value; `None` when
    /// the digits overflow an `i64`.
    pub fn from_literal(s: &str) -> (r: Option<Number>)
        requires
            is_int_literal(s@) || is_float_literal(s@),
        ensures
            r == parse_literal_spec(s@),
            r matches Some(x) ==> x.wf(),
    {
        let len = s.unicode_len();
        // find the first dot, if any
        let mut dot: usize = len;
        let mut i: usize = 0;
        while i < len
            invariant
                i <= len,
                dot <= len,
                len == s@.len(),
                dot == len ==> forall|j: int| 0 <= j < i ==> s@[j] != '.',
                dot < len ==> s@[dot as int] == '.',
            decreases len - i,
        {
            let c = s.get_char(i);
            if dot == len && c == '.' {
                dot = i;
            }
            i = i + 1;
        }
        if dot == len {
            proof {
                assert(is_int_literal(s@));
            }
            match Self::parse_digits_skip(s, len, len) {
                Some(n) => Some(Number { num: n, den: 1 }),
                None => None,
            }
        } else {
            proof {
                assert(('.' as u32) == 46);
                assert(all_digits(s@) ==> is_digit_char(s@[dot as int]));
                assert(!is_int_literal(s@));
                let k = choose|k: int|
                    0 < k < s@.len() - 1 && s@[k] == '.' && all_digits(s@.take(k)) && all_digits(
                        s@.skip(k + 1),
                    );
                if k != dot as int {
                    if (dot as int) < k {
                        assert(s@.take(k)[dot as int] == s@[dot as int]);
                        assert(is_digit_char(s@[dot as int]));
                    } else {
                        assert(s@.skip(k + 1)[dot - k - 1] == s@[dot as int]);
                        assert(is_digit_char(s@[dot as int]));
                    }
                }
                assert(k == dot as int);
                assert forall|j: int| 0 <= j < len && j != dot as int implies is_digit_char(
                    s@[j],
                ) by {
                    if j < dot as int {
                        assert(s@.take(dot as int)[j] == s@[j]);
                    } else {
                        assert(s@.skip(dot as int + 1)[j - dot - 1] == s@[j]);
                    }
                }
            }
            match Self::parse_digits_skip(s, dot, len) {
                Some(n) => {
                    let m = len - 1 - dot;
                    if m >= 19 {
                        proof {
                            assert(pow_checked_spec(10i64, 19nat) is None) by {
                                reveal_with_fuel(pow_checked_spec, 21);
                            }
                            lemma_pow_checked_none_mono(10i64, 19nat, m as nat);
                        }
                        None
                    } else {
                        match Self::pow_i64(10, m as u32) {
                            Some(d) => {
                                proof {
                                    lemma_pow_checked_pos(10i64, m as nat);
                                }
                                Some(Number { num: n, den: d })
                            },
                            None => None,
                        }
                    }
                },
                None => None,
            }
        }
    }

    /// Reads the digits of `s`, leaving out the position `skip`, with
    /// checked arithmetic.
    fn parse_digits_skip(s: &str, skip: usize, len: usize) -> (r: Option<i64>)
        requires
            len == s@.len(),
            skip <= len,
            forall|j: int| 0 <= j < len && j != skip ==> is_digit_char(s@[j]),
        ensures
            r == parse_digits_spec(seq_without(s@, skip as int)),
    {
        let ghost t = seq_without(s@, skip as int);
        let mut acc: i64 = 0;
        let mut i: usize = 0;
        while i < len
            invariant
                i <= len,
                len == s@.len(),
                skip <= len,
                forall|j: int| 0 <= j < len && j != skip ==> is_digit_char(s@[j]),
                t == seq_without(s@, skip as int),
                parse_digits_spec(t.take(digit_pos(i as int, skip as int))) == Some(acc),
            decreases len - i,
        {
            if i != skip {
                let ghost p = digit_pos(i as int, skip as int);
                let c = s.get_char(i);
                let v = c as u32;
                let d = (v - 48) as i64;
                proof {
                    assert(t[p] == s@[i as int]);
                    assert(t.take(p + 1).drop_last() =~= t.take(p));
                    assert(t.take(p + 1).last() == t[p]);
                }
                match acc.checked_mul(10) {
                    Some(x) => match x.checked_add(d) {
                        Some(y) => {
                            acc = y;
                            proof {
                                assert(digit_pos(i + 1, skip as int) == p + 1);
                            }
                        },
                        None => {
                            proof {
                                lemma_parse_digits_none_mono(t, p + 1);
                            }
                            return None;
                        },
                    },
                    None => {
                        proof {
                            lemma_parse_digits_none_mono(t, p + 1);
                        }
                        return None;
                    },
                }
            }
            i = i + 1;
        }
        proof {
            assert(t.take(digit_pos(len as int, skip as int)) =~= t);
        }
        Some(acc)
    }

    /// Exact addition: the result equals `self + other` by cross
    /// multiplication whenever no machine word overflows.
    pub fn checked_add(self, other: Number) -> (r: Option<Number>)
        requires
            self.wf(),
            other.wf(),
        ensures
            r == add_spec(self, other),
            r matches Some(s) ==> s.wf() && s.num * (self.den * other.den) == (self.num
                * other.den + other.num * self.den) * s.den,
    {
        match (self.num.checked_mul(other.den), other.num.checked_mul(self.den), self
            .den
            .checked_mul(other.den)) {
            (Some(x), Some(y), Some(d)) => match x.checked_add(y) {
                Some(n) => {
                    proof {
                        assert(d >= 1) by (nonlinear_arith)
                            requires
                                self.den >= 1,
                                other.den >= 1,
                                d == self.den * other.den,
                        ;
                    }
                    Some(Number { num: n, den: d })
                },
                None => None,
            },
            _ => None,
        }
    }

    /// Exact subtraction: the result equals `self - other` by cross
    /// multiplication whenever no machine word overflows.
    pub fn checked_sub(self, other: Number) -> (r: Option<Number>)
        requires
            self.wf(),
            other.wf(),
        ensures
            r == sub_spec(self, other),
            r matches Some(s) ==> s.wf() && s.num * (self.den * other.den) == (self.num
                * other.den - other.num * self.den) * s.den,
    {
        match (self.num.checked_mul(other.den), other.num.checked_mul(self.den), self
            .den
            .checked_mul(other.den)) {
            (Some(x), Some(y), Some(d)) => match x.checked_sub(y) {
                Some(n) => {
                    proof {
                        assert(d >= 1) by (nonlinear_arith)
                            requires
                                self.den >= 1,
                                other.den >= 1,
                                d == self.den * other.den,
                        ;
                    }
                    Some(Number { num: n, den: d })
                },
                None => None,
            },
            _ => None,
        }
    }

    /// Exact multiplication: the result equals `self * other` by cross
    /// multiplication whenever no machine word overflows.
    pub fn checked_mul(self, other: Number) -> (r: Option<Number>)
        requires
            self.wf(),
            other.wf(),
        ensures
            r == mul_spec(self, other),
            r matches Some(s) ==> s.wf() && s.num * (self.den * other.den) == (self.num
                * other.num) * s.den,
    {
        match (self.num.checked_mul(other.num), self.den.checked_mul(other.den)) {
            (Some(n), Some(d)) => {
                proof {
                    assert(d >= 1) by (nonlinear_arith)
                        requires
                            self.den >= 1,
                            other.den >= 1,
                            d == self.den * other.den,
                    ;
                }
                Some(Number { num: n, den: d })
            },
            _ => None,
        }
    }

    /// Exact division: `None` when `other` is zero; otherwise the result
    /// equals `self / other` by cross multiplication whenever no machine
    /// word overflows.
    pub fn checked_div(self, other: Number) -> (r: Option<Number>)
        requires
            self.wf(),
            other.wf(),
        ensures
            r == div_spec(self, other),
            other.num == 0 ==> r is None,
            r matches Some(s) ==> s.wf() && s.num * (self.den * other.num) == (self.num
                * other.den) * s.den,
    {
        match (self.num.checked_mul(other.den), self.den.checked_mul(other.num)) {
            (Some(n), Some(d)) => {
                proof {
                    assert(other.num == 0 ==> d == 0) by (nonlinear_arith)
                        requires
                            d == self.den * other.num,
                    ;
                    assert(other.num != 0 && self.den >= 1 ==> d != 0) by (nonlinear_arith)
                        requires
                            d == self.den * other.num,
                    ;
                }
                Self::norm_sign(n, d)
            },
            _ => None,
        }
    }

    /// Moves the sign of `d` into the numerator; see `norm_sign_spec`.
    fn norm_sign(n: i64, d: i64) -> (r: Option<Number>)
        ensures
            r == norm_sign_spec(n, d),
            r matches Some(s) ==> s.wf() && s.num * d == n * s.den,
    {
        if d == 0 {
            None
        } else if d >= 1 {
            Some(Number { num: n, den: d })
        } else {
            match ((0i64).checked_sub(n), (0i64).checked_sub(d)) {
                (Some(nn), Some(dd)) => {
                    proof {
                        assert((0 - n) * d == n * (0 - d)) by (nonlinear_arith);
                    }
                    Some(Number { num: nn, den: dd })
                },
                _ => None,
            }
        }
    }

    /// The remainder of truncating division, as the machine `%` computes
    /// it: `None` when `other` is zero or a machine word overflows.
    pub fn checked_rem(self, other: Number) -> (r: Option<Number>)
        requires
            self.wf(),
            other.wf(),
        ensures
            r == rem_spec(self, other),
            other.num == 0 ==> r is None,
            r matches Some(s) ==> s.wf(),
    {
        match (self.num.checked_mul(other.den), self.den.checked_mul(other.num), self
            .den
            .checked_mul(other.den)) {
            (Some(n), Some(d), Some(cd)) => {
                proof {
                    assert(other.num == 0 ==> d == 0) by (nonlinear_arith)
                        requires
                            d == self.den * other.num,
                    ;
                    assert(cd >= 1) by (nonlinear_arith)
                        requires
                            self.den >= 1,
                            other.den >= 1,
                            cd == self.den * other.den,
                    ;
                }
                match n.checked_div(d) {
                    Some(q) => match q.checked_mul(d) {
                        Some(t) => match n.checked_sub(t) {
                            Some(rn) => Some(Number { num: rn, den: cd }),
                            None => None,
                        },
                        None => None,
                    },
                    None => None,
                }
            },
            _ => None,
        }
    }

    /// Exact negation: `None` only for the one numerator whose negation
    /// overflows.
    pub fn checked_neg(self) -> (r: Option<Number>)
        requires
            self.wf(),
        ensures
            r == neg_spec(self),
            r matches Some(s) ==> s.wf() && s.num == -(self.num as int) && s.den == self.den,
    {
        match (0i64).checked_sub(self.num) {
            Some(n) => Some(Number { num: n, den: self.den }),
            None => None,
        }
    }

    /// Truncation toward zero, saturated to the `i32` range.
    pub fn trunc32(self) -> (r: i32)
        requires
            self.wf(),
        ensures
            r == trunc32_spec(self),
    {
        proof {
            lemma_trunc_div_fits(self.num, self.den);
        }
        let q = self.num.checked_div(self.den).unwrap();
        if q > i32::MAX as i64 {
            i32::MAX
        } else if q < i32::MIN as i64 {
            i32::MIN
        } else {
            q as i32
        }
    }

    /// The unsigned shift count that the machine shift sees for `y`.
    fn shift_count(y: i32) -> (r: u32)
        ensures
            r == shift_count_spec(y),
    {
        if y >= 0 {
            proof {
                vstd::arithmetic::div_mod::lemma_small_mod(y as nat, 0x1_0000_0000nat);
            }
            y as u32
        } else {
            proof {
                vstd::arithmetic::div_mod::lemma_mod_add_multiples_vanish(
                    y as int,
                    0x1_0000_0000int,
                );
                vstd::arithmetic::div_mod::lemma_small_mod(
                    (y + 0x1_0000_0000i64) as nat,
                    0x1_0000_0000nat,
                );
            }
            ((y as i64) + 0x1_0000_0000i64) as u32
        }
    }

    /// Left shift on the operands truncated to `i32`, wrapping as the
    /// machine shift does; always defined.
    pub fn shift_left(self, other: Number) -> (r: Number)
        requires
            self.wf(),
            other.wf(),
        ensures
            r == shl_spec(self, other),
            r.wf(),
    {
        let x = self.trunc32();
        let y = other.trunc32();
        let c = Self::shift_count(y);
        Number { num: x.wrapping_shl(c) as i64, den: 1 }
    }

    /// Arithmetic right shift on the operands truncated to `i32`; always
    /// defined.
    pub fn shift_right(self, other: Number) -> (r: Number)
        requires
            self.wf(),
            other.wf(),
        ensures
            r == shr_spec(self, other),
            r.wf(),
    {
        let x = self.trunc32();
        let y = other.trunc32();
        let c = Self::shift_count(y);
        Number { num: x.wrapping_shr(c) as i64, den: 1 }
    }

    /// `base` raised to `m` by repeated checked multiplication.
    fn pow_i64(base: i64, m: u32) -> (r: Option<i64>)
        ensures
            r == pow_checked_spec(base, m as nat),
    {
        let mut acc: i64 = 1;
        let mut i: u32 = 0;
        while i < m
            invariant
                i <= m,
                pow_checked_spec(base, i as nat) == Some(acc),
            decreases m - i,
        {
            match acc.checked_mul(base) {
                Some(v) => {
                    acc = v;
                    i = i + 1;
                },
                None => {
                    proof {
                        lemma_pow_checked_none_mono(base, (i + 1) as nat, m as nat);
                    }
                    return None;
                },
            }
        }
        Some(acc)
    }

    /// Exponentiation with the exponent truncated toward zero; a negative
    /// exponent inverts the base. `None` on a zero base under a negative
    /// exponent, and on overflow.
    pub fn checked_pow(self, other: Number) -> (r: Option<Number>)
        requires
            self.wf(),
            other.wf(),
        ensures
            r == pow_spec(self, other),
            r matches Some(s) ==> s.wf(),
    {
        let e = other.trunc32();
        if e >= 0 {
            match (Self::pow_i64(self.num, e as u32), Self::pow_i64(self.den, e as u32)) {
                (Some(n), Some(d)) => {
                    proof {
                        lemma_pow_checked_pos(self.den, e as nat);
                    }
                    Some(Number { num: n, den: d })
                },
                _ => None,
            }
        } else if self.num == 0 {
            None
        } else {
            let m = (-(e as i64)) as u32;
            match (Self::pow_i64(self.den, m), Self::pow_i64(self.num, m)) {
                (Some(n), Some(d)) => Self::norm_sign(n, d),
                _ => None,
            }
        }
    }
}

/// The index in the digit sequence corresponding to the string index `i`
/// when the position `skip` is left out.
pub open spec fn digit_pos(i: int, skip: int) -> int {
    if i <= skip {
        i
    } else {
        i - 1
    }
}

/// Once the digit accumulator overflows at a prefix it stays overflowed.
proof fn lemma_parse_digits_none_mono(s: Seq<char>, k: int)
    requires
        0 <= k <= s.len(),
        parse_digits_spec(s.take(k)) is None,
    ensures
        parse_digits_spec(s) is None,
    decreases s.len() - k,
{
    if k == s.len() {
        assert(s.take(k) =~= s);
    } else {
        assert(s.take(k + 1).drop_last() =~= s.take(k));
        lemma_parse_digits_none_mono(s, k + 1);
    }
}

/// Truncating division of an `i64` by a positive `i64` always fits.
proof fn lemma_trunc_div_fits(x: i64, d: i64)
    requires
        d >= 1,
    ensures
        x.checked_div(d) is Some,
{
    if x == 0 {
    } else if x > 0 {
        vstd::arithmetic::div_mod::lemma_div_pos_is_pos(x as int, d as int);
        vstd::arithmetic::div_mod::lemma_div_nonincreasing(x as int, d as int);
    } else {
        let y = -(x as int);
        vstd::arithmetic::div_mod::lemma_div_pos_is_pos(y, d as int);
        vstd::arithmetic::div_mod::lemma_div_nonincreasing(y, d as int);
    }
}

/// Once the checked power overflows it stays overflowed at every larger
/// exponent.
proof fn lemma_pow_checked_none_mono(b: i64, k: nat, m: nat)
    requires
        k <= m,
        pow_checked_spec(b, k) is None,
    ensures
        pow_checked_spec(b, m) is None,
    decreases m - k,
{
    if k < m {
        lemma_pow_checked_none_mono(b, k, (m - 1) as nat);
    }
}

/// The checked power of a positive base is positive.
proof fn lemma_pow_checked_pos(b: i64, m: nat)
    requires
        b >= 1,
    ensures
        pow_checked_spec(b, m) matches Some(p) ==> p >= 1,
    decreases m,
{
    if m > 0 {
        lemma_pow_checked_pos(b, (m - 1) as nat);
        if let Some(p) = pow_checked_spec(b, (m - 1) as nat) {
            assert(p >= 1 && b >= 1 ==> p * b >= 1) by (nonlinear_arith);
        }
    }
}

} // verus!
