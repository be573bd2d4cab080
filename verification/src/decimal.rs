//! Decimal notation of integers: writing, and reading back.

use vstd::prelude::*;
use crate::text::chars_of;

verus! {

/// The character of the digit `d`.
pub open spec fn digit_char(d: nat) -> char {
    (48 + d) as char
}

/// `n` in decimal notation, without leading zeros.
pub open spec fn decimal(n: nat) -> Seq<char>
    decreases n,
{
    if n < 10 {
        seq![digit_char(n)]
    } else {
        decimal(n / 10).push(digit_char(n % 10))
    }
}

/// `n` in decimal notation, with a leading minus sign where it is negative.
pub open spec fn signed_decimal(n: int) -> Seq<char> {
    if n < 0 {
        seq!['-'] + decimal((-n) as nat)
    } else {
        decimal(n as nat)
    }
}

/// Whether `c` is one of the ten ASCII digits.
pub open spec fn is_digit(c: char) -> bool {
    '0' <= c <= '9'
}

/// Whether `s` holds ASCII digits only.
pub open spec fn all_digits(s: Seq<char>) -> bool {
    forall|i: int| 0 <= i < s.len() ==> is_digit(#[trigger] s[i])
}

/// The number that the digits `s` write.
pub open spec fn digits_value(s: Seq<char>) -> nat
    decreases s.len(),
{
    if s.len() == 0 {
        0
    } else {
        digits_value(s.drop_last()) * 10 + ((s.last() as int) - 48) as nat
    }
}

/// `s` without a leading plus sign.
pub open spec fn unsigned_part(s: Seq<char>) -> Seq<char> {
    if s.len() > 0 && s[0] == '+' {
        s.skip(1)
    } else {
        s
    }
}

/// The number that `s` writes as an unsigned 64-bit integer: an optional plus
/// sign, then one digit or more, in range. Any other text writes none.
pub open spec fn number_of(s: Seq<char>) -> Option<u64> {
    let digits = unsigned_part(s);
    if digits.len() > 0 && all_digits(digits) && digits_value(digits) <= u64::MAX {
        Some(digits_value(digits) as u64)
    } else {
        None
    }
}

/// `n` in decimal notation.
pub fn u64_text(n: u64) -> (r: String)
    ensures
        r@ == decimal(n as nat),
    decreases n,
{
    let mut out = if n < 10 {
        String::new()
    } else {
        u64_text(n / 10)
    };
    let d: u8 = (n % 10) as u8;
    out.push((48 + d) as char);
    assert(out@ =~= decimal(n as nat));
    out
}

/// `n` in decimal notation.
pub fn i64_text(n: i64) -> (r: String)
    ensures
        r@ == signed_decimal(n as int),
{
    if n >= 0 {
        return u64_text(n as u64);
    }
    let mut out = String::new();
    out.push('-');
    let magnitude: u64 = ((-(n + 1)) as u64) + 1;
    let digits = u64_text(magnitude);
    out.append(digits.as_str());
    assert(out@ =~= signed_decimal(n as int));
    out
}

proof fn lemma_value_prefix(s: Seq<char>, k: int)
    requires
        0 <= k <= s.len(),
    ensures
        digits_value(s.take(k)) <= digits_value(s),
    decreases s.len(),
{
    if k < s.len() {
        lemma_value_prefix(s.drop_last(), k);
        assert(s.drop_last().take(k) =~= s.take(k));
    } else {
        assert(s.take(k) =~= s);
    }
}

/// `str::parse` for `u64`, with every failure made `None`.
pub fn parse_u64(s: &str) -> (r: Option<u64>)
    ensures
        r == number_of(s@),
{
    let chars = chars_of(s);
    let n: usize = chars.len();
    let from: usize = if n > 0 && chars[0] == '+' {
        1
    } else {
        0
    };
    let ghost digits = unsigned_part(s@);
    assert(digits =~= s@.skip(from as int));
    if from == n {
        return None;
    }
    let mut value: u64 = 0;
    let mut i: usize = from;
    while i < n
        invariant
            from <= i <= n == chars@.len(),
            chars@ == s@,
            digits == unsigned_part(s@),
            digits == s@.skip(from as int),
            all_digits(digits.take(i - from)),
            value == digits_value(digits.take(i - from)),
        decreases n - i,
    {
        let c: char = chars[i];
        let ghost k = i - from;
        assert(digits[k] == c);
        if c < '0' || c > '9' {
            assert(!is_digit(digits[k]));
            return None;
        }
        assert(digits.take(k + 1) =~= digits.take(k).push(c));
        assert(digits.take(k + 1).drop_last() =~= digits.take(k));
        let d: u64 = (c as u8 - 48) as u64;
        assert(digits_value(digits.take(k + 1)) == value * 10 + d);
        if value > (u64::MAX - d) / 10 {
            proof {
                lemma_value_prefix(digits, k + 1);
            }
            return None;
        }
        value = value * 10 + d;
        i = i + 1;
    }
    assert(digits.take(n - from) =~= digits);
    Some(value)
}

proof fn lemma_decimal_digits(n: nat)
    ensures
        decimal(n).len() > 0,
        all_digits(decimal(n)),
        digits_value(decimal(n)) == n,
    decreases n,
{
    let s = decimal(n);
    if n < 10 {
        assert(s.drop_last() =~= Seq::<char>::empty());
        assert(digits_value(s.drop_last()) == 0);
    } else {
        lemma_decimal_digits(n / 10);
        assert(s.drop_last() =~= decimal(n / 10));
        assert(is_digit(digit_char(n % 10)));
    }
}

/// Reading a number's decimal notation gives the number back.
pub proof fn lemma_number_of_decimal(n: u64)
    ensures
        number_of(decimal(n as nat)) == Some(n),
{
    lemma_decimal_digits(n as nat);
    assert(is_digit(decimal(n as nat)[0]));
}

/// Different numbers have different notations, with one minus sign in front of
/// those below zero; a plus sign or zeros in front of a notation change nothing
/// of what it reads as.
pub proof fn lemma_notation(n: u64, m: u64)
    ensures
        decimal(n as nat) == decimal(m as nat) <==> n == m,
        n > 0 ==> signed_decimal(-(n as int)) == seq!['-'] + decimal(n as nat),
        signed_decimal(n as int) == decimal(n as nat),
        number_of(seq!['+'] + decimal(n as nat)) == Some(n),
        number_of(seq!['0'] + decimal(n as nat)) == Some(n),
        number_of(seq!['-'] + decimal(n as nat)) is None,
{
    lemma_number_of_decimal(n);
    lemma_number_of_decimal(m);
    let s = decimal(n as nat);
    lemma_decimal_digits(n as nat);
    assert((seq!['+'] + s).skip(1) =~= s);
    let zero = seq!['0'] + s;
    assert(unsigned_part(zero) == zero);
    lemma_leading_zero(s);
    assert forall|i: int| 0 <= i < zero.len() implies is_digit(#[trigger] zero[i]) by {
        if i > 0 {
            assert(is_digit(s[i - 1]));
        }
    }
    let minus = seq!['-'] + s;
    assert(unsigned_part(minus) == minus);
    assert(!is_digit(minus[0]));
}

proof fn lemma_leading_zero(s: Seq<char>)
    ensures
        digits_value(seq!['0'] + s) == digits_value(s),
    decreases s.len(),
{
    let whole = seq!['0'] + s;
    if s.len() > 0 {
        assert(whole.drop_last() =~= seq!['0'] + s.drop_last());
        lemma_leading_zero(s.drop_last());
    } else {
        assert(whole.drop_last() =~= s);
    }
}

/// A text that reads as a number holds digits alone, but for a plus sign at its
/// front.
pub proof fn lemma_numbers_are_digits(s: Seq<char>)
    requires
        number_of(s) is Some,
    ensures
        s.len() > 0,
        forall|i: int|
            0 <= i < s.len() ==> '0' <= #[trigger] s[i] <= '9' || (i == 0 && s[0] == '+'),
{
    let digits = unsigned_part(s);
    let from = s.len() - digits.len();
    assert forall|i: int| 0 <= i < s.len() implies '0' <= #[trigger] s[i] <= '9' || (i == 0 && s[0]
        == '+') by {
        if i >= from {
            assert(is_digit(digits[i - from]));
        }
    }
}

/// Decimal notation is by tens: a digit behind a number stands for ten times the
/// number and the digit.
pub proof fn lemma_by_tens(n: nat, d: nat)
    requires
        d < 10,
    ensures
        decimal(d) == seq![((('0' as u32) + d) as u32) as char],
        n > 0 ==> decimal(n * 10 + d) == decimal(n).push(((('0' as u32) + d) as u32) as char),
{
    if n > 0 {
        assert((n * 10 + d) / 10 == n);
        assert((n * 10 + d) % 10 == d);
    }
}

} // verus!
