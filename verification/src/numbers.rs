//! Decimal numerals: writing unsigned integers, and reading them back.

use crate::text::{chars_of, digit, is_digit, string_of};
use vstd::prelude::*;

verus! {

/// The number that an ASCII digit stands for.
pub open spec fn digit_value(c: char) -> nat {
    (c as int - '0' as int) as nat
}

/// The ASCII digit that stands for `d`.
pub open spec fn digit_char(d: nat) -> char {
    ('0' as int + d) as char
}

/// Whether `s` consists of ASCII digits alone.
pub open spec fn all_digits(s: Seq<char>) -> bool {
    forall|i: int| 0 <= i < s.len() ==> is_digit(#[trigger] s[i])
}

/// The number that a sequence of ASCII digits stands for, most significant digit first.
pub open spec fn digits_value(s: Seq<char>) -> nat
    decreases s.len(),
{
    if s.len() == 0 {
        0
    } else {
        10 * digits_value(s.drop_last()) + digit_value(s.last())
    }
}

/// The decimal numeral of `n`, without leading zeros.
pub open spec fn decimal(n: nat) -> Seq<char>
    decreases n,
{
    if n < 10 {
        seq![digit_char(n)]
    } else {
        decimal(n / 10).push(digit_char(n % 10))
    }
}

/// The digits of a numeral: what follows a single leading plus sign, if there is one.
pub open spec fn unsigned_digits(s: Seq<char>) -> Seq<char> {
    if s.len() > 0 && s[0] == '+' {
        s.skip(1)
    } else {
        s
    }
}

/// The number that `s` denotes when read as an unsigned integer of at most `max`: an optional
/// plus sign and at least one ASCII digit, with nothing before, between or after.
pub open spec fn unsigned(s: Seq<char>, max: nat) -> Option<nat> {
    let digits = unsigned_digits(s);
    if digits.len() > 0 && all_digits(digits) && digits_value(digits) <= max {
        Some(digits_value(digits))
    } else {
        None
    }
}

/// Ten to the power of `n`.
pub open spec fn power_of_ten(n: nat) -> nat
    decreases n,
{
    if n == 0 {
        1
    } else {
        10 * power_of_ten((n - 1) as nat)
    }
}

/// A power of ten is at least one.
pub proof fn lemma_power_of_ten_positive(n: nat)
    ensures
        power_of_ten(n) > 0,
    decreases n,
{
    if n > 0 {
        lemma_power_of_ten_positive((n - 1) as nat);
    }
}

/// The value of a digit sequence does not fall when digits are appended.
pub proof fn lemma_value_prefix(s: Seq<char>, n: int)
    requires
        0 <= n <= s.len(),
    ensures
        digits_value(s.take(n)) <= digits_value(s),
    decreases s.len(),
{
    if n < s.len() {
        assert(s.take(n) == s.drop_last().take(n));
        lemma_value_prefix(s.drop_last(), n);
    } else {
        assert(s.take(n) == s);
    }
}

/// A decimal numeral is a non-empty sequence of digits whose value is the number written.
pub proof fn lemma_decimal(n: nat)
    ensures
        decimal(n).len() > 0,
        all_digits(decimal(n)),
        digits_value(decimal(n)) == n,
    decreases n,
{
    if n < 10 {
        let s = seq![digit_char(n)];
        assert(s.drop_last() == Seq::<char>::empty());
        assert(digits_value(s.drop_last()) == 0);
    } else {
        lemma_decimal(n / 10);
        let s = decimal(n);
        assert(s.drop_last() == decimal(n / 10));
    }
}

/// Reading back the decimal numeral of a number gives that number.
pub proof fn decimal_round_trip(n: nat, max: nat)
    requires
        n <= max,
    ensures
        unsigned(decimal(n), max) == Some(n),
{
    lemma_decimal(n);
    assert(is_digit(decimal(n)[0]));
}

/// Different numbers have different decimal numerals.
pub proof fn decimal_injective(a: nat, b: nat)
    requires
        decimal(a) == decimal(b),
    ensures
        a == b,
{
    lemma_decimal(a);
    lemma_decimal(b);
}

/// The characters of the decimal numeral of `n`.
pub fn decimal_chars(n: u64) -> (res: Vec<char>)
    ensures
        res@ == decimal(n as nat),
    decreases n,
{
    let last: char = (48u8 + (n % 10) as u8) as char;
    if n < 10 {
        let mut res: Vec<char> = Vec::new();
        res.push(last);
        res
    } else {
        let mut res: Vec<char> = decimal_chars(n / 10);
        res.push(last);
        res
    }
}

/// The decimal numeral of `n`.
pub fn decimal_text(n: u64) -> (res: String)
    ensures
        res@ == decimal(n as nat),
{
    string_of(&decimal_chars(n))
}

/// The number that an ASCII digit stands for.
pub fn value_of_digit(c: char) -> (res: u64)
    requires
        is_digit(c),
    ensures
        res == digit_value(c),
        res < 10,
{
    (c as u32 - 48) as u64
}

/// Reads an unsigned 64-bit integer.
pub fn parse_u64(v: &Vec<char>) -> (res: Option<u64>)
    ensures
        res matches Some(n) ==> unsigned(v@, u64::MAX as nat) == Some(n as nat),
        res is None ==> unsigned(v@, u64::MAX as nat) is None,
{
    let from: usize = if v.len() > 0 && v[0] == '+' {
        1
    } else {
        0
    };
    let ghost digits = unsigned_digits(v@);
    assert(digits == v@.skip(from as int));
    if from == v.len() {
        return None;
    }
    let mut value: u64 = 0;
    for i in from..v.len()
        invariant
            from <= v@.len(),
            digits == unsigned_digits(v@),
            digits == v@.skip(from as int),
            forall|j: int| 0 <= j < i - from ==> is_digit(#[trigger] digits[j]),
            value == digits_value(digits.take(i - from)),
    {
        let c: char = v[i];
        assert(digits[i - from] == c);
        if !digit(c) {
            return None;
        }
        let ghost longer = digits.take(i - from + 1);
        proof {
            assert(longer.drop_last() == digits.take(i - from));
            lemma_value_prefix(digits, i - from + 1);
        }
        let d: u64 = value_of_digit(c);
        match value.checked_mul(10) {
            None => {
                return None;
            },
            Some(tens) => match tens.checked_add(d) {
                None => {
                    return None;
                },
                Some(sum) => {
                    value = sum;
                },
            },
        }
    }
    assert(digits.take(digits.len() as int) == digits);
    Some(value)
}

/// Reads an unsigned integer of the machine's word size.
pub fn parse_usize(v: &Vec<char>) -> (res: Option<usize>)
    ensures
        res matches Some(n) ==> unsigned(v@, usize::MAX as nat) == Some(n as nat),
        res is None ==> unsigned(v@, usize::MAX as nat) is None,
{
    match parse_u64(v) {
        Some(n) => if n <= usize::MAX as u64 {
            Some(n as usize)
        } else {
            None
        },
        None => None,
    }
}

/// Reads an unsigned integer of the machine's word size out of a text.
pub fn parse_index(s: &str) -> (res: Option<usize>)
    ensures
        res matches Some(n) ==> unsigned(s@, usize::MAX as nat) == Some(n as nat),
        res is None ==> unsigned(s@, usize::MAX as nat) is None,
{
    parse_usize(&chars_of(s))
}

/// A numeral is read with a plus sign before it as without, and with zeros before it. A number
/// above the bound is not read.
pub proof fn numerals_are_read_with_signs_and_zeros(n: nat, max: nat)
    ensures
        n <= max ==> unsigned(seq!['+'] + decimal(n), max) == Some(n),
        n <= max ==> unsigned(seq!['0'] + decimal(n), max) == Some(n),
        n > max ==> unsigned(decimal(n), max) is None,
{
    lemma_decimal(n);
    let digits = decimal(n);
    assert(is_digit(digits[0]));
    let plus = seq!['+'] + digits;
    assert(plus.skip(1) == digits);
    let zero = seq!['0'] + digits;
    assert forall|i: int| 0 <= i < zero.len() implies is_digit(#[trigger] zero[i]) by {
        if i > 0 {
            assert(zero[i] == digits[i - 1]);
            assert(is_digit(digits[i - 1]));
        }
    }
    lemma_zero_before(digits);
}

proof fn lemma_zero_before(digits: Seq<char>)
    ensures
        digits_value(seq!['0'] + digits) == digits_value(digits),
    decreases digits.len(),
{
    let zero = seq!['0'] + digits;
    if digits.len() == 0 {
        assert(digits == Seq::<char>::empty());
        assert(zero.drop_last() == digits);
        assert(zero.last() == '0');
        assert(digits_value(digits) == 0);
    } else {
        lemma_zero_before(digits.drop_last());
        assert(zero.drop_last() == seq!['0'] + digits.drop_last());
        assert(zero.last() == digits.last());
    }
}

/// What is read as a number holds only digits behind its sign, and at least one.
pub proof fn only_digits_are_numbers(s: Seq<char>, max: nat)
    ensures
        unsigned(s, max) matches Some(n) ==> {
            &&& n <= max
            &&& s.len() > 0
            &&& forall|i: int| 1 <= i < s.len() ==> is_digit(#[trigger] s[i])
            &&& is_digit(s[0]) || (s[0] == '+' && s.len() > 1)
        },
{
    let digits = unsigned_digits(s);
    if unsigned(s, max) is Some {
        assert forall|i: int| 1 <= i < s.len() implies is_digit(#[trigger] s[i]) by {
            if s[0] == '+' {
                assert(digits[i - 1] == s[i]);
            } else {
                assert(digits[i] == s[i]);
            }
        }
        if s[0] != '+' {
            assert(digits[0] == s[0]);
        }
    }
}

/// Digits are read by their place: each further digit makes ten of what stands before it, and adds
/// its own value.
pub proof fn digits_count_by_their_place(s: Seq<char>, c: char)
    requires
        is_digit(c),
    ensures
        digits_value(Seq::empty()) == 0,
        digits_value(s.push(c)) == 10 * digits_value(s) + (c as int - 48),
{
    assert(s.push(c).drop_last() == s);
}

/// A numeral does not start with a zero, unless it is zero itself.
pub proof fn numerals_have_no_leading_zero(n: nat)
    ensures
        n == 0 ==> decimal(n) == seq!['0'],
        n > 0 ==> decimal(n)[0] != '0',
    decreases n,
{
    if n >= 10 {
        numerals_have_no_leading_zero(n / 10);
        lemma_decimal(n / 10);
        assert(decimal(n)[0] == decimal(n / 10)[0]);
    }
}

} // verus!
