//! Numbers of the 64-bit binary interchange format, kept exactly as multiples of the smallest
//! positive one.
//!
//! The smallest positive number of the format is two to the power of -1074, here the unit. Every
//! finite number that is not negative is a whole number of units, of which at most the 53 most
//! significant bits are not zero. Rounding takes the nearest such number, and of two equally near
//! the one whose last significant bit is zero.

use crate::bignum::Natural;
use crate::natural::Rank;
use crate::numbers::{all_digits, digits_value, power_of_ten, value_of_digit};
use crate::text::{digit, is_digit, leading, part, run_end, CharSet};
use vstd::arithmetic::div_mod::{
    lemma_fundamental_div_mod, lemma_fundamental_div_mod_converse, lemma_mod_bound,
};
use vstd::arithmetic::power2::{
    lemma2_to64, lemma2_to64_rest, lemma_pow2_adds, lemma_pow2_pos, lemma_pow2_strictly_increases,
    lemma_pow2_unfold, pow2,
};
use vstd::prelude::*;

verus! {

/// The number of units in one is two to the power of this.
pub const UNIT_BITS: u32 = 1074;

/// Numbers from two to the power of this many units on are not finite.
pub const FINITE_BITS: u32 = 2098;

/// `x / d` rounded to the nearest whole number, to the even one of two equally near.
pub open spec fn half_even(x: nat, d: nat) -> nat {
    let q = x / d;
    let r = x % d;
    if 2 * r < d || (2 * r == d && q % 2 == 0) {
        q
    } else {
        q + 1
    }
}

/// The number of bits that have to be dropped so that `x / d` has at most 53 of them.
pub open spec fn dropped_bits(x: nat, d: nat) -> nat
    decreases x - d,
{
    if d == 0 || x < pow2(53) * d {
        0
    } else {
        proof {
            lemma_powers();
            assert(pow2(53) * d >= 2 * d) by (nonlinear_arith)
                requires
                    pow2(53) >= 2,
            ;
        }
        1 + dropped_bits(x, 2 * d)
    }
}

/// `x / d` rounded to a whole number with at most 53 significant bits.
pub open spec fn nearest(x: nat, d: nat) -> nat {
    let dropped = dropped_bits(x, d);
    half_even(x, d * pow2(dropped)) * pow2(dropped)
}

/// Whether a number of units is a finite number of the format.
pub open spec fn is_finite(units: nat) -> bool {
    units < pow2(FINITE_BITS as nat)
}

/// The digits of a decimal literal, without its first decimal point.
pub open spec fn literal_digits(number: Seq<char>) -> Seq<char> {
    let dot = leading(number, CharSet::Except('.')) as int;
    if dot < number.len() {
        number.take(dot) + number.skip(dot + 1)
    } else {
        number
    }
}

/// The number of digits behind the decimal point of a decimal literal.
pub open spec fn fraction_digits(number: Seq<char>) -> nat {
    let dot = leading(number, CharSet::Except('.')) as int;
    if dot < number.len() {
        (number.len() - dot - 1) as nat
    } else {
        0
    }
}

/// Whether a text is a decimal literal: digits with at most one decimal point among them, before
/// or behind them.
pub open spec fn is_literal(number: Seq<char>) -> bool {
    literal_digits(number).len() > 0 && all_digits(literal_digits(number))
}

/// The number, in units, that is nearest to the one that a decimal literal denotes.
pub open spec fn literal_units(number: Seq<char>) -> nat {
    nearest(
        digits_value(literal_digits(number)) * pow2(UNIT_BITS as nat),
        power_of_ten(fraction_digits(number)),
    )
}

/// How the remainder of a division compares with half of the divisor.
pub open spec fn half_rank(x: nat, d: nat) -> Rank {
    if 2 * (x % d) < d {
        Rank::Less
    } else if 2 * (x % d) > d {
        Rank::Greater
    } else {
        Rank::Same
    }
}

/// The quotient of two numbers, if it has at most `bits` bits, and how its remainder compares
/// with half of the divisor.
fn divide(x: &Natural, d: &Natural, bits: u32) -> (res: (u128, Rank))
    requires
        d@ > 0,
        bits <= 127,
        x@ < d@ * pow2(bits as nat),
    ensures
        res.0 == x@ / d@,
        res.0 < pow2(bits as nat),
        res.1 == half_rank(x@, d@),
{
    let mut scaled: Natural = d.copy();
    scaled.shift(bits);
    let mut rest: Natural = x.copy();
    let mut quotient: u128 = 0;
    proof {
        lemma_powers();
        assert(x@ * pow2(0) == x@ && 0 * scaled@ == 0) by (nonlinear_arith)
            requires
                pow2(0) == 1,
        ;
    }
    for i in 0..bits
        invariant
            bits <= 127,
            scaled@ == d@ * pow2(bits as nat),
            rest@ < scaled@,
            x@ * pow2(i as nat) == quotient * scaled@ + rest@,
            quotient < pow2(i as nat),
    {
        proof {
            lemma_pow2_unfold((i + 1) as nat);
            lemma_pow2_adds((i + 1) as nat, (127 - i - 1) as nat);
            lemma_pow2_pos((127 - i - 1) as nat);
            lemma_powers();
            assert(pow2((i + 1) as nat) <= pow2(127)) by (nonlinear_arith)
                requires
                    pow2((i + 1) as nat) * pow2((127 - i - 1) as nat) == pow2(127),
                    pow2((127 - i - 1) as nat) >= 1,
            ;
            assert(x@ * (2 * pow2(i as nat)) == 2 * (x@ * pow2(i as nat))) by (nonlinear_arith);
            assert((2 * quotient) * scaled@ + scaled@ == (2 * quotient + 1) * scaled@ && (2
                * quotient) * scaled@ == 2 * (quotient * scaled@)) by (nonlinear_arith);
        }
        rest.double();
        quotient = 2 * quotient;
        if !rest.less(&scaled) {
            rest.subtract(&scaled);
            quotient = quotient + 1;
        }
    }
    let ghost p = pow2(bits as nat);
    let ghost r = x@ - quotient * d@;
    proof {
        lemma_pow2_pos(bits as nat);
        assert(rest@ == r * p) by (nonlinear_arith)
            requires
                x@ * p == quotient * (d@ * p) + rest@,
                r == x@ - quotient * d@,
        ;
        assert(0 <= r < d@) by (nonlinear_arith)
            requires
                0 <= r * p < d@ * p,
                p > 0,
        ;
        lemma_fundamental_div_mod_converse(x@ as int, d@ as int, quotient as int, r);
        assert(2 * rest@ == (2 * r) * p) by (nonlinear_arith)
            requires
                rest@ == r * p,
        ;
        assert(((2 * r) * p < d@ * p) == (2 * r < d@) && ((2 * r) * p > d@ * p) == (2 * r > d@))
            by (nonlinear_arith)
            requires
                p > 0,
        ;
    }
    rest.double();
    let rank: Rank = if rest.less(&scaled) {
        Rank::Less
    } else if scaled.less(&rest) {
        Rank::Greater
    } else {
        Rank::Same
    };
    (quotient, rank)
}

/// Some powers of two.
pub proof fn lemma_powers()
    ensures
        pow2(0) == 1,
        pow2(1) == 2,
        pow2(52) == 0x10_0000_0000_0000,
        pow2(53) == 0x20_0000_0000_0000,
        pow2(64) == 0x1_0000_0000_0000_0000,
        pow2(127) == 0x8000_0000_0000_0000_0000_0000_0000_0000,
{
    lemma2_to64();
    lemma2_to64_rest();
    lemma_pow2_adds(63, 64);
    assert(0x8000_0000_0000_0000int * 0x1_0000_0000_0000_0000int
        == 0x8000_0000_0000_0000_0000_0000_0000_0000int) by (nonlinear_arith);
}

/// The quotient of two numbers, if it has at most `bits` bits, rounded to the nearest whole
/// number.
pub fn divide_half_even(x: &Natural, d: &Natural, bits: u32) -> (res: u128)
    requires
        d@ > 0,
        bits <= 127,
        x@ < d@ * pow2(bits as nat),
    ensures
        res == half_even(x@, d@),
        res <= pow2(bits as nat),
{
    let (quotient, rank): (u128, Rank) = divide(x, d, bits);
    proof {
        lemma_powers();
        if bits < 127 {
            lemma_pow2_strictly_increases(bits as nat, 127);
        }
    }
    match rank {
        Rank::Less => quotient,
        Rank::Greater => quotient + 1,
        Rank::Same => if quotient % 2 == 0 {
            quotient
        } else {
            quotient + 1
        },
    }
}

/// The quotient of two numbers, if it has at most `bits` bits, rounded down.
pub fn divide_down(x: &Natural, d: &Natural, bits: u32) -> (res: u128)
    requires
        d@ > 0,
        bits <= 127,
        x@ < d@ * pow2(bits as nat),
    ensures
        res == x@ / d@,
        res < pow2(bits as nat),
{
    divide(x, d, bits).0
}

/// Dropping one bit less from a divisor twice as large.
proof fn lemma_dropped_step(x: nat, d: nat)
    requires
        d > 0,
        x >= pow2(53) * d,
    ensures
        dropped_bits(x, d) == 1 + dropped_bits(x, 2 * d),
{
}

/// With at least one bit dropped, 53 significant bits are left.
proof fn lemma_dropped(x: nat, d: nat)
    requires
        d > 0,
    ensures
        x < pow2(53) * (d * pow2(dropped_bits(x, d))),
        dropped_bits(x, d) > 0 ==> x >= pow2(52) * (d * pow2(dropped_bits(x, d))),
    decreases x - d,
{
    lemma_powers();
    if x >= pow2(53) * d {
        assert(pow2(53) * d >= 2 * d) by (nonlinear_arith)
            requires
                pow2(53) >= 2,
        ;
        lemma_dropped_step(x, d);
        lemma_dropped(x, 2 * d);
        let n = dropped_bits(x, 2 * d);
        lemma_pow2_unfold(n + 1);
        assert((2 * d) * pow2(n) == d * (2 * pow2(n))) by (nonlinear_arith);
        if n == 0 {
            lemma_pow2_unfold(53);
            assert(pow2(52) * ((2 * d) * 1) == (2 * pow2(52)) * d) by (nonlinear_arith);
        }
    } else {
        assert(d * 1 == d);
    }
}

/// A quotient of at least `m` is not rounded below `m`.
pub proof fn lemma_half_even_bounds(x: nat, d: nat, m: nat)
    requires
        d > 0,
    ensures
        x >= m * d ==> half_even(x, d) >= m,
        x < m * d ==> half_even(x, d) <= m,
{
    lemma_fundamental_div_mod(x as int, d as int);
    lemma_mod_bound(x as int, d as int);
    let q = x as int / d as int;
    if x >= m * d {
        assert(q >= m) by (nonlinear_arith)
            requires
                x >= m * d,
                x == d * q + x as int % d as int,
                (x as int % d as int) < d,
        ;
    } else {
        assert(q < m) by (nonlinear_arith)
            requires
                x < m * d,
                x == d * q + x as int % d as int,
                (x as int % d as int) >= 0,
                d > 0,
        ;
    }
}

/// A multiple of the divisor is not rounded.
pub proof fn lemma_half_even_multiple(d: nat, m: nat)
    requires
        d > 0,
    ensures
        half_even(m * d, d) == m,
{
    assert(m * d == m * d + 0);
    lemma_fundamental_div_mod_converse((m * d) as int, d as int, m as int, 0);
}

/// A number with at most 53 significant bits is its own nearest one.
pub proof fn lemma_nearest_exact(m: nat, e: nat)
    requires
        m <= pow2(53),
    ensures
        nearest(m * pow2(e), 1) == m * pow2(e),
{
    lemma_powers();
    if m == pow2(53) {
        lemma_pow2_unfold(e + 1);
        lemma_pow2_unfold(53);
        assert(m * pow2(e) == pow2(52) * pow2(e + 1)) by (nonlinear_arith)
            requires
                m == 2 * pow2(52),
                pow2(e + 1) == 2 * pow2(e),
        ;
        lemma_nearest_short(pow2(52), e + 1);
    } else {
        lemma_nearest_short(m, e);
    }
}

proof fn lemma_nearest_short(m: nat, e: nat)
    requires
        m < pow2(53),
    ensures
        nearest(m * pow2(e), 1) == m * pow2(e),
{
    let x = m * pow2(e);
    let n = dropped_bits(x, 1);
    lemma_powers();
    lemma_dropped(x, 1);
    lemma_pow2_pos(e);
    lemma_pow2_pos(n);
    assert(1 * pow2(n) == pow2(n));
    if n > e {
        lemma_pow2_adds(52, n);
        lemma_pow2_adds(53, e);
        if 52 + n > 53 + e {
            lemma_pow2_strictly_increases(53 + e, 52 + n);
        }
        assert(x < pow2(53) * pow2(e)) by (nonlinear_arith)
            requires
                x == m * pow2(e),
                m < pow2(53),
                pow2(e) > 0,
        ;
        assert(false);
    }
    let k = (e - n) as nat;
    lemma_pow2_adds(k, n);
    assert(x == (m * pow2(k)) * pow2(n)) by (nonlinear_arith)
        requires
            x == m * pow2(e),
            pow2(e) == pow2(k) * pow2(n),
    ;
    lemma_half_even_multiple(pow2(n), m * pow2(k));
}

/// A rounded number below two to the power of 64 is at least one below it.
pub proof fn lemma_gap(x: nat, d: nat)
    requires
        d > 0,
    ensures
        nearest(x, d) < pow2((64 + UNIT_BITS) as nat) ==> nearest(x, d) + pow2(UNIT_BITS as nat)
            <= pow2((64 + UNIT_BITS) as nat),
{
    let n = dropped_bits(x, d);
    let bound: nat = (64 + UNIT_BITS) as nat;
    let unit: nat = UNIT_BITS as nat;
    lemma_powers();
    lemma_dropped(x, d);
    lemma_pow2_pos(n);
    assert(d * pow2(n) > 0) by (nonlinear_arith)
        requires
            d > 0,
            pow2(n) > 0,
    ;
    lemma_half_even_bounds(x, d * pow2(n), pow2(53));
    let m = half_even(x, d * pow2(n));
    lemma_pow2_pos(unit);
    lemma_pow2_adds(64, unit);
    if nearest(x, d) < pow2(bound) {
        if n < unit {
            lemma_pow2_strictly_increases(n, unit);
            assert(m * pow2(n) + pow2(unit) <= pow2(64) * pow2(unit)) by (nonlinear_arith)
                requires
                    m <= pow2(53),
                    pow2(n) < pow2(unit),
                    pow2(53) + 1 <= pow2(64),
            ;
        } else if n <= bound {
            let k = (bound - n) as nat;
            lemma_pow2_adds(k, n);
            assert(m + 1 <= pow2(k)) by (nonlinear_arith)
                requires
                    m * pow2(n) < pow2(k) * pow2(n),
            ;
            assert(m * pow2(n) + pow2(n) <= pow2(k) * pow2(n)) by (nonlinear_arith)
                requires
                    m + 1 <= pow2(k),
            ;
            if unit < n {
                lemma_pow2_strictly_increases(unit, n);
            }
        } else {
            lemma_pow2_strictly_increases(bound, n);
            assert(m == 0) by (nonlinear_arith)
                requires
                    m * pow2(n) < pow2(n),
                    m >= 0,
            ;
            assert(m * pow2(n) == 0) by (nonlinear_arith)
                requires
                    m == 0,
            ;
            assert(pow2(unit) <= pow2(64) * pow2(unit)) by (nonlinear_arith)
                requires
                    pow2(64) >= 1,
            ;
        }
    }
}

/// `x / d` rounded to a whole number with at most 53 significant bits, if the result is finite.
pub fn round(x: &Natural, d: &Natural) -> (res: Option<Natural>)
    requires
        d@ > 0,
    ensures
        match res {
            Some(units) => units@ == nearest(x@, d@) && is_finite(units@),
            None => !is_finite(nearest(x@, d@)),
        },
{
    let mut divisor: Natural = d.copy();
    let mut limit: Natural = d.copy();
    limit.shift(53);
    let mut dropped: u32 = 0;
    proof {
        lemma_powers();
        assert(d@ * pow2(0) == d@) by (nonlinear_arith)
            requires
                pow2(0) == 1,
        ;
        assert(d@ * pow2(53) == pow2(53) * d@) by (nonlinear_arith);
    }
    let ghost total = dropped_bits(x@, d@);
    while !x.less(&limit)
        invariant
            d@ > 0,
            dropped <= 2045,
            divisor@ == d@ * pow2(dropped as nat),
            divisor@ > 0,
            limit@ == pow2(53) * divisor@,
            total == dropped_bits(x@, d@),
            total == dropped + dropped_bits(x@, divisor@),
        decreases 2046 - dropped,
    {
        proof {
            lemma_dropped_step(x@, divisor@);
            lemma_pow2_unfold((dropped + 1) as nat);
            assert(2 * (d@ * pow2(dropped as nat)) == d@ * (2 * pow2(dropped as nat)))
                by (nonlinear_arith);
            assert(2 * (pow2(53) * divisor@) == pow2(53) * (2 * divisor@)) by (nonlinear_arith);
        }
        if dropped == 2045 {
            proof {
                lemma_infinite(x@, d@);
            }
            return None;
        }
        divisor.double();
        limit.double();
        dropped = dropped + 1;
    }
    assert(total == dropped);
    assert(divisor@ * pow2(53) == pow2(53) * divisor@) by (nonlinear_arith);
    let mantissa: u128 = divide_half_even(x, &divisor, 53);
    proof {
        lemma_powers();
        lemma_pow2_adds(53, dropped as nat);
        lemma_pow2_pos(dropped as nat);
    }
    if mantissa == 0x20_0000_0000_0000 && dropped == 2045 {
        return None;
    }
    let mut units: Natural = Natural::from_u64(mantissa as u64);
    units.shift(dropped);
    proof {
        if dropped < 2045 {
            lemma_pow2_strictly_increases((53 + dropped) as nat, FINITE_BITS as nat);
            assert(mantissa * pow2(dropped as nat) <= pow2(53) * pow2(dropped as nat))
                by (nonlinear_arith)
                requires
                    mantissa <= pow2(53),
            ;
        } else {
            assert(mantissa * pow2(dropped as nat) < pow2(53) * pow2(dropped as nat))
                by (nonlinear_arith)
                requires
                    mantissa < pow2(53),
                    pow2(dropped as nat) > 0,
            ;
        }
    }
    Some(units)
}

/// A quotient of which more than 2045 bits have to be dropped is not finite.
proof fn lemma_infinite(x: nat, d: nat)
    requires
        d > 0,
        dropped_bits(x, d) >= 2046,
    ensures
        !is_finite(nearest(x, d)),
{
    let n = dropped_bits(x, d);
    lemma_dropped(x, d);
    lemma_pow2_pos(n);
    assert(d * pow2(n) > 0) by (nonlinear_arith)
        requires
            d > 0,
            pow2(n) > 0,
    ;
    lemma_half_even_bounds(x, d * pow2(n), pow2(52));
    lemma_pow2_adds(52, n);
    let m = half_even(x, d * pow2(n));
    assert(m * pow2(n) >= pow2(52) * pow2(n)) by (nonlinear_arith)
        requires
            m >= pow2(52),
    ;
    if FINITE_BITS < 52 + n {
        lemma_pow2_strictly_increases(FINITE_BITS as nat, 52 + n);
    }
}

/// A decimal literal as a fraction: the number that its digits stand for, and the power of ten
/// by which it is divided.
fn read_literal(number: &Vec<char>) -> (res: Option<(Natural, Natural)>)
    ensures
        match res {
            Some((digits, divisor)) => {
                &&& is_literal(number@)
                &&& digits@ == digits_value(literal_digits(number@))
                &&& divisor@ == power_of_ten(fraction_digits(number@))
                &&& divisor@ > 0
            },
            None => !is_literal(number@),
        },
{
    let dot: usize = run_end(number, 0, CharSet::Except('.'));
    let count: usize = number.len();
    let mut digits: Vec<char> = part(number, 0, dot);
    proof {
        assert(number@.skip(0) == number@);
        assert(number@.subrange(0, dot as int) == number@.take(dot as int));
        assert(number@.take(count as int) == number@);
    }
    let mut fraction: usize = 0;
    if dot < count {
        fraction = count - dot - 1;
        let mut rest: Vec<char> = part(number, dot + 1, count);
        assert(rest@ == number@.skip(dot + 1));
        digits.append(&mut rest);
    }
    assert(digits@ == literal_digits(number@));
    if digits.len() == 0 {
        return None;
    }
    let mut value: Natural = Natural::from_u64(0);
    for i in 0..digits.len()
        invariant
            digits@ == literal_digits(number@),
            forall|j: int| 0 <= j < i ==> is_digit(#[trigger] digits@[j]),
            value@ == digits_value(digits@.take(i as int)),
    {
        if !digit(digits[i]) {
            assert(!is_digit(digits@[i as int]));
            return None;
        }
        proof {
            let longer = digits@.take(i + 1);
            assert(longer.drop_last() == digits@.take(i as int));
        }
        value.multiply_add(10, value_of_digit(digits[i]) as u32);
    }
    assert(digits@.take(digits@.len() as int) == digits@);
    let mut divisor: Natural = Natural::from_u64(1);
    for i in 0..fraction
        invariant
            divisor@ == power_of_ten(i as nat),
            divisor@ > 0,
    {
        divisor.multiply_add(10, 0);
    }
    Some((value, divisor))
}

/// What a text denotes as a decimal literal.
#[derive(Debug)]
pub enum Literal {
    /// It is no decimal literal.
    Invalid,
    /// The nearest number is not finite.
    Infinite,
    /// The nearest number, in units.
    Units(Natural),
}

/// Reads a decimal literal.
pub fn parse_literal(number: &Vec<char>) -> (res: Literal)
    ensures
        match res {
            Literal::Invalid => !is_literal(number@),
            Literal::Infinite => is_literal(number@) && !is_finite(literal_units(number@)),
            Literal::Units(units) => is_literal(number@) && is_finite(literal_units(number@))
                && units@ == literal_units(number@),
        },
{
    match read_literal(number) {
        None => Literal::Invalid,
        Some((digits, divisor)) => {
            let mut digits = digits;
            digits.shift(UNIT_BITS);
            match round(&digits, &divisor) {
                Some(units) => Literal::Units(units),
                None => Literal::Infinite,
            }
        },
    }
}

/// The distance of two numbers.
pub open spec fn distance(a: int, b: int) -> int {
    if a < b {
        b - a
    } else {
        a - b
    }
}

/// A quotient is rounded to a whole number to which none is nearer, and to an even one if another
/// one is equally near.
pub proof fn whole_numbers_are_nearest(x: nat, d: nat, other: nat)
    requires
        d > 0,
    ensures
        distance(half_even(x, d) * d as int, x as int) <= distance(other * d as int, x as int),
        other != half_even(x, d) && distance(half_even(x, d) * d as int, x as int) == distance(
            other * d as int,
            x as int,
        ) ==> half_even(x, d) % 2 == 0,
{
    lemma_fundamental_div_mod(x as int, d as int);
    lemma_mod_bound(x as int, d as int);
    let q = x as int / d as int;
    let r = x as int % d as int;
    let h = half_even(x, d) as int;
    let j = other as int;
    assert((q + 1) * d == q * d + d) by (nonlinear_arith);
    assert(q * d == d * q) by (nonlinear_arith);
    if j <= q {
        assert(j * d <= q * d) by (nonlinear_arith)
            requires
                j <= q,
                d > 0,
        ;
        if j < q {
            assert(j * d <= q * d - d) by (nonlinear_arith)
                requires
                    j <= q - 1,
                    d > 0,
            ;
        }
    } else {
        assert(j * d >= q * d + d) by (nonlinear_arith)
            requires
                j >= q + 1,
                d > 0,
        ;
        if j > q + 1 {
            assert(j * d >= q * d + 2 * d) by (nonlinear_arith)
                requires
                    j >= q + 2,
                    d > 0,
            ;
        }
    }
}

/// Whether a number has at most 53 significant bits: those of `n`, followed by `k` zeros.
pub open spec fn is_short(value: nat, n: nat, k: nat) -> bool {
    n <= pow2(53) && value == n * pow2(k)
}

/// Rounding gives a number with at most 53 significant bits to which no other such number is
/// nearer.
pub proof fn rounding_is_to_the_nearest(x: nat, d: nat, m: nat, e: nat)
    requires
        d > 0,
        m <= pow2(53),
    ensures
        distance((nearest(x, d) * d) as int, x as int) <= distance(
            ((m * pow2(e)) * d) as int,
            x as int,
        ),
        exists|n: nat, k: nat| #[trigger] is_short(nearest(x, d), n, k),
{
    let k = dropped_bits(x, d);
    let step = pow2(k);
    let wide = d * step;
    let h = half_even(x, wide);
    lemma_powers();
    lemma_pow2_pos(k);
    lemma_pow2_pos(e);
    lemma_dropped(x, d);
    assert(wide > 0) by (nonlinear_arith)
        requires
            d > 0,
            step > 0,
            wide == d * step,
    ;
    lemma_half_even_bounds(x, wide, pow2(53));
    assert(h <= pow2(53));
    assert(nearest(x, d) == h * step);
    assert(is_short(nearest(x, d), h, k));
    assert((h * step) * d == h * wide) by (nonlinear_arith)
        requires
            wide == d * step,
    ;
    if e >= k {
        let more = (e - k) as nat;
        lemma_pow2_adds(more, k);
        let other = m * pow2(more);
        whole_numbers_are_nearest(x, wide, other);
        assert((m * pow2(e)) * d == other * wide) by (nonlinear_arith)
            requires
                pow2(e) == pow2(more) * step,
                other == m * pow2(more),
                wide == d * step,
        ;
    } else {
        let y = m * pow2(e);
        let more = (k - e - 1) as nat;
        lemma_pow2_adds(more, e + 1);
        lemma_pow2_unfold(e + 1);
        lemma_pow2_pos(more);
        assert(y <= pow2(52) * step) by (nonlinear_arith)
            requires
                y == m * pow2(e),
                m <= 2 * pow2(52),
                step == pow2(more) * (2 * pow2(e)),
                pow2(more) >= 1,
                pow2(e) >= 1,
        ;
        assert(y * d <= pow2(52) * wide) by (nonlinear_arith)
            requires
                y <= pow2(52) * step,
                wide == d * step,
        ;
        whole_numbers_are_nearest(x, wide, pow2(52));
    }
}

/// Rounding a fraction does not depend on how it is written.
pub proof fn fractions_are_rounded_by_value(x: nat, d: nat, c: nat)
    requires
        d > 0,
        c > 0,
    ensures
        nearest(x * c, d * c) == nearest(x, d),
{
    lemma_dropped_scaled(x, d, c);
    let step = pow2(dropped_bits(x, d));
    lemma_pow2_pos(dropped_bits(x, d));
    let wide = d * step;
    assert(wide > 0) by (nonlinear_arith)
        requires
            d > 0,
            step > 0,
            wide == d * step,
    ;
    assert((d * c) * step == wide * c) by (nonlinear_arith)
        requires
            wide == d * step,
    ;
    lemma_half_even_scaled(x, wide, c);
}

proof fn lemma_half_even_scaled(x: nat, d: nat, c: nat)
    requires
        d > 0,
        c > 0,
    ensures
        half_even(x * c, d * c) == half_even(x, d),
{
    lemma_fundamental_div_mod(x as int, d as int);
    lemma_mod_bound(x as int, d as int);
    let q = x as int / d as int;
    let r = x as int % d as int;
    assert(x * c == q * (d * c) + r * c && 0 <= r * c < d * c && d * c > 0) by (nonlinear_arith)
        requires
            x == d * q + r,
            0 <= r < d,
            c > 0,
    ;
    lemma_fundamental_div_mod_converse((x * c) as int, (d * c) as int, q, r * c);
    assert((2 * (r * c) < d * c) == (2 * r < d) && (2 * (r * c) == d * c) == (2 * r == d))
        by (nonlinear_arith)
        requires
            c > 0,
    ;
}

proof fn lemma_dropped_scaled(x: nat, d: nat, c: nat)
    requires
        d > 0,
        c > 0,
    ensures
        dropped_bits(x * c, d * c) == dropped_bits(x, d),
    decreases x - d,
{
    lemma_powers();
    assert(d * c > 0) by (nonlinear_arith)
        requires
            d > 0,
            c > 0,
    ;
    assert((x * c < pow2(53) * (d * c)) == (x < pow2(53) * d)) by (nonlinear_arith)
        requires
            c > 0,
    ;
    if x >= pow2(53) * d {
        assert(pow2(53) * d >= 2 * d) by (nonlinear_arith)
            requires
                pow2(53) >= 2,
        ;
        lemma_dropped_scaled(x, 2 * d, c);
        assert((2 * d) * c == 2 * (d * c)) by (nonlinear_arith);
        lemma_dropped_step(x, d);
        lemma_dropped_step(x * c, d * c);
    }
}

} // verus!
