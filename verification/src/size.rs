//! Sizes and durations as users write them, and sizes as they are shown.
//!
//! The number in front of the suffix is read as a 64-bit binary floating-point number, and the
//! suffix is applied in the same arithmetic.

use crate::bignum::Natural;
use crate::binary64::{
    divide_down, divide_half_even, dropped_bits, fraction_digits, fractions_are_rounded_by_value,
    half_even, is_finite, is_literal, lemma_gap, lemma_half_even_bounds, lemma_half_even_multiple,
    lemma_nearest_exact, lemma_powers, literal_digits, literal_units, nearest, parse_literal, round,
    rounding_is_to_the_nearest, Literal, FINITE_BITS, UNIT_BITS,
};
use crate::numbers::{
    all_digits, decimal, decimal_chars, digit_char, digits_value, lemma_decimal,
    lemma_power_of_ten_positive, power_of_ten,
};
use crate::text::{
    chars_are, chars_of, is_digit, is_white_space, leading, lemma_leading_is, lemma_strip_fixed,
    lower, lowercase, lowercased, part, run_end, string_of, trim, trimmed,
    trimming_takes_white_space_off, CharSet,
};
use vstd::arithmetic::power2::{
    lemma2_to64, lemma2_to64_rest, lemma_pow2_adds, lemma_pow2_pos, lemma_pow2_strictly_increases,
    lemma_pow2_unfold, pow2,
};
use vstd::prelude::*;

verus! {

/// Why a size or a duration is refused.
#[derive(Debug, PartialEq, Eq)]
pub enum QuantityError {
    /// There is nothing but white space.
    Empty,
    /// It does not begin with a decimal number.
    InvalidNumber,
    /// The number is too large to be finite.
    NotFinite,
    /// The suffix, in lower case, is not known.
    UnknownSuffix(String),
    /// The result is too large.
    TooLarge,
}

/// The same as `QuantityError`, with the suffix as a sequence of characters.
pub enum QuantityFault {
    Empty,
    InvalidNumber,
    NotFinite,
    UnknownSuffix(Seq<char>),
    TooLarge,
}

impl View for QuantityError {
    type V = QuantityFault;

    open spec fn view(&self) -> QuantityFault {
        match *self {
            QuantityError::Empty => QuantityFault::Empty,
            QuantityError::InvalidNumber => QuantityFault::InvalidNumber,
            QuantityError::NotFinite => QuantityFault::NotFinite,
            QuantityError::UnknownSuffix(suffix) => QuantityFault::UnknownSuffix(suffix@),
            QuantityError::TooLarge => QuantityFault::TooLarge,
        }
    }
}

/// A length of time.
#[derive(Clone, Copy, Debug, PartialEq, Eq)]
pub struct TimeSpan {
    pub secs: u64,
    pub nanos: u32,
}

/// The number at the beginning of a quantity: its leading digits and decimal points.
pub open spec fn quantity_number(input: Seq<char>) -> Seq<char> {
    let value = trim(input);
    value.take(leading(value, CharSet::Numeric) as int)
}

/// The suffix of a quantity: what follows its number, in lower case.
pub open spec fn quantity_suffix(input: Seq<char>) -> Seq<char> {
    let value = trim(input);
    lowercase(trim(value.skip(leading(value, CharSet::Numeric) as int)))
}

/// The number of a quantity, in units of the floating-point format.
pub open spec fn quantity_units(input: Seq<char>) -> Result<nat, QuantityFault> {
    if trim(input).len() == 0 {
        Err(QuantityFault::Empty)
    } else if !is_literal(quantity_number(input)) {
        Err(QuantityFault::InvalidNumber)
    } else if !is_finite(literal_units(quantity_number(input))) {
        Err(QuantityFault::NotFinite)
    } else {
        Ok(literal_units(quantity_number(input)))
    }
}

/// The number of bytes that a size suffix stands for.
pub open spec fn multiplier(suffix: Seq<char>) -> Option<nat> {
    if suffix == ""@ || suffix == "b"@ {
        Some(1)
    } else if suffix == "k"@ || suffix == "kb"@ {
        Some(1_000)
    } else if suffix == "ki"@ || suffix == "kib"@ {
        Some(1_024)
    } else if suffix == "m"@ || suffix == "mb"@ {
        Some(1_000_000)
    } else if suffix == "mi"@ || suffix == "mib"@ {
        Some(1_048_576)
    } else if suffix == "g"@ || suffix == "gb"@ {
        Some(1_000_000_000)
    } else if suffix == "gi"@ || suffix == "gib"@ {
        Some(1_073_741_824)
    } else if suffix == "t"@ || suffix == "tb"@ {
        Some(1_000_000_000_000)
    } else if suffix == "ti"@ || suffix == "tib"@ {
        Some(1_099_511_627_776)
    } else {
        None
    }
}

/// The bound of sizes and of seconds, two to the power of 64, in units.
pub open spec fn bound_units() -> nat {
    pow2((64 + UNIT_BITS) as nat)
}

/// A number of units rounded to a whole number, halves up, and to the largest 64-bit number if
/// it is above that.
pub open spec fn whole_bytes(units: nat) -> u64 {
    let bytes = (2 * units + pow2(UNIT_BITS as nat)) / pow2((1 + UNIT_BITS) as nat);
    if bytes > u64::MAX {
        u64::MAX
    } else {
        bytes as u64
    }
}

/// The number of bytes that a size stands for.
pub open spec fn byte_size(input: Seq<char>) -> Result<u64, QuantityFault> {
    match quantity_units(input) {
        Err(fault) => Err(fault),
        Ok(units) => match multiplier(quantity_suffix(input)) {
            None => Err(QuantityFault::UnknownSuffix(quantity_suffix(input))),
            Some(factor) => {
                let bytes = nearest(units * factor, 1);
                if bytes > bound_units() {
                    Err(QuantityFault::TooLarge)
                } else {
                    Ok(whole_bytes(bytes))
                }
            },
        },
    }
}

/// The seconds, in units of the floating-point format, that a number with a duration suffix
/// stands for.
pub open spec fn scaled_seconds(units: nat, suffix: Seq<char>) -> Option<nat> {
    if suffix == ""@ || suffix == "s"@ {
        Some(units)
    } else if suffix == "ms"@ {
        Some(nearest(units, 1_000))
    } else if suffix == "m"@ || suffix == "min"@ {
        Some(nearest(units * 60, 1))
    } else if suffix == "h"@ {
        Some(nearest(units * 3_600, 1))
    } else {
        None
    }
}

/// The seconds that a duration stands for, in units of the floating-point format.
pub open spec fn duration_units(input: Seq<char>) -> Result<nat, QuantityFault> {
    match quantity_units(input) {
        Err(fault) => Err(fault),
        Ok(units) => match scaled_seconds(units, quantity_suffix(input)) {
            None => Err(QuantityFault::UnknownSuffix(quantity_suffix(input))),
            Some(seconds) => if seconds >= bound_units() {
                Err(QuantityFault::TooLarge)
            } else {
                Ok(seconds)
            },
        },
    }
}

/// The nanoseconds nearest to a number of seconds in units, to the even one of two equally near.
pub open spec fn nanoseconds(units: nat) -> nat {
    half_even(units * 1_000_000_000, pow2(UNIT_BITS as nat))
}

/// The length of time that a text stands for.
pub open spec fn duration(input: Seq<char>) -> Result<TimeSpan, QuantityFault> {
    match duration_units(input) {
        Err(fault) => Err(fault),
        Ok(units) => Ok(
            TimeSpan {
                secs: (nanoseconds(units) / 1_000_000_000) as u64,
                nanos: (nanoseconds(units) % 1_000_000_000) as u32,
            },
        ),
    }
}

/// The number at the beginning of a quantity, and its suffix.
fn split_quantity(input: &str) -> (res: Result<(Natural, Vec<char>), QuantityError>)
    ensures
        match res {
            Ok((units, suffix)) => {
                &&& quantity_units(input@) == Ok::<nat, QuantityFault>(units@)
                &&& suffix@ == quantity_suffix(input@)
            },
            Err(error) => quantity_units(input@) == Err::<nat, QuantityFault>(error@),
        },
{
    let value: Vec<char> = trimmed(&chars_of(input));
    if value.len() == 0 {
        return Err(QuantityError::Empty);
    }
    let end: usize = run_end(&value, 0, CharSet::Numeric);
    assert(value@.skip(0) == value@);
    let number: Vec<char> = part(&value, 0, end);
    assert(number@ == quantity_number(input@));
    let rest: Vec<char> = part(&value, end, value.len());
    assert(rest@ == value@.skip(end as int));
    match parse_literal(&number) {
        Literal::Invalid => Err(QuantityError::InvalidNumber),
        Literal::Infinite => Err(QuantityError::NotFinite),
        Literal::Units(units) => Ok((units, lowercased(&trimmed(&rest)))),
    }
}

/// Two factors whose product is the number of bytes that a size suffix stands for.
fn multiplier_factors(suffix: &Vec<char>) -> (res: Option<(u32, u32)>)
    ensures
        match res {
            Some((a, b)) => multiplier(suffix@) == Some((a * b) as nat),
            None => multiplier(suffix@) is None,
        },
{
    if chars_are(suffix, "") || chars_are(suffix, "b") {
        Some((1, 1))
    } else if chars_are(suffix, "k") || chars_are(suffix, "kb") {
        Some((1_000, 1))
    } else if chars_are(suffix, "ki") || chars_are(suffix, "kib") {
        Some((1_024, 1))
    } else if chars_are(suffix, "m") || chars_are(suffix, "mb") {
        Some((1_000_000, 1))
    } else if chars_are(suffix, "mi") || chars_are(suffix, "mib") {
        Some((1_048_576, 1))
    } else if chars_are(suffix, "g") || chars_are(suffix, "gb") {
        Some((1_000_000_000, 1))
    } else if chars_are(suffix, "gi") || chars_are(suffix, "gib") {
        Some((1_073_741_824, 1))
    } else if chars_are(suffix, "t") || chars_are(suffix, "tb") {
        Some((1_000_000, 1_000_000))
    } else if chars_are(suffix, "ti") || chars_are(suffix, "tib") {
        Some((1_048_576, 1_048_576))
    } else {
        None
    }
}

/// Two to the power of `n`.
fn power_of_two(n: u32) -> (res: Natural)
    ensures
        res@ == pow2(n as nat),
        res@ > 0,
{
    let mut res: Natural = Natural::from_u64(1);
    res.shift(n);
    proof {
        lemma_pow2_pos(n as nat);
    }
    res
}

/// Reads a number of bytes: a decimal number, with or without a suffix for a decimal or binary
/// multiple.
pub fn parse_byte_size(input: &str) -> (res: Result<u64, QuantityError>)
    ensures
        match res {
            Ok(bytes) => byte_size(input@) == Ok::<u64, QuantityFault>(bytes),
            Err(error) => byte_size(input@) == Err::<u64, QuantityFault>(error@),
        },
{
    let (mut units, suffix): (Natural, Vec<char>) = match split_quantity(input) {
        Ok(parts) => parts,
        Err(error) => {
            return Err(error);
        },
    };
    let (a, b): (u32, u32) = match multiplier_factors(&suffix) {
        Some(factors) => factors,
        None => {
            return Err(QuantityError::UnknownSuffix(string_of(&suffix)));
        },
    };
    let ghost number = units@;
    units.multiply_add(a, 0);
    units.multiply_add(b, 0);
    assert(units@ == number * ((a * b) as nat)) by (nonlinear_arith)
        requires
            units@ == number * a * b,
            a * b >= 0,
    ;
    let bytes: Natural = match round(&units, &Natural::from_u64(1)) {
        Some(bytes) => bytes,
        None => {
            proof {
                lemma_pow2_strictly_increases((64 + UNIT_BITS) as nat, FINITE_BITS as nat);
            }
            return Err(QuantityError::TooLarge);
        },
    };
    if power_of_two(64 + UNIT_BITS).less(&bytes) {
        return Err(QuantityError::TooLarge);
    }
    let mut doubled: Natural = bytes;
    let ghost exact = bytes@;
    doubled.double();
    let doubled: Natural = sum(doubled, power_of_two(UNIT_BITS));
    let unit: Natural = power_of_two(1 + UNIT_BITS);
    proof {
        lemma_powers();
        lemma_pow2_adds(64, UNIT_BITS as nat);
        lemma_pow2_adds(1, UNIT_BITS as nat);
        lemma_pow2_adds(65, (1 + UNIT_BITS) as nat);
        lemma_pow2_adds(1, 64);
        assert(doubled@ < unit@ * pow2(65)) by (nonlinear_arith)
            requires
                doubled@ <= 2 * (pow2(64) * pow2(UNIT_BITS as nat)) + pow2(UNIT_BITS as nat),
                unit@ == 2 * pow2(UNIT_BITS as nat),
                pow2(65) == 2 * pow2(64),
                pow2(64) >= 1,
                pow2(UNIT_BITS as nat) > 0,
        ;
    }
    let whole: u128 = divide_down(&doubled, &unit, 65);
    if whole > u64::MAX as u128 {
        Ok(u64::MAX)
    } else {
        Ok(whole as u64)
    }
}

/// Reads the seconds that a duration stands for, in units of the floating-point format.
fn read_seconds(input: &str) -> (res: Result<Natural, QuantityError>)
    ensures
        match res {
            Ok(seconds) => duration_units(input@) == Ok::<nat, QuantityFault>(seconds@) && seconds@
                + pow2(UNIT_BITS as nat) <= bound_units(),
            Err(error) => duration_units(input@) == Err::<nat, QuantityFault>(error@),
        },
{
    let (mut units, suffix): (Natural, Vec<char>) = match split_quantity(input) {
        Ok(parts) => parts,
        Err(error) => {
            return Err(error);
        },
    };
    proof {
        lemma_pow2_strictly_increases((64 + UNIT_BITS) as nat, FINITE_BITS as nat);
        lemma_power_of_ten_positive(fraction_digits(quantity_number(input@)));
        lemma_gap(
            digits_value(literal_digits(quantity_number(input@))) * pow2(UNIT_BITS as nat),
            power_of_ten(fraction_digits(quantity_number(input@))),
        );
        lemma_gap(units@, 1_000);
        lemma_gap(units@ * 60, 1);
        lemma_gap(units@ * 3_600, 1);
    }
    let seconds: Natural = if chars_are(&suffix, "") || chars_are(&suffix, "s") {
        units
    } else {
        let rounded: Option<Natural> = if chars_are(&suffix, "ms") {
            round(&units, &Natural::from_u64(1_000))
        } else if chars_are(&suffix, "m") || chars_are(&suffix, "min") {
            units.multiply_add(60, 0);
            round(&units, &Natural::from_u64(1))
        } else if chars_are(&suffix, "h") {
            units.multiply_add(3_600, 0);
            round(&units, &Natural::from_u64(1))
        } else {
            return Err(QuantityError::UnknownSuffix(string_of(&suffix)));
        };
        match rounded {
            Some(seconds) => seconds,
            None => {
                return Err(QuantityError::TooLarge);
            },
        }
    };
    if !seconds.less(&power_of_two(64 + UNIT_BITS)) {
        return Err(QuantityError::TooLarge);
    }
    Ok(seconds)
}

/// Reads a length of time: a decimal number of seconds, or of what its suffix says.
pub fn parse_duration(input: &str) -> (res: Result<TimeSpan, QuantityError>)
    ensures
        match res {
            Ok(span) => duration(input@) == Ok::<TimeSpan, QuantityFault>(span),
            Err(error) => duration(input@) == Err::<TimeSpan, QuantityFault>(error@),
        },
{
    let mut seconds: Natural = match read_seconds(input) {
        Ok(seconds) => seconds,
        Err(error) => {
            return Err(error);
        },
    };
    let ghost units = seconds@;
    seconds.multiply_add(1_000_000_000, 0);
    let unit: Natural = power_of_two(UNIT_BITS);
    proof {
        lemma_powers();
        lemma_pow2_adds(64, UNIT_BITS as nat);
        lemma_pow2_adds(64, 30);
        lemma2_to64();
        let u = pow2(UNIT_BITS as nat);
        assert(seconds@ < unit@ * pow2(94)) by (nonlinear_arith)
            requires
                units < pow2(64) * u,
                seconds@ == units * 1_000_000_000,
                unit@ == u,
                pow2(94) == pow2(64) * pow2(30),
                pow2(30) == 0x4000_0000,
                u > 0,
        ;
        assert(seconds@ <= (u64::MAX * 1_000_000_000) * unit@) by (nonlinear_arith)
            requires
                units + u <= pow2(64) * u,
                pow2(64) == u64::MAX + 1,
                seconds@ == units * 1_000_000_000,
                unit@ == u,
        ;
        lemma_half_even_bounds(seconds@, unit@, (u64::MAX * 1_000_000_000) as nat);
        lemma_half_even_multiple(unit@, (u64::MAX * 1_000_000_000) as nat);
    }
    let nanos: u128 = divide_half_even(&seconds, &unit, 94);
    Ok(
        TimeSpan {
            secs: (nanos / 1_000_000_000) as u64,
            nanos: (nanos % 1_000_000_000) as u32,
        },
    )
}

/// How often a number of bytes can be divided by 1024 before it falls below that, at most four
/// times.
pub open spec fn unit_index(value: nat) -> nat {
    if value < 0x400 {
        0
    } else if value < 0x10_0000 {
        1
    } else if value < 0x4000_0000 {
        2
    } else if value < 0x100_0000_0000 {
        3
    } else {
        4
    }
}

/// The name of a binary multiple of a byte.
pub open spec fn unit_name(index: nat) -> Seq<char> {
    if index == 0 {
        "B"@
    } else if index == 1 {
        "KiB"@
    } else if index == 2 {
        "MiB"@
    } else if index == 3 {
        "GiB"@
    } else {
        "TiB"@
    }
}

/// A number of hundredths as a decimal number with two digits behind the point.
pub open spec fn two_places(hundredths: nat) -> Seq<char> {
    decimal(hundredths / 100) + seq![
        '.',
        digit_char(hundredths % 100 / 10),
        digit_char(hundredths % 10),
    ]
}

/// A number of bytes as it is shown: below 1024 as it is, from there on as a multiple of a binary
/// unit, rounded to two places behind the point.
pub open spec fn shown_size(bytes: u64) -> Seq<char> {
    let value = nearest(bytes as nat, 1);
    let index = unit_index(value);
    if index == 0 {
        decimal(bytes as nat) + seq![' '] + unit_name(0)
    } else {
        two_places(half_even(value * 100, pow2(10 * index))) + seq![' '] + unit_name(index)
    }
}

/// A number of bytes rounded to 53 significant bits.
fn nearest_bytes(bytes: u64) -> (res: u128)
    ensures
        res == nearest(bytes as nat, 1),
        res <= 0x2_0000_0000_0000_0000,
{
    let x: u128 = bytes as u128;
    let mut d: u128 = 1;
    let ghost mut dropped: nat = 0;
    proof {
        lemma_powers();
    }
    while x >= d * 0x20_0000_0000_0000
        invariant
            x == bytes,
            1 <= d <= 0xffe,
            d == pow2(dropped),
            pow2(53) == 0x20_0000_0000_0000,
            dropped_bits(x as nat, 1) == dropped + dropped_bits(x as nat, d as nat),
        decreases 0x1000 - d,
    {
        proof {
            lemma_pow2_unfold(dropped + 1);
            dropped = dropped + 1;
        }
        d = d * 2;
    }
    let q: u128 = x / d;
    let r: u128 = x % d;
    proof {
        assert(1 * pow2(dropped) == pow2(dropped));
        assert(dropped_bits(x as nat, 1) == dropped);
        lemma_half_even_bounds(x as nat, d as nat, pow2(53));
    }
    let m: u128 = if 2 * r < d || (2 * r == d && q % 2 == 0) {
        q
    } else {
        q + 1
    };
    assert(m == half_even(x as nat, d as nat));
    assert(m * d <= 0x2_0000_0000_0000_0000) by (nonlinear_arith)
        requires
            m <= 0x20_0000_0000_0000,
            d <= 0xffe,
    ;
    m * d
}

/// Shows a number of bytes.
pub fn format_bytes(bytes: u64) -> (res: String)
    ensures
        res@ == shown_size(bytes),
{
    let value: u128 = nearest_bytes(bytes);
    if value < 0x400 {
        let mut res = string_of(&decimal_chars(bytes));
        res.append(" B");
        proof {
            reveal_strlit(" B");
            reveal_strlit("B");
            assert(" B"@ == seq![' '] + "B"@);
            assert(res@ == shown_size(bytes));
        }
        return res;
    }
    let (divisor, name): (u128, &str) = if value < 0x10_0000 {
        (0x400, "KiB")
    } else if value < 0x4000_0000 {
        (0x10_0000, "MiB")
    } else if value < 0x100_0000_0000 {
        (0x4000_0000, "GiB")
    } else {
        (0x100_0000_0000, "TiB")
    };
    proof {
        lemma2_to64();
        lemma2_to64_rest();
        assert(divisor == pow2(10 * unit_index(value as nat)));
        assert(name@ == unit_name(unit_index(value as nat)));
    }
    let scaled: u128 = value * 100;
    let q: u128 = scaled / divisor;
    let r: u128 = scaled % divisor;
    let hundredths: u128 = if 2 * r < divisor || (2 * r == divisor && q % 2 == 0) {
        q
    } else {
        q + 1
    };
    assert(hundredths == half_even(scaled as nat, divisor as nat));
    proof {
        vstd::arithmetic::div_mod::lemma_div_is_ordered_by_denominator(
            scaled as int,
            0x400,
            divisor as int,
        );
    }
    let mut digits: Vec<char> = decimal_chars((hundredths / 100) as u64);
    digits.push('.');
    digits.push((48u8 + (hundredths % 100 / 10) as u8) as char);
    digits.push((48u8 + (hundredths % 10) as u8) as char);
    digits.push(' ');
    assert(digits@ == two_places(hundredths as nat) + seq![' ']);
    let mut res = string_of(&digits);
    res.append(name);
    res
}

/// Whether a text consists of ASCII letters.
pub open spec fn letters(s: Seq<char>) -> bool {
    forall|i: int| 0 <= i < s.len() ==> ('a' <= #[trigger] s[i] <= 'z' || 'A' <= s[i] <= 'Z')
}

/// A text whose lower-case form consists of at most three lower-case letters consists of letters.
proof fn lemma_letters(s: Seq<char>)
    requires
        s.len() <= 3,
        s.len() > 0 ==> 'a' <= lowercase(s)[0] <= 'z',
        s.len() > 1 ==> 'a' <= lowercase(s)[1] <= 'z',
        s.len() > 2 ==> 'a' <= lowercase(s)[2] <= 'z',
    ensures
        letters(s),
{
    assert forall|i: int| 0 <= i < s.len() implies ('a' <= #[trigger] s[i] <= 'z' || 'A' <= s[i]
        <= 'Z') by {
        assert(lowercase(s)[i] == lower(s[i]));
        assert(i == 0 || i == 1 || i == 2);
    }
}

/// A size suffix consists of letters.
proof fn lemma_size_suffix(suffix: Seq<char>)
    requires
        multiplier(lowercase(suffix)) is Some,
    ensures
        letters(suffix),
        multiplier(lowercase(suffix))->Some_0 >= 1,
{
    reveal_strlit("");
    reveal_strlit("b");
    reveal_strlit("k");
    reveal_strlit("kb");
    reveal_strlit("ki");
    reveal_strlit("kib");
    reveal_strlit("m");
    reveal_strlit("mb");
    reveal_strlit("mi");
    reveal_strlit("mib");
    reveal_strlit("g");
    reveal_strlit("gb");
    reveal_strlit("gi");
    reveal_strlit("gib");
    reveal_strlit("t");
    reveal_strlit("tb");
    reveal_strlit("ti");
    reveal_strlit("tib");
    assert(lowercase(suffix).len() == suffix.len());
    lemma_letters(suffix);
}

/// A whole number in front of a suffix of letters is read exactly, as long as it needs no more
/// than 53 bits.
proof fn lemma_whole_quantity(n: nat, suffix: Seq<char>)
    requires
        letters(suffix),
        n <= pow2(53),
    ensures
        quantity_units(decimal(n) + suffix) == Ok::<nat, QuantityFault>(
            n * pow2(UNIT_BITS as nat),
        ),
        quantity_suffix(decimal(n) + suffix) == lowercase(suffix),
{
    let input = decimal(n) + suffix;
    lemma_decimal(n);
    assert(is_digit(decimal(n)[0]));
    assert(input[0] == decimal(n)[0]);
    if suffix.len() > 0 {
        assert(input.last() == suffix.last());
        assert('a' <= suffix[suffix.len() - 1] <= 'z' || 'A' <= suffix[suffix.len() - 1] <= 'Z');
        assert(input[decimal(n).len() as int] == suffix[0]);
        assert('a' <= suffix[0] <= 'z' || 'A' <= suffix[0] <= 'Z');
    } else {
        assert(input.last() == decimal(n).last());
        assert(is_digit(decimal(n)[decimal(n).len() - 1]));
    }
    lemma_strip_fixed(input, CharSet::WhiteSpace);
    assert forall|i: int| 0 <= i < decimal(n).len() implies CharSet::Numeric.has(
        #[trigger] input[i],
    ) by {
        assert(input[i] == decimal(n)[i]);
        assert(is_digit(decimal(n)[i]));
    }
    lemma_leading_is(input, CharSet::Numeric, decimal(n).len());
    assert(input.take(decimal(n).len() as int) == decimal(n));
    assert(input.skip(decimal(n).len() as int) == suffix);
    lemma_strip_fixed(suffix, CharSet::WhiteSpace);
    assert forall|i: int| 0 <= i < decimal(n).len() implies CharSet::Except('.').has(
        #[trigger] decimal(n)[i],
    ) by {
        assert(is_digit(decimal(n)[i]));
    }
    lemma_leading_is(decimal(n), CharSet::Except('.'), decimal(n).len());
    assert(literal_digits(decimal(n)) == decimal(n));
    assert(power_of_ten(0) == 1);
    lemma_nearest_exact(n, UNIT_BITS as nat);
    lemma_pow2_adds(53, UNIT_BITS as nat);
    lemma_pow2_strictly_increases((53 + UNIT_BITS) as nat, FINITE_BITS as nat);
    assert(n * pow2(UNIT_BITS as nat) <= pow2(53) * pow2(UNIT_BITS as nat)) by (nonlinear_arith)
        requires
            n <= pow2(53),
    ;
}

/// A whole number times a factor is rounded exactly, as long as the product needs no more than 53
/// bits, and is within the bound.
proof fn lemma_whole_product(n: nat, factor: nat)
    requires
        factor >= 1,
        n * factor <= pow2(53),
    ensures
        n <= pow2(53),
        nearest((n * pow2(UNIT_BITS as nat)) * factor, 1) == (n * factor) * pow2(UNIT_BITS as nat),
        (n * factor) * pow2(UNIT_BITS as nat) < bound_units(),
{
    let unit = pow2(UNIT_BITS as nat);
    let product = n * factor;
    assert(n <= product) by (nonlinear_arith)
        requires
            factor >= 1,
            product == n * factor,
    ;
    assert((n * unit) * factor == product * unit) by (nonlinear_arith)
        requires
            product == n * factor,
    ;
    lemma_nearest_exact(product, UNIT_BITS as nat);
    assert(product * unit <= pow2(53) * unit) by (nonlinear_arith)
        requires
            product <= pow2(53),
    ;
    lemma_pow2_adds(53, UNIT_BITS as nat);
    lemma_pow2_strictly_increases((53 + UNIT_BITS) as nat, (64 + UNIT_BITS) as nat);
}

/// A whole number with a known size suffix, in whatever ASCII case, is read exactly, as long as
/// the product needs no more than 53 bits.
pub proof fn whole_sizes_are_exact(n: nat, suffix: Seq<char>)
    requires
        multiplier(lowercase(suffix)) is Some,
        n * multiplier(lowercase(suffix))->Some_0 <= pow2(53),
    ensures
        byte_size(decimal(n) + suffix) == Ok::<u64, QuantityFault>(
            (n * multiplier(lowercase(suffix))->Some_0) as u64,
        ),
{
    let factor = multiplier(lowercase(suffix))->Some_0;
    let product = n * factor;
    let unit = pow2(UNIT_BITS as nat);
    lemma_size_suffix(suffix);
    lemma_whole_product(n, factor);
    lemma_whole_quantity(n, suffix);
    lemma_powers();
    lemma_pow2_pos(UNIT_BITS as nat);
    lemma_pow2_adds(1, UNIT_BITS as nat);
    assert(2 * (product * unit) + unit == product * (2 * unit) + unit) by (nonlinear_arith);
    vstd::arithmetic::div_mod::lemma_fundamental_div_mod_converse(
        (2 * (product * unit) + unit) as int,
        (2 * unit) as int,
        product as int,
        unit as int,
    );
}

/// The number of seconds that a duration suffix for whole seconds stands for.
pub open spec fn seconds_in(suffix: Seq<char>) -> Option<nat> {
    if suffix == ""@ || suffix == "s"@ {
        Some(1)
    } else if suffix == "m"@ || suffix == "min"@ {
        Some(60)
    } else if suffix == "h"@ {
        Some(3_600)
    } else {
        None
    }
}

/// A whole number of seconds, minutes or hours is read exactly, as long as the seconds need no
/// more than 53 bits.
pub proof fn whole_durations_are_exact(n: nat, suffix: Seq<char>)
    requires
        seconds_in(lowercase(suffix)) is Some,
        n * seconds_in(lowercase(suffix))->Some_0 <= pow2(53),
    ensures
        duration(decimal(n) + suffix) == Ok::<TimeSpan, QuantityFault>(
            TimeSpan { secs: (n * seconds_in(lowercase(suffix))->Some_0) as u64, nanos: 0 },
        ),
{
    reveal_strlit("");
    reveal_strlit("s");
    reveal_strlit("ms");
    reveal_strlit("m");
    reveal_strlit("min");
    reveal_strlit("h");
    assert(lowercase(suffix).len() == suffix.len());
    lemma_letters(suffix);
    let factor = seconds_in(lowercase(suffix))->Some_0;
    let product = n * factor;
    let unit = pow2(UNIT_BITS as nat);
    lemma_whole_product(n, factor);
    lemma_whole_quantity(n, suffix);
    lemma_pow2_pos(UNIT_BITS as nat);
    if factor == 1 {
        assert(n * factor == n) by (nonlinear_arith)
            requires
                factor == 1,
        ;
    }
    assert(lowercase(suffix) != "ms"@) by {
        if lowercase(suffix) == "ms"@ {
            assert("ms"@[1] == 's');
        }
    }
    assert((product * unit) * 1_000_000_000 == (product * 1_000_000_000) * unit)
        by (nonlinear_arith);
    lemma_half_even_multiple(unit, product * 1_000_000_000);
}

/// The sum of two numbers.
fn sum(a: Natural, b: Natural) -> (res: Natural)
    ensures
        res@ == a@ + b@,
{
    let mut res: Natural = a;
    res.increase(&b);
    res
}

/// A whole number with a suffix is that many bytes, thousands, or multiples of 1024 of them, in
/// whatever case of letters the suffix is written, as long as the product needs no more than 53
/// bits.
pub proof fn size_suffixes_are_powers(n: nat, suffix: Seq<char>, factor: nat)
    requires
        ({
            let s = lowercase(suffix);
            ||| (s == ""@ || s == "b"@) && factor == 1
            ||| (s == "k"@ || s == "kb"@) && factor == 1_000
            ||| (s == "ki"@ || s == "kib"@) && factor == 1_024
            ||| (s == "m"@ || s == "mb"@) && factor == 1_000 * 1_000
            ||| (s == "mi"@ || s == "mib"@) && factor == 1_024 * 1_024
            ||| (s == "g"@ || s == "gb"@) && factor == 1_000 * 1_000 * 1_000
            ||| (s == "gi"@ || s == "gib"@) && factor == 1_024 * 1_024 * 1_024
            ||| (s == "t"@ || s == "tb"@) && factor == 1_000 * 1_000 * 1_000 * 1_000
            ||| (s == "ti"@ || s == "tib"@) && factor == 1_024 * 1_024 * 1_024 * 1_024
        }),
        n * factor <= pow2(53),
    ensures
        byte_size(decimal(n) + suffix) == Ok::<u64, QuantityFault>((n * factor) as u64),
{
    lemma_suffix_texts();
    assert(multiplier(lowercase(suffix)) == Some(factor));
    whole_sizes_are_exact(n, suffix);
}

/// The letters of the suffixes.
proof fn lemma_suffix_texts()
    ensures
        ""@.len() == 0,
        "b"@.len() == 1 && "b"@[0] == 'b',
        "k"@.len() == 1 && "k"@[0] == 'k',
        "kb"@.len() == 2 && "kb"@[0] == 'k' && "kb"@[1] == 'b',
        "ki"@.len() == 2 && "ki"@[0] == 'k' && "ki"@[1] == 'i',
        "kib"@.len() == 3 && "kib"@[0] == 'k' && "kib"@[1] == 'i' && "kib"@[2] == 'b',
        "m"@.len() == 1 && "m"@[0] == 'm',
        "mb"@.len() == 2 && "mb"@[0] == 'm' && "mb"@[1] == 'b',
        "mi"@.len() == 2 && "mi"@[0] == 'm' && "mi"@[1] == 'i',
        "mib"@.len() == 3 && "mib"@[0] == 'm' && "mib"@[1] == 'i' && "mib"@[2] == 'b',
        "g"@.len() == 1 && "g"@[0] == 'g',
        "gb"@.len() == 2 && "gb"@[0] == 'g' && "gb"@[1] == 'b',
        "gi"@.len() == 2 && "gi"@[0] == 'g' && "gi"@[1] == 'i',
        "gib"@.len() == 3 && "gib"@[0] == 'g' && "gib"@[1] == 'i' && "gib"@[2] == 'b',
        "t"@.len() == 1 && "t"@[0] == 't',
        "tb"@.len() == 2 && "tb"@[0] == 't' && "tb"@[1] == 'b',
        "ti"@.len() == 2 && "ti"@[0] == 't' && "ti"@[1] == 'i',
        "tib"@.len() == 3 && "tib"@[0] == 't' && "tib"@[1] == 'i' && "tib"@[2] == 'b',
        "s"@.len() == 1 && "s"@[0] == 's',
        "ms"@.len() == 2 && "ms"@[0] == 'm' && "ms"@[1] == 's',
        "min"@.len() == 3 && "min"@[0] == 'm' && "min"@[1] == 'i' && "min"@[2] == 'n',
        "h"@.len() == 1 && "h"@[0] == 'h',
{
    reveal_strlit("");
    reveal_strlit("b");
    reveal_strlit("k");
    reveal_strlit("kb");
    reveal_strlit("ki");
    reveal_strlit("kib");
    reveal_strlit("m");
    reveal_strlit("mb");
    reveal_strlit("mi");
    reveal_strlit("mib");
    reveal_strlit("g");
    reveal_strlit("gb");
    reveal_strlit("gi");
    reveal_strlit("gib");
    reveal_strlit("t");
    reveal_strlit("tb");
    reveal_strlit("ti");
    reveal_strlit("tib");
    reveal_strlit("s");
    reveal_strlit("ms");
    reveal_strlit("min");
    reveal_strlit("h");
}

/// A whole number with a suffix is that many seconds, minutes of 60 seconds, or hours of 60
/// minutes, as long as the seconds need no more than 53 bits.
pub proof fn duration_suffixes_are_multiples(n: nat, suffix: Seq<char>, factor: nat)
    requires
        ({
            let s = lowercase(suffix);
            ||| (s == ""@ || s == "s"@) && factor == 1
            ||| (s == "m"@ || s == "min"@) && factor == 60
            ||| s == "h"@ && factor == 60 * 60
        }),
        n * factor <= pow2(53),
    ensures
        duration(decimal(n) + suffix) == Ok::<TimeSpan, QuantityFault>(
            TimeSpan { secs: (n * factor) as u64, nanos: 0 },
        ),
{
    lemma_suffix_texts();
    assert(seconds_in(lowercase(suffix)) == Some(factor));
    whole_durations_are_exact(n, suffix);
}

/// A thousand milliseconds are a second: a multiple of a thousand of them is that many seconds.
pub proof fn milliseconds_are_thousandths(n: nat, suffix: Seq<char>)
    requires
        lowercase(suffix) == "ms"@,
        n * 1_000 <= pow2(53),
    ensures
        duration(decimal(n * 1_000) + suffix) == Ok::<TimeSpan, QuantityFault>(
            TimeSpan { secs: n as u64, nanos: 0 },
        ),
{
    lemma_suffix_texts();
    assert(lowercase(suffix).len() == suffix.len());
    lemma_letters(suffix);
    let unit = pow2(UNIT_BITS as nat);
    lemma_powers();
    lemma_pow2_pos(UNIT_BITS as nat);
    lemma_whole_quantity(n * 1_000, suffix);
    assert((n * 1_000) * unit == (n * unit) * 1_000) by (nonlinear_arith);
    fractions_are_rounded_by_value(n * unit, 1, 1_000);
    lemma_nearest_exact(n, UNIT_BITS as nat);
    lemma_whole_product(n, 1);
    assert(n * 1 == n);
    assert((n * unit) * 1_000_000_000 == (n * 1_000_000_000) * unit) by (nonlinear_arith);
    lemma_half_even_multiple(unit, n * 1_000_000_000);
    assert(quantity_suffix(decimal(n * 1_000) + suffix) == "ms"@);
    assert("ms"@ != ""@ && "ms"@ != "s"@);
}

/// A number of bytes is the whole number nearest to the number that was written, with the suffix
/// applied; of two equally near the larger one.
pub proof fn sizes_are_rounded_to_whole_bytes(units: nat)
    ensures
        ({
            let unit = pow2(UNIT_BITS as nat);
            let bytes = whole_bytes(units) as int;
            bytes < u64::MAX ==> 2 * (bytes * unit) - unit <= 2 * units < 2 * (bytes * unit) + unit
        }),
{
    let unit = pow2(UNIT_BITS as nat);
    lemma_powers();
    lemma_pow2_pos(UNIT_BITS as nat);
    lemma_pow2_adds(1, UNIT_BITS as nat);
    let x = (2 * units + unit) as int;
    let d = (2 * unit) as int;
    vstd::arithmetic::div_mod::lemma_fundamental_div_mod(x, d);
    vstd::arithmetic::div_mod::lemma_mod_bound(x, d);
    let q = x / d;
    assert(d * q == 2 * (q * unit)) by (nonlinear_arith)
        requires
            d == 2 * unit,
    ;
}

/// Whole multiples of a binary unit below the next one are shown as such, and numbers below 1024 as
/// bytes.
pub proof fn whole_multiples_are_shown_as_such(k: nat, index: nat)
    requires
        0 < k < 1_024,
        index <= 4,
    ensures
        index == 0 ==> shown_size(k as u64) == decimal(k) + " B"@,
        index == 1 ==> shown_size((k * 0x400) as u64) == decimal(k) + ".00 KiB"@,
        index == 2 ==> shown_size((k * 0x10_0000) as u64) == decimal(k) + ".00 MiB"@,
        index == 3 ==> shown_size((k * 0x4000_0000) as u64) == decimal(k) + ".00 GiB"@,
        index == 4 ==> shown_size((k * 0x100_0000_0000) as u64) == decimal(k) + ".00 TiB"@,
{
    reveal_strlit(" B");
    reveal_strlit("B");
    reveal_strlit("KiB");
    reveal_strlit("MiB");
    reveal_strlit("GiB");
    reveal_strlit("TiB");
    reveal_strlit(".00 KiB");
    reveal_strlit(".00 MiB");
    reveal_strlit(".00 GiB");
    reveal_strlit(".00 TiB");
    lemma2_to64();
    lemma2_to64_rest();
    lemma_powers();
    let unit = pow2(10 * index);
    lemma_nearest_exact(k, 10 * index);
    lemma_pow2_pos(10 * index);
    assert((k * unit) * 100 == (k * 100) * unit) by (nonlinear_arith);
    lemma_half_even_multiple(unit, k * 100);
    let zeros = seq!['.', '0', '0'];
    assert(two_places(k * 100) == decimal(k) + zeros);
    if index == 0 {
        assert(shown_size(k as u64) == decimal(k) + " B"@);
    } else if index == 1 {
        assert(".00 KiB"@ == zeros + seq![' '] + "KiB"@);
        assert(shown_size((k * 0x400) as u64) == decimal(k) + ".00 KiB"@);
    } else if index == 2 {
        assert(".00 MiB"@ == zeros + seq![' '] + "MiB"@);
        assert(shown_size((k * 0x10_0000) as u64) == decimal(k) + ".00 MiB"@);
    } else if index == 3 {
        assert(".00 GiB"@ == zeros + seq![' '] + "GiB"@);
        assert(shown_size((k * 0x4000_0000) as u64) == decimal(k) + ".00 GiB"@);
    } else {
        assert(".00 TiB"@ == zeros + seq![' '] + "TiB"@);
        assert(shown_size((k * 0x100_0000_0000) as u64) == decimal(k) + ".00 TiB"@);
    }
}

/// White space alone is no quantity, and neither is a text that starts with a letter.
pub proof fn quantities_start_with_a_number(blank: Seq<char>, word: Seq<char>)
    requires
        forall|i: int| 0 <= i < blank.len() ==> is_white_space(#[trigger] blank[i]),
        word.len() > 0,
        letters(word),
    ensures
        byte_size(blank) == Err::<u64, QuantityFault>(QuantityFault::Empty),
        duration(blank) == Err::<TimeSpan, QuantityFault>(QuantityFault::Empty),
        byte_size(word) == Err::<u64, QuantityFault>(QuantityFault::InvalidNumber),
        duration(word) == Err::<TimeSpan, QuantityFault>(QuantityFault::InvalidNumber),
{
    let none = Seq::<char>::empty();
    assert(blank == blank + none + none);
    trimming_takes_white_space_off(blank, blank, none, none);
    assert('a' <= word[0] <= 'z' || 'A' <= word[0] <= 'Z');
    assert('a' <= word[word.len() - 1] <= 'z' || 'A' <= word[word.len() - 1] <= 'Z');
    lemma_strip_fixed(word, CharSet::WhiteSpace);
    lemma_leading_is(word, CharSet::Numeric, 0);
    assert(quantity_number(word) == none);
    lemma_leading_is(none, CharSet::Except('.'), 0);
    assert(literal_digits(none) == none);
}

/// White space around a quantity makes no difference.
pub proof fn white_space_around_quantities_is_ignored(
    before: Seq<char>,
    input: Seq<char>,
    after: Seq<char>,
)
    requires
        forall|i: int| 0 <= i < before.len() ==> is_white_space(#[trigger] before[i]),
        forall|i: int| 0 <= i < after.len() ==> is_white_space(#[trigger] after[i]),
        input.len() > 0 ==> !is_white_space(input[0]) && !is_white_space(input.last()),
    ensures
        byte_size(before + input + after) == byte_size(input),
        duration(before + input + after) == duration(input),
{
    trimming_takes_white_space_off(before + input + after, before, input, after);
    lemma_strip_fixed(input, CharSet::WhiteSpace);
}

/// A whole number with letters behind it that are no suffix of sizes is refused with these
/// letters, and the same holds of durations.
pub proof fn unknown_suffixes_are_refused(n: nat, suffix: Seq<char>)
    requires
        n <= pow2(53),
        letters(suffix),
    ensures
        ({
            let s = lowercase(suffix);
            s != ""@ && s != "b"@ && s != "k"@ && s != "kb"@ && s != "ki"@ && s != "kib"@ && s
                != "m"@ && s != "mb"@ && s != "mi"@ && s != "mib"@ && s != "g"@ && s != "gb"@ && s
                != "gi"@ && s != "gib"@ && s != "t"@ && s != "tb"@ && s != "ti"@ && s != "tib"@
                ==> byte_size(decimal(n) + suffix) == Err::<u64, QuantityFault>(
                QuantityFault::UnknownSuffix(s),
            )
        }),
        ({
            let s = lowercase(suffix);
            s != ""@ && s != "s"@ && s != "ms"@ && s != "m"@ && s != "min"@ && s != "h"@ ==> duration(
                decimal(n) + suffix,
            ) == Err::<TimeSpan, QuantityFault>(QuantityFault::UnknownSuffix(s))
        }),
{
    lemma_whole_quantity(n, suffix);
}

/// A whole number that is not below a power of two is not rounded below it.
proof fn lemma_rounded_above(x: nat, bits: nat)
    requires
        x >= pow2(bits),
    ensures
        nearest(x, 1) >= pow2(bits),
{
    lemma_powers();
    rounding_is_to_the_nearest(x, 1, 1, bits);
    assert((1 * pow2(bits)) * 1 == pow2(bits));
    assert(nearest(x, 1) * 1 == nearest(x, 1));
}

/// A whole number of seconds, minutes or hours that a time span cannot hold is too large.
pub proof fn long_durations_are_too_large(n: nat, suffix: Seq<char>, factor: nat)
    requires
        ({
            let s = lowercase(suffix);
            ||| (s == "m"@ || s == "min"@) && factor == 60
            ||| s == "h"@ && factor == 60 * 60
        }),
        n <= pow2(53),
        n * factor >= pow2(64),
    ensures
        duration(decimal(n) + suffix) == Err::<TimeSpan, QuantityFault>(QuantityFault::TooLarge),
{
    lemma_suffix_texts();
    assert(lowercase(suffix).len() == suffix.len());
    lemma_letters(suffix);
    lemma_whole_quantity(n, suffix);
    let unit = pow2(UNIT_BITS as nat);
    lemma_pow2_pos(UNIT_BITS as nat);
    lemma_pow2_adds(64, UNIT_BITS as nat);
    assert((n * unit) * factor >= pow2(64) * unit) by (nonlinear_arith)
        requires
            n * factor >= pow2(64),
    ;
    lemma_rounded_above((n * unit) * factor, (64 + UNIT_BITS) as nat);
}

/// A whole number with a size suffix whose product has more than 65 bits is too large.
pub proof fn large_sizes_are_too_large(n: nat, suffix: Seq<char>)
    requires
        multiplier(lowercase(suffix)) is Some,
        n <= pow2(53),
        n * multiplier(lowercase(suffix))->Some_0 >= pow2(65),
    ensures
        byte_size(decimal(n) + suffix) == Err::<u64, QuantityFault>(QuantityFault::TooLarge),
{
    let factor = multiplier(lowercase(suffix))->Some_0;
    lemma_size_suffix(suffix);
    lemma_whole_quantity(n, suffix);
    let unit = pow2(UNIT_BITS as nat);
    lemma_pow2_pos(UNIT_BITS as nat);
    lemma_pow2_adds(65, UNIT_BITS as nat);
    assert((n * unit) * factor >= pow2(65) * unit) by (nonlinear_arith)
        requires
            n * factor >= pow2(65),
    ;
    lemma_rounded_above((n * unit) * factor, (65 + UNIT_BITS) as nat);
    lemma_pow2_strictly_increases((64 + UNIT_BITS) as nat, (65 + UNIT_BITS) as nat);
}

/// Zeros at the end of a fraction do not change the number.
pub proof fn zeros_behind_a_fraction_change_nothing(whole: Seq<char>, fraction: Seq<char>)
    requires
        all_digits(whole),
        all_digits(fraction),
    ensures
        literal_units(whole + seq!['.'] + fraction + seq!['0']) == literal_units(
            whole + seq!['.'] + fraction,
        ),
{
    let number = whole + seq!['.'] + fraction;
    let longer = number + seq!['0'];
    let dot = whole.len();
    assert forall|i: int| 0 <= i < dot implies CharSet::Except('.').has(#[trigger] number[i]) by {
        assert(number[i] == whole[i]);
        assert(is_digit(whole[i]));
    }
    assert forall|i: int| 0 <= i < dot implies CharSet::Except('.').has(#[trigger] longer[i]) by {
        assert(longer[i] == whole[i]);
        assert(is_digit(whole[i]));
    }
    assert(number[dot as int] == '.' && longer[dot as int] == '.');
    lemma_leading_is(number, CharSet::Except('.'), dot);
    lemma_leading_is(longer, CharSet::Except('.'), dot);
    let digits = whole + fraction;
    assert(literal_digits(number) == digits);
    assert(literal_digits(longer) == digits.push('0'));
    assert(digits.push('0').drop_last() == digits);
    assert(digits_value(digits.push('0')) == digits_value(digits) * 10);
    assert(fraction_digits(longer) == fraction_digits(number) + 1);
    assert(power_of_ten(fraction_digits(longer)) == power_of_ten(fraction_digits(number)) * 10);
    lemma_power_of_ten_positive(fraction_digits(number));
    let unit = pow2(UNIT_BITS as nat);
    assert((digits_value(digits) * 10) * unit == (digits_value(digits) * unit) * 10)
        by (nonlinear_arith);
    fractions_are_rounded_by_value(
        digits_value(digits) * unit,
        power_of_ten(fraction_digits(number)),
        10,
    );
}

} // verus!
