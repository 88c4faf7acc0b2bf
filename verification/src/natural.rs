//! Natural order of names: runs of digits compare by the number they stand for, other characters
//! by their code, letters without regard to ASCII case.

use crate::numbers::{all_digits, digits_value, power_of_ten};
use crate::text::{
    chars_of, digit, is_digit, leading, lemma_leading, lemma_leading_is, lowercase, lowercased,
    part, run_end, CharSet,
};
use std::cmp::Ordering;
use vstd::prelude::*;

verus! {

/// A unit of comparison: the number that a whole run of digits stands for, or the code of another
/// single character.
pub enum Token {
    Number(nat),
    Letter(int),
}

/// The units of a text.
pub open spec fn tokens(s: Seq<char>) -> Seq<Token>
    decreases s.len(),
{
    proof {
        lemma_leading(s, CharSet::Digit);
    }
    if s.len() == 0 {
        Seq::empty()
    } else if is_digit(s[0]) {
        let n = leading(s, CharSet::Digit) as int;
        seq![Token::Number(digits_value(s.take(n)))] + tokens(s.skip(n))
    } else {
        seq![Token::Letter(s[0] as int)] + tokens(s.skip(1))
    }
}

/// What the natural order compares of a name.
pub open spec fn natural_key(name: Seq<char>) -> Seq<Token> {
    tokens(lowercase(name))
}

/// Whether one unit comes before another. Numbers stand where the digits stand among the other
/// characters.
pub open spec fn token_less(a: Token, b: Token) -> bool {
    match (a, b) {
        (Token::Number(m), Token::Number(n)) => m < n,
        (Token::Letter(c), Token::Letter(d)) => c < d,
        (Token::Number(_), Token::Letter(d)) => d > '9' as int,
        (Token::Letter(c), Token::Number(_)) => c <= '9' as int,
    }
}

/// Whether one sequence of units comes before another: at the first difference, or as a proper
/// beginning of it.
pub open spec fn key_less(a: Seq<Token>, b: Seq<Token>) -> bool
    decreases a.len(),
{
    if b.len() == 0 {
        false
    } else if a.len() == 0 {
        true
    } else {
        ||| token_less(a[0], b[0])
        ||| a[0] == b[0] && key_less(a.drop_first(), b.drop_first())
    }
}

/// Whether one name comes before another in natural order.
pub open spec fn natural_less(left: Seq<char>, right: Seq<char>) -> bool {
    key_less(natural_key(left), natural_key(right))
}

/// Whether the natural order makes no difference between two names.
pub open spec fn natural_same(left: Seq<char>, right: Seq<char>) -> bool {
    natural_key(left) == natural_key(right)
}

/// The outcome of a comparison.
#[derive(Clone, Copy, Debug, PartialEq, Eq)]
pub enum Rank {
    Less,
    Same,
    Greater,
}

/// No name comes before itself.
pub proof fn key_less_irreflexive(a: Seq<Token>)
    ensures
        !key_less(a, a),
    decreases a.len(),
{
    if a.len() > 0 {
        key_less_irreflexive(a.drop_first());
    }
}

/// The order of sequences of units is transitive.
pub proof fn key_less_transitive(a: Seq<Token>, b: Seq<Token>, c: Seq<Token>)
    requires
        key_less(a, b),
        key_less(b, c),
    ensures
        key_less(a, c),
    decreases a.len(),
{
    if a.len() > 0 && a[0] == b[0] && b[0] == c[0] {
        if !token_less(a[0], b[0]) && !token_less(b[0], c[0]) {
            key_less_transitive(a.drop_first(), b.drop_first(), c.drop_first());
        }
    }
}

/// Of two different sequences of units one comes before the other.
pub proof fn key_less_total(a: Seq<Token>, b: Seq<Token>)
    ensures
        key_less(a, b) || key_less(b, a) || a == b,
    decreases a.len(),
{
    if a.len() > 0 && b.len() > 0 {
        if a[0] == b[0] {
            key_less_total(a.drop_first(), b.drop_first());
            if a.drop_first() == b.drop_first() {
                assert(a == seq![a[0]] + a.drop_first());
                assert(b == seq![b[0]] + b.drop_first());
            }
        }
    } else if a.len() == 0 && b.len() == 0 {
        assert(a == b);
    }
}

/// The natural order of names is a strict weak order: no name comes before itself, the order is
/// transitive, and of two names between which it makes a difference exactly one comes first.
pub proof fn natural_order_is_an_order(a: Seq<char>, b: Seq<char>, c: Seq<char>)
    ensures
        !natural_less(a, a),
        natural_less(a, b) && natural_less(b, c) ==> natural_less(a, c),
        !(natural_less(a, b) && natural_less(b, a)),
        natural_less(a, b) || natural_less(b, a) || natural_same(a, b),
        natural_same(a, b) ==> !natural_less(a, b),
{
    let (x, y, z) = (natural_key(a), natural_key(b), natural_key(c));
    key_less_irreflexive(x);
    if key_less(x, y) && key_less(y, z) {
        key_less_transitive(x, y, z);
    }
    if key_less(x, y) && key_less(y, x) {
        key_less_transitive(x, y, x);
    }
    key_less_total(x, y);
}

/// A number of `n` digits is below the power of ten with exponent `n`, and not below the one
/// before if its first digit is not zero.
proof fn lemma_digit_count(s: Seq<char>)
    requires
        all_digits(s),
    ensures
        digits_value(s) < power_of_ten(s.len()),
        s.len() > 0 && s[0] != '0' ==> digits_value(s) >= power_of_ten((s.len() - 1) as nat),
    decreases s.len(),
{
    if s.len() > 0 {
        let t = s.drop_last();
        assert(all_digits(t)) by {
            assert forall|i: int| 0 <= i < t.len() implies is_digit(#[trigger] t[i]) by {
                assert(t[i] == s[i]);
            }
        }
        lemma_digit_count(t);
        assert(is_digit(s.last()));
        if s.len() == 1 {
            assert(t.len() == 0);
            assert(power_of_ten(0) == 1);
        } else {
            assert(t[0] == s[0]);
        }
    }
}

proof fn lemma_power_of_ten_grows(m: nat, n: nat)
    requires
        m <= n,
    ensures
        power_of_ten(m) <= power_of_ten(n),
    decreases n,
{
    if m < n {
        lemma_power_of_ten_grows(m, (n - 1) as nat);
    }
}

/// Leading zeros do not change the number that digits stand for.
proof fn lemma_leading_zeros(s: Seq<char>, n: int)
    requires
        0 <= n <= s.len(),
        forall|i: int| 0 <= i < n ==> #[trigger] s[i] == '0',
    ensures
        digits_value(s.skip(n)) == digits_value(s),
    decreases s.len(),
{
    if n == s.len() {
        if s.len() > 0 {
            lemma_leading_zeros(s.drop_last(), n - 1);
            assert(s.drop_last().skip(n - 1) == Seq::<char>::empty());
            assert(s.last() == '0');
        }
        assert(s.skip(n) == Seq::<char>::empty());
    } else {
        let t = s.drop_last();
        assert forall|i: int| 0 <= i < n implies #[trigger] t[i] == '0' by {
            assert(t[i] == s[i]);
        }
        lemma_leading_zeros(t, n);
        assert(s.skip(n).drop_last() == t.skip(n));
        assert(s.skip(n).last() == s.last());
    }
}

/// The index of the first digit that is not zero, or the end.
fn significant(digits: &Vec<char>) -> (from: usize)
    requires
        all_digits(digits@),
    ensures
        from <= digits@.len(),
        from < digits@.len() ==> digits@[from as int] != '0',
        digits_value(digits@.skip(from as int)) == digits_value(digits@),
        all_digits(digits@.skip(from as int)),
{
    let mut from: usize = 0;
    while from < digits.len() && digits[from] == '0'
        invariant
            from <= digits@.len(),
            forall|i: int| 0 <= i < from ==> #[trigger] digits@[i] == '0',
        decreases digits@.len() - from,
    {
        from += 1;
    }
    proof {
        lemma_leading_zeros(digits@, from as int);
    }
    from
}

/// Compares the numbers that two runs of digits stand for.
fn compare_numbers(left: &Vec<char>, right: &Vec<char>) -> (res: Rank)
    requires
        all_digits(left@),
        all_digits(right@),
    ensures
        res is Less <==> digits_value(left@) < digits_value(right@),
        res is Greater <==> digits_value(left@) > digits_value(right@),
{
    let left_from: usize = significant(left);
    let right_from: usize = significant(right);
    let left_len: usize = left.len() - left_from;
    let right_len: usize = right.len() - right_from;
    let ghost l = left@.skip(left_from as int);
    let ghost r = right@.skip(right_from as int);
    proof {
        lemma_digit_count(l);
        lemma_digit_count(r);
    }
    if left_len < right_len {
        proof {
            lemma_power_of_ten_grows(l.len(), (r.len() - 1) as nat);
        }
        return Rank::Less;
    }
    if left_len > right_len {
        proof {
            lemma_power_of_ten_grows(r.len(), (l.len() - 1) as nat);
        }
        return Rank::Greater;
    }
    let mut rank: Rank = Rank::Same;
    for i in 0..left_len
        invariant
            left_len == l.len(),
            left_len == r.len(),
            left_from + left_len == left@.len() <= usize::MAX,
            right_from + left_len == right@.len() <= usize::MAX,
            l == left@.skip(left_from as int),
            r == right@.skip(right_from as int),
            all_digits(l),
            all_digits(r),
            rank is Less <==> digits_value(l.take(i as int)) < digits_value(r.take(i as int)),
            rank is Greater <==> digits_value(l.take(i as int)) > digits_value(r.take(i as int)),
    {
        let a: char = left[left_from + i];
        let b: char = right[right_from + i];
        proof {
            assert(a == l[i as int] && b == r[i as int]);
            assert(l.take(i + 1).drop_last() == l.take(i as int));
            assert(r.take(i + 1).drop_last() == r.take(i as int));
            assert(l.take(i + 1).last() == a && r.take(i + 1).last() == b);
            assert(is_digit(a) && is_digit(b));
        }
        match rank {
            Rank::Same => {
                if a < b {
                    rank = Rank::Less;
                } else if a > b {
                    rank = Rank::Greater;
                }
            },
            _ => {},
        }
    }
    assert(l.take(left_len as int) == l && r.take(left_len as int) == r);
    rank
}

/// Compares two texts that are already in lower case by their units.
pub fn compare_keys(left: &Vec<char>, right: &Vec<char>) -> (res: Rank)
    ensures
        res is Less <==> key_less(tokens(left@), tokens(right@)),
        res is Greater <==> key_less(tokens(right@), tokens(left@)),
        res is Same <==> tokens(left@) == tokens(right@),
{
    let mut i: usize = 0;
    let mut j: usize = 0;
    let ghost l = tokens(left@);
    let ghost r = tokens(right@);
    let ghost mut k: int = 0;
    proof {
        assert(left@.skip(0) == left@);
        assert(right@.skip(0) == right@);
        assert(l.skip(0) == l);
        assert(r.skip(0) == r);
    }
    loop
        invariant
            i <= left@.len(),
            j <= right@.len(),
            l == tokens(left@),
            r == tokens(right@),
            0 <= k <= l.len(),
            k <= r.len(),
            l.take(k) == r.take(k),
            l.skip(k) == tokens(left@.skip(i as int)),
            r.skip(k) == tokens(right@.skip(j as int)),
            key_less(l, r) == key_less(l.skip(k), r.skip(k)),
            key_less(r, l) == key_less(r.skip(k), l.skip(k)),
        decreases left@.len() - i,
    {
        let ghost a = left@.skip(i as int);
        let ghost b = right@.skip(j as int);
        proof {
            lemma_units(l, r, k);
            if i < left@.len() {
                lemma_first_unit(a);
            }
            if j < right@.len() {
                lemma_first_unit(b);
            }
        }
        if i == left.len() {
            if j == right.len() {
                proof {
                    assert(l == l.take(k) && r == r.take(k));
                    key_less_irreflexive(l);
                }
                return Rank::Same;
            }
            proof {
                key_less_irreflexive(l);
            }
            return Rank::Less;
        }
        if j == right.len() {
            proof {
                key_less_irreflexive(l);
            }
            return Rank::Greater;
        }
        proof {
            lemma_decided(l, r);
        }
        if digit(left[i]) && digit(right[j]) {
            let left_end: usize = run_end(left, i, CharSet::Digit);
            let right_end: usize = run_end(right, j, CharSet::Digit);
            let left_digits: Vec<char> = part(left, i, left_end);
            let right_digits: Vec<char> = part(right, j, right_end);
            proof {
                lemma_leading(a, CharSet::Digit);
                lemma_leading(b, CharSet::Digit);
                assert(left_digits@ == a.take(left_end - i));
                assert(right_digits@ == b.take(right_end - j));
                assert(a.skip(left_end - i) == left@.skip(left_end as int));
                assert(b.skip(right_end - j) == right@.skip(right_end as int));
                assert forall|n: int| 0 <= n < left_digits@.len() implies is_digit(
                    #[trigger] left_digits@[n],
                ) by {
                    assert(left_digits@[n] == a[n]);
                }
                assert forall|n: int| 0 <= n < right_digits@.len() implies is_digit(
                    #[trigger] right_digits@[n],
                ) by {
                    assert(right_digits@[n] == b[n]);
                }
            }
            match compare_numbers(&left_digits, &right_digits) {
                Rank::Same => {},
                rank => {
                    return rank;
                },
            }
            i = left_end;
            j = right_end;
        } else {
            let c: char = left[i];
            let d: char = right[j];
            proof {
                assert(a.skip(1) == left@.skip(i + 1));
                assert(b.skip(1) == right@.skip(j + 1));
            }
            if c < d {
                return Rank::Less;
            }
            if c > d {
                return Rank::Greater;
            }
            i += 1;
            j += 1;
        }
        proof {
            assert(l.take(k + 1) == l.take(k).push(l[k]));
            assert(r.take(k + 1) == r.take(k).push(r[k]));
            k = k + 1;
        }
    }
}

/// The first unit of a text, and the units of what follows it.
proof fn lemma_first_unit(s: Seq<char>)
    requires
        s.len() > 0,
    ensures
        tokens(s).len() > 0,
        is_digit(s[0]) ==> {
            let n = leading(s, CharSet::Digit) as int;
            &&& tokens(s)[0] == Token::Number(digits_value(s.take(n)))
            &&& tokens(s).drop_first() == tokens(s.skip(n))
        },
        !is_digit(s[0]) ==> tokens(s)[0] == Token::Letter(s[0] as int) && tokens(s).drop_first() == tokens(
            s.skip(1),
        ),
{
    if is_digit(s[0]) {
        let n = leading(s, CharSet::Digit) as int;
        assert(tokens(s).drop_first() == tokens(s.skip(n)));
    } else {
        assert(tokens(s).drop_first() == tokens(s.skip(1)));
    }
}

/// Units at and behind an index, seen from that index.
proof fn lemma_units(l: Seq<Token>, r: Seq<Token>, k: int)
    requires
        0 <= k <= l.len(),
        k <= r.len(),
    ensures
        k < l.len() ==> l.skip(k)[0] == l[k] && l.skip(k).drop_first() == l.skip(k + 1),
        k < r.len() ==> r.skip(k)[0] == r[k] && r.skip(k).drop_first() == r.skip(k + 1),
{
}

/// Two sequences of units of which one comes first differ, and only one does.
proof fn lemma_decided(l: Seq<Token>, r: Seq<Token>)
    ensures
        key_less(l, r) ==> l != r && !key_less(r, l),
        key_less(r, l) ==> l != r && !key_less(l, r),
{
    key_less_irreflexive(l);
    key_less_irreflexive(r);
    if key_less(l, r) && key_less(r, l) {
        key_less_transitive(l, r, l);
    }
}

/// Compares two names in natural order.
pub fn natural_cmp(left: &str, right: &str) -> (res: Ordering)
    ensures
        res is Less <==> natural_less(left@, right@),
        res is Greater <==> natural_less(right@, left@),
        res is Equal <==> natural_same(left@, right@),
{
    match compare_keys(&lowercased(&chars_of(left)), &lowercased(&chars_of(right))) {
        Rank::Less => Ordering::Less,
        Rank::Same => Ordering::Equal,
        Rank::Greater => Ordering::Greater,
    }
}

/// Whether a text can be cut behind `head` without cutting through a run of digits.
pub open spec fn cuts_no_number(head: Seq<char>, rest: Seq<char>) -> bool {
    head.len() > 0 && rest.len() > 0 ==> !(is_digit(head.last()) && is_digit(rest[0]))
}

/// The units of a text that is cut between two of them.
proof fn lemma_tokens_of_parts(head: Seq<char>, rest: Seq<char>)
    requires
        cuts_no_number(head, rest),
    ensures
        tokens(head + rest) == tokens(head) + tokens(rest),
    decreases head.len(),
{
    let whole = head + rest;
    if head.len() == 0 {
        assert(whole == rest);
        assert(tokens(head) + tokens(rest) == tokens(rest));
    } else if is_digit(head[0]) {
        lemma_leading(head, CharSet::Digit);
        let n = leading(head, CharSet::Digit) as int;
        assert(whole[0] == head[0]);
        assert forall|i: int| 0 <= i < n implies CharSet::Digit.has(#[trigger] whole[i]) by {
            assert(whole[i] == head[i]);
        }
        if n < head.len() {
            assert(whole[n] == head[n]);
        } else if rest.len() > 0 {
            assert(whole[n] == rest[0]);
            assert(is_digit(head.last()));
        }
        lemma_leading_is(whole, CharSet::Digit, n as nat);
        assert(whole.take(n) == head.take(n));
        assert(whole.skip(n) == head.skip(n) + rest);
        if n < head.len() {
            assert(head.skip(n).last() == head.last());
        }
        lemma_tokens_of_parts(head.skip(n), rest);
        lemma_first_unit(whole);
        lemma_first_unit(head);
        let first = seq![Token::Number(digits_value(head.take(n)))];
        assert(tokens(whole) == first + tokens(whole.skip(n)));
        assert(tokens(head) == first + tokens(head.skip(n)));
        assert(tokens(whole) == tokens(head) + tokens(rest));
    } else {
        assert(whole[0] == head[0]);
        assert(whole.skip(1) == head.skip(1) + rest);
        if head.len() > 1 {
            assert(head.skip(1).last() == head.last());
        }
        lemma_tokens_of_parts(head.skip(1), rest);
        let first = seq![Token::Letter(head[0] as int)];
        assert(tokens(whole) == first + tokens(whole.skip(1)));
        assert(tokens(head) == first + tokens(head.skip(1)));
        assert(tokens(whole) == tokens(head) + tokens(rest));
    }
}

/// What two sequences of units have in common at their start does not matter.
proof fn lemma_common_start(common: Seq<Token>, a: Seq<Token>, b: Seq<Token>)
    ensures
        key_less(common + a, common + b) == key_less(a, b),
    decreases common.len(),
{
    if common.len() == 0 {
        assert(common + a == a && common + b == b);
    } else {
        let rest = common.drop_first();
        lemma_common_start(rest, a, b);
        assert((common + a).drop_first() == rest + a);
        assert((common + b).drop_first() == rest + b);
        assert((common + a)[0] == common[0] && (common + b)[0] == common[0]);
    }
}

/// The natural order of two names is decided where they first differ, wherever that is: of two
/// different characters that belong to no number in both names, the smaller one comes first,
/// whatever follows.
pub proof fn first_difference_decides(
    left: Seq<char>,
    right: Seq<char>,
    common: Seq<char>,
    x: char,
    y: char,
    left_rest: Seq<char>,
    right_rest: Seq<char>,
)
    requires
        lowercase(left) == common + seq![x] + left_rest,
        lowercase(right) == common + seq![y] + right_rest,
        x < y,
        !(is_digit(x) && is_digit(y)),
        common.len() > 0 && is_digit(common.last()) ==> !is_digit(x) && !is_digit(y),
    ensures
        natural_less(left, right),
        !natural_less(right, left),
        !natural_same(left, right),
{
    let a = seq![x] + left_rest;
    let b = seq![y] + right_rest;
    assert(lowercase(left) == common + a);
    assert(lowercase(right) == common + b);
    assert(a[0] == x && b[0] == y);
    lemma_tokens_of_parts(common, a);
    lemma_tokens_of_parts(common, b);
    lemma_first_unit(a);
    lemma_first_unit(b);
    lemma_common_start(tokens(common), tokens(a), tokens(b));
    lemma_decided(natural_key(left), natural_key(right));
}

/// Where the first difference lies in two runs of digits, the smaller number comes first, whatever
/// follows.
pub proof fn smaller_numbers_come_first(
    left: Seq<char>,
    right: Seq<char>,
    common: Seq<char>,
    m: Seq<char>,
    n: Seq<char>,
    left_rest: Seq<char>,
    right_rest: Seq<char>,
)
    requires
        lowercase(left) == common + m + left_rest,
        lowercase(right) == common + n + right_rest,
        m.len() > 0 && all_digits(m) && cuts_no_number(m, left_rest),
        n.len() > 0 && all_digits(n) && cuts_no_number(n, right_rest),
        common.len() > 0 ==> !is_digit(common.last()),
        digits_value(m) < digits_value(n),
    ensures
        natural_less(left, right),
        !natural_less(right, left),
        !natural_same(left, right),
{
    lemma_number_parts(left, common, m, left_rest);
    lemma_number_parts(right, common, n, right_rest);
    lemma_common_start(
        tokens(common),
        seq![Token::Number(digits_value(m))] + tokens(left_rest),
        seq![Token::Number(digits_value(n))] + tokens(right_rest),
    );
    lemma_decided(natural_key(left), natural_key(right));
}

/// Two names that differ only in the case of letters and in how the same numbers are written are
/// the same to the natural order.
pub proof fn spelling_makes_no_difference(
    left: Seq<char>,
    right: Seq<char>,
    common: Seq<char>,
    m: Seq<char>,
    n: Seq<char>,
    rest: Seq<char>,
)
    requires
        lowercase(left) == common + m + rest,
        lowercase(right) == common + n + rest,
        m.len() > 0 && all_digits(m) && cuts_no_number(m, rest),
        n.len() > 0 && all_digits(n) && cuts_no_number(n, rest),
        common.len() > 0 ==> !is_digit(common.last()),
        digits_value(m) == digits_value(n),
    ensures
        natural_same(left, right),
        !natural_less(left, right),
{
    lemma_number_parts(left, common, m, rest);
    lemma_number_parts(right, common, n, rest);
    key_less_irreflexive(natural_key(left));
}

/// A name comes before every longer one that starts with it, as long as no number is continued.
pub proof fn shorter_names_come_first(left: Seq<char>, right: Seq<char>, rest: Seq<char>)
    requires
        lowercase(right) == lowercase(left) + rest,
        rest.len() > 0,
        cuts_no_number(lowercase(left), rest),
    ensures
        natural_less(left, right),
        !natural_less(right, left),
{
    let none = Seq::<Token>::empty();
    lemma_tokens_of_parts(lowercase(left), rest);
    lemma_first_unit(rest);
    lemma_common_start(natural_key(left), none, tokens(rest));
    assert(natural_key(left) + none == natural_key(left));
    lemma_decided(natural_key(left), natural_key(right));
}

/// The units of a name with a whole run of digits in it.
proof fn lemma_number_parts(name: Seq<char>, common: Seq<char>, m: Seq<char>, rest: Seq<char>)
    requires
        lowercase(name) == common + m + rest,
        m.len() > 0 && all_digits(m) && cuts_no_number(m, rest),
        common.len() > 0 ==> !is_digit(common.last()),
    ensures
        natural_key(name) == tokens(common) + (seq![Token::Number(digits_value(m))] + tokens(rest)),
{
    assert(lowercase(name) == common + (m + rest));
    assert((m + rest)[0] == m[0]);
    lemma_tokens_of_parts(common, m + rest);
    lemma_tokens_of_parts(m, rest);
    assert forall|i: int| 0 <= i < m.len() implies CharSet::Digit.has(#[trigger] m[i]) by {
        assert(is_digit(m[i]));
    }
    lemma_leading_is(m, CharSet::Digit, m.len());
    assert(is_digit(m[0]));
    lemma_first_unit(m);
    assert(m.take(m.len() as int) == m);
    assert(m.skip(m.len() as int) == Seq::<char>::empty());
    assert(tokens(m) == seq![Token::Number(digits_value(m))] + tokens(Seq::<char>::empty()));
    assert(tokens(m) == seq![Token::Number(digits_value(m))]);
}

/// The case of letters makes no difference to the natural order.
pub proof fn case_makes_no_difference(left: Seq<char>, right: Seq<char>)
    requires
        lowercase(left) == lowercase(right),
    ensures
        natural_same(left, right),
        !natural_less(left, right),
{
    key_less_irreflexive(natural_key(left));
}

} // verus!
