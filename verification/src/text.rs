//! Text as a sequence of characters: character sets, leading and trailing runs,
//! trimming and comparison.

use vstd::prelude::*;

verus! {

/// Specifies `String::push`: the given character is appended to the text.
pub assume_specification[ String::push ](s: &mut String, c: char)
    ensures
        final(s)@ == old(s)@.push(c),
;

/// The characters with the Unicode property `White_Space`.
pub open spec fn is_white_space(c: char) -> bool {
    ||| '\u{9}' <= c <= '\u{d}'
    ||| c == '\u{20}'
    ||| c == '\u{85}'
    ||| c == '\u{a0}'
    ||| c == '\u{1680}'
    ||| '\u{2000}' <= c <= '\u{200a}'
    ||| c == '\u{2028}'
    ||| c == '\u{2029}'
    ||| c == '\u{202f}'
    ||| c == '\u{205f}'
    ||| c == '\u{3000}'
}

/// The ASCII decimal digits.
pub open spec fn is_digit(c: char) -> bool {
    '0' <= c <= '9'
}

/// The ASCII letters and decimal digits.
pub open spec fn is_alphanumeric(c: char) -> bool {
    'a' <= c <= 'z' || 'A' <= c <= 'Z' || is_digit(c)
}

/// A set of characters that runs, trimming and searching refer to.
#[derive(Clone, Copy, Debug, PartialEq, Eq)]
pub enum CharSet {
    /// Unicode white space.
    WhiteSpace,
    /// The ASCII decimal digits.
    Digit,
    /// The ASCII decimal digits and the decimal point.
    Numeric,
    /// The characters `.`, `_` and `-`.
    Punctuation,
    /// Every character except the given one.
    Except(char),
}

impl CharSet {
    pub open spec fn has(self, c: char) -> bool {
        match self {
            CharSet::WhiteSpace => is_white_space(c),
            CharSet::Digit => is_digit(c),
            CharSet::Numeric => is_digit(c) || c == '.',
            CharSet::Punctuation => c == '.' || c == '_' || c == '-',
            CharSet::Except(other) => c != other,
        }
    }

    pub fn contains(self, c: char) -> (res: bool)
        ensures
            res == self.has(c),
    {
        match self {
            CharSet::WhiteSpace => white_space(c),
            CharSet::Digit => digit(c),
            CharSet::Numeric => digit(c) || c == '.',
            CharSet::Punctuation => c == '.' || c == '_' || c == '-',
            CharSet::Except(other) => c != other,
        }
    }
}

/// Whether `c` is Unicode white space.
pub fn white_space(c: char) -> (res: bool)
    ensures
        res == is_white_space(c),
{
    ('\u{9}' <= c && c <= '\u{d}') || c == '\u{20}' || c == '\u{85}' || c == '\u{a0}' || c
        == '\u{1680}' || ('\u{2000}' <= c && c <= '\u{200a}') || c == '\u{2028}' || c == '\u{2029}'
        || c == '\u{202f}' || c == '\u{205f}' || c == '\u{3000}'
}

/// Whether `c` is an ASCII decimal digit.
pub fn digit(c: char) -> (res: bool)
    ensures
        res == is_digit(c),
{
    '0' <= c && c <= '9'
}

/// Whether `c` is an ASCII letter or decimal digit.
pub fn alphanumeric(c: char) -> (res: bool)
    ensures
        res == is_alphanumeric(c),
{
    ('a' <= c && c <= 'z') || ('A' <= c && c <= 'Z') || digit(c)
}

/// The ASCII lower-case form of a character; other characters are their own.
pub open spec fn lower(c: char) -> char {
    if 'A' <= c <= 'Z' {
        ((c as int) + 32) as char
    } else {
        c
    }
}

/// The text with every character in its ASCII lower-case form.
pub open spec fn lowercase(s: Seq<char>) -> Seq<char> {
    Seq::new(s.len(), |i: int| lower(s[i]))
}

/// How many characters at the front of `s` belong to `set`, up to the first that does not.
pub open spec fn leading(s: Seq<char>, set: CharSet) -> nat
    decreases s.len(),
{
    if s.len() > 0 && set.has(s[0]) {
        1 + leading(s.drop_first(), set)
    } else {
        0
    }
}

/// How many characters at the back of `s` belong to `set`, back to the last that does not.
pub open spec fn trailing(s: Seq<char>, set: CharSet) -> nat
    decreases s.len(),
{
    if s.len() > 0 && set.has(s.last()) {
        1 + trailing(s.drop_last(), set)
    } else {
        0
    }
}

/// `s` without its leading run of characters of `set`.
pub open spec fn strip_start(s: Seq<char>, set: CharSet) -> Seq<char> {
    s.skip(leading(s, set) as int)
}

/// `s` without its trailing run of characters of `set`.
pub open spec fn strip_end(s: Seq<char>, set: CharSet) -> Seq<char> {
    s.take(s.len() - trailing(s, set))
}

/// `s` without its leading and trailing runs of characters of `set`.
pub open spec fn strip(s: Seq<char>, set: CharSet) -> Seq<char> {
    strip_end(strip_start(s, set), set)
}

/// `s` without white space at its ends.
pub open spec fn trim(s: Seq<char>) -> Seq<char> {
    strip(s, CharSet::WhiteSpace)
}

/// The leading run consists of characters of the set, and the character after it is not one.
pub proof fn lemma_leading(s: Seq<char>, set: CharSet)
    ensures
        leading(s, set) <= s.len(),
        forall|i: int| 0 <= i < leading(s, set) ==> set.has(#[trigger] s[i]),
        leading(s, set) < s.len() ==> !set.has(s[leading(s, set) as int]),
    decreases s.len(),
{
    if s.len() > 0 && set.has(s[0]) {
        lemma_leading(s.drop_first(), set);
        assert forall|i: int| 0 <= i < leading(s, set) implies set.has(#[trigger] s[i]) by {
            if i > 0 {
                assert(s.drop_first()[i - 1] == s[i]);
            }
        }
    }
}

/// A run of characters of the set that ends where a character outside it, or nothing, follows is
/// the leading run.
pub proof fn lemma_leading_is(s: Seq<char>, set: CharSet, n: nat)
    requires
        n <= s.len(),
        forall|i: int| 0 <= i < n ==> set.has(#[trigger] s[i]),
        n < s.len() ==> !set.has(s[n as int]),
    ensures
        leading(s, set) == n,
{
    lemma_leading(s, set);
    let m = leading(s, set);
    if m < n {
        assert(set.has(s[m as int]));
    }
    if n < m {
        assert(set.has(s[n as int]));
    }
}

/// The trailing run consists of characters of the set, and the character before it is not one.
pub proof fn lemma_trailing(s: Seq<char>, set: CharSet)
    ensures
        trailing(s, set) <= s.len(),
        forall|i: int| s.len() - trailing(s, set) <= i < s.len() ==> set.has(#[trigger] s[i]),
        trailing(s, set) < s.len() ==> !set.has(s[s.len() - trailing(s, set) - 1]),
    decreases s.len(),
{
    if s.len() > 0 && set.has(s.last()) {
        lemma_trailing(s.drop_last(), set);
        assert forall|i: int| s.len() - trailing(s, set) <= i < s.len() implies set.has(
            #[trigger] s[i],
        ) by {
            if i < s.len() - 1 {
                assert(s.drop_last()[i] == s[i]);
            }
        }
    }
}

/// A run of characters of the set that begins where a character outside it, or nothing, precedes
/// is the trailing run.
pub proof fn lemma_trailing_is(s: Seq<char>, set: CharSet, n: nat)
    requires
        n <= s.len(),
        forall|i: int| s.len() - n <= i < s.len() ==> set.has(#[trigger] s[i]),
        n < s.len() ==> !set.has(s[s.len() - n - 1]),
    ensures
        trailing(s, set) == n,
{
    lemma_trailing(s, set);
    let m = trailing(s, set);
    if m < n {
        assert(set.has(s[s.len() - m - 1]));
    }
    if n < m {
        assert(set.has(s[s.len() - n - 1]));
    }
}

/// Stripped text has no character of the set at either end, and is a part of the text.
pub proof fn lemma_strip(s: Seq<char>, set: CharSet)
    ensures
        leading(s, set) + strip(s, set).len() <= s.len(),
        strip(s, set) == s.subrange(
            leading(s, set) as int,
            (leading(s, set) + strip(s, set).len()) as int,
        ),
        strip(s, set).len() > 0 ==> !set.has(strip(s, set)[0]) && !set.has(strip(s, set).last()),
{
    lemma_leading(s, set);
    let t = strip_start(s, set);
    lemma_trailing(t, set);
    if t.len() > 0 {
        assert(t[0] == s[leading(s, set) as int]);
        if trailing(t, set) == t.len() {
            assert(set.has(t[0]));
        }
    }
}

/// Text with no character of the set at either end is left as it is.
pub proof fn lemma_strip_fixed(s: Seq<char>, set: CharSet)
    requires
        s.len() > 0 ==> !set.has(s[0]) && !set.has(s.last()),
    ensures
        strip(s, set) == s,
{
    assert(leading(s, set) == 0);
    assert(strip_start(s, set) == s);
    assert(trailing(s, set) == 0);
}

/// The characters of `s`.
pub fn chars_of(s: &str) -> (v: Vec<char>)
    ensures
        v@ == s@,
{
    let mut v: Vec<char> = Vec::new();
    for c in it: s.chars()
        invariant
            v@ == s@.take(it.index() as int),
            it.seq() == s@,
    {
        v.push(c);
        assert(s@.take(it.index() as int + 1) == s@.take(it.index() as int).push(c));
    }
    assert(s@.take(s@.len() as int) == s@);
    v
}

/// The text made of the characters of `v`.
pub fn string_of(v: &Vec<char>) -> (s: String)
    ensures
        s@ == v@,
{
    let mut s = String::new();
    for i in 0..v.len()
        invariant
            s@ == v@.take(i as int),
    {
        s.push(v[i]);
        assert(v@.take(i as int + 1) == v@.take(i as int).push(v@[i as int]));
    }
    assert(v@.take(v@.len() as int) == v@);
    s
}

/// The characters of `v` from index `from` up to, but not including, index `to`.
pub fn part(v: &Vec<char>, from: usize, to: usize) -> (res: Vec<char>)
    requires
        from <= to <= v@.len(),
    ensures
        res@ == v@.subrange(from as int, to as int),
{
    let mut res: Vec<char> = Vec::new();
    for i in from..to
        invariant
            from <= to <= v@.len(),
            res@ == v@.subrange(from as int, i as int),
    {
        res.push(v[i]);
        assert(v@.subrange(from as int, i as int + 1) == v@.subrange(from as int, i as int).push(
            v@[i as int],
        ));
    }
    res
}

/// The index at which the run of characters of `set` that begins at `from` ends.
pub fn run_end(v: &Vec<char>, from: usize, set: CharSet) -> (end: usize)
    requires
        from <= v@.len(),
    ensures
        end == from + leading(v@.skip(from as int), set),
        from <= end <= v@.len(),
{
    let mut end: usize = from;
    while end < v.len() && set.contains(v[end])
        invariant
            from <= end <= v@.len(),
            forall|i: int| from <= i < end ==> set.has(#[trigger] v@[i]),
        decreases v@.len() - end,
    {
        end += 1;
    }
    proof {
        lemma_leading_is(v@.skip(from as int), set, (end - from) as nat);
    }
    end
}

/// The text without its leading and trailing runs of characters of `set`.
pub fn stripped(v: &Vec<char>, set: CharSet) -> (res: Vec<char>)
    ensures
        res@ == strip(v@, set),
{
    let lo: usize = run_end(v, 0, set);
    let mut hi: usize = v.len();
    proof {
        assert(v@.skip(0) == v@);
    }
    while hi > lo && set.contains(v[hi - 1])
        invariant
            lo <= hi <= v@.len(),
            forall|i: int| hi <= i < v@.len() ==> set.has(#[trigger] v@[i]),
        decreases hi,
    {
        hi -= 1;
    }
    proof {
        let t = strip_start(v@, set);
        lemma_trailing_is(t, set, (v@.len() - hi) as nat);
        assert(strip(v@, set) == v@.subrange(lo as int, hi as int));
    }
    part(v, lo, hi)
}

/// The text without white space at its ends.
pub fn trimmed(v: &Vec<char>) -> (res: Vec<char>)
    ensures
        res@ == trim(v@),
{
    stripped(v, CharSet::WhiteSpace)
}

/// The ASCII lower-case form of `c`.
pub fn to_lower(c: char) -> (res: char)
    ensures
        res == lower(c),
{
    if 'A' <= c && c <= 'Z' {
        (c as u8 + 32) as char
    } else {
        c
    }
}

/// The text with every character in its ASCII lower-case form.
pub fn lowercased(v: &Vec<char>) -> (res: Vec<char>)
    ensures
        res@ == lowercase(v@),
{
    let mut res: Vec<char> = Vec::new();
    for i in 0..v.len()
        invariant
            res@.len() == i,
            forall|j: int| 0 <= j < i ==> res@[j] == lower(v@[j]),
    {
        res.push(to_lower(v[i]));
    }
    res
}

/// Whether two texts have the same characters.
pub fn same_chars(a: &Vec<char>, b: &Vec<char>) -> (res: bool)
    ensures
        res == (a@ == b@),
{
    if a.len() != b.len() {
        return false;
    }
    for i in 0..a.len()
        invariant
            a@.len() == b@.len(),
            forall|j: int| 0 <= j < i ==> a@[j] == b@[j],
    {
        if a[i] != b[i] {
            return false;
        }
    }
    assert(a@ =~= b@);
    true
}

/// Whether two texts have the same characters.
pub fn same_text(a: &str, b: &str) -> (res: bool)
    ensures
        res == (a@ == b@),
{
    same_chars(&chars_of(a), &chars_of(b))
}

/// Whether the characters of `v` are those of `text`.
pub fn chars_are(v: &Vec<char>, text: &str) -> (res: bool)
    ensures
        res == (v@ == text@),
{
    same_chars(v, &chars_of(text))
}

/// Whether `v` begins with `prefix`.
pub fn has_prefix(v: &Vec<char>, prefix: &Vec<char>) -> (res: bool)
    ensures
        res == prefix@.is_prefix_of(v@),
{
    if v.len() < prefix.len() {
        return false;
    }
    for i in 0..prefix.len()
        invariant
            prefix@.len() <= v@.len(),
            forall|j: int| 0 <= j < i ==> prefix@[j] == v@[j],
    {
        if v[i] != prefix[i] {
            assert(prefix@[i as int] != v@.subrange(0, prefix@.len() as int)[i as int]);
            return false;
        }
    }
    assert(prefix@ =~= v@.subrange(0, prefix@.len() as int));
    true
}

/// Whether `v` ends with `suffix`.
pub fn has_suffix(v: &Vec<char>, suffix: &Vec<char>) -> (res: bool)
    ensures
        res == suffix@.is_suffix_of(v@),
{
    if v.len() < suffix.len() {
        return false;
    }
    let end: Vec<char> = part(v, v.len() - suffix.len(), v.len());
    same_chars(&end, suffix)
}

/// Two texts one after the other.
pub fn joined(a: &str, b: &str) -> (res: String)
    ensures
        res@ == a@ + b@,
{
    let mut res = a.to_owned();
    res.append(b);
    res
}

/// In lower case the capital letters are replaced by the small ones, which follow them at a
/// distance of 32, and all other characters stay.
pub proof fn capital_letters_become_small(s: Seq<char>, i: int)
    requires
        0 <= i < s.len(),
    ensures
        lowercase(s).len() == s.len(),
        65 <= s[i] as int <= 90 ==> lowercase(s)[i] as int == s[i] as int + 32,
        !(65 <= s[i] as int <= 90) ==> lowercase(s)[i] == s[i],
{
}

/// Trimming takes white space off both ends and nothing else: the text is white space, what is
/// left, and white space; what is left neither starts nor ends with white space.
pub proof fn trimming_takes_white_space_off(s: Seq<char>, before: Seq<char>, kept: Seq<char>, after: Seq<char>)
    requires
        s == before + kept + after,
        forall|i: int| 0 <= i < before.len() ==> is_white_space(#[trigger] before[i]),
        forall|i: int| 0 <= i < after.len() ==> is_white_space(#[trigger] after[i]),
        kept.len() > 0 ==> !is_white_space(kept[0]) && !is_white_space(kept.last()),
    ensures
        trim(s) == kept,
{
    let set = CharSet::WhiteSpace;
    if kept.len() == 0 {
        assert forall|i: int| 0 <= i < s.len() implies set.has(#[trigger] s[i]) by {
            if i < before.len() {
                assert(s[i] == before[i]);
            } else {
                assert(s[i] == after[i - before.len()]);
            }
        }
        lemma_leading_is(s, set, s.len());
        lemma_strip(s, set);
        assert(trim(s) == kept);
    } else {
        let n = before.len();
        assert forall|i: int| 0 <= i < n implies set.has(#[trigger] s[i]) by {
            assert(s[i] == before[i]);
        }
        assert(s[n as int] == kept[0]);
        lemma_leading_is(s, set, n);
        let t = strip_start(s, set);
        assert(t == kept + after);
        assert forall|i: int| t.len() - after.len() <= i < t.len() implies set.has(
            #[trigger] t[i],
        ) by {
            assert(t[i] == after[i - kept.len()]);
        }
        assert(t[t.len() - after.len() - 1] == kept.last());
        lemma_trailing_is(t, set, after.len());
        assert(trim(s) == kept);
    }
}

/// White space is what Unicode calls so: among the ASCII characters the space and the five control
/// characters from the tabulator to the carriage return.
pub proof fn ascii_white_space(c: char)
    requires
        (c as int) < 128,
    ensures
        is_white_space(c) <==> c as int == 32 || 9 <= c as int <= 13,
{
}

} // verus!
