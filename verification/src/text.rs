//! Text as sequences of characters: conversion, comparison, splitting, joining,
//! case folding, trimming, padding and decimal numerals.

use vstd::prelude::*;

verus! {

/// `String::push` appends the given character to the end of the string.
pub assume_specification[ String::push ](s: &mut String, c: char)
    ensures
        final(s)@ == old(s)@.push(c),
;

/// The characters of `s`, in order.
pub fn to_chars(s: &str) -> (chars: Vec<char>)
    ensures
        chars@ == s@,
{
    let mut chars: Vec<char> = Vec::new();
    for c in it: s.chars()
        invariant
            chars@ == it.seq().take(it.index() as int),
            it.seq() == s@,
    {
        chars.push(c);
    }
    chars
}

/// Whether two character slices are equal.
pub fn chars_eq(a: &[char], b: &[char]) -> (same: bool)
    ensures
        same == (a@ == b@),
{
    if a.len() != b.len() {
        return false;
    }
    let mut i: usize = 0;
    while i < a.len()
        invariant
            a@.len() == b@.len(),
            i <= a@.len(),
            forall|j: int| 0 <= j < i ==> a@[j] == b@[j],
        decreases a@.len() - i,
    {
        if a[i] != b[i] {
            return false;
        }
        i = i + 1;
    }
    assert(a@ =~= b@);
    true
}

/// Whether two strings hold the same characters.
pub fn text_eq(a: &str, b: &str) -> (same: bool)
    ensures
        same == (a@ == b@),
{
    let left = to_chars(a);
    let right = to_chars(b);
    chars_eq(left.as_slice(), right.as_slice())
}

/// The decimal digit for `d`.
pub open spec fn digit_char(d: int) -> char {
    (48 + d) as char
}

/// The decimal numeral of `n`, without leading zeros.
pub open spec fn decimal_of(n: nat) -> Seq<char>
    decreases n,
{
    if n < 10 {
        seq![digit_char(n as int)]
    } else {
        decimal_of(n / 10).push(digit_char((n % 10) as int))
    }
}

/// Whether `c` is one of the ten decimal digits.
pub open spec fn is_digit(c: char) -> bool {
    '0' <= c && c <= '9'
}

/// Whether `s` is a non-empty run of decimal digits.
pub open spec fn is_numeral(s: Seq<char>) -> bool {
    s.len() > 0 && forall|i: int| 0 <= i < s.len() ==> is_digit(#[trigger] s[i])
}

/// The number that a run of decimal digits denotes.
pub open spec fn numeral_value(s: Seq<char>) -> int
    decreases s.len(),
{
    if s.len() == 0 {
        0
    } else {
        numeral_value(s.drop_last()) * 10 + (s.last() as int - 48)
    }
}

/// The decimal numeral of `n`.
pub fn decimal(n: u64) -> (s: String)
    ensures
        s@ == decimal_of(n as nat),
{
    let mut backwards: Vec<char> = Vec::new();
    let mut rest: u64 = n;
    while rest >= 10
        invariant
            decimal_of(n as nat) == decimal_of(rest as nat) + backwards@.reverse(),
        decreases rest,
    {
        let digit = (48 + (rest % 10) as u8) as char;
        let ghost before = backwards@;
        backwards.push(digit);
        assert(backwards@.reverse() =~= seq![digit] + before.reverse());
        assert(decimal_of(rest as nat) == decimal_of((rest / 10) as nat).push(digit));
        assert(decimal_of((rest / 10) as nat).push(digit) + before.reverse() =~= decimal_of(
            (rest / 10) as nat,
        ) + backwards@.reverse());
        rest = rest / 10;
    }
    let mut s = String::new();
    s.push((48 + rest as u8) as char);
    let mut i: usize = backwards.len();
    assert(s@ =~= decimal_of(rest as nat));
    assert(backwards@.skip(i as int).reverse() =~= Seq::<char>::empty());
    while i > 0
        invariant
            i <= backwards@.len(),
            s@ == decimal_of(rest as nat) + backwards@.skip(i as int).reverse(),
        decreases i,
    {
        i = i - 1;
        s.push(backwards[i]);
        assert(backwards@.skip(i as int).reverse() =~= backwards@.skip(i + 1).reverse().push(
            backwards@[i as int],
        ));
    }
    assert(backwards@.skip(0) =~= backwards@);
    s
}

/// A decimal numeral denotes the number it was made from.
pub proof fn decimal_denotes(n: nat)
    ensures
        is_numeral(decimal_of(n)),
        numeral_value(decimal_of(n)) == n,
    decreases n,
{
    if n < 10 {
        let s = decimal_of(n);
        assert(s.drop_last() =~= Seq::<char>::empty());
        assert(numeral_value(s.drop_last()) == 0);
    } else {
        decimal_denotes(n / 10);
        let shorter = decimal_of(n / 10);
        assert(decimal_of(n).drop_last() =~= shorter);
        assert forall|i: int| 0 <= i < decimal_of(n).len() implies is_digit(
            #[trigger] decimal_of(n)[i],
        ) by {
            if i < shorter.len() {
                assert(is_digit(shorter[i]));
            }
        }
    }
}

/// `s` without one leading plus sign, if it has one.
pub open spec fn without_plus(s: Seq<char>) -> Seq<char> {
    if s.len() > 0 && s[0] == '+' {
        s.drop_first()
    } else {
        s
    }
}

/// The number that `s` denotes as an unsigned machine word: an optional plus sign
/// followed by decimal digits alone, and no more than a `usize` can hold.
pub open spec fn count_value(s: Seq<char>) -> Option<usize> {
    let digits = without_plus(s);
    if is_numeral(digits) && numeral_value(digits) <= usize::MAX {
        Some(numeral_value(digits) as usize)
    } else {
        None
    }
}

/// Reading on never makes a numeral smaller.
proof fn numeral_value_grows(s: Seq<char>, k: int)
    requires
        0 <= k <= s.len(),
        forall|i: int| 0 <= i < s.len() ==> is_digit(#[trigger] s[i]),
    ensures
        0 <= numeral_value(s.take(k)) <= numeral_value(s),
    decreases s.len(),
{
    if k == s.len() {
        assert(s.take(k) =~= s);
        if s.len() > 0 {
            numeral_value_grows(s.drop_last(), 0);
            assert(s.drop_last().take(0) =~= Seq::<char>::empty());
            numeral_value_grows(s.drop_last(), s.len() - 1);
        }
    } else {
        numeral_value_grows(s.drop_last(), k);
        assert(s.drop_last().take(k) =~= s.take(k));
    }
}

/// Reads an unsigned count: an optional plus sign and decimal digits.
pub fn parse_count(s: &str) -> (count: Option<usize>)
    ensures
        count == count_value(s@),
{
    let chars = to_chars(s);
    let mut start: usize = 0;
    if chars.len() > 0 && chars[0] == '+' {
        start = 1;
    }
    let ghost digits = without_plus(s@);
    assert(digits =~= s@.skip(start as int));
    if start == chars.len() {
        return None;
    }
    let mut value: usize = 0;
    let mut i: usize = start;
    assert(digits.take(0) =~= Seq::<char>::empty());
    while i < chars.len()
        invariant
            chars@ == s@,
            start <= i <= chars@.len(),
            digits == without_plus(s@),
            digits == s@.skip(start as int),
            digits.len() > 0,
            value == numeral_value(digits.take(i - start)),
            forall|j: int| 0 <= j < i - start ==> is_digit(#[trigger] digits[j]),
        decreases chars@.len() - i,
    {
        let c = chars[i];
        assert(digits[i - start] == c);
        if c < '0' || c > '9' {
            assert(!is_digit(digits[i - start]));
            return None;
        }
        let digit: usize = (c as u8 - 48) as usize;
        assert(digits.take(i - start + 1).drop_last() =~= digits.take(i - start));
        assert(numeral_value(digits.take(i - start + 1)) == value * 10 + digit);
        proof {
            if is_numeral(digits) {
                numeral_value_grows(digits, i - start + 1);
            }
        }
        if value > usize::MAX / 10 {
            return None;
        }
        let tens: usize = value * 10;
        if digit > usize::MAX - tens {
            return None;
        }
        value = tens + digit;
        i = i + 1;
    }
    assert(digits.take(i - start) =~= digits);
    Some(value)
}

/// `c` with an upper-case ASCII letter made lower-case.
pub open spec fn lower_char(c: char) -> char {
    if 'A' <= c && c <= 'Z' {
        (c as u32 + 32) as char
    } else {
        c
    }
}

/// `s` with its ASCII letters in lower case.
pub open spec fn lower(s: Seq<char>) -> Seq<char> {
    Seq::new(s.len(), |i: int| lower_char(s[i]))
}

/// `s` with its ASCII letters in lower case.
pub fn to_lower(chars: &[char]) -> (s: String)
    ensures
        s@ == lower(chars@),
{
    let mut s = String::new();
    let mut i: usize = 0;
    while i < chars.len()
        invariant
            i <= chars@.len(),
            s@ =~= lower(chars@).take(i as int),
        decreases chars@.len() - i,
    {
        let c = chars[i];
        if 'A' <= c && c <= 'Z' {
            s.push((c as u8 + 32) as char);
        } else {
            s.push(c);
        }
        i = i + 1;
    }
    s
}

/// `s` with every `from` replaced by `to`.
pub open spec fn replaced(s: Seq<char>, from: char, to: char) -> Seq<char> {
    Seq::new(s.len(), |i: int| if s[i] == from { to } else { s[i] })
}

/// `s` with every `from` replaced by `to`.
pub fn replace_char(s: &str, from: char, to: char) -> (r: String)
    ensures
        r@ == replaced(s@, from, to),
{
    let chars = to_chars(s);
    let mut r = String::new();
    let mut i: usize = 0;
    while i < chars.len()
        invariant
            chars@ == s@,
            i <= chars@.len(),
            r@ =~= replaced(s@, from, to).take(i as int),
        decreases chars@.len() - i,
    {
        if chars[i] == from {
            r.push(to);
        } else {
            r.push(chars[i]);
        }
        i = i + 1;
    }
    r
}

/// Whether `c` has the Unicode property `White_Space`.
pub open spec fn is_space(c: char) -> bool {
    let n = c as u32;
    ||| 0x9 <= n <= 0xd
    ||| n == 0x20
    ||| n == 0x85
    ||| n == 0xa0
    ||| n == 0x1680
    ||| 0x2000 <= n <= 0x200a
    ||| n == 0x2028
    ||| n == 0x2029
    ||| n == 0x202f
    ||| n == 0x205f
    ||| n == 0x3000
}

/// Whether `r` is `s` without its leading and trailing white space.
pub open spec fn is_trimmed(s: Seq<char>, r: Seq<char>) -> bool {
    exists|from: int, to: int|
        {
            &&& 0 <= from <= to <= s.len()
            &&& r == #[trigger] s.subrange(from, to)
            &&& forall|i: int| 0 <= i < from ==> is_space(#[trigger] s[i])
            &&& forall|i: int| to <= i < s.len() ==> is_space(#[trigger] s[i])
            &&& from < to ==> !is_space(s[from]) && !is_space(s[to - 1])
        }
}

fn is_space_char(c: char) -> (space: bool)
    ensures
        space == is_space(c),
{
    let n: u32 = c as u32;
    (0x9 <= n && n <= 0xd) || n == 0x20 || n == 0x85 || n == 0xa0 || n == 0x1680 || (0x2000 <= n
        && n <= 0x200a) || n == 0x2028 || n == 0x2029 || n == 0x202f || n == 0x205f || n == 0x3000
}

/// `s` without its leading and trailing white space.
pub fn trim(s: &str) -> (r: String)
    ensures
        is_trimmed(s@, r@),
{
    let chars = to_chars(s);
    let mut from: usize = 0;
    while from < chars.len() && is_space_char(chars[from])
        invariant
            from <= chars@.len(),
            forall|i: int| 0 <= i < from ==> is_space(#[trigger] chars@[i]),
        decreases chars@.len() - from,
    {
        from = from + 1;
    }
    let mut to: usize = chars.len();
    while to > from && is_space_char(chars[to - 1])
        invariant
            from <= to <= chars@.len(),
            forall|i: int| to <= i < chars@.len() ==> is_space(#[trigger] chars@[i]),
        decreases to,
    {
        to = to - 1;
    }
    let mut r = String::new();
    let mut i: usize = from;
    while i < to
        invariant
            from <= i <= to <= chars@.len(),
            r@ == chars@.subrange(from as int, i as int),
        decreases to - i,
    {
        r.push(chars[i]);
        i = i + 1;
    }
    r
}

/// There is one trimmed text of each text.
pub proof fn trimmed_is_unique(s: Seq<char>, a: Seq<char>, b: Seq<char>)
    requires
        is_trimmed(s, a),
        is_trimmed(s, b),
    ensures
        a == b,
{
    let (f, t): (int, int) = choose|from: int, to: int|
        {
            &&& 0 <= from <= to <= s.len()
            &&& a == #[trigger] s.subrange(from, to)
            &&& forall|i: int| 0 <= i < from ==> is_space(#[trigger] s[i])
            &&& forall|i: int| to <= i < s.len() ==> is_space(#[trigger] s[i])
            &&& from < to ==> !is_space(s[from]) && !is_space(s[to - 1])
        };
    let (g, u): (int, int) = choose|from: int, to: int|
        {
            &&& 0 <= from <= to <= s.len()
            &&& b == #[trigger] s.subrange(from, to)
            &&& forall|i: int| 0 <= i < from ==> is_space(#[trigger] s[i])
            &&& forall|i: int| to <= i < s.len() ==> is_space(#[trigger] s[i])
            &&& from < to ==> !is_space(s[from]) && !is_space(s[to - 1])
        };
    if f < t {
        assert(!is_space(s[f]) && !is_space(s[t - 1]));
    }
    if g < u {
        assert(!is_space(s[g]) && !is_space(s[u - 1]));
    }
    assert(a =~= b);
}

/// `s` filled up with spaces on the right to `width` characters.
pub open spec fn padded(s: Seq<char>, width: nat) -> Seq<char> {
    if s.len() < width {
        s + Seq::new((width - s.len()) as nat, |i: int| ' ')
    } else {
        s
    }
}

/// `s` filled up with spaces on the right to `width` characters.
pub fn pad_right(s: &str, width: usize) -> (r: String)
    ensures
        r@ == padded(s@, width as nat),
{
    let mut r = s.to_owned();
    let mut used: usize = to_chars(s).len();
    while used < width
        invariant
            used == r@.len(),
            s@.len() <= r@.len(),
            r@.len() <= width || r@ == s@,
            r@ == s@ + Seq::new((r@.len() - s@.len()) as nat, |i: int| ' '),
        decreases width - used,
    {
        r.push(' ');
        used = used + 1;
    }
    assert(r@ =~= padded(s@, width as nat));
    r
}

/// The contents of a sequence of strings.
pub open spec fn texts(strings: Seq<String>) -> Seq<Seq<char>> {
    Seq::new(strings.len(), |i: int| strings[i]@)
}

/// The pieces one after the other, with `sep` between neighbours.
pub open spec fn joined(pieces: Seq<Seq<char>>, sep: Seq<char>) -> Seq<char>
    decreases pieces.len(),
{
    if pieces.len() == 0 {
        Seq::empty()
    } else if pieces.len() == 1 {
        pieces[0]
    } else {
        joined(pieces.drop_last(), sep) + sep + pieces.last()
    }
}

/// The strings one after the other, with `sep` between neighbours.
pub fn join(strings: &[String], sep: &str) -> (r: String)
    ensures
        r@ == joined(texts(strings@), sep@),
{
    let mut r = String::new();
    let mut i: usize = 0;
    while i < strings.len()
        invariant
            i <= strings@.len(),
            r@ == joined(texts(strings@).take(i as int), sep@),
        decreases strings@.len() - i,
    {
        let ghost all = texts(strings@);
        assert(all.take(i + 1).drop_last() =~= all.take(i as int));
        if i > 0 {
            r.append(sep);
        }
        r.append(strings[i].as_str());
        assert(i == 0 ==> r@ =~= strings@[0]@);
        i = i + 1;
    }
    assert(texts(strings@).take(i as int) =~= texts(strings@));
    r
}

} // verus!
