//! What holds of texts and of the orders of texts and numbers, each told from how a
//! text is made up.

use crate::number::{greatest, greatest_is_an_upper_bound, Binary64};
use crate::order::{codes, falls_behind_at, lex_before};
use crate::text::{
    count_value, decimal_of, is_numeral, is_space, is_trimmed, joined, lower, numeral_value, padded,
    replaced, texts, without_plus,
};
use vstd::prelude::*;

verus! {

/// The numeral of a number below ten is its digit, and a last digit more makes the
/// numeral of ten times the number and that digit.
pub proof fn numerals_grow_by_digits(n: nat, d: nat)
    requires
        d < 10,
    ensures
        decimal_of(d).len() == 1,
        decimal_of(d)[0] as int == '0' as int + d,
        n > 0 ==> decimal_of(10 * n + d) == decimal_of(n) + decimal_of(d),
        n > 0 ==> decimal_of(n)[0] != '0',
    decreases n,
{
    if n > 0 {
        assert((10 * n + d) / 10 == n);
        assert((10 * n + d) % 10 == d);
        assert(decimal_of(10 * n + d) =~= decimal_of(n) + decimal_of(d));
        if n >= 10 {
            numerals_grow_by_digits(n / 10, n % 10);
            assert(10 * (n / 10) + n % 10 == n);
            assert(decimal_of(n / 10).len() > 0) by {
                crate::text::decimal_denotes(n / 10);
            }
        }
    }
}

/// Digits denote a number of at least zero.
proof fn numerals_are_not_negative(s: Seq<char>)
    requires
        forall|i: int| 0 <= i < s.len() ==> '0' <= #[trigger] s[i] <= '9',
    ensures
        numeral_value(s) >= 0,
    decreases s.len(),
{
    if s.len() > 0 {
        let front = s.drop_last();
        assert forall|i: int| 0 <= i < front.len() implies '0' <= #[trigger] front[i] <= '9' by {
            assert(front[i] == s[i]);
        }
        numerals_are_not_negative(front);
        assert('0' <= s[s.len() - 1] <= '9');
    }
}

/// What one more character makes of the count that a text denotes: a digit makes ten
/// times the count and the digit, if a machine word holds that, and anything else
/// makes none. A text that denotes no count denotes none with more characters.
pub proof fn counts_grow_by_digits(s: Seq<char>, c: char)
    requires
        s.len() > 0,
        s != seq!['+'],
    ensures
        count_value(s.push(c)) == match count_value(s) {
            Some(n) => if '0' <= c <= '9' && 10 * n + (c as int - '0' as int) <= usize::MAX {
                Some((10 * n + (c as int - '0' as int)) as usize)
            } else {
                None
            },
            None => None,
        },
{
    let digits = without_plus(s);
    let more = without_plus(s.push(c));
    if s[0] == '+' {
        assert(s.len() > 1) by {
            if s.len() == 1 {
                assert(s =~= seq!['+']);
            }
        }
        assert(s.push(c).drop_first() =~= s.drop_first().push(c));
    }
    assert(more == digits.push(c));
    assert(digits.len() > 0);
    assert(more.drop_last() =~= digits);
    assert(more.last() == c);
    if is_numeral(more) {
        assert forall|i: int| 0 <= i < digits.len() implies crate::text::is_digit(
            #[trigger] digits[i],
        ) by {
            assert(more[i] == digits[i]);
        }
        assert(crate::text::is_digit(more[digits.len() as int]));
        numerals_are_not_negative(digits);
    }
    if is_numeral(digits) && '0' <= c <= '9' {
        assert forall|i: int| 0 <= i < more.len() implies crate::text::is_digit(
            #[trigger] more[i],
        ) by {
            if i < digits.len() {
                assert(more[i] == digits[i]);
            }
        }
        numerals_are_not_negative(digits);
    }
}

/// A single character denotes a count exactly if it is a digit, a plus sign in front
/// changes nothing but before another, and neither nothing nor a plus sign alone
/// denotes a count.
pub proof fn counts_start_with_a_digit(c: char, s: Seq<char>)
    ensures
        count_value(Seq::empty()) is None,
        count_value(seq!['+']) is None,
        count_value(seq![c]) == if '0' <= c <= '9' {
            Some((c as int - '0' as int) as usize)
        } else {
            None
        },
        s.len() > 0 && s[0] != '+' ==> count_value(seq!['+'] + s) == count_value(s),
        s.len() > 0 && s[0] == '+' ==> count_value(seq!['+'] + s) is None,
{
    let one = seq![c];
    assert(one.drop_last() =~= Seq::<char>::empty());
    assert(numeral_value(one.drop_last()) == 0);
    assert(seq!['+'].drop_first() =~= Seq::<char>::empty());
    assert((seq!['+'] + s).drop_first() =~= s);
    if c != '+' {
        assert(without_plus(one) == one);
        if '0' <= c <= '9' {
            assert(is_numeral(one));
        } else {
            assert(!crate::text::is_digit(one[0]));
        }
    }
    if s.len() > 0 && s[0] == '+' {
        assert(!crate::text::is_digit(s[0]));
    }
}

/// Lower case adds 32 to the numbers of the letters from `A` to `Z` and leaves every
/// other character as it is.
pub proof fn lower_case_by_character(s: Seq<char>)
    ensures
        lower(s).len() == s.len(),
        forall|i: int|
            0 <= i < s.len() ==> #[trigger] lower(s)[i] as int == if 65 <= s[i] as int <= 90 {
                s[i] as int + 32
            } else {
                s[i] as int
            },
{
    assert forall|i: int| 0 <= i < s.len() implies #[trigger] lower(s)[i] as int == if 65
        <= s[i] as int <= 90 {
        s[i] as int + 32
    } else {
        s[i] as int
    } by {
        lowered_character(s[i]);
    }
}

proof fn lowered_character(c: char)
    ensures
        crate::text::lower_char(c) as int == if 65 <= c as int <= 90 {
            c as int + 32
        } else {
            c as int
        },
{
}

/// Replacing a character changes it wherever it stands, and nothing else.
pub proof fn replacement_by_character(s: Seq<char>, from: char, to: char)
    ensures
        replaced(s, from, to).len() == s.len(),
        forall|i: int|
            0 <= i < s.len() && s[i] == from ==> #[trigger] replaced(s, from, to)[i] == to,
        forall|i: int|
            0 <= i < s.len() && s[i] != from ==> #[trigger] replaced(s, from, to)[i] == s[i],
{
}

/// Trimming takes white space off both ends and stops at the first character of each
/// end that is none: what is taken off is blanks, tabs, line ends and the other spaces
/// of Unicode.
pub proof fn trimming_takes_spaces_off(s: Seq<char>, r: Seq<char>) -> (ends: (
    Seq<char>,
    Seq<char>,
))
    requires
        is_trimmed(s, r),
    ensures
        s == ends.0 + r + ends.1,
        forall|i: int| 0 <= i < ends.0.len() ==> is_space(#[trigger] ends.0[i]),
        forall|i: int| 0 <= i < ends.1.len() ==> is_space(#[trigger] ends.1[i]),
        r.len() > 0 ==> !is_space(r[0]) && !is_space(r[r.len() - 1]),
{
    let (from, to): (int, int) = choose|from: int, to: int|
        {
            &&& 0 <= from <= to <= s.len()
            &&& r == #[trigger] s.subrange(from, to)
            &&& forall|i: int| 0 <= i < from ==> is_space(#[trigger] s[i])
            &&& forall|i: int| to <= i < s.len() ==> is_space(#[trigger] s[i])
            &&& from < to ==> !is_space(s[from]) && !is_space(s[to - 1])
        };
    let front = s.take(from);
    let back = s.skip(to);
    assert(s =~= front + r + back);
    assert forall|i: int| 0 <= i < back.len() implies is_space(#[trigger] back[i]) by {
        assert(back[i] == s[to + i]);
    }
    (front, back)
}

/// The white space characters, one by one.
pub proof fn white_space_is_listed(c: char)
    ensures
        is_space(c) <==> seq![
            9int,
            10,
            11,
            12,
            13,
            32,
            133,
            160,
            5760,
            8192,
            8193,
            8194,
            8195,
            8196,
            8197,
            8198,
            8199,
            8200,
            8201,
            8202,
            8232,
            8233,
            8239,
            8287,
            12288,
        ].contains(c as int),
{
    let list = seq![
        9int,
        10,
        11,
        12,
        13,
        32,
        133,
        160,
        5760,
        8192,
        8193,
        8194,
        8195,
        8196,
        8197,
        8198,
        8199,
        8200,
        8201,
        8202,
        8232,
        8233,
        8239,
        8287,
        12288,
    ];
    let n = c as int;
    if is_space(c) {
        let k = if n <= 13 {
            n - 9
        } else if n == 32 {
            5
        } else if n == 133 {
            6
        } else if n == 160 {
            7
        } else if n == 5760 {
            8
        } else if n <= 8202 {
            n - 8192 + 9
        } else if n == 8232 {
            20
        } else if n == 8233 {
            21
        } else if n == 8239 {
            22
        } else if n == 8287 {
            23
        } else {
            24
        };
        assert(list[k] == n);
    }
}

/// Padding keeps the text in front, adds blanks alone, and only up to the width.
pub proof fn padding_by_character(s: Seq<char>, width: nat)
    ensures
        padded(s, width).len() == if s.len() < width {
            width
        } else {
            s.len()
        },
        forall|i: int| 0 <= i < s.len() ==> #[trigger] padded(s, width)[i] == s[i],
        forall|i: int| s.len() <= i < padded(s, width).len() ==> #[trigger] padded(s, width)[i]
            == ' ',
{
}

/// Joining nothing gives nothing, joining one piece gives that piece, and joining two
/// lists gives what each gives with the separator between.
pub proof fn joining_adds_up(a: Seq<Seq<char>>, b: Seq<Seq<char>>, piece: Seq<char>, sep: Seq<char>)
    ensures
        joined(Seq::empty(), sep) == Seq::<char>::empty(),
        joined(seq![piece], sep) == piece,
        a.len() > 0 && b.len() > 0 ==> joined(a + b, sep) == joined(a, sep) + sep + joined(b, sep),
    decreases b.len(),
{
    if a.len() > 0 && b.len() > 0 {
        assert((a + b).drop_last() =~= a + b.drop_last());
        if b.len() == 1 {
            assert(a + b.drop_last() =~= a);
        } else {
            joining_adds_up(a, b.drop_last(), piece, sep);
            assert(joined(a + b, sep) =~= joined(a, sep) + sep + joined(b, sep));
        }
    }
}

/// The contents of strings are theirs, one by one.
pub proof fn contents_one_by_one(strings: Seq<String>)
    ensures
        texts(strings).len() == strings.len(),
        forall|i: int| 0 <= i < strings.len() ==> #[trigger] texts(strings)[i] == strings[i]@,
{
}

/// Which of two sequences comes first is decided where they first differ: the smaller
/// number comes first, and a sequence that ends there.
pub proof fn sequences_by_first_difference(a: Seq<u32>, b: Seq<u32>, k: int)
    requires
        0 <= k <= a.len(),
        k <= b.len(),
        forall|j: int| 0 <= j < k ==> a[j] == #[trigger] b[j],
        k == a.len() || k == b.len() || a[k] != b[k],
    ensures
        lex_before(a, b) <==> k < b.len() && (k == a.len() || a[k] < b[k]),
{
    if lex_before(a, b) {
        let d = choose|d: int| falls_behind_at(a, b, d);
        if d < k {
            assert(a[d] == b[d]);
        }
        if k < d {
            assert(a[k] == b[k]);
        }
    }
    if k < b.len() && (k == a.len() || a[k] < b[k]) {
        assert(falls_behind_at(a, b, k));
    }
}

/// The numbers of a text are those of its characters, one by one.
pub proof fn codes_one_by_one(s: Seq<char>)
    ensures
        codes(s).len() == s.len(),
        forall|i: int| 0 <= i < s.len() ==> #[trigger] codes(s)[i] == s[i] as u32,
{
}

/// The order of numbers by their bit patterns: a pattern beyond the infinities is no
/// number and is neither above nor below any; positive numbers rise with their
/// patterns, negative ones fall, and both zeros are equal.
pub proof fn numbers_by_bits(a: Binary64, b: Binary64)
    ensures
        a.is_nan() <==> 0x7ff0_0000_0000_0000 < a.bits < 0x8000_0000_0000_0000
            || 0xfff0_0000_0000_0000 < a.bits,
        a.is_nan() || b.is_nan() ==> !a.ge(b) && !a.gt(b),
        !a.is_nan() && !b.is_nan() ==> {
            &&& a.bits < 0x8000_0000_0000_0000 && b.bits < 0x8000_0000_0000_0000 ==> a.ge(b) == (
            a.bits >= b.bits) && a.gt(b) == (a.bits > b.bits)
            &&& a.bits >= 0x8000_0000_0000_0000 && b.bits >= 0x8000_0000_0000_0000 ==> a.ge(b) == (
            a.bits <= b.bits) && a.gt(b) == (a.bits < b.bits)
            &&& a.bits < 0x8000_0000_0000_0000 <= b.bits ==> a.ge(b) && a.gt(b) == (a.bits != 0
                || b.bits != 0x8000_0000_0000_0000)
            &&& b.bits < 0x8000_0000_0000_0000 <= a.bits ==> !a.gt(b) && a.ge(b) == (b.bits == 0
                && a.bits == 0x8000_0000_0000_0000)
        },
{
}

/// The order of all patterns: positive ones rise, negative ones fall, and every
/// negative one stands before every positive one.
pub proof fn patterns_by_bits(a: Binary64, b: Binary64)
    ensures
        a.bits < 0x8000_0000_0000_0000 && b.bits < 0x8000_0000_0000_0000 ==> (a.total_place()
            > b.total_place() <==> a.bits > b.bits),
        a.bits >= 0x8000_0000_0000_0000 && b.bits >= 0x8000_0000_0000_0000 ==> (a.total_place()
            > b.total_place() <==> a.bits < b.bits),
        a.bits < 0x8000_0000_0000_0000 <= b.bits ==> a.total_place() > b.total_place(),
{
}

/// The greatest of some values is the only number that is zero or one of them and
/// that none of them is above; zero only if none of them is above zero.
pub proof fn greatest_is_the_only_bound(values: Seq<Binary64>, m: Binary64)
    requires
        !m.is_nan(),
        m.bits < 0x8000_0000_0000_0000,
        m.bits == 0 || values.contains(m),
        forall|k: int| 0 <= k < values.len() ==> !(#[trigger] values[k]).gt(m),
    ensures
        greatest(values) == m,
{
    greatest_is_an_upper_bound(values);
    let g = greatest(values);
    if values.contains(g) {
        let k = values.index_of(g);
        assert(!values[k].gt(m));
    }
    if values.contains(m) {
        let k = values.index_of(m);
        assert(!values[k].gt(g));
    }
}

} // verus!
