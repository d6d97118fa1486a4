//! Lexicographic order of sequences of numbers.

use crate::text::to_chars;
use vstd::prelude::*;

verus! {

/// Whether `a` and `b` agree up to position `k`, and there `a` ends or has the
/// smaller number.
pub open spec fn falls_behind_at(a: Seq<u32>, b: Seq<u32>, k: int) -> bool {
    &&& 0 <= k <= a.len()
    &&& k < b.len()
    &&& forall|j: int| 0 <= j < k ==> a[j] == #[trigger] b[j]
    &&& k == a.len() || a[k] < b[k]
}

/// Whether `a` stands before `b` in lexicographic order.
pub open spec fn lex_before(a: Seq<u32>, b: Seq<u32>) -> bool {
    exists|k: int| falls_behind_at(a, b, k)
}

/// Whether `a` stands before `b` in lexicographic order.
pub fn is_before(a: &[u32], b: &[u32]) -> (r: bool)
    ensures
        r == lex_before(a@, b@),
{
    let mut k: usize = 0;
    while k < a.len() && k < b.len() && a[k] == b[k]
        invariant
            k <= a@.len(),
            k <= b@.len(),
            forall|j: int| 0 <= j < k ==> a@[j] == #[trigger] b@[j],
        decreases a@.len() - k,
    {
        k = k + 1;
    }
    let r = k < b.len() && (k == a.len() || a[k] < b[k]);
    proof {
        if r {
            assert(falls_behind_at(a@, b@, k as int));
        } else if lex_before(a@, b@) {
            let d = choose|d: int| falls_behind_at(a@, b@, d);
            if d < k {
                assert(a@[d] == b@[d]);
            }
            if k < d {
                assert(a@[k as int] == b@[k as int]);
            }
        }
    }
    r
}

/// The lexicographic order is a strict order: nothing stands before itself, and no
/// two sequences before each other.
pub proof fn lex_is_asymmetric(a: Seq<u32>, b: Seq<u32>)
    ensures
        !(lex_before(a, b) && lex_before(b, a)),
        !lex_before(a, a),
{
    if lex_before(a, b) && lex_before(b, a) {
        let i = choose|k: int| falls_behind_at(a, b, k);
        let j = choose|k: int| falls_behind_at(b, a, k);
        if i < j {
            assert(b[i] == a[i]);
        }
        if j < i {
            assert(a[j] == b[j]);
        }
    }
    if lex_before(a, a) {
        let k = choose|k: int| falls_behind_at(a, a, k);
    }
}

/// The lexicographic order is transitive.
pub proof fn lex_is_transitive(a: Seq<u32>, b: Seq<u32>, c: Seq<u32>)
    requires
        lex_before(a, b),
        lex_before(b, c),
    ensures
        lex_before(a, c),
{
    let i = choose|k: int| falls_behind_at(a, b, k);
    let j = choose|k: int| falls_behind_at(b, c, k);
    let k = if i < j {
        i
    } else {
        j
    };
    assert forall|m: int| 0 <= m < k implies a[m] == #[trigger] c[m] by {
        assert(a[m] == b[m]);
        assert(b[m] == c[m]);
    }
    if i < j {
        assert(b[i] == c[i]);
    }
    if j < i {
        assert(a[j] == b[j]);
    }
    assert(falls_behind_at(a, c, k));
}

/// Of two different sequences one stands before the other.
pub proof fn lex_is_total(a: Seq<u32>, b: Seq<u32>)
    ensures
        a == b || lex_before(a, b) || lex_before(b, a),
    decreases a.len(),
{
    if a.len() == 0 {
        if b.len() == 0 {
            assert(a =~= b);
        } else {
            assert(falls_behind_at(a, b, 0));
        }
    } else if b.len() == 0 {
        assert(falls_behind_at(b, a, 0));
    } else if a[0] < b[0] {
        assert(falls_behind_at(a, b, 0));
    } else if b[0] < a[0] {
        assert(falls_behind_at(b, a, 0));
    } else {
        let x = a.drop_first();
        let y = b.drop_first();
        lex_is_total(x, y);
        if x == y {
            assert(a =~= seq![a[0]] + x);
            assert(b =~= seq![b[0]] + y);
        } else if lex_before(x, y) {
            let k = choose|k: int| falls_behind_at(x, y, k);
            assert forall|j: int| 0 <= j < k + 1 implies a[j] == #[trigger] b[j] by {
                if j > 0 {
                    assert(x[j - 1] == y[j - 1]);
                }
            }
            assert(falls_behind_at(a, b, k + 1));
        } else {
            let k = choose|k: int| falls_behind_at(y, x, k);
            assert forall|j: int| 0 <= j < k + 1 implies b[j] == #[trigger] a[j] by {
                if j > 0 {
                    assert(y[j - 1] == x[j - 1]);
                }
            }
            assert(falls_behind_at(b, a, k + 1));
        }
    }
}

/// The numbers of the characters of `s`.
pub open spec fn codes(s: Seq<char>) -> Seq<u32> {
    Seq::new(s.len(), |i: int| s[i] as u32)
}

/// A character is known by its number.
proof fn code_identifies(a: char, b: char)
    requires
        a as u32 == b as u32,
    ensures
        a == b,
{
}

/// A text is known by its numbers.
pub proof fn codes_identify(a: Seq<char>, b: Seq<char>)
    ensures
        codes(a) == codes(b) <==> a == b,
{
    if codes(a) == codes(b) {
        assert(a.len() == codes(b).len());
        assert forall|i: int| 0 <= i < a.len() implies a[i] == b[i] by {
            assert(codes(a)[i] == codes(b)[i]);
            code_identifies(a[i], b[i]);
        }
        assert(a =~= b);
    }
}

/// The numbers of the characters of `s`.
pub fn char_codes(s: &str) -> (r: Vec<u32>)
    ensures
        r@ == codes(s@),
{
    let chars = to_chars(s);
    let mut r: Vec<u32> = Vec::new();
    let mut i: usize = 0;
    while i < chars.len()
        invariant
            chars@ == s@,
            i <= chars@.len(),
            r@ =~= codes(s@).take(i as int),
        decreases chars@.len() - i,
    {
        r.push(chars[i] as u32);
        i = i + 1;
    }
    r
}

} // verus!
