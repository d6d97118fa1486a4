//! Choosing from sequences.

use vstd::prelude::*;

verus! {

/// One more element is chosen exactly if it meets the condition.
pub proof fn filter_push<A>(s: Seq<A>, x: A, keep: spec_fn(A) -> bool)
    ensures
        s.push(x).filter(keep) == if keep(x) {
            s.filter(keep).push(x)
        } else {
            s.filter(keep)
        },
        s.filter(keep).len() <= s.len(),
{
    reveal(Seq::filter);
    assert(s.push(x).drop_last() =~= s);
    s.lemma_filter_len(keep);
}

/// Taking an element out of a sequence takes it out of what is chosen from it.
pub proof fn filter_len_remove<A>(s: Seq<A>, i: int, keep: spec_fn(A) -> bool)
    requires
        0 <= i < s.len(),
    ensures
        s.filter(keep).len() == s.remove(i).filter(keep).len() + if keep(s[i]) {
            1int
        } else {
            0int
        },
{
    let front = s.take(i);
    let back = s.skip(i + 1);
    assert(s =~= front.push(s[i]) + back);
    assert(s.remove(i) =~= front + back);
    Seq::filter_distributes_over_add(front.push(s[i]), back, keep);
    Seq::filter_distributes_over_add(front, back, keep);
    filter_push(front, s[i], keep);
}

/// How much is chosen does not depend on the order.
pub proof fn filter_len_of_permutation<A>(a: Seq<A>, b: Seq<A>, keep: spec_fn(A) -> bool)
    requires
        a.to_multiset() == b.to_multiset(),
    ensures
        a.filter(keep).len() == b.filter(keep).len(),
    decreases a.len(),
{
    broadcast use vstd::seq_lib::group_to_multiset_ensures;

    assert(a.len() == a.to_multiset().len());
    assert(b.len() == b.to_multiset().len());
    if a.len() == 0 {
        assert(a =~= b);
    } else {
        let i = permuted_position(a, b);
        filter_len_of_permutation(a.drop_last(), b.remove(i), keep);
        filter_len_remove(b, i, keep);
        filter_push(a.drop_last(), a.last(), keep);
        assert(a.drop_last().push(a.last()) =~= a);
    }
}

/// What is made of the chosen elements, one by one, does not depend on the order but
/// for its own.
pub proof fn chosen_of_permutation<A, B>(
    a: Seq<A>,
    b: Seq<A>,
    keep: spec_fn(A) -> bool,
    f: spec_fn(A) -> B,
)
    requires
        a.to_multiset() == b.to_multiset(),
    ensures
        a.filter(keep).map_values(f).to_multiset() == b.filter(keep).map_values(f).to_multiset(),
    decreases a.len(),
{
    broadcast use vstd::seq_lib::group_to_multiset_ensures;

    assert(a.len() == a.to_multiset().len());
    assert(b.len() == b.to_multiset().len());
    if a.len() == 0 {
        assert(a =~= b);
    } else {
        let i = permuted_position(a, b);
        let x = b[i];
        chosen_of_permutation(a.drop_last(), b.remove(i), keep, f);
        filter_push(a.drop_last(), x, keep);
        assert(a.drop_last().push(x) =~= a);
        let front = b.take(i);
        let back = b.skip(i + 1);
        assert(b =~= front.push(x) + back);
        assert(b.remove(i) =~= front + back);
        Seq::filter_distributes_over_add(front.push(x), back, keep);
        Seq::filter_distributes_over_add(front, back, keep);
        filter_push(front, x, keep);
        let u = front.filter(keep).map_values(f);
        let v = back.filter(keep).map_values(f);
        let w = a.drop_last().filter(keep).map_values(f);
        assert(b.remove(i).filter(keep).map_values(f) =~= u + v);
        vstd::seq_lib::lemma_multiset_commutative(u, v);
        if keep(x) {
            assert(a.filter(keep).map_values(f) =~= w.push(f(x)));
            assert(b.filter(keep).map_values(f) =~= u.push(f(x)) + v);
            vstd::seq_lib::lemma_multiset_commutative(u.push(f(x)), v);
            assert(u.push(f(x)).to_multiset().add(v.to_multiset()) =~= u.to_multiset().add(
                v.to_multiset(),
            ).insert(f(x)));
        } else {
            assert(b.filter(keep).map_values(f) =~= u + v);
        }
    }
}

/// What is made of all elements, one by one, does not depend on the order but for its
/// own.
pub proof fn mapped_permutation<A, B>(a: Seq<A>, b: Seq<A>, f: spec_fn(A) -> B)
    requires
        a.to_multiset() == b.to_multiset(),
    ensures
        a.map_values(f).to_multiset() == b.map_values(f).to_multiset(),
{
    let all = |x: A| true;
    filter_all(a, all);
    filter_all(b, all);
    chosen_of_permutation(a, b, all, f);
}

/// A condition that everything meets chooses everything.
proof fn filter_all<A>(s: Seq<A>, keep: spec_fn(A) -> bool)
    requires
        forall|x: A| #[trigger] keep(x),
    ensures
        s.filter(keep) == s,
    decreases s.len(),
{
    if s.len() == 0 {
        reveal(Seq::filter);
        assert(s.filter(keep) =~= s);
    } else {
        filter_all(s.drop_last(), keep);
        filter_push(s.drop_last(), s.last(), keep);
        assert(s.drop_last().push(s.last()) =~= s);
    }
}

/// Choosing by a wider condition first changes nothing.
pub proof fn filter_within<A>(s: Seq<A>, wide: spec_fn(A) -> bool, keep: spec_fn(A) -> bool)
    requires
        forall|x: A| #[trigger] keep(x) ==> wide(x),
    ensures
        s.filter(wide).filter(keep) == s.filter(keep),
    decreases s.len(),
{
    if s.len() == 0 {
        reveal(Seq::filter);
        assert(s.filter(wide) =~= s);
    } else {
        let front = s.drop_last();
        let x = s.last();
        filter_within(front, wide, keep);
        assert(front.push(x) =~= s);
        filter_push(front, x, wide);
        filter_push(front, x, keep);
        filter_push(front.filter(wide), x, keep);
    }
}

/// Where in `b` the last element of `a` stands, and that the rest is a permutation
/// too.
pub proof fn permuted_position<A>(a: Seq<A>, b: Seq<A>) -> (i: int)
    requires
        a.to_multiset() == b.to_multiset(),
        a.len() > 0,
    ensures
        0 <= i < b.len(),
        b[i] == a.last(),
        a.drop_last().to_multiset() == b.remove(i).to_multiset(),
{
    broadcast use vstd::seq_lib::group_to_multiset_ensures;

    let x = a.last();
    assert(a.contains(x)) by {
        assert(a[a.len() - 1] == x);
    }
    assert(a.to_multiset().count(x) > 0);
    assert(b.contains(x));
    let i = b.index_of(x);
    vstd::seq_lib::to_multiset_remove(b, i);
    vstd::seq_lib::to_multiset_remove(a, a.len() - 1);
    assert(a.remove(a.len() - 1) =~= a.drop_last());
    i
}

} // verus!
