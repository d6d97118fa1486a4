//! What holds of every report: the riskiest archive comes first, the order is
//! settled, and no vertical bar of a path goes unescaped.

use crate::finding::ArchiveFinding;
use crate::ranking::{
    in_order, level_with, ranking_is_total, ranking_is_transitive, ranks_before, ranks_level,
};
use crate::report::escaped;
use vstd::prelude::*;

verus! {

/// No archive is reported behind one with a lower score.
pub proof fn riskiest_first(rows: Seq<ArchiveFinding>, i: int, j: int)
    requires
        in_order(rows),
        0 <= i < j < rows.len(),
    ensures
        rows[i].risk_score >= rows[j].risk_score,
{
    assert(!ranks_before(rows[j], rows[i]));
}

/// The archives with a score are all reported before those without.
pub proof fn flagged_come_first(rows: Seq<ArchiveFinding>, i: int, j: int)
    requires
        in_order(rows),
        0 <= i < j < rows.len(),
        rows[j].risk_score > 0,
    ensures
        rows[i].risk_score > 0,
{
    riskiest_first(rows, i, j);
}

/// What ranks level with a finding that is there is found.
proof fn level_with_self(rows: Seq<ArchiveFinding>, i: int)
    requires
        0 <= i < rows.len(),
    ensures
        level_with(rows[i], rows).len() > 0,
{
    let keep = |y: ArchiveFinding| ranks_level(rows[i], y);
    assert(keep(rows[i]));
    rows.lemma_filter_contains(keep, i);
}

/// What ranks level with `x` is somewhere in the rows.
proof fn level_is_there(x: ArchiveFinding, rows: Seq<ArchiveFinding>) -> (i: int)
    requires
        level_with(x, rows).len() > 0,
    ensures
        0 <= i < rows.len(),
        ranks_level(x, rows[i]),
{
    let keep = |y: ArchiveFinding| ranks_level(x, y);
    let y = level_with(x, rows)[0];
    rows.lemma_filter_pred(keep, 0);
    assert(level_with(x, rows).contains(y));
    rows.lemma_filter_contains_rev(keep, y);
    rows.index_of(y)
}

/// The first row comes first among those that rank level with it, if it ranks level
/// with `x`; the rest follow.
proof fn level_with_first(x: ArchiveFinding, rows: Seq<ArchiveFinding>)
    requires
        rows.len() > 0,
    ensures
        level_with(x, rows) == if ranks_level(x, rows[0]) {
            seq![rows[0]] + level_with(x, rows.drop_first())
        } else {
            level_with(x, rows.drop_first())
        },
{
    let keep = |y: ArchiveFinding| ranks_level(x, y);
    let first = seq![rows[0]];
    let rest = rows.drop_first();
    assert(rows =~= first + rest);
    Seq::filter_distributes_over_add(first, rest, keep);
    reveal_with_fuel(Seq::<_>::filter, 2);
    assert(first.drop_last() =~= Seq::<ArchiveFinding>::empty());
    if keep(rows[0]) {
        assert(first.filter(keep) =~= first);
    } else {
        assert(first.filter(keep) =~= Seq::<ArchiveFinding>::empty());
        assert(first.filter(keep) + level_with(x, rest) =~= level_with(x, rest));
    }
}

/// No row of one report ranks before the first row of the other.
proof fn nothing_ranks_before_first(a: Seq<ArchiveFinding>, b: Seq<ArchiveFinding>)
    requires
        in_order(a),
        forall|x: ArchiveFinding| #[trigger] level_with(x, a) == level_with(x, b),
        a.len() > 0,
        b.len() > 0,
    ensures
        !ranks_before(b[0], a[0]),
{
    level_with_self(b, 0);
    assert(level_with(b[0], a) == level_with(b[0], b));
    let k = level_is_there(b[0], a);
    if ranks_before(b[0], a[0]) {
        // Then the row of `a` that ranks level with `b[0]` ranks before `a[0]` too.
        assert(ranks_level(a[k], b[0]));
        ranking_is_transitive(a[k], b[0], a[0]);
        ranking_is_total(a[0], a[0]);
        if k > 0 {
            assert(!ranks_before(a[k], a[0]));
        }
    }
}

/// The order of a report is settled: findings in order, with those that rank level
/// in the order in which they came, can stand in one way only.
pub proof fn order_is_determined(a: Seq<ArchiveFinding>, b: Seq<ArchiveFinding>)
    requires
        in_order(a),
        in_order(b),
        forall|x: ArchiveFinding| #[trigger] level_with(x, a) == level_with(x, b),
    ensures
        a == b,
    decreases a.len(),
{
    if a.len() == 0 {
        if b.len() > 0 {
            level_with_self(b, 0);
            assert(level_with(b[0], a) == level_with(b[0], b));
            let k = level_is_there(b[0], a);
        }
        assert(a =~= b);
    } else {
        level_with_self(a, 0);
        assert(level_with(a[0], a) == level_with(a[0], b));
        let k = level_is_there(a[0], b);
        nothing_ranks_before_first(a, b);
        assert forall|x: ArchiveFinding| #[trigger] level_with(x, b) == level_with(x, a) by {
            assert(level_with(x, a) == level_with(x, b));
        }
        nothing_ranks_before_first(b, a);
        ranking_is_total(a[0], b[0]);
        assert(ranks_level(a[0], b[0]));
        level_with_first(a[0], a);
        level_with_first(a[0], b);
        assert(level_with(a[0], a)[0] == a[0]);
        assert(level_with(a[0], b)[0] == b[0]);
        let x = a.drop_first();
        let y = b.drop_first();
        assert forall|i: int, j: int| 0 <= i < j < x.len() implies !ranks_before(
            #[trigger] x[j],
            #[trigger] x[i],
        ) by {
            assert(!ranks_before(a[j + 1], a[i + 1]));
        }
        assert forall|i: int, j: int| 0 <= i < j < y.len() implies !ranks_before(
            #[trigger] y[j],
            #[trigger] y[i],
        ) by {
            assert(!ranks_before(b[j + 1], b[i + 1]));
        }
        assert forall|probe: ArchiveFinding| #[trigger] level_with(probe, x) == level_with(
            probe,
            y,
        ) by {
            level_with_first(probe, a);
            level_with_first(probe, b);
            assert(level_with(probe, a) == level_with(probe, b));
            if ranks_level(probe, a[0]) {
                assert((seq![a[0]] + level_with(probe, x)).drop_first() =~= level_with(probe, x));
                assert((seq![b[0]] + level_with(probe, y)).drop_first() =~= level_with(probe, y));
            }
        }
        order_is_determined(x, y);
        assert(a =~= seq![a[0]] + x);
        assert(b =~= seq![b[0]] + y);
    }
}

/// In an escaped text every vertical bar stands behind a backslash.
pub proof fn bars_are_guarded(s: Seq<char>, i: int)
    requires
        0 <= i < escaped(s).len(),
        escaped(s)[i] == '|',
    ensures
        i > 0,
        escaped(s)[i - 1] == '\\',
    decreases s.len(),
{
    let before = escaped(s.drop_last());
    if i < before.len() {
        bars_are_guarded(s.drop_last(), i);
    }
}

/// The last character of an escaped text is that of the text.
proof fn escaping_keeps_last(s: Seq<char>)
    ensures
        escaped(s).len() == 0 <==> s.len() == 0,
        s.len() > 0 ==> escaped(s).last() == s.last(),
{
}

/// Escaping loses nothing: different texts have different escaped forms.
pub proof fn escaping_is_injective(a: Seq<char>, b: Seq<char>)
    requires
        escaped(a) == escaped(b),
    ensures
        a == b,
    decreases a.len(),
{
    escaping_keeps_last(a);
    escaping_keeps_last(b);
    if a.len() == 0 {
        assert(a =~= b);
    } else {
        let x = escaped(a.drop_last());
        let y = escaped(b.drop_last());
        if a.last() == '|' {
            assert(escaped(a).drop_last().drop_last() =~= x);
            assert(escaped(b).drop_last().drop_last() =~= y);
        } else {
            assert(escaped(a).drop_last() =~= x);
            assert(escaped(b).drop_last() =~= y);
        }
        escaping_is_injective(a.drop_last(), b.drop_last());
        assert(a =~= a.drop_last().push(a.last()));
        assert(b =~= b.drop_last().push(b.last()));
    }
}

} // verus!
