//! The order in which findings are reported: the riskiest archive first.

use crate::finding::ArchiveFinding;
use crate::order::{char_codes, is_before};
use crate::order::{
    codes, codes_identify, lex_before, lex_is_asymmetric, lex_is_total, lex_is_transitive,
};
use vstd::prelude::*;

verus! {

/// Whether `x` is reported before `y`: it scores higher; or it scores the same and
/// expands further; or both are the same and its path comes first.
pub open spec fn ranks_before(x: ArchiveFinding, y: ArchiveFinding) -> bool {
    ||| x.risk_score > y.risk_score
    ||| x.risk_score == y.risk_score && {
        let a = x.max_expansion_ratio.value.total_place();
        let b = y.max_expansion_ratio.value.total_place();
        ||| a > b
        ||| a == b && lex_before(codes(x.archive_path@), codes(y.archive_path@))
    }
}

/// Whether nothing decides which of `x` and `y` is reported first.
pub open spec fn ranks_level(x: ArchiveFinding, y: ArchiveFinding) -> bool {
    &&& x.risk_score == y.risk_score
    &&& x.max_expansion_ratio.value.total_place() == y.max_expansion_ratio.value.total_place()
    &&& x.archive_path@ == y.archive_path@
}

/// Whether no finding is reported after one that ranks behind it.
pub open spec fn in_order(rows: Seq<ArchiveFinding>) -> bool {
    forall|i: int, j: int| 0 <= i < j < rows.len() ==> !ranks_before(
        #[trigger] rows[j],
        #[trigger] rows[i],
    )
}

/// The findings that rank level with `x`, in the order in which they stand.
pub open spec fn level_with(x: ArchiveFinding, rows: Seq<ArchiveFinding>) -> Seq<ArchiveFinding> {
    rows.filter(|y: ArchiveFinding| ranks_level(x, y))
}

/// Of any two findings exactly one ranks before the other, or they rank level.
pub proof fn ranking_is_total(x: ArchiveFinding, y: ArchiveFinding)
    ensures
        ranks_before(x, y) || ranks_level(x, y) || ranks_before(y, x),
        !(ranks_before(x, y) && ranks_before(y, x)),
        !(ranks_before(x, y) && ranks_level(x, y)),
{
    let a = codes(x.archive_path@);
    let b = codes(y.archive_path@);
    lex_is_total(a, b);
    lex_is_asymmetric(a, b);
    codes_identify(x.archive_path@, y.archive_path@);
}

/// Ranking before is transitive, and level findings can stand for each other.
pub proof fn ranking_is_transitive(x: ArchiveFinding, y: ArchiveFinding, z: ArchiveFinding)
    ensures
        ranks_before(x, y) && ranks_before(y, z) ==> ranks_before(x, z),
        ranks_before(x, y) && ranks_level(y, z) ==> ranks_before(x, z),
        ranks_level(x, y) && ranks_before(y, z) ==> ranks_before(x, z),
        ranks_level(x, y) && ranks_level(y, z) ==> ranks_level(x, z),
{
    let a = codes(x.archive_path@);
    let b = codes(y.archive_path@);
    let c = codes(z.archive_path@);
    if lex_before(a, b) && lex_before(b, c) {
        lex_is_transitive(a, b, c);
    }
}

/// Whether `x` is reported before `y`.
pub fn is_ranked_before(x: &ArchiveFinding, y: &ArchiveFinding) -> (r: bool)
    ensures
        r == ranks_before(*x, *y),
{
    if x.risk_score != y.risk_score {
        return x.risk_score > y.risk_score;
    }
    let a: i64 = x.max_expansion_ratio.value.read_total_place();
    let b: i64 = y.max_expansion_ratio.value.read_total_place();
    if a != b {
        return a > b;
    }
    let left = char_codes(x.archive_path.as_str());
    let right = char_codes(y.archive_path.as_str());
    is_before(left.as_slice(), right.as_slice())
}

/// Putting `x` behind all that rank before it keeps findings in order.
proof fn insertion_keeps_order(rows: Seq<ArchiveFinding>, at: int, x: ArchiveFinding)
    requires
        in_order(rows),
        0 <= at <= rows.len(),
        forall|i: int| 0 <= i < at ==> ranks_before(#[trigger] rows[i], x),
        at < rows.len() ==> !ranks_before(rows[at], x),
    ensures
        in_order(rows.insert(at, x)),
{
    let more = rows.insert(at, x);
    assert forall|i: int, j: int| 0 <= i < j < more.len() implies !ranks_before(
        #[trigger] more[j],
        #[trigger] more[i],
    ) by {
        if i < at && j == at {
            ranking_is_total(rows[i], x);
        } else if i == at {
            // `j` stood at `j - 1`, no earlier than the first that `x` was put before.
            let y = rows[j - 1];
            let first = rows[at];
            ranking_is_total(first, x);
            ranking_is_transitive(y, x, first);
            if at < j - 1 {
                assert(!ranks_before(rows[j - 1], rows[at]));
            }
        } else if i < at && at < j {
            assert(!ranks_before(rows[j - 1], rows[i]));
        } else if at < i {
            assert(!ranks_before(rows[j - 1], rows[i - 1]));
        }
    }
}

/// Putting `x` behind all that rank before it puts it in front of those that rank
/// level with it, and moves no others.
proof fn insertion_keeps_levels(
    rows: Seq<ArchiveFinding>,
    at: int,
    x: ArchiveFinding,
    probe: ArchiveFinding,
)
    requires
        0 <= at <= rows.len(),
        forall|i: int| 0 <= i < at ==> ranks_before(#[trigger] rows[i], x),
    ensures
        level_with(probe, rows.insert(at, x)) == level_with(probe, seq![x]) + level_with(
            probe,
            rows,
        ),
{
    let keep = |y: ArchiveFinding| ranks_level(probe, y);
    let front = rows.take(at);
    let back = rows.skip(at);
    assert(rows =~= front + back);
    assert(rows.insert(at, x) =~= front + seq![x] + back);
    Seq::filter_distributes_over_add(front, back, keep);
    Seq::filter_distributes_over_add(front + seq![x], back, keep);
    Seq::filter_distributes_over_add(front, seq![x], keep);
    if ranks_level(probe, x) {
        assert forall|i: int| 0 <= i < front.len() implies !keep(#[trigger] front[i]) by {
            assert(front[i] == rows[i]);
            ranking_is_total(rows[i], x);
            if ranks_level(probe, rows[i]) {
                assert(ranks_level(rows[i], x));
            }
        }
        front.lemma_all_neg_filter_empty(keep);
        assert(front.filter(keep) =~= Seq::<ArchiveFinding>::empty());
    } else {
        reveal_with_fuel(Seq::<_>::filter, 2);
        assert(seq![x].drop_last() =~= Seq::<ArchiveFinding>::empty());
        assert(seq![x].filter(keep) =~= Seq::<ArchiveFinding>::empty());
    }
    assert(level_with(probe, rows.insert(at, x)) =~= level_with(probe, seq![x]) + level_with(
        probe,
        rows,
    ));
}

/// The findings in the order in which they are reported. Findings that rank level
/// stay in the order in which they came.
pub fn sort_findings(rows: Vec<ArchiveFinding>) -> (sorted: Vec<ArchiveFinding>)
    ensures
        in_order(sorted@),
        forall|x: ArchiveFinding| #[trigger] level_with(x, sorted@) == level_with(x, rows@),
        sorted@.to_multiset() == rows@.to_multiset(),
        sorted@.len() == rows@.len(),
{
    let ghost all = rows@;
    let mut rest = rows;
    let mut sorted: Vec<ArchiveFinding> = Vec::new();
    proof {
        assert(all.skip(all.len() as int) =~= sorted@);
    }
    while rest.len() > 0
        invariant
            rest@.len() <= all.len(),
            rest@ == all.take(rest@.len() as int),
            in_order(sorted@),
            sorted@.len() + rest@.len() == all.len(),
            forall|x: ArchiveFinding| #[trigger]
                level_with(x, sorted@) == level_with(x, all.skip(rest@.len() as int)),
            sorted@.to_multiset() == all.skip(rest@.len() as int).to_multiset(),
        decreases rest@.len(),
    {
        let ghost n = rest@.len() as int;
        match rest.pop() {
            None => {},
            Some(x) => {
                let mut at: usize = 0;
                while at < sorted.len() && is_ranked_before(&sorted[at], &x)
                    invariant
                        at <= sorted@.len(),
                        forall|i: int| 0 <= i < at ==> ranks_before(#[trigger] sorted@[i], x),
                    decreases sorted@.len() - at,
                {
                    at = at + 1;
                }
                let ghost before = sorted@;
                proof {
                    insertion_keeps_order(before, at as int, x);
                    assert(x == all[n - 1]);
                    assert(all.skip(n - 1) =~= seq![x] + all.skip(n));
                    assert forall|probe: ArchiveFinding| #[trigger]
                        level_with(probe, before.insert(at as int, x)) == level_with(
                            probe,
                            all.skip(n - 1),
                        ) by {
                        insertion_keeps_levels(before, at as int, x, probe);
                        Seq::filter_distributes_over_add(
                            seq![x],
                            all.skip(n),
                            |y: ArchiveFinding| ranks_level(probe, y),
                        );
                        assert(level_with(probe, before) == level_with(probe, all.skip(n)));
                    }
                    assert(all.skip(n - 1) =~= all.skip(n).insert(0, x));
                    vstd::seq_lib::to_multiset_insert(before, at as int, x);
                    vstd::seq_lib::to_multiset_insert(all.skip(n), 0, x);
                }
                sorted.insert(at, x);
            },
        }
    }
    assert(all.skip(0) =~= all);
    sorted
}

} // verus!
