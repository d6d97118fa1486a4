//! What holds of every survey: no hazard goes uncounted, more entries make no count
//! smaller, and the order of the entries does not matter.

use crate::archive::EntryView;
use crate::finding::{
    all_clear, checks, finding_of, score, score_shows_failure, signals, MeasuresView,
};
use crate::lists::{
    chosen_of_permutation, filter_len_of_permutation, filter_push, filter_within,
    mapped_permutation, permuted_position,
};
use crate::number::{greatest, greatest_crosses, greatest_ignores_order, Binary64};
use crate::path::{absolute, archive_like, climbs, executable_like, Host};
use crate::path_laws::normalization_keeps_traversal;
use crate::survey::{
    expansion_of, file_lists_push, file_paths, files, inner_path, is_nested, is_payload, is_repeated,
    is_rooted, is_traversal, repeated, repeated_push, slashed, total_compressed, total_uncompressed, Fraction,
    Survey,
};
use vstd::prelude::*;

verus! {

/// Whether an entry is a hazard of its own on a host: a file that by the name it has
/// in the archive climbs or is absolute, or by the path it comes to can be run or is
/// an archive.
pub open spec fn is_hazard(entry: EntryView, host: Host) -> bool {
    let name = slashed(entry.name);
    let path = inner_path(entry);
    !entry.is_dir && (climbs(name) || absolute(name) || executable_like(path, host)
        || archive_like(path, host))
}

/// What meets a condition is counted among what does.
proof fn chosen_is_counted(entries: Seq<EntryView>, k: int, keep: spec_fn(EntryView) -> bool)
    requires
        0 <= k < entries.len(),
        keep(entries[k]),
    ensures
        entries.filter(keep).len() > 0,
{
    entries.lemma_filter_contains(keep, k);
}

/// An archive with a file that climbs, is absolute, can be run or is an archive has a
/// score, and is not called clear.
pub proof fn every_hazard_is_flagged(
    entries: Seq<EntryView>,
    k: int,
    survey: Survey,
    measures: MeasuresView,
    host: Host,
)
    requires
        survey.describes(entries, host),
        0 <= k < entries.len(),
        is_hazard(entries[k], host),
    ensures
        score(checks(survey, measures)) > 0,
        signals(checks(survey, measures)) != seq![all_clear()],
{
    let entry = entries[k];
    let name = slashed(entry.name);
    normalization_keeps_traversal(name);
    score_shows_failure(survey, measures);
    let all = checks(survey, measures);
    if climbs(name) {
        chosen_is_counted(entries, k, |e: EntryView| is_traversal(e));
        assert(all[0].failed);
    } else if absolute(name) {
        chosen_is_counted(entries, k, |e: EntryView| is_rooted(e));
        assert(all[1].failed);
    } else if executable_like(inner_path(entry), host) {
        chosen_is_counted(entries, k, |e: EntryView| is_payload(e, host));
        assert(all[3].failed);
    } else {
        chosen_is_counted(entries, k, |e: EntryView| is_nested(e, host));
        assert(all[4].failed);
    }
}

/// An archive in which two files come to the same path has a score.
pub proof fn every_duplicate_is_flagged(
    entries: Seq<EntryView>,
    i: int,
    j: int,
    survey: Survey,
    measures: MeasuresView,
    host: Host,
)
    requires
        survey.describes(entries, host),
        0 <= i < j < files(entries).len(),
        inner_path(files(entries)[i]) == inner_path(files(entries)[j]),
    ensures
        score(checks(survey, measures)) > 0,
{
    let paths = file_paths(entries);
    let path = paths[i];
    assert(paths[j] == path);
    assert(is_repeated(paths, path));
    assert(paths.contains(path));
    repeated_push(paths, path);
    assert(repeated(paths).contains(path));
    assert(repeated(paths).len() > 0);
    score_shows_failure(survey, measures);
    assert(checks(survey, measures)[2].failed);
}

/// An archive in which one file expands up to the threshold or beyond has a score.
pub proof fn every_expansion_is_flagged(
    ratios: Seq<Binary64>,
    k: int,
    survey: Survey,
    measures: MeasuresView,
)
    requires
        measures.max_ratio.value == greatest(ratios),
        0 <= k < ratios.len(),
        ratios[k].ge(measures.ratio_threshold.value),
    ensures
        score(checks(survey, measures)) > 0,
{
    greatest_crosses(ratios, k, measures.ratio_threshold.value);
    score_shows_failure(survey, measures);
    assert(checks(survey, measures)[5].failed);
}

/// Two files share a path exactly if there are fewer paths than files.
pub proof fn duplicates_show_in_the_count(entries: Seq<EntryView>)
    ensures
        repeated(file_paths(entries)).len() == 0 <==> file_paths(entries).to_set().len() == files(
            entries,
        ).len(),
        repeated(file_paths(entries)).len() <= file_paths(entries).to_set().len() <= files(
            entries,
        ).len(),
{
    let paths = file_paths(entries);
    repeated_push(paths, Seq::empty());
    if repeated(paths).len() == 0 {
        assert forall|i: int, j: int| 0 <= i < paths.len() && 0 <= j < paths.len() && i
            != j implies paths[i] != paths[j] by {
            if paths[i] == paths[j] {
                let (low, high) = if i < j {
                    (i, j)
                } else {
                    (j, i)
                };
                assert(paths[low] == paths[i] && paths[high] == paths[i]);
                assert(is_repeated(paths, paths[i]));
                assert(paths.contains(paths[i]));
                assert(repeated(paths).contains(paths[i]));
            }
        }
        paths.unique_seq_to_set();
    }
    if paths.to_set().len() == paths.len() {
        paths.lemma_no_dup_set_cardinality();
        assert(repeated(paths) =~= Set::<Seq<char>>::empty());
    }
}

/// With one more entry no count and no total gets smaller.
pub proof fn counts_never_shrink(
    entries: Seq<EntryView>,
    entry: EntryView,
    before: Survey,
    after: Survey,
    host: Host,
)
    requires
        before.describes(entries, host),
        after.describes(entries.push(entry), host),
    ensures
        before.traversal_entries <= after.traversal_entries,
        before.absolute_path_entries <= after.absolute_path_entries,
        before.executable_entries <= after.executable_entries,
        before.nested_archives <= after.nested_archives,
        before.entry_count <= after.entry_count,
        before.duplicate_paths <= after.duplicate_paths,
        before.total_compressed_bytes <= after.total_compressed_bytes,
        before.total_uncompressed_bytes <= after.total_uncompressed_bytes,
{
    filter_push(entries, entry, |e: EntryView| is_traversal(e));
    filter_push(entries, entry, |e: EntryView| is_rooted(e));
    filter_push(entries, entry, |e: EntryView| is_payload(e, host));
    filter_push(entries, entry, |e: EntryView| is_nested(e, host));
    file_lists_push(entries, entry);
    repeated_push(file_paths(entries), inner_path(entry));
    assert(entries.push(entry).drop_last() =~= entries);
}

/// Whether an entry is a file that comes to `path`.
spec fn comes_to(entry: EntryView, path: Seq<char>) -> bool {
    !entry.is_dir && inner_path(entry) == path
}

/// How often a path occurs is how many files come to it.
proof fn occurrences(entries: Seq<EntryView>, path: Seq<char>)
    ensures
        file_paths(entries).contains(path) <==> entries.filter(
            |e: EntryView| comes_to(e, path),
        ).len() >= 1,
        is_repeated(file_paths(entries), path) <==> entries.filter(
            |e: EntryView| comes_to(e, path),
        ).len() >= 2,
    decreases entries.len(),
{
    let keep = |e: EntryView| comes_to(e, path);
    if entries.len() == 0 {
        reveal(Seq::filter);
        assert(file_paths(entries).len() == 0);
    } else {
        let front = entries.drop_last();
        let last = entries.last();
        occurrences(front, path);
        assert(front.push(last) =~= entries);
        filter_push(front, last, keep);
        file_lists_push(front, last);
        if !last.is_dir {
            let paths = file_paths(front);
            repeated_push(paths, inner_path(last));
            assert(file_paths(entries) == paths.push(inner_path(last)));
            assert(is_repeated(paths.push(inner_path(last)), path) <==> is_repeated(paths, path)
                || (path == inner_path(last) && paths.contains(inner_path(last))));
            assert(paths.push(inner_path(last)).contains(path) <==> paths.contains(path) || path
                == inner_path(last)) by {
                let more = paths.push(inner_path(last));
                if paths.contains(path) {
                    assert(more[paths.index_of(path)] == path);
                }
                if path == inner_path(last) {
                    assert(more[paths.len() as int] == path);
                }
                if more.contains(path) && path != inner_path(last) {
                    let i = more.index_of(path);
                    assert(paths[i] == path);
                }
            }
        }
    }
}

/// Total sizes of two lists add up to those of the two together.
proof fn totals_add(a: Seq<EntryView>, b: Seq<EntryView>)
    ensures
        total_compressed(a + b) == total_compressed(a) + total_compressed(b),
        total_uncompressed(a + b) == total_uncompressed(a) + total_uncompressed(b),
    decreases b.len(),
{
    if b.len() == 0 {
        assert(a + b =~= a);
    } else {
        totals_add(a, b.drop_last());
        assert((a + b).drop_last() =~= a + b.drop_last());
    }
}

/// Total sizes do not depend on the order.
proof fn totals_of_permutation(a: Seq<EntryView>, b: Seq<EntryView>)
    requires
        a.to_multiset() == b.to_multiset(),
    ensures
        total_compressed(a) == total_compressed(b),
        total_uncompressed(a) == total_uncompressed(b),
    decreases a.len(),
{
    broadcast use vstd::seq_lib::group_to_multiset_ensures;

    assert(a.len() == a.to_multiset().len());
    assert(b.len() == b.to_multiset().len());
    if a.len() == 0 {
        assert(a =~= b);
    } else {
        let i = permuted_position(a, b);
        totals_of_permutation(a.drop_last(), b.remove(i));
        let front = b.take(i);
        let back = b.skip(i + 1);
        assert(b =~= front.push(b[i]) + back);
        assert(b.remove(i) =~= front + back);
        assert(front.push(b[i]).drop_last() =~= front);
        totals_add(front.push(b[i]), back);
        totals_add(front, back);
    }
}

/// The order in which an archive lists its entries makes no difference to any count
/// or total, nor to how far its files expand but for the order in which that is told.
pub proof fn entry_order_never_matters(
    a: Seq<EntryView>,
    b: Seq<EntryView>,
    one: Survey,
    other: Survey,
    host: Host,
)
    requires
        a.to_multiset() == b.to_multiset(),
        one.describes(a, host),
        other.describes(b, host),
    ensures
        one.traversal_entries == other.traversal_entries,
        one.absolute_path_entries == other.absolute_path_entries,
        one.executable_entries == other.executable_entries,
        one.nested_archives == other.nested_archives,
        one.entry_count == other.entry_count,
        one.duplicate_paths == other.duplicate_paths,
        one.total_compressed_bytes == other.total_compressed_bytes,
        one.total_uncompressed_bytes == other.total_uncompressed_bytes,
        one.archive_ratio == other.archive_ratio,
        one.ratios@.to_multiset() == other.ratios@.to_multiset(),
{
    filter_len_of_permutation(a, b, |e: EntryView| is_traversal(e));
    filter_len_of_permutation(a, b, |e: EntryView| is_rooted(e));
    filter_len_of_permutation(a, b, |e: EntryView| is_payload(e, host));
    filter_len_of_permutation(a, b, |e: EntryView| is_nested(e, host));
    totals_of_permutation(a, b);
    chosen_of_permutation(
        a,
        b,
        |e: EntryView| !e.is_dir,
        |e: EntryView| expansion_of(e.compressed, e.uncompressed),
    );
    let p = file_paths(a);
    let q = file_paths(b);
    assert forall|path: Seq<char>|
        p.contains(path) == q.contains(path) && is_repeated(p, path) == is_repeated(q, path) by {
        occurrences(a, path);
        occurrences(b, path);
        filter_len_of_permutation(a, b, |e: EntryView| comes_to(e, path));
    }
    assert(p.to_set() =~= q.to_set());
    assert(repeated(p) =~= repeated(q));
}

/// Taking out the directories changes no total.
proof fn totals_of_files(entries: Seq<EntryView>)
    ensures
        total_compressed(files(entries)) == total_compressed(entries),
        total_uncompressed(files(entries)) == total_uncompressed(entries),
    decreases entries.len(),
{
    if entries.len() == 0 {
        reveal(Seq::filter);
        assert(files(entries) =~= entries);
    } else {
        let front = entries.drop_last();
        totals_of_files(front);
        assert(front.push(entries.last()) =~= entries);
        filter_push(front, entries.last(), |entry: EntryView| !entry.is_dir);
        if !entries.last().is_dir {
            assert(files(entries).drop_last() =~= files(front));
        }
    }
}

/// Directories count for nothing: the survey of an archive is that of its files.
pub proof fn directories_count_for_nothing(entries: Seq<EntryView>, survey: Survey, host: Host)
    ensures
        survey.describes(entries, host) <==> survey.describes(files(entries), host),
{
    let file = |entry: EntryView| !entry.is_dir;
    filter_within(entries, file, |e: EntryView| is_traversal(e));
    filter_within(entries, file, |e: EntryView| is_rooted(e));
    filter_within(entries, file, |e: EntryView| is_payload(e, host));
    filter_within(entries, file, |e: EntryView| is_nested(e, host));
    filter_within(entries, file, file);
    assert(files(files(entries)) == files(entries));
    totals_of_files(entries);
}

/// Two archives with the same files, in whatever order and with whatever directories
/// among them, come to the same counts, totals and ratios, these but for their order.
pub proof fn only_files_matter(
    a: Seq<EntryView>,
    b: Seq<EntryView>,
    one: Survey,
    other: Survey,
    host: Host,
)
    requires
        files(a).to_multiset() == files(b).to_multiset(),
        one.describes(a, host),
        other.describes(b, host),
    ensures
        one.traversal_entries == other.traversal_entries,
        one.absolute_path_entries == other.absolute_path_entries,
        one.executable_entries == other.executable_entries,
        one.nested_archives == other.nested_archives,
        one.entry_count == other.entry_count,
        one.duplicate_paths == other.duplicate_paths,
        one.total_compressed_bytes == other.total_compressed_bytes,
        one.total_uncompressed_bytes == other.total_uncompressed_bytes,
        one.archive_ratio == other.archive_ratio,
        one.ratios@.to_multiset() == other.ratios@.to_multiset(),
{
    directories_count_for_nothing(a, one, host);
    directories_count_for_nothing(b, other, host);
    entry_order_never_matters(files(a), files(b), one, other, host);
}

/// What a survey is measured by: the greatest of its ratios, each divided out by
/// `divide`, the ratio of the archive and the uncompressed size.
pub open spec fn measured(
    survey: Survey,
    divide: spec_fn(Fraction) -> Binary64,
    measure: spec_fn(Binary64, Fraction, u64) -> MeasuresView,
) -> MeasuresView {
    measure(
        greatest(survey.ratios@.map_values(divide)),
        survey.archive_ratio,
        survey.total_uncompressed_bytes,
    )
}

/// Two archives with the same files, in whatever order and with whatever directories
/// among them, get findings that agree in everything but the path of the archive: they
/// are measured alike, however ratios are divided out and whatever thresholds
/// `measure` sets, and held against the same measures they come to the same.
pub proof fn same_files_same_finding(
    a: Seq<EntryView>,
    b: Seq<EntryView>,
    one: Survey,
    other: Survey,
    host: Host,
    divide: spec_fn(Fraction) -> Binary64,
    measure: spec_fn(Binary64, Fraction, u64) -> MeasuresView,
    path: Seq<char>,
)
    requires
        files(a).to_multiset() == files(b).to_multiset(),
        one.describes(a, host),
        other.describes(b, host),
    ensures
        measured(one, divide, measure) == measured(other, divide, measure),
        finding_of(path, one, measured(one, divide, measure)) == finding_of(
            path,
            other,
            measured(other, divide, measure),
        ),
        forall|measures: MeasuresView| #[trigger]
            finding_of(path, one, measures) == finding_of(path, other, measures),
{
    only_files_matter(a, b, one, other, host);
    mapped_permutation(one.ratios@, other.ratios@, divide);
    greatest_ignores_order(one.ratios@.map_values(divide), other.ratios@.map_values(divide));
    assert forall|measures: MeasuresView| #[trigger]
        finding_of(path, one, measures) == finding_of(path, other, measures) by {
        assert(checks(one, measures) =~= checks(other, measures));
    }
}

} // verus!
