//! How an archive is surveyed and judged, told entry by entry and hazard by hazard.

use crate::archive::{
    entry_views, found_entries, read_view, reads_as, ArchiveEntry, EntryOutcome, EntryView,
    ReadFailure,
};
use crate::finding::{
    all_clear, checks, failed_texts, failed_weight, finding_of, ArchiveFinding, Check, Measures,
};
use crate::lists::filter_push;
use crate::path::{absolute, archive_like, climbs, executable_like, normalized, Host};
use crate::survey::{
    directory_of, file_lists_push, file_paths, is_nested, is_payload, is_repeated, is_rooted,
    is_traversal, repeated, repeated_push, total_compressed, total_uncompressed, totals_fit, Fraction,
    Survey,
};
use crate::text::{decimal_of, replaced, texts};
use vstd::prelude::*;

verus! {

/// An archive that can be opened is read entry by entry: all of them in order if each
/// can be looked up, else nothing but the failure of the first that cannot.
pub proof fn reading_by_entries(
    path: Seq<char>,
    outcomes: Seq<EntryOutcome>,
    read: Result<Vec<ArchiveEntry>, ReadFailure>,
    k: int,
)
    requires
        reads_as(path, Ok(outcomes), read_view(read)),
    ensures
        (forall|j: int| 0 <= j < outcomes.len() ==> #[trigger] outcomes[j] is Found) ==> {
            &&& read is Ok
            &&& read->Ok_0@.len() == outcomes.len()
            &&& 0 <= k < outcomes.len() ==> {
                &&& read->Ok_0@[k].is_dir == outcomes[k]->Found_0.is_dir
                &&& read->Ok_0@[k].name@ == outcomes[k]->Found_0.name
                &&& read->Ok_0@[k].compressed == outcomes[k]->Found_0.compressed
                &&& read->Ok_0@[k].uncompressed == outcomes[k]->Found_0.uncompressed
            }
        },
        0 <= k < outcomes.len() && outcomes[k] !is Found && (forall|j: int|
            0 <= j < k ==> #[trigger] outcomes[j] is Found) ==> {
            &&& read is Err
            &&& outcomes[k] matches EntryOutcome::Refused(error) ==> {
                &&& read->Err_0 is Message
                &&& read->Err_0->Message_0@ == "Could not inspect entry "@ + decimal_of(k as nat)
                    + " in "@ + path + ": "@ + error
            }
            &&& outcomes[k] is Locked ==> read->Err_0 is Locked && read->Err_0->Locked_0 == k
        },
{
    if let Ok(entries) = read {
        let views = entry_views(entries@);
        assert(views == found_entries(outcomes));
        assert(views.len() == entries@.len());
        if 0 <= k < outcomes.len() {
            assert(outcomes[k] is Found);
            assert(views[k] == entries@[k]@);
            assert(views[k] == outcomes[k]->Found_0);
        }
    } else {
        assert forall|i: int| #[trigger] crate::archive::first_unfound(outcomes, i) && 0 <= k
            < outcomes.len() && outcomes[k] !is Found && (forall|j: int|
            0 <= j < k ==> #[trigger] outcomes[j] is Found) implies i == k by {
            if i < k {
                assert(outcomes[i] is Found);
            }
            if k < i {
                assert(outcomes[k] is Found);
            }
        }
        assert forall|i: int| #[trigger] crate::archive::first_unfound(
            outcomes,
            i,
        ) implies 0 <= i < outcomes.len() && !(outcomes[i] is Found) by {
        }
    }
}

/// An archive that cannot be opened, or whose file is refused, is answered with the
/// reason and nothing else.
pub proof fn refusal_by_reason(
    path: Seq<char>,
    error: Seq<char>,
    read: Result<Vec<ArchiveEntry>, ReadFailure>,
    refused: &str,
    bytes: Seq<u8>,
)
    requires
        reads_as(path, Err(error), read_view(read)),
    ensures
        read is Err,
        read->Err_0 is Message,
        read->Err_0->Message_0@ == "Could not read "@ + path + " as a zip archive: "@ + error,
        directory_of(Some(refused), bytes) == Err::<Seq<EntryOutcome>, Seq<char>>(refused@),
        directory_of(None, bytes) == crate::archive::zip_directory(bytes),
{
}

/// The contents of entries are theirs, one by one.
pub proof fn entries_one_by_one(entries: Seq<ArchiveEntry>)
    ensures
        entry_views(entries).len() == entries.len(),
        forall|i: int|
            0 <= i < entries.len() ==> {
                &&& (#[trigger] entry_views(entries)[i]).is_dir == entries[i].is_dir
                &&& entry_views(entries)[i].name == entries[i].name@
                &&& entry_views(entries)[i].compressed == entries[i].compressed
                &&& entry_views(entries)[i].uncompressed == entries[i].uncompressed
            },
{
}

/// An archive without entries comes to nothing, and does not expand.
pub proof fn survey_of_nothing(survey: Survey, host: Host)
    requires
        survey.describes(Seq::empty(), host),
    ensures
        survey.traversal_entries == 0,
        survey.absolute_path_entries == 0,
        survey.executable_entries == 0,
        survey.nested_archives == 0,
        survey.entry_count == 0,
        survey.duplicate_paths == 0,
        survey.total_compressed_bytes == 0,
        survey.total_uncompressed_bytes == 0,
        survey.ratios@.len() == 0,
        survey.archive_ratio.part == 1,
        survey.archive_ratio.whole == 1,
        total_compressed(Seq::empty()) == 0,
        total_uncompressed(Seq::empty()) == 0,
{
    reveal(Seq::filter);
    let none = Seq::<EntryView>::empty();
    assert(file_paths(none) =~= Seq::<Seq<char>>::empty());
    assert(file_paths(none).to_set() =~= Set::<Seq<char>>::empty());
    assert(repeated(file_paths(none)) =~= Set::<Seq<char>>::empty());
}

/// Whether a file comes to `path`.
spec fn file_at(entry: EntryView, path: Seq<char>) -> bool {
    !entry.is_dir && normalized(replaced(entry.name, '\\', '/')) == path
}

/// A path occurs among the files exactly if one comes to it, and is repeated exactly
/// if two do.
proof fn paths_of_files(entries: Seq<EntryView>, path: Seq<char>)
    ensures
        file_paths(entries).contains(path) <==> exists|i: int|
            0 <= i < entries.len() && file_at(#[trigger] entries[i], path),
        is_repeated(file_paths(entries), path) <==> exists|i: int, j: int|
            0 <= i < j < entries.len() && file_at(#[trigger] entries[i], path) && file_at(
                #[trigger] entries[j],
                path,
            ),
    decreases entries.len(),
{
    if entries.len() == 0 {
        reveal(Seq::filter);
        assert(file_paths(entries) =~= Seq::<Seq<char>>::empty());
    } else {
        let front = entries.drop_last();
        let last = entries[entries.len() - 1];
        let before = file_paths(front);
        paths_of_files(front, path);
        assert(front.push(last) =~= entries);
        file_lists_push(front, last);
        let own = normalized(replaced(last.name, '\\', '/'));
        repeated_push(before, own);
        let paths = file_paths(entries);
        if !last.is_dir {
            assert(paths == before.push(own));
            assert(is_repeated(before.push(own), path) <==> is_repeated(before, path) || (path
                == own && before.contains(own)));
            assert(paths.contains(path) <==> before.contains(path) || path == own) by {
                if before.contains(path) {
                    assert(paths[before.index_of(path)] == path);
                }
                if path == own {
                    assert(paths[before.len() as int] == path);
                }
                if paths.contains(path) && path != own {
                    assert(before[paths.index_of(path)] == path);
                }
            }
        }
        if before.contains(path) {
            let i = choose|i: int| 0 <= i < front.len() && file_at(#[trigger] front[i], path);
            assert(entries[i] == front[i]);
            if file_at(last, path) {
                assert(file_at(entries[i], path) && file_at(entries[entries.len() - 1], path));
            }
        }
        if is_repeated(before, path) {
            let (i, j) = choose|i: int, j: int|
                0 <= i < j < front.len() && file_at(#[trigger] front[i], path) && file_at(
                    #[trigger] front[j],
                    path,
                );
            assert(entries[i] == front[i] && entries[j] == front[j]);
        }
        if exists|i: int| 0 <= i < entries.len() && file_at(#[trigger] entries[i], path) {
            let i = choose|i: int| 0 <= i < entries.len() && file_at(#[trigger] entries[i], path);
            if i < front.len() {
                assert(front[i] == entries[i]);
            }
        }
        if exists|i: int, j: int|
            0 <= i < j < entries.len() && file_at(#[trigger] entries[i], path) && file_at(
                #[trigger] entries[j],
                path,
            ) {
            let (i, j) = choose|i: int, j: int|
                0 <= i < j < entries.len() && file_at(#[trigger] entries[i], path) && file_at(
                    #[trigger] entries[j],
                    path,
                );
            assert(front[i] == entries[i]);
            if j < front.len() {
                assert(front[j] == entries[j]);
            }
        }
    }
}

/// What one more file adds to the survey of an archive: one to each count of hazards
/// that it is by its name, one to the paths if none before it came to its path, one to
/// the repeated paths if exactly one before it did, its sizes to the totals, and its
/// expansion to the ratios.
pub proof fn survey_grows_by_a_file(
    entries: Seq<EntryView>,
    entry: EntryView,
    before: Survey,
    after: Survey,
    host: Host,
)
    requires
        before.describes(entries, host),
        after.describes(entries.push(entry), host),
        !entry.is_dir,
    ensures
        ({
            let name = replaced(entry.name, '\\', '/');
            let path = normalized(name);
            let seen = exists|i: int|
                0 <= i < entries.len() && !(#[trigger] entries[i]).is_dir && normalized(
                    replaced(entries[i].name, '\\', '/'),
                ) == path;
            let seen_twice = exists|i: int, j: int|
                0 <= i < j < entries.len() && !(#[trigger] entries[i]).is_dir && !(
                #[trigger] entries[j]).is_dir && normalized(replaced(entries[i].name, '\\', '/'))
                    == path && normalized(replaced(entries[j].name, '\\', '/')) == path;
            &&& after.traversal_entries == before.traversal_entries + if climbs(name) {
                1int
            } else {
                0
            }
            &&& after.absolute_path_entries == before.absolute_path_entries + if absolute(name)
                || absolute(path) {
                1int
            } else {
                0
            }
            &&& after.executable_entries == before.executable_entries + if executable_like(
                path,
                host,
            ) {
                1int
            } else {
                0
            }
            &&& after.nested_archives == before.nested_archives + if archive_like(path, host) {
                1int
            } else {
                0
            }
            &&& after.entry_count == before.entry_count + if seen {
                0int
            } else {
                1
            }
            &&& after.duplicate_paths == before.duplicate_paths + if seen && !seen_twice {
                1int
            } else {
                0
            }
            &&& after.total_compressed_bytes == before.total_compressed_bytes + entry.compressed
            &&& after.total_uncompressed_bytes == before.total_uncompressed_bytes
                + entry.uncompressed
            &&& after.ratios@.len() == before.ratios@.len() + 1
            &&& after.ratios@.drop_last() == before.ratios@
            &&& entry.compressed > 0 ==> after.ratios@.last() == (Fraction {
                part: entry.uncompressed,
                whole: entry.compressed,
            })
            &&& entry.compressed == 0 && entry.uncompressed > 0 ==> after.ratios@.last() == (
            Fraction { part: entry.uncompressed, whole: 1 })
            &&& entry.compressed == 0 && entry.uncompressed == 0 ==> after.ratios@.last() == (
            Fraction { part: 1, whole: 1 })
        }),
{
    let name = replaced(entry.name, '\\', '/');
    let path = normalized(name);
    filter_push(entries, entry, |e: EntryView| is_traversal(e));
    filter_push(entries, entry, |e: EntryView| is_rooted(e));
    filter_push(entries, entry, |e: EntryView| is_payload(e, host));
    filter_push(entries, entry, |e: EntryView| is_nested(e, host));
    crate::path_laws::normalization_keeps_traversal(name);
    file_lists_push(entries, entry);
    let paths = file_paths(entries);
    repeated_push(paths, path);
    paths_of_files(entries, path);
    assert(entries.push(entry).drop_last() =~= entries);
    assert(after.ratios@.drop_last() =~= before.ratios@);
    let seen = exists|i: int|
        0 <= i < entries.len() && !(#[trigger] entries[i]).is_dir && normalized(
            replaced(entries[i].name, '\\', '/'),
        ) == path;
    let seen_twice = exists|i: int, j: int|
        0 <= i < j < entries.len() && !(#[trigger] entries[i]).is_dir && !(
        #[trigger] entries[j]).is_dir && normalized(replaced(entries[i].name, '\\', '/')) == path
            && normalized(replaced(entries[j].name, '\\', '/')) == path;
    assert(seen == paths.contains(path)) by {
        if seen {
            let i = choose|i: int|
                0 <= i < entries.len() && !(#[trigger] entries[i]).is_dir && normalized(
                    replaced(entries[i].name, '\\', '/'),
                ) == path;
            assert(file_at(entries[i], path));
        }
    }
    assert(seen_twice == is_repeated(paths, path)) by {
        if seen_twice {
            let (i, j) = choose|i: int, j: int|
                0 <= i < j < entries.len() && !(#[trigger] entries[i]).is_dir && !(
                #[trigger] entries[j]).is_dir && normalized(replaced(entries[i].name, '\\', '/'))
                    == path && normalized(replaced(entries[j].name, '\\', '/')) == path;
            assert(file_at(entries[i], path) && file_at(entries[j], path));
        }
    }
    if seen {
        assert(paths.to_set().insert(path) =~= paths.to_set());
        if seen_twice {
            assert(repeated(paths).contains(path));
            assert(repeated(paths).insert(path) =~= repeated(paths));
        } else {
            assert(!repeated(paths).contains(path));
        }
    } else {
        assert(!paths.to_set().contains(path));
    }
}

/// An archive with a file that by the name it has there climbs or is absolute, or by
/// the path it comes to can be run or is an archive, gets a score.
pub proof fn hazard_gets_a_score(
    entries: Seq<EntryView>,
    k: int,
    survey: Survey,
    host: Host,
    path: Seq<char>,
    measures: Measures,
    finding: ArchiveFinding,
)
    requires
        survey.describes(entries, host),
        finding@ == finding_of(path, survey, measures@),
        0 <= k < entries.len(),
        !entries[k].is_dir,
        ({
            let name = replaced(entries[k].name, '\\', '/');
            climbs(name) || absolute(name) || executable_like(normalized(name), host)
                || archive_like(normalized(name), host)
        }),
    ensures
        finding.risk_score > 0,
{
    crate::survey_laws::every_hazard_is_flagged(entries, k, survey, measures@, host);
    assert(finding@.risk_score == finding.risk_score);
}

/// A directory adds nothing to the survey of an archive.
pub proof fn survey_ignores_a_directory(
    entries: Seq<EntryView>,
    entry: EntryView,
    before: Survey,
    after: Survey,
    host: Host,
)
    requires
        before.describes(entries, host),
        after.describes(entries.push(entry), host),
        entry.is_dir,
    ensures
        after.traversal_entries == before.traversal_entries,
        after.absolute_path_entries == before.absolute_path_entries,
        after.executable_entries == before.executable_entries,
        after.nested_archives == before.nested_archives,
        after.entry_count == before.entry_count,
        after.duplicate_paths == before.duplicate_paths,
        after.total_compressed_bytes == before.total_compressed_bytes,
        after.total_uncompressed_bytes == before.total_uncompressed_bytes,
        after.ratios@ == before.ratios@,
        after.archive_ratio == before.archive_ratio,
{
    filter_push(entries, entry, |e: EntryView| is_traversal(e));
    filter_push(entries, entry, |e: EntryView| is_rooted(e));
    filter_push(entries, entry, |e: EntryView| is_payload(e, host));
    filter_push(entries, entry, |e: EntryView| is_nested(e, host));
    file_lists_push(entries, entry);
    assert(entries.push(entry).drop_last() =~= entries);
}

/// An archive expands as its totals do: what is compressed to nothing counts as
/// compressed to one byte, and nothing at all as not compressed.
pub proof fn archive_expands_as_its_totals(entries: Seq<EntryView>, survey: Survey, host: Host)
    requires
        survey.describes(entries, host),
    ensures
        survey.total_compressed_bytes > 0 ==> survey.archive_ratio.part
            == survey.total_uncompressed_bytes && survey.archive_ratio.whole
            == survey.total_compressed_bytes,
        survey.total_compressed_bytes == 0 ==> survey.archive_ratio.whole == 1,
        survey.total_compressed_bytes == 0 && survey.total_uncompressed_bytes > 0
            ==> survey.archive_ratio.part == survey.total_uncompressed_bytes,
        survey.total_compressed_bytes == 0 && survey.total_uncompressed_bytes == 0
            ==> survey.archive_ratio.part == 1,
{
}

/// Totals are sums over the files, and can be counted exactly if 64 bits hold both.
pub proof fn totals_add_up(entries: Seq<EntryView>, entry: EntryView)
    ensures
        total_compressed(entries.push(entry)) == total_compressed(entries) + if entry.is_dir {
            0
        } else {
            entry.compressed as int
        },
        total_uncompressed(entries.push(entry)) == total_uncompressed(entries) + if entry.is_dir {
            0
        } else {
            entry.uncompressed as int
        },
        totals_fit(entries) <==> total_compressed(entries) <= 0xffff_ffff_ffff_ffff
            && total_uncompressed(entries) <= 0xffff_ffff_ffff_ffff,
{
    assert(entries.push(entry).drop_last() =~= entries);
}

/// What one more check adds to the weight and to what is said.
proof fn checks_add_up(all: Seq<Check>, check: Check)
    ensures
        failed_weight(all.push(check)) == failed_weight(all) + if check.failed {
            check.weight
        } else {
            0
        },
        failed_texts(all.push(check)) == failed_texts(all) + if check.failed {
            seq![check.text]
        } else {
            Seq::<Seq<char>>::empty()
        },
{
    assert(all.push(check).drop_last() =~= all);
    filter_push(all, check, |c: Check| c.failed);
    assert(failed_texts(all.push(check)) =~= failed_texts(all) + if check.failed {
        seq![check.text]
    } else {
        Seq::<Seq<char>>::empty()
    });
}

/// One thing said if something holds, else nothing.
spec fn said_if(holds: bool, text: Seq<char>) -> Seq<Seq<char>> {
    if holds {
        seq![text]
    } else {
        Seq::empty()
    }
}

/// The score of a finding, hazard by hazard: each kind of hazard and each threshold
/// that is reached adds its own weight, and nothing else does, up to a hundred.
pub proof fn score_by_hazards(
    path: Seq<char>,
    survey: Survey,
    measures: Measures,
    finding: ArchiveFinding,
)
    requires
        finding@ == finding_of(path, survey, measures@),
    ensures
        ({
            let weight = (if survey.traversal_entries > 0 { 35int } else { 0 }) + (
            if survey.absolute_path_entries > 0 { 20int } else { 0 }) + (
            if survey.duplicate_paths > 0 { 10int } else { 0 }) + (
            if survey.executable_entries > 0 { 12int } else { 0 }) + (
            if survey.nested_archives > 0 { 10int } else { 0 }) + (
            if measures.max_ratio.value.ge(measures.ratio_threshold.value) { 18int } else { 0 }) + (
            if measures.archive_ratio.value.ge(measures.archive_ratio_threshold) { 8int } else { 0 })
                + (if survey.total_uncompressed_bytes >= measures.size_threshold_bytes { 12int }
            else { 0 });
            &&& weight <= 100 ==> finding.risk_score == weight
            &&& weight > 100 ==> finding.risk_score == 100
        }),
{
    finding_by_checks(survey, measures);
}

proof fn finding_by_checks(survey: Survey, measures: Measures)
    ensures
        ({
            let s0 = said_if(
                survey.traversal_entries > 0,
                decimal_of(survey.traversal_entries as nat) + " traversal entry(s)"@,
            );
            let s1 = said_if(
                survey.absolute_path_entries > 0,
                decimal_of(survey.absolute_path_entries as nat) + " absolute path entry(s)"@,
            );
            let s2 = said_if(
                survey.duplicate_paths > 0,
                decimal_of(survey.duplicate_paths as nat) + " duplicate path(s)"@,
            );
            let s3 = said_if(
                survey.executable_entries > 0,
                decimal_of(survey.executable_entries as nat) + " executable/script payload(s)"@,
            );
            let s4 = said_if(
                survey.nested_archives > 0,
                decimal_of(survey.nested_archives as nat) + " nested archive(s)"@,
            );
            let s5 = said_if(
                measures.max_ratio.value.ge(measures.ratio_threshold.value),
                "max expansion ratio "@ + measures.max_ratio.text@ + "x crossed threshold "@
                    + measures.ratio_threshold.text@ + "x"@,
            );
            let s6 = said_if(
                measures.archive_ratio.value.ge(measures.archive_ratio_threshold),
                "archive-wide expansion ratio "@ + measures.archive_ratio.text@ + "x"@,
            );
            let s7 = said_if(
                survey.total_uncompressed_bytes >= measures.size_threshold_bytes,
                "total uncompressed size "@ + measures.total_size_text@ + " MB crossed threshold "@
                    + measures.size_threshold_text@ + " MB"@,
            );
            let all = checks(survey, measures@);
            &&& failed_texts(all) == s0 + s1 + s2 + s3 + s4 + s5 + s6 + s7
            &&& failed_weight(all) == 35 * s0.len() + 20 * s1.len() + 10 * s2.len() + 12 * s3.len()
                + 10 * s4.len() + 18 * s5.len() + 8 * s6.len() + 12 * s7.len()
        }),
{
    let all = checks(survey, measures@);
    reveal(Seq::filter);
    let none = Seq::<Check>::empty();
    assert(failed_texts(none) =~= Seq::<Seq<char>>::empty());
    assert(all.take(0) =~= none);
    assert(all.take(0).push(all[0]) =~= all.take(1));
    assert(all.take(1).push(all[1]) =~= all.take(2));
    assert(all.take(2).push(all[2]) =~= all.take(3));
    assert(all.take(3).push(all[3]) =~= all.take(4));
    assert(all.take(4).push(all[4]) =~= all.take(5));
    assert(all.take(5).push(all[5]) =~= all.take(6));
    assert(all.take(6).push(all[6]) =~= all.take(7));
    assert(all.take(7).push(all[7]) =~= all);
    checks_add_up(all.take(0), all[0]);
    checks_add_up(all.take(1), all[1]);
    checks_add_up(all.take(2), all[2]);
    checks_add_up(all.take(3), all[3]);
    checks_add_up(all.take(4), all[4]);
    checks_add_up(all.take(5), all[5]);
    checks_add_up(all.take(6), all[6]);
    checks_add_up(all.take(7), all[7]);
}

/// What a finding says, hazard by hazard and in this order: one signal for each kind of
/// hazard and each threshold that is reached, and that all is clear exactly if there
/// is none.
pub proof fn signals_by_hazards(
    path: Seq<char>,
    survey: Survey,
    measures: Measures,
    finding: ArchiveFinding,
)
    requires
        finding@ == finding_of(path, survey, measures@),
    ensures
        ({
            let s0 = if survey.traversal_entries > 0 {
                seq![decimal_of(survey.traversal_entries as nat) + " traversal entry(s)"@]
            } else {
                Seq::<Seq<char>>::empty()
            };
            let s1 = if survey.absolute_path_entries > 0 {
                seq![decimal_of(survey.absolute_path_entries as nat) + " absolute path entry(s)"@]
            } else {
                Seq::<Seq<char>>::empty()
            };
            let s2 = if survey.duplicate_paths > 0 {
                seq![decimal_of(survey.duplicate_paths as nat) + " duplicate path(s)"@]
            } else {
                Seq::<Seq<char>>::empty()
            };
            let s3 = if survey.executable_entries > 0 {
                seq![decimal_of(survey.executable_entries as nat)
                    + " executable/script payload(s)"@]
            } else {
                Seq::<Seq<char>>::empty()
            };
            let s4 = if survey.nested_archives > 0 {
                seq![decimal_of(survey.nested_archives as nat) + " nested archive(s)"@]
            } else {
                Seq::<Seq<char>>::empty()
            };
            let s5 = if measures.max_ratio.value.ge(measures.ratio_threshold.value) {
                seq!["max expansion ratio "@ + measures.max_ratio.text@ + "x crossed threshold "@
                    + measures.ratio_threshold.text@ + "x"@]
            } else {
                Seq::<Seq<char>>::empty()
            };
            let s6 = if measures.archive_ratio.value.ge(measures.archive_ratio_threshold) {
                seq!["archive-wide expansion ratio "@ + measures.archive_ratio.text@ + "x"@]
            } else {
                Seq::<Seq<char>>::empty()
            };
            let s7 = if survey.total_uncompressed_bytes >= measures.size_threshold_bytes {
                seq!["total uncompressed size "@ + measures.total_size_text@ + " MB crossed threshold "@
                    + measures.size_threshold_text@ + " MB"@]
            } else {
                Seq::<Seq<char>>::empty()
            };
            let said = s0 + s1 + s2 + s3 + s4 + s5 + s6 + s7;
            &&& said.len() > 0 ==> finding.signals@.len() == said.len() && forall|i: int|
                0 <= i < said.len() ==> (#[trigger] finding.signals@[i])@ == said[i]
            &&& said.len() == 0 ==> finding.signals@.len() == 1 && finding.signals@[0]@
                == "no obvious extraction hazards detected"@
        }),
{
    finding_by_checks(survey, measures);
    let all = checks(survey, measures@);
    assert(failed_texts(all).len() == crate::finding::failed(all).len());
    assert(finding@.signals == texts(finding.signals@));
    assert(texts(finding.signals@) == crate::finding::signals(all));
    assert forall|i: int| 0 <= i < finding.signals@.len() implies (
    #[trigger] finding.signals@[i])@ == texts(finding.signals@)[i] by {
    }
    if crate::finding::failed(all).len() == 0 {
        assert(texts(finding.signals@)[0] == all_clear());
    }
}

/// A finding repeats what the survey counted and the rounded ratios, under the path
/// that it was asked for.
pub proof fn finding_repeats_the_survey(
    path: Seq<char>,
    survey: Survey,
    measures: Measures,
    finding: ArchiveFinding,
)
    requires
        finding@ == finding_of(path, survey, measures@),
    ensures
        finding.archive_path@ == path,
        finding.entry_count == survey.entry_count,
        finding.duplicate_paths == survey.duplicate_paths,
        finding.traversal_entries == survey.traversal_entries,
        finding.absolute_path_entries == survey.absolute_path_entries,
        finding.executable_entries == survey.executable_entries,
        finding.nested_archives == survey.nested_archives,
        finding.max_expansion_ratio.value == measures.rounded_max_ratio.value,
        finding.max_expansion_ratio.text@ == measures.rounded_max_ratio.text@,
        finding.archive_expansion_ratio.value == measures.rounded_archive_ratio.value,
        finding.archive_expansion_ratio.text@ == measures.rounded_archive_ratio.text@,
        finding.total_uncompressed_bytes == survey.total_uncompressed_bytes,
        finding.total_compressed_bytes == survey.total_compressed_bytes,
{
    let seen = finding@;
    assert(seen.max_expansion_ratio == finding.max_expansion_ratio@);
    assert(seen.archive_expansion_ratio == finding.archive_expansion_ratio@);
}

} // verus!
