//! The verdict on one archive: which checks it fails, and how risky that makes it.

use crate::lists::filter_push;
use crate::number::Binary64;
use crate::survey::Survey;
use crate::text::{decimal, decimal_of, texts};
use vstd::prelude::*;
use vstd::string::StringExecFns;

verus! {

/// A number and its rendering with one decimal place.
#[derive(Debug)]
pub struct Quantity {
    pub value: Binary64,
    pub text: String,
}

/// What the survey of an archive is held against, and what it comes to in numbers.
#[derive(Debug)]
pub struct Measures {
    /// How far the file that expands most expands.
    pub max_ratio: Quantity,
    /// How far the archive expands as a whole.
    pub archive_ratio: Quantity,
    /// The same two, rounded to one decimal place.
    pub rounded_max_ratio: Quantity,
    pub rounded_archive_ratio: Quantity,
    /// How far one file may expand.
    pub ratio_threshold: Quantity,
    /// How far the archive as a whole may expand.
    pub archive_ratio_threshold: Binary64,
    /// The uncompressed size of all files in megabytes, with one decimal place.
    pub total_size_text: String,
    /// How much that may be, in megabytes with one decimal place, and in bytes.
    pub size_threshold_text: String,
    pub size_threshold_bytes: u64,
}

/// The content of a `Quantity`.
pub struct QuantityView {
    pub value: Binary64,
    pub text: Seq<char>,
}

impl View for Quantity {
    type V = QuantityView;

    open spec fn view(&self) -> QuantityView {
        QuantityView { value: self.value, text: self.text@ }
    }
}

/// The content of `Measures`.
pub struct MeasuresView {
    pub max_ratio: QuantityView,
    pub archive_ratio: QuantityView,
    pub rounded_max_ratio: QuantityView,
    pub rounded_archive_ratio: QuantityView,
    pub ratio_threshold: QuantityView,
    pub archive_ratio_threshold: Binary64,
    pub total_size_text: Seq<char>,
    pub size_threshold_text: Seq<char>,
    pub size_threshold_bytes: u64,
}

impl View for Measures {
    type V = MeasuresView;

    open spec fn view(&self) -> MeasuresView {
        MeasuresView {
            max_ratio: self.max_ratio@,
            archive_ratio: self.archive_ratio@,
            rounded_max_ratio: self.rounded_max_ratio@,
            rounded_archive_ratio: self.rounded_archive_ratio@,
            ratio_threshold: self.ratio_threshold@,
            archive_ratio_threshold: self.archive_ratio_threshold,
            total_size_text: self.total_size_text@,
            size_threshold_text: self.size_threshold_text@,
            size_threshold_bytes: self.size_threshold_bytes,
        }
    }
}

/// The verdict on one archive.
#[derive(Debug)]
pub struct ArchiveFinding {
    pub archive_path: String,
    /// From 0 to 100.
    pub risk_score: u32,
    pub entry_count: usize,
    pub duplicate_paths: usize,
    pub traversal_entries: usize,
    pub absolute_path_entries: usize,
    pub executable_entries: usize,
    pub nested_archives: usize,
    pub max_expansion_ratio: Quantity,
    pub archive_expansion_ratio: Quantity,
    pub total_uncompressed_bytes: u64,
    pub total_compressed_bytes: u64,
    pub signals: Vec<String>,
}

/// The content of an `ArchiveFinding`.
pub struct FindingView {
    pub archive_path: Seq<char>,
    pub risk_score: int,
    pub entry_count: usize,
    pub duplicate_paths: usize,
    pub traversal_entries: usize,
    pub absolute_path_entries: usize,
    pub executable_entries: usize,
    pub nested_archives: usize,
    pub max_expansion_ratio: QuantityView,
    pub archive_expansion_ratio: QuantityView,
    pub total_uncompressed_bytes: u64,
    pub total_compressed_bytes: u64,
    pub signals: Seq<Seq<char>>,
}

impl View for ArchiveFinding {
    type V = FindingView;

    open spec fn view(&self) -> FindingView {
        FindingView {
            archive_path: self.archive_path@,
            risk_score: self.risk_score as int,
            entry_count: self.entry_count,
            duplicate_paths: self.duplicate_paths,
            traversal_entries: self.traversal_entries,
            absolute_path_entries: self.absolute_path_entries,
            executable_entries: self.executable_entries,
            nested_archives: self.nested_archives,
            max_expansion_ratio: self.max_expansion_ratio@,
            archive_expansion_ratio: self.archive_expansion_ratio@,
            total_uncompressed_bytes: self.total_uncompressed_bytes,
            total_compressed_bytes: self.total_compressed_bytes,
            signals: texts(self.signals@),
        }
    }
}

/// One check: whether the archive fails it, what that adds to its score, and how it
/// is worded.
pub struct Check {
    pub failed: bool,
    pub weight: int,
    pub text: Seq<char>,
}

/// A check that fails if there is anything to count.
pub open spec fn count_check(count: usize, weight: int, what: Seq<char>) -> Check {
    Check { failed: count > 0, weight, text: decimal_of(count as nat) + what }
}

/// All checks, in the order in which they are reported.
pub open spec fn checks(survey: Survey, measures: MeasuresView) -> Seq<Check> {
    seq![
        count_check(survey.traversal_entries, 35, " traversal entry(s)"@),
        count_check(survey.absolute_path_entries, 20, " absolute path entry(s)"@),
        count_check(survey.duplicate_paths, 10, " duplicate path(s)"@),
        count_check(survey.executable_entries, 12, " executable/script payload(s)"@),
        count_check(survey.nested_archives, 10, " nested archive(s)"@),
        Check {
            failed: measures.max_ratio.value.ge(measures.ratio_threshold.value),
            weight: 18,
            text: "max expansion ratio "@ + measures.max_ratio.text + "x crossed threshold "@
                + measures.ratio_threshold.text + "x"@,
        },
        Check {
            failed: measures.archive_ratio.value.ge(measures.archive_ratio_threshold),
            weight: 8,
            text: "archive-wide expansion ratio "@ + measures.archive_ratio.text + "x"@,
        },
        Check {
            failed: survey.total_uncompressed_bytes >= measures.size_threshold_bytes,
            weight: 12,
            text: "total uncompressed size "@ + measures.total_size_text
                + " MB crossed threshold "@ + measures.size_threshold_text + " MB"@,
        },
    ]
}

/// The checks that failed.
pub open spec fn failed(checks: Seq<Check>) -> Seq<Check> {
    checks.filter(|check: Check| check.failed)
}

/// The weight of the failed checks together.
pub open spec fn failed_weight(checks: Seq<Check>) -> int
    decreases checks.len(),
{
    if checks.len() == 0 {
        0
    } else {
        failed_weight(checks.drop_last()) + if checks.last().failed {
            checks.last().weight
        } else {
            0
        }
    }
}

/// The score: the weight of the failed checks, and no more than 100.
pub open spec fn score(checks: Seq<Check>) -> int {
    if failed_weight(checks) > 100 {
        100
    } else {
        failed_weight(checks)
    }
}

/// The wordings of the failed checks.
pub open spec fn failed_texts(checks: Seq<Check>) -> Seq<Seq<char>> {
    failed(checks).map_values(|check: Check| check.text)
}

/// What is said if no check failed.
pub open spec fn all_clear() -> Seq<char> {
    "no obvious extraction hazards detected"@
}

/// What is said of an archive.
pub open spec fn signals(checks: Seq<Check>) -> Seq<Seq<char>> {
    if failed(checks).len() == 0 {
        seq![all_clear()]
    } else {
        failed_texts(checks)
    }
}

/// The verdict on the archive at `path`.
pub open spec fn finding_of(path: Seq<char>, survey: Survey, measures: MeasuresView) -> FindingView {
    FindingView {
        archive_path: path,
        risk_score: score(checks(survey, measures)),
        entry_count: survey.entry_count,
        duplicate_paths: survey.duplicate_paths,
        traversal_entries: survey.traversal_entries,
        absolute_path_entries: survey.absolute_path_entries,
        executable_entries: survey.executable_entries,
        nested_archives: survey.nested_archives,
        max_expansion_ratio: measures.rounded_max_ratio,
        archive_expansion_ratio: measures.rounded_archive_ratio,
        total_uncompressed_bytes: survey.total_uncompressed_bytes,
        total_compressed_bytes: survey.total_compressed_bytes,
        signals: signals(checks(survey, measures)),
    }
}

/// The checks made so far: what is said of those that failed, and what they weigh.
struct Tally {
    signals: Vec<String>,
    score: u32,
}

impl Tally {
    /// Whether this is the tally of `checks`.
    spec fn counts(self, checks: Seq<Check>) -> bool {
        &&& texts(self.signals@) == failed_texts(checks)
        &&& self.score == failed_weight(checks)
    }

    fn new() -> (tally: Tally)
        ensures
            tally.counts(Seq::empty()),
    {
        let tally = Tally { signals: Vec::new(), score: 0 };
        proof {
            reveal(Seq::filter);
            assert(texts(tally.signals@) =~= failed_texts(Seq::empty()));
        }
        tally
    }

    fn add(
        &mut self,
        has_failed: bool,
        weight: u32,
        text: String,
        Ghost(before): Ghost<Seq<Check>>,
    )
        requires
            old(self).counts(before),
            old(self).score + weight <= u32::MAX,
        ensures
            final(self).counts(
                before.push(Check { failed: has_failed, weight: weight as int, text: text@ }),
            ),
            final(self).score <= old(self).score + weight,
    {
        let ghost check = Check { failed: has_failed, weight: weight as int, text: text@ };
        proof {
            filter_push(before, check, |c: Check| c.failed);
            assert(before.push(check).drop_last() =~= before);
        }
        if has_failed {
            self.signals.push(text);
            self.score = self.score + weight;
            assert(texts(self.signals@) =~= texts(old(self).signals@).push(text@));
            assert(failed_texts(before.push(check)) =~= failed_texts(before).push(text@));
        }
    }

    fn add_count(&mut self, count: usize, weight: u32, what: &str, Ghost(before): Ghost<Seq<Check>>)
        requires
            old(self).counts(before),
            old(self).score + weight <= u32::MAX,
        ensures
            final(self).counts(before.push(count_check(count, weight as int, what@))),
            final(self).score <= old(self).score + weight,
    {
        let mut text = decimal(count as u64);
        text.append(what);
        self.add(count > 0, weight, text, Ghost(before));
    }
}

/// Holds the survey of an archive against the thresholds. `path` stands for the
/// archive.
pub fn analyze_archive(path: &str, survey: &Survey, measures: Measures) -> (finding: ArchiveFinding)
    ensures
        finding@ == finding_of(path@, *survey, measures@),
        finding.max_expansion_ratio == measures.rounded_max_ratio,
        finding.archive_expansion_ratio == measures.rounded_archive_ratio,
{
    let ghost all = checks(*survey, measures@);
    let mut tally = Tally::new();
    assert(all.take(0) =~= Seq::<Check>::empty());
    tally.add_count(survey.traversal_entries, 35, " traversal entry(s)", Ghost(all.take(0)));
    assert(all.take(0).push(all[0]) =~= all.take(1));
    tally.add_count(
        survey.absolute_path_entries,
        20,
        " absolute path entry(s)",
        Ghost(all.take(1)),
    );
    assert(all.take(1).push(all[1]) =~= all.take(2));
    tally.add_count(survey.duplicate_paths, 10, " duplicate path(s)", Ghost(all.take(2)));
    assert(all.take(2).push(all[2]) =~= all.take(3));
    tally.add_count(
        survey.executable_entries,
        12,
        " executable/script payload(s)",
        Ghost(all.take(3)),
    );
    assert(all.take(3).push(all[3]) =~= all.take(4));
    tally.add_count(survey.nested_archives, 10, " nested archive(s)", Ghost(all.take(4)));
    assert(all.take(4).push(all[4]) =~= all.take(5));

    let mut text = "max expansion ratio ".to_owned();
    text.append(measures.max_ratio.text.as_str());
    text.append("x crossed threshold ");
    text.append(measures.ratio_threshold.text.as_str());
    text.append("x");
    tally.add(
        measures.max_ratio.value.at_least(measures.ratio_threshold.value),
        18,
        text,
        Ghost(all.take(5)),
    );
    assert(all.take(5).push(all[5]) =~= all.take(6));

    let mut text = "archive-wide expansion ratio ".to_owned();
    text.append(measures.archive_ratio.text.as_str());
    text.append("x");
    tally.add(
        measures.archive_ratio.value.at_least(measures.archive_ratio_threshold),
        8,
        text,
        Ghost(all.take(6)),
    );
    assert(all.take(6).push(all[6]) =~= all.take(7));

    let mut text = "total uncompressed size ".to_owned();
    text.append(measures.total_size_text.as_str());
    text.append(" MB crossed threshold ");
    text.append(measures.size_threshold_text.as_str());
    text.append(" MB");
    tally.add(
        survey.total_uncompressed_bytes >= measures.size_threshold_bytes,
        12,
        text,
        Ghost(all.take(7)),
    );
    assert(all.take(7).push(all[7]) =~= all);

    let mut signals = tally.signals;
    assert(texts(signals@).len() == failed(all).len());
    if signals.len() == 0 {
        signals.push("no obvious extraction hazards detected".to_owned());
        assert(texts(signals@) =~= seq![all_clear()]);
    }
    let risk_score: u32 = if tally.score > 100 {
        100
    } else {
        tally.score
    };
    ArchiveFinding {
        archive_path: path.to_owned(),
        risk_score,
        entry_count: survey.entry_count,
        duplicate_paths: survey.duplicate_paths,
        traversal_entries: survey.traversal_entries,
        absolute_path_entries: survey.absolute_path_entries,
        executable_entries: survey.executable_entries,
        nested_archives: survey.nested_archives,
        max_expansion_ratio: measures.rounded_max_ratio,
        archive_expansion_ratio: measures.rounded_archive_ratio,
        total_uncompressed_bytes: survey.total_uncompressed_bytes,
        total_compressed_bytes: survey.total_compressed_bytes,
        signals,
    }
}

/// The weights of the failed checks are all of them counted, none twice: the weight
/// is zero exactly if no check failed.
proof fn weight_shows_failure(checks: Seq<Check>)
    requires
        forall|k: int| 0 <= k < checks.len() ==> (#[trigger] checks[k]).weight > 0,
    ensures
        failed_weight(checks) >= 0,
        failed_weight(checks) == 0 <==> failed(checks).len() == 0,
        failed_weight(checks) == 0 <==> forall|k: int|
            0 <= k < checks.len() ==> !(#[trigger] checks[k]).failed,
    decreases checks.len(),
{
    reveal(Seq::filter);
    if checks.len() > 0 {
        let front = checks.drop_last();
        assert forall|k: int| 0 <= k < front.len() implies (#[trigger] front[k]).weight > 0 by {
            assert(front[k] == checks[k]);
        }
        weight_shows_failure(front);
        assert(checks.last() == checks[checks.len() - 1]);
        assert(forall|k: int| 0 <= k < front.len() ==> front[k] == #[trigger] checks[k]);
    }
}

/// An archive scores from 0 to 100. It scores 0 exactly if it fails no check, and
/// exactly then what is said of it is that all is clear.
pub proof fn score_shows_failure(survey: Survey, measures: MeasuresView)
    ensures
        0 <= score(checks(survey, measures)) <= 100,
        score(checks(survey, measures)) == 0 <==> forall|k: int|
            0 <= k < 8 ==> !(#[trigger] checks(survey, measures)[k]).failed,
        score(checks(survey, measures)) == 0 <==> signals(checks(survey, measures))
            == seq![all_clear()],
{
    let all = checks(survey, measures);
    weight_shows_failure(all);
    if failed(all).len() > 0 {
        let keep = |check: Check| check.failed;
        all.lemma_filter_pred(keep, 0);
        let first = failed(all)[0];
        assert(failed(all).contains(first));
        all.lemma_filter_contains_rev(keep, first);
        let k = all.index_of(first);
        assert(signals(all)[0] == all[k].text);
        no_check_is_worded_as_clear(survey, measures, k);
    }
}

/// Failing more checks weighs no less.
proof fn weight_follows_failures(fewer: Seq<Check>, more: Seq<Check>)
    requires
        fewer.len() == more.len(),
        forall|k: int|
            0 <= k < fewer.len() ==> {
                &&& 0 < (#[trigger] fewer[k]).weight == more[k].weight
                &&& fewer[k].failed ==> more[k].failed
            },
    ensures
        failed_weight(fewer) <= failed_weight(more),
    decreases fewer.len(),
{
    if fewer.len() > 0 {
        let a = fewer.drop_last();
        let b = more.drop_last();
        assert forall|k: int| 0 <= k < a.len() implies {
            &&& 0 < (#[trigger] a[k]).weight == b[k].weight
            &&& a[k].failed ==> b[k].failed
        } by {
            assert(a[k] == fewer[k]);
        }
        weight_follows_failures(a, b);
        assert(fewer.last() == fewer[fewer.len() - 1]);
    }
}

/// Held against the same measures, an archive with no fewer hazards and no smaller
/// size scores no lower.
pub proof fn score_follows_the_counts(safer: Survey, riskier: Survey, measures: MeasuresView)
    requires
        safer.traversal_entries <= riskier.traversal_entries,
        safer.absolute_path_entries <= riskier.absolute_path_entries,
        safer.duplicate_paths <= riskier.duplicate_paths,
        safer.executable_entries <= riskier.executable_entries,
        safer.nested_archives <= riskier.nested_archives,
        safer.total_uncompressed_bytes <= riskier.total_uncompressed_bytes,
    ensures
        score(checks(safer, measures)) <= score(checks(riskier, measures)),
{
    weight_follows_failures(checks(safer, measures), checks(riskier, measures));
}

/// No failed check is worded as the absence of hazards.
proof fn no_check_is_worded_as_clear(survey: Survey, measures: MeasuresView, k: int)
    requires
        0 <= k < 8,
    ensures
        checks(survey, measures)[k].text != all_clear(),
{
    reveal_strlit("no obvious extraction hazards detected");
    reveal_strlit("max expansion ratio ");
    reveal_strlit("archive-wide expansion ratio ");
    reveal_strlit("total uncompressed size ");
    let text = checks(survey, measures)[k].text;
    assert(all_clear()[0] == 'n');
    if k < 5 {
        let count = if k == 0 {
            survey.traversal_entries
        } else if k == 1 {
            survey.absolute_path_entries
        } else if k == 2 {
            survey.duplicate_paths
        } else if k == 3 {
            survey.executable_entries
        } else {
            survey.nested_archives
        };
        crate::text::decimal_denotes(count as nat);
        assert(crate::text::is_digit(decimal_of(count as nat)[0]));
        assert(text[0] == decimal_of(count as nat)[0]);
    } else if k == 5 {
        assert(text[0] == 'm');
    } else if k == 6 {
        assert(text[0] == 'a');
    } else {
        assert(text[0] == 't');
    }
}

} // verus!
