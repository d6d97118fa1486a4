//! The report on all archives, and its renderings for a console and in Markdown.

use crate::finding::{ArchiveFinding, Quantity};
use crate::lists::{filter_len_of_permutation, filter_push};
use crate::ranking::sort_findings;
use crate::ranking::{in_order, level_with};
use crate::text::{decimal, join, pad_right, to_chars, trim};
use crate::text::{decimal_of, is_trimmed, joined, padded, texts};
use vstd::prelude::*;
use vstd::string::StringExecFns;

verus! {

/// The report on all archives.
#[derive(Debug)]
pub struct AuditReport {
    pub generated_at: String,
    /// The inputs as they were given.
    pub inputs: Vec<String>,
    pub ratio_threshold: Quantity,
    pub total_size_threshold_mb: Quantity,
    pub archives_scanned: usize,
    pub flagged_archives: usize,
    pub rows: Vec<ArchiveFinding>,
}

/// The findings with a score.
pub open spec fn flagged(rows: Seq<ArchiveFinding>) -> Seq<ArchiveFinding> {
    rows.filter(|row: ArchiveFinding| row.risk_score > 0)
}

/// The number of findings with a score.
pub fn count_flagged(rows: &[ArchiveFinding]) -> (count: usize)
    ensures
        count == flagged(rows@).len(),
{
    let mut count: usize = 0;
    let mut i: usize = 0;
    proof {
        reveal(Seq::filter);
        assert(rows@.take(0) =~= Seq::<ArchiveFinding>::empty());
    }
    while i < rows.len()
        invariant
            i <= rows@.len(),
            count == flagged(rows@.take(i as int)).len(),
            count <= i,
        decreases rows@.len() - i,
    {
        proof {
            filter_push(
                rows@.take(i as int),
                rows@[i as int],
                |row: ArchiveFinding| row.risk_score > 0,
            );
            assert(rows@.take(i as int).push(rows@[i as int]) =~= rows@.take(i + 1));
        }
        if rows[i].risk_score > 0 {
            count = count + 1;
        }
        i = i + 1;
    }
    assert(rows@.take(i as int) =~= rows@);
    count
}

/// Puts the findings in order and counts those with a score.
pub fn build_report(
    generated_at: String,
    inputs: Vec<String>,
    ratio_threshold: Quantity,
    total_size_threshold_mb: Quantity,
    rows: Vec<ArchiveFinding>,
) -> (report: AuditReport)
    ensures
        report.generated_at == generated_at,
        report.inputs == inputs,
        report.ratio_threshold == ratio_threshold,
        report.total_size_threshold_mb == total_size_threshold_mb,
        report.archives_scanned == rows@.len(),
        report.flagged_archives == flagged(report.rows@).len(),
        report.flagged_archives == flagged(rows@).len(),
        in_order(report.rows@),
        forall|x: ArchiveFinding| #[trigger] level_with(x, report.rows@) == level_with(x, rows@),
        report.rows@.to_multiset() == rows@.to_multiset(),
{
    let ghost given = rows@;
    let rows = sort_findings(rows);
    proof {
        filter_len_of_permutation(rows@, given, |row: ArchiveFinding| row.risk_score > 0);
    }
    AuditReport {
        generated_at,
        inputs,
        ratio_threshold,
        total_size_threshold_mb,
        archives_scanned: rows.len(),
        flagged_archives: count_flagged(rows.as_slice()),
        rows,
    }
}

/// Whether the audit fails: it does if risk is to fail it and an archive has a score.
pub fn verdict(fail_on_risk: bool, flagged_archives: usize) -> (r: Result<(), String>)
    ensures
        match r {
            Ok(_) => !fail_on_risk || flagged_archives == 0,
            Err(message) => {
                &&& fail_on_risk
                &&& flagged_archives > 0
                &&& message@ == decimal_of(flagged_archives as nat)
                    + " archive(s) crossed the configured risk checks."@
            },
        },
{
    if fail_on_risk && flagged_archives > 0 {
        let mut message = decimal(flagged_archives as u64);
        message.append(" archive(s) crossed the configured risk checks.");
        return Err(message);
    }
    Ok(())
}

/// The time of the report: what the clock printed, without white space around it,
/// or a word for a clock that did not print.
pub fn timestamp_text(printed: Option<&str>) -> (stamp: String)
    ensures
        match printed {
            Some(text) => is_trimmed(text@, stamp@),
            None => stamp@ == "unknown"@,
        },
{
    match printed {
        Some(text) => trim(text),
        None => "unknown".to_owned(),
    }
}

/// `s` with a backslash put in front of every vertical bar.
pub open spec fn escaped(s: Seq<char>) -> Seq<char>
    decreases s.len(),
{
    if s.len() == 0 {
        Seq::empty()
    } else if s.last() == '|' {
        escaped(s.drop_last()).push('\\').push('|')
    } else {
        escaped(s.drop_last()).push(s.last())
    }
}

/// `value` with a backslash put in front of every vertical bar.
pub fn escape_pipes(value: &str) -> (r: String)
    ensures
        r@ == escaped(value@),
{
    let chars = to_chars(value);
    let mut r = String::new();
    let mut i: usize = 0;
    while i < chars.len()
        invariant
            chars@ == value@,
            i <= chars@.len(),
            r@ == escaped(value@.take(i as int)),
        decreases chars@.len() - i,
    {
        assert(value@.take(i + 1).drop_last() =~= value@.take(i as int));
        if chars[i] == '|' {
            r.push('\\');
        }
        r.push(chars[i]);
        i = i + 1;
    }
    assert(value@.take(i as int) =~= value@);
    r
}

/// One line of the table.
pub open spec fn table_line(row: ArchiveFinding) -> Seq<char> {
    "| "@ + escaped(row.archive_path@) + " | "@ + decimal_of(row.risk_score as nat) + " | "@
        + decimal_of(row.traversal_entries as nat) + " | "@ + decimal_of(
        row.duplicate_paths as nat,
    ) + " | "@ + decimal_of(row.executable_entries as nat) + " | "@ + row.max_expansion_ratio.text@
        + "x | "@ + row.archive_expansion_ratio.text@ + "x |\n"@
}

/// The section on one archive.
pub open spec fn section(row: ArchiveFinding) -> Seq<char> {
    "### "@ + row.archive_path@ + "\n\n- Risk score: `"@ + decimal_of(row.risk_score as nat)
        + "`\n- Signals: "@ + joined(texts(row.signals@), "; "@) + "\n- Counts: traversal `"@
        + decimal_of(row.traversal_entries as nat) + "`, absolute `"@ + decimal_of(
        row.absolute_path_entries as nat,
    ) + "`, executable/script `"@ + decimal_of(row.executable_entries as nat)
        + "`, nested archive `"@ + decimal_of(row.nested_archives as nat)
        + "`\n- Size profile: compressed `"@ + decimal_of(row.total_compressed_bytes as nat)
        + "` bytes, uncompressed `"@ + decimal_of(row.total_uncompressed_bytes as nat)
        + "` bytes, max entry ratio `"@ + row.max_expansion_ratio.text@ + "x`, archive ratio `"@
        + row.archive_expansion_ratio.text@ + "x`\n\n"@
}

/// The table lines of all findings.
pub open spec fn table_lines(rows: Seq<ArchiveFinding>) -> Seq<char>
    decreases rows.len(),
{
    if rows.len() == 0 {
        Seq::empty()
    } else {
        table_lines(rows.drop_last()) + table_line(rows.last())
    }
}

/// The sections on all findings.
pub open spec fn sections(rows: Seq<ArchiveFinding>) -> Seq<char>
    decreases rows.len(),
{
    if rows.len() == 0 {
        Seq::empty()
    } else {
        sections(rows.drop_last()) + section(rows.last())
    }
}

/// What stands above the table.
pub open spec fn preamble(report: AuditReport) -> Seq<char> {
    "# Zip Risk Brief\n\n- Generated: `"@ + report.generated_at@ + "`\n- Archives scanned: `"@
        + decimal_of(report.archives_scanned as nat) + "`\n- Flagged archives: `"@ + decimal_of(
        report.flagged_archives as nat,
    ) + "`\n- Ratio threshold: `"@ + report.ratio_threshold.text@
        + "x`\n- Total size threshold: `"@ + report.total_size_threshold_mb.text@ + " MB`\n\n"@
        + "| Archive | Risk | Traversal | Duplicate paths | Executables | Max ratio | Archive ratio |\n"@
        + "| --- | ---: | ---: | ---: | ---: | ---: | ---: |\n"@
}

/// The report in Markdown.
pub open spec fn markdown(report: AuditReport) -> Seq<char> {
    preamble(report) + table_lines(report.rows@) + "\n## Findings\n\n"@ + sections(report.rows@)
}

fn render_table_line(row: &ArchiveFinding) -> (line: String)
    ensures
        line@ == table_line(*row),
{
    let mut line = "| ".to_owned();
    line.append(escape_pipes(row.archive_path.as_str()).as_str());
    line.append(" | ");
    line.append(decimal(row.risk_score as u64).as_str());
    line.append(" | ");
    line.append(decimal(row.traversal_entries as u64).as_str());
    line.append(" | ");
    line.append(decimal(row.duplicate_paths as u64).as_str());
    line.append(" | ");
    line.append(decimal(row.executable_entries as u64).as_str());
    line.append(" | ");
    line.append(row.max_expansion_ratio.text.as_str());
    line.append("x | ");
    line.append(row.archive_expansion_ratio.text.as_str());
    line.append("x |\n");
    line
}

fn render_section(row: &ArchiveFinding) -> (text: String)
    ensures
        text@ == section(*row),
{
    let mut text = "### ".to_owned();
    text.append(row.archive_path.as_str());
    text.append("\n\n- Risk score: `");
    text.append(decimal(row.risk_score as u64).as_str());
    text.append("`\n- Signals: ");
    text.append(join(row.signals.as_slice(), "; ").as_str());
    text.append("\n- Counts: traversal `");
    text.append(decimal(row.traversal_entries as u64).as_str());
    text.append("`, absolute `");
    text.append(decimal(row.absolute_path_entries as u64).as_str());
    text.append("`, executable/script `");
    text.append(decimal(row.executable_entries as u64).as_str());
    text.append("`, nested archive `");
    text.append(decimal(row.nested_archives as u64).as_str());
    text.append("`\n- Size profile: compressed `");
    text.append(decimal(row.total_compressed_bytes).as_str());
    text.append("` bytes, uncompressed `");
    text.append(decimal(row.total_uncompressed_bytes).as_str());
    text.append("` bytes, max entry ratio `");
    text.append(row.max_expansion_ratio.text.as_str());
    text.append("x`, archive ratio `");
    text.append(row.archive_expansion_ratio.text.as_str());
    text.append("x`\n\n");
    text
}

/// The report in Markdown.
pub fn render_markdown(report: &AuditReport) -> (output: String)
    ensures
        output@ == markdown(*report),
{
    let ghost rows = report.rows@;
    let mut output = "# Zip Risk Brief\n\n- Generated: `".to_owned();
    output.append(report.generated_at.as_str());
    output.append("`\n- Archives scanned: `");
    output.append(decimal(report.archives_scanned as u64).as_str());
    output.append("`\n- Flagged archives: `");
    output.append(decimal(report.flagged_archives as u64).as_str());
    output.append("`\n- Ratio threshold: `");
    output.append(report.ratio_threshold.text.as_str());
    output.append("x`\n- Total size threshold: `");
    output.append(report.total_size_threshold_mb.text.as_str());
    output.append(" MB`\n\n");
    output.append(
        "| Archive | Risk | Traversal | Duplicate paths | Executables | Max ratio | Archive ratio |\n",
    );
    output.append("| --- | ---: | ---: | ---: | ---: | ---: | ---: |\n");
    let ghost head = preamble(*report);
    assert(output@ == head);
    let mut i: usize = 0;
    assert(head + table_lines(rows.take(0)) =~= head);
    while i < report.rows.len()
        invariant
            rows == report.rows@,
            i <= rows.len(),
            output@ == head + table_lines(rows.take(i as int)),
        decreases rows.len() - i,
    {
        assert(rows.take(i + 1).drop_last() =~= rows.take(i as int));
        output.append(render_table_line(&report.rows[i]).as_str());
        assert(output@ =~= head + table_lines(rows.take(i + 1)));
        i = i + 1;
    }
    assert(rows.take(i as int) =~= rows);
    output.append("\n## Findings\n\n");
    let ghost upper = output@;
    let mut k: usize = 0;
    assert(upper + sections(rows.take(0)) =~= upper);
    while k < report.rows.len()
        invariant
            rows == report.rows@,
            k <= rows.len(),
            output@ == upper + sections(rows.take(k as int)),
        decreases rows.len() - k,
    {
        assert(rows.take(k + 1).drop_last() =~= rows.take(k as int));
        output.append(render_section(&report.rows[k]).as_str());
        assert(output@ =~= upper + sections(rows.take(k + 1)));
        k = k + 1;
    }
    assert(rows.take(k as int) =~= rows);
    output
}

/// The two lines on one archive for a console.
pub open spec fn console_lines(row: ArchiveFinding) -> Seq<char> {
    padded(decimal_of(row.risk_score as nat), 4) + " "@ + padded(
        decimal_of(row.traversal_entries as nat),
        4,
    ) + " "@ + padded(decimal_of(row.duplicate_paths as nat), 6) + " "@ + padded(
        decimal_of(row.executable_entries as nat),
        6,
    ) + " "@ + row.archive_path@ + "\n  signals: "@ + joined(texts(row.signals@), "; "@) + "\n"@
}

/// The lines on all of `rows` for a console.
pub open spec fn console_rows(rows: Seq<ArchiveFinding>) -> Seq<char>
    decreases rows.len(),
{
    if rows.len() == 0 {
        Seq::empty()
    } else {
        console_rows(rows.drop_last()) + console_lines(rows.last())
    }
}

/// What stands above the list of archives on a console.
pub open spec fn console_head(report: AuditReport) -> Seq<char> {
    "Zip Risk Auditor\n================\nGenerated:          "@ + report.generated_at@
        + "\nArchives scanned:   "@ + decimal_of(report.archives_scanned as nat)
        + "\nFlagged archives:   "@ + decimal_of(report.flagged_archives as nat)
        + "\nRatio threshold:    "@ + report.ratio_threshold.text@ + "x\nSize threshold:     "@
        + report.total_size_threshold_mb.text@ + " MB\n\n"@
}

/// The headings of the list of archives on a console, underlined.
pub open spec fn console_headings() -> Seq<char> {
    "Risk Trav Dup    Exec   Archive\n"@ + Seq::new(88, |i: int| '-') + "\n"@
}

/// The first `top` of the rows, or all if there are no more.
pub open spec fn first_rows(rows: Seq<ArchiveFinding>, top: nat) -> Seq<ArchiveFinding> {
    if top < rows.len() {
        rows.take(top as int)
    } else {
        rows
    }
}

/// The report for a console, with the first `top` archives.
pub open spec fn console(report: AuditReport, top: nat) -> Seq<char> {
    if report.rows@.len() == 0 {
        console_head(report) + "No archives were scanned.\n"@
    } else {
        console_head(report) + console_headings() + console_rows(first_rows(report.rows@, top))
    }
}

fn render_console_lines(row: &ArchiveFinding) -> (lines: String)
    ensures
        lines@ == console_lines(*row),
{
    let mut lines = pad_right(decimal(row.risk_score as u64).as_str(), 4);
    lines.append(" ");
    lines.append(pad_right(decimal(row.traversal_entries as u64).as_str(), 4).as_str());
    lines.append(" ");
    lines.append(pad_right(decimal(row.duplicate_paths as u64).as_str(), 6).as_str());
    lines.append(" ");
    lines.append(pad_right(decimal(row.executable_entries as u64).as_str(), 6).as_str());
    lines.append(" ");
    lines.append(row.archive_path.as_str());
    lines.append("\n  signals: ");
    lines.append(join(row.signals.as_slice(), "; ").as_str());
    lines.append("\n");
    lines
}

fn render_console_headings() -> (lines: String)
    ensures
        lines@ == console_headings(),
{
    let mut lines = "Risk Trav Dup    Exec   Archive\n".to_owned();
    let ghost first = lines@;
    let mut i: usize = 0;
    assert(lines@ =~= first + Seq::new(0, |k: int| '-'));
    while i < 88
        invariant
            i <= 88,
            lines@ == first + Seq::new(i as nat, |k: int| '-'),
        decreases 88 - i,
    {
        lines.push('-');
        assert(lines@ =~= first + Seq::new((i + 1) as nat, |k: int| '-'));
        i = i + 1;
    }
    lines.append("\n");
    lines
}

/// The report for a console, with the first `top` archives.
pub fn render_console(report: &AuditReport, top: usize) -> (output: String)
    ensures
        output@ == console(*report, top as nat),
{
    let ghost rows = report.rows@;
    let mut output = "Zip Risk Auditor\n================\nGenerated:          ".to_owned();
    output.append(report.generated_at.as_str());
    output.append("\nArchives scanned:   ");
    output.append(decimal(report.archives_scanned as u64).as_str());
    output.append("\nFlagged archives:   ");
    output.append(decimal(report.flagged_archives as u64).as_str());
    output.append("\nRatio threshold:    ");
    output.append(report.ratio_threshold.text.as_str());
    output.append("x\nSize threshold:     ");
    output.append(report.total_size_threshold_mb.text.as_str());
    output.append(" MB\n\n");
    assert(output@ == console_head(*report));
    if report.rows.len() == 0 {
        output.append("No archives were scanned.\n");
        return output;
    }
    output.append(render_console_headings().as_str());
    let shown: usize = if top < report.rows.len() {
        top
    } else {
        report.rows.len()
    };
    let ghost head = output@;
    let mut i: usize = 0;
    assert(head + console_rows(rows.take(0)) =~= head);
    while i < shown
        invariant
            rows == report.rows@,
            i <= shown <= rows.len(),
            output@ == head + console_rows(rows.take(i as int)),
        decreases shown - i,
    {
        assert(rows.take(i + 1).drop_last() =~= rows.take(i as int));
        output.append(render_console_lines(&report.rows[i]).as_str());
        assert(output@ =~= head + console_rows(rows.take(i + 1)));
        i = i + 1;
    }
    assert(first_rows(rows, top as nat) =~= rows.take(shown as int));
    output
}

} // verus!
