//! What a report lists and how, told row by row, line by line and character by
//! character.

use crate::finding::ArchiveFinding;
use crate::lists::filter_push;
use crate::order::{codes, lex_before};
use crate::ranking::{in_order, level_with, ranks_before, ranks_level};
use crate::report::{
    console, console_head, console_headings, console_lines, console_rows, escaped, first_rows,
    flagged, markdown, sections, table_lines, AuditReport,
};
use crate::text::{decimal_of, joined, padded, texts};
use vstd::prelude::*;

verus! {

/// Which of two findings comes first is decided by the score, then by how far the
/// archive expands, then by the characters of its path.
pub proof fn ranking_by_fields(x: ArchiveFinding, y: ArchiveFinding)
    ensures
        x.risk_score > y.risk_score ==> ranks_before(x, y) && !ranks_before(y, x),
        x.risk_score == y.risk_score && x.max_expansion_ratio.value.total_place()
            > y.max_expansion_ratio.value.total_place() ==> ranks_before(x, y) && !ranks_before(
            y,
            x,
        ),
        x.risk_score == y.risk_score && x.max_expansion_ratio.value == y.max_expansion_ratio.value
            ==> (ranks_before(x, y) <==> lex_before(
            codes(x.archive_path@),
            codes(y.archive_path@),
        )),
        ranks_level(x, y) <==> x.risk_score == y.risk_score && x.max_expansion_ratio.value
            == y.max_expansion_ratio.value && x.archive_path@ == y.archive_path@,
{
    crate::number::total_order_is_total(
        x.max_expansion_ratio.value,
        y.max_expansion_ratio.value,
    );
}

/// In an ordered list no row has a lower score than one behind it, nor with the same
/// score a smaller expansion, nor with both the same a path that comes later.
pub proof fn rows_by_fields(rows: Seq<ArchiveFinding>, i: int, j: int)
    requires
        in_order(rows),
        0 <= i < j < rows.len(),
    ensures
        rows[i].risk_score >= rows[j].risk_score,
        rows[i].risk_score == rows[j].risk_score
            ==> rows[i].max_expansion_ratio.value.total_place()
            >= rows[j].max_expansion_ratio.value.total_place(),
        rows[i].risk_score == rows[j].risk_score && rows[i].max_expansion_ratio.value
            == rows[j].max_expansion_ratio.value ==> !lex_before(
            codes(rows[j].archive_path@),
            codes(rows[i].archive_path@),
        ),
{
    assert(!ranks_before(rows[j], rows[i]));
}

/// What ranks level with a finding is chosen row by row.
pub proof fn level_rows_one_by_one(
    x: ArchiveFinding,
    rows: Seq<ArchiveFinding>,
    row: ArchiveFinding,
)
    ensures
        level_with(x, Seq::empty()).len() == 0,
        level_with(x, rows.push(row)) == if x.risk_score == row.risk_score
            && x.max_expansion_ratio.value == row.max_expansion_ratio.value && x.archive_path@
            == row.archive_path@ {
            level_with(x, rows).push(row)
        } else {
            level_with(x, rows)
        },
{
    reveal(Seq::filter);
    ranking_by_fields(x, row);
    filter_push(rows, row, |y: ArchiveFinding| ranks_level(x, y));
}

/// One more row is counted exactly if it has a score.
pub proof fn flags_one_by_one(rows: Seq<ArchiveFinding>, row: ArchiveFinding)
    ensures
        flagged(Seq::empty()).len() == 0,
        flagged(rows.push(row)).len() == flagged(rows).len() + if row.risk_score > 0 {
            1int
        } else {
            0
        },
{
    reveal(Seq::filter);
    filter_push(rows, row, |row: ArchiveFinding| row.risk_score > 0);
}

/// Escaping by characters: a bar becomes a backslash and a bar, any other character
/// stays, and two texts are escaped one after the other.
pub proof fn escaping_by_character(a: Seq<char>, b: Seq<char>, c: char)
    ensures
        escaped(Seq::empty()) == Seq::<char>::empty(),
        escaped(seq![c]) == if c == '|' {
            seq!['\\', '|']
        } else {
            seq![c]
        },
        escaped(a + b) == escaped(a) + escaped(b),
    decreases b.len(),
{
    let one = seq![c];
    assert(one.drop_last() =~= Seq::<char>::empty());
    assert(escaped(one.drop_last()) == Seq::<char>::empty());
    assert(escaped(one) =~= if c == '|' {
        seq!['\\', '|']
    } else {
        seq![c]
    });
    if b.len() == 0 {
        assert(a + b =~= a);
        assert(escaped(a) + escaped(b) =~= escaped(a));
    } else {
        escaping_by_character(a, b.drop_last(), c);
        assert((a + b).drop_last() =~= a + b.drop_last());
        assert(escaped(a + b) =~= escaped(a) + escaped(b));
    }
}

/// The Markdown text by its rows: above the table what was scanned, then a line for
/// each row in order, then a section for each row in order, and nothing else.
pub proof fn markdown_by_rows(report: AuditReport, rows: Seq<ArchiveFinding>, row: ArchiveFinding)
    ensures
        markdown(report) == "# Zip Risk Brief\n\n- Generated: `"@ + report.generated_at@
            + "`\n- Archives scanned: `"@ + decimal_of(report.archives_scanned as nat)
            + "`\n- Flagged archives: `"@ + decimal_of(report.flagged_archives as nat)
            + "`\n- Ratio threshold: `"@ + report.ratio_threshold.text@
            + "x`\n- Total size threshold: `"@ + report.total_size_threshold_mb.text@ + " MB`\n\n"@
            + "| Archive | Risk | Traversal | Duplicate paths | Executables | Max ratio | Archive ratio |\n"@
            + "| --- | ---: | ---: | ---: | ---: | ---: | ---: |\n"@ + table_lines(report.rows@)
            + "\n## Findings\n\n"@ + sections(report.rows@),
        table_lines(Seq::empty()) == Seq::<char>::empty(),
        sections(Seq::empty()) == Seq::<char>::empty(),
        table_lines(rows.push(row)) == table_lines(rows) + ("| "@ + escaped(row.archive_path@)
            + " | "@ + decimal_of(row.risk_score as nat) + " | "@ + decimal_of(
            row.traversal_entries as nat,
        ) + " | "@ + decimal_of(row.duplicate_paths as nat) + " | "@ + decimal_of(
            row.executable_entries as nat,
        ) + " | "@ + row.max_expansion_ratio.text@ + "x | "@ + row.archive_expansion_ratio.text@
            + "x |\n"@),
        sections(rows.push(row)) == sections(rows) + ("### "@ + row.archive_path@
            + "\n\n- Risk score: `"@ + decimal_of(row.risk_score as nat) + "`\n- Signals: "@
            + joined(texts(row.signals@), "; "@) + "\n- Counts: traversal `"@ + decimal_of(
            row.traversal_entries as nat,
        ) + "`, absolute `"@ + decimal_of(row.absolute_path_entries as nat)
            + "`, executable/script `"@ + decimal_of(row.executable_entries as nat)
            + "`, nested archive `"@ + decimal_of(row.nested_archives as nat)
            + "`\n- Size profile: compressed `"@ + decimal_of(row.total_compressed_bytes as nat)
            + "` bytes, uncompressed `"@ + decimal_of(row.total_uncompressed_bytes as nat)
            + "` bytes, max entry ratio `"@ + row.max_expansion_ratio.text@ + "x`, archive ratio `"@
            + row.archive_expansion_ratio.text@ + "x`\n\n"@),
{
    assert(rows.push(row).drop_last() =~= rows);
}

/// The console text by its rows: it shows no archive for a `top` of zero, one more
/// archive for each one more of `top` as long as there are rows, the row at that place
/// with its own two lines at the very end, and the same as before once all rows are
/// shown.
pub proof fn console_by_rows(report: AuditReport, top: nat)
    ensures
        report.rows@.len() > 0 ==> console(report, 0) == console_head(report)
            + "Risk Trav Dup    Exec   Archive\n"@ + Seq::new(88, |i: int| '-') + "\n"@,
        top < report.rows@.len() ==> ({
            let row = report.rows@[top as int];
            console(report, top + 1) == console(report, top) + (padded(
                decimal_of(row.risk_score as nat),
                4,
            ) + " "@ + padded(decimal_of(row.traversal_entries as nat), 4) + " "@ + padded(
                decimal_of(row.duplicate_paths as nat),
                6,
            ) + " "@ + padded(decimal_of(row.executable_entries as nat), 6) + " "@
                + row.archive_path@ + "\n  signals: "@ + joined(texts(row.signals@), "; "@) + "\n"@)
        }),
        top >= report.rows@.len() ==> console(report, top + 1) == console(report, top),
        report.rows@.len() == 0 ==> console(report, top) == console_head(report)
            + "No archives were scanned.\n"@,
        console_head(report) == "Zip Risk Auditor\n================\nGenerated:          "@
            + report.generated_at@ + "\nArchives scanned:   "@ + decimal_of(
            report.archives_scanned as nat,
        ) + "\nFlagged archives:   "@ + decimal_of(report.flagged_archives as nat)
            + "\nRatio threshold:    "@ + report.ratio_threshold.text@ + "x\nSize threshold:     "@
            + report.total_size_threshold_mb.text@ + " MB\n\n"@,
{
    let rows = report.rows@;
    let head = console_head(report) + console_headings();
    if rows.len() > 0 {
        assert(first_rows(rows, 0) =~= Seq::<ArchiveFinding>::empty());
        assert(console(report, 0) =~= head);
        assert(head =~= console_head(report) + "Risk Trav Dup    Exec   Archive\n"@ + Seq::new(
            88,
            |i: int| '-',
        ) + "\n"@);
    }
    if top < rows.len() {
        let row = rows[top as int];
        let shown = first_rows(rows, top);
        let more = first_rows(rows, top + 1);
        assert(shown =~= rows.take(top as int));
        assert(more =~= shown.push(row));
        assert(more.drop_last() =~= shown);
        assert(console_rows(more) == console_rows(shown) + console_lines(row));
        assert(console(report, top + 1) =~= console(report, top) + console_lines(row));
    } else {
        assert(first_rows(rows, top + 1) =~= first_rows(rows, top));
    }
}

/// The console lists exactly as many archives as `top` says, or all if there are no
/// more: for every place below both, the text up to that place is followed by the two
/// lines on the row at that place, and nothing follows the last of them.
pub proof fn console_lists_the_top_rows(report: AuditReport, top: nat, k: nat)
    requires
        report.rows@.len() > 0,
        k < top,
        k < report.rows@.len(),
    ensures
        ({
            let row = report.rows@[k as int];
            let lines = padded(decimal_of(row.risk_score as nat), 4) + " "@ + padded(
                decimal_of(row.traversal_entries as nat),
                4,
            ) + " "@ + padded(decimal_of(row.duplicate_paths as nat), 6) + " "@ + padded(
                decimal_of(row.executable_entries as nat),
                6,
            ) + " "@ + row.archive_path@ + "\n  signals: "@ + joined(texts(row.signals@), "; "@)
                + "\n"@;
            let upper = console(report, k);
            let full = console(report, top);
            &&& upper.len() + lines.len() <= full.len()
            &&& full.take(upper.len() as int) == upper
            &&& full.subrange(upper.len() as int, (upper.len() + lines.len()) as int) == lines
            &&& (k + 1 == top || k + 1 == report.rows@.len()) ==> full == upper + lines
        }),
    decreases top,
{
    let row = report.rows@[k as int];
    let lines = console_lines(row);
    let upper = console(report, k);
    let full = console(report, top);
    console_by_rows(report, (top - 1) as nat);
    if k + 1 == top {
        assert(full.take(upper.len() as int) =~= upper);
        assert(full.subrange(upper.len() as int, (upper.len() + lines.len()) as int) =~= lines);
    } else {
        let shorter = console(report, (top - 1) as nat);
        console_lists_the_top_rows(report, (top - 1) as nat, k);
        assert(shorter.len() <= full.len());
        assert(full.take(shorter.len() as int) =~= shorter);
        assert(full.take(upper.len() as int) =~= shorter.take(upper.len() as int));
        assert(full.subrange(upper.len() as int, (upper.len() + lines.len()) as int)
            =~= shorter.subrange(upper.len() as int, (upper.len() + lines.len()) as int));
    }
}

} // verus!
