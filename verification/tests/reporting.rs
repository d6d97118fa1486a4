use zip_risk_auditor::finding::{ArchiveFinding, Quantity};
use zip_risk_auditor::number::Binary64;
use zip_risk_auditor::ranking::{is_ranked_before, sort_findings};
use zip_risk_auditor::report::{
    build_report, count_flagged, escape_pipes, render_console, render_markdown, timestamp_text,
    verdict, AuditReport,
};

fn quantity(value: f64) -> Quantity {
    Quantity { value: Binary64 { bits: value.to_bits() }, text: format!("{value:.1}") }
}

fn finding(path: &str, risk_score: u32, ratio: f64) -> ArchiveFinding {
    ArchiveFinding {
        archive_path: path.to_string(),
        risk_score,
        entry_count: 9,
        duplicate_paths: 1,
        traversal_entries: 2,
        absolute_path_entries: 3,
        executable_entries: 4,
        nested_archives: 5,
        max_expansion_ratio: quantity(ratio),
        archive_expansion_ratio: quantity(1.5),
        total_uncompressed_bytes: 300,
        total_compressed_bytes: 200,
        signals: vec!["one".to_string(), "two".to_string()],
    }
}

fn report(rows: Vec<ArchiveFinding>) -> AuditReport {
    build_report("now".to_string(), vec![".".to_string()], quantity(15.0), quantity(256.0), rows)
}

#[test]
fn riskiest_archives_come_first() {
    let rows = vec![
        finding("b", 10, 2.0),
        finding("a", 10, 2.0),
        finding("c", 10, 3.0),
        finding("d", 50, 1.0),
        finding("e", 0, 99.0),
    ];
    let sorted = sort_findings(rows);
    let order: Vec<&str> = sorted.iter().map(|row| row.archive_path.as_str()).collect();
    assert_eq!(order, vec!["d", "c", "a", "b", "e"]);
    assert!(is_ranked_before(&sorted[0], &sorted[1]));
    assert!(!is_ranked_before(&sorted[1], &sorted[0]));
}

#[test]
fn level_findings_stay_as_they_came() {
    let mut first = finding("same", 7, 1.0);
    first.entry_count = 1;
    let mut second = finding("same", 7, 1.0);
    second.entry_count = 2;
    let sorted = sort_findings(vec![finding("z", 7, 1.0), first, second]);
    let counts: Vec<usize> = sorted.iter().map(|row| row.entry_count).collect();
    assert_eq!(counts, vec![1, 2, 9]);
}

#[test]
fn the_report_counts_what_is_flagged() {
    let built = report(vec![finding("a", 0, 1.0), finding("b", 3, 1.0)]);
    assert_eq!(built.archives_scanned, 2);
    assert_eq!(built.flagged_archives, 1);
    assert_eq!(built.rows[0].archive_path, "b");
    assert_eq!(built.inputs, vec![".".to_string()]);
    assert_eq!(built.generated_at, "now");
    assert_eq!(count_flagged(&[]), 0);
}

#[test]
fn risk_fails_the_audit_only_if_it_is_to() {
    assert_eq!(verdict(false, 3), Ok(()));
    assert_eq!(verdict(true, 0), Ok(()));
    assert_eq!(
        verdict(true, 3),
        Err("3 archive(s) crossed the configured risk checks.".to_string())
    );
}

#[test]
fn a_clock_that_does_not_print_is_unknown() {
    assert_eq!(timestamp_text(Some("2024-05-01T10:00:00.0+00:00\r\n")), "2024-05-01T10:00:00.0+00:00");
    assert_eq!(timestamp_text(None), "unknown");
}

#[test]
fn bars_are_escaped() {
    assert_eq!(escape_pipes("a|b||"), "a\\|b\\|\\|");
    assert_eq!(escape_pipes("plain"), "plain");
    assert_eq!(escape_pipes("\\|"), "\\\\|");
    assert_ne!(escape_pipes("\\|"), escape_pipes("|"));
}

#[test]
fn markdown_is_rendered_in_full() {
    let text = render_markdown(&report(vec![finding("x|y.zip", 12, 2.0)]));
    let expected = "# Zip Risk Brief\n\n\
        - Generated: `now`\n\
        - Archives scanned: `1`\n\
        - Flagged archives: `1`\n\
        - Ratio threshold: `15.0x`\n\
        - Total size threshold: `256.0 MB`\n\n\
        | Archive | Risk | Traversal | Duplicate paths | Executables | Max ratio | Archive ratio |\n\
        | --- | ---: | ---: | ---: | ---: | ---: | ---: |\n\
        | x\\|y.zip | 12 | 2 | 1 | 4 | 2.0x | 1.5x |\n\
        \n## Findings\n\n\
        ### x|y.zip\n\n\
        - Risk score: `12`\n\
        - Signals: one; two\n\
        - Counts: traversal `2`, absolute `3`, executable/script `4`, nested archive `5`\n\
        - Size profile: compressed `200` bytes, uncompressed `300` bytes, max entry ratio `2.0x`, archive ratio `1.5x`\n\n";
    assert_eq!(text, expected);
}

#[test]
fn the_console_shows_the_first_archives() {
    let built = report(vec![finding("low.zip", 1, 1.0), finding("high.zip", 100, 1.0)]);
    let head = "Zip Risk Auditor\n\
        ================\n\
        Generated:          now\n\
        Archives scanned:   2\n\
        Flagged archives:   2\n\
        Ratio threshold:    15.0x\n\
        Size threshold:     256.0 MB\n\
        \n";
    let headings = format!("{:<4} {:<4} {:<6} {:<6} Archive\n{}\n", "Risk", "Trav", "Dup", "Exec", "-".repeat(88));
    let line = |risk: u32, path: &str| {
        format!("{:<4} {:<4} {:<6} {:<6} {}\n  signals: one; two\n", risk, 2, 1, 4, path)
    };
    assert_eq!(
        render_console(&built, 1),
        format!("{head}{headings}{}", line(100, "high.zip"))
    );
    assert_eq!(
        render_console(&built, 5),
        format!("{head}{headings}{}{}", line(100, "high.zip"), line(1, "low.zip"))
    );
}

#[test]
fn an_empty_report_says_so() {
    let text = render_console(&report(vec![]), 5);
    assert!(text.ends_with("Size threshold:     256.0 MB\n\nNo archives were scanned.\n"));
}
