use std::io::{Cursor, Write};
use zip::write::FileOptions;
use zip::CompressionMethod;
use zip::ZipWriter;
use zip_risk_auditor::archive::ArchiveEntry;
use zip_risk_auditor::finding::{analyze_archive, ArchiveFinding, Measures, Quantity};
use zip_risk_auditor::number::{max_ratio, Binary64};
use zip_risk_auditor::path::Host;
use zip_risk_auditor::survey::{expansion, survey_archive, survey_entries, Fraction, Survey};

fn binary(value: f64) -> Binary64 {
    Binary64 { bits: value.to_bits() }
}

fn quantity(value: f64) -> Quantity {
    Quantity { value: binary(value), text: format!("{value:.1}") }
}

fn divided(fraction: Fraction) -> f64 {
    fraction.part as f64 / fraction.whole as f64
}

fn measures(survey: &Survey, ratio_threshold: f64, size_threshold_mb: f64) -> Measures {
    let ratios: Vec<Binary64> = survey.ratios.iter().map(|ratio| binary(divided(*ratio))).collect();
    let max = f64::from_bits(max_ratio(&ratios).bits);
    let whole = divided(survey.archive_ratio);
    Measures {
        max_ratio: quantity(max),
        archive_ratio: quantity(whole),
        rounded_max_ratio: quantity((max * 10.0).round() / 10.0),
        rounded_archive_ratio: quantity((whole * 10.0).round() / 10.0),
        ratio_threshold: quantity(ratio_threshold),
        archive_ratio_threshold: binary(ratio_threshold * 0.85),
        total_size_text: format!("{:.1}", survey.total_uncompressed_bytes as f64 / (1024.0 * 1024.0)),
        size_threshold_text: format!("{size_threshold_mb:.1}"),
        size_threshold_bytes: (size_threshold_mb * 1024.0 * 1024.0) as u64,
    }
}

fn analyzed(survey: &Survey, ratio_threshold: f64, size_threshold_mb: f64) -> ArchiveFinding {
    analyze_archive("sample.zip", survey, measures(survey, ratio_threshold, size_threshold_mb))
}

fn file(name: &str, compressed: u64, uncompressed: u64) -> ArchiveEntry {
    ArchiveEntry { is_dir: false, name: name.to_string(), compressed, uncompressed }
}

fn directory(name: &str) -> ArchiveEntry {
    ArchiveEntry { is_dir: true, name: name.to_string(), compressed: 0, uncompressed: 0 }
}

#[test]
fn analyze_archive_flags_size_and_payload_risks() {
    let mut writer = ZipWriter::new(Cursor::new(Vec::new()));
    let options = FileOptions::default().compression_method(CompressionMethod::Stored);

    writer.start_file("../startup.bat", options).unwrap();
    writer.write_all(&vec![b'A'; 2048]).unwrap();
    writer.start_file("nested/tool.zip", options).unwrap();
    writer.write_all(b"fake nested zip").unwrap();
    let bytes = writer.finish().unwrap().into_inner();

    let survey = survey_archive("sample.zip", None, &bytes, Host::Unix).unwrap().unwrap();
    let finding = analyzed(&survey, 2.0, 0.001);
    assert!(finding.risk_score > 0);
    assert_eq!(finding.traversal_entries, 1);
    assert_eq!(finding.executable_entries, 1);
    assert_eq!(finding.nested_archives, 1);
    assert!(finding
        .signals
        .iter()
        .any(|signal| signal.contains("total uncompressed size")));
    assert_eq!(finding.risk_score, 35 + 12 + 10 + 12);
    assert_eq!(
        finding.signals,
        vec![
            "1 traversal entry(s)",
            "1 executable/script payload(s)",
            "1 nested archive(s)",
            "total uncompressed size 0.0 MB crossed threshold 0.0 MB",
        ]
    );
}

#[test]
fn a_clean_archive_is_called_clear() {
    let survey = survey_entries(&[file("docs/report.txt", 50, 100), directory("docs/")], Host::Unix);
    let finding = analyzed(&survey, 15.0, 256.0);
    assert_eq!(finding.risk_score, 0);
    assert_eq!(finding.signals, vec!["no obvious extraction hazards detected"]);
    assert_eq!(finding.archive_path, "sample.zip");
    assert_eq!(finding.entry_count, 1);
    assert_eq!(finding.max_expansion_ratio.text, "2.0");
    assert_eq!(finding.archive_expansion_ratio.text, "2.0");
    assert_eq!(finding.total_compressed_bytes, 50);
    assert_eq!(finding.total_uncompressed_bytes, 100);
}

#[test]
fn every_check_adds_its_weight_up_to_a_hundred() {
    let survey = survey_entries(&[
        file("..\\..\\AppData\\run.exe", 10, 1000),
        file("C:/Windows/x.zip", 10, 1000),
        file("./C:/Windows//x.zip", 10, 1000),
    ], Host::Unix);
    let finding = analyzed(&survey, 15.0, 0.001);
    assert_eq!(finding.risk_score, 100);
    assert_eq!(
        finding.signals,
        vec![
            "1 traversal entry(s)",
            "2 absolute path entry(s)",
            "1 duplicate path(s)",
            "1 executable/script payload(s)",
            "2 nested archive(s)",
            "max expansion ratio 100.0x crossed threshold 15.0x",
            "archive-wide expansion ratio 100.0x",
            "total uncompressed size 0.0 MB crossed threshold 0.0 MB",
        ]
    );
    assert_eq!(finding.entry_count, 2);
    assert_eq!(finding.duplicate_paths, 1);
}

#[test]
fn weights_one_by_one() {
    let score = |entries: &[ArchiveEntry]| analyzed(&survey_entries(entries, Host::Unix), 15.0, 256.0).risk_score;
    assert_eq!(score(&[file("../a", 1, 1)]), 35);
    assert_eq!(score(&[file("C:\\a", 1, 1)]), 20);
    assert_eq!(score(&[file("a", 1, 1), file("a", 1, 1)]), 10);
    assert_eq!(score(&[file("a.js", 1, 1)]), 12);
    assert_eq!(score(&[file("a.tar", 1, 1)]), 10);
    assert_eq!(score(&[file("a", 1, 15), file("b", 100, 100)]), 18);
    assert_eq!(score(&[file("a", 100, 1275)]), 8);
    assert_eq!(score(&[file("a", 100_000_000, 256 * 1024 * 1024)]), 12);
    assert_eq!(score(&[file("a", 100_000_000, 256 * 1024 * 1024 - 1)]), 0);
    assert_eq!(score(&[]), 0);
}

#[test]
fn rooted_names_count_as_absolute() {
    let survey = survey_entries(&[
        file("/etc/passwd", 1, 1),
        file("\\Windows\\x", 1, 1),
        file("D:\\x", 1, 1),
        file("a/D:/x", 1, 1),
        directory("/srv/"),
    ], Host::Unix);
    assert_eq!(survey.absolute_path_entries, 3);
    assert_eq!(survey.entry_count, 4);
}

#[test]
fn directories_are_left_out() {
    let survey = survey_entries(&[directory("../"), directory("a.exe/"), directory("a.exe/")], Host::Unix);
    assert_eq!(survey.traversal_entries, 0);
    assert_eq!(survey.executable_entries, 0);
    assert_eq!(survey.duplicate_paths, 0);
    assert_eq!(survey.entry_count, 0);
    assert!(survey.ratios.is_empty());
}

#[test]
fn duplicates_are_counted_by_path() {
    let survey = survey_entries(&[
        file("a", 1, 1),
        file("./a", 1, 1),
        file("a/", 1, 1),
        file("b", 1, 1),
        file("c\\d", 1, 1),
        file("c/d", 1, 1),
    ], Host::Unix);
    assert_eq!(survey.duplicate_paths, 2);
    assert_eq!(survey.entry_count, 3);
}

#[test]
fn expansion_of_nothing_and_to_nothing() {
    assert_eq!(expansion(0, 0), Fraction { part: 1, whole: 1 });
    assert_eq!(expansion(0, 7), Fraction { part: 7, whole: 1 });
    assert_eq!(expansion(4, 0), Fraction { part: 0, whole: 4 });
    assert_eq!(expansion(4, 10), Fraction { part: 10, whole: 4 });
}

#[test]
fn entry_order_makes_no_difference_and_no_count_shrinks() {
    let one = survey_entries(&[file("../a.exe", 1, 9), file("b", 2, 3), file("b", 4, 4)], Host::Unix);
    let other = survey_entries(&[file("b", 4, 4), file("../a.exe", 1, 9), file("b", 2, 3)], Host::Unix);
    assert_eq!(one.traversal_entries, other.traversal_entries);
    assert_eq!(one.duplicate_paths, other.duplicate_paths);
    assert_eq!(one.entry_count, other.entry_count);
    assert_eq!(one.archive_ratio, other.archive_ratio);
    assert_ne!(one.ratios, other.ratios);
    assert_eq!(measures(&one, 9.0, 1.0).max_ratio.value, measures(&other, 9.0, 1.0).max_ratio.value);
    let fewer = survey_entries(&[file("../a.exe", 1, 9), file("b", 2, 3)], Host::Unix);
    assert!(fewer.duplicate_paths <= one.duplicate_paths);
    assert!(fewer.total_uncompressed_bytes <= one.total_uncompressed_bytes);
    let same = || measures(&one, 100.0, 256.0);
    let low = analyze_archive("a", &fewer, same()).risk_score;
    let high = analyze_archive("a", &one, same()).risk_score;
    assert_eq!((low, high), (35 + 12, 35 + 12 + 10));
}

#[test]
fn a_threshold_that_is_no_number_is_never_crossed() {
    let survey = survey_entries(&[file("a", 1, 1_000_000)], Host::Unix);
    assert_eq!(analyzed(&survey, f64::NAN, 256.0).risk_score, 0);
    assert_eq!(analyzed(&survey, f64::INFINITY, 256.0).risk_score, 0);
}

#[test]
fn only_the_files_of_an_archive_count() {
    let plain = survey_entries(&[file("../a.exe", 1, 9), file("b", 2, 3)], Host::Unix);
    let mixed = survey_entries(
        &[directory("d/"), file("b", 2, 3), directory("../x.exe/"), file("../a.exe", 1, 9)],
        Host::Unix,
    );
    let one = analyzed(&plain, 9.0, 256.0);
    let other = analyzed(&mixed, 9.0, 256.0);
    assert_eq!(format!("{one:?}"), format!("{other:?}"));
    assert_eq!(one.risk_score, 35 + 12 + 18);
}

#[test]
fn a_name_that_is_all_extension_behind_a_drive_depends_on_the_host() {
    let entries = [file("C:.exe", 1, 1), file("C:.zip", 1, 1), file("C:\\a.exe", 1, 1)];
    let unix = survey_entries(&entries, Host::Unix);
    assert_eq!((unix.executable_entries, unix.nested_archives), (2, 1));
    let windows = survey_entries(&entries, Host::Windows);
    assert_eq!((windows.executable_entries, windows.nested_archives), (1, 0));
}
