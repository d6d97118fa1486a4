use zip_risk_auditor::cli::{parse_args, usage, CliOptions};
use zip_risk_auditor::number::Binary64;

fn parse(args: &[&str]) -> Result<CliOptions, String> {
    let args: Vec<String> = args.iter().map(|arg| arg.to_string()).collect();
    let numbers: Vec<Option<Binary64>> = args
        .iter()
        .map(|arg| arg.parse::<f64>().ok().map(|n| Binary64 { bits: n.to_bits() }))
        .collect();
    parse_args(&args, &numbers)
}

fn refused(args: &[&str]) -> String {
    match parse(args) {
        Ok(_) => panic!("accepted"),
        Err(message) => message,
    }
}

const USAGE: &str = "Usage:\n  zip-risk-auditor --input <path> [--input <path> ...] [--json-out report.json] [--markdown-out report.md]\n                    [--ratio-threshold 15] [--total-size-threshold-mb 256] [--fail-on-risk] [--top 5]";

#[test]
fn usage_has_three_lines() {
    assert_eq!(usage(), USAGE);
}

#[test]
fn defaults_apply_to_a_bare_input() {
    let options = parse(&["--input", "."]).unwrap();
    assert_eq!(options.inputs, vec![".".to_string()]);
    assert_eq!(options.json_out, None);
    assert_eq!(options.markdown_out, None);
    assert_eq!(options.ratio_threshold.bits, 15.0f64.to_bits());
    assert_eq!(options.total_size_threshold_mb.bits, 256.0f64.to_bits());
    assert!(!options.fail_on_risk);
    assert_eq!(options.top, 5);
}

#[test]
fn documented_command_lines_are_accepted() {
    let options = parse(&[
        "--input", ".", "--markdown-out", "reports/brief.md", "--json-out", "reports/brief.json",
    ])
    .unwrap();
    assert_eq!(options.markdown_out, Some("reports/brief.md".to_string()));
    assert_eq!(options.json_out, Some("reports/brief.json".to_string()));
    let options = parse(&["--input", "C:\\Downloads", "--ratio-threshold", "12", "--top", "8"]).unwrap();
    assert_eq!(options.ratio_threshold.bits, 12.0f64.to_bits());
    assert_eq!(options.top, 8);
}

#[test]
fn later_settings_are_made_over_earlier_ones() {
    let options = parse(&[
        "--top", "3", "--input", "a", "--fail-on-risk", "--top", "9", "--input", "b", "--json-out",
        "x", "--json-out", "--input",
    ])
    .unwrap();
    assert_eq!(options.top, 9);
    assert_eq!(options.inputs, vec!["a".to_string(), "b".to_string()]);
    assert_eq!(options.json_out, Some("--input".to_string()));
    assert!(options.fail_on_risk);
}

#[test]
fn usage_is_the_answer_to_help_nothing_and_missing_values() {
    assert_eq!(refused(&[]), USAGE);
    assert_eq!(refused(&["--help"]), USAGE);
    assert_eq!(refused(&["--input", "a", "-h"]), USAGE);
    for setting in [
        "--input", "--json-out", "--markdown-out", "--ratio-threshold", "--total-size-threshold-mb",
        "--top",
    ] {
        assert_eq!(refused(&["--input", "a", setting]), USAGE);
    }
}

#[test]
fn each_refusal_has_its_message() {
    assert_eq!(refused(&["--wat"]), format!("Unknown argument: --wat\n\n{USAGE}"));
    assert_eq!(
        refused(&["--fail-on-risk"]),
        format!("At least one --input path is required.\n\n{USAGE}")
    );
    assert_eq!(refused(&["--ratio-threshold", "x"]), "--ratio-threshold must be a number.");
    for low in ["1", "1.0", "0", "-3", "-inf"] {
        assert_eq!(
            refused(&["--ratio-threshold", low]),
            "--ratio-threshold must be greater than 1.0."
        );
    }
    assert_eq!(
        refused(&["--total-size-threshold-mb", ""]),
        "--total-size-threshold-mb must be a number."
    );
    for low in ["0", "-0.0", "-1"] {
        assert_eq!(
            refused(&["--total-size-threshold-mb", low]),
            "--total-size-threshold-mb must be greater than 0."
        );
    }
    assert_eq!(refused(&["--top", "-1"]), "--top must be a positive integer.");
    assert_eq!(refused(&["--top", "1.5"]), "--top must be a positive integer.");
    assert_eq!(refused(&["--top", "0"]), "--top must be at least 1.");
}

#[test]
fn thresholds_just_inside_are_accepted() {
    let options = parse(&[
        "--input", "a", "--ratio-threshold", "1.0000001", "--total-size-threshold-mb", "0.001",
    ])
    .unwrap();
    assert_eq!(options.ratio_threshold.bits, 1.0000001f64.to_bits());
    assert_eq!(options.total_size_threshold_mb.bits, 0.001f64.to_bits());
    assert!(parse(&["--input", "a", "--ratio-threshold", "nan"]).is_ok());
    assert!(parse(&["--input", "a", "--ratio-threshold", "inf"]).is_ok());
}

#[test]
fn the_first_fault_is_reported() {
    assert_eq!(refused(&["--top", "0", "--wat"]), "--top must be at least 1.");
    assert_eq!(refused(&["--wat", "--top", "0"]), format!("Unknown argument: --wat\n\n{USAGE}"));
}
