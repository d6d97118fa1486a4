//! The command line.

use crate::number::{Binary64, FIFTEEN_BITS, ONE_BITS, TWO_HUNDRED_FIFTY_SIX_BITS};
use crate::text::{count_value, texts};
use crate::text::{parse_count, text_eq};
use vstd::prelude::*;
use vstd::string::StringExecFns;

verus! {

/// What the command line asks for.
#[derive(Debug)]
pub struct CliOptions {
    pub inputs: Vec<String>,
    pub json_out: Option<String>,
    pub markdown_out: Option<String>,
    pub ratio_threshold: Binary64,
    pub total_size_threshold_mb: Binary64,
    pub fail_on_risk: bool,
    pub top: usize,
}

/// The content of `CliOptions`.
pub struct OptionsView {
    pub inputs: Seq<Seq<char>>,
    pub json_out: Option<Seq<char>>,
    pub markdown_out: Option<Seq<char>>,
    pub ratio_threshold: Binary64,
    pub total_size_threshold_mb: Binary64,
    pub fail_on_risk: bool,
    pub top: usize,
}

/// The content of a string, if there is one.
pub open spec fn optional_text(s: Option<String>) -> Option<Seq<char>> {
    match s {
        Some(text) => Some(text@),
        None => None,
    }
}

impl View for CliOptions {
    type V = OptionsView;

    open spec fn view(&self) -> OptionsView {
        OptionsView {
            inputs: texts(self.inputs@),
            json_out: optional_text(self.json_out),
            markdown_out: optional_text(self.markdown_out),
            ratio_threshold: self.ratio_threshold,
            total_size_threshold_mb: self.total_size_threshold_mb,
            fail_on_risk: self.fail_on_risk,
            top: self.top,
        }
    }
}

/// How the program is called.
pub open spec fn usage_text() -> Seq<char> {
    "Usage:"@ + "\n"@
        + "  zip-risk-auditor --input <path> [--input <path> ...] [--json-out report.json] [--markdown-out report.md]"@
        + "\n"@
        + "                    [--ratio-threshold 15] [--total-size-threshold-mb 256] [--fail-on-risk] [--top 5]"@
}

/// How the program is called.
pub fn usage() -> (text: String)
    ensures
        text@ == usage_text(),
{
    let mut text = "Usage:".to_owned();
    text.append("\n");
    text.append(
        "  zip-risk-auditor --input <path> [--input <path> ...] [--json-out report.json] [--markdown-out report.md]",
    );
    text.append("\n");
    text.append(
        "                    [--ratio-threshold 15] [--total-size-threshold-mb 256] [--fail-on-risk] [--top 5]",
    );
    text
}

/// What is asked for before anything is said.
pub open spec fn default_options() -> OptionsView {
    OptionsView {
        inputs: Seq::empty(),
        json_out: None,
        markdown_out: None,
        ratio_threshold: Binary64 { bits: FIFTEEN_BITS },
        total_size_threshold_mb: Binary64 { bits: TWO_HUNDRED_FIFTY_SIX_BITS },
        fail_on_risk: false,
        top: 5,
    }
}

/// Whether `number` can be the threshold of the expansion ratio: it is not 1 or less.
pub open spec fn ratio_allowed(number: Binary64) -> bool {
    !(Binary64 { bits: ONE_BITS }).ge(number)
}

/// Whether `number` can be the threshold of the total size: it is not 0 or less.
pub open spec fn size_allowed(number: Binary64) -> bool {
    !(Binary64 { bits: 0 }).ge(number)
}

/// Whether `arg` is a setting that the next argument gives the value of.
pub open spec fn takes_value(arg: Seq<char>) -> bool {
    ||| arg == "--input"@
    ||| arg == "--json-out"@
    ||| arg == "--markdown-out"@
    ||| arg == "--ratio-threshold"@
    ||| arg == "--total-size-threshold-mb"@
    ||| arg == "--top"@
}

/// What the setting `arg` with the given value makes of `options`. `number` is the
/// number that the value denotes, if it denotes one.
pub open spec fn set_value(
    arg: Seq<char>,
    value: Seq<char>,
    number: Option<Binary64>,
    options: OptionsView,
) -> Result<OptionsView, Seq<char>> {
    if arg == "--input"@ {
        Ok(OptionsView { inputs: options.inputs.push(value), ..options })
    } else if arg == "--json-out"@ {
        Ok(OptionsView { json_out: Some(value), ..options })
    } else if arg == "--markdown-out"@ {
        Ok(OptionsView { markdown_out: Some(value), ..options })
    } else if arg == "--ratio-threshold"@ {
        match number {
            None => Err("--ratio-threshold must be a number."@),
            Some(n) => if ratio_allowed(n) {
                Ok(OptionsView { ratio_threshold: n, ..options })
            } else {
                Err("--ratio-threshold must be greater than 1.0."@)
            },
        }
    } else if arg == "--total-size-threshold-mb"@ {
        match number {
            None => Err("--total-size-threshold-mb must be a number."@),
            Some(n) => if size_allowed(n) {
                Ok(OptionsView { total_size_threshold_mb: n, ..options })
            } else {
                Err("--total-size-threshold-mb must be greater than 0."@)
            },
        }
    } else {
        match count_value(value) {
            None => Err("--top must be a positive integer."@),
            Some(n) => if n > 0 {
                Ok(OptionsView { top: n, ..options })
            } else {
                Err("--top must be at least 1."@)
            },
        }
    }
}

/// What the arguments from position `at` on make of `options`.
pub open spec fn scan(
    args: Seq<Seq<char>>,
    numbers: Seq<Option<Binary64>>,
    at: int,
    options: OptionsView,
) -> Result<OptionsView, Seq<char>>
    decreases args.len() - at,
{
    if at < 0 || at >= args.len() {
        Ok(options)
    } else if takes_value(args[at]) {
        if at + 1 >= args.len() {
            Err(usage_text())
        } else {
            match set_value(args[at], args[at + 1], numbers[at + 1], options) {
                Ok(next) => scan(args, numbers, at + 2, next),
                Err(message) => Err(message),
            }
        }
    } else if args[at] == "--fail-on-risk"@ {
        scan(args, numbers, at + 1, OptionsView { fail_on_risk: true, ..options })
    } else if args[at] == "--help"@ || args[at] == "-h"@ {
        Err(usage_text())
    } else {
        Err("Unknown argument: "@ + args[at] + "\n\n"@ + usage_text())
    }
}

/// What the command line `args` asks for, or the message for one that asks for
/// nothing. `numbers` holds the number that each argument denotes, if any.
pub open spec fn parsed(args: Seq<Seq<char>>, numbers: Seq<Option<Binary64>>) -> Result<
    OptionsView,
    Seq<char>,
> {
    if args.len() == 0 {
        Err(usage_text())
    } else {
        match scan(args, numbers, 0, default_options()) {
            Err(message) => Err(message),
            Ok(options) => if options.inputs.len() == 0 {
                Err("At least one --input path is required.\n\n"@ + usage_text())
            } else {
                Ok(options)
            },
        }
    }
}

/// The content of what parsing returned.
pub open spec fn parse_view(r: Result<CliOptions, String>) -> Result<OptionsView, Seq<char>> {
    match r {
        Ok(options) => Ok(options@),
        Err(message) => Err(message@),
    }
}

fn is_value_setting(arg: &str) -> (r: bool)
    ensures
        r == takes_value(arg@),
{
    text_eq(arg, "--input") || text_eq(arg, "--json-out") || text_eq(arg, "--markdown-out")
        || text_eq(arg, "--ratio-threshold") || text_eq(arg, "--total-size-threshold-mb")
        || text_eq(arg, "--top")
}

/// Applies the setting `arg` with the given value.
fn apply_value(
    arg: &str,
    value: &String,
    number: Option<Binary64>,
    options: &mut CliOptions,
) -> (r: Result<(), String>)
    requires
        takes_value(arg@),
    ensures
        match r {
            Ok(_) => set_value(arg@, value@, number, old(options)@) == Ok::<OptionsView, Seq<char>>(
                final(options)@,
            ),
            Err(message) => set_value(arg@, value@, number, old(options)@) == Err::<
                OptionsView,
                Seq<char>,
            >(message@),
        },
{
    if text_eq(arg, "--input") {
        options.inputs.push(value.clone());
        assert(texts(options.inputs@) =~= texts(old(options).inputs@).push(value@));
    } else if text_eq(arg, "--json-out") {
        options.json_out = Some(value.clone());
    } else if text_eq(arg, "--markdown-out") {
        options.markdown_out = Some(value.clone());
    } else if text_eq(arg, "--ratio-threshold") {
        match number {
            None => {
                return Err("--ratio-threshold must be a number.".to_owned());
            },
            Some(n) => {
                if (Binary64 { bits: ONE_BITS }).at_least(n) {
                    return Err("--ratio-threshold must be greater than 1.0.".to_owned());
                }
                options.ratio_threshold = n;
            },
        }
    } else if text_eq(arg, "--total-size-threshold-mb") {
        match number {
            None => {
                return Err("--total-size-threshold-mb must be a number.".to_owned());
            },
            Some(n) => {
                if (Binary64 { bits: 0 }).at_least(n) {
                    return Err("--total-size-threshold-mb must be greater than 0.".to_owned());
                }
                options.total_size_threshold_mb = n;
            },
        }
    } else {
        match parse_count(value.as_str()) {
            None => {
                return Err("--top must be a positive integer.".to_owned());
            },
            Some(n) => {
                if n == 0 {
                    return Err("--top must be at least 1.".to_owned());
                }
                options.top = n;
            },
        }
    }
    Ok(())
}

/// Reads the command line. `numbers` holds the number that each argument denotes, if
/// it denotes one.
pub fn parse_args(args: &[String], numbers: &[Option<Binary64>]) -> (r: Result<CliOptions, String>)
    requires
        args@.len() == numbers@.len(),
    ensures
        parse_view(r) == parsed(texts(args@), numbers@),
        r matches Ok(options) ==> options.inputs@.len() > 0 && options.top > 0 && ratio_allowed(
            options.ratio_threshold,
        ) && size_allowed(options.total_size_threshold_mb),
{
    if args.len() == 0 {
        return Err(usage());
    }
    let mut options = CliOptions {
        inputs: Vec::new(),
        json_out: None,
        markdown_out: None,
        ratio_threshold: Binary64 { bits: FIFTEEN_BITS },
        total_size_threshold_mb: Binary64 { bits: TWO_HUNDRED_FIFTY_SIX_BITS },
        fail_on_risk: false,
        top: 5,
    };
    assert(options@.inputs =~= Seq::<Seq<char>>::empty());
    let mut index: usize = 0;
    while index < args.len()
        invariant
            args@.len() == numbers@.len(),
            index <= args@.len(),
            scan(texts(args@), numbers@, 0, default_options()) == scan(
                texts(args@),
                numbers@,
                index as int,
                options@,
            ),
        decreases args@.len() - index,
    {
        let arg = args[index].as_str();
        assert(texts(args@)[index as int] == arg@);
        if is_value_setting(arg) {
            index = index + 1;
            if index >= args.len() {
                return Err(usage());
            }
            assert(texts(args@)[index as int] == args@[index as int]@);
            match apply_value(arg, &args[index], numbers[index], &mut options) {
                Ok(_) => {},
                Err(message) => {
                    return Err(message);
                },
            }
        } else if text_eq(arg, "--fail-on-risk") {
            options.fail_on_risk = true;
        } else if text_eq(arg, "--help") || text_eq(arg, "-h") {
            return Err(usage());
        } else {
            let mut message = "Unknown argument: ".to_owned();
            message.append(arg);
            message.append("\n\n");
            message.append(usage().as_str());
            return Err(message);
        }
        index = index + 1;
    }
    if options.inputs.len() == 0 {
        let mut message = "At least one --input path is required.\n\n".to_owned();
        message.append(usage().as_str());
        return Err(message);
    }
    proof {
        scan_keeps_validity(texts(args@), numbers@, 0, default_options());
    }
    Ok(options)
}

/// Whether the thresholds and the number of archives to show are allowed.
pub open spec fn valid(options: OptionsView) -> bool {
    &&& options.top > 0
    &&& ratio_allowed(options.ratio_threshold)
    &&& size_allowed(options.total_size_threshold_mb)
}

/// No argument makes valid options invalid.
proof fn scan_keeps_validity(
    args: Seq<Seq<char>>,
    numbers: Seq<Option<Binary64>>,
    at: int,
    options: OptionsView,
)
    requires
        valid(options),
    ensures
        scan(args, numbers, at, options) matches Ok(scanned) ==> valid(scanned),
    decreases args.len() - at,
{
    if 0 <= at < args.len() {
        if takes_value(args[at]) {
            if at + 1 < args.len() {
                if let Ok(next) = set_value(args[at], args[at + 1], numbers[at + 1], options) {
                    scan_keeps_validity(args, numbers, at + 2, next);
                }
            }
        } else if args[at] == "--fail-on-risk"@ {
            scan_keeps_validity(
                args,
                numbers,
                at + 1,
                OptionsView { fail_on_risk: true, ..options },
            );
        }
    }
}

/// What stands in front of the arguments does not matter to those behind it.
proof fn scan_behind(
    front: Seq<Seq<char>>,
    front_numbers: Seq<Option<Binary64>>,
    back: Seq<Seq<char>>,
    back_numbers: Seq<Option<Binary64>>,
    at: int,
    options: OptionsView,
)
    requires
        front.len() == front_numbers.len(),
        back.len() == back_numbers.len(),
        0 <= at,
    ensures
        scan(front + back, front_numbers + back_numbers, front.len() + at, options) == scan(
            back,
            back_numbers,
            at,
            options,
        ),
    decreases back.len() - at,
{
    if at < back.len() {
        if takes_value(back[at]) {
            if at + 1 < back.len() {
                if let Ok(next) = set_value(back[at], back[at + 1], back_numbers[at + 1], options) {
                    scan_behind(front, front_numbers, back, back_numbers, at + 2, next);
                }
            }
        } else if back[at] == "--fail-on-risk"@ {
            scan_behind(
                front,
                front_numbers,
                back,
                back_numbers,
                at + 1,
                OptionsView { fail_on_risk: true, ..options },
            );
        }
    }
}

/// The arguments are taken from left to right: more arguments behind some that are
/// in order continue from what those made of the options, so that a later setting
/// is made over an earlier one.
pub proof fn settings_apply_in_order(
    front: Seq<Seq<char>>,
    front_numbers: Seq<Option<Binary64>>,
    back: Seq<Seq<char>>,
    back_numbers: Seq<Option<Binary64>>,
    at: int,
    options: OptionsView,
)
    requires
        front.len() == front_numbers.len(),
        back.len() == back_numbers.len(),
        0 <= at <= front.len(),
        scan(front, front_numbers, at, options) is Ok,
    ensures
        scan(front + back, front_numbers + back_numbers, at, options) == scan(
            back,
            back_numbers,
            0,
            scan(front, front_numbers, at, options)->Ok_0,
        ),
    decreases front.len() - at,
{
    if at == front.len() {
        scan_behind(front, front_numbers, back, back_numbers, 0, options);
    } else if takes_value(front[at]) {
        let next = set_value(front[at], front[at + 1], front_numbers[at + 1], options)->Ok_0;
        settings_apply_in_order(front, front_numbers, back, back_numbers, at + 2, next);
    } else {
        settings_apply_in_order(
            front,
            front_numbers,
            back,
            back_numbers,
            at + 1,
            OptionsView { fail_on_risk: true, ..options },
        );
    }
}

} // verus!
