//! What the command line asks for, told from the list of its arguments.

use crate::cli::{
    default_options, parsed, scan, set_value, takes_value, usage_text, CliOptions, OptionsView,
};
use crate::number::Binary64;
use crate::text::{count_value, texts};
use vstd::prelude::*;

verus! {

/// Whether the argument is followed by a value.
pub open spec fn wants_value(arg: Seq<char>) -> bool {
    ||| arg == "--input"@
    ||| arg == "--json-out"@
    ||| arg == "--markdown-out"@
    ||| arg == "--ratio-threshold"@
    ||| arg == "--total-size-threshold-mb"@
    ||| arg == "--top"@
}

/// Whether reading from `at` on, a setting is expected at `k`: the argument there is
/// not taken for the value of the one before.
pub open spec fn reaches(args: Seq<Seq<char>>, at: int, k: int) -> bool
    decreases k - at,
{
    if at >= k {
        at == k
    } else if wants_value(args[at]) {
        at + 2 <= k && reaches(args, at + 2, k)
    } else {
        reaches(args, at + 1, k)
    }
}

/// The values behind each `--input` where a setting is expected, from `at` on.
pub open spec fn inputs_from(args: Seq<Seq<char>>, at: int) -> Seq<Seq<char>>
    decreases args.len() - at,
{
    if at >= args.len() {
        Seq::empty()
    } else if !wants_value(args[at]) {
        inputs_from(args, at + 1)
    } else if at + 1 == args.len() {
        Seq::empty()
    } else if args[at] == "--input"@ {
        seq![args[at + 1]] + inputs_from(args, at + 2)
    } else {
        inputs_from(args, at + 2)
    }
}

/// Whether the argument at `k` is a setting that is in order, with its value.
pub open spec fn in_order_at(
    args: Seq<Seq<char>>,
    numbers: Seq<Option<Binary64>>,
    k: int,
) -> bool {
    ||| args[k] == "--fail-on-risk"@
    ||| k + 1 < args.len() && {
        ||| args[k] == "--input"@
        ||| args[k] == "--json-out"@
        ||| args[k] == "--markdown-out"@
        ||| args[k] == "--ratio-threshold"@ && (numbers[k + 1] matches Some(n) && !(Binary64 {
            bits: 0x3ff0_0000_0000_0000,
        }).ge(n))
        ||| args[k] == "--total-size-threshold-mb"@ && (numbers[k + 1] matches Some(n) && !(
        Binary64 { bits: 0 }).ge(n))
        ||| args[k] == "--top"@ && (count_value(args[k + 1]) matches Some(n) && n > 0)
    }
}

/// The settings are told apart by their names.
proof fn names_differ()
    ensures
        "--input"@ != "--json-out"@,
        "--input"@ != "--markdown-out"@,
        "--input"@ != "--ratio-threshold"@,
        "--input"@ != "--total-size-threshold-mb"@,
        "--input"@ != "--top"@,
        "--input"@ != "--fail-on-risk"@,
        "--input"@ != "--help"@,
        "--input"@ != "-h"@,
        "--json-out"@ != "--markdown-out"@,
        "--json-out"@ != "--ratio-threshold"@,
        "--json-out"@ != "--total-size-threshold-mb"@,
        "--json-out"@ != "--top"@,
        "--json-out"@ != "--fail-on-risk"@,
        "--json-out"@ != "--help"@,
        "--json-out"@ != "-h"@,
        "--markdown-out"@ != "--ratio-threshold"@,
        "--markdown-out"@ != "--total-size-threshold-mb"@,
        "--markdown-out"@ != "--top"@,
        "--markdown-out"@ != "--fail-on-risk"@,
        "--markdown-out"@ != "--help"@,
        "--markdown-out"@ != "-h"@,
        "--ratio-threshold"@ != "--total-size-threshold-mb"@,
        "--ratio-threshold"@ != "--top"@,
        "--ratio-threshold"@ != "--fail-on-risk"@,
        "--ratio-threshold"@ != "--help"@,
        "--ratio-threshold"@ != "-h"@,
        "--total-size-threshold-mb"@ != "--top"@,
        "--total-size-threshold-mb"@ != "--fail-on-risk"@,
        "--total-size-threshold-mb"@ != "--help"@,
        "--total-size-threshold-mb"@ != "-h"@,
        "--top"@ != "--fail-on-risk"@,
        "--top"@ != "--help"@,
        "--top"@ != "-h"@,
        "--fail-on-risk"@ != "--help"@,
        "--fail-on-risk"@ != "-h"@,
        "--help"@ != "-h"@,
{
    reveal_strlit("--input");
    reveal_strlit("--json-out");
    reveal_strlit("--markdown-out");
    reveal_strlit("--ratio-threshold");
    reveal_strlit("--total-size-threshold-mb");
    reveal_strlit("--top");
    reveal_strlit("--fail-on-risk");
    reveal_strlit("--help");
    reveal_strlit("-h");
    assert("--input"@.len() == 7);
    assert("--json-out"@.len() == 10);
    assert("--markdown-out"@.len() == 14);
    assert("--ratio-threshold"@.len() == 17);
    assert("--total-size-threshold-mb"@.len() == 25);
    assert("--top"@.len() == 5);
    assert("--fail-on-risk"@.len() == 14);
    assert("--help"@.len() == 6);
    assert("-h"@.len() == 2);
    assert("--markdown-out"@[2] != "--fail-on-risk"@[2]);
}

/// What the arguments from `at` on make of the options, setting by setting.
proof fn scanned_by_settings(
    args: Seq<Seq<char>>,
    numbers: Seq<Option<Binary64>>,
    at: int,
    options: OptionsView,
    k: int,
)
    requires
        0 <= at,
        scan(args, numbers, at, options) is Ok,
    ensures
        ({
            let scanned = scan(args, numbers, at, options)->Ok_0;
            &&& scanned.inputs == options.inputs + inputs_from(args, at)
            &&& at <= k < args.len() && reaches(args, at, k) ==> in_order_at(args, numbers, k)
        }),
        0 <= k < args.len() && reaches(args, at, k) && args[k] == "--json-out"@ && (forall|j: int|
            k < j < args.len() && #[trigger] reaches(args, at, j) ==> args[j] != "--json-out"@) ==> scan(args, numbers, at, options)->Ok_0.json_out == Some(args[k + 1]),
        (forall|j: int|
            at <= j < args.len() && #[trigger] reaches(args, at, j) ==> args[j] != "--json-out"@) ==> scan(args, numbers, at, options)->Ok_0.json_out == options.json_out,
        0 <= k < args.len() && reaches(args, at, k) && args[k] == "--markdown-out"@ && (forall|j: int|
            k < j < args.len() && #[trigger] reaches(args, at, j) ==> args[j] != "--markdown-out"@) ==> scan(args, numbers, at, options)->Ok_0.markdown_out == Some(args[k + 1]),
        (forall|j: int|
            at <= j < args.len() && #[trigger] reaches(args, at, j) ==> args[j] != "--markdown-out"@) ==> scan(args, numbers, at, options)->Ok_0.markdown_out == options.markdown_out,
        0 <= k < args.len() && reaches(args, at, k) && args[k] == "--ratio-threshold"@ && (forall|j: int|
            k < j < args.len() && #[trigger] reaches(args, at, j) ==> args[j] != "--ratio-threshold"@) ==> numbers[k + 1] == Some(scan(args, numbers, at, options)->Ok_0.ratio_threshold),
        (forall|j: int|
            at <= j < args.len() && #[trigger] reaches(args, at, j) ==> args[j] != "--ratio-threshold"@) ==> scan(args, numbers, at, options)->Ok_0.ratio_threshold == options.ratio_threshold,
        0 <= k < args.len() && reaches(args, at, k) && args[k] == "--total-size-threshold-mb"@ && (forall|j: int|
            k < j < args.len() && #[trigger] reaches(args, at, j) ==> args[j] != "--total-size-threshold-mb"@) ==> numbers[k + 1] == Some(scan(args, numbers, at, options)->Ok_0.total_size_threshold_mb),
        (forall|j: int|
            at <= j < args.len() && #[trigger] reaches(args, at, j) ==> args[j] != "--total-size-threshold-mb"@) ==> scan(args, numbers, at, options)->Ok_0.total_size_threshold_mb == options.total_size_threshold_mb,
        0 <= k < args.len() && reaches(args, at, k) && args[k] == "--top"@ && (forall|j: int|
            k < j < args.len() && #[trigger] reaches(args, at, j) ==> args[j] != "--top"@) ==> count_value(args[k + 1]) == Some(scan(args, numbers, at, options)->Ok_0.top),
        (forall|j: int|
            at <= j < args.len() && #[trigger] reaches(args, at, j) ==> args[j] != "--top"@) ==> scan(args, numbers, at, options)->Ok_0.top == options.top,
        (forall|j: int|
            at <= j < args.len() && #[trigger] reaches(args, at, j) ==> args[j] != "--fail-on-risk"@) ==> scan(args, numbers, at, options)->Ok_0.fail_on_risk == options.fail_on_risk,
        at <= k < args.len() && reaches(args, at, k) && args[k] == "--fail-on-risk"@ ==> scan(args, numbers, at, options)->Ok_0.fail_on_risk,
        options.fail_on_risk ==> scan(args, numbers, at, options)->Ok_0.fail_on_risk,
    decreases args.len() - at,
{
    if at >= args.len() {
        assert(options.inputs + inputs_from(args, at) =~= options.inputs);
    } else {
        let arg = args[at];
        let wide = wants_value(arg);
        assert(wide == takes_value(arg));
        let next: int = if wide {
            at + 2
        } else {
            at + 1
        };
        let changed = if wide {
            set_value(arg, args[at + 1], numbers[at + 1], options)->Ok_0
        } else {
            OptionsView { fail_on_risk: true, ..options }
        };
        names_differ();
        assert(scan(args, numbers, at, options) == scan(args, numbers, next, changed));
        scanned_by_settings(args, numbers, next, changed, k);
        assert(reaches(args, at, at));
        assert forall|j: int| at < j < args.len() implies #[trigger] reaches(args, at, j)
            == reaches(args, next, j) by {
        }
        assert forall|j: int| next <= j < args.len() && #[trigger] reaches(
            args,
            next,
            j,
        ) implies reaches(args, at, j) by {
        }
        let scanned = scan(args, numbers, at, options)->Ok_0;
        assert(scanned.inputs =~= options.inputs + inputs_from(args, at));
    }
}

/// What accepted arguments ask for, field by field: each field is what stands behind
/// the last of its own setting, whatever other settings stand before or behind it,
/// and what it is by default if that setting is not there. The inputs are the values
/// behind each `--input`, in order. Every setting is in order.
pub proof fn options_by_settings(
    args: Seq<Seq<char>>,
    numbers: Seq<Option<Binary64>>,
    options: CliOptions,
    k: int,
)
    requires
        parsed(args, numbers) == Ok::<OptionsView, Seq<char>>(options@),
    ensures
        0 <= k < args.len() && reaches(args, 0, k) && args[k] == "--json-out"@ && (forall|j: int|
            k < j < args.len() && #[trigger] reaches(args, 0, j) ==> args[j] != "--json-out"@) ==> (options.json_out matches Some(
            path,
        ) && path@ == args[k + 1]),
        (forall|j: int|
            0 <= j < args.len() && #[trigger] reaches(args, 0, j) ==> args[j] != "--json-out"@) ==> options.json_out is None,
        0 <= k < args.len() && reaches(args, 0, k) && args[k] == "--markdown-out"@ && (forall|j: int|
            k < j < args.len() && #[trigger] reaches(args, 0, j) ==> args[j] != "--markdown-out"@) ==> (options.markdown_out matches Some(
            path,
        ) && path@ == args[k + 1]),
        (forall|j: int|
            0 <= j < args.len() && #[trigger] reaches(args, 0, j) ==> args[j] != "--markdown-out"@) ==> options.markdown_out is None,
        0 <= k < args.len() && reaches(args, 0, k) && args[k] == "--ratio-threshold"@ && (forall|j: int|
            k < j < args.len() && #[trigger] reaches(args, 0, j) ==> args[j] != "--ratio-threshold"@) ==> numbers[k + 1] == Some(
            options.ratio_threshold,
        ),
        (forall|j: int|
            0 <= j < args.len() && #[trigger] reaches(args, 0, j) ==> args[j] != "--ratio-threshold"@) ==> options.ratio_threshold.bits
            == 0x402e_0000_0000_0000,
        0 <= k < args.len() && reaches(args, 0, k) && args[k] == "--total-size-threshold-mb"@ && (forall|j: int|
            k < j < args.len() && #[trigger] reaches(args, 0, j) ==> args[j] != "--total-size-threshold-mb"@) ==> numbers[k + 1] == Some(
            options.total_size_threshold_mb,
        ),
        (forall|j: int|
            0 <= j < args.len() && #[trigger] reaches(args, 0, j) ==> args[j] != "--total-size-threshold-mb"@) ==> options.total_size_threshold_mb.bits
            == 0x4070_0000_0000_0000,
        0 <= k < args.len() && reaches(args, 0, k) && args[k] == "--top"@ && (forall|j: int|
            k < j < args.len() && #[trigger] reaches(args, 0, j) ==> args[j] != "--top"@) ==> count_value(args[k + 1]) == Some(
            options.top,
        ),
        (forall|j: int|
            0 <= j < args.len() && #[trigger] reaches(args, 0, j) ==> args[j] != "--top"@) ==> options.top == 5,
        0 <= k < args.len() && reaches(args, 0, k) && args[k] == "--fail-on-risk"@ ==> options.fail_on_risk,
        (forall|j: int|
            0 <= j < args.len() && #[trigger] reaches(args, 0, j) ==> args[j] != "--fail-on-risk"@) ==> !options.fail_on_risk,
        options.inputs@.len() == inputs_from(args, 0).len() > 0,
        forall|i: int|
            0 <= i < options.inputs@.len() ==> (#[trigger] options.inputs@[i])@ == inputs_from(
                args,
                0,
            )[i],
        0 <= k < args.len() && reaches(args, 0, k) ==> in_order_at(args, numbers, k),
{
    scanned_by_settings(args, numbers, 0, default_options(), k);
    let scanned = scan(args, numbers, 0, default_options())->Ok_0;
    assert(options@ == scanned);
    assert(options@.json_out == crate::cli::optional_text(options.json_out));
    assert(options@.markdown_out == crate::cli::optional_text(options.markdown_out));
    assert(scanned.inputs =~= inputs_from(args, 0));
    assert(options@.inputs == texts(options.inputs@));
    assert forall|i: int| 0 <= i < options.inputs@.len() implies (
    #[trigger] options.inputs@[i])@ == inputs_from(args, 0)[i] by {
        assert(texts(options.inputs@)[i] == options.inputs@[i]@);
    }
}

/// The message for the argument at `k`, which is not in order.
spec fn objection(args: Seq<Seq<char>>, numbers: Seq<Option<Binary64>>, k: int) -> Seq<char> {
    if wants_value(args[k]) {
        if k + 1 >= args.len() {
            usage_text()
        } else if args[k] == "--ratio-threshold"@ {
            if numbers[k + 1] is None {
                "--ratio-threshold must be a number."@
            } else {
                "--ratio-threshold must be greater than 1.0."@
            }
        } else if args[k] == "--total-size-threshold-mb"@ {
            if numbers[k + 1] is None {
                "--total-size-threshold-mb must be a number."@
            } else {
                "--total-size-threshold-mb must be greater than 0."@
            }
        } else if count_value(args[k + 1]) is None {
            "--top must be a positive integer."@
        } else {
            "--top must be at least 1."@
        }
    } else if args[k] == "--help"@ || args[k] == "-h"@ {
        usage_text()
    } else {
        "Unknown argument: "@ + args[k] + "\n\n"@ + usage_text()
    }
}

/// The arguments from `at` on are answered with the objection to the first that is not
/// in order.
proof fn scan_stops_at(
    args: Seq<Seq<char>>,
    numbers: Seq<Option<Binary64>>,
    at: int,
    options: OptionsView,
    k: int,
)
    requires
        0 <= at <= k < args.len(),
        reaches(args, at, k),
        !in_order_at(args, numbers, k),
        forall|j: int|
            at <= j < k && #[trigger] reaches(args, at, j) ==> in_order_at(args, numbers, j),
    ensures
        scan(args, numbers, at, options) == Err::<OptionsView, Seq<char>>(
            objection(args, numbers, k),
        ),
    decreases k - at,
{
    names_differ();
    let arg = args[at];
    assert(wants_value(arg) == takes_value(arg));
    if at < k {
        assert(reaches(args, at, at));
        assert(in_order_at(args, numbers, at));
        let next: int = if wants_value(arg) {
            at + 2
        } else {
            at + 1
        };
        let changed = if wants_value(arg) {
            set_value(arg, args[at + 1], numbers[at + 1], options)->Ok_0
        } else {
            OptionsView { fail_on_risk: true, ..options }
        };
        assert(scan(args, numbers, at, options) == scan(args, numbers, next, changed));
        assert forall|j: int| next <= j < k && #[trigger] reaches(
            args,
            next,
            j,
        ) implies in_order_at(args, numbers, j) by {
            assert(reaches(args, at, j));
        }
        scan_stops_at(args, numbers, next, changed, k);
    }
}

/// Arguments that are all in order are accepted.
proof fn scan_accepts(
    args: Seq<Seq<char>>,
    numbers: Seq<Option<Binary64>>,
    at: int,
    options: OptionsView,
)
    requires
        0 <= at,
        forall|j: int|
            at <= j < args.len() && #[trigger] reaches(args, at, j) ==> in_order_at(
                args,
                numbers,
                j,
            ),
    ensures
        scan(args, numbers, at, options) is Ok,
    decreases args.len() - at,
{
    if at < args.len() {
        names_differ();
        let arg = args[at];
        assert(wants_value(arg) == takes_value(arg));
        assert(reaches(args, at, at));
        assert(in_order_at(args, numbers, at));
        let next: int = if wants_value(arg) {
            at + 2
        } else {
            at + 1
        };
        let changed = if wants_value(arg) {
            set_value(arg, args[at + 1], numbers[at + 1], options)->Ok_0
        } else {
            OptionsView { fail_on_risk: true, ..options }
        };
        assert(scan(args, numbers, at, options) == scan(args, numbers, next, changed));
        assert forall|j: int| next <= j < args.len() && #[trigger] reaches(
            args,
            next,
            j,
        ) implies in_order_at(args, numbers, j) by {
            assert(reaches(args, at, j));
        }
        scan_accepts(args, numbers, next, changed);
    }
}

/// Arguments are refused for the first one that is not in order, each kind of fault
/// with its own message.
pub proof fn refusal_by_argument(args: Seq<Seq<char>>, numbers: Seq<Option<Binary64>>, k: int)
    requires
        0 <= k < args.len(),
        reaches(args, 0, k),
        !in_order_at(args, numbers, k),
        forall|j: int|
            0 <= j < k && #[trigger] reaches(args, 0, j) ==> in_order_at(args, numbers, j),
    ensures
        parsed(args, numbers) is Err,
        wants_value(args[k]) && k + 1 == args.len() ==> parsed(args, numbers)->Err_0
            == usage_text(),
        k + 1 < args.len() && args[k] == "--ratio-threshold"@ ==> parsed(args, numbers)->Err_0 == if numbers[k
            + 1] is None {
            "--ratio-threshold must be a number."@
        } else {
            "--ratio-threshold must be greater than 1.0."@
        },
        k + 1 < args.len() && args[k] == "--total-size-threshold-mb"@ ==> parsed(args, numbers)->Err_0 == if numbers[k
            + 1] is None {
            "--total-size-threshold-mb must be a number."@
        } else {
            "--total-size-threshold-mb must be greater than 0."@
        },
        k + 1 < args.len() && args[k] == "--top"@ ==> parsed(args, numbers)->Err_0 == if count_value(
            args[k + 1],
        ) is None {
            "--top must be a positive integer."@
        } else {
            "--top must be at least 1."@
        },
        args[k] == "--help"@ || args[k] == "-h"@ ==> parsed(args, numbers)->Err_0 == usage_text(),
        !wants_value(args[k]) && args[k] != "--help"@ && args[k] != "-h"@ ==> parsed(
            args,
            numbers,
        )->Err_0 == "Unknown argument: "@ + args[k] + "\n\n"@ + usage_text(),
{
    names_differ();
    scan_stops_at(args, numbers, 0, default_options(), k);
}

/// Arguments that are all in order are accepted exactly if an input is among them; no
/// arguments at all, and arguments without an input, are answered with how the
/// program is called.
pub proof fn acceptance_by_arguments(args: Seq<Seq<char>>, numbers: Seq<Option<Binary64>>)
    requires
        forall|j: int|
            0 <= j < args.len() && #[trigger] reaches(args, 0, j) ==> in_order_at(
                args,
                numbers,
                j,
            ),
    ensures
        parsed(args, numbers) is Ok <==> inputs_from(args, 0).len() > 0,
        args.len() == 0 ==> parsed(args, numbers) == Err::<OptionsView, Seq<char>>(usage_text()),
        args.len() > 0 && inputs_from(args, 0).len() == 0 ==> parsed(args, numbers) == Err::<
            OptionsView,
            Seq<char>,
        >("At least one --input path is required.\n\n"@ + usage_text()),
        usage_text() == "Usage:"@ + "\n"@
            + "  zip-risk-auditor --input <path> [--input <path> ...] [--json-out report.json] [--markdown-out report.md]"@
            + "\n"@
            + "                    [--ratio-threshold 15] [--total-size-threshold-mb 256] [--fail-on-risk] [--top 5]"@,
{
    scan_accepts(args, numbers, 0, default_options());
    scanned_by_settings(args, numbers, 0, default_options(), 0);
    let scanned = scan(args, numbers, 0, default_options())->Ok_0;
    assert(scanned.inputs =~= inputs_from(args, 0));
}

} // verus!
