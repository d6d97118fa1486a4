use zip_risk_auditor::number::{
    max_ratio, Binary64, FIFTEEN_BITS, ONE_BITS, TWO_HUNDRED_FIFTY_SIX_BITS,
};
use zip_risk_auditor::order::{char_codes, is_before};
use zip_risk_auditor::text::{
    chars_eq, decimal, join, pad_right, parse_count, replace_char, text_eq, to_chars,
    to_lower, trim,
};

fn binary(value: f64) -> Binary64 {
    Binary64 { bits: value.to_bits() }
}

#[test]
fn characters_come_in_order() {
    let chars = to_chars("aß😀");
    assert_eq!(chars, vec!['a', 'ß', '😀']);
    assert!(chars_eq(&chars, &['a', 'ß', '😀']));
    assert!(!chars_eq(&chars, &['a', 'ß']));
    assert!(text_eq("x", "x"));
    assert!(!text_eq("x", "y"));
    assert!(!text_eq("x", "xx"));
}

#[test]
fn decimals_are_those_of_the_standard_library() {
    for n in [0u64, 7, 9, 10, 99, 100, 12345, u64::MAX] {
        assert_eq!(decimal(n), n.to_string());
        assert_eq!(parse_count(&decimal(n)), Some(n as usize));
    }
}

#[test]
fn counts_are_read_like_the_standard_library() {
    let cases = [
        "0", "5", "+5", "007", "", "+", "-1", "-0", "++1", " 1", "1 ", "1_000", "١", "x",
        "18446744073709551615", "18446744073709551616", "99999999999999999999999",
        "000000000000000000000000000001",
    ];
    for case in cases {
        assert_eq!(parse_count(case), case.parse::<usize>().ok(), "{case}");
    }
}

#[test]
fn case_and_replacement() {
    assert_eq!(to_lower(&to_chars("AbZz[É")), "abzz[É");
    assert_eq!(replace_char("..\\a\\b", '\\', '/'), "../a/b");
    assert_eq!(replace_char("", '\\', '/'), "");
}

#[test]
fn trimming_is_that_of_the_standard_library() {
    let cases = [
        "", " ", " a ", "\t\r\n2024\u{85}\n", "\u{3000}x\u{2009}y\u{a0}", "a b", "\u{200b}a",
        "\u{1680}\u{2028}z\u{2029}\u{202f}\u{205f}",
    ];
    for case in cases {
        assert_eq!(trim(case), case.trim(), "{case:?}");
    }
}

#[test]
fn padding_and_joining() {
    assert_eq!(pad_right("7", 4), "7   ");
    assert_eq!(pad_right("12345", 4), "12345");
    assert_eq!(pad_right("é", 3), "é  ");
    assert_eq!(join(&[], "; "), "");
    assert_eq!(join(&["a".to_string()], "; "), "a");
    assert_eq!(join(&["a".to_string(), "".to_string(), "c".to_string()], "; "), "a; ; c");
}

#[test]
fn constants_are_the_numbers_they_name() {
    assert_eq!(ONE_BITS, 1.0f64.to_bits());
    assert_eq!(FIFTEEN_BITS, 15.0f64.to_bits());
    assert_eq!(TWO_HUNDRED_FIFTY_SIX_BITS, 256.0f64.to_bits());
}

#[test]
fn order_of_patterns_is_that_of_the_numbers() {
    let values = [
        0.0, -0.0, 1.0, -1.0, 0.5, 15.0, 1e300, -1e300, f64::INFINITY, f64::NEG_INFINITY, f64::NAN,
        -f64::NAN, f64::MIN_POSITIVE, 5e-324, 1.0000000000000002,
    ];
    for a in values {
        assert_eq!(binary(a).not_a_number(), a.is_nan());
        for b in values {
            assert_eq!(binary(a).at_least(binary(b)), a >= b, "{a} {b}");
            assert_eq!(binary(a).above(binary(b)), a > b, "{a} {b}");
            let places = binary(a).read_total_place().cmp(&binary(b).read_total_place());
            assert_eq!(places, a.total_cmp(&b), "{a} {b}");
        }
    }
}

#[test]
fn greatest_of_ratios() {
    assert_eq!(max_ratio(&[]), binary(0.0));
    assert_eq!(max_ratio(&[binary(2.5), binary(10.0), binary(3.0)]), binary(10.0));
    assert_eq!(max_ratio(&[binary(f64::NAN), binary(1.5)]), binary(1.5));
    assert_eq!(max_ratio(&[binary(-3.0)]), binary(0.0));
    assert!(max_ratio(&[binary(1.0), binary(20.0)]).at_least(binary(15.0)));
}

#[test]
fn lexicographic_order_is_that_of_strings() {
    let words = ["", "a", "ab", "b", "é", "z", "a/b", "a-b", "😀", "\u{ffff}"];
    for x in words {
        for y in words {
            assert_eq!(is_before(&char_codes(x), &char_codes(y)), x < y, "{x} {y}");
        }
    }
}
