//! Strict decimal coercions and renderings.

use pwsp::text::{parse_scaled, parse_u32, scaled_to_dec_string, str_eq, u64_to_dec_string};

#[test]
fn parse_u32_accepts_plain_decimals() {
    assert_eq!(parse_u32("0"), Some(0));
    assert_eq!(parse_u32("7"), Some(7));
    assert_eq!(parse_u32("0042"), Some(42));
    assert_eq!(parse_u32("4294967295"), Some(u32::MAX));
}

#[test]
fn parse_u32_rejects_everything_else() {
    assert_eq!(parse_u32(""), None);
    assert_eq!(parse_u32("4294967296"), None);
    assert_eq!(parse_u32("99999999999999999999"), None);
    assert_eq!(parse_u32("-1"), None);
    assert_eq!(parse_u32("1.5"), None);
    assert_eq!(parse_u32(" 1"), None);
    assert_eq!(parse_u32("1a"), None);
}

#[test]
fn parse_scaled_reads_thousandths() {
    assert_eq!(parse_scaled("0.5"), Some(500));
    assert_eq!(parse_scaled("0.25"), Some(250));
    assert_eq!(parse_scaled("0.125"), Some(125));
    assert_eq!(parse_scaled("1"), Some(1000));
    assert_eq!(parse_scaled("1.5"), Some(1500));
    assert_eq!(parse_scaled("12.034"), Some(12034));
    assert_eq!(parse_scaled("0"), Some(0));
}

#[test]
fn parse_scaled_truncates_past_three_fraction_digits() {
    assert_eq!(parse_scaled("0.1234"), Some(123));
    assert_eq!(parse_scaled("0.9999"), Some(999));
}

#[test]
fn parse_scaled_clamps_negatives_to_zero() {
    assert_eq!(parse_scaled("-3"), Some(0));
    assert_eq!(parse_scaled("-0.5"), Some(0));
}

#[test]
fn parse_scaled_rejects_malformed_text() {
    assert_eq!(parse_scaled(""), None);
    assert_eq!(parse_scaled("."), None);
    assert_eq!(parse_scaled(".5"), None);
    assert_eq!(parse_scaled("5."), None);
    assert_eq!(parse_scaled("1e3"), None);
    assert_eq!(parse_scaled("1.2.3"), None);
    assert_eq!(parse_scaled("--1"), None);
    assert_eq!(parse_scaled("nan"), None);
    assert_eq!(parse_scaled("18446744073709552000"), None);
}

#[test]
fn scaled_rendering_trims_trailing_zeros() {
    assert_eq!(scaled_to_dec_string(0), "0");
    assert_eq!(scaled_to_dec_string(500), "0.5");
    assert_eq!(scaled_to_dec_string(250), "0.25");
    assert_eq!(scaled_to_dec_string(125), "0.125");
    assert_eq!(scaled_to_dec_string(1000), "1");
    assert_eq!(scaled_to_dec_string(1500), "1.5");
    assert_eq!(scaled_to_dec_string(1010), "1.01");
    assert_eq!(scaled_to_dec_string(12034), "12.034");
}

#[test]
fn scaled_rendering_round_trips() {
    let samples: Vec<u64> = vec![0, 1, 10, 125, 500, 999, 1000, 1001, 1500, 123456];
    let mut i: usize = 0;
    while i < samples.len() {
        let text = scaled_to_dec_string(samples[i]);
        assert_eq!(parse_scaled(&text), Some(samples[i]));
        i += 1;
    }
}

#[test]
fn plain_decimal_rendering() {
    assert_eq!(u64_to_dec_string(0), "0");
    assert_eq!(u64_to_dec_string(7), "7");
    assert_eq!(u64_to_dec_string(1203), "1203");
}

#[test]
fn character_equality_is_exact() {
    assert!(str_eq("", ""));
    assert!(str_eq("abc", "abc"));
    assert!(!str_eq("abc", "abd"));
    assert!(!str_eq("abc", "ab"));
    assert!(str_eq("\u{e9}t\u{e9}", "\u{e9}t\u{e9}"));
}
