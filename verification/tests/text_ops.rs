use claymore::chars_of_str;
use claymore::string_of_chars;
use claymore::text::decimal_of;
use claymore::text::join_with;
use claymore::text::parse_decimal;
use claymore::text::replace_all;
use claymore::text::replace_first;
use claymore::text::split_by;
use claymore::text::strip_nul;

fn t(s: &str) -> Vec<char> {
    chars_of_str(s)
}

fn s(v: &Vec<char>) -> String {
    string_of_chars(v)
}

#[test]
fn string_round_trip() {
    let v = t("héllo wörld");
    assert_eq!(s(&v), "héllo wörld");
    assert_eq!(v.len(), 11);
}

#[test]
fn replace_all_basic() {
    let r = replace_all(&t("a^^b^^c"), &t("^^"), &t("X"));
    assert_eq!(s(&r), "aXbXc");
}

#[test]
fn replace_all_no_occurrence() {
    let r = replace_all(&t("abc"), &t("zz"), &t("X"));
    assert_eq!(s(&r), "abc");
}

#[test]
fn replace_all_does_not_rescan_replacement() {
    let r = replace_all(&t("aa"), &t("a"), &t("ab"));
    assert_eq!(s(&r), "abab");
}

#[test]
fn replace_first_only_first() {
    let r = replace_first(&t("x,y,z"), &t(","), &t(";"));
    assert_eq!(s(&r), "x;y,z");
}

#[test]
fn split_by_separator() {
    let parts = split_by(&t("a|||b|||c"), &t("|||"));
    let joined: Vec<String> = parts.iter().map(|p| s(p)).collect();
    assert_eq!(joined, vec!["a", "b", "c"]);
}

#[test]
fn split_by_keeps_empty_fragments() {
    let parts = split_by(&t("a,,b,"), &t(","));
    let joined: Vec<String> = parts.iter().map(|p| s(p)).collect();
    assert_eq!(joined, vec!["a", "", "b", ""]);
}

#[test]
fn join_with_separator() {
    let parts = vec![t("k1: v1"), t("k2: v2")];
    let r = join_with(&parts, &t(", "));
    assert_eq!(s(&r), "k1: v1, k2: v2");
}

#[test]
fn strip_nul_removes_every_nul() {
    let r = strip_nul(&t("a\u{0000}b\u{0000}\u{0000}c"));
    assert_eq!(s(&r), "abc");
}

#[test]
fn strip_nul_identity_without_nul() {
    let r = strip_nul(&t("plain"));
    assert_eq!(s(&r), "plain");
}

#[test]
fn parse_decimal_values() {
    assert_eq!(parse_decimal(&t("0")), Some(0));
    assert_eq!(parse_decimal(&t("42")), Some(42));
    assert_eq!(parse_decimal(&t("007")), Some(7));
    assert_eq!(parse_decimal(&t("")), None);
    assert_eq!(parse_decimal(&t("4a")), None);
    assert_eq!(parse_decimal(&t("-3")), None);
}

#[test]
fn decimal_of_values() {
    assert_eq!(s(&decimal_of(0)), "0");
    assert_eq!(s(&decimal_of(7)), "7");
    assert_eq!(s(&decimal_of(12034)), "12034");
}
