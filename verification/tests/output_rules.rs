use claymore::chars_of_str;
use claymore::string_of_chars;
use claymore::output::parse_llm_output;

fn t(s: &str) -> Vec<char> {
    chars_of_str(s)
}

fn s(v: &Vec<char>) -> String {
    string_of_chars(v)
}

#[test]
fn separator_split_yields_one_candidate_per_fragment() {
    let seeds = parse_llm_output(&t("a|||b|||c"), &t("|||"), &t("in"), &t(""));
    assert_eq!(seeds.len(), 3);
    assert_eq!(s(&seeds[0].content), "a");
    assert_eq!(s(&seeds[1].content), "b");
    assert_eq!(s(&seeds[2].content), "c");
    for seed in &seeds {
        assert_eq!(s(&seed.extra.text), "in");
        assert!(seed.extra.rating.is_none());
    }
}

#[test]
fn separator_split_skips_empty_fragments() {
    let seeds = parse_llm_output(&t("a||b|"), &t("|"), &t("in"), &t(""));
    assert_eq!(seeds.len(), 2);
    assert_eq!(s(&seeds[0].content), "a");
    assert_eq!(s(&seeds[1].content), "b");
}

#[test]
fn empty_separator_non_json_yields_one_candidate() {
    let seeds = parse_llm_output(&t("just prose, not JSON"), &t(""), &t("in"), &t(""));
    assert_eq!(seeds.len(), 1);
    assert_eq!(s(&seeds[0].content), "just prose, not JSON");
    assert!(seeds[0].extra.rating.is_none());
    assert!(seeds[0].extra.reference.is_none());
}

#[test]
fn empty_separator_json_without_candidate_yields_raw_output() {
    let raw = "{\"other\": 1}";
    let seeds = parse_llm_output(&t(raw), &t(""), &t("in"), &t(""));
    assert_eq!(seeds.len(), 1);
    assert_eq!(s(&seeds[0].content), raw);
    assert!(seeds[0].extra.rating.is_none());
}

#[test]
fn empty_separator_json_candidate_data_yields_rated_candidate() {
    let raw = "{\"candidate\": {\"data\": \"the text\"}, \"rating\": 4}";
    let seeds = parse_llm_output(&t(raw), &t(""), &t("in\u{0000}put"), &t("ref"));
    assert_eq!(seeds.len(), 1);
    assert_eq!(s(&seeds[0].content), "the text");
    assert_eq!(s(&seeds[0].extra.text), "input");
    assert_eq!(s(seeds[0].extra.reference.as_ref().unwrap()), "ref");
    assert_eq!(s(seeds[0].extra.rating.as_ref().unwrap()), "4");
}

#[test]
fn empty_separator_json_candidate_without_string_data_is_raw() {
    let raw = "{\"candidate\": {\"data\": 7}}";
    let seeds = parse_llm_output(&t(raw), &t(""), &t("in"), &t(""));
    assert_eq!(seeds.len(), 1);
    assert_eq!(s(&seeds[0].content), raw);
}

#[test]
fn nul_bytes_stripped_from_extra_text() {
    let seeds = parse_llm_output(&t("a|b"), &t("|"), &t("x\u{0000}y\u{0000}"), &t(""));
    assert_eq!(seeds.len(), 2);
    assert_eq!(s(&seeds[0].extra.text), "xy");
    assert_eq!(s(&seeds[1].extra.text), "xy");
}
