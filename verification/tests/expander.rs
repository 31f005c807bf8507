use claymore::chars_of_str;
use claymore::string_of_chars;
use claymore::config::KeyConfig;
use claymore::expand::Character;
use claymore::expand::CharacterStore;
use claymore::expand::RefEntry;
use claymore::expand::RefValue;
use claymore::expand::expand;
use claymore::expand::expand_random;
use claymore::expand::fully_resolved;
use claymore::expand::scan_patterns;
use claymore::expand::substitute_keys;

fn t(s: &str) -> Vec<char> {
    chars_of_str(s)
}

fn s(v: &Vec<char>) -> String {
    string_of_chars(v)
}

fn empty_store() -> CharacterStore {
    CharacterStore { characters: Vec::new() }
}

fn animal_store() -> CharacterStore {
    CharacterStore {
        characters: vec![Character {
            name: t("cat"),
            entries: vec![
                RefEntry { key: t("color"), value: RefValue::Scalar(t("black")) },
                RefEntry {
                    key: t("toys"),
                    value: RefValue::Array(vec![t("ball"), t("mouse")]),
                },
            ],
        }],
    }
}

#[test]
fn caret_substitutes_latest_response() {
    let prev = vec![t("cat"), t("soft")];
    let r = expand(&t("Describe ^^ now"), &prev, &empty_store(), &Vec::new());
    assert_eq!(s(&r), "Describe soft now");
}

#[test]
fn caret_empty_at_chain_start() {
    let r = expand(&t("Say ^^."), &Vec::new(), &empty_store(), &Vec::new());
    assert_eq!(s(&r), "Say .");
}

#[test]
fn prompt_token_substitutes_earlier_response() {
    let prev = vec![t("cat"), t("soft")];
    let r = expand(
        &t("The @prompt/1 is @prompt/2."),
        &prev,
        &empty_store(),
        &Vec::new(),
    );
    assert_eq!(s(&r), "The cat is soft.");
}

#[test]
fn prompt_chain_scenario() {
    // A three-step chain: each step is expanded against the responses of the
    // earlier steps, and the final content is the last response.
    let prompts = vec![
        t("Name an animal."),
        t("Describe ^^ in one word."),
        t("The @prompt/1 is @prompt/2."),
    ];
    let responses = vec![t("cat"), t("soft"), t("The cat is soft.")];
    let store = empty_store();
    let mut prior: Vec<Vec<char>> = Vec::new();
    let mut expanded: Vec<String> = Vec::new();
    for k in 0..prompts.len() {
        let e = expand(&prompts[k], &prior, &store, &Vec::new());
        expanded.push(s(&e));
        prior.push(responses[k].clone());
    }
    assert_eq!(expanded[0], "Name an animal.");
    assert_eq!(expanded[1], "Describe cat in one word.");
    assert_eq!(expanded[2], "The cat is soft.");
    let datadrop = claymore::worker::chain_final_content(&prior);
    assert_eq!(s(&datadrop), "The cat is soft.");
}

#[test]
fn prompt_token_out_of_range_stays() {
    let prev = vec![t("one")];
    let r = expand(&t("@prompt/2 stays"), &prev, &empty_store(), &Vec::new());
    assert_eq!(s(&r), "@prompt/2 stays");
}

#[test]
fn ref_whole_character() {
    let r = expand(&t("About @ref/cat!"), &Vec::new(), &animal_store(), &Vec::new());
    assert_eq!(s(&r), "About color: black, toys: ball; mouse!");
}

#[test]
fn ref_selected_keys() {
    let r = expand(
        &t("Use @ref/cat/color+toys."),
        &Vec::new(),
        &animal_store(),
        &Vec::new(),
    );
    assert_eq!(s(&r), "Use color: black, toys: ball; mouse.");
}

#[test]
fn ref_random_entry_uses_choice() {
    let choices = vec![1usize];
    let r = expand(&t("Pick @ref/cat/random"), &Vec::new(), &animal_store(), &choices);
    assert_eq!(s(&r), "Pick toys: ball; mouse");
    let choices0 = vec![0usize];
    let r0 = expand(&t("Pick @ref/cat/random"), &Vec::new(), &animal_store(), &choices0);
    assert_eq!(s(&r0), "Pick color: black");
}

#[test]
fn ref_random_array_element() {
    let choices = vec![3usize];
    let r = expand(
        &t("Toy: @ref/cat/toys/random"),
        &Vec::new(),
        &animal_store(),
        &choices,
    );
    // Draw 3 over two elements picks index 1.
    assert_eq!(s(&r), "Toy: mouse");
}

#[test]
fn ref_random_on_scalar_is_empty() {
    // The dot ends the token: path characters run as far as they can.
    let r = expand(
        &t("X@ref/cat/color/random.Y"),
        &Vec::new(),
        &animal_store(),
        &vec![0usize],
    );
    assert_eq!(s(&r), "X.Y");
}

#[test]
fn ref_unknown_character_is_empty() {
    let r = expand(&t("A@ref/dog!B"), &Vec::new(), &animal_store(), &Vec::new());
    assert_eq!(s(&r), "A!B");
}

#[test]
fn ref_replaces_first_occurrence_only() {
    let store = CharacterStore {
        characters: vec![Character {
            name: t("c"),
            entries: vec![RefEntry { key: t("k"), value: RefValue::Scalar(t("v")) }],
        }],
    };
    let r = expand(&t("@ref/c @ref/c"), &Vec::new(), &store, &Vec::new());
    assert_eq!(s(&r), "k: v k: v");
}

#[test]
fn expansion_idempotent_once_resolved() {
    // A resolved text expands to itself; expanding the expansion changes
    // nothing more.
    let prev = vec![t("cat")];
    let once = expand(&t("The @prompt/1 sleeps."), &prev, &empty_store(), &Vec::new());
    assert!(fully_resolved(&once));
    let twice = expand(&once, &prev, &empty_store(), &Vec::new());
    assert_eq!(s(&once), s(&twice));
}

#[test]
fn scan_finds_tokens_in_order() {
    let pats = scan_patterns(&t("x @ref/a/b and @prompt/3 end"));
    assert_eq!(pats.len(), 2);
    assert_eq!(s(&pats[0].path), "a/b");
    assert_eq!(s(&pats[1].path), "3");
}

#[test]
fn substitute_keys_uses_configured_values() {
    let keys = vec![t("topic")];
    let configs = vec![KeyConfig {
        key: t("topic"),
        display_name: t("Topic"),
        hint: t(""),
        value: t("haiku"),
    }];
    let r = substitute_keys(&t("Write: @key/topic"), &keys, &configs);
    assert_eq!(s(&r), "Write: haiku");
}

#[test]
fn substitute_keys_missing_entry_leaves_token() {
    let keys = vec![t("topic")];
    let configs: Vec<KeyConfig> = Vec::new();
    let r = substitute_keys(&t("Write: @key/topic"), &keys, &configs);
    assert_eq!(s(&r), "Write: @key/topic");
}

#[test]
fn expand_random_on_singleton_is_deterministic() {
    // With one entry and a one-element array every draw gives the same text,
    // so the randomised expansion is checkable.
    let store = CharacterStore {
        characters: vec![Character {
            name: t("c"),
            entries: vec![RefEntry { key: t("k"), value: RefValue::Array(vec![t("only")]) }],
        }],
    };
    let r = expand_random(&t("V=@ref/c/k/random"), &Vec::new(), &store);
    assert_eq!(s(&r), "V=only");
}
