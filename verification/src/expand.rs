//! The prompt expander: `^^`, `@ref/…`, `@prompt/<n>` and `@key/<name>`
//! substitution over a template, a list of prior responses, a keyed
//! configuration and a project-scoped character store.
//!
//! Random selectors take their draws from an explicit list of choices, so the
//! whole expansion is a function of its arguments; drawing the choices is the
//! one unverified step and lives behind a dedicated wrapper.

use vstd::prelude::*;

use crate::config::KeyConfig;
use crate::config::KeyConfigV;
use crate::config::find_key_value;
use crate::text::chars_eq;
use crate::text::contains_pat;
use crate::text::find_first;
use crate::text::matches_at;
use crate::text::occurs;
use crate::text::parse_decimal;
use crate::text::push_all;
use crate::text::push_range;
use crate::text::replace_all;
use crate::text::replace_first;
use crate::text::spec_join;
use crate::text::spec_parse_decimal;
use crate::text::spec_replace_all;
use crate::text::spec_replace_first;
use crate::text::spec_split;
use crate::text::split_by;
use crate::text::starts_with_at;
use crate::text::join_with;

verus! {

// ----------------------------------------------------------------------------
// Token literals
// ----------------------------------------------------------------------------
pub open spec fn carets() -> Seq<char> {
    seq!['^', '^']
}

pub open spec fn ref_prefix() -> Seq<char> {
    seq!['@', 'r', 'e', 'f', '/']
}

pub open spec fn prompt_prefix() -> Seq<char> {
    seq!['@', 'p', 'r', 'o', 'm', 'p', 't', '/']
}

pub open spec fn key_prefix() -> Seq<char> {
    seq!['@', 'k', 'e', 'y', '/']
}

pub open spec fn random_word() -> Seq<char> {
    seq!['r', 'a', 'n', 'd', 'o', 'm']
}

pub open spec fn colon_sep() -> Seq<char> {
    seq![':', ' ']
}

pub open spec fn comma_sep() -> Seq<char> {
    seq![',', ' ']
}

pub open spec fn semi_sep() -> Seq<char> {
    seq![';', ' ']
}

pub open spec fn slash() -> Seq<char> {
    seq!['/']
}

pub open spec fn plus_sign() -> Seq<char> {
    seq!['+']
}

pub fn carets_vec() -> (v: Vec<char>)
    ensures
        v@ == carets(),
{
    let mut v: Vec<char> = Vec::new();
    v.push('^');
    v.push('^');
    proof {
        assert(v@ =~= carets());
    }
    v
}

pub fn ref_prefix_vec() -> (v: Vec<char>)
    ensures
        v@ == ref_prefix(),
{
    let mut v: Vec<char> = Vec::new();
    v.push('@');
    v.push('r');
    v.push('e');
    v.push('f');
    v.push('/');
    proof {
        assert(v@ =~= ref_prefix());
    }
    v
}

pub fn prompt_prefix_vec() -> (v: Vec<char>)
    ensures
        v@ == prompt_prefix(),
{
    let mut v: Vec<char> = Vec::new();
    v.push('@');
    v.push('p');
    v.push('r');
    v.push('o');
    v.push('m');
    v.push('p');
    v.push('t');
    v.push('/');
    proof {
        assert(v@ =~= prompt_prefix());
    }
    v
}

pub fn key_prefix_vec() -> (v: Vec<char>)
    ensures
        v@ == key_prefix(),
{
    let mut v: Vec<char> = Vec::new();
    v.push('@');
    v.push('k');
    v.push('e');
    v.push('y');
    v.push('/');
    proof {
        assert(v@ =~= key_prefix());
    }
    v
}

pub fn random_word_vec() -> (v: Vec<char>)
    ensures
        v@ == random_word(),
{
    let mut v: Vec<char> = Vec::new();
    v.push('r');
    v.push('a');
    v.push('n');
    v.push('d');
    v.push('o');
    v.push('m');
    proof {
        assert(v@ =~= random_word());
    }
    v
}

pub fn colon_sep_vec() -> (v: Vec<char>)
    ensures
        v@ == colon_sep(),
{
    let mut v: Vec<char> = Vec::new();
    v.push(':');
    v.push(' ');
    proof {
        assert(v@ =~= colon_sep());
    }
    v
}

pub fn comma_sep_vec() -> (v: Vec<char>)
    ensures
        v@ == comma_sep(),
{
    let mut v: Vec<char> = Vec::new();
    v.push(',');
    v.push(' ');
    proof {
        assert(v@ =~= comma_sep());
    }
    v
}

pub fn semi_sep_vec() -> (v: Vec<char>)
    ensures
        v@ == semi_sep(),
{
    let mut v: Vec<char> = Vec::new();
    v.push(';');
    v.push(' ');
    proof {
        assert(v@ =~= semi_sep());
    }
    v
}

pub fn slash_vec() -> (v: Vec<char>)
    ensures
        v@ == slash(),
{
    let mut v: Vec<char> = Vec::new();
    v.push('/');
    proof {
        assert(v@ =~= slash());
    }
    v
}

pub fn plus_sign_vec() -> (v: Vec<char>)
    ensures
        v@ == plus_sign(),
{
    let mut v: Vec<char> = Vec::new();
    v.push('+');
    proof {
        assert(v@ =~= plus_sign());
    }
    v
}

/// An empty text.
fn empty_text() -> (r: Vec<char>)
    ensures
        r@ == Seq::<char>::empty(),
{
    let r: Vec<char> = Vec::new();
    proof {
        assert(r@ =~= Seq::<char>::empty());
    }
    r
}

// ----------------------------------------------------------------------------
// Token scanner
// ----------------------------------------------------------------------------
/// Characters permitted inside a token path: alphanumerics, `_`, `+`, `/`.
pub open spec fn is_path_char(c: char) -> bool {
    ('a' <= c && c <= 'z') || ('A' <= c && c <= 'Z') || ('0' <= c && c <= '9') || c == '_' || c
        == '+' || c == '/'
}

fn is_path_char_exec(c: char) -> (b: bool)
    ensures
        b == is_path_char(c),
{
    ('a' <= c && c <= 'z') || ('A' <= c && c <= 'Z') || ('0' <= c && c <= '9') || c == '_' || c
        == '+' || c == '/'
}

/// Number of consecutive path characters starting at `k`.
pub open spec fn path_len(t: Seq<char>, k: int) -> nat
    decreases t.len() - k,
{
    if k < 0 || k >= t.len() || !is_path_char(t[k]) {
        0
    } else {
        1 + path_len(t, k + 1)
    }
}

pub proof fn lemma_path_len_bound(t: Seq<char>, k: int)
    requires
        0 <= k <= t.len(),
    ensures
        k + path_len(t, k) <= t.len(),
    decreases t.len() - k,
{
    if k < t.len() && is_path_char(t[k]) {
        lemma_path_len_bound(t, k + 1);
    }
}

/// End of the run of path characters starting at `k`.
fn path_end_exec(t: &Vec<char>, k: usize) -> (r: usize)
    requires
        k <= t@.len(),
    ensures
        r == k + path_len(t@, k as int),
        k <= r <= t@.len(),
{
    let tlen = t.len();
    let mut r = k;
    loop
        invariant
            k <= r <= tlen,
            tlen == t@.len(),
            path_len(t@, k as int) == (r - k) + path_len(t@, r as int),
        decreases tlen - r,
    {
        if r < tlen && is_path_char_exec(t[r]) {
            r = r + 1;
        } else {
            return r;
        }
    }
}

#[derive(Clone, Copy, PartialEq, Eq, Structural, Debug)]
pub enum PatternKind {
    Ref,
    Prompt,
}

/// One token found in a template: its kind and the raw path after the prefix.
pub struct Pattern {
    pub kind: PatternKind,
    pub path: Vec<char>,
}

/// Mathematical image of a [`Pattern`].
pub struct PatternV {
    pub kind: PatternKind,
    pub path: Seq<char>,
}

impl View for Pattern {
    type V = PatternV;

    open spec fn view(&self) -> PatternV {
        PatternV { kind: self.kind, path: self.path@ }
    }
}

impl DeepView for Pattern {
    type V = PatternV;

    open spec fn deep_view(&self) -> PatternV {
        self.view()
    }
}

/// All `@ref/…` and `@prompt/…` tokens of `t` at or after `i`, left to
/// right, each with its maximal run of path characters.
pub open spec fn spec_scan(t: Seq<char>, i: int) -> Seq<PatternV>
    decreases t.len() - i,
{
    if i < 0 || i >= t.len() {
        Seq::empty()
    } else if matches_at(t, ref_prefix(), i) && i + 5 < t.len() && is_path_char(t[i + 5]) {
        proof {
            lemma_path_len_bound(t, i + 5);
            assert(path_len(t, i + 5) >= 1);
        }
        seq![PatternV { kind: PatternKind::Ref, path: t.subrange(i + 5, i + 5 + path_len(t, i + 5)) }]
            + spec_scan(t, i + 5 + path_len(t, i + 5))
    } else if matches_at(t, prompt_prefix(), i) && i + 8 < t.len() && is_path_char(t[i + 8]) {
        proof {
            lemma_path_len_bound(t, i + 8);
            assert(path_len(t, i + 8) >= 1);
        }
        seq![
            PatternV {
                kind: PatternKind::Prompt,
                path: t.subrange(i + 8, i + 8 + path_len(t, i + 8)),
            },
        ] + spec_scan(t, i + 8 + path_len(t, i + 8))
    } else {
        spec_scan(t, i + 1)
    }
}

/// Finds every substitution token of `t`.
pub fn scan_patterns(t: &Vec<char>) -> (r: Vec<Pattern>)
    ensures
        r.deep_view() == spec_scan(t@, 0),
{
    let tlen = t.len();
    let refv = ref_prefix_vec();
    let promptv = prompt_prefix_vec();
    let mut out: Vec<Pattern> = Vec::new();
    let mut i: usize = 0;
    proof {
        assert(out.deep_view() =~~= Seq::<PatternV>::empty());
    }
    loop
        invariant
            i <= tlen,
            tlen == t@.len(),
            refv@ == ref_prefix(),
            promptv@ == prompt_prefix(),
            spec_scan(t@, 0) == out.deep_view() + spec_scan(t@, i as int),
        decreases tlen - i,
    {
        if i >= tlen {
            proof {
                assert(spec_scan(t@, i as int) =~~= Seq::<PatternV>::empty());
                assert(out.deep_view() =~~= out.deep_view() + spec_scan(t@, i as int));
            }
            return out;
        }
        if starts_with_at(t, &refv, i) && tlen - i > 5 && is_path_char_exec(t[i + 5]) {
            let end = path_end_exec(t, i + 5);
            let mut path: Vec<char> = Vec::new();
            push_range(&mut path, t, i + 5, end);
            let ghost prev = out.deep_view();
            out.push(Pattern { kind: PatternKind::Ref, path });
            proof {
                assert(out.deep_view() =~~= prev + seq![out@.last().deep_view()]);
            }
            i = end;
        } else if starts_with_at(t, &promptv, i) && tlen - i > 8 && is_path_char_exec(t[i + 8]) {
            let end = path_end_exec(t, i + 8);
            let mut path: Vec<char> = Vec::new();
            push_range(&mut path, t, i + 8, end);
            let ghost prev = out.deep_view();
            out.push(Pattern { kind: PatternKind::Prompt, path });
            proof {
                assert(out.deep_view() =~~= prev + seq![out@.last().deep_view()]);
            }
            i = end;
        } else {
            i = i + 1;
        }
    }
}

// ----------------------------------------------------------------------------
// Character store
// ----------------------------------------------------------------------------
/// A character attribute value: a single string or a list of strings.
pub enum RefValue {
    Scalar(Vec<char>),
    Array(Vec<Vec<char>>),
}

/// Mathematical image of a [`RefValue`].
pub enum RefValueV {
    Scalar(Seq<char>),
    Array(Seq<Seq<char>>),
}

impl View for RefValue {
    type V = RefValueV;

    open spec fn view(&self) -> RefValueV {
        match self {
            RefValue::Scalar(s) => RefValueV::Scalar(s@),
            RefValue::Array(vs) => RefValueV::Array(vs.deep_view()),
        }
    }
}

impl DeepView for RefValue {
    type V = RefValueV;

    open spec fn deep_view(&self) -> RefValueV {
        self.view()
    }
}

/// One keyed attribute of a character.
pub struct RefEntry {
    pub key: Vec<char>,
    pub value: RefValue,
}

/// Mathematical image of a [`RefEntry`].
pub struct RefEntryV {
    pub key: Seq<char>,
    pub value: RefValueV,
}

impl View for RefEntry {
    type V = RefEntryV;

    open spec fn view(&self) -> RefEntryV {
        RefEntryV { key: self.key@, value: self.value@ }
    }
}

impl DeepView for RefEntry {
    type V = RefEntryV;

    open spec fn deep_view(&self) -> RefEntryV {
        self.view()
    }
}

/// A named character with its attribute list.
pub struct Character {
    pub name: Vec<char>,
    pub entries: Vec<RefEntry>,
}

/// Mathematical image of a [`Character`].
pub struct CharacterV {
    pub name: Seq<char>,
    pub entries: Seq<RefEntryV>,
}

impl View for Character {
    type V = CharacterV;

    open spec fn view(&self) -> CharacterV {
        CharacterV { name: self.name@, entries: self.entries.deep_view() }
    }
}

impl DeepView for Character {
    type V = CharacterV;

    open spec fn deep_view(&self) -> CharacterV {
        self.view()
    }
}

/// The project-scoped character store.
pub struct CharacterStore {
    pub characters: Vec<Character>,
}

impl View for CharacterStore {
    type V = Seq<CharacterV>;

    open spec fn view(&self) -> Seq<CharacterV> {
        self.characters.deep_view()
    }
}

/// The first character of the given name.
pub open spec fn find_character(store: Seq<CharacterV>, name: Seq<char>) -> Option<CharacterV>
    decreases store.len(),
{
    if store.len() == 0 {
        None
    } else if store.first().name == name {
        Some(store.first())
    } else {
        find_character(store.drop_first(), name)
    }
}

/// The first entry with the given key.
pub open spec fn find_entry(entries: Seq<RefEntryV>, key: Seq<char>) -> Option<RefEntryV>
    decreases entries.len(),
{
    if entries.len() == 0 {
        None
    } else if entries.first().key == key {
        Some(entries.first())
    } else {
        find_entry(entries.drop_first(), key)
    }
}

/// Rendering of one attribute value: arrays are joined with `"; "`.
pub open spec fn value_text(v: RefValueV) -> Seq<char> {
    match v {
        RefValueV::Scalar(s) => s,
        RefValueV::Array(vs) => spec_join(vs, semi_sep()),
    }
}

/// Rendering of one attribute: `"key: value"`.
pub open spec fn entry_text(e: RefEntryV) -> Seq<char> {
    e.key + colon_sep() + value_text(e.value)
}

/// Rendering of a whole character: its attributes joined with `", "`.
pub open spec fn whole_character_text(entries: Seq<RefEntryV>) -> Seq<char> {
    spec_join(entries.map_values(|e: RefEntryV| entry_text(e)), comma_sep())
}

/// Rendering of the value of `key`, or nothing when absent.
pub open spec fn key_value_text(entries: Seq<RefEntryV>, key: Seq<char>) -> Seq<char> {
    match find_entry(entries, key) {
        Some(e) => value_text(e.value),
        None => Seq::empty(),
    }
}

/// Rendering of a `k1+k2+…` selector: each requested key as `"k: value"`,
/// joined with `", "`; a key the character does not carry renders with an
/// empty value.
pub open spec fn selected_keys_text(entries: Seq<RefEntryV>, keys: Seq<Seq<char>>) -> Seq<char> {
    spec_join(
        keys.map_values(|k: Seq<char>| k + colon_sep() + key_value_text(entries, k)),
        comma_sep(),
    )
}

/// What an `@ref/…` token denotes, given the `/`-separated path segments and
/// one random draw. An unknown character or a selector outside the grammar
/// denotes the empty string.
pub open spec fn ref_result(store: Seq<CharacterV>, segs: Seq<Seq<char>>, choice: int) -> Seq<char> {
    if segs.len() == 0 {
        Seq::empty()
    } else {
        match find_character(store, segs[0]) {
            None => Seq::empty(),
            Some(c) => {
                if segs.len() == 1 {
                    whole_character_text(c.entries)
                } else if segs.len() == 2 {
                    if segs[1] == random_word() {
                        if c.entries.len() == 0 {
                            Seq::empty()
                        } else {
                            entry_text(c.entries[choice % (c.entries.len() as int)])
                        }
                    } else {
                        selected_keys_text(c.entries, spec_split(segs[1], plus_sign()))
                    }
                } else if segs.len() == 3 && segs[2] == random_word() {
                    match find_entry(c.entries, segs[1]) {
                        Some(e) => match e.value {
                            RefValueV::Array(vs) => if vs.len() == 0 {
                                Seq::empty()
                            } else {
                                vs[choice % (vs.len() as int)]
                            },
                            RefValueV::Scalar(_) => Seq::empty(),
                        },
                        None => Seq::empty(),
                    }
                } else {
                    Seq::empty()
                }
            },
        }
    }
}

/// Looks up a character by name.
fn find_character_exec<'a>(store: &'a Vec<Character>, name: &Vec<char>) -> (r: Option<
    &'a Character,
>)
    ensures
        match r {
            Some(c) => find_character(store.deep_view(), name@) == Some(c.deep_view()),
            None => find_character(store.deep_view(), name@) is None,
        },
{
    let ghost sv = store.deep_view();
    proof {
        assert(sv.skip(0) =~= sv);
    }
    for i in 0..store.len()
        invariant
            sv == store.deep_view(),
            sv.len() == store@.len(),
            find_character(sv, name@) == find_character(sv.skip(i as int), name@),
    {
        proof {
            assert(sv.skip(i as int).first() == sv[i as int]);
            assert(sv.skip(i as int).drop_first() =~= sv.skip(i as int + 1));
        }
        if chars_eq(&store[i].name, name) {
            return Some(&store[i]);
        }
    }
    proof {
        assert(sv.skip(sv.len() as int) =~= Seq::<CharacterV>::empty());
    }
    None
}

/// Looks up an entry by key.
fn find_entry_exec<'a>(entries: &'a Vec<RefEntry>, key: &Vec<char>) -> (r: Option<&'a RefEntry>)
    ensures
        match r {
            Some(e) => find_entry(entries.deep_view(), key@) == Some(e.deep_view()),
            None => find_entry(entries.deep_view(), key@) is None,
        },
{
    let ghost ev = entries.deep_view();
    proof {
        assert(ev.skip(0) =~= ev);
    }
    for i in 0..entries.len()
        invariant
            ev == entries.deep_view(),
            ev.len() == entries@.len(),
            find_entry(ev, key@) == find_entry(ev.skip(i as int), key@),
    {
        proof {
            assert(ev.skip(i as int).first() == ev[i as int]);
            assert(ev.skip(i as int).drop_first() =~= ev.skip(i as int + 1));
        }
        if chars_eq(&entries[i].key, key) {
            return Some(&entries[i]);
        }
    }
    proof {
        assert(ev.skip(ev.len() as int) =~= Seq::<RefEntryV>::empty());
    }
    None
}

/// Renders one attribute value.
fn value_text_exec(v: &RefValue) -> (r: Vec<char>)
    ensures
        r@ == value_text(v@),
{
    match v {
        RefValue::Scalar(s) => s.clone(),
        RefValue::Array(vs) => {
            let semi = semi_sep_vec();
            join_with(vs, &semi)
        },
    }
}

/// Renders one attribute as `"key: value"`.
fn entry_text_exec(e: &RefEntry) -> (r: Vec<char>)
    ensures
        r@ == entry_text(e@),
{
    let mut r = e.key.clone();
    let colon = colon_sep_vec();
    push_all(&mut r, &colon);
    let vt = value_text_exec(&e.value);
    push_all(&mut r, &vt);
    r
}

/// Renders a whole character.
fn whole_character_text_exec(entries: &Vec<RefEntry>) -> (r: Vec<char>)
    ensures
        r@ == whole_character_text(entries.deep_view()),
{
    let ghost ev = entries.deep_view();
    let ghost f = |e: RefEntryV| entry_text(e);
    let mut parts: Vec<Vec<char>> = Vec::new();
    proof {
        assert(parts.deep_view() =~~= ev.take(0).map_values(f));
    }
    for i in 0..entries.len()
        invariant
            ev == entries.deep_view(),
            ev.len() == entries@.len(),
            f == (|e: RefEntryV| entry_text(e)),
            parts.deep_view() == ev.take(i as int).map_values(f),
    {
        let ghost prev = parts.deep_view();
        parts.push(entry_text_exec(&entries[i]));
        proof {
            assert(parts.deep_view() =~~= prev + seq![parts@.last().deep_view()]);
            assert(parts.deep_view() =~~= ev.take(i as int + 1).map_values(f));
        }
    }
    proof {
        assert(ev.take(ev.len() as int) =~= ev);
        assert(parts.deep_view() =~~= ev.map_values(f));
    }
    let comma = comma_sep_vec();
    join_with(&parts, &comma)
}

/// Renders a `k1+k2+…` selector.
fn selected_keys_text_exec(entries: &Vec<RefEntry>, keys: &Vec<Vec<char>>) -> (r: Vec<char>)
    ensures
        r@ == selected_keys_text(entries.deep_view(), keys.deep_view()),
{
    let ghost ev = entries.deep_view();
    let ghost kv = keys.deep_view();
    let ghost f = |k: Seq<char>| k + colon_sep() + key_value_text(ev, k);
    let mut parts: Vec<Vec<char>> = Vec::new();
    proof {
        assert(parts.deep_view() =~~= kv.take(0).map_values(f));
    }
    for i in 0..keys.len()
        invariant
            ev == entries.deep_view(),
            kv == keys.deep_view(),
            kv.len() == keys@.len(),
            f == (|k: Seq<char>| k + colon_sep() + key_value_text(ev, k)),
            parts.deep_view() == kv.take(i as int).map_values(f),
    {
        let mut part = keys[i].clone();
        let colon = colon_sep_vec();
        push_all(&mut part, &colon);
        proof {
            assert(kv[i as int] == keys@[i as int]@);
        }
        match find_entry_exec(entries, &keys[i]) {
            Some(e) => {
                let vt = value_text_exec(&e.value);
                push_all(&mut part, &vt);
                proof {
                    assert(key_value_text(ev, kv[i as int]) == value_text(e.deep_view().value));
                    assert(part@ =~= f(kv[i as int]));
                }
            },
            None => {
                proof {
                    assert(key_value_text(ev, kv[i as int]) =~= Seq::<char>::empty());
                    assert(part@ =~= f(kv[i as int]));
                }
            },
        }
        let ghost prev = parts.deep_view();
        parts.push(part);
        proof {
            assert(parts.deep_view() =~~= prev + seq![parts@.last().deep_view()]);
            assert(parts.deep_view() =~~= kv.take(i as int + 1).map_values(f));
        }
    }
    proof {
        assert(kv.take(kv.len() as int) =~= kv);
        assert(parts.deep_view() =~~= kv.map_values(f));
    }
    let comma = comma_sep_vec();
    join_with(&parts, &comma)
}

/// Renders an `@ref/…` token from its path segments and one random draw.
fn ref_result_exec(store: &Vec<Character>, segs: &Vec<Vec<char>>, choice: usize) -> (r: Vec<char>)
    ensures
        r@ == ref_result(store.deep_view(), segs.deep_view(), choice as int),
{
    let ghost sv = store.deep_view();
    let ghost gv = segs.deep_view();
    let ghost goal = ref_result(sv, gv, choice as int);
    proof {
        assert(forall|m: int| 0 <= m < gv.len() ==> gv[m] == segs@[m]@);
    }
    if segs.len() == 0 {
        let r = empty_text();
        proof {
            assert(r@ == goal);
        }
        return r;
    }
    proof {
        assert(gv[0] == segs@[0]@);
    }
    let random = random_word_vec();
    match find_character_exec(store, &segs[0]) {
        None => {
            let r = empty_text();
            proof {
                assert(r@ == goal);
            }
            r
        },
        Some(c) => {
            proof {
                assert(find_character(sv, gv[0]) == Some(c.deep_view()));
                assert(c.deep_view().entries == c.entries.deep_view());
            }
            if segs.len() == 1 {
                let r = whole_character_text_exec(&c.entries);
                proof {
                    assert(r@ == goal);
                }
                r
            } else if segs.len() == 2 {
                proof {
                    assert(gv[1] == segs@[1]@);
                }
                if chars_eq(&segs[1], &random) {
                    if c.entries.len() == 0 {
                        let r = empty_text();
                        proof {
                            assert(r@ == goal);
                        }
                        r
                    } else {
                        let idx = choice % c.entries.len();
                        proof {
                            assert(c.entries.deep_view()[idx as int] == c.entries@[idx as int]@);
                        }
                        let r = entry_text_exec(&c.entries[idx]);
                        proof {
                            assert(r@ == goal);
                        }
                        r
                    }
                } else {
                    let plus = plus_sign_vec();
                    let keys = split_by(&segs[1], &plus);
                    let r = selected_keys_text_exec(&c.entries, &keys);
                    proof {
                        assert(r@ == goal);
                    }
                    r
                }
            } else if segs.len() == 3 && chars_eq(&segs[2], &random) {
                proof {
                    assert(gv[1] == segs@[1]@);
                    assert(gv[2] == segs@[2]@);
                }
                match find_entry_exec(&c.entries, &segs[1]) {
                    Some(e) => match &e.value {
                        RefValue::Array(vs) => if vs.len() == 0 {
                            let r = empty_text();
                            proof {
                                assert(r@ == goal);
                            }
                            r
                        } else {
                            let idx = choice % vs.len();
                            proof {
                                assert(vs.deep_view()[idx as int] == vs@[idx as int]@);
                            }
                            let r = vs[idx].clone();
                            proof {
                                assert(r@ == goal);
                            }
                            r
                        },
                        RefValue::Scalar(_) => {
                            let r = empty_text();
                            proof {
                                assert(r@ == goal);
                            }
                            r
                        },
                    },
                    None => {
                        let r = empty_text();
                        proof {
                            assert(r@ == goal);
                        }
                        r
                    },
                }
            } else {
                let r = empty_text();
                proof {
                    assert(r@ == goal);
                }
                r
            }
        },
    }
}

// ----------------------------------------------------------------------------
// Applying the found tokens
// ----------------------------------------------------------------------------
/// The draw for token `k`: the listed choice, or zero past the end.
pub open spec fn choice_at(choices: Seq<usize>, k: int) -> int {
    if 0 <= k < choices.len() {
        choices[k] as int
    } else {
        0
    }
}

/// One token applied to the text, exactly as the first-match-wins pass does:
/// an `@ref/…` token replaces its own first occurrence with the rendering;
/// an `@prompt/<n>` token with `n` between one and the number of earlier
/// responses replaces every occurrence of `@prompt/<n>` with response `n`,
/// and otherwise stays in place.
pub open spec fn apply_pattern(
    t: Seq<char>,
    p: PatternV,
    choice: int,
    prev: Seq<Seq<char>>,
    store: Seq<CharacterV>,
) -> Seq<char> {
    match p.kind {
        PatternKind::Ref => spec_replace_first(
            t,
            ref_prefix() + p.path,
            ref_result(store, spec_split(p.path, slash()), choice),
        ),
        PatternKind::Prompt => {
            let segs = spec_split(p.path, slash());
            match spec_parse_decimal(segs[0]) {
                Some(n) => if 1 <= n && n <= prev.len() {
                    spec_replace_all(t, prompt_prefix() + segs[0], prev[n - 1])
                } else {
                    t
                },
                None => t,
            }
        },
    }
}

/// The tokens from position `k` on, applied in order.
pub open spec fn apply_patterns(
    t: Seq<char>,
    pats: Seq<PatternV>,
    k: int,
    choices: Seq<usize>,
    prev: Seq<Seq<char>>,
    store: Seq<CharacterV>,
) -> Seq<char>
    decreases pats.len() - k,
{
    if k < 0 || k >= pats.len() {
        t
    } else {
        apply_patterns(
            apply_pattern(t, pats[k], choice_at(choices, k), prev, store),
            pats,
            k + 1,
            choices,
            prev,
            store,
        )
    }
}

/// The full expansion: `^^` becomes the most recent response, then every
/// token found in that text is applied in order of appearance.
pub open spec fn spec_expand(
    template: Seq<char>,
    prev: Seq<Seq<char>>,
    store: Seq<CharacterV>,
    choices: Seq<usize>,
) -> Seq<char> {
    let latest = if prev.len() == 0 {
        Seq::<char>::empty()
    } else {
        prev.last()
    };
    let t1 = spec_replace_all(template, carets(), latest);
    apply_patterns(t1, spec_scan(t1, 0), 0, choices, prev, store)
}

/// A split has at least one fragment.
pub proof fn lemma_split_nonempty(t: Seq<char>, sep: Seq<char>)
    ensures
        spec_split(t, sep).len() >= 1,
{
}

/// Applies one token to the text.
fn apply_pattern_exec(
    t: &Vec<char>,
    p: &Pattern,
    choice: usize,
    prev: &Vec<Vec<char>>,
    store: &Vec<Character>,
) -> (r: Vec<char>)
    ensures
        r@ == apply_pattern(t@, p@, choice as int, prev.deep_view(), store.deep_view()),
{
    let sl = slash_vec();
    let segs = split_by(&p.path, &sl);
    proof {
        lemma_split_nonempty(p.path@, slash());
        assert(segs.deep_view()[0] == segs@[0]@);
    }
    match p.kind {
        PatternKind::Ref => {
            let mut token = ref_prefix_vec();
            push_all(&mut token, &p.path);
            let repl = ref_result_exec(store, &segs, choice);
            replace_first(t, &token, &repl)
        },
        PatternKind::Prompt => {
            match parse_decimal(&segs[0]) {
                Some(n) => {
                    if 1 <= n && n <= prev.len() {
                        proof {
                            assert(prev.deep_view()[n - 1] == prev@[n - 1]@);
                        }
                        let mut token = prompt_prefix_vec();
                        push_all(&mut token, &segs[0]);
                        replace_all(t, &token, &prev[n - 1])
                    } else {
                        t.clone()
                    }
                },
                None => t.clone(),
            }
        },
    }
}

/// Expands a template against the prior responses of its chain, the character
/// store, and a list of random draws (one per token, extended with zeros).
pub fn expand(
    template: &Vec<char>,
    prev: &Vec<Vec<char>>,
    store: &CharacterStore,
    choices: &Vec<usize>,
) -> (r: Vec<char>)
    ensures
        r@ == spec_expand(template@, prev.deep_view(), store@, choices@),
{
    let latest: Vec<char> = if prev.len() == 0 {
        Vec::new()
    } else {
        prev[prev.len() - 1].clone()
    };
    proof {
        if prev.deep_view().len() == 0 {
            assert(latest@ =~= Seq::<char>::empty());
        } else {
            assert(latest@ == prev.deep_view().last());
        }
    }
    let cv = carets_vec();
    let t1 = replace_all(template, &cv, &latest);
    let pats = scan_patterns(&t1);
    let ghost pv = pats.deep_view();
    let ghost t1v = t1@;
    let mut cur = t1;
    for k in 0..pats.len()
        invariant
            pv == pats.deep_view(),
            pv.len() == pats@.len(),
            apply_patterns(t1v, pv, 0, choices@, prev.deep_view(), store.characters.deep_view())
                == apply_patterns(
                cur@,
                pv,
                k as int,
                choices@,
                prev.deep_view(),
                store.characters.deep_view(),
            ),
    {
        let choice: usize = if k < choices.len() {
            choices[k]
        } else {
            0
        };
        cur = apply_pattern_exec(&cur, &pats[k], choice, prev, &store.characters);
    }
    cur
}

// ----------------------------------------------------------------------------
// Keyed substitution and random draws
// ----------------------------------------------------------------------------
/// The keys from position `k` on substituted into the prompt, in order: each
/// `@key/<name>` becomes the configured value of `<name>`; a listed key with
/// no configuration entry leaves its token in place.
pub open spec fn spec_substitute_keys(
    prompt: Seq<char>,
    keys: Seq<Seq<char>>,
    configs: Seq<KeyConfigV>,
    k: int,
) -> Seq<char>
    decreases keys.len() - k,
{
    if k < 0 || k >= keys.len() {
        prompt
    } else {
        let p1 = match find_key_value(configs, keys[k]) {
            Some(v) => spec_replace_all(prompt, key_prefix() + keys[k], v),
            None => prompt,
        };
        spec_substitute_keys(p1, keys, configs, k + 1)
    }
}

/// Substitutes every listed key's configured value into the prompt.
pub fn substitute_keys(prompt: &Vec<char>, keys: &Vec<Vec<char>>, configs: &Vec<KeyConfig>) -> (r:
    Vec<char>)
    ensures
        r@ == spec_substitute_keys(prompt@, keys.deep_view(), configs.deep_view(), 0),
{
    let ghost kv = keys.deep_view();
    let ghost cv = configs.deep_view();
    let mut cur = prompt.clone();
    for k in 0..keys.len()
        invariant
            kv == keys.deep_view(),
            cv == configs.deep_view(),
            kv.len() == keys@.len(),
            spec_substitute_keys(prompt@, kv, cv, 0) == spec_substitute_keys(
                cur@,
                kv,
                cv,
                k as int,
            ),
    {
        proof {
            assert(kv[k as int] == keys@[k as int]@);
        }
        match crate::config::lookup_key_value(configs, &keys[k]) {
            Some(v) => {
                let mut token = key_prefix_vec();
                push_all(&mut token, &keys[k]);
                cur = replace_all(&cur, &token, v);
            },
            None => {},
        }
    }
    cur
}

/// Relies on `rand::random`: an arbitrary machine word. Nothing is promised
/// of the value; every caller states what holds for every draw.
#[verifier::external_body]
fn random_usize() -> usize {
    rand::random::<u64>() as usize
}

/// Draws `n` random words.
pub fn draw_choices(n: usize) -> (r: Vec<usize>)
    ensures
        r@.len() == n,
{
    let mut r: Vec<usize> = Vec::new();
    for i in 0..n
        invariant
            r@.len() == i,
    {
        r.push(random_usize());
    }
    r
}

/// Expands a template, drawing one random word per token for the `random`
/// selectors: the result is the expansion under some list of draws.
pub fn expand_random(template: &Vec<char>, prev: &Vec<Vec<char>>, store: &CharacterStore) -> (r:
    Vec<char>)
    ensures
        exists|choices: Seq<usize>|
            r@ == spec_expand(template@, prev.deep_view(), store@, choices),
{
    let cv = carets_vec();
    let latest: Vec<char> = if prev.len() == 0 {
        Vec::new()
    } else {
        prev[prev.len() - 1].clone()
    };
    let t1 = replace_all(template, &cv, &latest);
    let pats = scan_patterns(&t1);
    let choices = draw_choices(pats.len());
    let r = expand(template, prev, store, &choices);
    proof {
        assert(r@ == spec_expand(template@, prev.deep_view(), store@, choices@));
    }
    r
}

/// A text with no `^^` and no `@ref/…` or `@prompt/…` token left.
pub open spec fn spec_fully_resolved(t: Seq<char>) -> bool {
    !occurs(t, carets()) && spec_scan(t, 0).len() == 0
}

/// Whether the text contains no substitution token.
pub fn fully_resolved(t: &Vec<char>) -> (b: bool)
    ensures
        b == spec_fully_resolved(t@),
{
    let cv = carets_vec();
    if contains_pat(t, &cv) {
        return false;
    }
    let pats = scan_patterns(t);
    pats.len() == 0
}

/// Expansion is idempotent once every token is resolved: a text in which no
/// substitution token remains expands to itself, whatever the responses, the
/// store and the draws. (On a text that still carries a token — for example
/// one whose substituted values themselves contain `^^` — a second expansion
/// may differ, so resolvedness is required.)
pub proof fn lemma_expand_idempotent_when_resolved(
    template: Seq<char>,
    prev: Seq<Seq<char>>,
    store: Seq<CharacterV>,
    choices: Seq<usize>,
)
    requires
        spec_fully_resolved(template),
    ensures
        spec_expand(template, prev, store, choices) == template,
{
    let latest = if prev.len() == 0 {
        Seq::<char>::empty()
    } else {
        prev.last()
    };
    assert(find_first(template, carets()) is None);
    assert(spec_replace_all(template, carets(), latest) == template);
}

} // verus!
