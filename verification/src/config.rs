//! Startup configuration and the typed shape of a module's configuration.
//!
//! A module's configuration is an untyped JSON object at the wire; the shell
//! parses it once at the boundary and hands these typed values to the core.

use vstd::prelude::*;

verus! {

/// Environment settings required at startup.
pub struct Config {
    pub database_url: String,
    pub hmac_key: String,
    pub upload_dir: String,
    pub config_file: String,
    pub rabbitmq_url: String,
    pub unstructured_url: String,
    pub es_url: String,
}

/// One keyed variable of a module: its display metadata and current value.
pub struct KeyConfig {
    pub key: Vec<char>,
    pub display_name: Vec<char>,
    pub hint: Vec<char>,
    pub value: Vec<char>,
}

/// Mathematical image of a [`KeyConfig`].
pub struct KeyConfigV {
    pub key: Seq<char>,
    pub display_name: Seq<char>,
    pub hint: Seq<char>,
    pub value: Seq<char>,
}

impl View for KeyConfig {
    type V = KeyConfigV;

    open spec fn view(&self) -> KeyConfigV {
        KeyConfigV {
            key: self.key@,
            display_name: self.display_name@,
            hint: self.hint@,
            value: self.value@,
        }
    }
}

impl DeepView for KeyConfig {
    type V = KeyConfigV;

    open spec fn deep_view(&self) -> KeyConfigV {
        self.view()
    }
}

/// One preprocessing step: an intra-run LLM call whose output is written back
/// onto the named key before the main prompt is built.
pub struct PreprocessStep {
    pub input_keys: Vec<Vec<char>>,
    pub prompt: Vec<char>,
    pub model: Vec<char>,
    pub output_key: Vec<char>,
}

/// Mathematical image of a [`PreprocessStep`].
pub struct PreprocessStepV {
    pub input_keys: Seq<Seq<char>>,
    pub prompt: Seq<char>,
    pub model: Seq<char>,
    pub output_key: Seq<char>,
}

impl View for PreprocessStep {
    type V = PreprocessStepV;

    open spec fn view(&self) -> PreprocessStepV {
        PreprocessStepV {
            input_keys: self.input_keys.deep_view(),
            prompt: self.prompt@,
            model: self.model@,
            output_key: self.output_key@,
        }
    }
}

impl DeepView for PreprocessStep {
    type V = PreprocessStepV;

    open spec fn deep_view(&self) -> PreprocessStepV {
        self.view()
    }
}

/// The `assignData` block: which data rows feed the next run.
pub struct AssignData {
    pub datastore_id: u128,
    pub is_raw: bool,
    /// Comma-separated tag list, as stored.
    pub tags: Vec<char>,
}

/// Mathematical image of an [`AssignData`].
pub struct AssignDataV {
    pub datastore_id: u128,
    pub is_raw: bool,
    pub tags: Seq<char>,
}

impl View for AssignData {
    type V = AssignDataV;

    open spec fn view(&self) -> AssignDataV {
        AssignDataV { datastore_id: self.datastore_id, is_raw: self.is_raw, tags: self.tags@ }
    }
}

impl DeepView for AssignData {
    type V = AssignDataV;

    open spec fn deep_view(&self) -> AssignDataV {
        self.view()
    }
}

/// A module's configuration.
pub struct ModuleConfig {
    pub prompt: Vec<char>,
    pub input: Vec<char>,
    pub keys: Vec<Vec<char>>,
    pub key_configs: Vec<KeyConfig>,
    pub separator: Vec<char>,
    pub preprocess: Vec<PreprocessStep>,
    pub assign_data: Option<AssignData>,
}

/// Mathematical image of a [`ModuleConfig`].
pub struct ModuleConfigV {
    pub prompt: Seq<char>,
    pub input: Seq<char>,
    pub keys: Seq<Seq<char>>,
    pub key_configs: Seq<KeyConfigV>,
    pub separator: Seq<char>,
    pub preprocess: Seq<PreprocessStepV>,
    pub assign_data: Option<AssignDataV>,
}

impl View for ModuleConfig {
    type V = ModuleConfigV;

    open spec fn view(&self) -> ModuleConfigV {
        ModuleConfigV {
            prompt: self.prompt@,
            input: self.input@,
            keys: self.keys.deep_view(),
            key_configs: self.key_configs.deep_view(),
            separator: self.separator@,
            preprocess: self.preprocess.deep_view(),
            assign_data: match self.assign_data {
                Some(a) => Some(a@),
                None => None,
            },
        }
    }
}

impl DeepView for ModuleConfig {
    type V = ModuleConfigV;

    open spec fn deep_view(&self) -> ModuleConfigV {
        self.view()
    }
}

/// The configuration every module starts from: everything empty.
pub open spec fn spec_empty_config() -> ModuleConfigV {
    ModuleConfigV {
        prompt: Seq::empty(),
        input: Seq::empty(),
        keys: Seq::empty(),
        key_configs: Seq::empty(),
        separator: Seq::empty(),
        preprocess: Seq::empty(),
        assign_data: None,
    }
}

/// Builds the empty configuration.
pub fn empty_config() -> (r: ModuleConfig)
    ensures
        r@ == spec_empty_config(),
{
    let r = ModuleConfig {
        prompt: Vec::new(),
        input: Vec::new(),
        keys: Vec::new(),
        key_configs: Vec::new(),
        separator: Vec::new(),
        preprocess: Vec::new(),
        assign_data: None,
    };
    proof {
        assert(r@.keys =~~= spec_empty_config().keys);
        assert(r@.key_configs =~= spec_empty_config().key_configs);
        assert(r@.preprocess =~= spec_empty_config().preprocess);
        assert(r@.prompt =~= spec_empty_config().prompt);
        assert(r@.input =~= spec_empty_config().input);
        assert(r@.separator =~= spec_empty_config().separator);
    }
    r
}

/// Value of `key` in a key-configuration list: the first entry that carries
/// the key.
pub open spec fn find_key_value(configs: Seq<KeyConfigV>, key: Seq<char>) -> Option<Seq<char>>
    decreases configs.len(),
{
    if configs.len() == 0 {
        None
    } else if configs.first().key == key {
        Some(configs.first().value)
    } else {
        find_key_value(configs.drop_first(), key)
    }
}

/// Looks up the value of `key`.
pub fn lookup_key_value<'a>(configs: &'a Vec<KeyConfig>, key: &Vec<char>) -> (r: Option<
    &'a Vec<char>,
>)
    ensures
        match r {
            Some(v) => find_key_value(configs.deep_view(), key@) == Some(v@),
            None => find_key_value(configs.deep_view(), key@) is None,
        },
{
    let ghost cv = configs.deep_view();
    proof {
        assert(cv.skip(0) =~= cv);
    }
    for i in 0..configs.len()
        invariant
            cv == configs.deep_view(),
            cv.len() == configs@.len(),
            find_key_value(cv, key@) == find_key_value(cv.skip(i as int), key@),
    {
        proof {
            assert(cv.skip(i as int).first() == cv[i as int]);
            assert(cv.skip(i as int).drop_first() =~= cv.skip(i as int + 1));
        }
        if crate::text::chars_eq(&configs[i].key, key) {
            return Some(&configs[i].value);
        }
    }
    proof {
        assert(cv.skip(cv.len() as int) =~= Seq::<KeyConfigV>::empty());
    }
    None
}

/// The first configuration entry carrying `key`.
pub open spec fn find_key_config(configs: Seq<KeyConfigV>, key: Seq<char>) -> Option<KeyConfigV>
    decreases configs.len(),
{
    if configs.len() == 0 {
        None
    } else if configs.first().key == key {
        Some(configs.first())
    } else {
        find_key_config(configs.drop_first(), key)
    }
}

/// Looks up the configuration entry of `key`.
pub fn lookup_key_config<'a>(configs: &'a Vec<KeyConfig>, key: &Vec<char>) -> (r: Option<
    &'a KeyConfig,
>)
    ensures
        match r {
            Some(c) => find_key_config(configs.deep_view(), key@) == Some(c@),
            None => find_key_config(configs.deep_view(), key@) is None,
        },
{
    let ghost cv = configs.deep_view();
    proof {
        assert(cv.skip(0) =~= cv);
    }
    for i in 0..configs.len()
        invariant
            cv == configs.deep_view(),
            cv.len() == configs@.len(),
            find_key_config(cv, key@) == find_key_config(cv.skip(i as int), key@),
    {
        proof {
            assert(cv.skip(i as int).first() == cv[i as int]);
            assert(cv.skip(i as int).drop_first() =~= cv.skip(i as int + 1));
        }
        if crate::text::chars_eq(&configs[i].key, key) {
            return Some(&configs[i]);
        }
    }
    proof {
        assert(cv.skip(cv.len() as int) =~= Seq::<KeyConfigV>::empty());
    }
    None
}

/// Copies a list of texts.
pub fn copy_text_list(texts: &Vec<Vec<char>>) -> (r: Vec<Vec<char>>)
    ensures
        r.deep_view() == texts.deep_view(),
{
    let mut out: Vec<Vec<char>> = Vec::new();
    proof {
        assert(out.deep_view() =~~= texts.deep_view().take(0));
    }
    for i in 0..texts.len()
        invariant
            texts.deep_view().len() == texts@.len(),
            out.deep_view() == texts.deep_view().take(i as int),
    {
        let ghost prev = out.deep_view();
        out.push(texts[i].clone());
        proof {
            assert(out.deep_view() =~~= prev + seq![out@.last().deep_view()]);
            assert(out.deep_view() =~~= texts.deep_view().take(i as int + 1));
        }
    }
    proof {
        assert(texts.deep_view().take(texts@.len() as int) =~= texts.deep_view());
    }
    out
}

/// Copies one key configuration.
pub fn copy_key_config(c: &KeyConfig) -> (r: KeyConfig)
    ensures
        r@ == c@,
{
    KeyConfig {
        key: c.key.clone(),
        display_name: c.display_name.clone(),
        hint: c.hint.clone(),
        value: c.value.clone(),
    }
}

/// Copies a key-configuration list.
pub fn copy_key_configs(configs: &Vec<KeyConfig>) -> (r: Vec<KeyConfig>)
    ensures
        r.deep_view() == configs.deep_view(),
{
    let mut out: Vec<KeyConfig> = Vec::new();
    proof {
        assert(out.deep_view() =~~= configs.deep_view().take(0));
    }
    for i in 0..configs.len()
        invariant
            configs.deep_view().len() == configs@.len(),
            out.deep_view() == configs.deep_view().take(i as int),
    {
        let ghost prev = out.deep_view();
        out.push(copy_key_config(&configs[i]));
        proof {
            assert(out.deep_view() =~~= prev + seq![out@.last().deep_view()]);
            assert(out.deep_view() =~~= configs.deep_view().take(i as int + 1));
        }
    }
    proof {
        assert(configs.deep_view().take(configs@.len() as int) =~= configs.deep_view());
    }
    out
}

/// Copies one preprocessing step.
pub fn copy_preprocess_step(s: &PreprocessStep) -> (r: PreprocessStep)
    ensures
        r@ == s@,
{
    let r = PreprocessStep {
        input_keys: copy_text_list(&s.input_keys),
        prompt: s.prompt.clone(),
        model: s.model.clone(),
        output_key: s.output_key.clone(),
    };
    r
}

/// Copies a preprocessing chain.
pub fn copy_preprocess(steps: &Vec<PreprocessStep>) -> (r: Vec<PreprocessStep>)
    ensures
        r.deep_view() == steps.deep_view(),
{
    let mut out: Vec<PreprocessStep> = Vec::new();
    proof {
        assert(out.deep_view() =~~= steps.deep_view().take(0));
    }
    for i in 0..steps.len()
        invariant
            steps.deep_view().len() == steps@.len(),
            out.deep_view() == steps.deep_view().take(i as int),
    {
        let ghost prev = out.deep_view();
        out.push(copy_preprocess_step(&steps[i]));
        proof {
            assert(out.deep_view() =~~= prev + seq![out@.last().deep_view()]);
            assert(out.deep_view() =~~= steps.deep_view().take(i as int + 1));
        }
    }
    proof {
        assert(steps.deep_view().take(steps@.len() as int) =~= steps.deep_view());
    }
    out
}

/// Copies a module configuration.
pub fn copy_config(c: &ModuleConfig) -> (r: ModuleConfig)
    ensures
        r@ == c@,
{
    let r = ModuleConfig {
        prompt: c.prompt.clone(),
        input: c.input.clone(),
        keys: copy_text_list(&c.keys),
        key_configs: copy_key_configs(&c.key_configs),
        separator: c.separator.clone(),
        preprocess: copy_preprocess(&c.preprocess),
        assign_data: match &c.assign_data {
            Some(a) => Some(
                AssignData { datastore_id: a.datastore_id, is_raw: a.is_raw, tags: a.tags.clone() },
            ),
            None => None,
        },
    };
    r
}

/// The key-configuration list with the value of `key` overwritten; unchanged
/// when no entry carries the key. Only the first entry carrying the key is
/// written.
pub open spec fn spec_set_key_value(
    configs: Seq<KeyConfigV>,
    key: Seq<char>,
    value: Seq<char>,
) -> Seq<KeyConfigV>
    decreases configs.len(),
{
    if configs.len() == 0 {
        configs
    } else if configs.first().key == key {
        seq![
            KeyConfigV {
                key: configs.first().key,
                display_name: configs.first().display_name,
                hint: configs.first().hint,
                value: value,
            },
        ] + configs.drop_first()
    } else {
        seq![configs.first()] + spec_set_key_value(configs.drop_first(), key, value)
    }
}

/// The key-configuration list with the value of `key` overwritten.
pub fn set_key_value(configs: &Vec<KeyConfig>, key: &Vec<char>, value: &Vec<char>) -> (r: Vec<
    KeyConfig,
>)
    ensures
        r.deep_view() == spec_set_key_value(configs.deep_view(), key@, value@),
{
    let ghost cv = configs.deep_view();
    let mut out: Vec<KeyConfig> = Vec::new();
    let mut done: bool = false;
    proof {
        assert(cv.skip(0) =~= cv);
        assert(out.deep_view() =~~= Seq::<KeyConfigV>::empty());
    }
    for i in 0..configs.len()
        invariant
            cv == configs.deep_view(),
            cv.len() == configs@.len(),
            spec_set_key_value(cv, key@, value@) == out.deep_view() + if done {
                cv.skip(i as int)
            } else {
                spec_set_key_value(cv.skip(i as int), key@, value@)
            },
    {
        proof {
            assert(cv.skip(i as int).first() == cv[i as int]);
            assert(cv.skip(i as int).drop_first() =~= cv.skip(i as int + 1));
        }
        let ghost prev = out.deep_view();
        let entry = &configs[i];
        if !done && crate::text::chars_eq(&entry.key, key) {
            out.push(
                KeyConfig {
                    key: entry.key.clone(),
                    display_name: entry.display_name.clone(),
                    hint: entry.hint.clone(),
                    value: value.clone(),
                },
            );
            done = true;
        } else {
            out.push(
                KeyConfig {
                    key: entry.key.clone(),
                    display_name: entry.display_name.clone(),
                    hint: entry.hint.clone(),
                    value: entry.value.clone(),
                },
            );
        }
        proof {
            assert(out.deep_view() =~~= prev + seq![out@.last().deep_view()]);
        }
    }
    proof {
        assert(cv.skip(cv.len() as int) =~= Seq::<KeyConfigV>::empty());
    }
    out
}

} // verus!
