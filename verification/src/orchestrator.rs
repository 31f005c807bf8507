//! The orchestration model: the rows the control plane owns and the exact
//! effect of each control action on them.
//!
//! The shell mirrors each method here with the corresponding SQL statements
//! and broker publishes; every decision about what those statements write is
//! made and proved in this module.

use vstd::prelude::*;

use crate::config::KeyConfig;
use crate::config::KeyConfigV;
use crate::config::ModuleConfig;
use crate::config::ModuleConfigV;
use crate::config::PreprocessStep;
use crate::config::AssignData;
use crate::config::AssignDataV;
use crate::config::copy_config;
use crate::config::copy_key_config;
use crate::config::copy_preprocess;
use crate::config::copy_text_list;
use crate::config::find_key_config;
use crate::config::lookup_key_config;
use crate::config::spec_empty_config;
use crate::config::spec_set_key_value;
use crate::config::set_key_value;
use crate::config::empty_config;
use crate::output::CandidateSeed;
use crate::output::CandidateSeedV;
use crate::output::ExtraData;
use crate::output::ExtraDataV;
use crate::output::copy_extra;
use crate::status::JobProgress;
use crate::status::ModuleStatus;
use crate::text::chars_eq;
use crate::text::contains_pat;
use crate::text::decimal_of;
use crate::text::join_with;
use crate::text::occurs;
use crate::text::spec_decimal_of;
use crate::text::spec_join;
use crate::worker::EvoMessage;
use crate::worker::EvoMessageV;
use crate::worker::EvoSuccess;
use crate::worker::default_model;
use crate::worker::default_model_vec;

verus! {

/// What a module produces.
#[derive(Clone, Copy, PartialEq, Eq, Structural, Debug)]
pub enum Category {
    Generator,
    Evaluator,
}

/// One module row.
pub struct ModuleRow {
    pub module_id: u128,
    pub workspace_id: u128,
    pub name: Vec<char>,
    pub category: Category,
    pub config: ModuleConfig,
}

/// Mathematical image of a [`ModuleRow`].
pub struct ModuleRowV {
    pub module_id: u128,
    pub workspace_id: u128,
    pub name: Seq<char>,
    pub category: Category,
    pub config: ModuleConfigV,
}

impl View for ModuleRow {
    type V = ModuleRowV;

    open spec fn view(&self) -> ModuleRowV {
        ModuleRowV {
            module_id: self.module_id,
            workspace_id: self.workspace_id,
            name: self.name@,
            category: self.category,
            config: self.config@,
        }
    }
}

impl DeepView for ModuleRow {
    type V = ModuleRowV;

    open spec fn deep_view(&self) -> ModuleRowV {
        self.view()
    }
}

/// One job row: a single execution instance of a module.
#[derive(Clone, Copy, PartialEq, Eq, Structural, Debug)]
pub struct JobRow {
    pub job_id: u128,
    pub module_id: u128,
    pub workspace_id: u128,
    pub target_count: usize,
    pub superseded: bool,
}

/// One candidate row.
pub struct CandidateRow {
    pub module_id: u128,
    pub job_id: u128,
    pub group_id: u128,
    pub content: Vec<char>,
    pub extra: ExtraData,
}

/// Mathematical image of a [`CandidateRow`].
pub struct CandidateRowV {
    pub module_id: u128,
    pub job_id: u128,
    pub group_id: u128,
    pub content: Seq<char>,
    pub extra: ExtraDataV,
}

impl View for CandidateRow {
    type V = CandidateRowV;

    open spec fn view(&self) -> CandidateRowV {
        CandidateRowV {
            module_id: self.module_id,
            job_id: self.job_id,
            group_id: self.group_id,
            content: self.content@,
            extra: self.extra@,
        }
    }
}

impl DeepView for CandidateRow {
    type V = CandidateRowV;

    open spec fn deep_view(&self) -> CandidateRowV {
        self.view()
    }
}

/// Copies a candidate row.
pub fn copy_candidate(c: &CandidateRow) -> (r: CandidateRow)
    ensures
        r@ == c@,
{
    CandidateRow {
        module_id: c.module_id,
        job_id: c.job_id,
        group_id: c.group_id,
        content: c.content.clone(),
        extra: copy_extra(&c.extra),
    }
}

/// One file-module binding with its processing flag.
#[derive(Clone, Copy, PartialEq, Eq, Structural, Debug)]
pub struct FileBinding {
    pub file_id: u128,
    pub module_id: u128,
    pub finish_process: bool,
}

/// One stored data row: what `saveData` writes and what an assigned run
/// reads.
pub struct DataRow {
    /// The owning module when `is_raw`, the owning datastore otherwise.
    pub owner_id: u128,
    pub is_raw: bool,
    /// Comma-separated tag list.
    pub tags: Vec<char>,
    pub content: Vec<char>,
    /// The stored reference text, handed to runs as the chunk's reference.
    pub reference: Vec<char>,
}

/// Mathematical image of a [`DataRow`].
pub struct DataRowV {
    pub owner_id: u128,
    pub is_raw: bool,
    pub tags: Seq<char>,
    pub content: Seq<char>,
    pub reference: Seq<char>,
}

impl View for DataRow {
    type V = DataRowV;

    open spec fn view(&self) -> DataRowV {
        DataRowV {
            owner_id: self.owner_id,
            is_raw: self.is_raw,
            tags: self.tags@,
            content: self.content@,
            reference: self.reference@,
        }
    }
}

impl DeepView for DataRow {
    type V = DataRowV;

    open spec fn deep_view(&self) -> DataRowV {
        self.view()
    }
}

/// One unit of input for a run.
pub struct Chunk {
    pub input: Vec<char>,
    pub reference: Vec<char>,
    pub file_id: Option<u128>,
}

/// Mathematical image of a [`Chunk`].
pub struct ChunkV {
    pub input: Seq<char>,
    pub reference: Seq<char>,
    pub file_id: Option<u128>,
}

impl View for Chunk {
    type V = ChunkV;

    open spec fn view(&self) -> ChunkV {
        ChunkV { input: self.input@, reference: self.reference@, file_id: self.file_id }
    }
}

impl DeepView for Chunk {
    type V = ChunkV;

    open spec fn deep_view(&self) -> ChunkV {
        self.view()
    }
}

/// An immutable module blueprint.
pub struct Template {
    pub prompt: Vec<char>,
    pub keys: Vec<Vec<char>>,
    pub key_configs: Vec<KeyConfig>,
    pub separator: Vec<char>,
    pub preprocess: Vec<PreprocessStep>,
    pub category: Category,
}

/// Mathematical image of a [`Template`].
pub struct TemplateV {
    pub prompt: Seq<char>,
    pub keys: Seq<Seq<char>>,
    pub key_configs: Seq<KeyConfigV>,
    pub separator: Seq<char>,
    pub preprocess: Seq<crate::config::PreprocessStepV>,
    pub category: Category,
}

impl View for Template {
    type V = TemplateV;

    open spec fn view(&self) -> TemplateV {
        TemplateV {
            prompt: self.prompt@,
            keys: self.keys.deep_view(),
            key_configs: self.key_configs.deep_view(),
            separator: self.separator@,
            preprocess: self.preprocess.deep_view(),
            category: self.category,
        }
    }
}

/// Why a control action is refused.
#[derive(Clone, Copy, PartialEq, Eq, Structural, Debug)]
pub enum OrchestratorError {
    ModuleNotFound,
    TemplateMismatch,
}

// ----------------------------------------------------------------------------
// Row-set transformations
// ----------------------------------------------------------------------------
/// The first module with the given identifier.
pub open spec fn find_module(ms: Seq<ModuleRowV>, id: u128) -> Option<ModuleRowV>
    decreases ms.len(),
{
    if ms.len() == 0 {
        None
    } else if ms.first().module_id == id {
        Some(ms.first())
    } else {
        find_module(ms.drop_first(), id)
    }
}

/// The first job with the given identifier.
pub open spec fn find_job(js: Seq<JobRow>, id: u128) -> Option<JobRow>
    decreases js.len(),
{
    if js.len() == 0 {
        None
    } else if js.first().job_id == id {
        Some(js.first())
    } else {
        find_job(js.drop_first(), id)
    }
}

/// The candidate rows of every other module: a module's rows deleted.
pub open spec fn spec_drop_candidates(cs: Seq<CandidateRowV>, module_id: u128) -> Seq<
    CandidateRowV,
>
    decreases cs.len(),
{
    if cs.len() == 0 {
        cs
    } else if cs.first().module_id == module_id {
        spec_drop_candidates(cs.drop_first(), module_id)
    } else {
        seq![cs.first()] + spec_drop_candidates(cs.drop_first(), module_id)
    }
}

/// A module's jobs all superseded; other modules' jobs untouched.
pub open spec fn spec_supersede_jobs(js: Seq<JobRow>, module_id: u128) -> Seq<JobRow> {
    js.map_values(
        |j: JobRow|
            if j.module_id == module_id {
                JobRow {
                    job_id: j.job_id,
                    module_id: j.module_id,
                    workspace_id: j.workspace_id,
                    target_count: j.target_count,
                    superseded: true,
                }
            } else {
                j
            },
    )
}

/// A module's file flags all cleared.
pub open spec fn spec_reset_flags(fs: Seq<FileBinding>, module_id: u128) -> Seq<FileBinding> {
    fs.map_values(
        |f: FileBinding|
            if f.module_id == module_id {
                FileBinding { file_id: f.file_id, module_id: f.module_id, finish_process: false }
            } else {
                f
            },
    )
}

/// A file's flag set after a worker finishes it.
pub open spec fn spec_finish_flag(fs: Seq<FileBinding>, file_id: u128, module_id: u128) -> Seq<
    FileBinding,
> {
    fs.map_values(
        |f: FileBinding|
            if f.module_id == module_id && f.file_id == file_id {
                FileBinding { file_id: f.file_id, module_id: f.module_id, finish_process: true }
            } else {
                f
            },
    )
}

/// A module's file bindings all removed.
pub open spec fn spec_drop_bindings(fs: Seq<FileBinding>, module_id: u128) -> Seq<FileBinding>
    decreases fs.len(),
{
    if fs.len() == 0 {
        fs
    } else if fs.first().module_id == module_id {
        spec_drop_bindings(fs.drop_first(), module_id)
    } else {
        seq![fs.first()] + spec_drop_bindings(fs.drop_first(), module_id)
    }
}

/// A module's configuration overwritten.
pub open spec fn spec_set_config(ms: Seq<ModuleRowV>, id: u128, cfg: ModuleConfigV) -> Seq<
    ModuleRowV,
> {
    ms.map_values(
        |m: ModuleRowV|
            if m.module_id == id {
                ModuleRowV {
                    module_id: m.module_id,
                    workspace_id: m.workspace_id,
                    name: m.name,
                    category: m.category,
                    config: cfg,
                }
            } else {
                m
            },
    )
}

// ----------------------------------------------------------------------------
// Exec counterparts
// ----------------------------------------------------------------------------
/// Looks a module up.
pub fn find_module_exec<'a>(ms: &'a Vec<ModuleRow>, id: u128) -> (r: Option<&'a ModuleRow>)
    ensures
        match r {
            Some(m) => find_module(ms.deep_view(), id) == Some(m@),
            None => find_module(ms.deep_view(), id) is None,
        },
{
    let ghost mv = ms.deep_view();
    proof {
        assert(mv.skip(0) =~= mv);
    }
    for i in 0..ms.len()
        invariant
            mv == ms.deep_view(),
            mv.len() == ms@.len(),
            find_module(mv, id) == find_module(mv.skip(i as int), id),
    {
        proof {
            assert(mv.skip(i as int).first() == mv[i as int]);
            assert(mv.skip(i as int).drop_first() =~= mv.skip(i as int + 1));
        }
        if ms[i].module_id == id {
            return Some(&ms[i]);
        }
    }
    proof {
        assert(mv.skip(mv.len() as int) =~= Seq::<ModuleRowV>::empty());
    }
    None
}

/// Looks a job up.
pub fn find_job_exec(js: &Vec<JobRow>, id: u128) -> (r: Option<JobRow>)
    ensures
        r == find_job(js@, id),
{
    proof {
        assert(js@.skip(0) =~= js@);
    }
    for i in 0..js.len()
        invariant
            find_job(js@, id) == find_job(js@.skip(i as int), id),
    {
        proof {
            assert(js@.skip(i as int).first() == js@[i as int]);
            assert(js@.skip(i as int).drop_first() =~= js@.skip(i as int + 1));
        }
        if js[i].job_id == id {
            return Some(js[i]);
        }
    }
    proof {
        assert(js@.skip(js@.len() as int) =~= Seq::<JobRow>::empty());
    }
    None
}

/// Deletes a module's candidate rows.
pub fn drop_candidates_exec(cs: &Vec<CandidateRow>, module_id: u128) -> (r: Vec<CandidateRow>)
    ensures
        r.deep_view() == spec_drop_candidates(cs.deep_view(), module_id),
{
    let ghost cv = cs.deep_view();
    let mut out: Vec<CandidateRow> = Vec::new();
    proof {
        assert(cv.skip(0) =~= cv);
        assert(out.deep_view() =~~= Seq::<CandidateRowV>::empty());
    }
    for i in 0..cs.len()
        invariant
            cv == cs.deep_view(),
            cv.len() == cs@.len(),
            spec_drop_candidates(cv, module_id) == out.deep_view() + spec_drop_candidates(
                cv.skip(i as int),
                module_id,
            ),
    {
        proof {
            assert(cv.skip(i as int).first() == cv[i as int]);
            assert(cv.skip(i as int).drop_first() =~= cv.skip(i as int + 1));
        }
        if cs[i].module_id != module_id {
            let ghost prev = out.deep_view();
            out.push(copy_candidate(&cs[i]));
            proof {
                assert(out.deep_view() =~~= prev + seq![out@.last().deep_view()]);
            }
        }
    }
    proof {
        assert(cv.skip(cv.len() as int) =~= Seq::<CandidateRowV>::empty());
    }
    out
}

/// Supersedes a module's jobs.
pub fn supersede_jobs_exec(js: &Vec<JobRow>, module_id: u128) -> (r: Vec<JobRow>)
    ensures
        r@ == spec_supersede_jobs(js@, module_id),
{
    let mut out: Vec<JobRow> = Vec::new();
    proof {
        assert(out@ =~= spec_supersede_jobs(js@, module_id).take(0));
    }
    for i in 0..js.len()
        invariant
            out@ == spec_supersede_jobs(js@, module_id).take(i as int),
    {
        let j = js[i];
        if j.module_id == module_id {
            out.push(
                JobRow {
                    job_id: j.job_id,
                    module_id: j.module_id,
                    workspace_id: j.workspace_id,
                    target_count: j.target_count,
                    superseded: true,
                },
            );
        } else {
            out.push(j);
        }
        proof {
            assert(out@ =~= spec_supersede_jobs(js@, module_id).take(i as int + 1));
        }
    }
    proof {
        assert(spec_supersede_jobs(js@, module_id).take(js@.len() as int) =~= spec_supersede_jobs(
            js@,
            module_id,
        ));
    }
    out
}

/// Clears a module's file flags.
pub fn reset_flags_exec(fs: &Vec<FileBinding>, module_id: u128) -> (r: Vec<FileBinding>)
    ensures
        r@ == spec_reset_flags(fs@, module_id),
{
    let mut out: Vec<FileBinding> = Vec::new();
    proof {
        assert(out@ =~= spec_reset_flags(fs@, module_id).take(0));
    }
    for i in 0..fs.len()
        invariant
            out@ == spec_reset_flags(fs@, module_id).take(i as int),
    {
        let f = fs[i];
        if f.module_id == module_id {
            out.push(FileBinding { file_id: f.file_id, module_id: f.module_id, finish_process: false });
        } else {
            out.push(f);
        }
        proof {
            assert(out@ =~= spec_reset_flags(fs@, module_id).take(i as int + 1));
        }
    }
    proof {
        assert(spec_reset_flags(fs@, module_id).take(fs@.len() as int) =~= spec_reset_flags(
            fs@,
            module_id,
        ));
    }
    out
}

/// Sets a file's processed flag.
pub fn finish_flag_exec(fs: &Vec<FileBinding>, file_id: u128, module_id: u128) -> (r: Vec<
    FileBinding,
>)
    ensures
        r@ == spec_finish_flag(fs@, file_id, module_id),
{
    let mut out: Vec<FileBinding> = Vec::new();
    proof {
        assert(out@ =~= spec_finish_flag(fs@, file_id, module_id).take(0));
    }
    for i in 0..fs.len()
        invariant
            out@ == spec_finish_flag(fs@, file_id, module_id).take(i as int),
    {
        let f = fs[i];
        if f.module_id == module_id && f.file_id == file_id {
            out.push(FileBinding { file_id: f.file_id, module_id: f.module_id, finish_process: true });
        } else {
            out.push(f);
        }
        proof {
            assert(out@ =~= spec_finish_flag(fs@, file_id, module_id).take(i as int + 1));
        }
    }
    proof {
        assert(spec_finish_flag(fs@, file_id, module_id).take(fs@.len() as int) =~= spec_finish_flag(
            fs@,
            file_id,
            module_id,
        ));
    }
    out
}

/// Removes a module's file bindings.
pub fn drop_bindings_exec(fs: &Vec<FileBinding>, module_id: u128) -> (r: Vec<FileBinding>)
    ensures
        r@ == spec_drop_bindings(fs@, module_id),
{
    let mut out: Vec<FileBinding> = Vec::new();
    proof {
        assert(fs@.skip(0) =~= fs@);
        assert(out@ =~= Seq::<FileBinding>::empty());
    }
    for i in 0..fs.len()
        invariant
            spec_drop_bindings(fs@, module_id) == out@ + spec_drop_bindings(
                fs@.skip(i as int),
                module_id,
            ),
    {
        proof {
            assert(fs@.skip(i as int).first() == fs@[i as int]);
            assert(fs@.skip(i as int).drop_first() =~= fs@.skip(i as int + 1));
        }
        if fs[i].module_id != module_id {
            out.push(fs[i]);
            proof {
                assert(out@ =~= out@.drop_last() + seq![fs@[i as int]]);
            }
        }
    }
    proof {
        assert(fs@.skip(fs@.len() as int) =~= Seq::<FileBinding>::empty());
    }
    out
}

/// Overwrites a module's configuration.
pub fn set_config_exec(ms: &Vec<ModuleRow>, id: u128, cfg: &ModuleConfig) -> (r: Vec<ModuleRow>)
    ensures
        r.deep_view() == spec_set_config(ms.deep_view(), id, cfg@),
{
    let ghost mv = ms.deep_view();
    let mut out: Vec<ModuleRow> = Vec::new();
    proof {
        assert(out.deep_view() =~~= spec_set_config(mv, id, cfg@).take(0));
    }
    for i in 0..ms.len()
        invariant
            mv == ms.deep_view(),
            mv.len() == ms@.len(),
            out.deep_view() == spec_set_config(mv, id, cfg@).take(i as int),
    {
        let ghost prev = out.deep_view();
        let m = &ms[i];
        if m.module_id == id {
            out.push(
                ModuleRow {
                    module_id: m.module_id,
                    workspace_id: m.workspace_id,
                    name: m.name.clone(),
                    category: m.category,
                    config: copy_config(cfg),
                },
            );
        } else {
            out.push(
                ModuleRow {
                    module_id: m.module_id,
                    workspace_id: m.workspace_id,
                    name: m.name.clone(),
                    category: m.category,
                    config: copy_config(&m.config),
                },
            );
        }
        proof {
            assert(out.deep_view() =~~= prev + seq![out@.last().deep_view()]);
            assert(out.deep_view() =~~= spec_set_config(mv, id, cfg@).take(i as int + 1));
        }
    }
    proof {
        assert(spec_set_config(mv, id, cfg@).take(ms@.len() as int) =~~= spec_set_config(
            mv,
            id,
            cfg@,
        ));
    }
    out
}

// ----------------------------------------------------------------------------
// Configuration building
// ----------------------------------------------------------------------------
/// The key-configuration list a template induces: one entry per listed key,
/// with the template's display name and hint (empty when the template has no
/// entry for the key) and an empty value.
pub open spec fn spec_template_key_configs(
    keys: Seq<Seq<char>>,
    kcs: Seq<KeyConfigV>,
) -> Seq<KeyConfigV>
    decreases keys.len(),
{
    if keys.len() == 0 {
        Seq::empty()
    } else {
        let entry = match find_key_config(kcs, keys.first()) {
            Some(c) => KeyConfigV {
                key: keys.first(),
                display_name: c.display_name,
                hint: c.hint,
                value: Seq::empty(),
            },
            None => KeyConfigV {
                key: keys.first(),
                display_name: Seq::empty(),
                hint: Seq::empty(),
                value: Seq::empty(),
            },
        };
        seq![entry] + spec_template_key_configs(keys.drop_first(), kcs)
    }
}

/// The configuration a module is reset to from a template.
pub open spec fn spec_config_from_template(t: TemplateV) -> ModuleConfigV {
    ModuleConfigV {
        prompt: t.prompt,
        input: Seq::empty(),
        keys: t.keys,
        key_configs: spec_template_key_configs(t.keys, t.key_configs),
        separator: t.separator,
        preprocess: t.preprocess,
        assign_data: None,
    }
}

/// Builds a module configuration from a template.
pub fn config_from_template(t: &Template) -> (r: ModuleConfig)
    ensures
        r@ == spec_config_from_template(t@),
{
    let ghost kv = t.keys.deep_view();
    let ghost kcs = t.key_configs.deep_view();
    let mut entries: Vec<KeyConfig> = Vec::new();
    proof {
        assert(kv.skip(0) =~~= kv);
        assert(entries.deep_view() =~~= Seq::<KeyConfigV>::empty());
    }
    for i in 0..t.keys.len()
        invariant
            kv == t.keys.deep_view(),
            kcs == t.key_configs.deep_view(),
            kv.len() == t.keys@.len(),
            spec_template_key_configs(kv, kcs) == entries.deep_view()
                + spec_template_key_configs(kv.skip(i as int), kcs),
    {
        proof {
            assert(kv.skip(i as int).first() == kv[i as int]);
            assert(kv.skip(i as int).drop_first() =~~= kv.skip(i as int + 1));
            assert(kv[i as int] == t.keys@[i as int]@);
        }
        let ghost prev = entries.deep_view();
        let key = t.keys[i].clone();
        let empty_value: Vec<char> = Vec::new();
        proof {
            assert(empty_value@ =~= Seq::<char>::empty());
        }
        let entry = match lookup_key_config(&t.key_configs, &t.keys[i]) {
            Some(c) => KeyConfig {
                key,
                display_name: c.display_name.clone(),
                hint: c.hint.clone(),
                value: empty_value,
            },
            None => {
                let empty_display: Vec<char> = Vec::new();
                let empty_hint: Vec<char> = Vec::new();
                proof {
                    assert(empty_display@ =~= Seq::<char>::empty());
                    assert(empty_hint@ =~= Seq::<char>::empty());
                }
                KeyConfig { key, display_name: empty_display, hint: empty_hint, value: empty_value }
            },
        };
        entries.push(entry);
        proof {
            assert(entries@.last().deep_view().value =~= Seq::<char>::empty());
            assert(entries@.last().deep_view().display_name == (match find_key_config(
                kcs,
                kv[i as int],
            ) {
                Some(c) => c.display_name,
                None => Seq::<char>::empty(),
            }));
            assert(entries.deep_view() =~~= prev + seq![entries@.last().deep_view()]);
        }
    }
    proof {
        assert(kv.skip(kv.len() as int) =~~= Seq::<Seq<char>>::empty());
    }
    let r = ModuleConfig {
        prompt: t.prompt.clone(),
        input: Vec::new(),
        keys: copy_text_list(&t.keys),
        key_configs: entries,
        separator: t.separator.clone(),
        preprocess: copy_preprocess(&t.preprocess),
        assign_data: None,
    };
    proof {
        assert(r@.input =~= Seq::<char>::empty());
    }
    r
}

/// The configuration after the preprocessing outputs from step `k` on are
/// written back onto their output keys, in order.
pub open spec fn spec_apply_preprocess(
    cfg: ModuleConfigV,
    outputs: Seq<Seq<char>>,
    k: int,
) -> ModuleConfigV
    decreases cfg.preprocess.len() - k,
{
    if k < 0 || k >= cfg.preprocess.len() || k >= outputs.len() {
        cfg
    } else {
        spec_apply_preprocess(
            ModuleConfigV {
                prompt: cfg.prompt,
                input: cfg.input,
                keys: cfg.keys,
                key_configs: spec_set_key_value(
                    cfg.key_configs,
                    cfg.preprocess[k].output_key,
                    outputs[k],
                ),
                separator: cfg.separator,
                preprocess: cfg.preprocess,
                assign_data: cfg.assign_data,
            },
            outputs,
            k + 1,
        )
    }
}

/// Writes the preprocessing outputs back onto their output keys.
pub fn apply_preprocess(cfg: ModuleConfig, outputs: &Vec<Vec<char>>) -> (r: ModuleConfig)
    ensures
        r@ == spec_apply_preprocess(cfg@, outputs.deep_view(), 0),
{
    let ghost cfg0 = cfg@;
    let ghost ov = outputs.deep_view();
    let mut cfg = cfg;
    let steps = cfg.preprocess.len();
    let mut k: usize = 0;
    while k < steps && k < outputs.len()
        invariant
            ov == outputs.deep_view(),
            ov.len() == outputs@.len(),
            steps == cfg@.preprocess.len(),
            k <= steps,
            spec_apply_preprocess(cfg0, ov, 0) == spec_apply_preprocess(cfg@, ov, k as int),
        decreases steps - k,
    {
        proof {
            assert(ov[k as int] == outputs@[k as int]@);
            assert(cfg@.preprocess[k as int] == cfg.preprocess@[k as int]@);
        }
        let kc = set_key_value(&cfg.key_configs, &cfg.preprocess[k].output_key, &outputs[k]);
        cfg.key_configs = kc;
        k = k + 1;
    }
    cfg
}

/// The prompt of preprocessing step `k`: its template with its listed input
/// keys substituted from the current configuration.
pub open spec fn spec_preprocess_prompt(cfg: ModuleConfigV, k: int) -> Seq<char> {
    crate::expand::spec_substitute_keys(
        cfg.preprocess[k].prompt,
        cfg.preprocess[k].input_keys,
        cfg.key_configs,
        0,
    )
}

/// Expands the prompt of one preprocessing step.
pub fn preprocess_prompt(cfg: &ModuleConfig, k: usize) -> (r: Vec<char>)
    requires
        k < cfg@.preprocess.len(),
    ensures
        r@ == spec_preprocess_prompt(cfg@, k as int),
{
    proof {
        assert(cfg@.preprocess[k as int] == cfg.preprocess@[k as int]@);
    }
    crate::expand::substitute_keys(
        &cfg.preprocess[k].prompt,
        &cfg.preprocess[k].input_keys,
        &cfg.key_configs,
    )
}

/// The fully substituted main prompt of a configuration.
pub open spec fn spec_main_prompt(cfg: ModuleConfigV) -> Seq<char> {
    crate::expand::spec_substitute_keys(cfg.prompt, cfg.keys, cfg.key_configs, 0)
}

/// Builds the fully substituted main prompt.
pub fn main_prompt(cfg: &ModuleConfig) -> (r: Vec<char>)
    ensures
        r@ == spec_main_prompt(cfg@),
{
    crate::expand::substitute_keys(&cfg.prompt, &cfg.keys, &cfg.key_configs)
}

// ----------------------------------------------------------------------------
// Models and messages
// ----------------------------------------------------------------------------
/// The model evaluator modules run on.
pub open spec fn evaluator_model() -> Seq<char> {
    seq!['g', 'p', 't', '-', '4', '-', '1', '1', '0', '6', '-', 'p', 'r', 'e', 'v', 'i', 'e', 'w']
}

pub fn evaluator_model_vec() -> (v: Vec<char>)
    ensures
        v@ == evaluator_model(),
{
    let mut v: Vec<char> = Vec::new();
    v.push('g');
    v.push('p');
    v.push('t');
    v.push('-');
    v.push('4');
    v.push('-');
    v.push('1');
    v.push('1');
    v.push('0');
    v.push('6');
    v.push('-');
    v.push('p');
    v.push('r');
    v.push('e');
    v.push('v');
    v.push('i');
    v.push('e');
    v.push('w');
    proof {
        assert(v@ =~= evaluator_model());
    }
    v
}

/// The model a run of the given category uses.
pub open spec fn spec_model_for(c: Category) -> Seq<char> {
    match c {
        Category::Generator => default_model(),
        Category::Evaluator => evaluator_model(),
    }
}

/// Picks the model for a category.
pub fn model_for(c: Category) -> (v: Vec<char>)
    ensures
        v@ == spec_model_for(c),
{
    match c {
        Category::Generator => default_model_vec(),
        Category::Evaluator => evaluator_model_vec(),
    }
}

/// One evo message per chunk, in order, all carrying the same prompt,
/// separator and model, each with its chunk's input, reference and file.
pub open spec fn spec_evo_messages(
    module_id: u128,
    job_id: u128,
    workspace_id: u128,
    user_id: u128,
    prompt: Seq<char>,
    separator: Seq<char>,
    model: Seq<char>,
    chunks: Seq<ChunkV>,
) -> Seq<EvoMessageV>
    decreases chunks.len(),
{
    if chunks.len() == 0 {
        Seq::empty()
    } else {
        seq![
            EvoMessageV {
                module_id: module_id,
                job_id: job_id,
                workspace_id: workspace_id,
                file_id: chunks.first().file_id,
                input: chunks.first().input,
                prompt: prompt,
                user_id: user_id,
                separator: separator,
                reference: chunks.first().reference,
                model_name: model,
            },
        ] + spec_evo_messages(
            module_id,
            job_id,
            workspace_id,
            user_id,
            prompt,
            separator,
            model,
            chunks.drop_first(),
        )
    }
}

/// Builds the evo messages of a run.
pub fn build_evo_messages(
    module_id: u128,
    job_id: u128,
    workspace_id: u128,
    user_id: u128,
    prompt: &Vec<char>,
    separator: &Vec<char>,
    model: &Vec<char>,
    chunks: &Vec<Chunk>,
) -> (r: Vec<EvoMessage>)
    ensures
        r.deep_view() == spec_evo_messages(
            module_id,
            job_id,
            workspace_id,
            user_id,
            prompt@,
            separator@,
            model@,
            chunks.deep_view(),
        ),
{
    let ghost cv = chunks.deep_view();
    let ghost goal = spec_evo_messages(
        module_id,
        job_id,
        workspace_id,
        user_id,
        prompt@,
        separator@,
        model@,
        cv,
    );
    let mut out: Vec<EvoMessage> = Vec::new();
    proof {
        assert(cv.skip(0) =~~= cv);
        assert(out.deep_view() =~~= Seq::<EvoMessageV>::empty());
    }
    for i in 0..chunks.len()
        invariant
            cv == chunks.deep_view(),
            cv.len() == chunks@.len(),
            goal == spec_evo_messages(
                module_id,
                job_id,
                workspace_id,
                user_id,
                prompt@,
                separator@,
                model@,
                cv,
            ),
            goal == out.deep_view() + spec_evo_messages(
                module_id,
                job_id,
                workspace_id,
                user_id,
                prompt@,
                separator@,
                model@,
                cv.skip(i as int),
            ),
    {
        proof {
            assert(cv.skip(i as int).first() == cv[i as int]);
            assert(cv.skip(i as int).drop_first() =~~= cv.skip(i as int + 1));
            assert(cv[i as int] == chunks@[i as int]@);
        }
        let ghost prev = out.deep_view();
        out.push(
            EvoMessage {
                module_id,
                job_id,
                workspace_id,
                file_id: chunks[i].file_id,
                input: chunks[i].input.clone(),
                prompt: prompt.clone(),
                user_id,
                separator: separator.clone(),
                reference: chunks[i].reference.clone(),
                model_name: model.clone(),
            },
        );
        proof {
            assert(out.deep_view() =~~= prev + seq![out@.last().deep_view()]);
        }
    }
    proof {
        assert(cv.skip(cv.len() as int) =~~= Seq::<ChunkV>::empty());
    }
    out
}

// ----------------------------------------------------------------------------
// Tags and assigned data
// ----------------------------------------------------------------------------
/// The comma that separates stored tags.
pub open spec fn comma_text() -> Seq<char> {
    seq![',']
}

pub fn comma_text_vec() -> (v: Vec<char>)
    ensures
        v@ == comma_text(),
{
    let mut v: Vec<char> = Vec::new();
    v.push(',');
    proof {
        assert(v@ =~= comma_text());
    }
    v
}

/// A tag list as stored: the tags joined with commas.
pub open spec fn spec_tags_text(tags: Seq<Seq<char>>) -> Seq<char> {
    spec_join(tags, comma_text())
}

/// Joins a tag list for storage.
pub fn tags_text(tags: &Vec<Vec<char>>) -> (r: Vec<char>)
    ensures
        r@ == spec_tags_text(tags.deep_view()),
{
    let comma = comma_text_vec();
    join_with(tags, &comma)
}

/// A stored tag text matches when any wanted tag occurs in it.
pub open spec fn tags_match(row_tags: Seq<char>, wanted: Seq<Seq<char>>) -> bool {
    exists|i: int| 0 <= i < wanted.len() && occurs(row_tags, #[trigger] wanted[i])
}

/// Whether a stored tag text matches any wanted tag.
pub fn tags_match_exec(row_tags: &Vec<char>, wanted: &Vec<Vec<char>>) -> (b: bool)
    ensures
        b == tags_match(row_tags@, wanted.deep_view()),
{
    let ghost wv = wanted.deep_view();
    for i in 0..wanted.len()
        invariant
            wv == wanted.deep_view(),
            wv.len() == wanted@.len(),
            forall|j: int| 0 <= j < i ==> !occurs(row_tags@, #[trigger] wv[j]),
    {
        proof {
            assert(wv[i as int] == wanted@[i as int]@);
        }
        if contains_pat(row_tags, &wanted[i]) {
            return true;
        }
    }
    false
}

/// The chunks an assigned run reads: the content and reference of every data
/// row of the right scope whose tags match.
pub open spec fn spec_select_data(
    rows: Seq<DataRowV>,
    owner: u128,
    is_raw: bool,
    wanted: Seq<Seq<char>>,
) -> Seq<ChunkV>
    decreases rows.len(),
{
    if rows.len() == 0 {
        Seq::empty()
    } else if rows.first().owner_id == owner && rows.first().is_raw == is_raw && tags_match(
        rows.first().tags,
        wanted,
    ) {
        seq![
            ChunkV {
                input: rows.first().content,
                reference: rows.first().reference,
                file_id: None,
            },
        ] + spec_select_data(rows.drop_first(), owner, is_raw, wanted)
    } else {
        spec_select_data(rows.drop_first(), owner, is_raw, wanted)
    }
}

/// Selects the data rows an assigned run consumes.
pub fn select_assigned_data(
    rows: &Vec<DataRow>,
    owner: u128,
    is_raw: bool,
    wanted: &Vec<Vec<char>>,
) -> (r: Vec<Chunk>)
    ensures
        r.deep_view() == spec_select_data(rows.deep_view(), owner, is_raw, wanted.deep_view()),
{
    let ghost rv = rows.deep_view();
    let ghost wv = wanted.deep_view();
    let mut out: Vec<Chunk> = Vec::new();
    proof {
        assert(rv.skip(0) =~~= rv);
        assert(out.deep_view() =~~= Seq::<ChunkV>::empty());
    }
    for i in 0..rows.len()
        invariant
            rv == rows.deep_view(),
            wv == wanted.deep_view(),
            rv.len() == rows@.len(),
            spec_select_data(rv, owner, is_raw, wv) == out.deep_view() + spec_select_data(
                rv.skip(i as int),
                owner,
                is_raw,
                wv,
            ),
    {
        proof {
            assert(rv.skip(i as int).first() == rv[i as int]);
            assert(rv.skip(i as int).drop_first() =~~= rv.skip(i as int + 1));
        }
        let row = &rows[i];
        if row.owner_id == owner && row.is_raw == is_raw && tags_match_exec(&row.tags, wanted) {
            let ghost prev = out.deep_view();
            out.push(
                Chunk {
                    input: row.content.clone(),
                    reference: row.reference.clone(),
                    file_id: None,
                },
            );
            proof {
                assert(out.deep_view() =~~= prev + seq![out@.last().deep_view()]);
            }
        }
    }
    proof {
        assert(rv.skip(rv.len() as int) =~~= Seq::<DataRowV>::empty());
    }
    out
}

// ----------------------------------------------------------------------------
// Distinct counting and saved data
// ----------------------------------------------------------------------------
/// Number of distinct values in a sequence.
pub open spec fn count_distinct<T>(s: Seq<T>) -> int
    decreases s.len(),
{
    if s.len() == 0 {
        0
    } else {
        count_distinct(s.drop_last()) + if s.drop_last().contains(s.last()) {
            0int
        } else {
            1int
        }
    }
}

/// The distinct count never exceeds the length.
pub proof fn lemma_count_distinct_le_len<T>(s: Seq<T>)
    ensures
        0 <= count_distinct(s) <= s.len(),
    decreases s.len(),
{
    if s.len() > 0 {
        lemma_count_distinct_le_len(s.drop_last());
    }
}

/// The tag texts of a module's raw data rows.
pub open spec fn raw_tags_of(rows: Seq<DataRowV>, module_id: u128) -> Seq<Seq<char>>
    decreases rows.len(),
{
    if rows.len() == 0 {
        Seq::empty()
    } else if rows.first().owner_id == module_id && rows.first().is_raw {
        seq![rows.first().tags] + raw_tags_of(rows.drop_first(), module_id)
    } else {
        raw_tags_of(rows.drop_first(), module_id)
    }
}

/// Collects the tag texts of a module's raw data rows.
pub fn collect_raw_tags(rows: &Vec<DataRow>, module_id: u128) -> (r: Vec<Vec<char>>)
    ensures
        r.deep_view() == raw_tags_of(rows.deep_view(), module_id),
{
    let ghost rv = rows.deep_view();
    let mut out: Vec<Vec<char>> = Vec::new();
    proof {
        assert(rv.skip(0) =~~= rv);
        assert(out.deep_view() =~~= Seq::<Seq<char>>::empty());
    }
    for i in 0..rows.len()
        invariant
            rv == rows.deep_view(),
            rv.len() == rows@.len(),
            raw_tags_of(rv, module_id) == out.deep_view() + raw_tags_of(
                rv.skip(i as int),
                module_id,
            ),
    {
        proof {
            assert(rv.skip(i as int).first() == rv[i as int]);
            assert(rv.skip(i as int).drop_first() =~~= rv.skip(i as int + 1));
            assert(rv[i as int] == rows@[i as int]@);
        }
        if rows[i].owner_id == module_id && rows[i].is_raw {
            let ghost prev = out.deep_view();
            out.push(rows[i].tags.clone());
            proof {
                assert(out.deep_view() =~~= prev + seq![out@.last().deep_view()]);
                assert(out@.last().deep_view() == rv[i as int].tags);
                assert(raw_tags_of(rv.skip(i as int), module_id) == seq![rv[i as int].tags]
                    + raw_tags_of(rv.skip(i as int + 1), module_id));
                assert(prev + seq![rv[i as int].tags] + raw_tags_of(
                    rv.skip(i as int + 1),
                    module_id,
                ) =~~= prev + (seq![rv[i as int].tags] + raw_tags_of(
                    rv.skip(i as int + 1),
                    module_id,
                )));
            }
        }
    }
    proof {
        assert(rv.skip(rv.len() as int) =~~= Seq::<DataRowV>::empty());
    }
    out
}

/// Whether a text list holds a given text.
pub fn text_list_contains(l: &Vec<Vec<char>>, x: &Vec<char>) -> (b: bool)
    ensures
        b == l.deep_view().contains(x@),
{
    let ghost lv = l.deep_view();
    for i in 0..l.len()
        invariant
            lv == l.deep_view(),
            lv.len() == l@.len(),
            forall|j: int| 0 <= j < i ==> lv[j] != x@,
    {
        proof {
            assert(lv[i as int] == l@[i as int]@);
        }
        if chars_eq(&l[i], x) {
            proof {
                assert(lv.contains(x@));
            }
            return true;
        }
    }
    proof {
        assert(!lv.contains(x@));
    }
    false
}

/// Counts the distinct texts of a list.
pub fn count_distinct_texts(l: &Vec<Vec<char>>) -> (n: usize)
    ensures
        n == count_distinct(l.deep_view()),
{
    let ghost lv = l.deep_view();
    let mut seen: Vec<Vec<char>> = Vec::new();
    let mut n: usize = 0;
    proof {
        assert(lv.take(0) =~~= Seq::<Seq<char>>::empty());
    }
    for i in 0..l.len()
        invariant
            lv == l.deep_view(),
            lv.len() == l@.len(),
            n <= i,
            n == count_distinct(lv.take(i as int)),
            forall|x: Seq<char>|
                seen.deep_view().contains(x) <==> lv.take(i as int).contains(x),
    {
        proof {
            assert(lv.take(i as int + 1).drop_last() =~~= lv.take(i as int));
            assert(lv.take(i as int + 1).last() == lv[i as int]);
            assert(lv[i as int] == l@[i as int]@);
        }
        let present = text_list_contains(&seen, &l[i]);
        if !present {
            n = n + 1;
            let ghost prevseen = seen.deep_view();
            seen.push(l[i].clone());
            proof {
                assert(seen.deep_view() =~~= prevseen.push(lv[i as int]));
                assert forall|x: Seq<char>|
                    seen.deep_view().contains(x) <==> lv.take(i as int + 1).contains(x) by {
                    if seen.deep_view().contains(x) {
                        let j = choose|j: int|
                            0 <= j < seen.deep_view().len() && seen.deep_view()[j] == x;
                        if j < prevseen.len() {
                            assert(prevseen.contains(x));
                        }
                        if x == lv[i as int] {
                            assert(lv.take(i as int + 1)[i as int] == x);
                        } else {
                            assert(prevseen.contains(x));
                            assert(lv.take(i as int).contains(x));
                            let m = choose|m: int|
                                0 <= m < lv.take(i as int).len() && #[trigger] lv.take(
                                    i as int,
                                )[m] == x;
                            assert(lv.take(i as int + 1)[m] == x);
                        }
                    }
                    if lv.take(i as int + 1).contains(x) {
                        let j = choose|j: int|
                            0 <= j < lv.take(i as int + 1).len() && #[trigger] lv.take(
                                i as int + 1,
                            )[j] == x;
                        if j < i {
                            assert(lv.take(i as int)[j] == x);
                            assert(lv.take(i as int).contains(x));
                            assert(prevseen.contains(x));
                            let m = choose|m: int| 0 <= m < prevseen.len() && prevseen[m] == x;
                            assert(seen.deep_view()[m] == x);
                        } else {
                            assert(x == lv[i as int]);
                            assert(seen.deep_view()[prevseen.len() as int] == x);
                        }
                    }
                }
            }
        } else {
            proof {
                assert(lv.take(i as int).contains(lv[i as int]));
                assert forall|x: Seq<char>|
                    seen.deep_view().contains(x) <==> lv.take(i as int + 1).contains(x) by {
                    if lv.take(i as int + 1).contains(x) {
                        let j = choose|j: int|
                            0 <= j < lv.take(i as int + 1).len() && #[trigger] lv.take(
                                i as int + 1,
                            )[j] == x;
                        if j < i {
                            assert(lv.take(i as int)[j] == x);
                            assert(lv.take(i as int).contains(x));
                        } else {
                            assert(x == lv[i as int]);
                        }
                    }
                    if seen.deep_view().contains(x) {
                        assert(lv.take(i as int).contains(x));
                        let m = choose|m: int|
                            0 <= m < lv.take(i as int).len() && #[trigger] lv.take(
                                i as int,
                            )[m] == x;
                        assert(lv.take(i as int + 1)[m] == x);
                    }
                }
            }
        }
    }
    proof {
        assert(lv.take(lv.len() as int) =~~= lv);
    }
    n
}

/// The default tag of a save: the module's name, a dash, and one more than
/// the distinct tags already saved.
pub open spec fn spec_default_tag(name: Seq<char>, n: int) -> Seq<char> {
    name + seq!['-'] + spec_decimal_of(n)
}

/// The number the next default tag carries: one more than the distinct count,
/// held at the machine's ceiling.
pub open spec fn spec_next_tag_number(cd: int) -> int {
    if cd < usize::MAX {
        cd + 1
    } else {
        cd
    }
}

/// Builds the default tag.
pub fn default_tag(name: &Vec<char>, n: usize) -> (r: Vec<char>)
    ensures
        r@ == spec_default_tag(name@, n as int),
{
    let mut r = name.clone();
    r.push('-');
    let digits = decimal_of(n);
    crate::text::push_all(&mut r, &digits);
    proof {
        assert(name@.push('-') =~= name@ + seq!['-']);
    }
    r
}

/// The data rows a save writes: one raw row per candidate of the module,
/// carrying the tag text, the content, and the candidate's stored input text
/// as the reference.
pub open spec fn spec_save_rows(
    cs: Seq<CandidateRowV>,
    module_id: u128,
    tags: Seq<char>,
) -> Seq<DataRowV>
    decreases cs.len(),
{
    if cs.len() == 0 {
        Seq::empty()
    } else if cs.first().module_id == module_id {
        seq![
            DataRowV {
                owner_id: module_id,
                is_raw: true,
                tags: tags,
                content: cs.first().content,
                reference: cs.first().extra.text,
            },
        ] + spec_save_rows(cs.drop_first(), module_id, tags)
    } else {
        spec_save_rows(cs.drop_first(), module_id, tags)
    }
}

/// Builds the data rows of a save.
pub fn save_rows_exec(cs: &Vec<CandidateRow>, module_id: u128, tags: &Vec<char>) -> (r: Vec<
    DataRow,
>)
    ensures
        r.deep_view() == spec_save_rows(cs.deep_view(), module_id, tags@),
{
    let ghost cv = cs.deep_view();
    let mut out: Vec<DataRow> = Vec::new();
    proof {
        assert(cv.skip(0) =~~= cv);
        assert(out.deep_view() =~~= Seq::<DataRowV>::empty());
    }
    for i in 0..cs.len()
        invariant
            cv == cs.deep_view(),
            cv.len() == cs@.len(),
            spec_save_rows(cv, module_id, tags@) == out.deep_view() + spec_save_rows(
                cv.skip(i as int),
                module_id,
                tags@,
            ),
    {
        proof {
            assert(cv.skip(i as int).first() == cv[i as int]);
            assert(cv.skip(i as int).drop_first() =~~= cv.skip(i as int + 1));
        }
        if cs[i].module_id == module_id {
            let ghost prev = out.deep_view();
            out.push(
                DataRow {
                    owner_id: module_id,
                    is_raw: true,
                    tags: tags.clone(),
                    content: cs[i].content.clone(),
                    reference: cs[i].extra.text.clone(),
                },
            );
            proof {
                assert(out.deep_view() =~~= prev + seq![out@.last().deep_view()]);
            }
        }
    }
    proof {
        assert(cv.skip(cv.len() as int) =~~= Seq::<CandidateRowV>::empty());
    }
    out
}

/// The candidate rows a worker success inserts: one row per seed, all under
/// one group.
pub open spec fn spec_candidate_rows(
    module_id: u128,
    job_id: u128,
    group_id: u128,
    seeds: Seq<CandidateSeedV>,
) -> Seq<CandidateRowV>
    decreases seeds.len(),
{
    if seeds.len() == 0 {
        Seq::empty()
    } else {
        seq![
            CandidateRowV {
                module_id: module_id,
                job_id: job_id,
                group_id: group_id,
                content: seeds.first().content,
                extra: seeds.first().extra,
            },
        ] + spec_candidate_rows(module_id, job_id, group_id, seeds.drop_first())
    }
}

/// Builds the candidate rows of one worker success.
pub fn candidate_rows_exec(
    module_id: u128,
    job_id: u128,
    group_id: u128,
    seeds: &Vec<CandidateSeed>,
) -> (r: Vec<CandidateRow>)
    ensures
        r.deep_view() == spec_candidate_rows(module_id, job_id, group_id, seeds.deep_view()),
{
    let ghost sv = seeds.deep_view();
    let mut out: Vec<CandidateRow> = Vec::new();
    proof {
        assert(sv.skip(0) =~~= sv);
        assert(out.deep_view() =~~= Seq::<CandidateRowV>::empty());
    }
    for i in 0..seeds.len()
        invariant
            sv == seeds.deep_view(),
            sv.len() == seeds@.len(),
            spec_candidate_rows(module_id, job_id, group_id, sv) == out.deep_view()
                + spec_candidate_rows(module_id, job_id, group_id, sv.skip(i as int)),
    {
        proof {
            assert(sv.skip(i as int).first() == sv[i as int]);
            assert(sv.skip(i as int).drop_first() =~~= sv.skip(i as int + 1));
        }
        let ghost prev = out.deep_view();
        out.push(
            CandidateRow {
                module_id,
                job_id,
                group_id,
                content: seeds[i].content.clone(),
                extra: copy_extra(&seeds[i].extra),
            },
        );
        proof {
            assert(out.deep_view() =~~= prev + seq![out@.last().deep_view()]);
        }
    }
    proof {
        assert(sv.skip(sv.len() as int) =~~= Seq::<CandidateSeedV>::empty());
    }
    out
}

/// The group identifiers of a job's candidates, in row order.
pub open spec fn groups_of(cs: Seq<CandidateRowV>, job_id: u128) -> Seq<u128>
    decreases cs.len(),
{
    if cs.len() == 0 {
        Seq::empty()
    } else if cs.first().job_id == job_id {
        seq![cs.first().group_id] + groups_of(cs.drop_first(), job_id)
    } else {
        groups_of(cs.drop_first(), job_id)
    }
}

/// Collects the group identifiers of a job's candidates.
pub fn groups_of_exec(cs: &Vec<CandidateRow>, job_id: u128) -> (r: Vec<u128>)
    ensures
        r@ == groups_of(cs.deep_view(), job_id),
{
    let ghost cv = cs.deep_view();
    let mut out: Vec<u128> = Vec::new();
    proof {
        assert(cv.skip(0) =~~= cv);
        assert(out@ =~= Seq::<u128>::empty());
    }
    for i in 0..cs.len()
        invariant
            cv == cs.deep_view(),
            cv.len() == cs@.len(),
            groups_of(cv, job_id) == out@ + groups_of(cv.skip(i as int), job_id),
    {
        proof {
            assert(cv.skip(i as int).first() == cv[i as int]);
            assert(cv.skip(i as int).drop_first() =~~= cv.skip(i as int + 1));
        }
        if cs[i].job_id == job_id {
            out.push(cs[i].group_id);
            proof {
                assert(out@ =~= out@.drop_last() + seq![cv[i as int].group_id]);
            }
        }
    }
    proof {
        assert(cv.skip(cv.len() as int) =~~= Seq::<CandidateRowV>::empty());
    }
    out
}

/// Whether an identifier list holds a given identifier.
pub fn id_list_contains(l: &Vec<u128>, x: u128) -> (b: bool)
    ensures
        b == l@.contains(x),
{
    for i in 0..l.len()
        invariant
            forall|j: int| 0 <= j < i ==> l@[j] != x,
    {
        if l[i] == x {
            proof {
                assert(l@.contains(x));
            }
            return true;
        }
    }
    proof {
        assert(!l@.contains(x));
    }
    false
}

/// Counts the distinct identifiers of a list.
pub fn count_distinct_ids(l: &Vec<u128>) -> (n: usize)
    ensures
        n == count_distinct(l@),
{
    let mut seen: Vec<u128> = Vec::new();
    let mut n: usize = 0;
    proof {
        assert(l@.take(0) =~= Seq::<u128>::empty());
    }
    for i in 0..l.len()
        invariant
            n <= i,
            n == count_distinct(l@.take(i as int)),
            forall|x: u128| seen@.contains(x) <==> l@.take(i as int).contains(x),
    {
        proof {
            assert(l@.take(i as int + 1).drop_last() =~= l@.take(i as int));
            assert(l@.take(i as int + 1).last() == l@[i as int]);
        }
        let present = id_list_contains(&seen, l[i]);
        if !present {
            n = n + 1;
            let ghost prevseen = seen@;
            seen.push(l[i]);
            proof {
                assert forall|x: u128|
                    seen@.contains(x) <==> l@.take(i as int + 1).contains(x) by {
                    if seen@.contains(x) {
                        let j = choose|j: int| 0 <= j < seen@.len() && seen@[j] == x;
                        if j < prevseen.len() {
                            assert(prevseen.contains(x));
                            assert(l@.take(i as int).contains(x));
                            let m = choose|m: int|
                                0 <= m < l@.take(i as int).len() && #[trigger] l@.take(
                                    i as int,
                                )[m] == x;
                            assert(l@.take(i as int + 1)[m] == x);
                        } else {
                            assert(x == l@[i as int]);
                            assert(l@.take(i as int + 1)[i as int] == x);
                        }
                    }
                    if l@.take(i as int + 1).contains(x) {
                        let j = choose|j: int|
                            0 <= j < l@.take(i as int + 1).len() && #[trigger] l@.take(
                                i as int + 1,
                            )[j] == x;
                        if j < i {
                            assert(l@.take(i as int)[j] == x);
                            assert(l@.take(i as int).contains(x));
                            assert(prevseen.contains(x));
                            let m = choose|m: int| 0 <= m < prevseen.len() && prevseen[m] == x;
                            assert(seen@[m] == x);
                        } else {
                            assert(x == l@[i as int]);
                            assert(seen@[prevseen.len() as int] == x);
                        }
                    }
                }
            }
        } else {
            proof {
                assert(l@.take(i as int).contains(l@[i as int]));
                assert forall|x: u128|
                    seen@.contains(x) <==> l@.take(i as int + 1).contains(x) by {
                    if l@.take(i as int + 1).contains(x) {
                        let j = choose|j: int|
                            0 <= j < l@.take(i as int + 1).len() && #[trigger] l@.take(
                                i as int + 1,
                            )[j] == x;
                        if j < i {
                            assert(l@.take(i as int)[j] == x);
                            assert(l@.take(i as int).contains(x));
                        } else {
                            assert(x == l@[i as int]);
                        }
                    }
                    if seen@.contains(x) {
                        assert(l@.take(i as int).contains(x));
                        let m = choose|m: int|
                            0 <= m < l@.take(i as int).len() && #[trigger] l@.take(
                                i as int,
                            )[m] == x;
                        assert(l@.take(i as int + 1)[m] == x);
                    }
                }
            }
        }
    }
    proof {
        assert(l@.take(l@.len() as int) =~= l@);
    }
    n
}

// ----------------------------------------------------------------------------
// The store and its control actions
// ----------------------------------------------------------------------------
/// The rows the orchestrator owns.
pub struct Store {
    pub modules: Vec<ModuleRow>,
    pub jobs: Vec<JobRow>,
    pub candidates: Vec<CandidateRow>,
    pub files: Vec<FileBinding>,
    pub data: Vec<DataRow>,
}

/// Mathematical image of a [`Store`].
pub struct StoreV {
    pub modules: Seq<ModuleRowV>,
    pub jobs: Seq<JobRow>,
    pub candidates: Seq<CandidateRowV>,
    pub files: Seq<FileBinding>,
    pub data: Seq<DataRowV>,
}

impl View for Store {
    type V = StoreV;

    open spec fn view(&self) -> StoreV {
        StoreV {
            modules: self.modules.deep_view(),
            jobs: self.jobs@,
            candidates: self.candidates.deep_view(),
            files: self.files@,
            data: self.data.deep_view(),
        }
    }
}

/// The store a run leaves behind: the module's candidates deleted, its file
/// flags cleared, its jobs superseded, its configuration preprocessed, and
/// one fresh active job targeting one candidate group per chunk.
pub open spec fn spec_run_store(
    s: StoreV,
    module_id: u128,
    outputs: Seq<Seq<char>>,
    chunks: Seq<ChunkV>,
    new_job_id: u128,
) -> StoreV {
    let m = find_module(s.modules, module_id)->0;
    let cfg2 = spec_apply_preprocess(m.config, outputs, 0);
    StoreV {
        modules: spec_set_config(s.modules, module_id, cfg2),
        jobs: spec_supersede_jobs(s.jobs, module_id).push(
            JobRow {
                job_id: new_job_id,
                module_id: module_id,
                workspace_id: m.workspace_id,
                target_count: chunks.len() as usize,
                superseded: false,
            },
        ),
        candidates: spec_drop_candidates(s.candidates, module_id),
        files: spec_reset_flags(s.files, module_id),
        data: s.data,
    }
}

/// The messages a run publishes: one per chunk, carrying the fully
/// substituted prompt of the preprocessed configuration, its separator, and
/// the category's model.
pub open spec fn spec_run_messages(
    s: StoreV,
    module_id: u128,
    outputs: Seq<Seq<char>>,
    chunks: Seq<ChunkV>,
    new_job_id: u128,
    user_id: u128,
) -> Seq<EvoMessageV> {
    let m = find_module(s.modules, module_id)->0;
    let cfg2 = spec_apply_preprocess(m.config, outputs, 0);
    spec_evo_messages(
        module_id,
        new_job_id,
        m.workspace_id,
        user_id,
        spec_main_prompt(cfg2),
        cfg2.separator,
        spec_model_for(m.category),
        chunks,
    )
}

/// The store a reset leaves behind: the module's candidates and file bindings
/// deleted, its jobs superseded, and its configuration rebuilt.
pub open spec fn spec_reset_store(s: StoreV, module_id: u128, cfg: ModuleConfigV) -> StoreV {
    StoreV {
        modules: spec_set_config(s.modules, module_id, cfg),
        jobs: spec_supersede_jobs(s.jobs, module_id),
        candidates: spec_drop_candidates(s.candidates, module_id),
        files: spec_drop_bindings(s.files, module_id),
        data: s.data,
    }
}

/// The progress rows of a module's active jobs: the distinct group count of
/// each against its target.
pub open spec fn spec_module_progress(s: StoreV, module_id: u128) -> Seq<JobProgress>
    decreases s.jobs.len(),
{
    if s.jobs.len() == 0 {
        Seq::empty()
    } else {
        let rest = spec_module_progress(
            StoreV {
                modules: s.modules,
                jobs: s.jobs.drop_first(),
                candidates: s.candidates,
                files: s.files,
                data: s.data,
            },
            module_id,
        );
        if s.jobs.first().module_id == module_id && !s.jobs.first().superseded {
            seq![
                JobProgress {
                    done: count_distinct(
                        groups_of(s.candidates, s.jobs.first().job_id),
                    ) as usize,
                    target: s.jobs.first().target_count,
                },
            ] + rest
        } else {
            rest
        }
    }
}

impl Store {
    /// An empty store.
    pub fn new() -> (r: Store)
        ensures
            r@.modules.len() == 0,
            r@.jobs.len() == 0,
            r@.candidates.len() == 0,
            r@.files.len() == 0,
            r@.data.len() == 0,
    {
        Store {
            modules: Vec::new(),
            jobs: Vec::new(),
            candidates: Vec::new(),
            files: Vec::new(),
            data: Vec::new(),
        }
    }

    /// Runs a module: deletes its candidates, clears its file flags,
    /// supersedes its jobs, writes the preprocessing outputs back onto its
    /// configuration, creates one fresh job targeting one group per chunk,
    /// and returns the evo messages to publish — one per chunk, carrying the
    /// fully substituted prompt.
    pub fn run_module(
        &mut self,
        module_id: u128,
        preprocess_outputs: &Vec<Vec<char>>,
        chunks: &Vec<Chunk>,
        new_job_id: u128,
        user_id: u128,
    ) -> (r: Result<Vec<EvoMessage>, OrchestratorError>)
        ensures
            match r {
                Ok(msgs) => {
                    &&& find_module(old(self)@.modules, module_id) is Some
                    &&& final(self)@ == spec_run_store(
                        old(self)@,
                        module_id,
                        preprocess_outputs.deep_view(),
                        chunks.deep_view(),
                        new_job_id,
                    )
                    &&& msgs.deep_view() == spec_run_messages(
                        old(self)@,
                        module_id,
                        preprocess_outputs.deep_view(),
                        chunks.deep_view(),
                        new_job_id,
                        user_id,
                    )
                },
                Err(e) => {
                    &&& find_module(old(self)@.modules, module_id) is None
                    &&& e == OrchestratorError::ModuleNotFound
                    &&& final(self)@ == old(self)@
                },
            },
    {
        let ghost s0 = self@;
        let (workspace_id, category, cfg) = match find_module_exec(&self.modules, module_id) {
            None => {
                return Err(OrchestratorError::ModuleNotFound);
            },
            Some(m) => (m.workspace_id, m.category, copy_config(&m.config)),
        };
        let cfg2 = apply_preprocess(cfg, preprocess_outputs);
        let prompt = main_prompt(&cfg2);
        let model = model_for(category);
        self.candidates = drop_candidates_exec(&self.candidates, module_id);
        self.files = reset_flags_exec(&self.files, module_id);
        self.jobs = supersede_jobs_exec(&self.jobs, module_id);
        self.jobs.push(
            JobRow {
                job_id: new_job_id,
                module_id,
                workspace_id,
                target_count: chunks.len(),
                superseded: false,
            },
        );
        self.modules = set_config_exec(&self.modules, module_id, &cfg2);
        let msgs = build_evo_messages(
            module_id,
            new_job_id,
            workspace_id,
            user_id,
            &prompt,
            &cfg2.separator,
            &model,
            chunks,
        );
        proof {
            let goal = spec_run_store(
                s0,
                module_id,
                preprocess_outputs.deep_view(),
                chunks.deep_view(),
                new_job_id,
            );
            assert(spec_set_config(s0.modules, module_id, cfg2@) =~~= spec_set_config(
                spec_set_config(s0.modules, module_id, cfg2@),
                module_id,
                cfg2@,
            ));
            assert(self@.jobs =~= goal.jobs);
            assert(self@.modules =~~= goal.modules);
        }
        Ok(msgs)
    }

    /// Resets a module: deletes its candidates, removes its file bindings,
    /// supersedes its jobs, and rebuilds its configuration from the template
    /// — or to the empty configuration when none is given. A template of the
    /// wrong category is refused and nothing changes.
    pub fn reset_module(&mut self, module_id: u128, template: Option<&Template>) -> (r: Result<
        (),
        OrchestratorError,
    >)
        ensures
            match r {
                Ok(_) => {
                    &&& find_module(old(self)@.modules, module_id) is Some
                    &&& final(self)@ == spec_reset_store(
                        old(self)@,
                        module_id,
                        match template {
                            Some(t) => spec_config_from_template(t@),
                            None => spec_empty_config(),
                        },
                    )
                    &&& (match template {
                        Some(t) => t@.category == find_module(
                            old(self)@.modules,
                            module_id,
                        )->0.category,
                        None => true,
                    })
                },
                Err(OrchestratorError::ModuleNotFound) => {
                    &&& find_module(old(self)@.modules, module_id) is None
                    &&& final(self)@ == old(self)@
                },
                Err(OrchestratorError::TemplateMismatch) => {
                    &&& find_module(old(self)@.modules, module_id) is Some
                    &&& (template matches Some(t) && t@.category != find_module(
                        old(self)@.modules,
                        module_id,
                    )->0.category)
                    &&& final(self)@ == old(self)@
                },
            },
    {
        let category = match find_module_exec(&self.modules, module_id) {
            None => {
                return Err(OrchestratorError::ModuleNotFound);
            },
            Some(m) => m.category,
        };
        let cfg = match template {
            Some(t) => {
                if !category_eq(t.category, category) {
                    return Err(OrchestratorError::TemplateMismatch);
                }
                config_from_template(t)
            },
            None => empty_config(),
        };
        self.candidates = drop_candidates_exec(&self.candidates, module_id);
        self.files = drop_bindings_exec(&self.files, module_id);
        self.jobs = supersede_jobs_exec(&self.jobs, module_id);
        self.modules = set_config_exec(&self.modules, module_id, &cfg);
        Ok(())
    }

    /// Copies the module's current candidates into the data store as raw
    /// rows, tagged with the given tags — or, when none are given, with a
    /// default tag naming the module and one more than the distinct tags
    /// already saved for it.
    pub fn save_data(&mut self, module_id: u128, tags: Option<&Vec<Vec<char>>>) -> (r: Result<
        (),
        OrchestratorError,
    >)
        ensures
            match r {
                Ok(_) => {
                    &&& find_module(old(self)@.modules, module_id) is Some
                    &&& final(self)@.data == old(self)@.data + spec_save_rows(
                        old(self)@.candidates,
                        module_id,
                        match tags {
                            Some(ts) => spec_tags_text(ts.deep_view()),
                            None => spec_default_tag(
                                find_module(old(self)@.modules, module_id)->0.name,
                                spec_next_tag_number(
                                    count_distinct(raw_tags_of(old(self)@.data, module_id)),
                                ),
                            ),
                        },
                    )
                    &&& final(self)@.modules == old(self)@.modules
                    &&& final(self)@.jobs == old(self)@.jobs
                    &&& final(self)@.candidates == old(self)@.candidates
                    &&& final(self)@.files == old(self)@.files
                },
                Err(_) => {
                    &&& find_module(old(self)@.modules, module_id) is None
                    &&& final(self)@ == old(self)@
                },
            },
    {
        let name = match find_module_exec(&self.modules, module_id) {
            None => {
                return Err(OrchestratorError::ModuleNotFound);
            },
            Some(m) => m.name.clone(),
        };
        let tag_text: Vec<char> = match tags {
            Some(ts) => tags_text(ts),
            None => {
                let existing = collect_raw_tags(&self.data, module_id);
                let n = count_distinct_texts(&existing);
                proof {
                    lemma_count_distinct_le_len(existing.deep_view());
                }
                if n < usize::MAX {
                    default_tag(&name, n + 1)
                } else {
                    default_tag(&name, n)
                }
            },
        };
        proof {
            lemma_count_distinct_le_len(raw_tags_of(self@.data, module_id));
        }
        let mut rows = save_rows_exec(&self.candidates, module_id, &tag_text);
        let ghost before = self.data.deep_view();
        let ghost added = rows.deep_view();
        self.data.append(&mut rows);
        proof {
            assert(self.data.deep_view() =~~= before + added);
        }
        Ok(())
    }

    /// Writes the `assignData` block of a module's configuration: the
    /// datastore, the scope, and the tags joined with commas.
    pub fn assign_data(
        &mut self,
        module_id: u128,
        datastore_id: u128,
        is_raw: bool,
        tags: &Vec<Vec<char>>,
    ) -> (r: Result<(), OrchestratorError>)
        ensures
            match r {
                Ok(_) => {
                    &&& find_module(old(self)@.modules, module_id) is Some
                    &&& final(self)@.modules == spec_set_config(
                        old(self)@.modules,
                        module_id,
                        (ModuleConfigV {
                            assign_data: Some(
                                (AssignDataV {
                                    datastore_id: datastore_id,
                                    is_raw: is_raw,
                                    tags: spec_tags_text(tags.deep_view()),
                                }),
                            ),
                            ..find_module(old(self)@.modules, module_id)->0.config
                        }),
                    )
                    &&& final(self)@.jobs == old(self)@.jobs
                    &&& final(self)@.candidates == old(self)@.candidates
                    &&& final(self)@.files == old(self)@.files
                    &&& final(self)@.data == old(self)@.data
                },
                Err(_) => {
                    &&& find_module(old(self)@.modules, module_id) is None
                    &&& final(self)@ == old(self)@
                },
            },
    {
        let mut cfg = match find_module_exec(&self.modules, module_id) {
            None => {
                return Err(OrchestratorError::ModuleNotFound);
            },
            Some(m) => copy_config(&m.config),
        };
        let joined = tags_text(tags);
        cfg.assign_data = Some(AssignData { datastore_id, is_raw, tags: joined });
        self.modules = set_config_exec(&self.modules, module_id, &cfg);
        Ok(())
    }

    /// Commits one evo worker success: exactly when the delivery's job exists
    /// and is still active, the candidate rows are inserted under the fresh
    /// group and the named file's flag is set; a superseded or missing job
    /// commits nothing, and the delivery is dropped.
    pub fn apply_evo_success(&mut self, msg: &EvoMessage, success: &EvoSuccess, group_id: u128) -> (
        committed: bool)
        ensures
            (match find_job(old(self)@.jobs, msg.job_id) {
                Some(j) => if !j.superseded {
                    &&& committed
                    &&& final(self)@.candidates == old(self)@.candidates + spec_candidate_rows(
                        msg.module_id,
                        msg.job_id,
                        group_id,
                        success.candidates.deep_view(),
                    )
                    &&& final(self)@.files == (match success.finish_file {
                        Some(f) => spec_finish_flag(old(self)@.files, f, msg.module_id),
                        None => old(self)@.files,
                    })
                    &&& final(self)@.modules == old(self)@.modules
                    &&& final(self)@.jobs == old(self)@.jobs
                    &&& final(self)@.data == old(self)@.data
                } else {
                    !committed && final(self)@ == old(self)@
                },
                None => !committed && final(self)@ == old(self)@,
            }),
    {
        match find_job_exec(&self.jobs, msg.job_id) {
            None => false,
            Some(j) => {
                if j.superseded {
                    return false;
                }
                let mut rows = candidate_rows_exec(
                    msg.module_id,
                    msg.job_id,
                    group_id,
                    &success.candidates,
                );
                let ghost before = self.candidates.deep_view();
                let ghost added = rows.deep_view();
                self.candidates.append(&mut rows);
                proof {
                    assert(self.candidates.deep_view() =~~= before + added);
                }
                match success.finish_file {
                    Some(f) => {
                        self.files = finish_flag_exec(&self.files, f, msg.module_id);
                    },
                    None => {},
                }
                true
            },
        }
    }

    /// The progress of a module's active jobs.
    pub fn module_progress(&self, module_id: u128) -> (r: Vec<JobProgress>)
        ensures
            r@ == spec_module_progress(self@, module_id),
    {
        let ghost sv = self@;
        let mut out: Vec<JobProgress> = Vec::new();
        proof {
            assert(sv.jobs.skip(0) =~= sv.jobs);
            assert(spec_module_progress(sv, module_id) == out@ + spec_module_progress(
                (StoreV { jobs: sv.jobs.skip(0), ..sv }),
                module_id,
            ));
        }
        for i in 0..self.jobs.len()
            invariant
                sv == self@,
                sv.jobs.len() == self.jobs@.len(),
                spec_module_progress(sv, module_id) == out@ + spec_module_progress(
                    (StoreV { jobs: sv.jobs.skip(i as int), ..sv }),
                    module_id,
                ),
        {
            proof {
                assert(sv.jobs.skip(i as int).first() == sv.jobs[i as int]);
                assert(sv.jobs.skip(i as int).drop_first() =~= sv.jobs.skip(i as int + 1));
            }
            let j = self.jobs[i];
            if j.module_id == module_id && !j.superseded {
                let groups = groups_of_exec(&self.candidates, j.job_id);
                let n = count_distinct_ids(&groups);
                out.push(JobProgress { done: n, target: j.target_count });
                proof {
                    assert(out@ =~= out@.drop_last() + seq![
                        JobProgress {
                            done: count_distinct(groups_of(sv.candidates, j.job_id)) as usize,
                            target: j.target_count,
                        },
                    ]);
                }
            }
        }
        proof {
            assert(sv.jobs.skip(sv.jobs.len() as int) =~= Seq::<JobRow>::empty());
        }
        out
    }

    /// A module's derived status.
    pub fn module_status_of(&self, module_id: u128) -> (s: ModuleStatus)
        ensures
            s == crate::status::spec_status(spec_module_progress(self@, module_id)),
    {
        let progress = self.module_progress(module_id);
        crate::status::module_status(&progress)
    }
}

/// Compares two categories.
pub fn category_eq(a: Category, b: Category) -> (r: bool)
    ensures
        r == (a == b),
{
    match (a, b) {
        (Category::Generator, Category::Generator) => true,
        (Category::Evaluator, Category::Evaluator) => true,
        _ => false,
    }
}

/// Why a caller is turned away.
#[derive(Clone, Copy, PartialEq, Eq, Structural, Debug)]
pub enum AuthError {
    /// The caller is no member of the workspace.
    Forbidden,
    /// The caller's membership level is above the operation's threshold.
    Unauthorized,
}

/// The uniform authorisation rule: a missing membership is forbidden; a
/// membership level above the operation's threshold is unauthorized;
/// anything else may proceed.
pub fn authorize_member(level: Option<i32>, threshold: i32) -> (r: Result<(), AuthError>)
    ensures
        r == (match level {
            None => Err::<(), AuthError>(AuthError::Forbidden),
            Some(l) => if l > threshold {
                Err::<(), AuthError>(AuthError::Unauthorized)
            } else {
                Ok::<(), AuthError>(())
            },
        }),
{
    match level {
        None => Err(AuthError::Forbidden),
        Some(l) => if l > threshold {
            Err(AuthError::Unauthorized)
        } else {
            Ok(())
        },
    }
}

} // verus!
