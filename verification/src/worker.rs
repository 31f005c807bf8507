//! Worker decisions: payload validation, prompt preparation, metric rows,
//! and what each queue's consumer persists for a given LLM outcome.
//!
//! The shell around a worker parses the delivery, reads the job row, checks a
//! credential out, calls the LLM and applies the returned effects; every
//! decision in between is made here.

use vstd::prelude::*;

use crate::output::CandidateSeed;
use crate::output::candidate_json_of;
use crate::output::parse_llm_output;
use crate::output::spec_candidates;
use crate::text::replace_all;
use crate::text::spec_replace_all;
use crate::text::string_of_chars;

verus! {

/// Lifecycle of a legacy job.
#[derive(Clone, Copy, PartialEq, Eq, Structural, Debug)]
pub enum JobStatus {
    Pending,
    Running,
    Finished,
    Paused,
}

/// Outcome of one legacy-queue delivery.
#[derive(Clone, Copy, PartialEq, Eq, Structural, Debug)]
pub enum ExecuteResult {
    Overflow,
    Success,
}

/// Outcome of one typed-queue delivery: success, or a failure carrying the
/// attempt count to publish on the retry message.
#[derive(Clone, Copy, PartialEq, Eq, Structural, Debug)]
pub enum ExecuteResultV2 {
    Success,
    Failed(i32),
}

/// How an LLM call failed. Both kinds drive the same bounded retry.
#[derive(Clone, Copy, PartialEq, Eq, Structural, Debug)]
pub enum LlmError {
    Transient,
    Permanent,
}

// ----------------------------------------------------------------------------
// Token literals of the worker
// ----------------------------------------------------------------------------
/// The `@key/input` token.
pub open spec fn input_token() -> Seq<char> {
    seq!['@', 'k', 'e', 'y', '/', 'i', 'n', 'p', 'u', 't']
}

/// The `@key/reference` token.
pub open spec fn reference_token() -> Seq<char> {
    seq!['@', 'k', 'e', 'y', '/', 'r', 'e', 'f', 'e', 'r', 'e', 'n', 'c', 'e']
}

/// The model used when a message names none.
pub open spec fn default_model() -> Seq<char> {
    seq!['g', 'p', 't', '-', '3', '.', '5', '-', 't', 'u', 'r', 'b', 'o']
}

pub fn input_token_vec() -> (v: Vec<char>)
    ensures
        v@ == input_token(),
{
    let mut v: Vec<char> = Vec::new();
    v.push('@');
    v.push('k');
    v.push('e');
    v.push('y');
    v.push('/');
    v.push('i');
    v.push('n');
    v.push('p');
    v.push('u');
    v.push('t');
    proof {
        assert(v@ =~= input_token());
    }
    v
}

pub fn reference_token_vec() -> (v: Vec<char>)
    ensures
        v@ == reference_token(),
{
    let mut v: Vec<char> = Vec::new();
    v.push('@');
    v.push('k');
    v.push('e');
    v.push('y');
    v.push('/');
    v.push('r');
    v.push('e');
    v.push('f');
    v.push('e');
    v.push('r');
    v.push('e');
    v.push('n');
    v.push('c');
    v.push('e');
    proof {
        assert(v@ =~= reference_token());
    }
    v
}

pub fn default_model_vec() -> (v: Vec<char>)
    ensures
        v@ == default_model(),
{
    let mut v: Vec<char> = Vec::new();
    v.push('g');
    v.push('p');
    v.push('t');
    v.push('-');
    v.push('3');
    v.push('.');
    v.push('5');
    v.push('-');
    v.push('t');
    v.push('u');
    v.push('r');
    v.push('b');
    v.push('o');
    proof {
        assert(v@ =~= default_model());
    }
    v
}

// ----------------------------------------------------------------------------
// Metrics
// ----------------------------------------------------------------------------
/// One metric row: the token count and character count of an LLM-touching
/// text.
#[derive(Clone, Copy, PartialEq, Eq, Structural, Debug)]
pub struct MetricRow {
    pub token_count: usize,
    pub word_count: usize,
}

/// Number of `cl100k_base` BPE tokens of a text; a function of the
/// characters alone.
pub uninterp spec fn token_count_of(s: Seq<char>) -> usize;

/// Relies on `tiktoken_rs::cl100k_base` and
/// `CoreBPE::encode_with_special_tokens`: the `cl100k_base` table is compiled
/// in, so the token count depends on the characters of the text alone, and an
/// empty text has no tokens.
#[verifier::external_body]
fn count_tokens(s: &str) -> (r: usize)
    ensures
        r == token_count_of(s@),
        s@.len() == 0 ==> r == 0,
{
    match tiktoken_rs::cl100k_base() {
        Ok(bpe) => bpe.encode_with_special_tokens(s).len(),
        Err(_) => 0,
    }
}

/// The metric row recorded for a text: its token count and its character
/// count.
pub fn metric_for_text(t: &Vec<char>) -> (m: MetricRow)
    ensures
        m.token_count == token_count_of(t@),
        m.word_count == t@.len(),
{
    let s = string_of_chars(t);
    let tokens = count_tokens(s.as_str());
    MetricRow { token_count: tokens, word_count: t.len() }
}

// ----------------------------------------------------------------------------
// The evo worker
// ----------------------------------------------------------------------------
/// An evo delivery as parsed from the wire: every field optional.
pub struct EvoPayload {
    pub module_id: Option<u128>,
    pub job_id: Option<u128>,
    pub workspace_id: Option<u128>,
    pub file_id: Option<u128>,
    pub input: Option<Vec<char>>,
    pub prompt: Option<Vec<char>>,
    pub user_id: Option<u128>,
    pub separator: Option<Vec<char>>,
    pub reference: Option<Vec<char>>,
    pub model_name: Option<Vec<char>>,
}

/// A validated evo message.
pub struct EvoMessage {
    pub module_id: u128,
    pub job_id: u128,
    pub workspace_id: u128,
    pub file_id: Option<u128>,
    pub input: Vec<char>,
    pub prompt: Vec<char>,
    pub user_id: u128,
    pub separator: Vec<char>,
    pub reference: Vec<char>,
    pub model_name: Vec<char>,
}

/// Mathematical image of an [`EvoMessage`].
pub struct EvoMessageV {
    pub module_id: u128,
    pub job_id: u128,
    pub workspace_id: u128,
    pub file_id: Option<u128>,
    pub input: Seq<char>,
    pub prompt: Seq<char>,
    pub user_id: u128,
    pub separator: Seq<char>,
    pub reference: Seq<char>,
    pub model_name: Seq<char>,
}

impl View for EvoMessage {
    type V = EvoMessageV;

    open spec fn view(&self) -> EvoMessageV {
        EvoMessageV {
            module_id: self.module_id,
            job_id: self.job_id,
            workspace_id: self.workspace_id,
            file_id: self.file_id,
            input: self.input@,
            prompt: self.prompt@,
            user_id: self.user_id,
            separator: self.separator@,
            reference: self.reference@,
            model_name: self.model_name@,
        }
    }
}

impl DeepView for EvoMessage {
    type V = EvoMessageV;

    open spec fn deep_view(&self) -> EvoMessageV {
        self.view()
    }
}

/// Why a delivery is acknowledged and dropped without work.
#[derive(Clone, Copy, PartialEq, Eq, Structural, Debug)]
pub enum DropReason {
    MalformedPayload,
    JobSuperseded,
}

/// The required fields of an evo payload are present.
pub open spec fn payload_complete(p: EvoPayload) -> bool {
    &&& p.module_id is Some
    &&& p.job_id is Some
    &&& p.workspace_id is Some
    &&& p.input is Some
    &&& p.prompt is Some
    &&& p.user_id is Some
}

/// Validates an evo payload: the identifying fields, the input and the prompt
/// are required; separator and reference default to empty, the model to
/// `gpt-3.5-turbo`. A payload with a required field missing is dropped.
pub fn validate_evo_payload(p: EvoPayload) -> (r: Result<EvoMessage, DropReason>)
    ensures
        match r {
            Ok(m) => {
                &&& payload_complete(p)
                &&& m.module_id == p.module_id->0
                &&& m.job_id == p.job_id->0
                &&& m.workspace_id == p.workspace_id->0
                &&& m.file_id == p.file_id
                &&& m.input@ == p.input->0@
                &&& m.prompt@ == p.prompt->0@
                &&& m.user_id == p.user_id->0
                &&& m.separator@ == (match p.separator {
                    Some(s) => s@,
                    None => Seq::<char>::empty(),
                })
                &&& m.reference@ == (match p.reference {
                    Some(s) => s@,
                    None => Seq::<char>::empty(),
                })
                &&& m.model_name@ == (match p.model_name {
                    Some(s) => s@,
                    None => default_model(),
                })
            },
            Err(reason) => !payload_complete(p) && reason == DropReason::MalformedPayload,
        },
{
    let EvoPayload {
        module_id,
        job_id,
        workspace_id,
        file_id,
        input,
        prompt,
        user_id,
        separator,
        reference,
        model_name,
    } = p;
    match (module_id, job_id, workspace_id, input, prompt, user_id) {
        (Some(module_id), Some(job_id), Some(workspace_id), Some(input), Some(prompt), Some(
            user_id,
        )) => {
            let separator = match separator {
                Some(s) => s,
                None => Vec::new(),
            };
            let reference = match reference {
                Some(s) => s,
                None => Vec::new(),
            };
            let model_name = match model_name {
                Some(s) => s,
                None => default_model_vec(),
            };
            proof {
                assert(separator@.len() == 0 ==> separator@ =~= Seq::<char>::empty());
                assert(reference@.len() == 0 ==> reference@ =~= Seq::<char>::empty());
            }
            Ok(
                EvoMessage {
                    module_id,
                    job_id,
                    workspace_id,
                    file_id,
                    input,
                    prompt,
                    user_id,
                    separator,
                    reference,
                    model_name,
                },
            )
        },
        _ => Err(DropReason::MalformedPayload),
    }
}

/// Checks the job on entry: a delivery whose job is superseded or gone is
/// acknowledged and dropped without work.
pub fn evo_gate(job_active: bool) -> (r: Result<(), DropReason>)
    ensures
        r == if job_active {
            Ok::<(), DropReason>(())
        } else {
            Err::<(), DropReason>(DropReason::JobSuperseded)
        },
{
    if job_active {
        Ok(())
    } else {
        Err(DropReason::JobSuperseded)
    }
}

/// The prompt an evo worker sends: `@key/input` becomes the delivery's input,
/// and, when the delivery carries a non-empty reference, `@key/reference`
/// becomes that reference.
pub open spec fn spec_prepare_prompt(
    prompt: Seq<char>,
    input: Seq<char>,
    reference: Seq<char>,
) -> Seq<char> {
    let p1 = spec_replace_all(prompt, input_token(), input);
    if reference.len() > 0 {
        spec_replace_all(p1, reference_token(), reference)
    } else {
        p1
    }
}

/// Substitutes the delivery's input and reference into the prompt.
pub fn prepare_prompt(prompt: &Vec<char>, input: &Vec<char>, reference: &Vec<char>) -> (r: Vec<
    char,
>)
    ensures
        r@ == spec_prepare_prompt(prompt@, input@, reference@),
{
    let token = input_token_vec();
    let p1 = replace_all(prompt, &token, input);
    if reference.len() > 0 {
        let rtoken = reference_token_vec();
        replace_all(&p1, &rtoken, reference)
    } else {
        p1
    }
}

/// The prompt an evaluation worker sends: input, then reference,
/// unconditionally.
pub open spec fn spec_prepare_prompt_eval(
    prompt: Seq<char>,
    input: Seq<char>,
    reference: Seq<char>,
) -> Seq<char> {
    spec_replace_all(spec_replace_all(prompt, input_token(), input), reference_token(), reference)
}

/// Substitutes input and reference into an evaluation prompt.
pub fn prepare_prompt_eval(prompt: &Vec<char>, input: &Vec<char>, reference: &Vec<char>) -> (r:
    Vec<char>)
    ensures
        r@ == spec_prepare_prompt_eval(prompt@, input@, reference@),
{
    let token = input_token_vec();
    let p1 = replace_all(prompt, &token, input);
    let rtoken = reference_token_vec();
    replace_all(&p1, &rtoken, reference)
}

/// The attempt count a failure carries on: one more, capped at the type's
/// ceiling so a poisoned header cannot make the worker panic.
pub open spec fn spec_inc_attempts(attempts: i32) -> i32 {
    if attempts < i32::MAX {
        (attempts + 1) as i32
    } else {
        i32::MAX
    }
}

/// Increments an attempt count.
pub fn inc_attempts(attempts: i32) -> (r: i32)
    ensures
        r == spec_inc_attempts(attempts),
{
    if attempts < i32::MAX {
        attempts + 1
    } else {
        i32::MAX
    }
}

/// Everything an evo worker persists after a successful LLM call.
pub struct EvoSuccess {
    /// One row per parsed candidate, all to share one fresh group.
    pub candidates: Vec<CandidateSeed>,
    /// Metric row for the output text.
    pub output_metric: MetricRow,
    /// The file-module flag to set, when the delivery names a file.
    pub finish_file: Option<u128>,
}

/// Decides what one evo delivery's LLM outcome amounts to: a failure carries
/// the incremented attempt count for the consumer's retry decision and
/// persists nothing; a success persists one candidate per separator rule, the
/// output metric, and the file flag when a file is named.
pub fn evo_complete(msg: &EvoMessage, attempts: i32, llm: Result<Vec<char>, LlmError>) -> (r: (
    ExecuteResultV2,
    Option<EvoSuccess>,
))
    ensures
        match llm {
            Err(_) => r.0 == ExecuteResultV2::Failed(spec_inc_attempts(attempts)) && r.1 is None,
            Ok(output) => {
                &&& r.0 == ExecuteResultV2::Success
                &&& r.1 matches Some(s)
                &&& (r.1->0).candidates.deep_view() == spec_candidates(
                    output@,
                    msg.separator@,
                    msg.input@,
                    msg.reference@,
                    if msg.separator@.len() == 0 {
                        candidate_json_of(output@)
                    } else {
                        None
                    },
                )
                &&& (r.1->0).output_metric.token_count == token_count_of(output@)
                &&& (r.1->0).output_metric.word_count == output@.len()
                &&& (r.1->0).finish_file == msg.file_id
            },
        },
{
    match llm {
        Err(_) => (ExecuteResultV2::Failed(inc_attempts(attempts)), None),
        Ok(output) => {
            let candidates = parse_llm_output(&output, &msg.separator, &msg.input, &msg.reference);
            let output_metric = metric_for_text(&output);
            (
                ExecuteResultV2::Success,
                Some(EvoSuccess { candidates, output_metric, finish_file: msg.file_id }),
            )
        },
    }
}

/// What an evaluation worker writes back: the output onto an existing
/// candidate's extra data, never a new candidate.
pub struct EvaluateEffect {
    pub datadrop_id: u128,
    pub evaluation: Vec<char>,
    pub output_metric: MetricRow,
}

/// Decides what one evaluation delivery's LLM outcome amounts to.
pub fn evaluate_complete(datadrop_id: u128, attempts: i32, llm: Result<Vec<char>, LlmError>) -> (r:
    (ExecuteResultV2, Option<EvaluateEffect>))
    ensures
        match llm {
            Err(_) => r.0 == ExecuteResultV2::Failed(spec_inc_attempts(attempts)) && r.1 is None,
            Ok(output) => {
                &&& r.0 == ExecuteResultV2::Success
                &&& r.1 matches Some(e)
                &&& (r.1->0).datadrop_id == datadrop_id
                &&& (r.1->0).evaluation@ == output@
                &&& (r.1->0).output_metric.token_count == token_count_of(output@)
                &&& (r.1->0).output_metric.word_count == output@.len()
            },
        },
{
    match llm {
        Err(_) => (ExecuteResultV2::Failed(inc_attempts(attempts)), None),
        Ok(output) => {
            let output_metric = metric_for_text(&output);
            (
                ExecuteResultV2::Success,
                Some(EvaluateEffect { datadrop_id, evaluation: output, output_metric }),
            )
        },
    }
}

// ----------------------------------------------------------------------------
// The legacy worker's gates
// ----------------------------------------------------------------------------
/// Whether a legacy job has already produced enough: at or past the target,
/// the delivery is acknowledged and the job is finished.
pub fn legacy_overflow(finished: i64, target: i64) -> (b: bool)
    ensures
        b == (finished >= target),
{
    finished >= target
}

/// What the legacy worker does on reading the job's status.
#[derive(Clone, Copy, PartialEq, Eq, Structural, Debug)]
pub enum LegacyGate {
    /// Acknowledge without work: the job is paused.
    AckDrop,
    /// Run one unit, first marking the job running when it was pending.
    Run { set_running: bool },
}

/// Gate for a legacy delivery: a paused job drops the delivery; a pending job
/// is marked running; anything else runs as it is.
pub fn legacy_gate(status: JobStatus) -> (g: LegacyGate)
    ensures
        g == (match status {
            JobStatus::Paused => LegacyGate::AckDrop,
            JobStatus::Pending => LegacyGate::Run { set_running: true },
            _ => LegacyGate::Run { set_running: false },
        }),
{
    match status {
        JobStatus::Paused => LegacyGate::AckDrop,
        JobStatus::Pending => LegacyGate::Run { set_running: true },
        _ => LegacyGate::Run { set_running: false },
    }
}

/// The content a legacy chain persists: the response of its final step, or
/// nothing at all for an empty chain.
pub fn chain_final_content(responses: &Vec<Vec<char>>) -> (r: Vec<char>)
    ensures
        r@ == if responses.deep_view().len() == 0 {
            Seq::<char>::empty()
        } else {
            responses.deep_view().last()
        },
{
    if responses.len() == 0 {
        let r: Vec<char> = Vec::new();
        proof {
            assert(r@ =~= Seq::<char>::empty());
        }
        r
    } else {
        let r = responses[responses.len() - 1].clone();
        proof {
            assert(responses.deep_view()[responses@.len() - 1] == responses@[responses@.len()
                - 1]@);
        }
        r
    }
}

/// The separator the typed-generate queue falls back to when its message
/// names none.
pub open spec fn v2_default_separator() -> Seq<char> {
    seq!['\n', '\n']
}

pub fn v2_default_separator_vec() -> (v: Vec<char>)
    ensures
        v@ == v2_default_separator(),
{
    let mut v: Vec<char> = Vec::new();
    v.push('\n');
    v.push('\n');
    proof {
        assert(v@ =~= v2_default_separator());
    }
    v
}

/// What a typed-generate worker persists after a successful LLM call.
pub struct GenerateSuccess {
    /// One row per non-empty fragment of the split.
    pub candidates: Vec<CandidateSeed>,
    /// Metric row for the output text.
    pub output_metric: MetricRow,
    /// The file whose processing flag is to be set.
    pub finish_file: u128,
}

/// Decides what one typed-generate delivery's LLM outcome amounts to: the
/// separator rules without the JSON-valued path, and the file flag always
/// set on success.
pub fn generate_complete(
    separator: &Vec<char>,
    input: &Vec<char>,
    file_id: u128,
    attempts: i32,
    llm: Result<Vec<char>, LlmError>,
) -> (r: (ExecuteResultV2, Option<GenerateSuccess>))
    ensures
        match llm {
            Err(_) => r.0 == ExecuteResultV2::Failed(spec_inc_attempts(attempts)) && r.1 is None,
            Ok(output) => {
                &&& r.0 == ExecuteResultV2::Success
                &&& r.1 matches Some(s)
                &&& (r.1->0).candidates.deep_view() == spec_candidates(
                    output@,
                    separator@,
                    input@,
                    Seq::<char>::empty(),
                    None,
                )
                &&& (r.1->0).output_metric.token_count == token_count_of(output@)
                &&& (r.1->0).output_metric.word_count == output@.len()
                &&& (r.1->0).finish_file == file_id
            },
        },
{
    match llm {
        Err(_) => (ExecuteResultV2::Failed(inc_attempts(attempts)), None),
        Ok(output) => {
            let reference: Vec<char> = Vec::new();
            proof {
                assert(reference@ =~= Seq::<char>::empty());
            }
            let candidates = crate::output::candidates_from_output(
                &output,
                separator,
                input,
                &reference,
                None,
            );
            let output_metric = metric_for_text(&output);
            (
                ExecuteResultV2::Success,
                Some(GenerateSuccess { candidates, output_metric, finish_file: file_id }),
            )
        },
    }
}

} // verus!
