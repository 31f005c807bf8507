//! Parsing a worker's LLM output into candidate seeds: the separator rules.
//!
//! A non-empty separator splits the output and keeps the non-empty fragments.
//! An empty separator first tries the output as JSON carrying a
//! `candidate.data` string; failing that, the raw output is the one
//! candidate. The input text stored beside each candidate has its NUL bytes
//! stripped.

use vstd::prelude::*;

use crate::text::spec_split;
use crate::text::spec_strip_nul;
use crate::text::split_by;
use crate::text::string_of_chars;
use crate::text::strip_nul;

verus! {

/// Extra data stored beside a candidate's content.
pub struct ExtraData {
    pub text: Vec<char>,
    pub reference: Option<Vec<char>>,
    pub rating: Option<Vec<char>>,
}

/// Mathematical image of an [`ExtraData`].
pub struct ExtraDataV {
    pub text: Seq<char>,
    pub reference: Option<Seq<char>>,
    pub rating: Option<Seq<char>>,
}

impl View for ExtraData {
    type V = ExtraDataV;

    open spec fn view(&self) -> ExtraDataV {
        ExtraDataV {
            text: self.text@,
            reference: match self.reference {
                Some(r) => Some(r@),
                None => None,
            },
            rating: match self.rating {
                Some(r) => Some(r@),
                None => None,
            },
        }
    }
}

impl DeepView for ExtraData {
    type V = ExtraDataV;

    open spec fn deep_view(&self) -> ExtraDataV {
        self.view()
    }
}

/// One candidate to be persisted: its content and its extra data.
pub struct CandidateSeed {
    pub content: Vec<char>,
    pub extra: ExtraData,
}

/// Mathematical image of a [`CandidateSeed`].
pub struct CandidateSeedV {
    pub content: Seq<char>,
    pub extra: ExtraDataV,
}

impl View for CandidateSeed {
    type V = CandidateSeedV;

    open spec fn view(&self) -> CandidateSeedV {
        CandidateSeedV { content: self.content@, extra: self.extra@ }
    }
}

impl DeepView for CandidateSeed {
    type V = CandidateSeedV;

    open spec fn deep_view(&self) -> CandidateSeedV {
        self.view()
    }
}

/// Copies an extra-data value.
pub fn copy_extra(e: &ExtraData) -> (r: ExtraData)
    ensures
        r@ == e@,
{
    ExtraData {
        text: e.text.clone(),
        reference: match &e.reference {
            Some(v) => Some(v.clone()),
            None => None,
        },
        rating: match &e.rating {
            Some(v) => Some(v.clone()),
            None => None,
        },
    }
}

/// The extra data of a plain candidate: the NUL-stripped input and nothing
/// else.
pub open spec fn plain_extra(input: Seq<char>) -> ExtraDataV {
    ExtraDataV { text: spec_strip_nul(input), reference: None, rating: None }
}

/// One candidate seed per non-empty fragment, in order.
pub open spec fn seeds_of_fragments(fs: Seq<Seq<char>>, input: Seq<char>) -> Seq<CandidateSeedV>
    decreases fs.len(),
{
    if fs.len() == 0 {
        Seq::empty()
    } else if fs.first().len() == 0 {
        seeds_of_fragments(fs.drop_first(), input)
    } else {
        seq![CandidateSeedV { content: fs.first(), extra: plain_extra(input) }]
            + seeds_of_fragments(fs.drop_first(), input)
    }
}

/// What a worker persists for a given output: with a non-empty separator, one
/// candidate per non-empty fragment of the split; with an empty separator and
/// JSON output carrying `candidate.data`, one candidate whose content is that
/// string, whose `reference` is the delivery's, and whose `rating` is the
/// rendering of the output's `rating` field; otherwise one candidate holding
/// the raw output.
pub open spec fn spec_candidates(
    output: Seq<char>,
    separator: Seq<char>,
    input: Seq<char>,
    reference: Seq<char>,
    parsed: Option<(Seq<char>, Seq<char>)>,
) -> Seq<CandidateSeedV> {
    if separator.len() > 0 {
        seeds_of_fragments(spec_split(output, separator), input)
    } else {
        match parsed {
            Some(p) => seq![
                CandidateSeedV {
                    content: p.0,
                    extra: ExtraDataV {
                        text: spec_strip_nul(input),
                        reference: Some(reference),
                        rating: Some(p.1),
                    },
                },
            ],
            None => seq![CandidateSeedV { content: output, extra: plain_extra(input) }],
        }
    }
}

/// What an empty-separator output parses to when it is JSON carrying a
/// `candidate.data` string: that string, and the rendering of the output's
/// `rating` field (the text `null` when absent).
pub uninterp spec fn candidate_json_of(s: Seq<char>) -> Option<(Seq<char>, Seq<char>)>;

/// A parsed JSON-valued output: the `candidate.data` string and the rendered
/// `rating` field.
pub struct ParsedCandidate {
    pub data: Vec<char>,
    pub rating: Vec<char>,
}

/// Relies on `serde_json::from_str`, `Value::get`, `Value::as_str` and the
/// JSON rendering of `Value`: parses the output as JSON and reads the string
/// at `candidate.data` together with the `rating` field. The result depends
/// on the characters of the output alone.
#[verifier::external_body]
pub fn extract_candidate_json(s: &str) -> (r: Option<ParsedCandidate>)
    ensures
        (match (r, candidate_json_of(s@)) {
            (Some(p), Some(q)) => p.data@ == q.0 && p.rating@ == q.1,
            (None, None) => true,
            _ => false,
        }),
{
    let v: serde_json::Value = match serde_json::from_str(s) {
        Ok(v) => v,
        Err(_) => return None,
    };
    let data = v.get("candidate")?.get("data")?.as_str()?;
    let rating = match v.get("rating") {
        Some(r) => r.to_string(),
        None => "null".to_string(),
    };
    Some(ParsedCandidate { data: data.chars().collect(), rating: rating.chars().collect() })
}

/// Builds the candidate seeds for an output, its separator, the delivery's
/// input and reference, and the JSON parse of the output (consulted only when
/// the separator is empty).
pub fn candidates_from_output(
    output: &Vec<char>,
    separator: &Vec<char>,
    input: &Vec<char>,
    reference: &Vec<char>,
    parsed: Option<ParsedCandidate>,
) -> (r: Vec<CandidateSeed>)
    ensures
        r.deep_view() == spec_candidates(
            output@,
            separator@,
            input@,
            reference@,
            match parsed {
                Some(p) => Some((p.data@, p.rating@)),
                None => None,
            },
        ),
{
    let text = strip_nul(input);
    if separator.len() > 0 {
        let fragments = split_by(output, separator);
        let ghost fv = fragments.deep_view();
        let mut out: Vec<CandidateSeed> = Vec::new();
        proof {
            assert(fv.skip(0) =~~= fv);
            assert(out.deep_view() =~~= Seq::<CandidateSeedV>::empty());
        }
        for i in 0..fragments.len()
            invariant
                fv == fragments.deep_view(),
                fv.len() == fragments@.len(),
                text@ == spec_strip_nul(input@),
                seeds_of_fragments(fv, input@) == out.deep_view() + seeds_of_fragments(
                    fv.skip(i as int),
                    input@,
                ),
        {
            proof {
                assert(fv.skip(i as int).first() == fv[i as int]);
                assert(fv.skip(i as int).drop_first() =~~= fv.skip(i as int + 1));
                assert(fv[i as int] == fragments@[i as int]@);
            }
            if fragments[i].len() > 0 {
                let ghost prev = out.deep_view();
                out.push(
                    CandidateSeed {
                        content: fragments[i].clone(),
                        extra: ExtraData { text: text.clone(), reference: None, rating: None },
                    },
                );
                proof {
                    assert(out.deep_view() =~~= prev + seq![out@.last().deep_view()]);
                }
            }
        }
        proof {
            assert(fv.skip(fv.len() as int) =~~= Seq::<Seq<char>>::empty());
        }
        out
    } else {
        let mut out: Vec<CandidateSeed> = Vec::new();
        match parsed {
            Some(p) => {
                out.push(
                    CandidateSeed {
                        content: p.data,
                        extra: ExtraData {
                            text: text,
                            reference: Some(reference.clone()),
                            rating: Some(p.rating),
                        },
                    },
                );
            },
            None => {
                out.push(
                    CandidateSeed {
                        content: output.clone(),
                        extra: ExtraData { text: text, reference: None, rating: None },
                    },
                );
            },
        }
        proof {
            assert(out.deep_view() =~~= seq![out@.last().deep_view()]);
        }
        out
    }
}

/// Parses an LLM output into its candidate seeds, consulting the JSON parse
/// exactly when the separator is empty.
pub fn parse_llm_output(
    output: &Vec<char>,
    separator: &Vec<char>,
    input: &Vec<char>,
    reference: &Vec<char>,
) -> (r: Vec<CandidateSeed>)
    ensures
        r.deep_view() == spec_candidates(
            output@,
            separator@,
            input@,
            reference@,
            if separator@.len() == 0 {
                candidate_json_of(output@)
            } else {
                None
            },
        ),
{
    if separator.len() > 0 {
        candidates_from_output(output, separator, input, reference, None)
    } else {
        let s = string_of_chars(output);
        let parsed = extract_candidate_json(s.as_str());
        candidates_from_output(output, separator, input, reference, parsed)
    }
}

} // verus!
