//! Broker-side decisions: reading the retry header off a delivery and
//! choosing, per worker outcome, whether to acknowledge, requeue, or publish
//! a fresh message carrying the next attempt count.

use vstd::prelude::*;

use crate::worker::ExecuteResult;
use crate::worker::ExecuteResultV2;
use crate::worker::spec_inc_attempts;

verus! {

/// An AMQP header value, as the retry logic sees it: a 64-bit signed integer
/// or anything else.
#[derive(Clone, Copy, PartialEq, Eq, Structural, Debug)]
pub enum HeaderValue {
    LongLong(i64),
    Other,
}

/// One delivery header.
pub struct Header {
    pub name: Vec<char>,
    pub value: HeaderValue,
}

/// Mathematical image of a [`Header`].
pub struct HeaderV {
    pub name: Seq<char>,
    pub value: HeaderValue,
}

impl View for Header {
    type V = HeaderV;

    open spec fn view(&self) -> HeaderV {
        HeaderV { name: self.name@, value: self.value }
    }
}

impl DeepView for Header {
    type V = HeaderV;

    open spec fn deep_view(&self) -> HeaderV {
        self.view()
    }
}

/// The `x-attempts` header name.
pub open spec fn attempts_header_name() -> Seq<char> {
    seq!['x', '-', 'a', 't', 't', 'e', 'm', 'p', 't', 's']
}

pub fn attempts_header_name_vec() -> (v: Vec<char>)
    ensures
        v@ == attempts_header_name(),
{
    let mut v: Vec<char> = Vec::new();
    v.push('x');
    v.push('-');
    v.push('a');
    v.push('t');
    v.push('t');
    v.push('e');
    v.push('m');
    v.push('p');
    v.push('t');
    v.push('s');
    proof {
        assert(v@ =~= attempts_header_name());
    }
    v
}

/// The attempt count a delivery carries: the first `x-attempts` header
/// holding a 64-bit integer; absence means a first attempt.
pub open spec fn spec_attempts(headers: Seq<HeaderV>) -> i64
    decreases headers.len(),
{
    if headers.len() == 0 {
        0
    } else if headers.first().name == attempts_header_name() && headers.first().value matches
        HeaderValue::LongLong(_) {
        headers.first().value->0
    } else {
        spec_attempts(headers.drop_first())
    }
}

/// Reads the attempt count off a delivery's headers.
pub fn attempts_from_headers(headers: &Vec<Header>) -> (r: i64)
    ensures
        r == spec_attempts(headers.deep_view()),
{
    let name = attempts_header_name_vec();
    let ghost hv = headers.deep_view();
    proof {
        assert(hv.skip(0) =~= hv);
    }
    for i in 0..headers.len()
        invariant
            hv == headers.deep_view(),
            hv.len() == headers@.len(),
            name@ == attempts_header_name(),
            spec_attempts(hv) == spec_attempts(hv.skip(i as int)),
    {
        proof {
            assert(hv.skip(i as int).first() == hv[i as int]);
            assert(hv.skip(i as int).drop_first() =~= hv.skip(i as int + 1));
        }
        if crate::text::chars_eq(&headers[i].name, &name) {
            match headers[i].value {
                HeaderValue::LongLong(v) => {
                    return v;
                },
                HeaderValue::Other => {},
            }
        }
    }
    proof {
        assert(hv.skip(hv.len() as int) =~= Seq::<HeaderV>::empty());
    }
    0
}

/// An attempt count narrowed to the worker's type, clamped at the type's
/// bounds so a poisoned header cannot wrap into a fresh retry budget.
pub open spec fn spec_attempts_narrow(v: i64) -> i32 {
    if v > i32::MAX as i64 {
        i32::MAX
    } else if v < i32::MIN as i64 {
        i32::MIN
    } else {
        v as i32
    }
}

/// Narrows a header's attempt count.
pub fn attempts_narrow(v: i64) -> (r: i32)
    ensures
        r == spec_attempts_narrow(v),
{
    if v > i32::MAX as i64 {
        i32::MAX
    } else if v < i32::MIN as i64 {
        i32::MIN
    } else {
        v as i32
    }
}

/// What the consumer does with a delivery after its worker returns.
#[derive(Clone, Copy, PartialEq, Eq, Structural, Debug)]
pub enum BrokerAction {
    /// Acknowledge; nothing is published.
    Ack,
    /// Publish a fresh copy of the message carrying this attempt count in its
    /// `x-attempts` header, then acknowledge the original.
    RepublishThenAck(i64),
}

/// The retry rule: success is acknowledged; a failure carrying an attempt
/// count of at most three is republished with that count; past three, the
/// delivery is acknowledged without republication — a deliberate drop.
pub open spec fn spec_consume_decision(r: ExecuteResultV2) -> BrokerAction {
    match r {
        ExecuteResultV2::Success => BrokerAction::Ack,
        ExecuteResultV2::Failed(attempts) => if attempts > 3 {
            BrokerAction::Ack
        } else {
            BrokerAction::RepublishThenAck(attempts as i64)
        },
    }
}

/// Decides the broker action for a typed-queue outcome.
pub fn consume_decision(r: ExecuteResultV2) -> (a: BrokerAction)
    ensures
        a == spec_consume_decision(r),
{
    match r {
        ExecuteResultV2::Success => BrokerAction::Ack,
        ExecuteResultV2::Failed(attempts) => if attempts > 3 {
            BrokerAction::Ack
        } else {
            BrokerAction::RepublishThenAck(attempts as i64)
        },
    }
}

/// What the legacy consumer does with a delivery after its worker returns.
#[derive(Clone, Copy, PartialEq, Eq, Structural, Debug)]
pub enum LegacyAction {
    /// Acknowledge: the job is done or paused.
    Ack,
    /// Negative-acknowledge with requeue, so the next delivery drives another
    /// unit of the same job.
    NackRequeue,
}

/// The legacy loop: overflow acknowledges, success requeues.
pub fn legacy_consume_decision(r: ExecuteResult) -> (a: LegacyAction)
    ensures
        a == (match r {
            ExecuteResult::Overflow => LegacyAction::Ack,
            ExecuteResult::Success => LegacyAction::NackRequeue,
        }),
{
    match r {
        ExecuteResult::Overflow => LegacyAction::Ack,
        ExecuteResult::Success => LegacyAction::NackRequeue,
    }
}

/// The attempt count on the k-th consecutive failing delivery of one message:
/// the first delivery carries none, each republication one more.
pub open spec fn spec_failure_attempts(k: int) -> i32 {
    if 0 <= k <= 3 {
        k as i32
    } else {
        3
    }
}

/// Retry cap: a delivery that fails four consecutive times is dropped and
/// never republished. The first three failures republish with attempt counts
/// one, two and three; the failure of the delivery carrying three is
/// acknowledged without republication, and so is every failure carrying more.
pub proof fn lemma_retry_cap()
    ensures
        forall|k: int|
            0 <= k < 3 ==> spec_consume_decision(
                ExecuteResultV2::Failed(spec_inc_attempts(spec_failure_attempts(k))),
            ) == BrokerAction::RepublishThenAck((k + 1) as i64),
        spec_consume_decision(ExecuteResultV2::Failed(spec_inc_attempts(spec_failure_attempts(3))))
            == BrokerAction::Ack,
        forall|n: i32|
            n >= 3 ==> spec_consume_decision(ExecuteResultV2::Failed(spec_inc_attempts(n)))
                == BrokerAction::Ack,
{
}

} // verus!
