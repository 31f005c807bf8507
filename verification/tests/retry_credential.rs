use claymore::chars_of_str;
use claymore::credential::CredentialPool;
use claymore::queue::BrokerAction;
use claymore::queue::Header;
use claymore::queue::HeaderValue;
use claymore::queue::attempts_from_headers;
use claymore::queue::attempts_narrow;
use claymore::queue::consume_decision;
use claymore::queue::legacy_consume_decision;
use claymore::queue::LegacyAction;
use claymore::worker::ExecuteResult;
use claymore::worker::ExecuteResultV2;
use claymore::worker::LlmError;
use claymore::worker::inc_attempts;
use claymore::worker::generate_complete;
use claymore::worker::v2_default_separator_vec;

fn header(name: &str, value: HeaderValue) -> Header {
    Header { name: chars_of_str(name), value }
}

#[test]
fn attempts_default_to_zero() {
    let headers: Vec<Header> = Vec::new();
    assert_eq!(attempts_from_headers(&headers), 0);
}

#[test]
fn attempts_read_from_first_long_long_header() {
    let headers = vec![
        header("content-type", HeaderValue::Other),
        header("x-attempts", HeaderValue::Other),
        header("x-attempts", HeaderValue::LongLong(2)),
        header("x-attempts", HeaderValue::LongLong(9)),
    ];
    assert_eq!(attempts_from_headers(&headers), 2);
}

#[test]
fn retry_exhaustion_drops_fourth_failure() {
    // Four consecutive failing deliveries of one message: the republished
    // attempt headers are 1, 2 and 3, and the fourth failure is dropped.
    let mut republished: Vec<i64> = Vec::new();
    let mut attempts: i64 = 0;
    let mut dropped = false;
    for _ in 0..4 {
        let result = ExecuteResultV2::Failed(inc_attempts(attempts_narrow(attempts)));
        match consume_decision(result) {
            BrokerAction::RepublishThenAck(n) => {
                republished.push(n);
                attempts = n;
            }
            BrokerAction::Ack => {
                dropped = true;
            }
        }
    }
    assert_eq!(republished, vec![1, 2, 3]);
    assert!(dropped);
}

#[test]
fn success_is_acknowledged() {
    assert!(matches!(
        consume_decision(ExecuteResultV2::Success),
        BrokerAction::Ack
    ));
}

#[test]
fn poisoned_attempt_header_still_drops() {
    // A huge header value clamps instead of wrapping into a fresh budget.
    assert!(matches!(
        consume_decision(ExecuteResultV2::Failed(inc_attempts(attempts_narrow(i64::MAX)))),
        BrokerAction::Ack
    ));
}

#[test]
fn legacy_loop_requeues_success_and_acks_overflow() {
    assert!(matches!(
        legacy_consume_decision(ExecuteResult::Success),
        LegacyAction::NackRequeue
    ));
    assert!(matches!(
        legacy_consume_decision(ExecuteResult::Overflow),
        LegacyAction::Ack
    ));
}

#[test]
fn credential_contention_single_key() {
    // One credential, two concurrent deliveries: the second checkout fails
    // until the first worker releases, then both complete.
    let mut pool = CredentialPool { in_use: vec![false] };
    let first = pool.checkout();
    assert_eq!(first, Some(0));
    let second = pool.checkout();
    assert_eq!(second, None);
    pool.release(0);
    let second_retry = pool.checkout();
    assert_eq!(second_retry, Some(0));
    pool.release(0);
    assert_eq!(pool.in_use, vec![false]);
}

#[test]
fn credential_checkout_picks_first_available() {
    let mut pool = CredentialPool { in_use: vec![true, false, false] };
    assert_eq!(pool.checkout(), Some(1));
    assert_eq!(pool.checkout(), Some(2));
    assert_eq!(pool.checkout(), None);
    pool.release(1);
    assert_eq!(pool.checkout(), Some(1));
}

#[test]
fn transient_and_permanent_errors_both_retry() {
    let msg = claymore::worker::EvoMessage {
        module_id: 1,
        job_id: 2,
        workspace_id: 3,
        file_id: None,
        input: chars_of_str("in"),
        prompt: chars_of_str("p"),
        user_id: 4,
        separator: chars_of_str(""),
        reference: chars_of_str(""),
        model_name: chars_of_str("gpt-3.5-turbo"),
    };
    let (r1, e1) = claymore::worker::evo_complete(&msg, 0, Err(LlmError::Transient));
    assert!(matches!(r1, ExecuteResultV2::Failed(1)));
    assert!(e1.is_none());
    let (r2, e2) = claymore::worker::evo_complete(&msg, 2, Err(LlmError::Permanent));
    assert!(matches!(r2, ExecuteResultV2::Failed(3)));
    assert!(e2.is_none());
}

#[test]
fn generate_delivery_splits_on_default_separator() {
    let sep = v2_default_separator_vec();
    let (result, success) = generate_complete(
        &sep,
        &chars_of_str("in"),
        500,
        0,
        Ok(chars_of_str("one\n\ntwo")),
    );
    assert!(matches!(result, ExecuteResultV2::Success));
    let success = success.unwrap();
    assert_eq!(success.candidates.len(), 2);
    assert_eq!(claymore::string_of_chars(&success.candidates[0].content), "one");
    assert_eq!(claymore::string_of_chars(&success.candidates[1].content), "two");
    assert_eq!(success.finish_file, 500);
}
