use botcore::retry::AttemptEvent;
use botcore::retry::CallOutcome;
use botcore::retry::EnvelopeDecode;
use botcore::retry::ErrorKind;
use botcore::retry::RetryState;
use botcore::retry::StepVerdict;
use botcore::retry::single_shot_outcome;
use botcore::types::ApiResponse;

fn rate_limited(retry_after_secs: Option<u64>) -> AttemptEvent {
    AttemptEvent::Response {
        status: 429,
        retry_after_secs,
        envelope: EnvelopeDecode::Decoded { ok: false, description: None },
    }
}

fn server_error(status: u16) -> AttemptEvent {
    AttemptEvent::Response {
        status,
        retry_after_secs: None,
        envelope: EnvelopeDecode::Decoded { ok: false, description: None },
    }
}

fn ok_response() -> AttemptEvent {
    AttemptEvent::Response {
        status: 200,
        retry_after_secs: None,
        envelope: EnvelopeDecode::Decoded { ok: true, description: None },
    }
}

fn error_response(description: Option<&str>) -> AttemptEvent {
    AttemptEvent::Response {
        status: 200,
        retry_after_secs: None,
        envelope: EnvelopeDecode::Decoded {
            ok: false,
            description: description.map(|d| d.to_string()),
        },
    }
}

#[test]
fn rate_limit_exhaustion_consumes_exact_budget() {
    for cap in 1u32..6 {
        let mut st = RetryState::new(cap);
        let mut attempts = 0u32;
        let failure = loop {
            attempts += 1;
            match st.step(rate_limited(None)) {
                StepVerdict::Retry { .. } => continue,
                StepVerdict::Finish { outcome, .. } => break outcome,
            }
        };
        assert_eq!(attempts, cap);
        match failure {
            CallOutcome::Failure(e) => {
                assert_eq!(e.kind, ErrorKind::RateLimited);
                assert_eq!(e.message, "too many requests (429)");
            }
            CallOutcome::Success(_) => panic!("exhaustion must fail"),
        }
    }
}

#[test]
fn rate_limit_header_hint_overrides_backoff() {
    let mut st = RetryState::new(5);
    match st.step(rate_limited(Some(3))) {
        StepVerdict::Retry { sleep_ms } => assert_eq!(sleep_ms, 3000),
        _ => panic!("must retry"),
    }
    // The hinted attempt leaves the exponential schedule untouched.
    assert_eq!(st.backoff_ms, 500);
    match st.step(rate_limited(None)) {
        StepVerdict::Retry { sleep_ms } => assert_eq!(sleep_ms, 500),
        _ => panic!("must retry"),
    }
    assert_eq!(st.backoff_ms, 1000);
}

#[test]
fn first_attempt_success_never_sleeps() {
    let mut st = RetryState::new_default();
    match st.step(ok_response()) {
        StepVerdict::Finish { outcome: CallOutcome::Success(()), trailing_sleep_ms: None } => {}
        _ => panic!("ok envelope on attempt one must succeed at once"),
    }
    assert_eq!(st.attempt, 1);
}

#[test]
fn backoff_doubles_through_server_errors() {
    let k = 3;
    let mut st = RetryState::new(5);
    let mut sleeps = Vec::new();
    for _ in 0..k {
        match st.step(server_error(503)) {
            StepVerdict::Retry { sleep_ms } => sleeps.push(sleep_ms),
            _ => panic!("must retry under the cap"),
        }
    }
    match st.step(ok_response()) {
        StepVerdict::Finish { outcome: CallOutcome::Success(()), .. } => {}
        _ => panic!("attempt k+1 must succeed"),
    }
    assert_eq!(sleeps, vec![500, 1000, 2000]);
    for i in 1..sleeps.len() {
        assert!(sleeps[i] >= 2 * sleeps[i - 1]);
    }
}

#[test]
fn server_error_exhaustion_names_the_status() {
    let mut st = RetryState::new(1);
    match st.step(server_error(503)) {
        StepVerdict::Finish { outcome: CallOutcome::Failure(e), trailing_sleep_ms } => {
            assert_eq!(e.kind, ErrorKind::RemoteFault);
            assert_eq!(e.message, "server error: 503");
            assert_eq!(trailing_sleep_ms, None);
        }
        _ => panic!("budget of one is exhausted by one server error"),
    }
}

#[test]
fn transport_failure_is_terminal() {
    let mut st = RetryState::new(5);
    match st.step(AttemptEvent::Transport("connection reset".to_string())) {
        StepVerdict::Finish { outcome: CallOutcome::Failure(e), .. } => {
            assert_eq!(e.kind, ErrorKind::Transport);
            assert_eq!(e.message, "connection reset");
        }
        _ => panic!("transport errors do not retry"),
    }
}

#[test]
fn malformed_envelope_is_terminal_decode_error() {
    let mut st = RetryState::new(5);
    let ev = AttemptEvent::Response {
        status: 200,
        retry_after_secs: None,
        envelope: EnvelopeDecode::Malformed("expected value at line 1".to_string()),
    };
    match st.step(ev) {
        StepVerdict::Finish { outcome: CallOutcome::Failure(e), .. } => {
            assert_eq!(e.kind, ErrorKind::Decode);
            assert_eq!(e.message, "expected value at line 1");
        }
        _ => panic!("decode errors do not retry"),
    }
}

#[test]
fn application_error_surfaces_description_verbatim() {
    let mut st = RetryState::new(5);
    match st.step(error_response(Some("chat not found"))) {
        StepVerdict::Finish { outcome: CallOutcome::Failure(e), .. } => {
            assert_eq!(e.kind, ErrorKind::Application);
            assert_eq!(e.message, "chat not found");
        }
        _ => panic!("plain application errors do not retry"),
    }
}

#[test]
fn application_error_without_description() {
    let mut st = RetryState::new(5);
    match st.step(error_response(None)) {
        StepVerdict::Finish { outcome: CallOutcome::Failure(e), .. } => {
            assert_eq!(e.kind, ErrorKind::Application);
            assert_eq!(e.message, "telegram api error");
        }
        _ => panic!("must fail"),
    }
}

#[test]
fn description_hint_drives_retry() {
    let mut st = RetryState::new(2);
    match st.step(error_response(Some("Too Many Requests: retry after 4"))) {
        StepVerdict::Retry { sleep_ms } => assert_eq!(sleep_ms, 4000),
        _ => panic!("a hinted description retries"),
    }
    // The second hinted throttle exhausts the budget of two; the failure
    // carries the last description.
    match st.step(error_response(Some("retry after 9"))) {
        StepVerdict::Finish { outcome: CallOutcome::Failure(e), trailing_sleep_ms } => {
            assert_eq!(e.kind, ErrorKind::RateLimited);
            assert_eq!(e.message, "retry after 9");
            assert_eq!(trailing_sleep_ms, Some(9000));
        }
        _ => panic!("budget exhausted"),
    }
}

#[test]
fn status_shortcircuits_before_envelope() {
    // A throttling status retries even when the body failed to decode.
    let mut st = RetryState::new(3);
    let ev = AttemptEvent::Response {
        status: 429,
        retry_after_secs: None,
        envelope: EnvelopeDecode::Malformed("garbage".to_string()),
    };
    match st.step(ev) {
        StepVerdict::Retry { sleep_ms } => assert_eq!(sleep_ms, 500),
        _ => panic!("status is inspected before the body"),
    }
}

#[test]
fn single_shot_success() {
    let resp = ApiResponse { ok: true, result: 41u64, description: None };
    match single_shot_outcome(resp) {
        CallOutcome::Success(v) => assert_eq!(v, 41),
        CallOutcome::Failure(_) => panic!("ok envelope must succeed"),
    }
}

#[test]
fn single_shot_failure_uses_description() {
    let resp: ApiResponse<u64> = ApiResponse {
        ok: false,
        result: 0,
        description: Some("file is too big".to_string()),
    };
    match single_shot_outcome(resp) {
        CallOutcome::Failure(e) => {
            assert_eq!(e.kind, ErrorKind::Application);
            assert_eq!(e.message, "file is too big");
        }
        CallOutcome::Success(_) => panic!("must fail"),
    }
}

#[test]
fn single_shot_failure_default_description() {
    let resp: ApiResponse<u64> = ApiResponse { ok: false, result: 0, description: None };
    match single_shot_outcome(resp) {
        CallOutcome::Failure(e) => assert_eq!(e.message, "telegram api error"),
        CallOutcome::Success(_) => panic!("must fail"),
    }
}
