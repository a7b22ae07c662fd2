//! The resilient remote-call core: one retry state machine per call.
//!
//! A call resolves by a bounded loop of attempts. The transport performs one
//! round trip per attempt and feeds what it observed back as an
//! [`AttemptEvent`]; [`RetryState::step`] decides whether to sleep and try
//! again or to finish with a single terminal [`CallOutcome`]. Retries are
//! invisible to the caller: however many attempts were made, exactly one
//! outcome comes back.
//!
//! Retry eligibility: a throttling status, a server-side failure status, or a
//! decoded error description carrying a "retry after" hint. Anything else —
//! a transport failure, a malformed envelope, a remote-reported error without
//! a hint — is terminal at once.

use vstd::prelude::*;

use crate::backoff::retry_after_hint;
use crate::text::dec_str_of;
use crate::text::u64_to_string;
use crate::types::ApiResponse;
use crate::DEFAULT_MAX_ATTEMPTS;
use crate::INITIAL_BACKOFF_MS;

verus! {

use vstd::string::StringExecFns;

/// How a failed remote call is classified.
#[derive(Clone, Copy, Debug, PartialEq, Eq, Structural)]
pub enum ErrorKind {
    /// Connection or I/O failure before any response was obtained.
    Transport,
    /// The remote signalled throttling and the attempt budget ran out.
    RateLimited,
    /// The remote signalled a server-side failure and the budget ran out.
    RemoteFault,
    /// The remote reported an application error description.
    Application,
    /// The response body did not match the expected envelope.
    Decode,
}

/// A classified terminal failure with its diagnostic description.
#[derive(Clone, Debug)]
pub struct CallError {
    pub kind: ErrorKind,
    pub message: String,
}

/// The single terminal result of a remote call: success or a classified
/// failure, never both.
#[derive(Clone, Debug)]
pub enum CallOutcome<T> {
    Success(T),
    Failure(CallError),
}

/// What decoding a response body gave.
#[derive(Clone, Debug)]
pub enum EnvelopeDecode {
    /// The body did not decode to the envelope; carries the decoder's words.
    Malformed(String),
    /// The envelope fields that drive the retry decision.
    Decoded { ok: bool, description: Option<String> },
}

/// What the transport observed on one attempt.
#[derive(Clone, Debug)]
pub enum AttemptEvent {
    /// No response was obtained; carries the transport's words.
    Transport(String),
    /// A response with its raw status, the out-of-band wait hint in seconds
    /// if the response carried one, and the decoded body.
    Response { status: u16, retry_after_secs: Option<u64>, envelope: EnvelopeDecode },
}

/// Ghost image of a terminal outcome, with the message as a sequence.
pub enum SpecOutcome {
    Success,
    Failure { kind: ErrorKind, message: Seq<char> },
}

/// Ghost image of a step's verdict.
pub enum SpecVerdict {
    /// Sleep this long, then make another attempt.
    Retry { sleep_ms: u64 },
    /// The call is resolved; a throttled final attempt still slept before
    /// failing, which `trailing_sleep_ms` records.
    Finish { outcome: SpecOutcome, trailing_sleep_ms: Option<u64> },
}

/// What one call of `step` decided.
#[derive(Clone, Debug)]
pub enum StepVerdict {
    /// Sleep this long, then make another attempt.
    Retry { sleep_ms: u64 },
    /// The call is resolved; a throttled final attempt still slept before
    /// failing, which `trailing_sleep_ms` records.
    Finish { outcome: CallOutcome<()>, trailing_sleep_ms: Option<u64> },
}

/// The ghost image of a terminal outcome.
pub open spec fn outcome_view(o: CallOutcome<()>) -> SpecOutcome {
    match o {
        CallOutcome::Success(_) => SpecOutcome::Success,
        CallOutcome::Failure(e) => SpecOutcome::Failure { kind: e.kind, message: e.message@ },
    }
}

impl View for StepVerdict {
    type V = SpecVerdict;

    open spec fn view(&self) -> SpecVerdict {
        match self {
            StepVerdict::Retry { sleep_ms } => SpecVerdict::Retry { sleep_ms: *sleep_ms },
            StepVerdict::Finish { outcome, trailing_sleep_ms } => SpecVerdict::Finish {
                outcome: outcome_view(*outcome),
                trailing_sleep_ms: *trailing_sleep_ms,
            },
        }
    }
}

/// The remote signalled throttling.
pub open spec fn is_rate_limit_status(status: u16) -> bool {
    status == 429
}

/// The remote signalled a server-side failure.
pub open spec fn is_server_error_status(status: u16) -> bool {
    500 <= status < 600
}

/// The next exponential delay: doubled, kept as it is where doubling would
/// not fit.
pub open spec fn doubled_backoff(b: u64) -> u64 {
    if 2 * b <= u64::MAX {
        (2 * b) as u64
    } else {
        b
    }
}

/// A wait hint in seconds as milliseconds, saturating.
pub open spec fn secs_to_ms(secs: u64) -> u64 {
    if 1000 * secs <= u64::MAX {
        (1000 * secs) as u64
    } else {
        u64::MAX
    }
}

/// The retry loop's state while one remote call resolves.
#[derive(Clone, Copy, Debug, PartialEq, Eq, Structural)]
pub struct RetryState {
    /// Attempts already made.
    pub attempt: u32,
    /// The delay the next unhinted retry will sleep.
    pub backoff_ms: u64,
    /// The attempt cap.
    pub max_attempts: u32,
}

/// The state a call starts from under the attempt cap `max_attempts`.
pub open spec fn initial_state(max_attempts: u32) -> RetryState {
    RetryState { attempt: 0, backoff_ms: INITIAL_BACKOFF_MS, max_attempts }
}

/// The full decision table of one attempt: from the state before the attempt
/// and what the transport observed, to the state after it and the verdict.
pub open spec fn spec_step(st: RetryState, ev: AttemptEvent) -> (RetryState, SpecVerdict) {
    match ev {
        AttemptEvent::Transport(m) => (
            RetryState { attempt: (st.attempt + 1) as u32, ..st },
            SpecVerdict::Finish {
                outcome: SpecOutcome::Failure { kind: ErrorKind::Transport, message: m@ },
                trailing_sleep_ms: None,
            },
        ),
        AttemptEvent::Response { status, retry_after_secs, envelope } => {
            let a = st.attempt + 1;
            if is_rate_limit_status(status) {
                let sleep = match retry_after_secs {
                    Some(secs) => secs_to_ms(secs),
                    None => st.backoff_ms,
                };
                let nb = match retry_after_secs {
                    Some(_) => st.backoff_ms,
                    None => doubled_backoff(st.backoff_ms),
                };
                let st2 = RetryState { attempt: a as u32, backoff_ms: nb, max_attempts: st.max_attempts };
                if a >= st.max_attempts {
                    (st2, SpecVerdict::Finish {
                        outcome: SpecOutcome::Failure {
                            kind: ErrorKind::RateLimited,
                            message: "too many requests (429)"@,
                        },
                        trailing_sleep_ms: Some(sleep),
                    })
                } else {
                    (st2, SpecVerdict::Retry { sleep_ms: sleep })
                }
            } else if is_server_error_status(status) {
                if a >= st.max_attempts {
                    (RetryState { attempt: a as u32, ..st }, SpecVerdict::Finish {
                        outcome: SpecOutcome::Failure {
                            kind: ErrorKind::RemoteFault,
                            message: "server error: "@ + dec_str_of(status as int),
                        },
                        trailing_sleep_ms: None,
                    })
                } else {
                    let st2 = RetryState {
                        attempt: a as u32,
                        backoff_ms: doubled_backoff(st.backoff_ms),
                        max_attempts: st.max_attempts,
                    };
                    (st2, SpecVerdict::Retry { sleep_ms: st.backoff_ms })
                }
            } else {
                let st2 = RetryState { attempt: a as u32, ..st };
                match envelope {
                    EnvelopeDecode::Malformed(m) => (st2, SpecVerdict::Finish {
                        outcome: SpecOutcome::Failure { kind: ErrorKind::Decode, message: m@ },
                        trailing_sleep_ms: None,
                    }),
                    EnvelopeDecode::Decoded { ok, description } => {
                        if ok {
                            (st2, SpecVerdict::Finish {
                                outcome: SpecOutcome::Success,
                                trailing_sleep_ms: None,
                            })
                        } else {
                            match description {
                                Some(d) => match retry_after_hint(d@) {
                                    Some(secs) => {
                                        let sleep = secs_to_ms(secs);
                                        if a >= st.max_attempts {
                                            (st2, SpecVerdict::Finish {
                                                outcome: SpecOutcome::Failure {
                                                    kind: ErrorKind::RateLimited,
                                                    message: d@,
                                                },
                                                trailing_sleep_ms: Some(sleep),
                                            })
                                        } else {
                                            (st2, SpecVerdict::Retry { sleep_ms: sleep })
                                        }
                                    },
                                    None => (st2, SpecVerdict::Finish {
                                        outcome: SpecOutcome::Failure {
                                            kind: ErrorKind::Application,
                                            message: d@,
                                        },
                                        trailing_sleep_ms: None,
                                    }),
                                },
                                None => (st2, SpecVerdict::Finish {
                                    outcome: SpecOutcome::Failure {
                                        kind: ErrorKind::Application,
                                        message: "telegram api error"@,
                                    },
                                    trailing_sleep_ms: None,
                                }),
                            }
                        }
                    },
                }
            }
        },
    }
}

/// The next exponential delay, with checked doubling.
fn double_backoff(b: u64) -> (r: u64)
    ensures
        r == doubled_backoff(b),
{
    if b <= u64::MAX / 2 {
        b * 2
    } else {
        b
    }
}

/// A wait hint in seconds as milliseconds, saturating.
fn hint_sleep_ms(secs: u64) -> (r: u64)
    ensures
        r == secs_to_ms(secs),
{
    if secs <= u64::MAX / 1000 {
        secs * 1000
    } else {
        u64::MAX
    }
}

impl RetryState {
    /// A fresh call under the attempt cap `max_attempts`.
    pub fn new(max_attempts: u32) -> (r: RetryState)
        requires
            max_attempts >= 1,
        ensures
            r == initial_state(max_attempts),
    {
        RetryState { attempt: 0, backoff_ms: INITIAL_BACKOFF_MS, max_attempts }
    }

    /// A fresh call under the default attempt cap.
    pub fn new_default() -> (r: RetryState)
        ensures
            r == initial_state(DEFAULT_MAX_ATTEMPTS),
    {
        RetryState::new(DEFAULT_MAX_ATTEMPTS)
    }

    /// Decides what follows the attempt that observed `ev`.
    pub fn step(&mut self, ev: AttemptEvent) -> (v: StepVerdict)
        requires
            old(self).attempt < old(self).max_attempts,
        ensures
            *final(self) == spec_step(*old(self), ev).0,
            v@ == spec_step(*old(self), ev).1,
    {
        let a = self.attempt + 1;
        match ev {
            AttemptEvent::Transport(m) => {
                self.attempt = a;
                StepVerdict::Finish {
                    outcome: CallOutcome::Failure(CallError { kind: ErrorKind::Transport, message: m }),
                    trailing_sleep_ms: None,
                }
            },
            AttemptEvent::Response { status, retry_after_secs, envelope } => {
                if status == 429 {
                    let sleep: u64;
                    match retry_after_secs {
                        Some(secs) => {
                            sleep = hint_sleep_ms(secs);
                        },
                        None => {
                            sleep = self.backoff_ms;
                            self.backoff_ms = double_backoff(self.backoff_ms);
                        },
                    }
                    self.attempt = a;
                    if a >= self.max_attempts {
                        StepVerdict::Finish {
                            outcome: CallOutcome::Failure(CallError {
                                kind: ErrorKind::RateLimited,
                                message: String::from_str("too many requests (429)"),
                            }),
                            trailing_sleep_ms: Some(sleep),
                        }
                    } else {
                        StepVerdict::Retry { sleep_ms: sleep }
                    }
                } else if 500 <= status && status < 600 {
                    self.attempt = a;
                    if a >= self.max_attempts {
                        let mut message = String::from_str("server error: ");
                        let digits = u64_to_string(status as u64);
                        message.append(digits.as_str());
                        StepVerdict::Finish {
                            outcome: CallOutcome::Failure(CallError {
                                kind: ErrorKind::RemoteFault,
                                message,
                            }),
                            trailing_sleep_ms: None,
                        }
                    } else {
                        let sleep = self.backoff_ms;
                        self.backoff_ms = double_backoff(self.backoff_ms);
                        StepVerdict::Retry { sleep_ms: sleep }
                    }
                } else {
                    self.attempt = a;
                    match envelope {
                        EnvelopeDecode::Malformed(m) => StepVerdict::Finish {
                            outcome: CallOutcome::Failure(CallError {
                                kind: ErrorKind::Decode,
                                message: m,
                            }),
                            trailing_sleep_ms: None,
                        },
                        EnvelopeDecode::Decoded { ok, description } => {
                            if ok {
                                StepVerdict::Finish {
                                    outcome: CallOutcome::Success(()),
                                    trailing_sleep_ms: None,
                                }
                            } else {
                                match description {
                                    Some(d) => {
                                        match crate::backoff::parse_retry_after_from_description(
                                            d.as_str(),
                                        ) {
                                            Some(secs) => {
                                                let sleep = hint_sleep_ms(secs);
                                                if a >= self.max_attempts {
                                                    StepVerdict::Finish {
                                                        outcome: CallOutcome::Failure(CallError {
                                                            kind: ErrorKind::RateLimited,
                                                            message: d,
                                                        }),
                                                        trailing_sleep_ms: Some(sleep),
                                                    }
                                                } else {
                                                    StepVerdict::Retry { sleep_ms: sleep }
                                                }
                                            },
                                            None => StepVerdict::Finish {
                                                outcome: CallOutcome::Failure(CallError {
                                                    kind: ErrorKind::Application,
                                                    message: d,
                                                }),
                                                trailing_sleep_ms: None,
                                            },
                                        }
                                    },
                                    None => StepVerdict::Finish {
                                        outcome: CallOutcome::Failure(CallError {
                                            kind: ErrorKind::Application,
                                            message: String::from_str("telegram api error"),
                                        }),
                                        trailing_sleep_ms: None,
                                    },
                                }
                            }
                        },
                    }
                }
            },
        }
    }
}

/// The exponential delay never shrinks across attempts: whatever one attempt
/// observes, the unhinted delay of the next attempt is at least the current
/// one.
pub proof fn lemma_backoff_monotone(st: RetryState, ev: AttemptEvent)
    ensures
        spec_step(st, ev).0.backoff_ms >= st.backoff_ms,
{
}

/// How a whole call resolves against a stream of attempt observations: how
/// many attempts it consumed, the sleeps it performed in order, and the
/// terminal outcome (`None` when the stream ran out first).
pub struct RunResult {
    pub consumed: int,
    pub sleeps: Seq<u64>,
    pub outcome: Option<SpecOutcome>,
}

/// Iterates `spec_step` over the observations until a terminal verdict.
pub open spec fn spec_run(st: RetryState, evs: Seq<AttemptEvent>) -> RunResult
    decreases evs.len(),
{
    if evs.len() == 0 {
        RunResult { consumed: 0, sleeps: Seq::empty(), outcome: None }
    } else {
        let next = spec_step(st, evs[0]);
        match next.1 {
            SpecVerdict::Retry { sleep_ms } => {
                let rest = spec_run(next.0, evs.drop_first());
                RunResult {
                    consumed: 1 + rest.consumed,
                    sleeps: seq![sleep_ms] + rest.sleeps,
                    outcome: rest.outcome,
                }
            },
            SpecVerdict::Finish { outcome, trailing_sleep_ms } => RunResult {
                consumed: 1,
                sleeps: match trailing_sleep_ms {
                    Some(ms) => seq![ms],
                    None => Seq::empty(),
                },
                outcome: Some(outcome),
            },
        }
    }
}

/// The attempt observed a throttling response.
pub open spec fn is_rate_limit_event(ev: AttemptEvent) -> bool {
    ev matches AttemptEvent::Response { status, .. } && is_rate_limit_status(status)
}

/// The attempt observed a server-side failure response.
pub open spec fn is_server_error_event(ev: AttemptEvent) -> bool {
    ev matches AttemptEvent::Response { status, .. } && is_server_error_status(status)
}

/// The attempt observed an envelope that reports ok, under a status that
/// short-circuits nothing.
pub open spec fn is_plain_success_event(ev: AttemptEvent) -> bool {
    &&& ev matches AttemptEvent::Response { status, envelope, .. }
    &&& !is_rate_limit_status(status)
    &&& !is_server_error_status(status)
    &&& envelope matches EnvelopeDecode::Decoded { ok: true, .. }
}

proof fn lemma_rate_limit_run(st: RetryState, evs: Seq<AttemptEvent>)
    requires
        st.attempt < st.max_attempts,
        evs.len() >= st.max_attempts - st.attempt,
        forall|i: int| 0 <= i < evs.len() ==> is_rate_limit_event(#[trigger] evs[i]),
    ensures
        ({
            let r = spec_run(st, evs);
            &&& r.consumed == st.max_attempts - st.attempt
            &&& r.outcome == Some(SpecOutcome::Failure {
                kind: ErrorKind::RateLimited,
                message: "too many requests (429)"@,
            })
        }),
    decreases st.max_attempts - st.attempt,
{
    let next = spec_step(st, evs[0]);
    if st.attempt + 1 < st.max_attempts {
        let rest_evs = evs.drop_first();
        assert forall|i: int| 0 <= i < rest_evs.len() implies is_rate_limit_event(
            #[trigger] rest_evs[i],
        ) by {
            assert(rest_evs[i] == evs[i + 1]);
        }
        lemma_rate_limit_run(next.0, rest_evs);
    }
}

/// For every attempt cap, a call that is throttled on every attempt makes
/// exactly `max_attempts` attempts, then terminates as rate-limit
/// exhaustion.
pub proof fn lemma_rate_limit_exhaustion(max_attempts: u32, evs: Seq<AttemptEvent>)
    requires
        1 <= max_attempts,
        evs.len() >= max_attempts,
        forall|i: int| 0 <= i < evs.len() ==> is_rate_limit_event(#[trigger] evs[i]),
    ensures
        ({
            let r = spec_run(initial_state(max_attempts), evs);
            &&& r.consumed == max_attempts
            &&& r.outcome == Some(SpecOutcome::Failure {
                kind: ErrorKind::RateLimited,
                message: "too many requests (429)"@,
            })
        }),
{
    lemma_rate_limit_run(initial_state(max_attempts), evs);
}

/// The status an attempt's response carried.
pub open spec fn response_status(ev: AttemptEvent) -> u16 {
    match ev {
        AttemptEvent::Response { status, .. } => status,
        AttemptEvent::Transport(_) => 0,
    }
}

/// The description an attempt's decoded envelope carried.
pub open spec fn response_description(ev: AttemptEvent) -> Seq<char> {
    match ev {
        AttemptEvent::Response {
            envelope: EnvelopeDecode::Decoded { description: Some(d), .. },
            ..
        } => d@,
        _ => Seq::empty(),
    }
}

/// The attempt observed a non-throttling status whose decoded envelope
/// reports an error description carrying a wait hint.
pub open spec fn is_hinted_throttle_event(ev: AttemptEvent) -> bool {
    &&& ev matches AttemptEvent::Response { status, envelope, .. }
    &&& !is_rate_limit_status(status)
    &&& !is_server_error_status(status)
    &&& (envelope matches EnvelopeDecode::Decoded { ok: false, description: Some(d) }
        && retry_after_hint(d@) is Some)
}

proof fn lemma_server_error_exhaustion_run(st: RetryState, evs: Seq<AttemptEvent>)
    requires
        st.attempt < st.max_attempts,
        evs.len() >= st.max_attempts - st.attempt,
        forall|i: int| 0 <= i < evs.len() ==> is_server_error_event(#[trigger] evs[i]),
    ensures
        ({
            let r = spec_run(st, evs);
            &&& r.consumed == st.max_attempts - st.attempt
            &&& r.outcome == Some(SpecOutcome::Failure {
                kind: ErrorKind::RemoteFault,
                message: "server error: "@ + dec_str_of(
                    response_status(evs[st.max_attempts - st.attempt - 1]) as int,
                ),
            })
        }),
    decreases st.max_attempts - st.attempt,
{
    let next = spec_step(st, evs[0]);
    if st.attempt + 1 < st.max_attempts {
        let rest_evs = evs.drop_first();
        assert forall|i: int| 0 <= i < rest_evs.len() implies is_server_error_event(
            #[trigger] rest_evs[i],
        ) by {
            assert(rest_evs[i] == evs[i + 1]);
        }
        lemma_server_error_exhaustion_run(next.0, rest_evs);
        assert(rest_evs[next.0.max_attempts - next.0.attempt - 1] == evs[st.max_attempts
            - st.attempt - 1]);
    }
}

/// A call that sees server-side failures on every attempt makes exactly
/// `max_attempts` attempts, then terminates as a remote fault naming the
/// last status.
pub proof fn lemma_server_error_exhaustion(max_attempts: u32, evs: Seq<AttemptEvent>)
    requires
        1 <= max_attempts,
        evs.len() >= max_attempts,
        forall|i: int| 0 <= i < evs.len() ==> is_server_error_event(#[trigger] evs[i]),
    ensures
        ({
            let r = spec_run(initial_state(max_attempts), evs);
            &&& r.consumed == max_attempts
            &&& r.outcome == Some(SpecOutcome::Failure {
                kind: ErrorKind::RemoteFault,
                message: "server error: "@ + dec_str_of(
                    response_status(evs[max_attempts - 1]) as int,
                ),
            })
        }),
{
    lemma_server_error_exhaustion_run(initial_state(max_attempts), evs);
}

proof fn lemma_hinted_throttle_exhaustion_run(st: RetryState, evs: Seq<AttemptEvent>)
    requires
        st.attempt < st.max_attempts,
        evs.len() >= st.max_attempts - st.attempt,
        forall|i: int| 0 <= i < evs.len() ==> is_hinted_throttle_event(#[trigger] evs[i]),
    ensures
        ({
            let r = spec_run(st, evs);
            &&& r.consumed == st.max_attempts - st.attempt
            &&& r.outcome == Some(SpecOutcome::Failure {
                kind: ErrorKind::RateLimited,
                message: response_description(evs[st.max_attempts - st.attempt - 1]),
            })
        }),
    decreases st.max_attempts - st.attempt,
{
    let next = spec_step(st, evs[0]);
    if st.attempt + 1 < st.max_attempts {
        let rest_evs = evs.drop_first();
        assert forall|i: int| 0 <= i < rest_evs.len() implies is_hinted_throttle_event(
            #[trigger] rest_evs[i],
        ) by {
            assert(rest_evs[i] == evs[i + 1]);
        }
        lemma_hinted_throttle_exhaustion_run(next.0, rest_evs);
        assert(rest_evs[next.0.max_attempts - next.0.attempt - 1] == evs[st.max_attempts
            - st.attempt - 1]);
    }
}

/// A call whose every decoded envelope carries a wait hint in its error
/// description makes exactly `max_attempts` attempts, then terminates as
/// rate-limited with the last description.
pub proof fn lemma_hinted_throttle_exhaustion(max_attempts: u32, evs: Seq<AttemptEvent>)
    requires
        1 <= max_attempts,
        evs.len() >= max_attempts,
        forall|i: int| 0 <= i < evs.len() ==> is_hinted_throttle_event(#[trigger] evs[i]),
    ensures
        ({
            let r = spec_run(initial_state(max_attempts), evs);
            &&& r.consumed == max_attempts
            &&& r.outcome == Some(SpecOutcome::Failure {
                kind: ErrorKind::RateLimited,
                message: response_description(evs[max_attempts - 1]),
            })
        }),
{
    lemma_hinted_throttle_exhaustion_run(initial_state(max_attempts), evs);
}

/// A call whose first attempt reports ok succeeds at once and never sleeps.
pub proof fn lemma_immediate_success(max_attempts: u32, evs: Seq<AttemptEvent>)
    requires
        max_attempts >= 1,
        evs.len() >= 1,
        is_plain_success_event(evs[0]),
    ensures
        ({
            let r = spec_run(initial_state(max_attempts), evs);
            &&& r.consumed == 1
            &&& r.sleeps == Seq::<u64>::empty()
            &&& r.outcome == Some(SpecOutcome::Success)
        }),
{
}

/// Two to the power `e`.
pub open spec fn pow2_of(e: nat) -> nat
    decreases e,
{
    if e == 0 {
        1nat
    } else {
        2 * pow2_of((e - 1) as nat)
    }
}

proof fn lemma_pow2_of_pos(e: nat)
    ensures
        pow2_of(e) >= 1,
    decreases e,
{
    if e > 0 {
        lemma_pow2_of_pos((e - 1) as nat);
    }
}

proof fn lemma_pow2_of_increases(e: nat, f: nat)
    requires
        e <= f,
    ensures
        pow2_of(e) <= pow2_of(f),
    decreases f,
{
    if e < f {
        lemma_pow2_of_increases(e, (f - 1) as nat);
        lemma_pow2_of_pos((f - 1) as nat);
    }
}

proof fn lemma_backoff_run(st: RetryState, k: int, evs: Seq<AttemptEvent>)
    requires
        0 <= k,
        st.attempt + k < st.max_attempts,
        evs.len() >= k + 1,
        forall|i: int| 0 <= i < k ==> is_server_error_event(#[trigger] evs[i]),
        is_plain_success_event(evs[k]),
        st.backoff_ms * pow2_of(k as nat) <= u64::MAX,
    ensures
        ({
            let r = spec_run(st, evs);
            &&& r.consumed == k + 1
            &&& r.outcome == Some(SpecOutcome::Success)
            &&& r.sleeps.len() == k
            &&& forall|i: int|
                0 <= i < k ==> r.sleeps[i] == st.backoff_ms * pow2_of(i as nat)
        }),
    decreases k,
{
    lemma_pow2_of_pos(k as nat);
    let next = spec_step(st, evs[0]);
    if k == 0 {
    } else {
        let b = st.backoff_ms;
        assert(pow2_of(k as nat) == 2 * pow2_of((k - 1) as nat));
        assert(2 * b <= b * pow2_of(k as nat)) by (nonlinear_arith)
            requires
                pow2_of(k as nat) >= 2,
                b >= 0,
        ;
        assert(next.0.backoff_ms == 2 * b);
        assert((2 * b) * pow2_of((k - 1) as nat) == b * pow2_of(k as nat)) by (nonlinear_arith)
            requires
                pow2_of(k as nat) == 2 * pow2_of((k - 1) as nat),
        ;
        let rest_evs = evs.drop_first();
        assert forall|i: int| 0 <= i < k - 1 implies is_server_error_event(
            #[trigger] rest_evs[i],
        ) by {
            assert(rest_evs[i] == evs[i + 1]);
        }
        assert(rest_evs[k - 1] == evs[k]);
        lemma_backoff_run(next.0, k - 1, rest_evs);
        let r = spec_run(st, evs);
        let rest = spec_run(next.0, rest_evs);
        assert(r.sleeps == seq![b] + rest.sleeps);
        assert forall|i: int| 0 <= i < k implies r.sleeps[i] == st.backoff_ms * pow2_of(
            i as nat,
        ) by {
            if i == 0 {
                assert(r.sleeps[0] == b);
                assert(b * pow2_of(0nat) == b) by (nonlinear_arith);
            } else {
                assert(r.sleeps[i] == rest.sleeps[i - 1]);
                assert(rest.sleeps[i - 1] == (2 * b) * pow2_of((i - 1) as nat));
                assert((2 * b) * pow2_of((i - 1) as nat) == b * pow2_of(i as nat))
                    by (nonlinear_arith)
                    requires
                        pow2_of(i as nat) == 2 * pow2_of((i - 1) as nat),
                ;
            }
        }
    }
}

/// A call that sees server-side failures on every attempt up to `k` and an
/// ok envelope on attempt `k + 1` (inside the attempt cap) succeeds after
/// exactly `k` backoff sleeps, starting at the initial delay and doubling
/// with each retry. (With more than 54 retries the doubling would no longer
/// be representable, so the cap is bounded here.)
pub proof fn lemma_backoff_doubles_until_success(max_attempts: u32, k: int, evs: Seq<AttemptEvent>)
    requires
        0 <= k < max_attempts,
        k <= 54,
        evs.len() >= k + 1,
        forall|i: int| 0 <= i < k ==> is_server_error_event(#[trigger] evs[i]),
        is_plain_success_event(evs[k]),
    ensures
        ({
            let r = spec_run(initial_state(max_attempts), evs);
            &&& r.consumed == k + 1
            &&& r.outcome == Some(SpecOutcome::Success)
            &&& r.sleeps.len() == k
            &&& (k > 0 ==> r.sleeps[0] == INITIAL_BACKOFF_MS)
            &&& forall|i: int| 1 <= i < k ==> #[trigger] r.sleeps[i] == 2 * r.sleeps[i - 1]
        }),
{
    assert(pow2_of(54nat) == 0x40000000000000) by {
        reveal_with_fuel(pow2_of, 55);
    };
    lemma_pow2_of_increases(k as nat, 54nat);
    assert(INITIAL_BACKOFF_MS * pow2_of(k as nat) <= u64::MAX);
    lemma_backoff_run(initial_state(max_attempts), k, evs);
    let r = spec_run(initial_state(max_attempts), evs);
    if k > 0 {
        assert(INITIAL_BACKOFF_MS * pow2_of(0nat) == INITIAL_BACKOFF_MS) by (nonlinear_arith);
    }
    assert forall|i: int| 1 <= i < k implies #[trigger] r.sleeps[i] == 2 * r.sleeps[i - 1] by {
        assert(pow2_of(i as nat) == 2 * pow2_of((i - 1) as nat));
        assert(INITIAL_BACKOFF_MS * pow2_of(i as nat) == 2 * (INITIAL_BACKOFF_MS * pow2_of(
            (i - 1) as nat,
        ))) by (nonlinear_arith)
            requires
                pow2_of(i as nat) == 2 * pow2_of((i - 1) as nat),
        ;
    }
}

/// The single-shot envelope decision of the attachment upload path, which
/// deliberately does not retry: re-reading local content before a second
/// attempt is not idempotent from the call's perspective, so any failure
/// surfaces at once. Success exactly when the envelope reports ok.
pub fn single_shot_outcome<T>(resp: ApiResponse<T>) -> (r: CallOutcome<T>)
    ensures
        resp.ok ==> (r matches CallOutcome::Success(t) && t == resp.result),
        !resp.ok ==> (r matches CallOutcome::Failure(e) && e.kind == ErrorKind::Application
            && (match resp.description {
                Some(d) => e.message@ == d@,
                None => e.message@ == "telegram api error"@,
            })),
{
    if resp.ok {
        CallOutcome::Success(resp.result)
    } else {
        match resp.description {
            Some(d) => CallOutcome::Failure(CallError { kind: ErrorKind::Application, message: d }),
            None => CallOutcome::Failure(CallError {
                kind: ErrorKind::Application,
                message: String::from_str("telegram api error"),
            }),
        }
    }
}

} // verus!
