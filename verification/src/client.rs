//! The decisions of the Agent HTTP client: authorizing a descriptor, the
//! instance token, request URLs, response statuses, the retry policy of
//! event submission and the error reported for a refused request.
use vstd::prelude::*;

use crate::descriptor::{grants, msg_identity_mismatch, RuntimeDescriptor};
use crate::error::Error;
use crate::operation_logs::{event_violation, uuid_parse, OperationEvent};
use crate::text::{
    chars_of, line_breaks_to_spaces, prefix, prefix_string, spaces_for_line_breaks, str_option_view,
    trim, trimmed,
};

verus! {

/// Where the descriptor lies when `SECLAB_AGENT_RUNTIME` is not set.
pub const DEFAULT_RUNTIME_PATH: &'static str = "/run/seclab-agent/runtime.json";

/// Route that receives operation events.
pub const OPERATION_EVENT_PATH: &'static str = "/api/v1/agent/suite-runtime/operation-events";

/// Most attempts to submit one operation event.
pub const MAX_ATTEMPTS: usize = 3;

/// Most characters kept of the body of a refused request.
pub const MAX_AGENT_MESSAGE_CHARS: usize = 512;

/// The declared identity, where the process declares both ids, matches the
/// descriptor.
pub open spec fn identity_accepted(
    d: RuntimeDescriptor,
    suite_id: Option<Seq<char>>,
    instance_id: Option<Seq<char>>,
) -> bool {
    match (suite_id, instance_id) {
        (Some(s), Some(i)) => d.suite_id@ == s && d.instance_id@ == i,
        _ => true,
    }
}

/// Checks that a loaded descriptor may serve the calling process: the
/// identity that the process declares (`SECLAB_SUITE_ID` and
/// `SECLAB_SUITE_INSTANCE_ID`, where both are set) matches it, and it grants
/// `required_capability`.
/// A process that declares both ids is authorized only where both match the
/// descriptor, and only for a capability that the descriptor grants.
pub proof fn lemma_authorization_needs_matching_identity(
    d: RuntimeDescriptor,
    suite_id: Seq<char>,
    instance_id: Seq<char>,
    capability: Seq<char>,
)
    ensures
        identity_accepted(d, Some(suite_id), Some(instance_id)) <==> (d.suite_id@ == suite_id
            && d.instance_id@ == instance_id),
        identity_accepted(d, None, Some(instance_id)),
        identity_accepted(d, Some(suite_id), None),
        grants(d.capabilities@, capability) <==> exists|k: int|
            0 <= k < d.capabilities@.len() && #[trigger] d.capabilities@[k]@ == capability,
{
}

pub fn authorize_descriptor(
    descriptor: &RuntimeDescriptor,
    declared_suite_id: Option<&str>,
    declared_instance_id: Option<&str>,
    required_capability: &str,
) -> (r: Result<(), Error>)
    ensures
        (declared_suite_id matches Some(s) && declared_instance_id matches Some(i) && r is Ok)
            ==> descriptor.suite_id@ == declared_suite_id.unwrap()@ && descriptor.instance_id@
            == declared_instance_id.unwrap()@,
        r is Ok ==> exists|k: int|
            0 <= k < descriptor.capabilities@.len() && #[trigger] descriptor.capabilities@[k]@
                == required_capability@,
        !identity_accepted(*descriptor, str_option_view(declared_suite_id), str_option_view(declared_instance_id))
            ==> (r matches Err(Error::InvalidDescriptor(m)) && m@ == msg_identity_mismatch()),
        identity_accepted(*descriptor, str_option_view(declared_suite_id), str_option_view(declared_instance_id))
            && !grants(descriptor.capabilities@, required_capability@) ==> (r matches Err(
            Error::CapabilityDenied(c),
        ) && c@ == required_capability@),
        identity_accepted(*descriptor, str_option_view(declared_suite_id), str_option_view(declared_instance_id))
            && grants(descriptor.capabilities@, required_capability@) ==> r is Ok,
{
    match (declared_suite_id, declared_instance_id) {
        (Some(suite_id), Some(instance_id)) => {
            match descriptor.require_identity(suite_id, instance_id) {
                Ok(()) => {},
                Err(e) => {
                    return Err(e);
                },
            }
        },
        _ => {},
    }
    descriptor.require_capability(required_capability)
}

/// The message for an empty token.
pub open spec fn msg_empty_token() -> Seq<char> {
    "token is empty"@
}

/// The instance token held in the contents of the token file: the contents
/// trimmed, which must not be empty.
pub fn instance_token(contents: &str) -> (r: Result<String, Error>)
    ensures
        trim(contents@).len() > 0 ==> (r matches Ok(t) && t@ == trim(contents@)),
        trim(contents@).len() == 0 ==> (r matches Err(Error::InvalidCredential(m)) && m@
            == msg_empty_token()),
{
    let token = trimmed(contents);
    if token.as_str().is_empty() {
        Err(Error::InvalidCredential("token is empty".to_owned()))
    } else {
        Ok(token)
    }
}

/// `s` without its trailing `/` characters.
pub open spec fn trim_trailing_slashes(s: Seq<char>) -> Seq<char>
    decreases s.len(),
{
    if s.len() > 0 && s.last() == '/' {
        trim_trailing_slashes(s.drop_last())
    } else {
        s
    }
}

proof fn lemma_trim_trailing_slashes(s: Seq<char>, j: int)
    requires
        0 <= j <= s.len(),
        forall|k: int| j <= k < s.len() ==> #[trigger] s[k] == '/',
        j == 0 || s[j - 1] != '/',
    ensures
        trim_trailing_slashes(s) == s.take(j),
    decreases s.len() - j,
{
    if j == s.len() {
        assert(s.take(j) =~= s);
    } else {
        let t = s.drop_last();
        assert forall|k: int| j <= k < t.len() implies #[trigger] t[k] == '/' by {
            assert(t[k] == s[k]);
        }
        lemma_trim_trailing_slashes(t, j);
        assert(t.take(j) =~= s.take(j));
    }
}

/// The URL of `path` at the Agent whose base URL is `base_url`.
pub fn request_url(base_url: &str, path: &str) -> (r: String)
    ensures
        r@ == trim_trailing_slashes(base_url@) + path@,
{
    let v = chars_of(base_url);
    let mut j = v.len();
    while j > 0 && v[j - 1] == '/'
        invariant
            j <= v.len(),
            forall|k: int| j <= k < v.len() ==> #[trigger] v@[k] == '/',
        decreases j,
    {
        j = j - 1;
    }
    proof {
        lemma_trim_trailing_slashes(v@, j as int);
        assert(v@.take(j as int) =~= v@.subrange(0, j as int));
    }
    let mut r = crate::text::string_of(&v, 0, j);
    r.append(path);
    r
}

/// A 2xx status.
pub open spec fn is_success(status: u16) -> bool {
    200 <= status <= 299
}

/// A 4xx status.
pub open spec fn is_client_error(status: u16) -> bool {
    400 <= status <= 499
}

/// Whether the status is a success (`StatusCode::is_success`).
pub fn status_is_success(status: u16) -> (r: bool)
    ensures
        r == is_success(status),
{
    200 <= status && status <= 299
}

/// Whether the status is a client error (`StatusCode::is_client_error`).
pub fn status_is_client_error(status: u16) -> (r: bool)
    ensures
        r == is_client_error(status),
{
    400 <= status && status <= 499
}

/// What an attempt to submit an event came back with.
#[derive(Debug, Clone, Copy, PartialEq, Eq, Structural)]
pub enum AttemptOutcome {
    /// The Agent answered with this HTTP status.
    Status(u16),
    /// The request did not reach an answer.
    TransportFailed,
}

/// What the submission does after an attempt.
#[derive(Debug, Clone, Copy, PartialEq, Eq, Structural)]
pub enum SubmitStep {
    /// The Agent accepted the event: the submission succeeds.
    Accepted,
    /// The Agent's answer is final: the submission fails with it.
    Rejected,
    /// The last attempt did not reach the Agent: the submission fails with
    /// the transport error.
    Failed,
    /// Wait this many milliseconds, then send the same event again.
    Retry { delay_ms: u64 },
}

/// The wait before the retry that follows attempt `attempt` (counted from 0):
/// 100 ms, doubled for each earlier attempt.
pub open spec fn backoff_ms(attempt: nat) -> nat
    decreases attempt,
{
    if attempt == 0 {
        100
    } else {
        2 * backoff_ms((attempt - 1) as nat)
    }
}

/// The step after attempt `attempt` (counted from 0) came back with `outcome`.
pub open spec fn next_step(attempt: nat, outcome: AttemptOutcome) -> SubmitStep {
    match outcome {
        AttemptOutcome::Status(s) => if is_success(s) {
            SubmitStep::Accepted
        } else if is_client_error(s) || attempt + 1 == MAX_ATTEMPTS {
            SubmitStep::Rejected
        } else {
            SubmitStep::Retry { delay_ms: backoff_ms(attempt) as u64 }
        },
        AttemptOutcome::TransportFailed => if attempt + 1 == MAX_ATTEMPTS {
            SubmitStep::Failed
        } else {
            SubmitStep::Retry { delay_ms: backoff_ms(attempt) as u64 }
        },
    }
}

/// Decides what the submission of an event does after attempt `attempt`
/// (counted from 0) came back with `outcome`.
pub fn submit_step(attempt: usize, outcome: AttemptOutcome) -> (r: SubmitStep)
    requires
        attempt < MAX_ATTEMPTS,
    ensures
        r == next_step(attempt as nat, outcome),
        outcome matches AttemptOutcome::Status(c) && 200 <= c <= 299 ==> r == SubmitStep::Accepted,
        outcome matches AttemptOutcome::Status(c) && 400 <= c <= 499 ==> r == SubmitStep::Rejected,
        outcome matches AttemptOutcome::Status(c) && !(200 <= c <= 299) && !(400 <= c <= 499) ==> r
            == (if attempt + 1 < 3 {
            SubmitStep::Retry { delay_ms: if attempt == 0 {
                100
            } else {
                200
            } }
        } else {
            SubmitStep::Rejected
        }),
        outcome is TransportFailed ==> r == (if attempt + 1 < 3 {
            SubmitStep::Retry { delay_ms: if attempt == 0 {
                100
            } else {
                200
            } }
        } else {
            SubmitStep::Failed
        }),
{
    proof {
        lemma_retry_policy(attempt as nat, outcome);
    }
    let last = attempt + 1 == MAX_ATTEMPTS;
    match outcome {
        AttemptOutcome::Status(s) => {
            if status_is_success(s) {
                return SubmitStep::Accepted;
            }
            if status_is_client_error(s) || last {
                return SubmitStep::Rejected;
            }
        },
        AttemptOutcome::TransportFailed => {
            if last {
                return SubmitStep::Failed;
            }
        },
    }
    let mut delay: u64 = 100;
    let mut i: usize = 0;
    while i < attempt
        invariant
            attempt < MAX_ATTEMPTS,
            i <= attempt,
            delay == backoff_ms(i as nat),
            i == 0 ==> delay == 100,
            i == 1 ==> delay == 200,
            i == 2 ==> delay == 400,
        decreases attempt - i,
    {
        delay = delay * 2;
        i = i + 1;
    }
    SubmitStep::Retry { delay_ms: delay }
}

/// The message kept of the body of a refused request: line breaks become
/// spaces, and at most 512 characters remain.
pub open spec fn agent_message(body: Seq<char>) -> Seq<char> {
    prefix(line_breaks_to_spaces(body), MAX_AGENT_MESSAGE_CHARS as nat)
}

/// The error reported for a request that the Agent answered with a
/// non-success `status` and the text `body`.
pub fn agent_error(status: u16, body: &str) -> (e: Error)
    ensures
        e matches Error::Agent { status: s, message: m } && s == status && m@ == agent_message(
            body@,
        ),
{
    let flat = spaces_for_line_breaks(&chars_of(body));
    Error::Agent { status, message: prefix_string(&flat, MAX_AGENT_MESSAGE_CHARS) }
}

/// The submission of one event, driven by the outcomes of its attempts from
/// attempt `attempt` on: the number of attempts made and the final step.
pub open spec fn run_submission(outcomes: Seq<AttemptOutcome>, attempt: nat) -> (nat, SubmitStep)
    decreases outcomes.len() - attempt,
{
    if attempt < outcomes.len() && attempt < MAX_ATTEMPTS {
        let step = next_step(attempt, outcomes[attempt as int]);
        if step is Retry && attempt + 1 < outcomes.len() {
            run_submission(outcomes, attempt + 1)
        } else {
            (attempt + 1, step)
        }
    } else {
        (attempt, SubmitStep::Failed)
    }
}

/// Whatever the Agent answers, submitting an event makes at most
/// `MAX_ATTEMPTS` attempts and ends with a final step: it never waits for a
/// fourth one. A success or a client error ends it at once.
pub proof fn lemma_submission_is_bounded(outcomes: Seq<AttemptOutcome>, attempt: nat)
    requires
        outcomes.len() >= MAX_ATTEMPTS,
        attempt < MAX_ATTEMPTS,
    ensures
        run_submission(outcomes, attempt).0 <= MAX_ATTEMPTS,
        !(run_submission(outcomes, attempt).1 is Retry),
        outcomes[attempt as int] matches AttemptOutcome::Status(s) && (is_success(s)
            || is_client_error(s)) ==> run_submission(outcomes, attempt).0 == attempt + 1,
    decreases MAX_ATTEMPTS - attempt,
{
    let step = next_step(attempt, outcomes[attempt as int]);
    if step is Retry {
        assert(attempt + 1 < MAX_ATTEMPTS);
        lemma_submission_is_bounded(outcomes, attempt + 1);
    }
}

/// Trailing slashes of the base URL do not change the URL of a request.
pub proof fn lemma_url_ignores_trailing_slash(base_url: Seq<char>, path: Seq<char>)
    ensures
        trim_trailing_slashes(base_url.push('/')) + path == trim_trailing_slashes(base_url) + path,
{
    assert(base_url.push('/').drop_last() =~= base_url);
}

/// The submission of one validated event: the event that every attempt
/// sends, and the number of attempts made so far.
pub struct Submission {
    event: OperationEvent,
    attempts: usize,
}

impl Submission {
    /// The event that every attempt of this submission sends.
    pub closed spec fn sent_event(self) -> OperationEvent {
        self.event
    }

    /// The number of attempts made so far.
    pub closed spec fn attempts_made(self) -> nat {
        self.attempts as nat
    }

    /// Starts the submission of `event`, which must pass validation.
    pub fn new(event: OperationEvent) -> (r: Result<Submission, Error>)
        ensures
            r is Ok <==> event_violation(event, uuid_parse(event.event_id@)) is None,
            r matches Ok(s) ==> s.sent_event() == event && s.attempts_made() == 0,
            r matches Err(err) ==> event_violation(event, uuid_parse(event.event_id@)) matches Some(
                m,
            ) && err matches Error::InvalidEvent(t) && t@ == m,
    {
        match event.validate() {
            Ok(()) => Ok(Submission { event, attempts: 0 }),
            Err(e) => Err(e),
        }
    }

    /// The event to send in the next attempt.
    pub fn event(&self) -> (r: &OperationEvent)
        ensures
            *r == self.sent_event(),
    {
        &self.event
    }

    /// The number of attempts made so far.
    pub fn attempts(&self) -> (r: usize)
        ensures
            r == self.attempts_made(),
    {
        self.attempts
    }

    /// Records what the next attempt came back with and decides what the
    /// submission does next; the event to send stays the same.
    pub fn record(&mut self, outcome: AttemptOutcome) -> (r: SubmitStep)
        requires
            old(self).attempts_made() < MAX_ATTEMPTS,
        ensures
            r == next_step(old(self).attempts_made(), outcome),
            final(self).sent_event() == old(self).sent_event(),
            final(self).attempts_made() == old(self).attempts_made() + 1,
    {
        let step = submit_step(self.attempts, outcome);
        self.attempts = self.attempts + 1;
        step
    }
}

/// Every attempt of a submission sends the same event, with the same event
/// id: recording outcomes never changes the event, however many attempts are
/// made.
pub proof fn lemma_every_attempt_sends_the_same_event(
    first: Submission,
    later: Submission,
    outcomes: Seq<AttemptOutcome>,
)
    requires
        first.attempts_made() == 0,
        recorded_from(first, later, outcomes),
    ensures
        later.sent_event() == first.sent_event(),
        later.sent_event().event_id == first.sent_event().event_id,
        later.attempts_made() == outcomes.len(),
        outcomes.len() <= MAX_ATTEMPTS,
    decreases outcomes.len(),
{
    if outcomes.len() > 0 {
        let mid = choose|mid: Submission|
            recorded_from(first, mid, outcomes.drop_last()) && recorded_step(mid, later);
        lemma_every_attempt_sends_the_same_event(first, mid, outcomes.drop_last());
    }
}

/// `later` is what `record` makes of `earlier`.
pub open spec fn recorded_step(earlier: Submission, later: Submission) -> bool {
    &&& earlier.attempts_made() < MAX_ATTEMPTS
    &&& later.sent_event() == earlier.sent_event()
    &&& later.attempts_made() == earlier.attempts_made() + 1
}

/// `later` is what recording the `outcomes`, one by one, makes of `first`.
pub open spec fn recorded_from(first: Submission, later: Submission, outcomes: Seq<AttemptOutcome>) -> bool
    decreases outcomes.len(),
{
    if outcomes.len() == 0 {
        later == first
    } else {
        exists|mid: Submission|
            recorded_from(first, mid, outcomes.drop_last()) && #[trigger] recorded_step(mid, later)
    }
}

/// The retry policy of a submission, for every attempt and outcome: a 2xx
/// status accepts the event and a 4xx status rejects it at once; any other
/// status, or a failed transport, is retried after 100 ms after the first
/// attempt and 200 ms after the second, and ends the submission after the
/// third (with the Agent's answer, or with the transport failure).
pub proof fn lemma_retry_policy(attempt: nat, outcome: AttemptOutcome)
    requires
        attempt < 3,
    ensures
        outcome matches AttemptOutcome::Status(c) && 200 <= c <= 299 ==> next_step(attempt, outcome)
            == SubmitStep::Accepted,
        outcome matches AttemptOutcome::Status(c) && 400 <= c <= 499 ==> next_step(attempt, outcome)
            == SubmitStep::Rejected,
        outcome matches AttemptOutcome::Status(c) && !(200 <= c <= 299) && !(400 <= c <= 499)
            ==> next_step(attempt, outcome) == (if attempt + 1 < 3 {
            SubmitStep::Retry { delay_ms: if attempt == 0 {
                100
            } else {
                200
            } }
        } else {
            SubmitStep::Rejected
        }),
        outcome is TransportFailed ==> next_step(attempt, outcome) == (if attempt + 1 < 3 {
            SubmitStep::Retry { delay_ms: if attempt == 0 {
                100
            } else {
                200
            } }
        } else {
            SubmitStep::Failed
        }),
{
    assert(backoff_ms(0) == 100);
    assert(backoff_ms(1) == 200);
}

} // verus!
