//! Asking the model, with one more try where the first fails.
use vstd::prelude::*;
use vstd::string::{StrSliceExecFns, StringExecFns, StringSliceAdditionalSpecFns};
use vstd::utf8::encode_utf8;

verus! {

/// How often the model is asked at most. A second try makes up for a cold
/// start; a third does not pay.
pub const MAX_ATTEMPTS: u32 = 2;

/// The pause before the next try.
pub const RETRY_DELAY_MS: u64 = 150;

/// The type of the documents that the proxy and the model exchange.
pub const JSON_CONTENT_TYPE: &'static str = "application/json";

/// What the model answered: the status, the type and the text of the body.
#[derive(Debug)]
pub struct UpstreamResponse {
    pub status: u16,
    pub content_type: Vec<u8>,
    pub text: String,
}

/// How one try ended.
#[derive(Debug)]
pub enum AttemptOutcome {
    /// An answer came, with the whole of its body.
    Answered(UpstreamResponse),
    /// No answer came; the text says why.
    SendFailed(String),
    /// An answer came, but not its body; the text says why.
    BodyFailed(String),
}

/// What is to be done after a try.
#[derive(Debug)]
pub enum RetryStep {
    /// Hand the answer on.
    Done(UpstreamResponse),
    /// Wait, and make the try with the given number.
    Retry { attempt: u32, delay_ms: u64 },
    /// Give up, for the given reason.
    Failed(String),
}

/// Why a try failed.
pub open spec fn failure_of(outcome: AttemptOutcome) -> Option<Seq<char>> {
    match outcome {
        AttemptOutcome::Answered(_) => None,
        AttemptOutcome::SendFailed(error) => Some("network: "@ + error@),
        AttemptOutcome::BodyFailed(error) => Some("read body: "@ + error@),
    }
}

/// `step` is what is to be done after the try with number `attempt`, counted
/// from zero: an answer is handed on, a failure is tried again while tries are
/// left, and else it is the reason to give up.
pub open spec fn step_after(attempt: u32, outcome: AttemptOutcome, step: RetryStep) -> bool {
    match failure_of(outcome) {
        None => step == RetryStep::Done(outcome->Answered_0),
        Some(reason) => if attempt + 1 < MAX_ATTEMPTS {
            step == (RetryStep::Retry {
                attempt: (attempt + 1) as u32,
                delay_ms: RETRY_DELAY_MS,
            })
        } else {
            step matches RetryStep::Failed(message) && message@ == reason
        },
    }
}

/// Decides what is to be done after a try.
pub fn after_attempt(attempt: u32, outcome: AttemptOutcome) -> (step: RetryStep)
    ensures
        step_after(attempt, outcome, step),
{
    let reason = match outcome {
        AttemptOutcome::Answered(response) => return RetryStep::Done(response),
        AttemptOutcome::SendFailed(error) => {
            let mut reason = "network: ".to_owned();
            reason.append(error.as_str());
            reason
        },
        AttemptOutcome::BodyFailed(error) => {
            let mut reason = "read body: ".to_owned();
            reason.append(error.as_str());
            reason
        },
    };
    if attempt < MAX_ATTEMPTS - 1 {
        RetryStep::Retry { attempt: attempt + 1, delay_ms: RETRY_DELAY_MS }
    } else {
        RetryStep::Failed(reason)
    }
}

/// The first try is never the reason to give up, and the second is never
/// followed by a third: it ends in its answer or in its own failure.
pub proof fn law_two_tries_at_most(
    first: AttemptOutcome,
    first_step: RetryStep,
    second: AttemptOutcome,
    second_step: RetryStep,
)
    requires
        step_after(0, first, first_step),
        first_step matches RetryStep::Retry { attempt, delay_ms } ==> step_after(
            attempt,
            second,
            second_step,
        ),
    ensures
        !(first_step is Failed),
        first_step is Retry ==> !(second_step is Retry),
        first_step is Retry ==> (second_step is Failed <==> failure_of(second) is Some),
        first_step is Retry ==> (second_step matches RetryStep::Failed(message) ==> Some(message@)
            == failure_of(second)),
{
}

/// The type of an answer: the one that it names, or else JSON.
pub fn content_type_or_json(header: Option<Vec<u8>>) -> (content_type: Vec<u8>)
    ensures
        content_type@ == (match header {
            Some(value) => value@,
            None => JSON_CONTENT_TYPE.spec_bytes(),
        }),
        header is None ==> content_type@ == encode_utf8("application/json"@),
{
    match header {
        Some(value) => value,
        None => JSON_CONTENT_TYPE.as_bytes_vec(),
    }
}

/// A status that reports success.
pub open spec fn success(status: u16) -> bool {
    200 <= status < 300
}

/// Whether a status reports success.
pub fn is_success(status: u16) -> (yes: bool)
    ensures
        yes == success(status),
        yes <==> 200 <= status <= 299,
{
    200 <= status && status < 300
}

/// An answer, whatever it says and whichever try brought it, is handed on as it
/// is. A failed first try is made again after a short pause, and a failure
/// after that is told in the words of the last try.
pub proof fn law_answers_are_handed_on_and_failures_told(
    attempt: u32,
    outcome: AttemptOutcome,
    step: RetryStep,
)
    requires
        step_after(attempt, outcome, step),
    ensures
        outcome matches AttemptOutcome::Answered(response) ==> step == RetryStep::Done(response),
        !(outcome is Answered) && attempt == 0 ==> step == (RetryStep::Retry {
            attempt: 1,
            delay_ms: 150,
        }),
        attempt >= 1 ==> (outcome matches AttemptOutcome::SendFailed(error)
            ==> step matches RetryStep::Failed(message) && message@ == "network: "@ + error@),
        attempt >= 1 ==> (outcome matches AttemptOutcome::BodyFailed(error)
            ==> step matches RetryStep::Failed(message) && message@ == "read body: "@ + error@),
{
}

} // verus!
