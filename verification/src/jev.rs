//! TypeSafe System One. Returns a calibrated probability directly, which is the
//! shape askgrep wants, so this backend does no conversion.
//!
//! One chunk per request, deliberately. Packing several into one `state` is
//! cheaper and measurably worse: on 120 Rust functions scored against a regex
//! that answers the same question exactly, precision at p>=0.8 fell from 0.85 at
//! one chunk per request to 0.43 at twenty, and recall at p>=0.5 from 1.00 to
//! 0.79, for a 1.7x saving. So the option is not offered.
use vstd::prelude::*;

use crate::backend::{
    after_failure, concat_str, next_after_failure, retryable, status_detail, status_detail_string,
    status_line, status_line_string, Attempts, MAX_ATTEMPTS, Next,
};

verus! {

/// Where requests go.
pub const ENDPOINT: &'static str = "https://api.typesafe.ai/v1/systemone";

/// The model asked for unless another is named.
pub const DEFAULT_MODEL: &'static str = "jev-latest";

/// The key the one question of a request is filed under.
pub const QUESTION_KEY: &'static str = "q";

/// The kind of answer asked for: a probability that the statement holds.
pub const QUESTION_TYPE: &'static str = "noul";

/// What a true answer means.
pub const CRITERION_TRUE: &'static str = "The code does this.";

/// What a false answer means.
pub const CRITERION_FALSE: &'static str = "The code does not do this.";

/// The sentence the question is spliced into.
pub const INSTRUCTION_PREFIX: &'static str = "The code in `state` ";

/// The System One backend: an API token and a model name.
pub struct Jev {
    token: String,
    model: String,
}

/// What one request carries besides the fixed question type and criteria.
pub struct JevRequest {
    pub model: String,
    /// The code the question is about.
    pub state: String,
    /// The question, spliced into a sentence about the state.
    pub instructions: String,
    /// Always `QUESTION_TYPE`.
    pub kind: &'static str,
}

/// How one request went, as far as the retry policy cares.
pub enum JevReply<S> {
    /// The answer filed under the question's key.
    Answered(S),
    /// A response that did not parse; the parser's message.
    Unparsable(String),
    /// A response with no answer under the question's key.
    Unanswered,
    /// An HTTP error status and the response body.
    Status(u16, String),
    /// The request failed before a status came back; its message.
    Transport(String),
}

/// What to do after one reply: wait for the backoff of the given attempt
/// first, when there is one, then go on as `next` says.
pub struct JevStep<S> {
    pub backoff: Option<u32>,
    pub next: Next<S>,
}

/// Whether `next` records a failure that said `msg` on attempt `attempt`:
/// another attempt follows while the budget lasts, else `msg` is the error.
pub open spec fn failed_with<T>(next: Next<T>, attempt: u32, msg: Seq<char>) -> bool {
    if attempt + 1 < MAX_ATTEMPTS {
        next matches Next::Again(a) && a.attempt == attempt + 1 && a.last@ == msg
    } else {
        next matches Next::Finish(Err(e)) && e@ == msg
    }
}

/// Whether `next` is the error `msg`, with no further attempt.
pub open spec fn fails_now<T>(next: Next<T>, msg: Seq<char>) -> bool {
    next matches Next::Finish(Err(e)) && e@ == msg
}

pub proof fn lemma_after_failure<T>(attempt: u32, last: String)
    ensures
        failed_with(after_failure::<T>(attempt, last), attempt, last@),
{
}

impl Jev {
    pub fn new(token: String, model: String) -> (j: Jev)
        ensures
            j.token() == token@,
            j.model() == model@,
    {
        Jev { token, model }
    }

    pub closed spec fn token(&self) -> Seq<char> {
        self.token@
    }

    pub closed spec fn model(&self) -> Seq<char> {
        self.model@
    }

    /// Goes into the cache key, so switching model or backend cannot serve back
    /// a score the other one produced.
    pub fn id(&self) -> (s: String)
        ensures
            s@ == "jev:"@ + self.model(),
    {
        concat_str("jev:", self.model.as_str())
    }

    /// The `Authorization` header value.
    pub fn authorization(&self) -> (s: String)
        ensures
            s@ == "Bearer "@ + self.token(),
    {
        concat_str("Bearer ", self.token.as_str())
    }

    /// The request asking `question` about `code`: the question is spliced
    /// after "The code in `state` ".
    pub fn body(&self, question: &str, code: &str) -> (r: JevRequest)
        ensures
            r.model@ == self.model(),
            r.state@ == code@,
            r.instructions@ == INSTRUCTION_PREFIX@ + question@,
            r.kind == QUESTION_TYPE,
    {
        JevRequest {
            model: self.model.clone(),
            state: String::from_str(code),
            instructions: concat_str(INSTRUCTION_PREFIX, question),
            kind: QUESTION_TYPE,
        }
    }
}

/// The retry policy, after the reply to attempt `at.attempt`.
///
/// An answer, or a response that carries none or does not parse, ends the
/// sweep of this chunk. A 429 or 5xx, or a transport failure, is waited out
/// and retried while attempts last; any other status fails at once with the
/// body the server sent.
pub fn jev_step<S>(at: Attempts, reply: JevReply<S>) -> (s: JevStep<S>)
    requires
        at.attempt < MAX_ATTEMPTS,
    ensures
        reply matches JevReply::Answered(v) ==> s.backoff is None && s.next == Next::Finish(
            Ok::<S, String>(v),
        ),
        reply matches JevReply::Unparsable(e) ==> s.backoff is None && fails_now(
            s.next,
            "bad response: "@ + e@,
        ),
        reply is Unanswered ==> s.backoff is None && fails_now(
            s.next,
            "response carried no answer for the question"@,
        ),
        reply matches JevReply::Status(c, b) ==> (retryable(c) ==> s.backoff == Some(at.attempt)
            && failed_with(s.next, at.attempt, status_line(c))),
        reply matches JevReply::Status(c, b) ==> (!retryable(c) ==> s.backoff is None && fails_now(
            s.next,
            status_detail(c, b@),
        )),
        reply matches JevReply::Transport(m) ==> s.backoff == Some(at.attempt) && failed_with(
            s.next,
            at.attempt,
            m@,
        ),
        s.next matches Next::Again(a) ==> a.attempt == at.attempt + 1,
        at.attempt + 1 == MAX_ATTEMPTS ==> s.next is Finish,
{
    match reply {
        JevReply::Answered(v) => JevStep { backoff: None, next: Next::Finish(Ok(v)) },
        JevReply::Unparsable(e) => JevStep {
            backoff: None,
            next: Next::Finish(Err(concat_str("bad response: ", e.as_str()))),
        },
        JevReply::Unanswered => JevStep {
            backoff: None,
            next: Next::Finish(Err(String::from_str("response carried no answer for the question"))),
        },
        JevReply::Status(c, b) => {
            if c == 429 || c >= 500 {
                let last = status_line_string(c);
                let next = next_after_failure(at.attempt, last);
                proof {
                    lemma_after_failure::<S>(at.attempt, last);
                }
                JevStep { backoff: Some(at.attempt), next }
            } else {
                JevStep {
                    backoff: None,
                    next: Next::Finish(Err(status_detail_string(c, b.as_str()))),
                }
            }
        },
        JevReply::Transport(m) => {
            let next = next_after_failure(at.attempt, m);
            proof {
                lemma_after_failure::<S>(at.attempt, m);
            }
            JevStep { backoff: Some(at.attempt), next }
        },
    }
}

} // verus!
