//! Retrying a GET on transient transport errors (TLS handshake failures,
//! dropped connections, timeouts), which flake intermittently and should not
//! abort a whole fetch. An HTTP status error (404, other 4xx/5xx) is final at
//! once: it is deterministic, and a CrossRef 404 means the DOI does not exist.
//!
//! The program makes each attempt and sleeps; this state machine decides what
//! follows each outcome.

use vstd::prelude::*;
use crate::text::{decimal, to_string, u64_to_string};
use crate::http::message;

verus! {

/// How many requests are made at most.
pub const MAX_ATTEMPTS: u32 = 3;

/// The pause after the `n`-th failed attempt, in milliseconds.
pub open spec fn backoff_ms(n: int) -> int {
    300 * n
}

/// The outcome of one request.
pub enum Outcome {
    /// A response with a success status.
    Success,
    /// An error status code.
    Status(u16),
    /// No response; the transport error's text.
    Transport(String),
}

/// What to do next.
pub enum RetryStep {
    /// Use the response.
    Use,
    /// Give up with this error.
    Fail(String),
    /// Sleep this many milliseconds, then try again.
    Wait(u64),
}

/// The retry state: how many attempts have failed so far.
pub struct Retry {
    failed: u32,
}

impl Retry {
    /// The number of attempts that failed so far.
    pub closed spec fn failures(&self) -> int {
        self.failed as int
    }

    /// Fewer failures than attempts allowed: another attempt may be made.
    pub closed spec fn wf(&self) -> bool {
        self.failed < MAX_ATTEMPTS
    }

    /// Before the first attempt.
    pub fn new() -> (r: Self)
        ensures
            r.wf(),
            r.failures() == 0,
    {
        Retry { failed: 0 }
    }

    /// Decides what follows the outcome of an attempt.
    pub fn step(&mut self, outcome: &Outcome) -> (r: RetryStep)
        requires
            old(self).wf(),
        ensures
            match *outcome {
                Outcome::Success => r is Use && final(self).failures() == old(self).failures(),
                Outcome::Status(code) => r matches RetryStep::Fail(e) && e@ == "HTTP status "@
                    + decimal(code as nat),
                Outcome::Transport(e) => {
                    &&& final(self).failures() == old(self).failures() + 1
                    &&& if final(self).failures() >= MAX_ATTEMPTS {
                        r matches RetryStep::Fail(m) && m@ == "transport error: "@ + e@
                    } else {
                        r matches RetryStep::Wait(ms) && ms == backoff_ms(final(self).failures())
                            && final(self).wf()
                    }
                },
            },
    {
        match outcome {
            Outcome::Success => RetryStep::Use,
            Outcome::Status(code) => {
                let c = u64_to_string(*code as u64);
                RetryStep::Fail(message("HTTP status ", c.as_str()))
            },
            Outcome::Transport(e) => {
                self.failed = self.failed + 1;
                if self.failed >= MAX_ATTEMPTS {
                    RetryStep::Fail(message("transport error: ", e.as_str()))
                } else {
                    RetryStep::Wait(300 * (self.failed as u64))
                }
            },
        }
    }
}

/// However the attempts go, a retry never asks for more than
/// `MAX_ATTEMPTS` of them: a state that may still wait has had fewer
/// failures than that.
pub proof fn lemma_attempts_bounded(r: Retry)
    requires
        r.wf(),
    ensures
        0 <= r.failures() < MAX_ATTEMPTS,
{
}

} // verus!
