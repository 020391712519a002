//! When to ask a service again, and how long to wait first.
//!
//! A lookup asks at most [`ATTEMPTS`] times. A refusal that passes (too many
//! requests, a server having a bad minute, a connection that never landed,
//! Deezer's quota refusal wearing a 200) is waited out, for as long as the
//! service named or else a backoff that doubles each time; an answer that
//! trying again cannot change ends the lookup at once.
//!
//! The shell sends the requests and sleeps; this decides, one attempt at a
//! time.

use vstd::prelude::*;

use crate::metadata::{retry_after_secs, verdict_for, verdict_of, Verdict, LONGEST_WAIT_SECS};
use crate::text::{chars_of, parse_u64_chars, trimmed};

verus! {

/// How many times one lookup may ask.
pub const ATTEMPTS: u32 = 4;

/// The first backoff, in milliseconds; each one after it is twice the last.
pub const BACKOFF_MS: u64 = 500;

/// What one attempt came to, as the shell saw it.
#[derive(Debug)]
pub enum Attempt {
    /// The connection never landed, or timed out: the same kind of nothing
    /// as a 503, only stopped somewhere else.
    Unreachable,
    /// The client failed in a way that trying again does not mend.
    Failed,
    /// The service answered with `status`, and with this `Retry-After`
    /// header when it sent one.
    Answered { status: u16, retry_after: Option<String> },
    /// The kept response's body: whether it could be read at all, and
    /// whether it is a refusal that has to be asked again.
    Read { readable: bool, again: bool },
}

/// What the shell does next.
#[derive(Clone, Copy, Debug, PartialEq, Eq)]
pub enum Next {
    /// Stop: the lookup has no answer.
    GiveUp,
    /// The response is kept: read its body and report it.
    ReadBody,
    /// The body is the answer.
    Accept,
    /// Wait this many milliseconds on top of the service's own pace, then
    /// ask again.
    AskAgain { owed_ms: u64 },
}

/// Where a lookup is: which attempt it is on, and the backoff it would owe
/// if this one is refused.
#[derive(Debug)]
pub struct Retries {
    attempt: u32,
    backoff_ms: u64,
}

/// The backoff owed on attempt `attempt`: 500 ms, doubling.
pub open spec fn backoff_on(attempt: nat) -> nat
    decreases attempt,
{
    if attempt <= 1 {
        BACKOFF_MS as nat
    } else {
        2 * backoff_on((attempt - 1) as nat)
    }
}

/// The wait a refused answer owes: the one the service named, else the
/// backoff.
pub open spec fn named_or(retry_after: Option<Seq<char>>, backoff: nat) -> nat {
    match retry_after {
        Some(text) => match retry_after_secs(text) {
            Some(secs) => (secs * 1000) as nat,
            None => backoff,
        },
        None => backoff,
    }
}

/// The decision for one attempt, given which attempt it is, as
/// `(the attempt the lookup moves to, what to do)`.
pub open spec fn decide(attempt: nat, event: Attempt) -> (nat, Next) {
    let last = attempt >= ATTEMPTS;
    let backoff = backoff_on(attempt);
    match event {
        Attempt::Unreachable => if last {
            (attempt, Next::GiveUp)
        } else {
            (attempt + 1, Next::AskAgain { owed_ms: backoff as u64 })
        },
        Attempt::Failed => (attempt, Next::GiveUp),
        Attempt::Answered { status, retry_after } => match verdict_for(status) {
            Verdict::Keep => (attempt, Next::ReadBody),
            Verdict::Drop => (attempt, Next::GiveUp),
            Verdict::Wait(_) => if last {
                (attempt, Next::GiveUp)
            } else {
                (
                    attempt + 1,
                    Next::AskAgain {
                        owed_ms: named_or(
                            match retry_after {
                                Some(t) => Some(t@),
                                None => None,
                            },
                            backoff,
                        ) as u64,
                    },
                )
            },
        },
        Attempt::Read { readable, again } => if !readable {
            (attempt, Next::GiveUp)
        } else if !again {
            (attempt, Next::Accept)
        } else if last {
            (attempt, Next::GiveUp)
        } else {
            (attempt + 1, Next::AskAgain { owed_ms: backoff as u64 })
        },
    }
}

/// How many more requests a lookup on attempt `attempt` sends when the
/// shell does what [`decide`] says for each of `events` in turn: one for
/// each time it is told to ask again, none once it is told to stop.
pub open spec fn more_requests(attempt: nat, events: Seq<Attempt>) -> nat
    decreases events.len(),
{
    if events.len() == 0 {
        0
    } else {
        let (moved, next) = decide(attempt, events[0]);
        match next {
            Next::AskAgain { .. } => 1 + more_requests(moved, events.drop_first()),
            Next::ReadBody => more_requests(moved, events.drop_first()),
            _ => 0,
        }
    }
}

/// Whatever the services answer, one lookup sends at most [`ATTEMPTS`]
/// requests: the first, and one more for each time it is told to ask again.
pub proof fn a_lookup_asks_at_most_four_times(attempt: nat, events: Seq<Attempt>)
    requires
        1 <= attempt <= ATTEMPTS,
    ensures
        attempt + more_requests(attempt, events) <= ATTEMPTS,
    decreases events.len(),
{
    if events.len() > 0 {
        let (moved, next) = decide(attempt, events[0]);
        assert(next is AskAgain ==> attempt < ATTEMPTS && moved == attempt + 1);
        assert(next is ReadBody ==> moved == attempt);
        if next is AskAgain || next is ReadBody {
            a_lookup_asks_at_most_four_times(moved, events.drop_first());
        }
    }
}

/// A lookup with attempts left that is answered with a server error (500
/// to 599) or too many requests is asked again, on its next attempt; on its
/// last attempt it gives up.
pub proof fn a_server_error_is_asked_again(
    attempt: nat,
    status: u16,
    retry_after: Option<String>,
)
    requires
        1 <= attempt <= ATTEMPTS,
        status == 429 || (500 <= status && status <= 599),
    ensures
        attempt < ATTEMPTS ==> decide(attempt, Attempt::Answered { status, retry_after }).1 is AskAgain
            && decide(attempt, Attempt::Answered { status, retry_after }).0 == attempt + 1,
        attempt == ATTEMPTS ==> decide(attempt, Attempt::Answered { status, retry_after }).1
            is GiveUp,
{
    crate::metadata::server_errors_are_waited_out(status);
}

proof fn lemma_backoff_bound(attempt: nat)
    requires
        1 <= attempt <= ATTEMPTS,
    ensures
        backoff_on(attempt) <= 4000,
{
    reveal_with_fuel(backoff_on, 4);
}

impl Retries {
    /// Which attempt the lookup is on, from 1.
    pub closed spec fn attempt(&self) -> nat {
        self.attempt as nat
    }

    /// The state every lookup is in: on one of its attempts, owing the
    /// backoff for that attempt.
    pub closed spec fn wf(&self) -> bool {
        &&& 1 <= self.attempt <= ATTEMPTS
        &&& self.backoff_ms as nat == backoff_on(self.attempt as nat)
    }

    /// A lookup on its first attempt.
    pub fn start() -> (r: Retries)
        ensures
            r.wf(),
            r.attempt() == 1,
    {
        Retries { attempt: 1, backoff_ms: BACKOFF_MS }
    }

    /// Decide what follows one attempt, and move on to the next attempt when
    /// there is to be one. A lookup never asks more than [`ATTEMPTS`] times.
    pub fn next(&mut self, event: Attempt) -> (r: Next)
        requires
            old(self).wf(),
        ensures
            final(self).wf(),
            (final(self).attempt(), r) == decide(old(self).attempt(), event),
            r is AskAgain ==> old(self).attempt() < ATTEMPTS && r->owed_ms <= 30000,
    {
        proof {
            lemma_backoff_bound(self.attempt as nat);
        }
        let last = self.attempt >= ATTEMPTS;
        let owed = self.backoff_ms;
        match event {
            Attempt::Unreachable => {
                if last {
                    return Next::GiveUp;
                }
            },
            Attempt::Failed => {
                return Next::GiveUp;
            },
            Attempt::Answered { status, retry_after } => {
                match verdict_of(status) {
                    Verdict::Keep => {
                        return Next::ReadBody;
                    },
                    Verdict::Drop => {
                        return Next::GiveUp;
                    },
                    Verdict::Wait(_) => {
                        if last {
                            return Next::GiveUp;
                        }
                        let named = match retry_after {
                            Some(text) => named_wait_ms(text.as_str()),
                            None => None,
                        };
                        self.attempt = self.attempt + 1;
                        self.backoff_ms = self.backoff_ms * 2;
                        return match named {
                            Some(ms) => Next::AskAgain { owed_ms: ms },
                            None => Next::AskAgain { owed_ms: owed },
                        };
                    },
                }
            },
            Attempt::Read { readable, again } => {
                if !readable {
                    return Next::GiveUp;
                }
                if !again {
                    return Next::Accept;
                }
                if last {
                    return Next::GiveUp;
                }
            },
        }
        self.attempt = self.attempt + 1;
        self.backoff_ms = self.backoff_ms * 2;
        Next::AskAgain { owed_ms: owed }
    }
}

/// The wait a `Retry-After` value names, in milliseconds, capped.
fn named_wait_ms(value: &str) -> (r: Option<u64>)
    ensures
        r == (match retry_after_secs(value@) {
            Some(secs) => Some((secs * 1000) as u64),
            None => None,
        }),
{
    let c = chars_of(value);
    let t = trimmed(c.as_slice());
    let n = match parse_u64_chars(t.as_slice()) {
        Some(n) => n,
        None => return None,
    };
    let capped = if n <= LONGEST_WAIT_SECS {
        n
    } else {
        LONGEST_WAIT_SECS
    };
    Some(capped * 1000)
}

} // verus!
