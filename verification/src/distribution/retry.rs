//! What to do after a request: accept the response, authenticate, retry with
//! a delay, restart the upload, or give up.

use crate::error::Error;
use vstd::prelude::*;

verus! {

/// The methods of the registry protocol.
#[derive(Debug, Clone, Copy, PartialEq, Eq, Hash, Structural)]
pub enum Method {
    Get,
    Head,
    Post,
    Put,
    Patch,
}

impl Method {
    /// Whether a request with this method may be sent again as it is: true
    /// of `Get` and `Head` only.
    pub open spec fn idempotent(self) -> bool {
        self == Method::Get || self == Method::Head
    }

    /// Decides `idempotent`.
    pub fn is_idempotent(&self) -> (b: bool)
        ensures
            b == self.idempotent(),
    {
        match self {
            Method::Get => true,
            Method::Head => true,
            _ => false,
        }
    }
}

/// What came of one attempt.
#[derive(Debug, Clone, Copy, PartialEq, Eq, Hash, Structural)]
pub enum Outcome {
    /// The registry answered with this status.
    Status(u16),
    /// The transport failed: the connection was reset, or timed out.
    Transport,
}

/// What to do next.
#[derive(Debug, Clone, Copy, PartialEq, Eq, Hash, Structural)]
pub enum Decision {
    /// The response is the answer.
    Accept,
    /// The registry asks for credentials.
    Authenticate,
    /// Send the same request again after so many milliseconds.
    Retry { delay_ms: u64 },
    /// Begin the whole upload again, with a new session, after so many
    /// milliseconds.
    Restart { delay_ms: u64 },
    /// Give up, with this error.
    Fail(Error),
}

/// `base`, doubled `n` times.
pub open spec fn doubled(base: nat, n: nat) -> nat
    decreases n,
{
    if n == 0 {
        base
    } else {
        2 * doubled(base, (n - 1) as nat)
    }
}

/// Doubling never shrinks, and nothing doubles to something from nothing.
pub proof fn lemma_doubled_monotonic(base: nat, m: nat, n: nat)
    requires
        m <= n,
    ensures
        doubled(base, m) <= doubled(base, n),
        base == 0 ==> doubled(base, n) == 0,
    decreases n,
{
    if n > 0 {
        lemma_doubled_monotonic(base, 0, (n - 1) as nat);
        if m < n {
            lemma_doubled_monotonic(base, m, (n - 1) as nat);
        }
    }
}

/// The limits of retrying.
#[derive(Debug, Clone, Copy, PartialEq, Eq, Structural)]
pub struct RetryPolicy {
    /// How many attempts one request may take in all.
    pub max_attempts: u32,
    /// The delay before the second attempt, in milliseconds.
    pub base_delay_ms: u64,
    /// The longest delay, in milliseconds.
    pub max_delay_ms: u64,
}

impl RetryPolicy {
    /// The delay after the attempt with the number `attempt`, counted from
    /// zero: the base delay doubled `attempt` times, and no more than the
    /// longest delay.
    pub open spec fn backoff(self, attempt: nat) -> nat {
        let d = doubled(self.base_delay_ms as nat, attempt);
        if d <= self.max_delay_ms {
            d
        } else {
            self.max_delay_ms as nat
        }
    }

    /// What to do after the attempt `attempt`, counted from zero, of a
    /// request with the method `method` that ended with `outcome`.
    pub open spec fn decision(self, method: Method, outcome: Outcome, attempt: u32) -> Decision {
        match outcome {
            Outcome::Status(s) => if 200 <= s < 300 {
                Decision::Accept
            } else if s == 401 {
                Decision::Authenticate
            } else if s == 404 {
                Decision::Fail(Error::NotFound)
            } else {
                Decision::Fail(Error::ProtocolError)
            },
            Outcome::Transport => if attempt + 1 >= self.max_attempts {
                Decision::Fail(Error::NetworkError)
            } else if method.idempotent() {
                Decision::Retry { delay_ms: self.backoff(attempt as nat) as u64 }
            } else {
                Decision::Restart { delay_ms: self.backoff(attempt as nat) as u64 }
            },
        }
    }

    /// Computes `backoff`.
    pub fn delay_ms(&self, attempt: u32) -> (d: u64)
        ensures
            d == self.backoff(attempt as nat),
            d <= self.max_delay_ms,
    {
        let max = self.max_delay_ms;
        let base = self.base_delay_ms;
        if base == 0 {
            proof {
                lemma_doubled_monotonic(0, 0, attempt as nat);
            }
            return 0;
        }
        if base >= max {
            proof {
                lemma_doubled_monotonic(base as nat, 0, attempt as nat);
            }
            return max;
        }
        let mut d: u64 = base;
        let mut i: u32 = 0;
        while i < attempt && d < max
            invariant
                0 <= i <= attempt,
                d <= max,
                d < max ==> d == doubled(base as nat, i as nat),
                d == max ==> doubled(base as nat, i as nat) >= max,
            decreases attempt - i,
        {
            if d > max / 2 {
                d = max;
            } else {
                d = d * 2;
            }
            i += 1;
        }
        proof {
            lemma_doubled_monotonic(base as nat, i as nat, attempt as nat);
        }
        d
    }

    /// Computes `decision`.
    pub fn decide(&self, method: Method, outcome: Outcome, attempt: u32) -> (d: Decision)
        ensures
            d == self.decision(method, outcome, attempt),
    {
        match outcome {
            Outcome::Status(s) => {
                if 200 <= s && s < 300 {
                    Decision::Accept
                } else if s == 401 {
                    Decision::Authenticate
                } else if s == 404 {
                    Decision::Fail(Error::NotFound)
                } else {
                    Decision::Fail(Error::ProtocolError)
                }
            },
            Outcome::Transport => {
                if attempt >= self.max_attempts || attempt + 1 >= self.max_attempts {
                    Decision::Fail(Error::NetworkError)
                } else if method.is_idempotent() {
                    Decision::Retry { delay_ms: self.delay_ms(attempt) }
                } else {
                    Decision::Restart { delay_ms: self.delay_ms(attempt) }
                }
            },
        }
    }
}

/// Retrying is bounded and careful: only a failure of the transport is ever
/// answered by another attempt; the last attempt that the policy allows is
/// never followed by one; a request that is not idempotent is never sent
/// again as it was; and no delay is longer than the longest delay.
pub proof fn lemma_retry_discipline(p: RetryPolicy, method: Method, outcome: Outcome, attempt: u32)
    ensures
        (p.decision(method, outcome, attempt) is Retry || p.decision(method, outcome, attempt)
            is Restart) ==> outcome is Transport && attempt + 1 < p.max_attempts,
        p.decision(method, outcome, attempt) is Retry ==> method.idempotent(),
        p.decision(method, outcome, attempt) is Restart ==> !method.idempotent(),
        p.decision(method, outcome, attempt) matches Decision::Retry { delay_ms } ==> delay_ms
            <= p.max_delay_ms,
        p.decision(method, outcome, attempt) matches Decision::Restart { delay_ms } ==> delay_ms
            <= p.max_delay_ms,
        outcome matches Outcome::Status(s) && 400 <= s < 500 && s != 401 ==> p.decision(
            method,
            outcome,
            attempt,
        ) is Fail,
{
}

/// The delays never shrink from one attempt to the next.
pub proof fn lemma_backoff_monotonic(p: RetryPolicy, a: nat, b: nat)
    requires
        a <= b,
    ensures
        p.backoff(a) <= p.backoff(b) <= p.max_delay_ms,
{
    lemma_doubled_monotonic(p.base_delay_ms as nat, a, b);
}

} // verus!
