//! What to do when a request fails: try again after a growing wait while the
//! fault may pass, give up at once when it cannot.

use crate::finder::ScanError;
use vstd::prelude::*;

verus! {

/// How a request failed.
#[derive(Debug, Clone, Copy, PartialEq, Eq, Structural)]
pub enum Failure {
    /// No answer came: the connection failed or ran out of time.
    Network,
    /// The exchange answered with a status that is no success.
    Refused { status: u16 },
    /// The answer did not have the shape that was expected.
    Malformed(ScanError),
}

/// Whether a failure may pass by itself.
#[derive(Debug, Clone, Copy, PartialEq, Eq, Structural)]
pub enum Severity {
    /// A fault of the network, of the server, or a rate limit.
    Retryable,
    /// A fault of the request or of its answer: authentication, signature,
    /// a parameter, a payload of another shape.
    Fatal,
}

/// The status by which the exchange says that too many requests came.
pub const TOO_MANY_REQUESTS: u16 = 429;

/// The first status of a server fault.
pub const SERVER_FAULT: u16 = 500;

impl Failure {
    /// A failure is retryable when no answer came, when the server was at
    /// fault, or when the rate limit was hit.  Every other failure is fatal
    /// for its request.
    pub open spec fn severity(self) -> Severity {
        match self {
            Failure::Network => Severity::Retryable,
            Failure::Refused { status } => if status >= SERVER_FAULT || status
                == TOO_MANY_REQUESTS {
                Severity::Retryable
            } else {
                Severity::Fatal
            },
            Failure::Malformed(_) => Severity::Fatal,
        }
    }

    /// Tells whether the failure may pass by itself.
    pub fn classify(&self) -> (r: Severity)
        ensures
            r == self.severity(),
    {
        match self {
            Failure::Network => Severity::Retryable,
            Failure::Refused { status } => if *status >= SERVER_FAULT || *status
                == TOO_MANY_REQUESTS {
                Severity::Retryable
            } else {
                Severity::Fatal
            },
            Failure::Malformed(_) => Severity::Fatal,
        }
    }
}

/// What follows a failure.
#[derive(Debug, Clone, Copy, PartialEq, Eq, Structural)]
pub enum Verdict {
    /// Send the request again after `wait` milliseconds.
    Retry { wait: u64 },
    /// Hand the failure on: it ends the loop.
    Escalate,
}

/// Twice `wait`, or the longest wait there is.
pub open spec fn twice(wait: u64) -> u64 {
    if wait > u64::MAX / 2 {
        u64::MAX
    } else {
        (2 * wait) as u64
    }
}

/// The wait before retry number `n`, counted from zero: the first wait,
/// doubled `n` times.
pub open spec fn wait_before(first: u64, n: nat) -> u64
    decreases n,
{
    if n == 0 {
        first
    } else {
        twice(wait_before(first, (n - 1) as nat))
    }
}

/// The retries of one request.
#[derive(Debug, Clone, Copy, PartialEq, Eq, Structural)]
pub struct Backoff {
    first: u64,
    limit: u32,
    used: u32,
    wait: u64,
}

impl Backoff {
    /// The wait before the first retry, in milliseconds.
    pub closed spec fn first_wait(self) -> u64 {
        self.first
    }

    /// How many retries a request gets.
    pub closed spec fn retries(self) -> nat {
        self.limit as nat
    }

    /// How many retries were used.
    pub closed spec fn attempts(self) -> nat {
        self.used as nat
    }

    /// No more retries are used than there are, and the wait that is due is
    /// the first wait doubled once for each retry used.
    pub closed spec fn wf(self) -> bool {
        self.used <= self.limit && self.wait == wait_before(self.first, self.used as nat)
    }

    /// Whether a failure is retried: it is retryable, and a retry is left.
    pub open spec fn retried(self, failure: Failure) -> bool {
        failure.severity() == Severity::Retryable && self.attempts() < self.retries()
    }

    /// The retries of a request that waits `first_wait` milliseconds before
    /// its first retry and is retried `retries` times at most.
    pub fn new(first_wait: u64, retries: u32) -> (r: Self)
        ensures
            r.wf(),
            r.first_wait() == first_wait,
            r.retries() == retries,
            r.attempts() == 0,
    {
        Self { first: first_wait, limit: retries, used: 0, wait: first_wait }
    }

    /// Takes note of a failure.  A retryable failure is retried while
    /// retries are left, each after twice the wait of the one before; a fatal
    /// failure, or a retryable one with no retry left, is escalated.
    pub fn failed(&mut self, failure: Failure) -> (r: Verdict)
        requires
            old(self).wf(),
        ensures
            final(self).wf(),
            final(self).first_wait() == old(self).first_wait(),
            final(self).retries() == old(self).retries(),
            old(self).retried(failure) ==> r == (Verdict::Retry {
                wait: wait_before(old(self).first_wait(), old(self).attempts()),
            }) && final(self).attempts() == old(self).attempts() + 1,
            !old(self).retried(failure) ==> r == Verdict::Escalate && final(self).attempts()
                == old(self).attempts(),
    {
        match failure.classify() {
            Severity::Fatal => Verdict::Escalate,
            Severity::Retryable => {
                if self.used < self.limit {
                    let wait = self.wait;
                    self.used += 1;
                    self.wait = if wait > u64::MAX / 2 {
                        u64::MAX
                    } else {
                        2 * wait
                    };
                    Verdict::Retry { wait }
                } else {
                    Verdict::Escalate
                }
            },
        }
    }

    /// Takes note of a success: the next request starts with all its
    /// retries.
    pub fn succeeded(&mut self)
        ensures
            final(self).wf(),
            final(self).first_wait() == old(self).first_wait(),
            final(self).retries() == old(self).retries(),
            final(self).attempts() == 0,
    {
        self.used = 0;
        self.wait = self.first;
    }
}

/// The waits never shrink: each is at least the one before it, and none is
/// shorter than the first.
pub proof fn lemma_waits_grow(first: u64, n: nat)
    ensures
        wait_before(first, n) <= wait_before(first, n + 1),
        first <= wait_before(first, n),
    decreases n,
{
    if n > 0 {
        lemma_waits_grow(first, (n - 1) as nat);
    }
}

} // verus!
