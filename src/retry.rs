//! The retry policy of the release listing: after each attempt, whether to use
//! the answer, wait and try again, or give up, and how.

use vstd::prelude::*;

verus! {

/// How one attempt at the release listing ended.
#[derive(Debug, PartialEq, Eq, Structural, Clone, Copy)]
pub enum Attempt {
    Success,
    /// The service answered with this HTTP status code.
    Status(u16),
    /// The answer could not be decoded.
    Decode,
    /// Any other failure.
    Other,
}

/// What to do after an attempt.
#[derive(Debug, PartialEq, Eq, Structural, Clone, Copy)]
pub enum Action {
    /// Use the answer of the attempt.
    Finish,
    /// Wait this many milliseconds, then try again.
    Retry(u64),
    /// Stop and report the failure of the attempt as it is.
    Fail,
    /// Stop: the listing is blocked by the rate limit.
    RateLimited,
    /// Stop: the answers kept failing to decode.
    DecodeFailed,
}

/// The wait before the first retry, in milliseconds; each later wait doubles.
pub const BASE_BACKOFF_MS: u64 = 500;

/// How many times a failed attempt is retried.
pub const MAX_RETRIES: u8 = 5;

pub open spec fn pow2(n: nat) -> nat
    decreases n,
{
    if n == 0 {
        1
    } else {
        2 * pow2((n - 1) as nat)
    }
}

/// A status that the server side caused.
pub open spec fn is_server_error(code: u16) -> bool {
    500 <= code <= 599
}

/// A status by which the service refuses further requests for now.
pub open spec fn is_rate_limit(code: u16) -> bool {
    code == 429 || code == 403
}

/// Where the policy stands: how many retries were made, and the next wait.
#[derive(Debug, PartialEq, Eq, Structural, Clone, Copy)]
pub struct RetryState {
    pub retries: u8,
    pub backoff_ms: u64,
}

impl RetryState {
    pub open spec fn wf(&self) -> bool {
        self.retries <= MAX_RETRIES && self.backoff_ms == BASE_BACKOFF_MS * pow2(
            self.retries as nat,
        )
    }

    /// What to do after an attempt that ended as `a`: a transient failure (a
    /// server error, or an answer that does not decode) is retried while retries
    /// are left; a rate limit stops at once; anything else stops.
    pub open spec fn decide(&self, a: Attempt) -> Action {
        match a {
            Attempt::Success => Action::Finish,
            Attempt::Status(code) => if is_rate_limit(code) {
                Action::RateLimited
            } else if is_server_error(code) && self.retries < MAX_RETRIES {
                Action::Retry(self.backoff_ms)
            } else {
                Action::Fail
            },
            Attempt::Decode => if self.retries < MAX_RETRIES {
                Action::Retry(self.backoff_ms)
            } else {
                Action::DecodeFailed
            },
            Attempt::Other => Action::Fail,
        }
    }

    /// The state after a retry was decided.
    pub open spec fn retried(&self) -> RetryState {
        RetryState { retries: (self.retries + 1) as u8, backoff_ms: (2 * self.backoff_ms) as u64 }
    }

    /// The state before the first attempt.
    pub fn new() -> (s: RetryState)
        ensures
            s.retries == 0,
            s.backoff_ms == BASE_BACKOFF_MS,
            s.wf(),
    {
        RetryState { retries: 0, backoff_ms: BASE_BACKOFF_MS }
    }

    /// Decides what to do after an attempt that ended as `a`, and records a retry.
    pub fn next(&mut self, a: &Attempt) -> (act: Action)
        requires
            old(self).wf(),
        ensures
            act == old(self).decide(*a),
            final(self).wf(),
            act is Retry ==> *final(self) == old(self).retried(),
            !(act is Retry) ==> *final(self) == *old(self),
    {
        proof {
            lemma_backoff_bound(self.retries as nat);
        }
        let act = match *a {
            Attempt::Success => Action::Finish,
            Attempt::Status(code) => {
                if code == 429 || code == 403 {
                    Action::RateLimited
                } else if 500 <= code && code <= 599 && self.retries < MAX_RETRIES {
                    Action::Retry(self.backoff_ms)
                } else {
                    Action::Fail
                }
            },
            Attempt::Decode => {
                if self.retries < MAX_RETRIES {
                    Action::Retry(self.backoff_ms)
                } else {
                    Action::DecodeFailed
                }
            },
            Attempt::Other => Action::Fail,
        };
        if let Action::Retry(_) = act {
            self.retries = self.retries + 1;
            self.backoff_ms = self.backoff_ms * 2;
        }
        act
    }
}

proof fn lemma_backoff_bound(n: nat)
    requires
        n <= 5,
    ensures
        pow2(n) <= 32,
{
    reveal_with_fuel(pow2, 6);
}

/// The waits and the final action when the attempts end as `attempts`, in order,
/// from state `s`; no final action when the attempts run out first.
pub open spec fn run(s: RetryState, attempts: Seq<Attempt>) -> (Seq<u64>, Option<Action>)
    decreases attempts.len(),
{
    if attempts.len() == 0 {
        (seq![], None)
    } else {
        match s.decide(attempts[0]) {
            Action::Retry(ms) => {
                let (waits, end) = run(s.retried(), attempts.drop_first());
                (seq![ms] + waits, end)
            },
            act => (seq![], Some(act)),
        }
    }
}

pub open spec fn initial() -> RetryState {
    RetryState { retries: 0, backoff_ms: BASE_BACKOFF_MS }
}

pub open spec fn is_transient(a: Attempt) -> bool {
    a matches Attempt::Status(code) && is_server_error(code) || a is Decode
}

proof fn lemma_transient_run(s: RetryState, attempts: Seq<Attempt>, k: nat)
    requires
        s.wf(),
        s.retries + k <= MAX_RETRIES,
        attempts.len() == k + 1,
        forall|i: int| 0 <= i < k ==> is_transient(#[trigger] attempts[i]),
        attempts[k as int] == Attempt::Success,
    ensures
        run(s, attempts) == (
            Seq::new(k, |i: int| (BASE_BACKOFF_MS * pow2((s.retries + i) as nat)) as u64),
            Some(Action::Finish),
        ),
    decreases k,
{
    lemma_backoff_bound(s.retries as nat);
    if k > 0 {
        assert(is_transient(attempts[0]));
        let t = s.retried();
        assert(pow2((s.retries + 1) as nat) == 2 * pow2(s.retries as nat));
        let rest = attempts.drop_first();
        assert forall|i: int| 0 <= i < k - 1 implies is_transient(#[trigger] rest[i]) by {
            assert(rest[i] == attempts[i + 1]);
        }
        lemma_transient_run(t, rest, (k - 1) as nat);
        let tail = Seq::new(
            (k - 1) as nat,
            |i: int| (BASE_BACKOFF_MS * pow2((t.retries + i) as nat)) as u64,
        );
        assert(seq![s.backoff_ms] + tail =~= Seq::new(
            k,
            |i: int| (BASE_BACKOFF_MS * pow2((s.retries + i) as nat)) as u64,
        ));
    } else {
        assert(Seq::<u64>::empty() =~= Seq::new(
            k,
            |i: int| (BASE_BACKOFF_MS * pow2((s.retries + i) as nat)) as u64,
        ));
    }
}

/// Up to five transient failures followed by a success end in that success,
/// after one wait per failure, starting at the base wait and doubling each time.
pub proof fn lemma_transient_failures_then_success(attempts: Seq<Attempt>, k: nat)
    requires
        k <= MAX_RETRIES,
        attempts.len() == k + 1,
        forall|i: int| 0 <= i < k ==> is_transient(#[trigger] attempts[i]),
        attempts[k as int] == Attempt::Success,
    ensures
        run(initial(), attempts) == (
            Seq::new(k, |i: int| (BASE_BACKOFF_MS * pow2(i as nat)) as u64),
            Some(Action::Finish),
        ),
{
    lemma_transient_run(initial(), attempts, k);
    assert(Seq::new(k, |i: int| (BASE_BACKOFF_MS * pow2((initial().retries + i) as nat)) as u64)
        =~= Seq::new(k, |i: int| (BASE_BACKOFF_MS * pow2(i as nat)) as u64));
}

/// A rate-limited first attempt stops the listing at once, without any wait.
pub proof fn lemma_rate_limit_stops_at_once(attempts: Seq<Attempt>)
    requires
        attempts.len() > 0,
        attempts[0] matches Attempt::Status(code) && is_rate_limit(code),
    ensures
        run(initial(), attempts) == (Seq::<u64>::empty(), Some(Action::RateLimited)),
{
}

proof fn lemma_waits_bounded(s: RetryState, attempts: Seq<Attempt>)
    requires
        s.wf(),
    ensures
        run(s, attempts).0.len() <= MAX_RETRIES - s.retries,
    decreases attempts.len(),
{
    if attempts.len() > 0 {
        if s.decide(attempts[0]) is Retry {
            lemma_backoff_bound(s.retries as nat);
            lemma_waits_bounded(s.retried(), attempts.drop_first());
        }
    }
}

/// Whatever the attempts bring, the policy waits at most five times, so the
/// listing is tried at most six times.
pub proof fn lemma_at_most_five_waits(attempts: Seq<Attempt>)
    ensures
        run(initial(), attempts).0.len() <= MAX_RETRIES,
{
    lemma_waits_bounded(initial(), attempts);
}

} // verus!
