//! Request decisions: when a fetched response is delivered, failed or retried,
//! how long to wait before a retry, and when a request body is sent as JSON.
use vstd::prelude::*;

use crate::text::{chars_of, is_ws, trim, trim_chars, trim_start};

verus! {

/// What one attempt of a request produced.
#[derive(Debug, Clone, Copy, PartialEq, Eq, Structural)]
pub enum AttemptOutcome {
    /// A response arrived with this status code and `Retry-After` seconds
    /// (zero when absent or unreadable).
    Response { status: u16, retry_after_secs: u64 },
    /// The request failed before a response arrived.
    TransportError,
}

/// What to do after an attempt.
#[derive(Debug, Clone, Copy, PartialEq, Eq, Structural)]
pub enum RetryAction {
    /// Hand the response to the caller.
    Deliver,
    /// Fail at once with a client error; it is not retried.
    FailClientError,
    /// Wait, then make the next attempt. `attempt` is the attempt that just
    /// failed and `retry_after_secs` what the server asked for.
    Retry { attempt: u32, retry_after_secs: u64 },
    /// The last allowed attempt failed: fail with its error.
    GiveUp,
}

/// A 2xx status.
pub open spec fn is_success(status: u16) -> bool {
    200 <= status <= 299
}

/// A 4xx status other than 408 (request timeout) and 429 (too many
/// requests): the request itself is at fault and repeating it cannot help.
pub open spec fn is_permanent_client_error(status: u16) -> bool {
    400 <= status < 500 && status != 408 && status != 429
}

/// The decision after attempt `attempt` (counting from 0) of at most
/// `max_retries + 1` attempts.
pub open spec fn decide(attempt: u32, max_retries: u32, outcome: AttemptOutcome) -> RetryAction {
    match outcome {
        AttemptOutcome::Response { status, retry_after_secs } => if is_success(status) {
            RetryAction::Deliver
        } else if is_permanent_client_error(status) {
            RetryAction::FailClientError
        } else if attempt < max_retries {
            RetryAction::Retry { attempt, retry_after_secs }
        } else {
            RetryAction::GiveUp
        },
        AttemptOutcome::TransportError => if attempt < max_retries {
            RetryAction::Retry { attempt, retry_after_secs: 0 }
        } else {
            RetryAction::GiveUp
        },
    }
}

/// The state of one request's retry loop.
pub struct RetryState {
    max_retries: u32,
    attempt: u32,
    finished: bool,
}

impl RetryState {
    pub closed spec fn max_retries_spec(&self) -> u32 {
        self.max_retries
    }

    /// The attempt about to be made (or last made), counting from 0.
    pub closed spec fn attempt_spec(&self) -> u32 {
        self.attempt
    }

    /// True once an action other than `Retry` was given.
    pub closed spec fn finished_spec(&self) -> bool {
        self.finished
    }

    pub closed spec fn wf(&self) -> bool {
        self.attempt <= self.max_retries
    }

    /// A request about to make its first attempt, allowed `max_retries`
    /// retries.
    pub fn new(max_retries: u32) -> (s: RetryState)
        ensures
            s.wf(),
            s.max_retries_spec() == max_retries,
            s.attempt_spec() == 0,
            !s.finished_spec(),
    {
        RetryState { max_retries, attempt: 0, finished: false }
    }

    /// The attempt about to be made.
    pub fn attempt(&self) -> (a: u32)
        ensures
            a == self.attempt_spec(),
    {
        self.attempt
    }

    /// Whether the loop is over.
    pub fn is_finished(&self) -> (b: bool)
        ensures
            b == self.finished_spec(),
    {
        self.finished
    }

    /// Records the outcome of the current attempt and says what to do. After
    /// `Retry` the next attempt is the current one plus one; after anything
    /// else the loop is over.
    pub fn on_outcome(&mut self, outcome: AttemptOutcome) -> (a: RetryAction)
        requires
            old(self).wf(),
            !old(self).finished_spec(),
        ensures
            a == decide(old(self).attempt_spec(), old(self).max_retries_spec(), outcome),
            final(self).wf(),
            final(self).max_retries_spec() == old(self).max_retries_spec(),
            a is Retry ==> final(self).attempt_spec() == old(self).attempt_spec() + 1
                && !final(self).finished_spec(),
            !(a is Retry) ==> final(self).attempt_spec() == old(self).attempt_spec()
                && final(self).finished_spec(),
    {
        let a = decide_exec(self.attempt, self.max_retries, outcome);
        match a {
            RetryAction::Retry { .. } => {
                self.attempt = self.attempt + 1;
            },
            _ => {
                self.finished = true;
            },
        }
        a
    }
}

/// The decision after an attempt; see `decide`.
pub fn decide_exec(attempt: u32, max_retries: u32, outcome: AttemptOutcome) -> (a: RetryAction)
    ensures
        a == decide(attempt, max_retries, outcome),
{
    match outcome {
        AttemptOutcome::Response { status, retry_after_secs } => {
            if 200 <= status && status <= 299 {
                RetryAction::Deliver
            } else if 400 <= status && status < 500 && status != 408 && status != 429 {
                RetryAction::FailClientError
            } else if attempt < max_retries {
                RetryAction::Retry { attempt, retry_after_secs }
            } else {
                RetryAction::GiveUp
            }
        },
        AttemptOutcome::TransportError => {
            if attempt < max_retries {
                RetryAction::Retry { attempt, retry_after_secs: 0 }
            } else {
                RetryAction::GiveUp
            }
        },
    }
}

// ---------------------------------------------------------------------------
// Delays.
// ---------------------------------------------------------------------------

/// 2 to the power `n`.
pub open spec fn pow2(n: nat) -> nat
    decreases n,
{
    if n == 0 {
        1
    } else {
        2 * pow2((n - 1) as nat)
    }
}

/// The exponential backoff before retrying after attempt `attempt`, before
/// jitter: 500 ms doubled per attempt.
pub open spec fn base_backoff_spec(attempt: nat) -> nat {
    500 * pow2(attempt)
}

/// 500 ms times 2 to the power `attempt`.
pub fn base_backoff_ms(attempt: u32) -> (r: u64)
    requires
        base_backoff_spec(attempt as nat) <= u64::MAX,
    ensures
        r == base_backoff_spec(attempt as nat),
{
    let mut p: u64 = 1;
    let mut i: u32 = 0;
    while i < attempt
        invariant
            i <= attempt,
            p == pow2(i as nat),
            500 * pow2(attempt as nat) <= u64::MAX,
        decreases attempt - i,
    {
        proof {
            lemma_pow2_mono((i + 1) as nat, attempt as nat);
        }
        p = p * 2;
        i = i + 1;
    }
    500 * p
}

proof fn lemma_pow2_mono(a: nat, b: nat)
    requires
        a <= b,
    ensures
        pow2(a) <= pow2(b),
    decreases b,
{
    if a < b {
        lemma_pow2_mono(a, (b - 1) as nat);
    }
}

/// The wait before a retry: the jittered backoff, or the server's
/// `Retry-After` (capped at 60 seconds) when that is longer.
pub open spec fn retry_delay_spec(backoff_ms: nat, retry_after_secs: nat) -> nat {
    let capped = if retry_after_secs < 60 {
        retry_after_secs
    } else {
        60
    };
    let asked = capped * 1000;
    if backoff_ms >= asked {
        backoff_ms
    } else {
        asked
    }
}

/// Milliseconds to wait before a retry; see `retry_delay_spec`.
pub fn retry_delay_ms(backoff_ms: u64, retry_after_secs: u64) -> (r: u64)
    ensures
        r == retry_delay_spec(backoff_ms as nat, retry_after_secs as nat),
{
    let capped = if retry_after_secs < 60 {
        retry_after_secs
    } else {
        60
    };
    let asked = capped * 1000;
    if backoff_ms >= asked {
        backoff_ms
    } else {
        asked
    }
}

// ---------------------------------------------------------------------------
// Header values and bodies.
// ---------------------------------------------------------------------------

pub open spec fn is_digit(c: char) -> bool {
    '0' <= c && c <= '9'
}

/// Every character is a decimal digit.
pub open spec fn all_digits(t: Seq<char>) -> bool {
    forall|i: int| 0 <= i < t.len() ==> is_digit(#[trigger] t[i])
}

/// The number a string of decimal digits denotes.
pub open spec fn digits_value(s: Seq<char>) -> nat
    decreases s.len(),
{
    if s.len() == 0 {
        0
    } else {
        digits_value(s.drop_last()) * 10 + ((s.last() as u32) - 48) as nat
    }
}

/// `u64::from_str`: an optional `+`, then one or more decimal digits, whose
/// value fits in 64 bits.
pub open spec fn parse_u64_spec(s: Seq<char>) -> Option<u64> {
    let t = if s.len() > 0 && s[0] == '+' {
        s.drop_first()
    } else {
        s
    };
    if t.len() > 0 && all_digits(t) && digits_value(t) <= u64::MAX {
        Some(digits_value(t) as u64)
    } else {
        None
    }
}

/// The seconds a `Retry-After` value asks for: the trimmed value read as an
/// unsigned integer, 0 when it is not one.
pub open spec fn retry_after_spec(value: Seq<char>) -> u64 {
    match parse_u64_spec(trim(value)) {
        Some(n) => n,
        None => 0,
    }
}

/// Reads a string of digits, `None` when it is not one or overflows.
fn parse_u64_chars(t: &[char]) -> (r: Option<u64>)
    ensures
        r == parse_u64_spec(t@),
{
    let start: usize = if t.len() > 0 && t[0] == '+' {
        1
    } else {
        0
    };
    let ghost u = if t@.len() > 0 && t@[0] == '+' {
        t@.drop_first()
    } else {
        t@
    };
    assert(u =~= t@.skip(start as int));
    if start >= t.len() {
        return None;
    }
    let mut v: u64 = 0;
    let mut i: usize = start;
    while i < t.len()
        invariant
            start <= i <= t@.len(),
            u == t@.skip(start as int),
            u == (if t@.len() > 0 && t@[0] == '+' {
                t@.drop_first()
            } else {
                t@
            }),
            forall|j: int| start <= j < i ==> is_digit(t@[j]),
            v == digits_value(t@.subrange(start as int, i as int)),
        decreases t.len() - i,
    {
        let c = t[i];
        assert(t@.subrange(start as int, i + 1).drop_last() =~= t@.subrange(start as int, i as int));
        if !('0' <= c && c <= '9') {
            assert(!is_digit(u[i - start]));
            assert(!all_digits(u));
            return None;
        }
        let d: u64 = (c as u32 - 48) as u64;
        if v > (u64::MAX - d) / 10 {
            proof {
                assert(v * 10 + d > u64::MAX) by (nonlinear_arith)
                    requires
                        v > (u64::MAX - d) / 10,
                        d <= 9,
                ;
                assert(digits_value(t@.subrange(start as int, i + 1)) == v * 10 + d);
                lemma_digits_grow(t@.skip(start as int), (i - start + 1) as nat);
                assert(t@.skip(start as int).take(i - start + 1) =~= t@.subrange(start as int, i + 1));
            }
            return None;
        }
        v = v * 10 + d;
        i = i + 1;
    }
    assert(t@.subrange(start as int, t@.len() as int) =~= u);
    Some(v)
}

/// Digits only ever grow the value read so far.
proof fn lemma_digits_grow(s: Seq<char>, k: nat)
    requires
        k <= s.len(),
    ensures
        digits_value(s.take(k as int)) <= digits_value(s),
    decreases s.len() - k,
{
    if k < s.len() {
        lemma_digits_grow(s, k + 1);
        assert(s.take(k as int + 1).drop_last() =~= s.take(k as int));
    } else {
        assert(s.take(k as int) =~= s);
    }
}

/// The seconds a `Retry-After` header value asks for; see `retry_after_spec`.
pub fn parse_retry_after(value: &str) -> (r: u64)
    ensures
        r == retry_after_spec(value@),
{
    let cs = chars_of(value);
    let t = trim_chars(cs.as_slice());
    match parse_u64_chars(t.as_slice()) {
        Some(n) => n,
        None => 0,
    }
}

/// A body is sent as JSON when, after leading white space, it starts with `{`
/// or `[`.
pub open spec fn body_is_json_spec(body: Seq<char>) -> bool {
    let t = trim_start(body);
    t.len() > 0 && (t[0] == '{' || t[0] == '[')
}

proof fn lemma_trim_start_index(s: Seq<char>, i: int)
    requires
        0 <= i <= s.len(),
        forall|j: int| 0 <= j < i ==> is_ws(s[j]),
        i == s.len() || !is_ws(s[i]),
    ensures
        trim_start(s) == s.skip(i),
    decreases i,
{
    if i > 0 {
        lemma_trim_start_index(s.drop_first(), i - 1);
        assert(s.drop_first().skip(i - 1) =~= s.skip(i));
    } else {
        assert(s.skip(0) =~= s);
    }
}

/// Whether a request body is JSON; see `body_is_json_spec`.
pub fn body_is_json(body: &str) -> (r: bool)
    ensures
        r == body_is_json_spec(body@),
{
    let cs = chars_of(body);
    let mut i: usize = 0;
    while i < cs.len() && crate::text::is_whitespace(cs[i])
        invariant
            cs@ == body@,
            i <= cs@.len(),
            forall|j: int| 0 <= j < i ==> is_ws(cs@[j]),
        decreases cs.len() - i,
    {
        i = i + 1;
    }
    proof {
        lemma_trim_start_index(cs@, i as int);
    }
    i < cs.len() && (cs[i] == '{' || cs[i] == '[')
}

/// A 2xx response is delivered at once, on any attempt.
pub proof fn law_success_delivered(attempt: u32, max_retries: u32, status: u16, retry_after_secs: u64)
    requires
        is_success(status),
    ensures
        decide(attempt, max_retries, AttemptOutcome::Response { status, retry_after_secs })
            == RetryAction::Deliver,
{
}

/// A 4xx response other than 408 and 429 is never retried.
pub proof fn law_client_errors_not_retried(attempt: u32, max_retries: u32, status: u16, retry_after_secs: u64)
    requires
        is_permanent_client_error(status),
    ensures
        decide(attempt, max_retries, AttemptOutcome::Response { status, retry_after_secs })
            == RetryAction::FailClientError,
{
}

/// Server errors, 408, 429 and transport errors are retried while attempts
/// remain, so a request makes at most `max_retries + 1` attempts: a retry is
/// only ever decided before the last attempt.
pub proof fn law_retries_bounded(attempt: u32, max_retries: u32, outcome: AttemptOutcome)
    ensures
        decide(attempt, max_retries, outcome) is Retry ==> attempt < max_retries,
        attempt >= max_retries ==> !(decide(attempt, max_retries, outcome) is Retry),
        attempt < max_retries && match outcome {
            AttemptOutcome::Response { status, .. } => !is_success(status)
                && !is_permanent_client_error(status),
            AttemptOutcome::TransportError => true,
        } ==> decide(attempt, max_retries, outcome) is Retry,
{
}

/// The wait before a retry is never shorter than the backoff, and a
/// `Retry-After` lengthens it to at most one minute.
pub proof fn law_delay_bounds(backoff_ms: nat, retry_after_secs: nat)
    ensures
        retry_delay_spec(backoff_ms, retry_after_secs) >= backoff_ms,
        retry_delay_spec(backoff_ms, retry_after_secs) <= if backoff_ms > 60000 {
            backoff_ms
        } else {
            60000
        },
        retry_delay_spec(backoff_ms, retry_after_secs) >= if retry_after_secs < 60 {
            retry_after_secs * 1000
        } else {
            60000
        },
{
}

/// Only a 2xx response is ever delivered: a response with a status outside
/// 200..=299, and a request that failed before any response, never are.
/// Once the retries are used up, such an attempt ends the request with an
/// error (a client error or giving up), whatever the status.
pub proof fn law_only_success_delivered(attempt: u32, max_retries: u32, outcome: AttemptOutcome)
    ensures
        (decide(attempt, max_retries, outcome) == RetryAction::Deliver) <==> match outcome {
            AttemptOutcome::Response { status, .. } => 200 <= status && status <= 299,
            AttemptOutcome::TransportError => false,
        },
        match outcome {
            AttemptOutcome::Response { status, .. } => !(200 <= status && status <= 299),
            AttemptOutcome::TransportError => true,
        } && attempt >= max_retries ==> (decide(attempt, max_retries, outcome) == RetryAction::GiveUp
            || decide(attempt, max_retries, outcome) == RetryAction::FailClientError),
{
}

} // verus!
