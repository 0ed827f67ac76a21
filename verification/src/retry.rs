//! Retry policy with exponential backoff for HTTP providers.

use vstd::prelude::*;
use std::time::Duration;
use crate::time::{duration_nanos, max_duration_nanos, as_nanos, from_nanos_u128, from_secs};

verus! {

/// 2 to the power `e`.
pub open spec fn two_pow(e: nat) -> nat
    decreases e,
{
    if e == 0 { 1 } else { 2 * two_pow((e - 1) as nat) }
}

/// The smaller of two numbers.
pub open spec fn min_nat(a: nat, b: nat) -> nat {
    if a <= b { a } else { b }
}

/// Jitter percentage of an attempt, in `0..=50`: a multiplicative hash of the
/// initial delay plus the attempt, taken modulo 51. A jittered delay is the
/// backoff delay scaled by `(75 + p)%`.
pub open spec fn jitter_percent(initial: nat, attempt: nat) -> nat {
    let m = 0x1_0000_0000_0000_0000_0000_0000_0000_0000nat;
    let seed = ((initial * 6_364_136_223_846_793_005) % m + attempt) % m;
    seed % 51
}

/// The delay before retry `attempt` without jitter, in nanoseconds: the
/// initial delay times `2^attempt` (saturating at the largest duration),
/// capped at the maximum delay.
pub open spec fn backoff_nanos(initial: nat, max: nat, attempt: nat) -> nat {
    min_nat(min_nat(initial * two_pow(attempt), max_duration_nanos()), max)
}

/// Whether an HTTP status is worth retrying: 429, 500, 502, 503 or 504.
pub open spec fn retryable(code: u16) -> bool {
    code == 429 || code == 500 || code == 502 || code == 503 || code == 504
}

/// Retry policy: how often and how long to wait between attempts.
#[derive(Debug, Clone, Copy)]
pub struct RetryPolicy {
    /// Maximum number of retries.
    pub max_retries: usize,
    /// Delay before the first retry.
    pub initial_delay: Duration,
    /// Upper bound of any delay.
    pub max_delay: Duration,
    /// Whether delays are varied to spread concurrent callers.
    pub jitter: bool,
}

proof fn lemma_two_pow_mono(a: nat, b: nat)
    requires
        a <= b,
    ensures
        two_pow(a) <= two_pow(b),
    decreases b,
{
    if a < b {
        lemma_two_pow_mono(a, (b - 1) as nat);
    }
}

/// `initial * 2^attempt`, saturating at the largest duration.
fn saturating_backoff(initial: u128, attempt: usize) -> (p: u128)
    requires
        initial <= max_duration_nanos(),
    ensures
        p == min_nat((initial * two_pow(attempt as nat)) as nat, max_duration_nanos()),
{
    let dur_max: u128 = 18_446_744_073_709_551_615_999_999_999;
    assert(dur_max == max_duration_nanos());
    if initial == 0 {
        assert(initial * two_pow(attempt as nat) == 0);
        return 0;
    }
    let mut p: u128 = initial;
    let mut k: usize = 0;
    assert(two_pow(0) == 1);
    assert(initial * two_pow(0) == initial);
    while k < attempt && p < dur_max
        invariant
            k <= attempt,
            1 <= initial <= dur_max,
            dur_max == max_duration_nanos(),
            p == min_nat((initial * two_pow(k as nat)) as nat, dur_max as nat),
        decreases attempt - k,
    {
        proof {
            assert(two_pow(k as nat + 1) == 2 * two_pow(k as nat));
            assert(initial * two_pow(k as nat + 1) == 2 * (initial * two_pow(k as nat))) by (nonlinear_arith)
                requires
                    two_pow(k as nat + 1) == 2 * two_pow(k as nat),
            ;
        }
        p = if p < dur_max / 2 + 1 && 2 * p < dur_max { 2 * p } else { dur_max };
        k = k + 1;
    }
    proof {
        if k < attempt {
            lemma_two_pow_mono(k as nat, attempt as nat);
            assert(initial * two_pow(k as nat) <= initial * two_pow(attempt as nat)) by (nonlinear_arith)
                requires
                    two_pow(k as nat) <= two_pow(attempt as nat),
            ;
        }
    }
    p
}

impl RetryPolicy {
    /// Exponential backoff with `max_retries` retries starting at
    /// `initial_delay`, capped at 60 seconds, without jitter.
    pub fn exponential(max_retries: usize, initial_delay: Duration) -> (r: RetryPolicy)
        ensures
            r.max_retries == max_retries,
            r.initial_delay == initial_delay,
            duration_nanos(r.max_delay) == 60_000_000_000,
            !r.jitter,
    {
        RetryPolicy { max_retries, initial_delay, max_delay: from_secs(60), jitter: false }
    }

    /// Enable jitter.
    pub fn with_jitter(self) -> (r: RetryPolicy)
        ensures
            r == (RetryPolicy { jitter: true, ..self }),
    {
        RetryPolicy { jitter: true, ..self }
    }

    /// Set the largest delay.
    pub fn with_max_delay(self, max_delay: Duration) -> (r: RetryPolicy)
        ensures
            r == (RetryPolicy { max_delay, ..self }),
    {
        RetryPolicy { max_delay, ..self }
    }

    /// The delay before retry `attempt` (0-based) without jitter: the
    /// initial delay times `2^attempt`, capped at the maximum delay.
    pub fn backoff_delay(&self, attempt: usize) -> (d: Duration)
        ensures
            duration_nanos(d) == backoff_nanos(
                duration_nanos(self.initial_delay),
                duration_nanos(self.max_delay),
                attempt as nat,
            ),
    {
        let init = as_nanos(&self.initial_delay);
        let maxd = as_nanos(&self.max_delay);
        let base = saturating_backoff(init, attempt);
        let capped = if base < maxd { base } else { maxd };
        from_nanos_u128(capped)
    }

    /// The jitter percentage `p` of retry `attempt`: with jitter on, the
    /// delay is the backoff delay scaled by `(75 + p)%` and capped again.
    pub fn jitter_percent_for(&self, attempt: usize) -> (p: u8)
        ensures
            p == jitter_percent(duration_nanos(self.initial_delay), attempt as nat),
    {
        let init = as_nanos(&self.initial_delay);
        let seed = init.wrapping_mul(6_364_136_223_846_793_005).wrapping_add(attempt as u128);
        (seed % 51) as u8
    }

    /// Whether an HTTP status code is retried: 429, 500, 502, 503, 504.
    pub fn is_retryable(status_code: u16) -> (r: bool)
        ensures
            r == retryable(status_code),
    {
        status_code == 429 || status_code == 500 || status_code == 502 || status_code == 503
            || status_code == 504
    }
}

impl Default for RetryPolicy {
    /// Three retries starting at one second.
    fn default() -> (r: RetryPolicy)
        ensures
            r.max_retries == 3,
            duration_nanos(r.initial_delay) == 1_000_000_000,
            duration_nanos(r.max_delay) == 60_000_000_000,
            !r.jitter,
    {
        RetryPolicy::exponential(3, from_secs(1))
    }
}

/// No delay exceeds the maximum delay.
pub proof fn law_delay_within_max(initial: nat, max: nat, attempt: nat)
    ensures
        backoff_nanos(initial, max, attempt) <= max,
{
}

/// Delays never shrink from one attempt to a later one.
pub proof fn law_delay_monotone(initial: nat, max: nat, a: nat, b: nat)
    requires
        a <= b,
    ensures
        backoff_nanos(initial, max, a) <= backoff_nanos(initial, max, b),
{
    lemma_two_pow_mono(a, b);
    assert(initial * two_pow(a) <= initial * two_pow(b)) by (nonlinear_arith)
        requires
            two_pow(a) <= two_pow(b),
    ;
}

/// Below the caps, each delay doubles the previous one.
pub proof fn law_delay_doubles(initial: nat, max: nat, attempt: nat)
    requires
        initial * two_pow(attempt + 1) <= max,
        initial * two_pow(attempt + 1) <= max_duration_nanos(),
    ensures
        backoff_nanos(initial, max, attempt + 1) == 2 * backoff_nanos(initial, max, attempt),
{
    lemma_two_pow_mono(attempt, attempt + 1);
    assert(initial * two_pow(attempt) <= initial * two_pow(attempt + 1)) by (nonlinear_arith)
        requires
            two_pow(attempt) <= two_pow(attempt + 1),
    ;
    assert(initial * two_pow(attempt + 1) == 2 * (initial * two_pow(attempt))) by (nonlinear_arith)
        requires
            two_pow(attempt + 1) == 2 * two_pow(attempt),
    ;
}

} // verus!
