//! Durations as counts of nanoseconds.

use vstd::prelude::*;
use std::time::Duration;

verus! {

/// The number of nanoseconds a `Duration` spans (what `Duration::as_nanos`
/// returns).
pub uninterp spec fn duration_nanos(d: Duration) -> nat;

/// Nanoseconds in a second.
pub open spec fn nanos_per_sec() -> nat {
    1_000_000_000
}

/// The largest duration, in nanoseconds (`Duration::MAX`).
pub open spec fn max_duration_nanos() -> nat {
    u64::MAX as nat * nanos_per_sec() + 999_999_999
}

/// `Duration::as_nanos`: the total number of nanoseconds.
#[verifier::external_body]
pub(crate) fn as_nanos(d: &Duration) -> (n: u128)
    ensures
        n == duration_nanos(*d),
        n <= max_duration_nanos(),
{
    d.as_nanos()
}

/// `Duration::new`: `secs` seconds and `nanos` nanoseconds.
#[verifier::external_body]
pub(crate) fn duration_new(secs: u64, nanos: u32) -> (d: Duration)
    requires
        nanos < 1_000_000_000,
    ensures
        duration_nanos(d) == secs * nanos_per_sec() + nanos,
{
    Duration::new(secs, nanos)
}

/// The duration spanning `n` nanoseconds (`n` at most `Duration::MAX`).
pub fn from_nanos_u128(n: u128) -> (d: Duration)
    requires
        n <= max_duration_nanos(),
    ensures
        duration_nanos(d) == n,
{
    let secs = n / 1_000_000_000;
    let sub = n % 1_000_000_000;
    assert(secs <= u64::MAX) by (nonlinear_arith)
        requires
            secs == n / 1_000_000_000,
            n <= u64::MAX * 1_000_000_000 + 999_999_999;
    assert(n == secs * 1_000_000_000 + sub) by (nonlinear_arith)
        requires
            secs == n / 1_000_000_000,
            sub == n % 1_000_000_000;
    duration_new(secs as u64, sub as u32)
}

/// The zero duration.
pub fn zero_duration() -> (d: Duration)
    ensures
        duration_nanos(d) == 0,
{
    duration_new(0, 0)
}

/// `n` seconds.
pub fn from_secs(n: u64) -> (d: Duration)
    ensures
        duration_nanos(d) == n * nanos_per_sec(),
{
    duration_new(n, 0)
}

/// `n` milliseconds.
pub fn from_millis(n: u64) -> (d: Duration)
    ensures
        duration_nanos(d) == n * 1_000_000,
{
    let secs = n / 1000;
    let ms = n % 1000;
    assert(n * 1_000_000 == secs * 1_000_000_000 + ms * 1_000_000) by (nonlinear_arith)
        requires
            secs == n / 1000,
            ms == n % 1000;
    duration_new(secs, (ms * 1_000_000) as u32)
}

} // verus!
