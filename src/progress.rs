//! Progress figures: share done and throughput.
use vstd::prelude::*;

verus! {

/// Whole percent of `total` that `done` is, truncated.
pub open spec fn percent_of(done: u64, total: u64) -> nat
    recommends
        total >= 1,
{
    (done * 100 / total as int) as nat
}

/// Bytes per second over `elapsed_micros`, truncated and held at the largest
/// `u64`; the largest `u64` too when no time has passed.
pub open spec fn rate_of(bytes: u64, elapsed_micros: u64) -> u64 {
    if elapsed_micros == 0 {
        u64::MAX
    } else if bytes * 1_000_000int / elapsed_micros as int > u64::MAX {
        u64::MAX
    } else {
        (bytes * 1_000_000int / elapsed_micros as int) as u64
    }
}

/// How much of `total` is done, in whole percent.
pub fn percent_complete(done: u64, total: u64) -> (r: u128)
    requires
        total >= 1,
    ensures
        r == percent_of(done, total),
{
    done as u128 * 100 / total as u128
}

/// Bytes per second after `bytes` in `elapsed_micros` microseconds.
pub fn bytes_per_second(bytes: u64, elapsed_micros: u64) -> (r: u64)
    ensures
        r == rate_of(bytes, elapsed_micros),
{
    if elapsed_micros == 0 {
        return u64::MAX;
    }
    let rate = bytes as u128 * 1_000_000 / elapsed_micros as u128;
    if rate > u64::MAX as u128 {
        u64::MAX
    } else {
        rate as u64
    }
}

} // verus!
