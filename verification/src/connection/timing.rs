//! The numbers that the tasks of a connection go by.
use vstd::prelude::*;

use crate::config::CmppProtocolParams;
use crate::connection::session::Limits;
use crate::types::{NANOS_PER_SEC, TIMEOUT_CHECK_INTERVAL};

verus! {

/// Over how many looks at the clock a full window of SUBMITs that timed out is spread.
pub const MAX_SUBMIT_RETRY_SPREAD_TICKS: usize = 4;

/// How many messages with sequence ids that the caller named are sent at once.
pub const MAX_MANUAL_SEQUENCE_BATCHES: usize = 4;

/// How many sequence ids are shown when SUBMITs are given up.
pub const SUBMIT_TIMEOUT_LOG_SAMPLES: usize = 4;

/// How many control messages may wait to be written.
pub const CONTROL_CHANNEL_CAPACITY: usize = 64;

/// The longest time span that a clock can tell, in nanoseconds.
pub const LONGEST_TIME: u128 = 18_446_744_073_709_551_615_999_999_999;

/// The smaller of two numbers.
pub open spec fn at_most(n: int, limit: int) -> int {
    if n < limit {
        n
    } else {
        limit
    }
}

/// How many SUBMITs are looked at in one go when they time out: a quarter of the window, rounded
/// up.
pub fn submit_retry_batch_size(window_size: usize) -> (size: usize)
    ensures
        size == (window_size + 3) / 4,
        window_size > 0 ==> 0 < size <= window_size,
        size * MAX_SUBMIT_RETRY_SPREAD_TICKS >= window_size,
{
    let quarter: usize = window_size / MAX_SUBMIT_RETRY_SPREAD_TICKS;
    if window_size % MAX_SUBMIT_RETRY_SPREAD_TICKS != 0 {
        quarter + 1
    } else {
        quarter
    }
}

/// How many messages with sequence ids that the caller named are sent at once.
pub fn manual_batch_permits(window_size: usize) -> (permits: usize)
    ensures
        permits == at_most(window_size as int, MAX_MANUAL_SEQUENCE_BATCHES as int),
        permits <= window_size && permits <= 4,
        permits == window_size || permits == 4,
{
    if window_size < MAX_MANUAL_SEQUENCE_BATCHES {
        window_size
    } else {
        MAX_MANUAL_SEQUENCE_BATCHES
    }
}

/// How long it takes from one look at what timed out to the next, in nanoseconds.
pub fn check_interval(response_timeout: u128) -> (interval: u128)
    ensures
        interval == at_most(response_timeout as int / 4, TIMEOUT_CHECK_INTERVAL as int),
        response_timeout <= 4_000_000_000 ==> interval == response_timeout / 4,
        response_timeout >= 4_000_000_000 ==> interval == 1_000_000_000,
{
    let quarter: u128 = response_timeout / 4;
    if quarter < TIMEOUT_CHECK_INTERVAL {
        quarter
    } else {
        TIMEOUT_CHECK_INTERVAL
    }
}

/// Seconds in nanoseconds.
pub fn nanos(seconds: u64) -> (n: u128)
    ensures
        n == seconds * NANOS_PER_SEC,
        n == seconds * 1_000_000_000,
        n <= LONGEST_TIME,
{
    seconds as u128 * NANOS_PER_SEC
}

/// How long closing may take before the caller takes over, in nanoseconds.
pub fn takeover_after(response_timeout: u128) -> (time: u128)
    requires
        response_timeout <= LONGEST_TIME,
    ensures
        time == at_most(
            at_most(3 * response_timeout, LONGEST_TIME as int) + NANOS_PER_SEC,
            LONGEST_TIME as int,
        ),
        3 * response_timeout + 1_000_000_000 <= LONGEST_TIME ==> time == 3 * response_timeout
            + 1_000_000_000,
{
    let thrice: u128 = if response_timeout * 3 < LONGEST_TIME {
        response_timeout * 3
    } else {
        LONGEST_TIME
    };
    if thrice + NANOS_PER_SEC < LONGEST_TIME {
        thrice + NANOS_PER_SEC
    } else {
        LONGEST_TIME
    }
}

/// How long a takeover may take before it is tried again, in nanoseconds.
pub fn takeover_timeout(response_timeout: u128) -> (time: u128)
    requires
        response_timeout <= LONGEST_TIME,
    ensures
        time == at_most(5 * response_timeout, LONGEST_TIME as int),
        5 * response_timeout <= LONGEST_TIME ==> time == 5 * response_timeout,
{
    if response_timeout * 5 < LONGEST_TIME {
        response_timeout * 5
    } else {
        LONGEST_TIME
    }
}

/// The limits of a connection.
pub fn limits_of(params: &CmppProtocolParams) -> (limits: Limits)
    ensures
        limits.response_timeout == params.response_timeout * NANOS_PER_SEC,
        limits.response_timeout == params.response_timeout * 1_000_000_000,
        limits.retry_count == params.retry_count,
        limits.window_size == params.window_size,
        limits.submit_retry_batch_size == (params.window_size + 3) / 4,
{
    Limits {
        response_timeout: nanos(params.response_timeout),
        retry_count: params.retry_count,
        window_size: params.window_size,
        submit_retry_batch_size: submit_retry_batch_size(params.window_size),
    }
}

// ---- laws ----

/// The smaller of two numbers is one of them and above neither.
pub proof fn at_most_is_the_smaller(n: int, limit: int)
    ensures
        at_most(n, limit) <= n,
        at_most(n, limit) <= limit,
        at_most(n, limit) == n || at_most(n, limit) == limit,
{
}

} // verus!
