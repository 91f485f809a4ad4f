//! Spans of time, in nanoseconds.

use vstd::prelude::*;

verus! {

pub const MILLISECOND: u64 = 1_000_000;

pub const SECOND: u64 = 1_000_000_000;

/// The time from `started` to `now`; none where the clock reads earlier.
pub open spec fn since(started: u64, now: u64) -> int {
    if now < started {
        0
    } else {
        now - started
    }
}

pub open spec fn least(a: int, b: int) -> int {
    if a < b {
        a
    } else {
        b
    }
}

pub fn shorter(a: u64, b: u64) -> (r: u64)
    ensures
        r == if a < b { a } else { b },
{
    if a < b {
        a
    } else {
        b
    }
}

pub fn longer(a: u64, b: u64) -> (r: u64)
    ensures
        r == if a < b {
            b
        } else {
            a
        },
{
    if a < b {
        b
    } else {
        a
    }
}

/// A millisecond has a million nanoseconds, a second a thousand milliseconds.
pub proof fn spans_are_nanoseconds()
    ensures
        MILLISECOND == 1_000_000,
        SECOND == 1_000_000_000,
{
}

/// Time does not run backwards, and what has passed is what the later reading
/// is ahead of the earlier one.
pub proof fn time_passed_is_the_difference(started: u64, passed: u64, a: int, b: int)
    requires
        started + passed <= u64::MAX,
    ensures
        since(started, (started + passed) as u64) == passed,
        since((started + passed) as u64, started) == 0,
        least(a, b) <= a && least(a, b) <= b,
        least(a, b) == a || least(a, b) == b,
{
}

} // verus!
