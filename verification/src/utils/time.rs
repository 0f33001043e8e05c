//! Day arithmetic on Unix timestamps, in seconds.

use vstd::prelude::*;

verus! {

/// Seconds in one day.
pub const SEC_PER_DAY: i64 = 86400;

/// Exclusive upper bound of what the wall clock can report, in seconds.
pub const CLOCK_LIMIT_SECS: i64 = 86_400 * 0x8000_0000;

/// The first day boundary strictly after `now`: `now` floored to a whole
/// day, plus one day.
pub open spec fn next_day_start(now: int) -> int {
    (now / 86400) * 86400 + 86400
}

/// Seconds to suspend at `now` for something due at `due`; zero once the
/// due time has passed.
pub open spec fn remaining_secs(due: int, now: int) -> int {
    if due > now {
        due - now
    } else {
        0
    }
}

/// The next day boundary lies strictly ahead, at most one day away, on a
/// multiple of a day.
pub proof fn lemma_next_day_start(now: int)
    ensures
        now < next_day_start(now) <= now + 86400,
        next_day_start(now) % 86400 == 0,
{
}

/// Computes [`next_day_start`].
pub fn day_start_after(now: i64) -> (start: i64)
    requires
        i64::MIN + 86400 <= now <= i64::MAX - 86400,
    ensures
        start == next_day_start(now as int),
{
    match now.checked_rem_euclid(SEC_PER_DAY) {
        Some(into_day) => now - into_day + SEC_PER_DAY,
        None => now,
    }
}

/// Computes [`remaining_secs`].
pub fn secs_until(due: i64, now: i64) -> (wait: u64)
    ensures
        wait == remaining_secs(due as int, now as int),
{
    if due > now {
        (due as i128 - now as i128) as u64
    } else {
        0
    }
}

/// Reads the wall clock through `chrono::Utc::now().timestamp()`.
///
/// Trusted: the result is a count of seconds since the epoch that chrono
/// could turn into a date, so it is non-negative and its day number fits in
/// an `i32`. Nothing else is claimed; two readings may differ in any way.
/// chrono stops the program if the machine's clock is set before 1970.
#[verifier::external_body]
pub(crate) fn clock_secs() -> (now: i64)
    ensures
        0 <= now < CLOCK_LIMIT_SECS,
{
    chrono::Utc::now().timestamp()
}

} // verus!
