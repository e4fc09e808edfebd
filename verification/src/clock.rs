//! The wall clock.
//!
//! Every operation of the library takes the current time as a plain value,
//! so all the logic is verified for any time; this wrapper is only the
//! source callers draw that value from.
use vstd::prelude::*;

verus! {

/// Relies on `chrono::Utc::now` and `DateTime::timestamp`: the current UTC
/// wall-clock time in whole seconds since the epoch. The value depends on
/// the moment of the call, so nothing is promised about it. The call aborts
/// only if the platform clock reports a time before the Unix epoch — a
/// fault of the environment, independent of any input.
#[verifier::external_body]
pub fn now_epoch_seconds() -> i64 {
    chrono::Utc::now().timestamp()
}

/// When the Reminder Scheduler should wake next: the coming 09:00 UTC,
/// strictly after `now` and within a day of it.
pub fn next_reminder_time(now: i64) -> (r: i64)
    requires
        0 <= now,
        now + 2 * 86400 <= i64::MAX,
    ensures
        r == (if now % 86400 < 32400 {
            (now / 86400) * 86400 + 32400
        } else {
            (now / 86400) * 86400 + 86400 + 32400
        }),
        r > now,
        r - now <= 86400,
{
    let day_start = (now / 86400) * 86400;
    proof {
        assert(day_start == now - now % 86400);
        assert(0 <= now % 86400 < 86400);
    }
    if now % 86400 < 32400 {
        day_start + 32400
    } else {
        day_start + 86400 + 32400
    }
}

/// Whether a cache entry written at `stored_at` is still inside its
/// time-to-live at `now`.
pub fn ttl_fresh(stored_at: i64, now: i64, ttl_seconds: i64) -> (b: bool)
    requires
        i64::MIN <= now - stored_at <= i64::MAX,
    ensures
        b <==> now - stored_at < ttl_seconds,
{
    now - stored_at < ttl_seconds
}

} // verus!
