//! The two environment-dependent readings the library needs: the current
//! time and the local time zone's offset.  Everything downstream of these
//! readings is verified for every value they could return.

use vstd::prelude::*;

verus! {

/// Relies on `chrono::Utc::now` and `chrono::DateTime::timestamp`: the
/// current time as seconds since the Unix epoch.  The clock can say
/// anything, so nothing is promised of the value.  (With a system clock
/// set before the epoch, this chrono version stops the process inside
/// `Utc::now` rather than return at all.)
#[verifier::external_body]
fn now_seconds() -> i64 {
    chrono::Utc::now().timestamp()
}

/// Relies on `chrono::TimeZone::timestamp_opt` on `chrono::Local`,
/// `chrono::DateTime::offset` and `chrono::FixedOffset::local_minus_utc`:
/// the local time zone's offset from UTC, in seconds, at the instant `secs`
/// (seconds since the Unix epoch).  The zone comes from the environment, so
/// nothing is promised of the value; an instant the zone cannot map reports
/// an offset of zero.
#[verifier::external_body]
pub(crate) fn local_offset_at(secs: i64) -> i32 {
    match chrono::TimeZone::timestamp_opt(&chrono::Local, secs, 0) {
        chrono::LocalResult::Single(dt) => dt.offset().local_minus_utc(),
        chrono::LocalResult::Ambiguous(dt, _) => dt.offset().local_minus_utc(),
        chrono::LocalResult::None => 0,
    }
}

/// The current time as an unsigned count of seconds since the Unix epoch.
/// A negative reading would be clamped to zero; chrono never hands one
/// back, so the clamp is a totality guard, not a reachable case.
pub fn current_timestamp() -> (r: u64)
{
    let now = now_seconds();
    if now < 0 {
        0
    } else {
        now as u64
    }
}

} // verus!
