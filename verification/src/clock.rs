//! Broker time: whole milliseconds since the Unix epoch, as `i64`.

use vstd::prelude::*;

verus! {

/// An agent heard from within this many milliseconds counts as online.
pub const ONLINE_TIMEOUT_MILLIS: i64 = 120_000;

/// An assigned task becomes eligible for archival once it has been assigned
/// for longer than this many milliseconds (seven days).
pub const ARCHIVE_AGE_MILLIS: i64 = 604_800_000;

/// Lifetime granted to an urgent task that nobody picks up, in seconds.
pub const URGENT_TTL_SECS: i64 = 60;

/// Milliseconds that passed between two instants; negative when `later`
/// precedes `earlier`.
pub open spec fn elapsed_millis(earlier: i64, later: i64) -> int {
    later - earlier
}

/// A lifetime in seconds, expressed in milliseconds.
pub open spec fn ttl_millis(ttl_secs: i64) -> int {
    ttl_secs * 1000
}

/// Whether more than `limit` milliseconds passed between `earlier` and `later`.
pub fn older_than(earlier: i64, later: i64, limit: i64) -> (r: bool)
    ensures
        r == (elapsed_millis(earlier, later) > limit),
{
    let gap: i128 = later as i128 - earlier as i128;
    gap > limit as i128
}

/// Whether more than `ttl_secs` seconds passed between `earlier` and `later`.
pub fn outlived(earlier: i64, later: i64, ttl_secs: i64) -> (r: bool)
    ensures
        r == (elapsed_millis(earlier, later) > ttl_millis(ttl_secs)),
{
    let gap: i128 = later as i128 - earlier as i128;
    let limit: i128 = ttl_secs as i128 * 1000;
    gap > limit
}

/// The current time, read with `chrono::Utc::now` and reduced to whole
/// milliseconds by `DateTime::timestamp_millis`. Nothing is claimed about
/// the value: two readings may differ in either direction.
#[verifier::external_body]
pub(crate) fn now() -> i64 {
    chrono::Utc::now().timestamp_millis()
}

} // verus!
