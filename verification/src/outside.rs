//! The trusted boundary: the two outside calls the library's own logic
//! needs, each behind a wrapper whose contract states only what the outside
//! code promises of every outcome — plus the verified arithmetic that turns
//! a raw clock reading into the ability timestamp.

use vstd::prelude::*;

verus! {

/// Relies on `uuid::Uuid::new_v4` and its `Display` form: a fresh random
/// version-4 UUID rendered as 36 hyphenated ASCII characters.  Randomness
/// promises nothing further, so nothing further is stated.
#[verifier::external_body]
pub fn fresh_uuid() -> (r: String)
    ensures
        r@.len() == 36,
{
    uuid::Uuid::new_v4().to_string()
}

/// The Unix second count of 2001-01-01 00:00:00 UTC, the epoch ability
/// timestamps are measured from.
pub const EPOCH_2001_UNIX_SECS: u64 = 978307200;

/// Relies on `std::time::SystemTime::now` and `duration_since` (std gives
/// them no specification here): whole seconds of the system clock since
/// the Unix epoch, zero when the clock reads earlier.  Nothing can be
/// promised of a clock reading, so nothing is stated.
#[verifier::external_body]
fn unix_now_secs() -> u64 {
    std::time::SystemTime::now().duration_since(std::time::SystemTime::UNIX_EPOCH).unwrap_or(
        std::time::Duration::from_secs(0),
    ).as_secs()
}

/// The ability timestamp a Unix second count denotes: whole seconds since
/// 2001-01-01, clamped to zero for clock readings before that epoch and
/// to `i64::MAX` where the count would not fit.
pub open spec fn epoch_2001_secs(unix: nat) -> int {
    if unix < EPOCH_2001_UNIX_SECS {
        0
    } else if unix - EPOCH_2001_UNIX_SECS > i64::MAX {
        i64::MAX as int
    } else {
        unix - EPOCH_2001_UNIX_SECS
    }
}

/// Computes [`epoch_2001_secs`] of a raw clock reading.
pub fn secs_since_2001(unix_secs: u64) -> (r: i64)
    ensures
        r as int == epoch_2001_secs(unix_secs as nat),
        r >= 0,
{
    if unix_secs < EPOCH_2001_UNIX_SECS {
        0
    } else {
        let d = unix_secs - EPOCH_2001_UNIX_SECS;
        if d > i64::MAX as u64 {
            i64::MAX
        } else {
            d as i64
        }
    }
}

/// The current ability timestamp: [`epoch_2001_secs`] of the clock now.
/// The clock reading itself is the one unverifiable input.
pub fn now_secs() -> (r: i64)
    ensures
        r >= 0,
        exists|unix: nat| r as int == epoch_2001_secs(unix),
{
    let unix = unix_now_secs();
    let r = secs_since_2001(unix);
    proof {
        assert(r as int == epoch_2001_secs(unix as nat));
    }
    r
}

} // verus!
