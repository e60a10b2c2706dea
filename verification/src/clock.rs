//! The wall clock, read in milliseconds.
use vstd::prelude::*;

verus! {

/// Milliseconds elapsed since the UNIX epoch, read from
/// `std::time::SystemTime::now`.
///
/// Trusted: nothing is claimed of the value, which depends on the time of the
/// call; a clock set before the epoch reads as 0.
#[verifier::external_body]
pub(crate) fn now_millis() -> u64 {
    std::time::SystemTime::now().duration_since(std::time::UNIX_EPOCH).map_or(0, |d| d.as_millis() as u64)
}

/// Milliseconds elapsed from `since` to `now`; zero when `now` is earlier.
pub open spec fn elapsed(now: u64, since: u64) -> u64 {
    if now > since {
        (now - since) as u64
    } else {
        0
    }
}

/// Milliseconds elapsed from `since` to `now`; zero when `now` is earlier.
pub fn elapsed_millis(now: u64, since: u64) -> (r: u64)
    ensures
        r == elapsed(now, since),
{
    if now > since {
        now - since
    } else {
        0
    }
}

} // verus!
