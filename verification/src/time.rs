//! The machine's clock.
use vstd::prelude::*;

verus! {

/// `SystemTime::now()`, as whole seconds since the Unix epoch
/// (`duration_since(UNIX_EPOCH)`, `as_secs`), or `None` where the clock reads
/// a time before the epoch. Nothing is stated of the value: it is whatever
/// the clock reads.
#[verifier::external_body]
fn clock_reading() -> Option<u64> {
    std::time::SystemTime::now().duration_since(std::time::UNIX_EPOCH).ok().map(|d| d.as_secs())
}

/// The time a clock reading stands for: its seconds since the epoch, and
/// the epoch itself for a clock set before it.
pub fn seconds_of(reading: Option<u64>) -> (r: u64)
    ensures
        r == match reading {
            Some(n) => n,
            None => 0,
        },
{
    match reading {
        Some(n) => n,
        None => 0,
    }
}

/// The current time in seconds since the Unix epoch (see [`seconds_of`]).
pub fn now_secs() -> u64 {
    seconds_of(clock_reading())
}

} // verus!
