//! The shell's clock. Times are nanoseconds since some moment before the shell started; whoever
//! calls into the library reads the clock and says what it showed.
use vstd::prelude::*;

verus! {

/// One second on the clock.
pub const SECOND: u64 = 1_000_000_000;

/// How long after `then` it is at `now`. A clock that reads earlier counts as no time at all.
pub open spec fn since(now: int, then: int) -> int {
    if now >= then {
        now - then
    } else {
        0
    }
}

pub fn elapsed(now: u64, then: u64) -> (r: u64)
    ensures
        r == since(now as int, then as int),
{
    if now >= then {
        now - then
    } else {
        0
    }
}

} // verus!
