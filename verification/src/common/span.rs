//! Elapsed time.
use vstd::prelude::*;

use crate::reading::{
    naturals_are_finite, naturals_divide, nothing_is_zero, readings_add_up_to_more,
    small_naturals_add_up, small_naturals_read_back, Reading, STEP,
};

verus! {

/// Nanoseconds in a second.
pub const NANOS: u64 = 1_000_000_000;

/// A time span: whole seconds and the nanoseconds beyond them.
#[derive(Clone, Copy, Debug, PartialEq, Eq, Structural)]
pub struct Span {
    pub secs: u64,
    pub nanos: u32,
}

impl Span {
    /// The span in seconds: the two parts, each rounded, added.
    pub open spec fn in_seconds(self) -> Reading {
        Reading::of_natural(self.secs as nat).sum(
            Reading::of_natural(self.nanos as nat).quotient(Reading::of_natural(NANOS as nat)),
        )
    }

    pub fn seconds(self) -> (r: Reading)
        ensures
            r == self.in_seconds(),
    {
        Reading::from_u64(self.secs).plus(
            Reading::from_u64(self.nanos as u64).over(Reading::from_u64(NANOS)),
        )
    }

    /// The span from `then` to `now`, both in nanoseconds on one clock; empty
    /// when the clock went backwards.
    pub open spec fn spanning(then: u64, now: u64) -> Span {
        let d = if now >= then {
            (now - then) as u64
        } else {
            0
        };
        Span { secs: d / NANOS, nanos: (d % NANOS) as u32 }
    }

    pub fn between(then: u64, now: u64) -> (r: Span)
        ensures
            r == Span::spanning(then, now),
    {
        let d: u64 = now.saturating_sub(then);
        Span { secs: d / NANOS, nanos: (d % NANOS) as u32 }
    }
}

/// A clock that moved on measures a positive number of seconds, and a whole
/// number of seconds exactly.
pub proof fn time_that_passed_is_positive(then: u64, now: u64)
    requires
        now > then,
    ensures
        ({
            let seconds = Span::spanning(then, now).in_seconds();
            &&& seconds.finite() && !seconds.negative() && !seconds.zero()
            &&& !(Reading { bits: 0 }).at_least(seconds)
            &&& (now - then) % 1_000_000_000 == 0 ==> seconds == Reading::of_natural(
                ((now - then) / 1_000_000_000) as nat,
            )
        }),
{
    let d = (now - then) as u64;
    let span = Span::spanning(then, now);
    let (s, n) = (span.secs as nat, span.nanos as nat);
    assert(s < 2 * STEP && n < 1_000_000_000) by {
        assert(d / NANOS <= 18_446_744_073);
    }
    naturals_divide(n, NANOS as nat);
    naturals_are_finite(s);
    small_naturals_read_back(s, s);
    let part = Reading::of_natural(n).quotient(Reading::of_natural(NANOS as nat));
    if n == 0 {
        small_naturals_add_up(s, 0);
    }
    readings_add_up_to_more(Reading::of_natural(s), part, s);
}

/// Where no time passed, or the clock went back, no seconds did.
pub proof fn no_time_is_no_seconds(then: u64, now: u64)
    requires
        now <= then,
    ensures
        (Reading { bits: 0 }).at_least(Span::spanning(then, now).in_seconds()),
{
    naturals_divide(0, NANOS as nat);
    small_naturals_add_up(0, 0);
    naturals_are_finite(0);
    small_naturals_read_back(0, 0);
    nothing_is_zero();
}

} // verus!
