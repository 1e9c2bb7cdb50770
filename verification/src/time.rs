//! Instants of the monotonic clock, and the busy-wait that trims a sleep.

use vstd::prelude::*;

use crate::haar::quant;

verus! {

/// Nanoseconds in a millisecond.
pub const NANOS_PER_MILLI: i64 = 1_000_000;

/// A reading of the monotonic clock.
#[derive(Clone, Copy, Debug, PartialEq, Eq, Structural)]
pub struct Instant {
    /// Nanoseconds since the clock's origin.
    pub nanos: i64,
}

/// Whole milliseconds from `earlier` to `later`, cut off towards zero.
pub open spec fn millis_between(later: Instant, earlier: Instant) -> int {
    quant::truncated(later.nanos - earlier.nanos, NANOS_PER_MILLI as int)
}

/// The instant `ms` milliseconds after `t`.
pub open spec fn later_by(t: Instant, ms: int) -> Instant {
    Instant { nanos: (t.nanos + ms * NANOS_PER_MILLI) as i64 }
}

/// Whether the clock can still name the instant `ms` milliseconds after `t`.
pub open spec fn has_room(t: Instant, ms: int) -> bool {
    i64::MIN <= t.nanos + ms * NANOS_PER_MILLI <= i64::MAX
}

impl Instant {
    /// Whole milliseconds since `earlier`; negative where `earlier` lies ahead.
    pub fn millis_since(self, earlier: Instant) -> (ms: i64)
        ensures
            ms == millis_between(self, earlier),
    {
        if self.nanos < earlier.nanos {
            let gap: i128 = earlier.nanos as i128 - self.nanos as i128;
            -((gap / 1_000_000) as i64)
        } else {
            let gap: i128 = self.nanos as i128 - earlier.nanos as i128;
            (gap / 1_000_000) as i64
        }
    }

    /// Whether fewer than `ms` milliseconds have passed since `earlier`.
    pub fn is_within(self, earlier: Instant, ms: i64) -> (b: bool)
        ensures
            b == (self.nanos - earlier.nanos < ms * NANOS_PER_MILLI),
    {
        (self.nanos as i128 - earlier.nanos as i128) < ms as i128 * 1_000_000
    }

    /// Whether more than `ms` milliseconds have passed since `earlier`.
    pub fn is_beyond(self, earlier: Instant, ms: i64) -> (b: bool)
        ensures
            b == (self.nanos - earlier.nanos > ms * NANOS_PER_MILLI),
    {
        (self.nanos as i128 - earlier.nanos as i128) > ms as i128 * 1_000_000
    }

    /// The instant `ms` milliseconds later.
    pub fn plus_millis(self, ms: i64) -> (t: Instant)
        requires
            has_room(self, ms as int),
        ensures
            t == later_by(self, ms as int),
    {
        Instant { nanos: (self.nanos as i128 + ms as i128 * 1_000_000) as i64 }
    }
}

/// Margin of a hold that is spent spinning rather than sleeping, in microseconds.
pub const SPIN_MARGIN_US: i64 = 400;

/// How much of a hold to sleep through, `now_us` after its start: all but the margin, and
/// nothing where no more than the margin is left.
pub fn hold_sleep(now_us: i64, target_us: i64) -> (us: Option<i64>)
    requires
        now_us >= 0,
    ensures
        us == (if target_us - now_us > SPIN_MARGIN_US {
            Some((target_us - now_us - SPIN_MARGIN_US) as i64)
        } else {
            None
        }),
{
    if now_us >= target_us {
        return None;
    }
    if target_us - now_us > SPIN_MARGIN_US {
        Some(target_us - now_us - SPIN_MARGIN_US)
    } else {
        None
    }
}

/// How long to spin at the end of a hold: whatever is left of it.
pub fn hold_spin(now_us: i64, target_us: i64) -> (us: Option<i64>)
    requires
        now_us >= 0,
    ensures
        us == (if now_us < target_us {
            Some((target_us - now_us) as i64)
        } else {
            None
        }),
{
    if now_us < target_us {
        Some(target_us - now_us)
    } else {
        None
    }
}

/// A hold that sleeps at least what it asks for spins for no longer than the margin.
pub proof fn law_spin_stays_within_the_margin(start: i64, woke: i64, target: i64)
    requires
        0 <= start <= woke,
        target - start > SPIN_MARGIN_US ==> woke - start >= target - start - SPIN_MARGIN_US,
    ensures
        target - woke <= SPIN_MARGIN_US,
{
}

/// So many milliseconds later, so many milliseconds have passed.
pub proof fn law_milliseconds_pass(t: Instant, ms: int)
    requires
        has_room(t, ms),
    ensures
        millis_between(later_by(t, ms), t) == ms,
        later_by(t, ms).nanos == t.nanos + 1_000_000 * ms,
{
}

/// What has passed is counted in whole milliseconds, of a million nanoseconds each.
pub proof fn law_passed_milliseconds_are_whole(later: Instant, earlier: Instant)
    requires
        earlier.nanos <= later.nanos,
    ensures
        1_000_000 * millis_between(later, earlier) <= later.nanos - earlier.nanos,
        later.nanos - earlier.nanos < 1_000_000 * (millis_between(later, earlier) + 1),
        millis_between(earlier, later) == -millis_between(later, earlier),
{
}

} // verus!
