//! How often a connector's sink has flapped, and how often that was answered with a repair.

use vstd::prelude::*;

use crate::time;
use crate::time::Instant;

verus! {

/// Flaps within the window after which a sink is repaired rather than absorbed.
pub const REPAIR_COUNT: u32 = 3;

/// The window, in milliseconds.
pub const WINDOW_MS: i64 = 60_000;

/// Repairs one connector may take before it is left alone.
pub const REPAIR_LIMIT: u32 = 3;

/// The flaps of one connector's sink.
///
/// A sink that drops and returns within a second or two heals on its own, and a repair costs a
/// dock-wide re-activation, so a single flap is absorbed. One that keeps flapping is repaired, a
/// bounded number of times.
#[derive(Clone, Copy, Debug, PartialEq, Eq, Structural)]
pub struct FlapTracker {
    /// Flaps since the window opened.
    pub seen: u32,
    /// When the window opened.
    pub since: Option<Instant>,
    /// Repairs asked for.
    pub repairs: u32,
}

/// A tracker that has seen nothing.
pub open spec fn fresh() -> FlapTracker {
    FlapTracker { seen: 0, since: None, repairs: 0 }
}

/// Whether a tracker's window is over at `now`, or was never open.
pub open spec fn window_over(t: FlapTracker, now: Instant) -> bool {
    match t.since {
        None => true,
        Some(since) => time::millis_between(now, since) >= WINDOW_MS,
    }
}

/// Flaps in the window that holds `now`, this one among them.
pub open spec fn seen_at(t: FlapTracker, now: Instant) -> int {
    if window_over(t, now) {
        1
    } else {
        t.seen + 1
    }
}

/// Whether a flap at `now` is the one to repair on.
pub open spec fn repairs_on(t: FlapTracker, now: Instant) -> bool {
    seen_at(t, now) >= REPAIR_COUNT && t.repairs < REPAIR_LIMIT
}

/// A tracker after a flap at `now`.
pub open spec fn after_flap(t: FlapTracker, now: Instant) -> FlapTracker {
    if repairs_on(t, now) {
        FlapTracker { seen: 0, since: None, repairs: (t.repairs + 1) as u32 }
    } else {
        FlapTracker {
            seen: seen_at(t, now) as u32,
            since: if window_over(t, now) {
                Some(now)
            } else {
                t.since
            },
            repairs: t.repairs,
        }
    }
}

impl FlapTracker {
    /// A tracker that has seen nothing.
    pub fn new() -> (t: FlapTracker)
        ensures
            t == fresh(),
    {
        FlapTracker { seen: 0, since: None, repairs: 0 }
    }

    /// Record a flap that healed on its own, and say whether this is the one to repair on.
    pub fn healed(&mut self, now: Instant) -> (repair: bool)
        requires
            old(self).seen < u32::MAX,
        ensures
            repair == repairs_on(*old(self), now),
            *final(self) == after_flap(*old(self), now),
    {
        let over = match self.since {
            None => true,
            Some(since) => now.millis_since(since) >= WINDOW_MS,
        };
        if over {
            self.since = Some(now);
            self.seen = 0;
        }
        self.seen = self.seen + 1;
        if self.seen < REPAIR_COUNT || self.repairs >= REPAIR_LIMIT {
            return false;
        }
        self.seen = 0;
        self.since = None;
        self.repairs = self.repairs + 1;
        true
    }
}

/// A tracker after a run of flaps.
pub open spec fn after_flaps(t: FlapTracker, at: Seq<Instant>) -> FlapTracker
    decreases at.len(),
{
    if at.len() == 0 {
        t
    } else {
        after_flap(after_flaps(t, at.drop_last()), at.last())
    }
}

/// Repairs a run of flaps asks for.
pub open spec fn repairs_asked(t: FlapTracker, at: Seq<Instant>) -> int
    decreases at.len(),
{
    if at.len() == 0 {
        0
    } else {
        repairs_asked(t, at.drop_last()) + if repairs_on(
            after_flaps(t, at.drop_last()),
            at.last(),
        ) {
            1int
        } else {
            0int
        }
    }
}

/// However long the flapping goes on, a connector asks for no more repairs than its limit.
pub proof fn law_repairs_are_bounded(at: Seq<Instant>)
    ensures
        repairs_asked(fresh(), at) == after_flaps(fresh(), at).repairs,
        repairs_asked(fresh(), at) <= REPAIR_LIMIT,
    decreases at.len(),
{
    if at.len() > 0 {
        law_repairs_are_bounded(at.drop_last());
    }
}

/// Flaps that lie at least a window apart never add up, however many there are.
pub proof fn law_sparse_flaps_are_absorbed(at: Seq<Instant>)
    requires
        forall|i: int|
            0 < i < at.len() ==> time::millis_between(#[trigger] at[i], at[i - 1]) >= WINDOW_MS,
    ensures
        repairs_asked(fresh(), at) == 0,
        at.len() > 0 ==> after_flaps(fresh(), at) == (FlapTracker {
            seen: 1,
            since: Some(at.last()),
            repairs: 0,
        }),
    decreases at.len(),
{
    if at.len() > 0 {
        let rest = at.drop_last();
        assert forall|i: int| 0 < i < rest.len() implies time::millis_between(
            #[trigger] rest[i],
            rest[i - 1],
        ) >= WINDOW_MS by {
            assert(rest[i] == at[i]);
            assert(rest[i - 1] == at[i - 1]);
        }
        law_sparse_flaps_are_absorbed(rest);
        if rest.len() > 0 {
            assert(rest.last() == at[at.len() - 2]);
            assert(time::millis_between(at[at.len() - 1], at[at.len() - 2]) >= WINDOW_MS);
        }
    }
}

/// A sink that will not settle is repaired: from a fresh tracker, the third flap within a window
/// asks for the repair, and the first two do not.
pub proof fn law_sustained_flapping_is_repaired(a: Instant, b: Instant, c: Instant)
    requires
        time::millis_between(b, a) < WINDOW_MS,
        time::millis_between(c, a) < WINDOW_MS,
    ensures
        !repairs_on(fresh(), a),
        !repairs_on(after_flap(fresh(), a), b),
        repairs_on(after_flap(after_flap(fresh(), a), b), c),
        after_flap(after_flap(after_flap(fresh(), a), b), c) == (FlapTracker {
            repairs: 1,
            ..fresh()
        }),
{
}

/// When a flap is answered with a repair: exactly where it is the third or later within a minute of
/// the one that opened the window, and fewer than three repairs have been asked for. A repair starts
/// the count afresh; any other flap is counted, in its window or in a new one.
pub proof fn law_the_third_flap_of_a_minute_is_repaired(
    t: FlapTracker,
    since: Instant,
    now: Instant,
)
    requires
        t.since == Some(since),
        t.seen < u32::MAX,
    ensures
        ({
            let within = now.nanos - since.nanos < 60_000_000_000;
            let u = after_flap(t, now);
            &&& repairs_on(t, now) <==> within && t.seen >= 2 && t.repairs < 3
            &&& repairs_on(t, now) ==> u.repairs == t.repairs + 1 && u.seen == 0 && u.since is None
            &&& !repairs_on(t, now) ==> u.repairs == t.repairs
            &&& !repairs_on(t, now) && within ==> u.seen == t.seen + 1 && u.since == t.since
            &&& !within ==> u.seen == 1 && u.since == Some(now)
        }),
{
}

/// A flap of a tracker without a window opens one.
pub proof fn law_the_first_flap_opens_a_window(t: FlapTracker, now: Instant)
    requires
        t.since is None,
    ensures
        !repairs_on(t, now),
        after_flap(t, now) == (FlapTracker { seen: 1, since: Some(now), repairs: t.repairs }),
{
}

} // verus!
