//! Whether a connector has a monitor: what its probes say, and how long they must say it.

use vstd::prelude::*;

use crate::session::flap;
use crate::session::flap::FlapTracker;
use crate::time;
use crate::time::Instant;

verus! {

/// How long a connector must read absent before its monitor is called removed, in milliseconds.
pub const PRESENCE_REMOVE_MS: i64 = 5000;

/// Settling period after an engagement during which a negative probe is ignored.
pub const PRESENCE_GRACE_MS: i64 = 10_000;

/// Pause between engagements of one connector.
pub const REENGAGE_RETRY_MS: i64 = 4000;

/// Engagements spent on a connector that has never had a monitor, against its probe.
pub const BLIND_ENGAGE_ATTEMPTS: u8 = 10;

/// Consecutive positive probes that announce an arrival.
pub const ARRIVAL_PROBES: u8 = 2;

/// What is known of one connector.
#[derive(Clone, Copy, Debug)]
pub struct Socket {
    /// Whether it is driven as having a monitor.
    pub known: bool,
    /// Whether it ever was in this session.
    pub ever_known: bool,
    /// The probe's last verdict that counts.
    pub probed: Option<bool>,
    /// Engagements against the probe that are left.
    pub blind_left: u8,
    /// Consecutive probes that announce an arrival so far.
    pub debounce: u8,
    /// Since when its probes have been negative.
    pub absent_since: Option<Instant>,
    /// When it may be engaged next.
    pub next_reengage: Instant,
    /// How its sink has flapped.
    pub flap: FlapTracker,
    /// Until when a negative probe is ignored.
    pub grace: Instant,
}

/// What a probe's answer leads to.
#[derive(Clone, Copy, Debug, PartialEq, Eq, Structural)]
pub enum Verdict {
    /// Nothing.
    Stay,
    /// The connector is dropped.
    Drop,
    /// The connector is engaged.
    Engage,
}

/// A connector at the start of the upkeep.
pub open spec fn socket_at(known: bool, now: Instant) -> Socket {
    Socket {
        known,
        ever_known: known,
        probed: None,
        blind_left: BLIND_ENGAGE_ATTEMPTS,
        debounce: 0,
        absent_since: None,
        next_reengage: now,
        flap: flap::fresh(),
        grace: now,
    }
}

/// A connector whose run of negative probes includes one at `now`.
pub open spec fn absent_from(s: Socket, now: Instant) -> Socket {
    Socket {
        absent_since: if s.absent_since is Some {
            s.absent_since
        } else {
            Some(now)
        },
        ..s
    }
}

/// Whether a run of negative probes that includes one at `now` has lasted long enough.
pub open spec fn sustained(s: Socket, now: Instant) -> bool {
    match s.absent_since {
        Some(since) => time::millis_between(now, since) >= PRESENCE_REMOVE_MS,
        None => false,
    }
}

/// A connector after a negative answer during recovery. Only a connector that had a monitor
/// stands down, and only once the answer has been sustained.
pub open spec fn doubted(s: Socket, now: Instant) -> Socket {
    if s.ever_known {
        let t = absent_from(s, now);
        if sustained(t, now) {
            Socket { probed: Some(false), ..t }
        } else {
            t
        }
    } else {
        s
    }
}

/// Whether a connector whose probe is negative is engaged all the same: it never had a monitor,
/// nothing on the dock is lit, no handler is taken from another connector, and attempts are left.
pub open spec fn engages_blindly(s: Socket, nothing_lit: bool, shared_handler: bool) -> bool {
    !shared_handler && !s.ever_known && nothing_lit && s.blind_left > 0
}

/// A connector after its recovery probe, and whether it is engaged.
pub open spec fn recovered(
    s: Socket,
    answer: Option<bool>,
    nothing_lit: bool,
    shared_handler: bool,
    now: Instant,
) -> (Socket, bool) {
    if answer == Some(false) {
        let t = doubted(s, now);
        if engages_blindly(t, nothing_lit, shared_handler) {
            (Socket { blind_left: (t.blind_left - 1) as u8, absent_since: None, ..t }, true)
        } else {
            (t, false)
        }
    } else {
        (Socket { absent_since: None, ..s }, true)
    }
}

/// What a probe's answer says beyond doubt: a positive one at once, a negative one once it has
/// been sustained by a connector that had a monitor.
pub open spec fn noted(s: Socket, present: bool, now: Instant) -> Socket {
    if present {
        Socket { probed: Some(true), ..s }
    } else {
        doubted(s, now)
    }
}

/// A connector that is taken away so that it is driven anew.
pub open spec fn dropped(s: Socket, now: Instant) -> Socket {
    Socket {
        known: false,
        debounce: 0,
        absent_since: None,
        next_reengage: time::later_by(now, REENGAGE_RETRY_MS as int),
        ..s
    }
}

/// A connector whose probe agrees with what is known. A positive answer after negative ones is a
/// flap that healed: absorbed, or the one to repair on.
pub open spec fn agreed(s: Socket, present: bool, now: Instant) -> (Socket, Verdict) {
    if present && s.absent_since is Some {
        let t = Socket {
            debounce: 0,
            absent_since: None,
            flap: flap::after_flap(s.flap, now),
            ..s
        };
        if flap::repairs_on(s.flap, now) {
            (dropped(t, now), Verdict::Drop)
        } else {
            (t, Verdict::Stay)
        }
    } else {
        (Socket { debounce: 0, ..s }, Verdict::Stay)
    }
}

/// A connector whose probe finds a monitor it is not known to have: two answers in a row, and it
/// is engaged as soon as its pause is over.
pub open spec fn arriving(s: Socket, now: Instant) -> (Socket, Verdict) {
    let seen = if s.debounce == 255 {
        255
    } else {
        s.debounce + 1
    };
    if seen < ARRIVAL_PROBES {
        (Socket { absent_since: None, debounce: seen as u8, ..s }, Verdict::Stay)
    } else {
        (
            Socket { absent_since: None, debounce: 0, ..s },
            if time::millis_between(now, s.next_reengage) < 0 {
                Verdict::Stay
            } else {
                Verdict::Engage
            },
        )
    }
}

/// A connector whose probe misses the monitor it is known to have: ignored while it settles,
/// else dropped once the absence has been sustained.
pub open spec fn leaving(s: Socket, now: Instant) -> (Socket, Verdict) {
    if time::millis_between(now, s.grace) < 0 {
        (Socket { debounce: 0, absent_since: None, ..s }, Verdict::Stay)
    } else {
        let t = absent_from(s, now);
        if sustained(t, now) {
            (dropped(t, now), Verdict::Drop)
        } else {
            (t, Verdict::Stay)
        }
    }
}

/// A connector after a presence probe, and what it leads to.
pub open spec fn looked_at(s: Socket, present: bool, blanked: bool, now: Instant) -> (
    Socket,
    Verdict,
) {
    if blanked {
        (Socket { debounce: 0, absent_since: None, ..s }, Verdict::Stay)
    } else {
        let t = noted(s, present, now);
        if present == t.known {
            agreed(t, present, now)
        } else if present {
            arriving(t, now)
        } else {
            leaving(t, now)
        }
    }
}

/// A connector that has been engaged and answered with an EDID.
pub open spec fn engaged(s: Socket, now: Instant) -> Socket {
    Socket {
        known: true,
        ever_known: true,
        debounce: 0,
        grace: time::later_by(now, PRESENCE_GRACE_MS as int),
        ..s
    }
}

/// A connector that has been announced after a probe.
pub open spec fn connected(s: Socket, now: Instant) -> Socket {
    Socket {
        known: true,
        ever_known: true,
        flap: flap::fresh(),
        next_reengage: time::later_by(now, REENGAGE_RETRY_MS as int),
        grace: time::later_by(now, PRESENCE_GRACE_MS as int),
        ..s
    }
}

impl Socket {
    /// A connector at the start of the upkeep.
    pub fn new(known: bool, now: Instant) -> (s: Socket)
        ensures
            s == socket_at(known, now),
    {
        Socket {
            known,
            ever_known: known,
            probed: None,
            blind_left: BLIND_ENGAGE_ATTEMPTS,
            debounce: 0,
            absent_since: None,
            next_reengage: now,
            flap: FlapTracker::new(),
            grace: now,
        }
    }

    /// Extend the run of negative probes, and say whether it has lasted long enough.
    fn sustained_absent(&mut self, now: Instant) -> (b: bool)
        ensures
            *final(self) == absent_from(*old(self), now),
            b == sustained(absent_from(*old(self), now), now),
    {
        let since = match self.absent_since {
            Some(since) => since,
            None => now,
        };
        self.absent_since = Some(since);
        now.millis_since(since) >= PRESENCE_REMOVE_MS
    }

    /// Take up a negative answer.
    fn doubt(&mut self, now: Instant)
        ensures
            *final(self) == doubted(*old(self), now),
    {
        if self.ever_known {
            if self.sustained_absent(now) {
                self.probed = Some(false);
            }
        }
    }

    /// Take up the answer to a recovery probe, and say whether to engage the connector.
    pub fn recover(
        &mut self,
        answer: Option<bool>,
        nothing_lit: bool,
        shared_handler: bool,
        now: Instant,
    ) -> (engage: bool)
        ensures
            (*final(self), engage) == recovered(
                *old(self),
                answer,
                nothing_lit,
                shared_handler,
                now,
            ),
    {
        let negative = match answer {
            Some(present) => !present,
            None => false,
        };
        if negative {
            self.doubt(now);
            if shared_handler {
                return false;
            }
            if self.ever_known || !nothing_lit || self.blind_left == 0 {
                return false;
            }
            self.blind_left = self.blind_left - 1;
        }
        self.absent_since = None;
        true
    }

    /// Take the connector away so that it is driven anew.
    fn drop_it(&mut self, now: Instant)
        requires
            time::has_room(now, REENGAGE_RETRY_MS as int),
        ensures
            *final(self) == dropped(*old(self), now),
    {
        self.known = false;
        self.debounce = 0;
        self.absent_since = None;
        self.next_reengage = now.plus_millis(REENGAGE_RETRY_MS);
    }

    /// Take up the answer to a presence probe, and say what it leads to. `blanked` says that the
    /// connector was blanked on purpose, so that the answer is no news.
    pub fn look(&mut self, present: bool, blanked: bool, now: Instant) -> (v: Verdict)
        requires
            time::has_room(now, REENGAGE_RETRY_MS as int),
            old(self).flap.seen < u32::MAX,
        ensures
            (*final(self), v) == looked_at(*old(self), present, blanked, now),
    {
        if blanked {
            self.debounce = 0;
            self.absent_since = None;
            return Verdict::Stay;
        }
        if present {
            self.probed = Some(true);
        } else {
            self.doubt(now);
        }
        if present == self.known {
            self.debounce = 0;
            if present && self.absent_since.is_some() {
                self.absent_since = None;
                let mut f = self.flap;
                let repair = f.healed(now);
                self.flap = f;
                if repair {
                    self.drop_it(now);
                    return Verdict::Drop;
                }
            }
            return Verdict::Stay;
        }
        if present {
            self.absent_since = None;
            let seen: u8 = if self.debounce == 255 {
                255
            } else {
                self.debounce + 1
            };
            self.debounce = seen;
            if seen < ARRIVAL_PROBES {
                return Verdict::Stay;
            }
            self.debounce = 0;
            if now.millis_since(self.next_reengage) < 0 {
                Verdict::Stay
            } else {
                Verdict::Engage
            }
        } else {
            if now.millis_since(self.grace) < 0 {
                self.debounce = 0;
                self.absent_since = None;
                return Verdict::Stay;
            }
            if !self.sustained_absent(now) {
                return Verdict::Stay;
            }
            self.drop_it(now);
            Verdict::Drop
        }
    }

    /// Take up an engagement that brought an EDID.
    pub fn engage(&mut self, now: Instant)
        requires
            time::has_room(now, PRESENCE_GRACE_MS as int),
        ensures
            *final(self) == engaged(*old(self), now),
    {
        self.known = true;
        self.ever_known = true;
        self.debounce = 0;
        self.grace = now.plus_millis(PRESENCE_GRACE_MS);
    }

    /// Announce the connector after a probe.
    pub fn connect(&mut self, now: Instant)
        requires
            time::has_room(now, PRESENCE_GRACE_MS as int),
            time::has_room(now, REENGAGE_RETRY_MS as int),
        ensures
            *final(self) == connected(*old(self), now),
    {
        self.known = true;
        self.ever_known = true;
        self.flap = FlapTracker::new();
        self.next_reengage = now.plus_millis(REENGAGE_RETRY_MS);
        self.grace = now.plus_millis(PRESENCE_GRACE_MS);
    }
}

/// A connector is dropped only where it is driven and either its probe has been negative for the
/// whole removal period outside its grace, or its sink keeps flapping and a repair is left.
pub proof fn law_drops_need_evidence(s: Socket, present: bool, blanked: bool, now: Instant)
    requires
        looked_at(s, present, blanked, now).1 == Verdict::Drop,
    ensures
        s.known,
        !blanked,
        !looked_at(s, present, blanked, now).0.known,
        present ==> s.absent_since is Some && flap::repairs_on(s.flap, now),
        !present ==> s.absent_since is Some && time::millis_between(now, s.absent_since->0)
            >= PRESENCE_REMOVE_MS && time::millis_between(now, s.grace) >= 0,
{
}

/// A connector is engaged by a probe only where it is not driven, this and the last probe found
/// a monitor, and its pause is over.
pub proof fn law_arrivals_are_debounced(s: Socket, present: bool, blanked: bool, now: Instant)
    requires
        looked_at(s, present, blanked, now).1 == Verdict::Engage,
    ensures
        !s.known,
        present,
        !blanked,
        s.debounce >= 1,
        time::millis_between(now, s.next_reengage) >= 0,
{
}

/// Nothing a probe says of a connector that was blanked on purpose changes what is driven.
pub proof fn law_blanked_connectors_are_left_alone(s: Socket, present: bool, now: Instant)
    ensures
        looked_at(s, present, true, now).1 == Verdict::Stay,
        looked_at(s, present, true, now).0.known == s.known,
        looked_at(s, present, true, now).0.flap == s.flap,
{
}

/// A connector that never had a monitor is never stood down, and each engagement against its
/// probe uses up one of its attempts.
pub proof fn law_unseen_connectors_keep_being_asked(
    s: Socket,
    answer: Option<bool>,
    nothing_lit: bool,
    shared_handler: bool,
    now: Instant,
)
    requires
        !s.ever_known,
    ensures
        recovered(s, answer, nothing_lit, shared_handler, now).0.probed == s.probed,
        answer == Some(false) && recovered(s, answer, nothing_lit, shared_handler, now).1
            ==> recovered(s, answer, nothing_lit, shared_handler, now).0.blind_left == s.blind_left
            - 1 && nothing_lit,
        answer == Some(false) && s.blind_left == 0 ==> !recovered(
            s,
            answer,
            nothing_lit,
            shared_handler,
            now,
        ).1,
{
}

/// A monitor that is gone is let go: a connector that is driven and has read absent for five seconds
/// on end, outside its grace, is dropped by the probe that says so, and may be engaged again after
/// four seconds.
pub proof fn law_sustained_absence_drops(s: Socket, since: Instant, now: Instant)
    requires
        s.known,
        s.absent_since == Some(since),
        now.nanos - since.nanos >= 5_000_000_000,
        now.nanos >= s.grace.nanos,
        time::has_room(now, 4000),
    ensures
        looked_at(s, false, false, now).1 == Verdict::Drop,
        !looked_at(s, false, false, now).0.known,
        looked_at(s, false, false, now).0.next_reengage.nanos == now.nanos + 4_000_000_000,
        looked_at(s, false, false, now).0.absent_since is None,
{
}

/// A shorter absence is waited out: it is noted from its first probe on, and neither that nor a
/// later one within five seconds drops the connector.
pub proof fn law_short_absences_are_waited_out(s: Socket, now: Instant)
    requires
        s.known,
        s.ever_known,
        s.absent_since matches Some(since) ==> now.nanos - since.nanos < 5_000_000_000,
    ensures
        ({
            let (t, verdict) = looked_at(s, false, false, now);
            &&& verdict == Verdict::Stay
            &&& t.known
            &&& now.nanos >= s.grace.nanos ==> t.absent_since == (if s.absent_since is Some {
                s.absent_since
            } else {
                Some(now)
            })
            &&& s.grace.nanos - now.nanos >= 1_000_000 ==> t.absent_since is None
        }),
{
}

/// A monitor that is plugged in is engaged: the second probe in a row that finds it leads there, as
/// soon as the connector's pause is over; the first is noted.
pub proof fn law_arrivals_are_engaged(s: Socket, now: Instant)
    requires
        !s.known,
    ensures
        s.debounce >= 1 && now.nanos >= s.next_reengage.nanos ==> looked_at(
            s,
            true,
            false,
            now,
        ).1 == Verdict::Engage,
        s.debounce == 0 ==> looked_at(s, true, false, now).1 == Verdict::Stay && looked_at(
            s,
            true,
            false,
            now,
        ).0.debounce == 1,
        looked_at(s, true, false, now).0.absent_since is None,
        looked_at(s, true, false, now).0.probed == Some(true),
        looked_at(s, false, false, now).0.debounce == 0,
        looked_at(s, false, false, now).1 == Verdict::Stay,
{
}

/// A monitor that stays where it is changes nothing: its connector goes on being driven, and a run
/// of absent probes that ends before its time is a flap.
pub proof fn law_steady_monitors_stay(s: Socket, now: Instant)
    requires
        s.known,
    ensures
        s.absent_since is None ==> {
            let (t, verdict) = looked_at(s, true, false, now);
            verdict == Verdict::Stay && t.known && t.flap == s.flap
        },
        s.absent_since is Some ==> {
            let (t, verdict) = looked_at(s, true, false, now);
            &&& verdict == Verdict::Drop <==> flap::repairs_on(s.flap, now)
            &&& t.flap == flap::after_flap(s.flap, now)
            &&& t.absent_since is None
        },
{
}

/// A connector that is announced is driven, has ten seconds of grace, and starts with no flaps; one
/// that is engaged during recovery keeps its flaps.
pub proof fn law_announced_connectors_have_grace(s: Socket, now: Instant)
    requires
        time::has_room(now, 10_000),
    ensures
        connected(s, now).known && connected(s, now).ever_known,
        connected(s, now).grace.nanos == now.nanos + 10_000_000_000,
        connected(s, now).next_reengage.nanos == now.nanos + 4_000_000_000,
        connected(s, now).flap.seen == 0 && connected(s, now).flap.repairs == 0,
        engaged(s, now).known && engaged(s, now).ever_known,
        engaged(s, now).grace.nanos == now.nanos + 10_000_000_000,
        engaged(s, now).flap == s.flap,
{
}

/// What recovery makes of a probe: anything but a definite no has the connector engaged and ends
/// its run of absences. A connector that had a monitor stands down once it has read absent for five
/// seconds on end.
pub proof fn law_recovery_follows_the_probe(
    s: Socket,
    answer: Option<bool>,
    nothing_lit: bool,
    shared_handler: bool,
    now: Instant,
)
    ensures
        ({
            let (t, engage) = recovered(s, answer, nothing_lit, shared_handler, now);
            &&& answer != Some(false) ==> engage && t.absent_since is None && t.probed == s.probed
            &&& answer == Some(false) && s.ever_known ==> !engage && (t.probed == Some(false)
                <==> s.probed == Some(false) || (s.absent_since matches Some(since) && now.nanos
                - since.nanos >= 5_000_000_000))
            &&& answer == Some(false) && !s.ever_known ==> (engage <==> nothing_lit
                && !shared_handler && s.blind_left > 0)
            &&& t.known == s.known
        }),
{
}

/// A connector starts as it was found, with ten engagements against its probe to spend.
pub proof fn law_connectors_start_as_found(known: bool, now: Instant)
    ensures
        socket_at(known, now).known == known,
        socket_at(known, now).ever_known == known,
        socket_at(known, now).blind_left == 10,
        socket_at(known, now).probed is None,
        socket_at(known, now).absent_since is None,
        socket_at(known, now).debounce == 0,
{
}

/// A connector that was engaged starts over: what was counted of earlier arrivals is forgotten, and
/// what is known of its absence stays.
pub proof fn law_engaged_connectors_start_over(s: Socket, now: Instant)
    ensures
        engaged(s, now).debounce == 0,
        engaged(s, now).absent_since == s.absent_since,
        engaged(s, now).probed == s.probed,
        engaged(s, now).next_reengage == s.next_reengage,
        engaged(s, now).blind_left == s.blind_left,
        connected(s, now).absent_since == s.absent_since,
        connected(s, now).probed == s.probed,
        connected(s, now).debounce == s.debounce,
        connected(s, now).blind_left == s.blind_left,
{
}

/// A connector that this side blanked is left as it is: nothing is made of what it reads, and what
/// was counted of it before is forgotten.
pub proof fn law_blanking_forgets_what_was_counted(s: Socket, present: bool, now: Instant)
    ensures
        ({
            let (t, verdict) = looked_at(s, present, true, now);
            &&& verdict is Stay
            &&& t.debounce == 0
            &&& t.absent_since is None
            &&& t.known == s.known && t.ever_known == s.ever_known && t.probed == s.probed
            &&& t.flap == s.flap && t.grace == s.grace && t.next_reengage == s.next_reengage
            &&& t.blind_left == s.blind_left
        }),
{
}

} // verus!
