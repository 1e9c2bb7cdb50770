//! What holds of every round of the upkeep.

use vstd::prelude::*;

use crate::session::keepalive;
use crate::session::keepalive::{Action, Event, Facts, Phase};
use crate::session::socket;
use crate::time;
use crate::time::Instant;

verus! {

/// Whether the next thing done is an announcement: at once, or after the link has been readied for
/// the mode set that answers it.
pub open spec fn announces(s: keepalive::State, ev: Event, f: Facts, then: Instant) -> bool {
    ||| keepalive::action_spec(s) == Action::Hotplug
    ||| keepalive::action_spec(s) == Action::HoldForModeset && keepalive::action_spec(
        keepalive::step_spec(s, ev, f, then),
    ) == Action::Hotplug
}

/// An announcement that is due is made: from its deadline on, the next thing done is to announce
/// the arrivals, at once or after the link has been kept quiet for the first mode set.
pub proof fn law_due_announcements_are_made(
    s: keepalive::State,
    ev: Event,
    f: Facts,
    now: Instant,
    done: Event,
    g: Facts,
    then: Instant,
    deadline: Instant,
)
    requires
        s.phase == Phase::Hotplug,
        s.hotplug_due == Some(deadline),
        now.nanos >= deadline.nanos,
    ensures
        announces(keepalive::step_spec(s, ev, f, now), done, g, then),
        keepalive::step_spec(s, ev, f, now).published,
        f.dock_wide_modeset && !s.published <==> keepalive::action_spec(
            keepalive::step_spec(s, ev, f, now),
        ) == Action::HoldForModeset,
{
    reveal(keepalive::step_spec);
}

/// Before its deadline an announcement waits: nothing is announced for it, and it is kept.
pub proof fn law_early_announcements_wait(
    s: keepalive::State,
    ev: Event,
    f: Facts,
    now: Instant,
    deadline: Instant,
)
    requires
        s.phase == Phase::Hotplug,
        s.hotplug_due == Some(deadline),
        deadline.nanos - now.nanos >= 1_000_000,
    ensures
        keepalive::step_spec(s, ev, f, now).hotplug_due == s.hotplug_due,
        keepalive::action_spec(keepalive::step_spec(s, ev, f, now)) == Action::VideoKeepalive,
{
    reveal(keepalive::step_spec);
}

/// No announcement is forgotten: a pending one goes away only for one that is made, be it the
/// arrivals' own or that of a monitor that has just been found gone.
pub proof fn law_announcements_are_not_forgotten(
    s: keepalive::State,
    ev: Event,
    f: Facts,
    now: Instant,
    done: Event,
    g: Facts,
    then: Instant,
)
    requires
        keepalive::sound(s),
        s.hotplug_due is Some,
        keepalive::step_spec(s, ev, f, now).hotplug_due is None,
    ensures
        ({
            let t = keepalive::step_spec(s, ev, f, now);
            ||| announces(t, done, g, then)
            ||| s.phase matches Phase::LookProbe(h) && keepalive::action_spec(t)
                == Action::SetDisconnected(h) && keepalive::action_spec(
                keepalive::step_spec(t, done, g, then),
            ) == Action::Hotplug
        }),
{
    reveal(keepalive::step_spec);
}

/// The upkeep announces nothing without cause: an announcement follows a pending one that was due,
/// or a monitor that was recorded as gone.
pub proof fn law_announcements_have_a_cause(
    s: keepalive::State,
    ev: Event,
    f: Facts,
    now: Instant,
)
    requires
        keepalive::action_spec(keepalive::step_spec(s, ev, f, now)) == Action::Hotplug,
    ensures
        (s.phase == Phase::Hotplug && s.hotplug_due is Some) || keepalive::action_spec(s)
            == Action::HoldForModeset || keepalive::action_spec(s) is SetDisconnected,
{
    reveal(keepalive::step_spec);
}

/// A monitor that answers an engagement during recovery is recorded at once and its announcement
/// is pending, a second and a half ahead.
pub proof fn law_recovered_monitors_are_announced(
    s: keepalive::State,
    h: usize,
    f: Facts,
    now: Instant,
)
    requires
        keepalive::sound(s),
        s.phase == Phase::RecoverEngage(h),
        time::has_room(now, keepalive::HORIZON_MS as int),
    ensures
        ({
            let t = keepalive::step_spec(s, Event::Present, f, now);
            &&& t.sockets[h as int].known
            &&& keepalive::action_spec(t) == Action::SetConnected(h)
            &&& t.hotplug_due matches Some(due) && due.nanos == now.nanos + 1_500_000_000
        }),
{
    reveal(keepalive::step_spec);
}

/// A monitor that was plugged in and answers its engagement is recorded, known, and once its link
/// has settled its announcement is pending, a second and a half ahead.
pub proof fn law_arrivals_are_recorded_and_announced(
    s: keepalive::State,
    h: usize,
    f: Facts,
    now: Instant,
    done: Event,
    g: Facts,
    then: Instant,
    last: Event,
    k: Facts,
    later: Instant,
)
    requires
        keepalive::sound(s),
        s.phase == Phase::LookEngage(h),
        time::has_room(now, keepalive::HORIZON_MS as int),
        time::has_room(then, keepalive::HORIZON_MS as int),
        time::has_room(later, keepalive::HORIZON_MS as int),
    ensures
        ({
            let t = keepalive::step_spec(s, Event::Present, f, now);
            let u = keepalive::step_spec(t, done, g, then);
            let v = keepalive::step_spec(u, last, k, later);
            &&& keepalive::action_spec(t) == Action::SetConnected(h)
            &&& u.sockets[h as int].known
            &&& later.nanos - then.nanos >= 1_300_000_000 ==> (v.hotplug_due matches Some(due)
                && due.nanos == later.nanos + 1_500_000_000)
            &&& later.nanos - then.nanos < 1_300_000_000 && !k.shutting_down ==> {
                &&& keepalive::action_spec(v) == Action::SendStatus
                &&& v.hotplug_due == u.hotplug_due
                &&& v.settle_from == u.settle_from
            }
        }),
{
    reveal(keepalive::step_spec);
}

/// A link that settles is polled and waited for, fifteen milliseconds at a time.
pub proof fn law_settling_links_are_polled(
    s: keepalive::State,
    h: usize,
    ev: Event,
    f: Facts,
    now: Instant,
    done: Event,
    g: Facts,
    then: Instant,
)
    requires
        s.phase == Phase::SettleSend(h),
    ensures
        ({
            let t = keepalive::step_spec(s, ev, f, now);
            let u = keepalive::step_spec(t, done, g, then);
            &&& keepalive::action_spec(s) == Action::SendStatus
            &&& keepalive::action_spec(t) == Action::Sleep(15)
            &&& u == (keepalive::State { phase: Phase::Settle(h), ..s })
        }),
{
    reveal(keepalive::step_spec);
}

/// A connector comes to be known as having a monitor only by an engagement that brought an EDID:
/// during recovery at once, and after a probe once the monitor has been recorded.
pub proof fn law_monitors_arrive_only_by_an_engagement(
    s: keepalive::State,
    ev: Event,
    f: Facts,
    now: Instant,
    h: int,
)
    requires
        keepalive::sound(s),
        0 <= h < s.sockets.len(),
        !s.sockets[h].known,
        keepalive::step_spec(s, ev, f, now).sockets[h].known,
    ensures
        (s.phase == Phase::RecoverEngage(h as usize) && ev is Present) || s.phase
            == Phase::LookConnect(h as usize),
{
    reveal(keepalive::step_spec);
}

/// A monitor is recorded only for the connector that was engaged and answered.
pub proof fn law_only_answering_connectors_are_recorded(
    s: keepalive::State,
    ev: Event,
    f: Facts,
    now: Instant,
    h: usize,
)
    requires
        keepalive::action_spec(keepalive::step_spec(s, ev, f, now)) == Action::SetConnected(h),
    ensures
        keepalive::action_spec(s) == Action::Reengage(h),
        ev is Present,
{
    reveal(keepalive::step_spec);
}

/// No step touches what is known of a connector other than the one it is about, and none loses or
/// adds a connector.
pub proof fn law_connectors_are_kept_apart(
    s: keepalive::State,
    ev: Event,
    f: Facts,
    now: Instant,
    h: int,
)
    requires
        keepalive::sound(s),
        0 <= h < s.sockets.len(),
        !(s.phase == Phase::Recover(h as usize)),
        !(s.phase == Phase::RecoverProbe(h as usize)),
        !(s.phase == Phase::RecoverEngage(h as usize)),
        !(s.phase == Phase::LookProbe(h as usize)),
        !(s.phase == Phase::LookEngage(h as usize)),
        !(s.phase == Phase::LookConnect(h as usize)),
    ensures
        keepalive::step_spec(s, ev, f, now).sockets[h] == s.sockets[h],
        keepalive::step_spec(s, ev, f, now).sockets.len() == s.sockets.len(),
{
    reveal(keepalive::step_spec);
}

/// The duty of a round that a phase belongs to.
pub open spec fn duty(phase: Phase) -> int {
    match phase {
        Phase::Top => 0,
        Phase::QuietDrain => 1,
        Phase::QuietRest => 1,
        Phase::ReleaseQuiet => 1,
        Phase::Exclusive => 2,
        Phase::ExclusiveDrain => 2,
        Phase::ExclusiveRest => 2,
        Phase::Status => 3,
        Phase::StatusSend => 3,
        Phase::Beat => 4,
        Phase::BeatSend => 4,
        Phase::Pushes => 5,
        Phase::Recover(_) => 6,
        Phase::RecoverProbe(_) => 6,
        Phase::RecoverEngage(_) => 6,
        Phase::RecoverConnect(_) => 6,
        Phase::Downstream => 7,
        Phase::Presence => 8,
        Phase::Look(_) => 9,
        Phase::LookProbe(_) => 9,
        Phase::LookEngage(_) => 9,
        Phase::LookConnect(_) => 9,
        Phase::Settle(_) => 9,
        Phase::SettleSend(_) => 9,
        Phase::SettleRest(_) => 9,
        Phase::LookDrop(_) => 9,
        Phase::LookAnnounce(_) => 9,
        Phase::Hotplug => 10,
        Phase::HotplugHold => 10,
        Phase::HotplugAnnounce => 10,
        Phase::Video => 11,
        Phase::Scanout => 12,
        Phase::Rest => 13,
        Phase::DropAll => 14,
        Phase::Stopped => 14,
    }
}

/// The connector a phase is about.
pub open spec fn about(phase: Phase) -> Option<usize> {
    match phase {
        Phase::Recover(h) => Some(h),
        Phase::RecoverProbe(h) => Some(h),
        Phase::RecoverEngage(h) => Some(h),
        Phase::RecoverConnect(h) => Some(h),
        Phase::Look(h) => Some(h),
        Phase::LookProbe(h) => Some(h),
        Phase::LookEngage(h) => Some(h),
        Phase::LookConnect(h) => Some(h),
        Phase::Settle(h) => Some(h),
        Phase::SettleSend(h) => Some(h),
        Phase::SettleRest(h) => Some(h),
        Phase::LookDrop(h) => Some(h),
        Phase::LookAnnounce(h) => Some(h),
        _ => None,
    }
}

/// A round skips none of its duties. From the status on, each step stays with its duty or goes on
/// to the next; only presence probes that are not due, and scanout workers on a dock with pipes of
/// their own, are passed over. A walk over the connectors starts at the first, visits one after
/// the other, and ends after the last.
pub proof fn law_rounds_skip_no_duty(s: keepalive::State, ev: Event, f: Facts, now: Instant)
    requires
        keepalive::sound(s),
        3 <= duty(s.phase) <= 13,
    ensures
        ({
            let t = keepalive::step_spec(s, ev, f, now);
            let (from, into) = (duty(s.phase), duty(t.phase));
            &&& into == from || into == from + 1 || (from == 13 && into == 0) || (from == 8 && into
                == 10 && now.nanos < s.next_presence.nanos) || (from == 11 && into == 13
                && !f.video_on_ctrl_pipe)
            &&& into == from ==> about(s.phase) is Some == about(t.phase) is Some
            &&& into == from && about(s.phase) is Some ==> about(t.phase) == about(s.phase)
                || about(t.phase)->0 == about(s.phase)->0 + 1
            &&& into != from && about(t.phase) is Some ==> about(t.phase) == Some(0usize)
            &&& into != from && about(s.phase) is Some ==> about(s.phase)->0
                >= s.sockets.len()
        }),
{
    reveal(keepalive::step_spec);
}

/// A dock that answers, and that nothing else holds, is attended to: the round goes on from its top
/// to the status, without doing anything in between.
pub proof fn law_free_links_are_attended_to(
    s: keepalive::State,
    ev: Event,
    f: Facts,
    now: Instant,
    done: Event,
    then: Instant,
)
    requires
        s.phase == Phase::Top,
        !f.shutting_down,
        f.link_alive,
        !f.initial_quiet,
        !f.exclusive,
    ensures
        ({
            let t = keepalive::step_spec(s, ev, f, now);
            keepalive::action_spec(t) == Action::Pass && keepalive::step_spec(
                t,
                done,
                f,
                then,
            ).phase == Phase::Status
        }),
{
    reveal(keepalive::step_spec);
}

/// A link that a mode set holds, or that is kept quiet for the first one, sees nothing of the
/// upkeep but drained replies and short rests.
pub proof fn law_held_links_are_left_alone(
    s: keepalive::State,
    ev: Event,
    f: Facts,
    now: Instant,
)
    requires
        !f.shutting_down,
        f.link_alive,
        f.initial_quiet && s.phase == Phase::Top || f.exclusive && s.phase == Phase::Exclusive
            || s.phase == Phase::QuietDrain || s.phase == Phase::QuietRest || s.phase
            == Phase::ExclusiveDrain || s.phase == Phase::ExclusiveRest,
    ensures
        ({
            let a = keepalive::action_spec(keepalive::step_spec(s, ev, f, now));
            a == Action::Pass || a == Action::Drain(8) || a == Action::Sleep(1) || a
                == Action::ReleaseQuiet
        }),
        keepalive::step_spec(s, ev, f, now).sockets == s.sockets,
        keepalive::step_spec(s, ev, f, now).hotplug_due == s.hotplug_due,
{
    reveal(keepalive::step_spec);
}

/// A link is kept quiet for five seconds at most: the first drain sets the deadline, later ones
/// keep it, and once it has passed the hold is let go.
pub proof fn law_quiet_ends_at_its_deadline(
    s: keepalive::State,
    ev: Event,
    f: Facts,
    now: Instant,
)
    requires
        s.phase == Phase::QuietDrain,
        time::has_room(now, keepalive::HORIZON_MS as int),
    ensures
        ({
            let t = keepalive::step_spec(s, ev, f, now);
            match s.quiet_until {
                None => keepalive::action_spec(t) == Action::Sleep(1) && (t.quiet_until matches Some(
                    until,
                ) && until.nanos == now.nanos + 5_000_000_000),
                Some(until) => {
                    &&& now.nanos >= until.nanos ==> keepalive::action_spec(t)
                        == Action::ReleaseQuiet && t.quiet_until is None
                    &&& until.nanos - now.nanos >= 1_000_000 ==> keepalive::action_spec(t)
                        == Action::Sleep(1) && t.quiet_until == s.quiet_until
                },
            }
        }),
{
    reveal(keepalive::step_spec);
}

/// After a mode set let go of the link, the heartbeat and the presence probes start afresh.
pub proof fn law_a_mode_set_restarts_the_deadlines(
    s: keepalive::State,
    ev: Event,
    f: Facts,
    now: Instant,
)
    requires
        s.phase == Phase::Exclusive,
        !f.exclusive,
        time::has_room(now, keepalive::HORIZON_MS as int),
    ensures
        ({
            let t = keepalive::step_spec(s, ev, f, now);
            &&& s.was_exclusive ==> t.next_heartbeat.nanos == now.nanos + 3_000_000_000
                && t.next_presence.nanos == now.nanos + 1_000_000_000
            &&& !s.was_exclusive ==> t.next_heartbeat == s.next_heartbeat && t.next_presence
                == s.next_presence
            &&& !t.was_exclusive
        }),
        f.exclusive ==> keepalive::step_spec(s, ev, f, now).was_exclusive,
{
    reveal(keepalive::step_spec);
}

/// A status query that is due is sent, and the next is due a period after it; one that is not due
/// is not sent.
pub proof fn law_status_is_queried_on_time(
    s: keepalive::State,
    ev: Event,
    f: Facts,
    now: Instant,
    done: Event,
    g: Facts,
    then: Instant,
)
    requires
        s.phase == Phase::Status,
        time::has_room(then, s.status_period as int),
    ensures
        ({
            let t = keepalive::step_spec(s, ev, f, now);
            let u = keepalive::step_spec(t, done, g, then);
            &&& now.nanos >= s.next_status.nanos ==> {
                &&& keepalive::action_spec(t) == Action::SendStatus
                &&& u.next_status.nanos == then.nanos + s.status_period * 1_000_000
                &&& u.sent == s.sent + (if done is Done {
                    1int
                } else {
                    0
                })
            }
            &&& s.next_status.nanos - now.nanos >= 1_000_000 ==> t
                == (keepalive::State { phase: Phase::Beat, ..s })
        }),
{
    reveal(keepalive::step_spec);
}

/// A heartbeat is sent exactly from its deadline on.
pub proof fn law_heartbeats_are_sent_on_time(
    s: keepalive::State,
    ev: Event,
    f: Facts,
    now: Instant,
)
    requires
        s.phase == Phase::Beat,
    ensures
        now.nanos >= s.next_heartbeat.nanos ==> keepalive::action_spec(
            keepalive::step_spec(s, ev, f, now),
        ) == Action::SendHeartbeat,
        s.next_heartbeat.nanos - now.nanos >= 1_000_000 ==> keepalive::action_spec(
            keepalive::step_spec(s, ev, f, now),
        ) == Action::Drain(4) && keepalive::step_spec(s, ev, f, now).next_heartbeat
            == s.next_heartbeat,
        now.nanos >= s.next_heartbeat.nanos && now.nanos - s.next_heartbeat.nanos < 3_000_000_000
            && time::has_room(s.next_heartbeat, 3000) ==> keepalive::step_spec(
            s,
            ev,
            f,
            now,
        ).next_heartbeat.nanos == s.next_heartbeat.nanos + 3_000_000_000,
{
    reveal(keepalive::step_spec);
}

/// Presence probes that are due start with the first connector, and the next are due a second
/// later.
pub proof fn law_presence_is_probed_on_time(
    s: keepalive::State,
    ev: Event,
    f: Facts,
    now: Instant,
)
    requires
        s.phase == Phase::Presence,
        now.nanos >= s.next_presence.nanos,
        time::has_room(now, keepalive::HORIZON_MS as int),
    ensures
        keepalive::step_spec(s, ev, f, now).phase == Phase::Look(0),
        keepalive::step_spec(s, ev, f, now).next_presence.nanos == now.nanos + 1_000_000_000,
{
    reveal(keepalive::step_spec);
}

/// A change that the dock reports brings the presence probes forward: they are due fifty
/// milliseconds from then at the latest.
pub proof fn law_reported_changes_are_looked_at_soon(
    s: keepalive::State,
    f: Facts,
    now: Instant,
)
    requires
        s.phase == Phase::Downstream,
        time::has_room(now, keepalive::HORIZON_MS as int),
    ensures
        keepalive::action_spec(s) == Action::TakeEvent,
        keepalive::step_spec(s, Event::Raised, f, now).next_presence.nanos - now.nanos < 51_000_000,
        keepalive::step_spec(s, Event::Done, f, now).next_presence == s.next_presence,
{
    reveal(keepalive::step_spec);
}

/// The walk that looks at the connectors probes every one that is driven, and no other.
pub proof fn law_driven_connectors_are_probed(
    s: keepalive::State,
    h: usize,
    ev: Event,
    f: Facts,
    now: Instant,
)
    requires
        keepalive::sound(s),
        s.phase == Phase::Look(h),
        h < s.sockets.len(),
    ensures
        f.runtime@[h as int] ==> keepalive::action_spec(keepalive::step_spec(s, ev, f, now))
            == Action::Probe(h),
        !f.runtime@[h as int] ==> keepalive::step_spec(s, ev, f, now) == (keepalive::State {
            phase: Phase::Look((h + 1) as usize),
            ..s
        }),
{
    reveal(keepalive::step_spec);
}

/// The walk that recovers connectors probes one exactly where it is driven, has no monitor, has not
/// stood down, was not blanked, its pause of four seconds is over, and the dock reports presence;
/// the probe starts that pause again.
pub proof fn law_dark_connectors_are_recovered(
    s: keepalive::State,
    h: usize,
    ev: Event,
    f: Facts,
    now: Instant,
)
    requires
        keepalive::sound(s),
        s.phase == Phase::Recover(h),
        h < s.sockets.len(),
        time::has_room(now, keepalive::HORIZON_MS as int),
    ensures
        ({
            let t = keepalive::step_spec(s, ev, f, now);
            let k = s.sockets[h as int];
            let wanted = f.runtime@[h as int] && !k.known && k.probed != Some(false)
                && !f.self_blanked@[h as int] && f.reports_presence;
            &&& wanted && s.recover_at.nanos >= k.next_reengage.nanos ==> keepalive::action_spec(t)
                == Action::Probe(h) && t.sockets[h as int].next_reengage.nanos == now.nanos
                + 4_000_000_000
            &&& !wanted || k.next_reengage.nanos - s.recover_at.nanos >= 1_000_000 ==> t
                == (keepalive::State { phase: Phase::Recover((h + 1) as usize), ..s })
        }),
{
    reveal(keepalive::step_spec);
}

/// A recovery probe that does not say there is nothing has the connector engaged; so does one that
/// does, on a dock where nothing is lit, for a connector that never had a monitor and has attempts
/// left, unless another connector would lose its handler.
pub proof fn law_recovery_engages_who_may_be_there(
    s: keepalive::State,
    h: usize,
    ev: Event,
    f: Facts,
    now: Instant,
)
    requires
        keepalive::sound(s),
        s.phase == Phase::RecoverProbe(h),
    ensures
        ({
            let k = s.sockets[h as int];
            let dark = forall|i: int| 0 <= i < s.sockets.len() ==> !(#[trigger] s.sockets[i]).known;
            let a = keepalive::action_spec(keepalive::step_spec(s, ev, f, now));
            a == Action::Reengage(h) <==> !(ev is Absent) || (dark && !k.ever_known && k.blind_left
                > 0 && !f.shared_edid_handler)
        }),
{
    reveal(keepalive::step_spec);
}

/// A probe's answer leads where the connector's own history says: to its engagement, to its drop,
/// or on to the next connector.
pub proof fn law_probes_lead_to_their_verdict(
    s: keepalive::State,
    h: usize,
    present: bool,
    f: Facts,
    now: Instant,
)
    requires
        keepalive::sound(s),
        s.phase == Phase::LookProbe(h),
    ensures
        ({
            let ev = if present {
                Event::Present
            } else {
                Event::Absent
            };
            let t = keepalive::step_spec(s, ev, f, now);
            let (k, verdict) = socket::looked_at(
                s.sockets[h as int],
                present,
                f.self_blanked@[h as int],
                now,
            );
            &&& t.sockets == s.sockets.update(h as int, k)
            &&& verdict is Engage ==> keepalive::action_spec(t) == Action::Reengage(h)
            &&& verdict is Drop ==> keepalive::action_spec(t) == Action::SetDisconnected(h)
            &&& verdict is Stay ==> t.phase == Phase::Look((h + 1) as usize)
        }),
{
    reveal(keepalive::step_spec);
}

/// An engagement that brings no EDID records nothing, and the connector waits four seconds.
pub proof fn law_vain_engagements_pause(
    s: keepalive::State,
    h: usize,
    ev: Event,
    f: Facts,
    now: Instant,
)
    requires
        keepalive::sound(s),
        s.phase == Phase::LookEngage(h),
        !(ev is Present),
        time::has_room(now, keepalive::HORIZON_MS as int),
    ensures
        ({
            let t = keepalive::step_spec(s, ev, f, now);
            &&& t.phase == Phase::Look((h + 1) as usize)
            &&& t.sockets[h as int].known == s.sockets[h as int].known
            &&& t.sockets[h as int].next_reengage.nanos == now.nanos + 4_000_000_000
            &&& t.hotplug_due == s.hotplug_due
        }),
{
    reveal(keepalive::step_spec);
}

/// Every round feeds the video endpoints, wakes the scanout workers where video shares the control
/// pipe, and rests for thirteen milliseconds.
pub proof fn law_rounds_end_with_video_and_a_rest(
    s: keepalive::State,
    ev: Event,
    f: Facts,
    now: Instant,
    done: Event,
    g: Facts,
    then: Instant,
)
    requires
        s.phase == Phase::Video,
    ensures
        ({
            let t = keepalive::step_spec(s, ev, f, now);
            let u = keepalive::step_spec(t, done, g, then);
            &&& keepalive::action_spec(s) == Action::VideoKeepalive
            &&& f.video_on_ctrl_pipe ==> keepalive::action_spec(t) == Action::EnqueueScanout
                && keepalive::action_spec(u) == Action::Sleep(13)
            &&& !f.video_on_ctrl_pipe ==> keepalive::action_spec(t) == Action::Sleep(13)
        }),
{
    reveal(keepalive::step_spec);
}

/// The upkeep ends when the device goes away, and stays ended; a link that answers does not end it.
pub proof fn law_the_upkeep_ends_with_its_device(
    s: keepalive::State,
    ev: Event,
    f: Facts,
    now: Instant,
)
    requires
        keepalive::sound(s),
    ensures
        s.phase == Phase::Top && f.shutting_down ==> keepalive::action_spec(
            keepalive::step_spec(s, ev, f, now),
        ) == Action::Stop,
        s.phase == Phase::Stopped ==> keepalive::step_spec(s, ev, f, now) == s,
        !(s.phase is Stopped) && keepalive::step_spec(s, ev, f, now).phase is Stopped
            ==> f.shutting_down || s.phase == Phase::DropAll,
        !(s.phase is DropAll) && keepalive::step_spec(s, ev, f, now).phase is DropAll
            ==> !f.link_alive && !f.shutting_down,
{
    reveal(keepalive::step_spec);
}

/// The upkeep starts with what the opening found: a connector is known exactly where it said so,
/// the status is due at once, and nothing is pending.
pub proof fn law_the_upkeep_starts_from_the_opening(
    known: Seq<bool>,
    status_period: i64,
    published: bool,
    now: Instant,
    h: int,
)
    requires
        0 <= h < known.len(),
        time::has_room(now, keepalive::HORIZON_MS as int),
    ensures
        ({
            let s = keepalive::initial(known, status_period, published, now);
            &&& s.sockets.len() == known.len()
            &&& s.sockets[h].known == known[h]
            &&& s.sockets[h].ever_known == known[h]
            &&& s.hotplug_due is None
            &&& s.published == published
            &&& s.next_status == now
            &&& s.next_heartbeat.nanos == now.nanos + 3_000_000_000
            &&& s.next_presence.nanos == now.nanos + 1_000_000_000
            &&& s.phase == Phase::Top
        }),
{
}

/// Whatever came of engaging a connector, the connectors are due to be looked at.
pub proof fn law_engagements_are_followed_by_a_look(
    s: keepalive::State,
    h: usize,
    ev: Event,
    f: Facts,
    now: Instant,
)
    requires
        s.phase == Phase::RecoverEngage(h),
        h < s.sockets.len(),
    ensures
        keepalive::step_spec(s, ev, f, now).next_presence == now,
        keepalive::step_spec(s, ev, f, now).next_heartbeat == s.next_heartbeat,
        keepalive::step_spec(s, ev, f, now).next_status == s.next_status,
{
    reveal(keepalive::step_spec);
}

/// A link that is settling is polled for no longer than its time, and for no longer than its
/// device: then its arrival is put down to be announced.
pub proof fn law_settling_ends(s: keepalive::State, h: usize, ev: Event, f: Facts, now: Instant)
    requires
        s.phase == Phase::Settle(h),
        h < s.sockets.len(),
        h < usize::MAX,
        time::has_room(now, 10_000),
        f.shutting_down || now.nanos - s.settle_from.nanos >= 1_300_000_000,
    ensures
        ({
            let t = keepalive::step_spec(s, ev, f, now);
            &&& t.phase == Phase::Look((h + 1) as usize)
            &&& t.hotplug_due is Some
            &&& t.sockets == s.sockets
        }),
{
    reveal(keepalive::step_spec);
}

/// What is recovered in a round is judged by the time at which the round came to it.
pub proof fn law_recovery_is_judged_at_one_time(
    s: keepalive::State,
    ev: Event,
    f: Facts,
    now: Instant,
)
    requires
        s.phase == Phase::Pushes,
    ensures
        keepalive::step_spec(s, ev, f, now).phase == Phase::Recover(0),
        keepalive::step_spec(s, ev, f, now).recover_at == now,
        keepalive::step_spec(s, ev, f, now).sockets == s.sockets,
{
    reveal(keepalive::step_spec);
}

} // verus!
