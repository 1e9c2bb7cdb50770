//! The upkeep of a live session: the control dialogue, the recovery of connectors and the watch
//! over what is plugged in.
//!
//! The upkeep asks for one action after another and takes up what became of each.

use vstd::prelude::*;

use crate::session::socket;
use crate::session::socket::{Socket, Verdict};
use crate::time;
use crate::time::Instant;

verus! {

/// Period of the heartbeat, in milliseconds.
pub const HEARTBEAT_PERIOD_MS: i64 = 3000;

/// Period of the presence probes.
pub const PRESENCE_PERIOD_MS: i64 = 1000;

/// Least gap ahead of a presence probe that an event brings forward.
pub const PRESENCE_MIN_GAP_MS: i64 = 50;

/// Quiet window an arrival waits out before it is announced.
pub const HOTPLUG_COALESCE_MS: i64 = 1500;

/// How long the link is kept quiet for a first mode set.
pub const INITIAL_MODESET_QUIET_MS: i64 = 5000;

/// How long a downstream link settles before its monitor is announced.
pub const LINK_SETTLE_MS: i64 = 1300;

/// Pause between the status queries of a settling link.
pub const SETTLE_POLL_MS: i64 = 15;

/// Pushes drained each round.
pub const MAX_UNPAIRED_DRAIN: usize = 4;

/// Pushes drained while another holds the link.
pub const HELD_DRAIN: usize = 8;

/// Pause at the end of each round.
pub const ROUND_PAUSE_MS: i64 = 13;

/// The farthest any deadline is set ahead.
pub const HORIZON_MS: i64 = 20_000;

/// What the upkeep is about to do.
#[derive(Clone, Copy, Debug, PartialEq, Eq, Structural)]
pub enum Phase {
    /// Start a round.
    Top,
    /// Take the outputs down with the session.
    DropAll,
    /// Drain pushes while the link is kept quiet.
    QuietDrain,
    /// Rest while the link is kept quiet.
    QuietRest,
    /// Stop keeping the link quiet.
    ReleaseQuiet,
    /// Give way to a mode set.
    Exclusive,
    /// Drain pushes while a mode set holds the link.
    ExclusiveDrain,
    /// Rest while a mode set holds the link.
    ExclusiveRest,
    /// See whether the status is due.
    Status,
    /// Query the status.
    StatusSend,
    /// See whether the heartbeat is due.
    Beat,
    /// Send the heartbeat.
    BeatSend,
    /// Drain pushes.
    Pushes,
    /// See whether a connector is to be recovered.
    Recover(usize),
    /// Probe it.
    RecoverProbe(usize),
    /// Engage it.
    RecoverEngage(usize),
    /// Record its monitor.
    RecoverConnect(usize),
    /// See whether the topology changed.
    Downstream,
    /// See whether the presence probes are due.
    Presence,
    /// See whether a connector is to be probed.
    Look(usize),
    /// Probe it.
    LookProbe(usize),
    /// Engage it.
    LookEngage(usize),
    /// Record its monitor.
    LookConnect(usize),
    /// See whether its link has settled.
    Settle(usize),
    /// Query the status meanwhile.
    SettleSend(usize),
    /// Rest meanwhile.
    SettleRest(usize),
    /// Record that its monitor is gone.
    LookDrop(usize),
    /// Announce that.
    LookAnnounce(usize),
    /// See whether arrivals are due to be announced.
    Hotplug,
    /// Keep the link quiet for the first mode set.
    HotplugHold,
    /// Announce the arrivals.
    HotplugAnnounce,
    /// Feed a silent video endpoint.
    Video,
    /// Wake the scanout workers.
    Scanout,
    /// Rest at the end of a round.
    Rest,
    /// Done.
    Stopped,
}

/// What the upkeep asks to be done.
#[derive(Clone, Copy, Debug, PartialEq, Eq, Structural)]
pub enum Action {
    /// Nothing.
    Pass,
    /// Take the outputs down with the session.
    DropConnectors,
    /// Drain at most so many pushes.
    Drain(usize),
    /// Sleep, in milliseconds.
    Sleep(i64),
    /// Stop keeping the link quiet.
    ReleaseQuiet,
    /// Query the status.
    SendStatus,
    /// Send the heartbeat.
    SendHeartbeat,
    /// Probe a connector.
    Probe(usize),
    /// Engage a connector.
    Reengage(usize),
    /// Record a connector's monitor.
    SetConnected(usize),
    /// Record that a connector's monitor is gone.
    SetDisconnected(usize),
    /// Take the flag that says the topology changed.
    TakeEvent,
    /// Announce a topology change.
    Hotplug,
    /// Keep the link quiet for the first mode set.
    HoldForModeset,
    /// Feed a silent video endpoint.
    VideoKeepalive,
    /// Wake the scanout workers.
    EnqueueScanout,
    /// Stop.
    Stop,
}

/// What became of an action.
#[derive(Clone, Copy, Debug, PartialEq, Eq, Structural)]
pub enum Event {
    /// It was done, or there was nothing to do.
    Done,
    /// It failed.
    Failed,
    /// The probe answered.
    Present,
    /// The probe answered that there is nothing.
    Absent,
    /// The flag was set.
    Raised,
}

/// The state of the session's other parts.
#[derive(Clone, Copy, Debug)]
pub struct Facts {
    /// Whether the device is going away.
    pub shutting_down: bool,
    /// Whether the dock still answers.
    pub link_alive: bool,
    /// Whether the link is kept quiet for the first mode set.
    pub initial_quiet: bool,
    /// Whether a mode set holds the link.
    pub exclusive: bool,
    /// Whether the dock says what is plugged in.
    pub reports_presence: bool,
    /// Whether one EDID handler serves every connector.
    pub shared_edid_handler: bool,
    /// Whether a mode set is dock-wide.
    pub dock_wide_modeset: bool,
    /// Whether video shares the control pipe.
    pub video_on_ctrl_pipe: bool,
    /// Per connector, whether it is driven at run time.
    pub runtime: [bool; 4],
    /// Per connector, whether it was blanked on purpose.
    pub self_blanked: [bool; 4],
}

/// What the upkeep knows.
#[verifier::ext_equal]
pub ghost struct State {
    /// What it is about to do.
    pub phase: Phase,
    /// The connectors.
    pub sockets: Seq<Socket>,
    /// Status queries sent.
    pub sent: int,
    /// Period of the status queries, in milliseconds.
    pub status_period: i64,
    /// When the next status query is due.
    pub next_status: Instant,
    /// When the next heartbeat is due.
    pub next_heartbeat: Instant,
    /// When the next presence probes are due.
    pub next_presence: Instant,
    /// When arrivals are due to be announced.
    pub hotplug_due: Option<Instant>,
    /// Until when the link is kept quiet.
    pub quiet_until: Option<Instant>,
    /// Whether a mode set held the link in the last round.
    pub was_exclusive: bool,
    /// Whether a connector has been announced.
    pub published: bool,
    /// When this round's recovery started.
    pub recover_at: Instant,
    /// When the link being waited for started to settle.
    pub settle_from: Instant,
}

/// A connector's flag.
pub open spec fn fact(flags: [bool; 4], h: int) -> bool {
    0 <= h < 4 && flags@[h]
}

/// Whether nothing on the dock is lit.
pub open spec fn nothing_lit(s: Seq<Socket>) -> bool {
    forall|i: int| 0 <= i < s.len() ==> !(#[trigger] s[i]).known
}

/// What the upkeep asks to be done.
pub open spec fn action_spec(s: State) -> Action {
    match s.phase {
        Phase::DropAll => Action::DropConnectors,
        Phase::QuietDrain => Action::Drain(HELD_DRAIN),
        Phase::QuietRest => Action::Sleep(1),
        Phase::ReleaseQuiet => Action::ReleaseQuiet,
        Phase::ExclusiveDrain => Action::Drain(HELD_DRAIN),
        Phase::ExclusiveRest => Action::Sleep(1),
        Phase::StatusSend => Action::SendStatus,
        Phase::BeatSend => Action::SendHeartbeat,
        Phase::Pushes => Action::Drain(MAX_UNPAIRED_DRAIN),
        Phase::RecoverProbe(h) => Action::Probe(h),
        Phase::RecoverEngage(h) => Action::Reengage(h),
        Phase::RecoverConnect(h) => Action::SetConnected(h),
        Phase::Downstream => Action::TakeEvent,
        Phase::LookProbe(h) => Action::Probe(h),
        Phase::LookEngage(h) => Action::Reengage(h),
        Phase::LookConnect(h) => Action::SetConnected(h),
        Phase::SettleSend(_) => Action::SendStatus,
        Phase::SettleRest(_) => Action::Sleep(SETTLE_POLL_MS),
        Phase::LookDrop(h) => Action::SetDisconnected(h),
        Phase::LookAnnounce(_) => Action::Hotplug,
        Phase::HotplugHold => Action::HoldForModeset,
        Phase::HotplugAnnounce => Action::Hotplug,
        Phase::Video => Action::VideoKeepalive,
        Phase::Scanout => Action::EnqueueScanout,
        Phase::Rest => Action::Sleep(ROUND_PAUSE_MS),
        Phase::Stopped => Action::Stop,
        _ => Action::Pass,
    }
}

/// Whether a deadline has been reached.
pub open spec fn due(now: Instant, deadline: Instant) -> bool {
    time::millis_between(now, deadline) >= 0
}

/// The upkeep in another phase.
pub open spec fn to(s: State, phase: Phase) -> State {
    State { phase, ..s }
}

/// The start of a round.
pub open spec fn top(s: State, f: Facts) -> State {
    to(
        s,
        if f.shutting_down {
            Phase::Stopped
        } else if !f.link_alive {
            Phase::DropAll
        } else if f.initial_quiet {
            Phase::QuietDrain
        } else {
            Phase::Exclusive
        },
    )
}

/// After a drain while the link is kept quiet: the hold has a deadline of its own, so that a
/// session that lights nothing is not kept silent.
pub open spec fn quiet_drained(s: State, now: Instant) -> State {
    let until = if s.quiet_until is Some {
        s.quiet_until->0
    } else {
        time::later_by(now, INITIAL_MODESET_QUIET_MS as int)
    };
    if due(now, until) {
        State { quiet_until: None, phase: Phase::ReleaseQuiet, ..s }
    } else {
        State { quiet_until: Some(until), phase: Phase::QuietRest, ..s }
    }
}

/// Giving way to a mode set. Deadlines that expired meanwhile start afresh.
pub open spec fn exclusive(s: State, f: Facts, now: Instant) -> State {
    if f.exclusive {
        State { was_exclusive: true, phase: Phase::ExclusiveDrain, ..s }
    } else if s.was_exclusive {
        State {
            was_exclusive: false,
            next_heartbeat: time::later_by(now, HEARTBEAT_PERIOD_MS as int),
            next_presence: time::later_by(now, PRESENCE_PERIOD_MS as int),
            phase: Phase::Status,
            ..s
        }
    } else {
        to(s, Phase::Status)
    }
}

/// The heartbeat advances from its last deadline, so that a slow send causes no drift; one that
/// fell far behind starts afresh.
pub open spec fn beat(s: State, now: Instant) -> State {
    if due(now, s.next_heartbeat) {
        let next = time::later_by(s.next_heartbeat, HEARTBEAT_PERIOD_MS as int);
        State {
            next_heartbeat: if time::millis_between(now, next) > 0 {
                time::later_by(now, HEARTBEAT_PERIOD_MS as int)
            } else {
                next
            },
            phase: Phase::BeatSend,
            ..s
        }
    } else {
        to(s, Phase::Pushes)
    }
}

/// Whether a connector is to be recovered: it is driven at run time, not known to have a monitor,
/// not stood down, its pause is over, the dock says what is plugged in, and it was not blanked.
pub open spec fn recoverable(s: State, f: Facts, h: int) -> bool {
    &&& fact(f.runtime, h)
    &&& s.sockets[h].probed != Some(false)
    &&& !s.sockets[h].known
    &&& due(s.recover_at, s.sockets[h].next_reengage)
    &&& f.reports_presence
    &&& !fact(f.self_blanked, h)
}

/// Recovery of a connector.
pub open spec fn recover(s: State, f: Facts, h: int, now: Instant) -> State {
    if h >= s.sockets.len() {
        to(s, Phase::Downstream)
    } else if recoverable(s, f, h) {
        State {
            sockets: s.sockets.update(
                h,
                Socket {
                    next_reengage: time::later_by(now, socket::REENGAGE_RETRY_MS as int),
                    ..s.sockets[h]
                },
            ),
            phase: Phase::RecoverProbe(h as usize),
            ..s
        }
    } else {
        to(s, Phase::Recover((h + 1) as usize))
    }
}

/// What a probe answered; an event that is no answer is none.
pub open spec fn answer(ev: Event) -> Option<bool> {
    match ev {
        Event::Present => Some(true),
        Event::Absent => Some(false),
        _ => None,
    }
}

/// After a recovery probe.
pub open spec fn recover_probed(s: State, f: Facts, h: int, ev: Event, now: Instant) -> State {
    let (t, engage) = socket::recovered(
        s.sockets[h],
        answer(ev),
        nothing_lit(s.sockets),
        f.shared_edid_handler,
        now,
    );
    State {
        sockets: s.sockets.update(h, t),
        phase: if engage {
            Phase::RecoverEngage(h as usize)
        } else {
            Phase::Recover((h + 1) as usize)
        },
        ..s
    }
}

/// After an engagement during recovery: an EDID proves presence.
pub open spec fn recover_engaged(s: State, h: int, ev: Event, now: Instant) -> State {
    if ev is Present {
        State {
            sockets: s.sockets.update(h, socket::engaged(s.sockets[h], now)),
            hotplug_due: Some(time::later_by(now, HOTPLUG_COALESCE_MS as int)),
            next_presence: now,
            phase: Phase::RecoverConnect(h as usize),
            ..s
        }
    } else {
        State { next_presence: now, phase: Phase::Recover((h + 1) as usize), ..s }
    }
}

/// A topology change brings the presence probes forward, but never below their least gap.
pub open spec fn downstream(s: State, ev: Event, now: Instant) -> State {
    let soonest = time::later_by(now, PRESENCE_MIN_GAP_MS as int);
    State {
        next_presence: if ev is Raised && time::millis_between(s.next_presence, soonest) > 0 {
            soonest
        } else {
            s.next_presence
        },
        phase: Phase::Presence,
        ..s
    }
}

/// The presence probes.
pub open spec fn presence(s: State, now: Instant) -> State {
    if due(now, s.next_presence) {
        State {
            next_presence: time::later_by(now, PRESENCE_PERIOD_MS as int),
            phase: Phase::Look(0),
            ..s
        }
    } else {
        to(s, Phase::Hotplug)
    }
}

/// The presence probe of a connector.
pub open spec fn look(s: State, f: Facts, h: int) -> State {
    to(
        s,
        if h >= s.sockets.len() {
            Phase::Hotplug
        } else if fact(f.runtime, h) {
            Phase::LookProbe(h as usize)
        } else {
            Phase::Look((h + 1) as usize)
        },
    )
}

/// After a presence probe. A missing answer is evidence of nothing.
pub open spec fn look_probed(s: State, f: Facts, h: int, ev: Event, now: Instant) -> State {
    match answer(ev) {
        None => to(s, Phase::Look((h + 1) as usize)),
        Some(present) => {
            let (t, verdict) = socket::looked_at(
                s.sockets[h],
                present,
                fact(f.self_blanked, h),
                now,
            );
            State {
                sockets: s.sockets.update(h, t),
                hotplug_due: if verdict is Drop {
                    None
                } else {
                    s.hotplug_due
                },
                phase: match verdict {
                    Verdict::Stay => Phase::Look((h + 1) as usize),
                    Verdict::Drop => Phase::LookDrop(h as usize),
                    Verdict::Engage => Phase::LookEngage(h as usize),
                },
                ..s
            }
        },
    }
}

/// After an engagement: without an EDID the connector waits out its pause.
pub open spec fn look_engaged(s: State, h: int, ev: Event, now: Instant) -> State {
    if ev is Present {
        to(s, Phase::LookConnect(h as usize))
    } else {
        State {
            sockets: s.sockets.update(
                h,
                Socket {
                    next_reengage: time::later_by(now, socket::REENGAGE_RETRY_MS as int),
                    ..s.sockets[h]
                },
            ),
            phase: Phase::Look((h + 1) as usize),
            ..s
        }
    }
}

/// After a connector's monitor has been recorded, its link settles before it is announced.
pub open spec fn look_connected(s: State, h: int, now: Instant) -> State {
    State {
        sockets: s.sockets.update(h, socket::connected(s.sockets[h], now)),
        settle_from: now,
        phase: Phase::Settle(h as usize),
        ..s
    }
}

/// Whether a link has settled.
pub open spec fn settling(s: State, f: Facts, h: int, now: Instant) -> State {
    if time::millis_between(now, s.settle_from) < LINK_SETTLE_MS && !f.shutting_down {
        to(s, Phase::SettleSend(h as usize))
    } else {
        State {
            hotplug_due: Some(time::later_by(now, HOTPLUG_COALESCE_MS as int)),
            next_presence: time::later_by(now, PRESENCE_PERIOD_MS as int),
            phase: Phase::Look((h + 1) as usize),
            ..s
        }
    }
}

/// Arrivals are announced together once their window is over. The first announcement keeps the
/// link quiet for the mode set that answers it.
pub open spec fn hotplug(s: State, f: Facts, now: Instant) -> State {
    if s.hotplug_due is Some && due(now, s.hotplug_due->0) {
        if f.dock_wide_modeset && !s.published {
            State {
                hotplug_due: None,
                quiet_until: None,
                published: true,
                phase: Phase::HotplugHold,
                ..s
            }
        } else {
            State { hotplug_due: None, published: true, phase: Phase::HotplugAnnounce, ..s }
        }
    } else {
        to(s, Phase::Video)
    }
}

/// The upkeep after the outcome of the action it asked for.
#[verifier::opaque]
pub open spec fn step_spec(s: State, ev: Event, f: Facts, now: Instant) -> State {
    match s.phase {
        Phase::Top => top(s, f),
        Phase::DropAll => to(s, Phase::Stopped),
        Phase::QuietDrain => quiet_drained(s, now),
        Phase::QuietRest => to(s, Phase::Top),
        Phase::ReleaseQuiet => to(s, Phase::Exclusive),
        Phase::Exclusive => exclusive(s, f, now),
        Phase::ExclusiveDrain => to(s, Phase::ExclusiveRest),
        Phase::ExclusiveRest => to(s, Phase::Top),
        Phase::Status => to(
            s,
            if due(now, s.next_status) {
                Phase::StatusSend
            } else {
                Phase::Beat
            },
        ),
        Phase::StatusSend => State {
            sent: if ev is Done {
                s.sent + 1
            } else {
                s.sent
            },
            next_status: time::later_by(now, s.status_period as int),
            phase: Phase::Beat,
            ..s
        },
        Phase::Beat => beat(s, now),
        Phase::BeatSend => to(s, Phase::Pushes),
        Phase::Pushes => State { recover_at: now, phase: Phase::Recover(0), ..s },
        Phase::Recover(h) => recover(s, f, h as int, now),
        Phase::RecoverProbe(h) => recover_probed(s, f, h as int, ev, now),
        Phase::RecoverEngage(h) => recover_engaged(s, h as int, ev, now),
        Phase::RecoverConnect(h) => to(s, Phase::Recover((h + 1) as usize)),
        Phase::Downstream => downstream(s, ev, now),
        Phase::Presence => presence(s, now),
        Phase::Look(h) => look(s, f, h as int),
        Phase::LookProbe(h) => look_probed(s, f, h as int, ev, now),
        Phase::LookEngage(h) => look_engaged(s, h as int, ev, now),
        Phase::LookConnect(h) => look_connected(s, h as int, now),
        Phase::Settle(h) => settling(s, f, h as int, now),
        Phase::SettleSend(h) => to(s, Phase::SettleRest(h)),
        Phase::SettleRest(h) => to(s, Phase::Settle(h)),
        Phase::LookDrop(h) => to(s, Phase::LookAnnounce(h)),
        Phase::LookAnnounce(h) => State {
            next_presence: time::later_by(now, PRESENCE_PERIOD_MS as int),
            phase: Phase::Look((h + 1) as usize),
            ..s
        },
        Phase::Hotplug => hotplug(s, f, now),
        Phase::HotplugHold => to(s, Phase::HotplugAnnounce),
        Phase::HotplugAnnounce => to(s, Phase::Video),
        Phase::Video => to(
            s,
            if f.video_on_ctrl_pipe {
                Phase::Scanout
            } else {
                Phase::Rest
            },
        ),
        Phase::Scanout => to(s, Phase::Rest),
        Phase::Rest => to(s, Phase::Top),
        Phase::Stopped => s,
    }
}

/// Whether a phase names a connector there is.
pub open spec fn phase_in(phase: Phase, n: int) -> bool {
    match phase {
        Phase::RecoverProbe(h) => h < n,
        Phase::RecoverEngage(h) => h < n,
        Phase::RecoverConnect(h) => h < n,
        Phase::LookProbe(h) => h < n,
        Phase::LookEngage(h) => h < n,
        Phase::LookConnect(h) => h < n,
        Phase::Settle(h) => h < n,
        Phase::SettleSend(h) => h < n,
        Phase::SettleRest(h) => h < n,
        Phase::LookDrop(h) => h < n,
        Phase::LookAnnounce(h) => h < n,
        Phase::Recover(h) => h <= n,
        Phase::Look(h) => h <= n,
        _ => true,
    }
}

/// Whether the upkeep's parts fit together.
pub open spec fn sound(s: State) -> bool {
    &&& s.sockets.len() <= 4
    &&& phase_in(s.phase, s.sockets.len() as int)
}

/// The upkeep at its start.
pub open spec fn initial(known: Seq<bool>, status_period: i64, published: bool, now: Instant) -> State {
    State {
        phase: Phase::Top,
        sockets: Seq::new(known.len(), |h: int| socket::socket_at(known[h], now)),
        sent: 0,
        status_period,
        next_status: now,
        next_heartbeat: time::later_by(now, HEARTBEAT_PERIOD_MS as int),
        next_presence: time::later_by(now, PRESENCE_PERIOD_MS as int),
        hotplug_due: None,
        quiet_until: None,
        was_exclusive: false,
        published,
        recover_at: now,
        settle_from: now,
    }
}

/// Whether a phase goes on in the same way whatever became of its action.
pub open spec fn decides_nothing(phase: Phase) -> bool {
    match phase {
        Phase::DropAll => true,
        Phase::QuietRest => true,
        Phase::ReleaseQuiet => true,
        Phase::ExclusiveDrain => true,
        Phase::ExclusiveRest => true,
        Phase::BeatSend => true,
        Phase::RecoverConnect(_) => true,
        Phase::SettleSend(_) => true,
        Phase::SettleRest(_) => true,
        Phase::LookDrop(_) => true,
        Phase::HotplugHold => true,
        Phase::HotplugAnnounce => true,
        Phase::Video => true,
        Phase::Scanout => true,
        Phase::Rest => true,
        Phase::Stopped => true,
        _ => false,
    }
}

/// Whether a phase is one of the decisions of a round.
pub open spec fn is_round(phase: Phase) -> bool {
    match phase {
        Phase::Top => true,
        Phase::QuietDrain => true,
        Phase::Exclusive => true,
        Phase::Status => true,
        Phase::StatusSend => true,
        Phase::Beat => true,
        Phase::Pushes => true,
        Phase::Downstream => true,
        Phase::Presence => true,
        Phase::Hotplug => true,
        _ => false,
    }
}

/// The upkeep of a live session.
#[derive(Debug)]
pub struct Keepalive {
    phase: Phase,
    sockets: Vec<Socket>,
    sent: u32,
    status_period: i64,
    next_status: Instant,
    next_heartbeat: Instant,
    next_presence: Instant,
    hotplug_due: Option<Instant>,
    quiet_until: Option<Instant>,
    was_exclusive: bool,
    published: bool,
    recover_at: Instant,
    settle_from: Instant,
}

impl View for Keepalive {
    type V = State;

    closed spec fn view(&self) -> State {
        State {
            phase: self.phase,
            sockets: self.sockets@,
            sent: self.sent as int,
            status_period: self.status_period,
            next_status: self.next_status,
            next_heartbeat: self.next_heartbeat,
            next_presence: self.next_presence,
            hotplug_due: self.hotplug_due,
            quiet_until: self.quiet_until,
            was_exclusive: self.was_exclusive,
            published: self.published,
            recover_at: self.recover_at,
            settle_from: self.settle_from,
        }
    }
}

/// A connector's flag.
fn fact_of(flags: &[bool; 4], h: usize) -> (b: bool)
    ensures
        b == fact(*flags, h as int),
{
    h < 4 && flags[h]
}

/// Whether a deadline has been reached.
fn is_due(now: Instant, deadline: Instant) -> (b: bool)
    ensures
        b == due(now, deadline),
{
    now.millis_since(deadline) >= 0
}

/// What a probe answered.
fn answer_of(ev: Event) -> (a: Option<bool>)
    ensures
        a == answer(ev),
{
    match ev {
        Event::Present => Some(true),
        Event::Absent => Some(false),
        _ => None,
    }
}

/// Whether the clock and the counters have room for a step.
pub open spec fn has_headroom(s: State, now: Instant) -> bool {
    &&& time::has_room(now, HORIZON_MS as int)
    &&& time::has_room(now, s.status_period as int)
    &&& s.sent < u32::MAX
    &&& forall|h: int| 0 <= h < s.sockets.len() ==> (#[trigger] s.sockets[h]).flap.seen < u32::MAX
}

impl Keepalive {
    /// Start the upkeep. `known` says of each connector whether it is driven as having a monitor,
    /// and `published` whether any has been announced.
    pub fn new(known: &[bool], status_period: i64, published: bool, now: Instant) -> (k: Keepalive)
        requires
            known@.len() <= 4,
            time::has_room(now, HORIZON_MS as int),
        ensures
            k@ == initial(known@, status_period, published, now),
            sound(k@),
    {
        let mut sockets: Vec<Socket> = Vec::new();
        let mut h: usize = 0;
        while h < known.len()
            invariant
                h <= known@.len(),
                sockets@.len() == h,
                forall|j: int| 0 <= j < h ==> sockets@[j] == socket::socket_at(known@[j], now),
            decreases known@.len() - h,
        {
            sockets.push(Socket::new(known[h], now));
            h += 1;
        }
        let k = Keepalive {
            phase: Phase::Top,
            sockets,
            sent: 0,
            status_period,
            next_status: now,
            next_heartbeat: now.plus_millis(HEARTBEAT_PERIOD_MS),
            next_presence: now.plus_millis(PRESENCE_PERIOD_MS),
            hotplug_due: None,
            quiet_until: None,
            was_exclusive: false,
            published,
            recover_at: now,
            settle_from: now,
        };
        assert(k@ =~= initial(known@, status_period, published, now));
        k
    }

    /// What is to be done next.
    pub fn action(&self) -> (a: Action)
        ensures
            a == action_spec(self@),
    {
        match self.phase {
            Phase::DropAll => Action::DropConnectors,
            Phase::QuietDrain => Action::Drain(HELD_DRAIN),
            Phase::QuietRest => Action::Sleep(1),
            Phase::ReleaseQuiet => Action::ReleaseQuiet,
            Phase::ExclusiveDrain => Action::Drain(HELD_DRAIN),
            Phase::ExclusiveRest => Action::Sleep(1),
            Phase::StatusSend => Action::SendStatus,
            Phase::BeatSend => Action::SendHeartbeat,
            Phase::Pushes => Action::Drain(MAX_UNPAIRED_DRAIN),
            Phase::RecoverProbe(h) => Action::Probe(h),
            Phase::RecoverEngage(h) => Action::Reengage(h),
            Phase::RecoverConnect(h) => Action::SetConnected(h),
            Phase::Downstream => Action::TakeEvent,
            Phase::LookProbe(h) => Action::Probe(h),
            Phase::LookEngage(h) => Action::Reengage(h),
            Phase::LookConnect(h) => Action::SetConnected(h),
            Phase::SettleSend(_) => Action::SendStatus,
            Phase::SettleRest(_) => Action::Sleep(SETTLE_POLL_MS),
            Phase::LookDrop(h) => Action::SetDisconnected(h),
            Phase::LookAnnounce(_) => Action::Hotplug,
            Phase::HotplugHold => Action::HoldForModeset,
            Phase::HotplugAnnounce => Action::Hotplug,
            Phase::Video => Action::VideoKeepalive,
            Phase::Scanout => Action::EnqueueScanout,
            Phase::Rest => Action::Sleep(ROUND_PAUSE_MS),
            Phase::Stopped => Action::Stop,
            _ => Action::Pass,
        }
    }

    /// Replace a connector.
    fn put(&mut self, h: usize, t: Socket)
        requires
            h < old(self)@.sockets.len(),
        ensures
            final(self)@ == (State {
                sockets: old(self)@.sockets.update(h as int, t),
                ..old(self)@
            }),
    {
        self.sockets.set(h, t);
    }

    /// Whether nothing on the dock is lit.
    fn is_dark(&self) -> (b: bool)
        ensures
            b == nothing_lit(self@.sockets),
    {
        let mut i: usize = 0;
        while i < self.sockets.len()
            invariant
                i <= self.sockets@.len(),
                forall|j: int| 0 <= j < i ==> !(#[trigger] self.sockets@[j]).known,
            decreases self.sockets@.len() - i,
        {
            if self.sockets[i].known {
                assert(self@.sockets[i as int].known);
                return false;
            }
            i += 1;
        }
        true
    }

    fn on_top(&mut self, ev: Event, f: &Facts, now: Instant)
        requires
            sound(old(self)@),
            has_headroom(old(self)@, now),
            old(self)@.phase == Phase::Top,
        ensures
            final(self)@ == step_spec(old(self)@, ev, *f, now),
            sound(final(self)@),
    {
        proof {
            reveal(step_spec);
        }
        self.phase =
        if f.shutting_down {
            Phase::Stopped
        } else if !f.link_alive {
            Phase::DropAll
        } else if f.initial_quiet {
            Phase::QuietDrain
        } else {
            Phase::Exclusive
        };
    }

    fn on_quiet_drained(&mut self, ev: Event, f: &Facts, now: Instant)
        requires
            sound(old(self)@),
            has_headroom(old(self)@, now),
            old(self)@.phase == Phase::QuietDrain,
        ensures
            final(self)@ == step_spec(old(self)@, ev, *f, now),
            sound(final(self)@),
    {
        proof {
            reveal(step_spec);
        }
        let until = match self.quiet_until {
            Some(until) => until,
            None => now.plus_millis(INITIAL_MODESET_QUIET_MS),
        };
        if is_due(now, until) {
            self.quiet_until = None;
            self.phase = Phase::ReleaseQuiet;
        } else {
            self.quiet_until = Some(until);
            self.phase = Phase::QuietRest;
        }
    }

    fn on_exclusive(&mut self, ev: Event, f: &Facts, now: Instant)
        requires
            sound(old(self)@),
            has_headroom(old(self)@, now),
            old(self)@.phase == Phase::Exclusive,
        ensures
            final(self)@ == step_spec(old(self)@, ev, *f, now),
            sound(final(self)@),
    {
        proof {
            reveal(step_spec);
        }
        if f.exclusive {
            self.was_exclusive = true;
            self.phase = Phase::ExclusiveDrain;
        } else {
            if self.was_exclusive {
                self.was_exclusive = false;
                self.next_heartbeat = now.plus_millis(HEARTBEAT_PERIOD_MS);
                self.next_presence = now.plus_millis(PRESENCE_PERIOD_MS);
            }
            self.phase = Phase::Status;
        }
    }

    fn on_status(&mut self, ev: Event, f: &Facts, now: Instant)
        requires
            sound(old(self)@),
            has_headroom(old(self)@, now),
            old(self)@.phase == Phase::Status,
        ensures
            final(self)@ == step_spec(old(self)@, ev, *f, now),
            sound(final(self)@),
    {
        proof {
            reveal(step_spec);
        }
        self.phase =
        if is_due(now, self.next_status) {
            Phase::StatusSend
        } else {
            Phase::Beat
        };
    }

    fn on_status_sent(&mut self, ev: Event, f: &Facts, now: Instant)
        requires
            sound(old(self)@),
            has_headroom(old(self)@, now),
            old(self)@.phase == Phase::StatusSend,
        ensures
            final(self)@ == step_spec(old(self)@, ev, *f, now),
            sound(final(self)@),
    {
        proof {
            reveal(step_spec);
        }
        match ev {
            Event::Done => {
                self.sent = self.sent + 1;
            },
            _ => {},
        }
        self.next_status = now.plus_millis(self.status_period);
        self.phase = Phase::Beat;
    }

    fn on_beat(&mut self, ev: Event, f: &Facts, now: Instant)
        requires
            sound(old(self)@),
            has_headroom(old(self)@, now),
            old(self)@.phase == Phase::Beat,
        ensures
            final(self)@ == step_spec(old(self)@, ev, *f, now),
            sound(final(self)@),
    {
        proof {
            reveal(step_spec);
        }
        if is_due(now, self.next_heartbeat) {
            let next = self.next_heartbeat.plus_millis(HEARTBEAT_PERIOD_MS);
            self.next_heartbeat =
            if now.millis_since(next) > 0 {
                now.plus_millis(HEARTBEAT_PERIOD_MS)
            } else {
                next
            };
            self.phase = Phase::BeatSend;
        } else {
            self.phase = Phase::Pushes;
        }
    }

    fn on_pushes(&mut self, ev: Event, f: &Facts, now: Instant)
        requires
            sound(old(self)@),
            has_headroom(old(self)@, now),
            old(self)@.phase == Phase::Pushes,
        ensures
            final(self)@ == step_spec(old(self)@, ev, *f, now),
            sound(final(self)@),
    {
        proof {
            reveal(step_spec);
        }
        self.recover_at = now;
        self.phase = Phase::Recover(0);
    }

    /// Whether a connector is to be recovered.
    fn is_recoverable(&self, f: &Facts, h: usize) -> (b: bool)
        requires
            h < self@.sockets.len(),
        ensures
            b == recoverable(self@, *f, h as int),
    {
        let t = self.sockets[h];
        let stood_down = match t.probed {
            Some(present) => !present,
            None => false,
        };
        fact_of(&f.runtime, h) && !stood_down && !t.known && is_due(
            self.recover_at,
            t.next_reengage,
        ) && f.reports_presence && !fact_of(&f.self_blanked, h)
    }

    fn on_recover(&mut self, h: usize, ev: Event, f: &Facts, now: Instant)
        requires
            sound(old(self)@),
            has_headroom(old(self)@, now),
            old(self)@.phase == Phase::Recover(h),
        ensures
            final(self)@ == step_spec(old(self)@, ev, *f, now),
            sound(final(self)@),
    {
        proof {
            reveal(step_spec);
        }
        if h >= self.sockets.len() {
            self.phase = Phase::Downstream;
        } else if self.is_recoverable(f, h) {
            let mut t = self.sockets[h];
            t.next_reengage = now.plus_millis(socket::REENGAGE_RETRY_MS);
            self.put(h, t);
            self.phase = Phase::RecoverProbe(h);
        } else {
            self.phase = Phase::Recover(h + 1);
        }
    }

    fn on_recover_probed(&mut self, h: usize, ev: Event, f: &Facts, now: Instant)
        requires
            sound(old(self)@),
            has_headroom(old(self)@, now),
            old(self)@.phase == Phase::RecoverProbe(h),
        ensures
            final(self)@ == step_spec(old(self)@, ev, *f, now),
            sound(final(self)@),
    {
        proof {
            reveal(step_spec);
        }
        let dark = self.is_dark();
        let mut t = self.sockets[h];
        let engage = t.recover(answer_of(ev), dark, f.shared_edid_handler, now);
        self.put(h, t);
        self.phase =
        if engage {
            Phase::RecoverEngage(h)
        } else {
            Phase::Recover(h + 1)
        };
    }

    fn on_recover_engaged(&mut self, h: usize, ev: Event, f: &Facts, now: Instant)
        requires
            sound(old(self)@),
            has_headroom(old(self)@, now),
            old(self)@.phase == Phase::RecoverEngage(h),
        ensures
            final(self)@ == step_spec(old(self)@, ev, *f, now),
            sound(final(self)@),
    {
        proof {
            reveal(step_spec);
        }
        let found = match ev {
            Event::Present => true,
            _ => false,
        };
        if found {
            let mut t = self.sockets[h];
            t.engage(now);
            self.put(h, t);
            self.hotplug_due = Some(now.plus_millis(HOTPLUG_COALESCE_MS));
            self.next_presence = now;
            self.phase = Phase::RecoverConnect(h);
        } else {
            self.next_presence = now;
            self.phase = Phase::Recover(h + 1);
        }
    }

    fn on_downstream(&mut self, ev: Event, f: &Facts, now: Instant)
        requires
            sound(old(self)@),
            has_headroom(old(self)@, now),
            old(self)@.phase == Phase::Downstream,
        ensures
            final(self)@ == step_spec(old(self)@, ev, *f, now),
            sound(final(self)@),
    {
        proof {
            reveal(step_spec);
        }
        let raised = match ev {
            Event::Raised => true,
            _ => false,
        };
        let soonest = now.plus_millis(PRESENCE_MIN_GAP_MS);
        if raised && self.next_presence.millis_since(soonest) > 0 {
            self.next_presence = soonest;
        }
        self.phase = Phase::Presence;
    }

    fn on_presence(&mut self, ev: Event, f: &Facts, now: Instant)
        requires
            sound(old(self)@),
            has_headroom(old(self)@, now),
            old(self)@.phase == Phase::Presence,
        ensures
            final(self)@ == step_spec(old(self)@, ev, *f, now),
            sound(final(self)@),
    {
        proof {
            reveal(step_spec);
        }
        if is_due(now, self.next_presence) {
            self.next_presence = now.plus_millis(PRESENCE_PERIOD_MS);
            self.phase = Phase::Look(0);
        } else {
            self.phase = Phase::Hotplug;
        }
    }

    fn on_look(&mut self, h: usize, ev: Event, f: &Facts, now: Instant)
        requires
            sound(old(self)@),
            has_headroom(old(self)@, now),
            old(self)@.phase == Phase::Look(h),
        ensures
            final(self)@ == step_spec(old(self)@, ev, *f, now),
            sound(final(self)@),
    {
        proof {
            reveal(step_spec);
        }
        self.phase =
        if h >= self.sockets.len() {
            Phase::Hotplug
        } else if fact_of(&f.runtime, h) {
            Phase::LookProbe(h)
        } else {
            Phase::Look(h + 1)
        };
    }

    fn on_look_probed(&mut self, h: usize, ev: Event, f: &Facts, now: Instant)
        requires
            sound(old(self)@),
            has_headroom(old(self)@, now),
            old(self)@.phase == Phase::LookProbe(h),
        ensures
            final(self)@ == step_spec(old(self)@, ev, *f, now),
            sound(final(self)@),
    {
        proof {
            reveal(step_spec);
        }
        match answer_of(ev) {
            None => {
                self.phase = Phase::Look(h + 1);
            },
            Some(present) => {
                let mut t = self.sockets[h];
                let verdict = t.look(present, fact_of(&f.self_blanked, h), now);
                self.put(h, t);
                match verdict {
                    Verdict::Stay => {
                        self.phase = Phase::Look(h + 1);
                    },
                    Verdict::Drop => {
                        self.hotplug_due = None;
                        self.phase = Phase::LookDrop(h);
                    },
                    Verdict::Engage => {
                        self.phase = Phase::LookEngage(h);
                    },
                }
            },
        }
    }

    fn on_look_engaged(&mut self, h: usize, ev: Event, f: &Facts, now: Instant)
        requires
            sound(old(self)@),
            has_headroom(old(self)@, now),
            old(self)@.phase == Phase::LookEngage(h),
        ensures
            final(self)@ == step_spec(old(self)@, ev, *f, now),
            sound(final(self)@),
    {
        proof {
            reveal(step_spec);
        }
        let found = match ev {
            Event::Present => true,
            _ => false,
        };
        if found {
            self.phase = Phase::LookConnect(h);
        } else {
            let mut t = self.sockets[h];
            t.next_reengage = now.plus_millis(socket::REENGAGE_RETRY_MS);
            self.put(h, t);
            self.phase = Phase::Look(h + 1);
        }
    }

    fn on_look_connected(&mut self, h: usize, ev: Event, f: &Facts, now: Instant)
        requires
            sound(old(self)@),
            has_headroom(old(self)@, now),
            old(self)@.phase == Phase::LookConnect(h),
        ensures
            final(self)@ == step_spec(old(self)@, ev, *f, now),
            sound(final(self)@),
    {
        proof {
            reveal(step_spec);
        }
        let mut t = self.sockets[h];
        t.connect(now);
        self.put(h, t);
        self.settle_from = now;
        self.phase = Phase::Settle(h);
    }

    fn on_settle(&mut self, h: usize, ev: Event, f: &Facts, now: Instant)
        requires
            sound(old(self)@),
            has_headroom(old(self)@, now),
            old(self)@.phase == Phase::Settle(h),
        ensures
            final(self)@ == step_spec(old(self)@, ev, *f, now),
            sound(final(self)@),
    {
        proof {
            reveal(step_spec);
        }
        if now.millis_since(self.settle_from) < LINK_SETTLE_MS && !f.shutting_down {
            self.phase = Phase::SettleSend(h);
        } else {
            self.hotplug_due = Some(now.plus_millis(HOTPLUG_COALESCE_MS));
            self.next_presence = now.plus_millis(PRESENCE_PERIOD_MS);
            self.phase = Phase::Look(h + 1);
        }
    }

    fn on_look_announced(&mut self, h: usize, ev: Event, f: &Facts, now: Instant)
        requires
            sound(old(self)@),
            has_headroom(old(self)@, now),
            old(self)@.phase == Phase::LookAnnounce(h),
        ensures
            final(self)@ == step_spec(old(self)@, ev, *f, now),
            sound(final(self)@),
    {
        proof {
            reveal(step_spec);
        }
        self.next_presence = now.plus_millis(PRESENCE_PERIOD_MS);
        self.phase = Phase::Look(h + 1);
    }

    fn on_hotplug(&mut self, ev: Event, f: &Facts, now: Instant)
        requires
            sound(old(self)@),
            has_headroom(old(self)@, now),
            old(self)@.phase == Phase::Hotplug,
        ensures
            final(self)@ == step_spec(old(self)@, ev, *f, now),
            sound(final(self)@),
    {
        proof {
            reveal(step_spec);
        }
        let ready = match self.hotplug_due {
            Some(at) => is_due(now, at),
            None => false,
        };
        if ready {
            self.hotplug_due = None;
            if f.dock_wide_modeset && !self.published {
                self.quiet_until = None;
                self.phase = Phase::HotplugHold;
            } else {
                self.phase = Phase::HotplugAnnounce;
            }
            self.published = true;
        } else {
            self.phase = Phase::Video;
        }
    }

    /// Go on from a phase whose outcome decides nothing.
    fn on_rest(&mut self, ev: Event, f: &Facts, now: Instant)
        requires
            sound(old(self)@),
            decides_nothing(old(self)@.phase),
        ensures
            final(self)@ == step_spec(old(self)@, ev, *f, now),
            sound(final(self)@),
    {
        proof {
            reveal(step_spec);
        }
        self.phase =
        match self.phase {
            Phase::DropAll => Phase::Stopped,
            Phase::QuietRest => Phase::Top,
            Phase::ReleaseQuiet => Phase::Exclusive,
            Phase::ExclusiveDrain => Phase::ExclusiveRest,
            Phase::ExclusiveRest => Phase::Top,
            Phase::BeatSend => Phase::Pushes,
            Phase::RecoverConnect(h) => Phase::Recover(h + 1),
            Phase::SettleSend(h) => Phase::SettleRest(h),
            Phase::SettleRest(h) => Phase::Settle(h),
            Phase::LookDrop(h) => Phase::LookAnnounce(h),
            Phase::HotplugHold => Phase::HotplugAnnounce,
            Phase::HotplugAnnounce => Phase::Video,
            Phase::Video => if f.video_on_ctrl_pipe {
                Phase::Scanout
            } else {
                Phase::Rest
            },
            Phase::Scanout => Phase::Rest,
            Phase::Rest => Phase::Top,
            other => other,
        };
    }

    /// Take up what became of the action asked for, outside the walks over the connectors.
    fn apply_round(&mut self, ev: Event, f: &Facts, now: Instant)
        requires
            sound(old(self)@),
            has_headroom(old(self)@, now),
            decides_nothing(old(self)@.phase) || is_round(old(self)@.phase),
        ensures
            final(self)@ == step_spec(old(self)@, ev, *f, now),
            sound(final(self)@),
    {
        match self.phase {
            Phase::Top => self.on_top(ev, f, now),
            Phase::QuietDrain => self.on_quiet_drained(ev, f, now),
            Phase::Exclusive => self.on_exclusive(ev, f, now),
            Phase::Status => self.on_status(ev, f, now),
            Phase::StatusSend => self.on_status_sent(ev, f, now),
            Phase::Beat => self.on_beat(ev, f, now),
            Phase::Pushes => self.on_pushes(ev, f, now),
            Phase::Downstream => self.on_downstream(ev, f, now),
            Phase::Presence => self.on_presence(ev, f, now),
            Phase::Hotplug => self.on_hotplug(ev, f, now),
            _ => self.on_rest(ev, f, now),
        }
    }

    /// Take up what became of the action asked for.
    pub fn apply(&mut self, ev: Event, f: &Facts, now: Instant)
        requires
            sound(old(self)@),
            has_headroom(old(self)@, now),
        ensures
            final(self)@ == step_spec(old(self)@, ev, *f, now),
            sound(final(self)@),
    {
        match self.phase {
            Phase::Recover(h) => self.on_recover(h, ev, f, now),
            Phase::RecoverProbe(h) => self.on_recover_probed(h, ev, f, now),
            Phase::RecoverEngage(h) => self.on_recover_engaged(h, ev, f, now),
            Phase::Look(h) => self.on_look(h, ev, f, now),
            Phase::LookProbe(h) => self.on_look_probed(h, ev, f, now),
            Phase::LookEngage(h) => self.on_look_engaged(h, ev, f, now),
            Phase::LookConnect(h) => self.on_look_connected(h, ev, f, now),
            Phase::Settle(h) => self.on_settle(h, ev, f, now),
            Phase::LookAnnounce(h) => self.on_look_announced(h, ev, f, now),
            _ => self.apply_round(ev, f, now),
        }
    }

    /// Status queries sent.
    pub fn polls(&self) -> (n: u32)
        ensures
            n == self@.sent,
    {
        self.sent
    }

    /// What is known of a connector.
    pub fn socket(&self, h: usize) -> (t: Option<Socket>)
        ensures
            t == (if h < self@.sockets.len() {
                Some(self@.sockets[h as int])
            } else {
                None
            }),
    {
        if h < self.sockets.len() {
            Some(self.sockets[h])
        } else {
            None
        }
    }
}

/// The steps after the one that drops a connector record that its monitor is gone and announce
/// it, before anything else is done.
pub proof fn law_drops_are_announced_at_once(
    s: State,
    h: usize,
    ev: Event,
    f: Facts,
    now: Instant,
    then: Instant,
)
    requires
        sound(s),
        s.phase == Phase::LookProbe(h),
        s.sockets[h as int].known,
        !step_spec(s, ev, f, now).sockets[h as int].known,
    ensures
        ({
            let t = step_spec(s, ev, f, now);
            let u = step_spec(t, Event::Done, f, then);
            &&& action_spec(t) == Action::SetDisconnected(h)
            &&& action_spec(u) == Action::Hotplug
            &&& t.hotplug_due is None
        }),
{
    reveal(step_spec);
}

/// Only a presence probe's answer takes a monitor away, and only the probed connector's.
pub proof fn law_monitors_leave_only_by_their_probe(
    s: State,
    ev: Event,
    f: Facts,
    now: Instant,
    h: int,
)
    requires
        sound(s),
        0 <= h < s.sockets.len(),
        s.sockets[h].known,
        !step_spec(s, ev, f, now).sockets[h].known,
    ensures
        s.phase == Phase::LookProbe(h as usize),
        ev is Present || ev is Absent,
        !fact(f.self_blanked, h),
{
    reveal(step_spec);
}

/// A probe that brings no answer changes nothing that is known of any connector.
pub proof fn law_missing_answers_prove_nothing(s: State, h: usize, ev: Event, f: Facts, now: Instant)
    requires
        sound(s),
        s.phase == Phase::LookProbe(h),
        answer(ev) is None,
    ensures
        step_spec(s, ev, f, now).sockets == s.sockets,
{
    reveal(step_spec);
}

/// However often the topology is reported to change, a presence probe is never brought closer
/// than its least gap.
pub proof fn law_presence_probes_keep_their_gap(s: State, ev: Event, f: Facts, now: Instant)
    requires
        s.phase == Phase::Downstream,
        time::has_room(now, HORIZON_MS as int),
    ensures
        ({
            let t = step_spec(s, ev, f, now);
            t.next_presence == s.next_presence || t.next_presence.nanos - now.nanos
                == PRESENCE_MIN_GAP_MS * time::NANOS_PER_MILLI
        }),
{
    reveal(step_spec);
}

/// After a heartbeat its next deadline lies ahead, by a period at most.
pub proof fn law_heartbeats_neither_drift_nor_burst(s: State, ev: Event, f: Facts, now: Instant)
    requires
        s.phase == Phase::Beat,
        due(now, s.next_heartbeat),
        time::has_room(now, HORIZON_MS as int),
        time::has_room(s.next_heartbeat, HEARTBEAT_PERIOD_MS as int),
    ensures
        ({
            let t = step_spec(s, ev, f, now);
            &&& action_spec(t) == Action::SendHeartbeat
            &&& time::millis_between(now, t.next_heartbeat) <= 0
            &&& time::millis_between(t.next_heartbeat, now) <= HEARTBEAT_PERIOD_MS
        }),
{
    reveal(step_spec);
}

/// A dock that stopped answering has its outputs taken down, and the upkeep ends.
pub proof fn law_dead_links_end_the_upkeep(s: State, ev: Event, f: Facts, now: Instant, then: Instant)
    requires
        s.phase == Phase::Top,
        !f.shutting_down,
        !f.link_alive,
    ensures
        ({
            let t = step_spec(s, ev, f, now);
            &&& action_spec(t) == Action::DropConnectors
            &&& action_spec(step_spec(t, Event::Done, f, then)) == Action::Stop
        }),
{
    reveal(step_spec);
}

} // verus!
