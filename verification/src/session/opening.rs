//! The opening of a session: the attempts at it, the recovery of connectors that answer late, the
//! training of the link, and the first announcement.
//!
//! The opening asks for one action after another and takes up what became of each.

use vstd::prelude::*;

use crate::session::bringup;
use crate::session::bringup::{
    AfterAttempt, RECOVERY_PAUSE_MS, Recovery, SESSION_ATTEMPTS, after_attempt, in_training,
};
use crate::time;
use crate::time::Instant;

verus! {

/// Connectors the opening has room for.
pub const CONNECTORS: usize = 4;

/// Pause between the status queries of a link in training, in milliseconds.
pub const TRAINING_POLL_MS: i64 = 15;

/// What the opening is about to do.
#[derive(Clone, Copy, Debug, PartialEq, Eq, Structural)]
pub enum Phase {
    /// Start attempt `n`, unless the device is going away.
    Attempt(u32),
    /// Take the link for attempt `n`.
    Open(u32),
    /// Initialize, authenticate and set up the session.
    Establish(u32),
    /// Give the link back after attempt `n` failed.
    Release(u32),
    /// Pause after attempt `n` failed.
    Backoff(u32),
    /// Publish the session to the rest of the driver.
    Engage,
    /// See whether a connector is published.
    Publish(usize),
    /// Keep its EDID.
    PublishEdid(usize),
    /// Record its monitor.
    PublishConnect(usize),
    /// Find the connectors that are still waited for.
    Defer,
    /// See whether one is probed.
    Seek(usize),
    /// Probe it.
    SeekProbe(usize),
    /// See whether there is another pass over those that are left.
    Pass,
    /// See whether one is engaged.
    Try(usize),
    /// Engage it.
    TryEngage(usize),
    /// Record its monitor.
    TryConnect(usize),
    /// Rest after a pass.
    Pause,
    /// Give the link back.
    LetGo,
    /// Take the link for the rest of the session.
    Reopen,
    /// See whether the link is trained.
    Ready,
    /// See whether it is still in training.
    Train,
    /// Query the status meanwhile.
    TrainSend,
    /// Rest meanwhile.
    TrainRest,
    /// See whether there is anything to announce.
    Topology,
    /// Keep the link quiet for the first mode set.
    Hold,
    /// Let mode sets reach the dock.
    Activate,
    /// Announce the topology.
    Announce,
    /// Done: the session is to be kept up.
    Up,
    /// Done: there is no session.
    Stopped,
}

/// What the opening asks to be done.
#[derive(Clone, Copy, Debug, PartialEq, Eq, Structural)]
pub enum Action {
    /// Nothing.
    Pass,
    /// Take the link.
    OpenLink,
    /// Initialize, authenticate and set up the session.
    Establish,
    /// Give the link back.
    ReleaseLink,
    /// Sleep, in milliseconds.
    Sleep(i64),
    /// Publish the session to the rest of the driver.
    Engage,
    /// Keep a connector's EDID.
    SetEdid(usize),
    /// Record a connector's monitor.
    SetConnected(usize),
    /// Probe a connector.
    Probe(usize),
    /// Engage a connector.
    Reengage(usize),
    /// Query the status.
    SendStatus,
    /// Keep the link quiet for the first mode set.
    HoldForModeset,
    /// Let mode sets reach the dock.
    ActivateKms,
    /// Announce the topology.
    Hotplug,
    /// Keep the session up.
    KeepUp,
    /// Stop.
    Stop,
}

/// What became of an action.
#[derive(Clone, Copy, Debug)]
pub enum Event {
    /// It was done, or there was nothing to do.
    Done,
    /// It failed.
    Failed,
    /// The probe found a monitor, or the engagement brought an EDID.
    Present,
    /// The probe answered that there is nothing.
    Absent,
    /// The session was established: per connector, whether its discovery was deferred and whether
    /// it brought an EDID.
    Established { deferred: [bool; 4], found: [bool; 4] },
}

/// What the dock's profile says of its opening.
#[derive(Clone, Copy, Debug)]
pub struct Profile {
    /// Connectors the dock has.
    pub connectors: u8,
    /// Connectors the driver offers.
    pub offered: u8,
    /// Whether each connector's authentication is followed step by step.
    pub per_connector_onehot: bool,
}

/// The state of the driver's other parts.
#[derive(Clone, Copy, Debug)]
pub struct Facts {
    /// Whether the device is going away.
    pub shutting_down: bool,
    /// Whether the encrypted session is engaged.
    pub engaged: bool,
    /// Whether the dock says what is plugged in.
    pub reports_presence: bool,
    /// Whether a mode set is dock-wide.
    pub dock_wide_modeset: bool,
    /// Per connector, whether it is driven at run time.
    pub runtime: [bool; 4],
    /// Per connector, whether it has a monitor.
    pub present: [bool; 4],
}

/// What the opening knows.
#[verifier::ext_equal]
pub ghost struct State {
    /// The dock.
    pub profile: Profile,
    /// What it is about to do.
    pub phase: Phase,
    /// Per connector, whether its discovery was deferred.
    pub deferred: Seq<bool>,
    /// Per connector, whether its discovery brought an EDID.
    pub found: Seq<bool>,
    /// The connectors still waited for.
    pub recovery: bringup::RecoveryState,
    /// When the training started.
    pub train_from: Instant,
    /// Status queries of the training.
    pub polls: int,
    /// Whether a connector was announced.
    pub published: bool,
}

/// The opening at its start.
pub open spec fn initial(profile: Profile, now: Instant) -> State {
    State {
        profile,
        phase: Phase::Attempt(1),
        deferred: Seq::new(4, |c: int| false),
        found: Seq::new(4, |c: int| false),
        recovery: bringup::RecoveryState {
            pending: Seq::new(4, |c: int| false),
            give_up: now,
            pass: 0,
        },
        train_from: now,
        polls: 0,
        published: false,
    }
}

/// The opening in another phase.
pub open spec fn to(s: State, phase: Phase) -> State {
    State { phase, ..s }
}

/// What the opening asks to be done.
pub open spec fn action_spec(s: State) -> Action {
    match s.phase {
        Phase::Open(_) => Action::OpenLink,
        Phase::Establish(_) => Action::Establish,
        Phase::Release(_) => Action::ReleaseLink,
        Phase::Backoff(n) => Action::Sleep(bringup::backoff(n as int) as i64),
        Phase::Engage => Action::Engage,
        Phase::PublishEdid(c) => Action::SetEdid(c),
        Phase::PublishConnect(c) => Action::SetConnected(c),
        Phase::SeekProbe(c) => Action::Probe(c),
        Phase::TryEngage(c) => Action::Reengage(c),
        Phase::TryConnect(c) => Action::SetConnected(c),
        Phase::Pause => Action::Sleep(RECOVERY_PAUSE_MS),
        Phase::LetGo => Action::ReleaseLink,
        Phase::Reopen => Action::OpenLink,
        Phase::TrainSend => Action::SendStatus,
        Phase::TrainRest => Action::Sleep(TRAINING_POLL_MS),
        Phase::Hold => Action::HoldForModeset,
        Phase::Activate => Action::ActivateKms,
        Phase::Announce => Action::Hotplug,
        Phase::Up => Action::KeepUp,
        Phase::Stopped => Action::Stop,
        _ => Action::Pass,
    }
}

/// What a probe answered; an event that is no answer is none.
pub open spec fn answer(ev: Event) -> Option<bool> {
    match ev {
        Event::Present => Some(true),
        Event::Absent => Some(false),
        _ => None,
    }
}

/// After an attempt. Whatever it brought, the link is given back before anything is waited for.
pub open spec fn attempted(s: State, n: u32, ev: Event) -> State {
    match ev {
        Event::Established { deferred, found } => State {
            deferred: deferred@,
            found: found@,
            phase: Phase::Engage,
            ..s
        },
        _ => to(s, Phase::Release(n)),
    }
}

/// Whether a connector is published.
pub open spec fn publish(s: State, c: int) -> State {
    to(
        s,
        if c >= s.profile.connectors || c >= CONNECTORS {
            Phase::Defer
        } else if bringup::is_published(s.deferred, s.found, c) {
            Phase::PublishEdid(c as usize)
        } else {
            Phase::Publish((c + 1) as usize)
        },
    )
}

/// The connectors that are still waited for, on a dock followed step by step; any other dock goes
/// on without them.
pub open spec fn defer(s: State, f: Facts, now: Instant) -> State {
    if s.profile.per_connector_onehot {
        State {
            recovery: bringup::RecoveryState {
                pending: Seq::new(
                    4,
                    |c: int|
                        bringup::starts_pending(
                            s.profile.connectors,
                            s.deferred,
                            f.runtime@,
                            f.present@,
                            c,
                        ),
                ),
                give_up: now,
                pass: 0,
            },
            phase: Phase::Seek(0),
            ..s
        }
    } else {
        to(s, Phase::LetGo)
    }
}

/// Each connector still waited for is probed once. Only then does their time start.
pub open spec fn seek(s: State, c: int, now: Instant) -> State {
    if c >= CONNECTORS {
        State { recovery: bringup::started(s.recovery, now), phase: Phase::Pass, ..s }
    } else if bringup::is_pending_spec(s.recovery, c) {
        to(s, Phase::SeekProbe(c as usize))
    } else {
        to(s, Phase::Seek((c + 1) as usize))
    }
}

/// Whether there is another pass over the connectors that are left.
pub open spec fn pass(s: State, f: Facts, now: Instant) -> State {
    if bringup::goes_on(s.recovery, f.shutting_down, now) {
        State {
            recovery: bringup::RecoveryState { pass: s.recovery.pass + 1, ..s.recovery },
            phase: Phase::Try(0),
            ..s
        }
    } else {
        to(s, Phase::LetGo)
    }
}

/// Whether a connector is engaged. Where the dock does not say what is plugged in there is nothing
/// to recover, and an engagement would reset a sink that is lit.
pub open spec fn attempt_connector(s: State, f: Facts, c: int, now: Instant) -> State {
    if c >= CONNECTORS {
        to(s, Phase::Pause)
    } else if !bringup::wants_spec(s.recovery, c, now) {
        to(s, Phase::Try((c + 1) as usize))
    } else if !f.reports_presence {
        State {
            recovery: bringup::without(s.recovery, c),
            phase: Phase::Try((c + 1) as usize),
            ..s
        }
    } else {
        to(s, Phase::TryEngage(c as usize))
    }
}

/// Whether the link is trained before anything is announced: only an engaged one, and not on a
/// dock followed step by step, whose setup has done it.
pub open spec fn ready(s: State, f: Facts, now: Instant) -> State {
    if f.engaged && !s.profile.per_connector_onehot {
        State { train_from: now, phase: Phase::Train, ..s }
    } else {
        to(s, Phase::Topology)
    }
}

/// Whether the link is still in training.
pub open spec fn train(s: State, f: Facts, now: Instant) -> State {
    to(
        s,
        if bringup::in_training_spec(s.train_from, now, f.shutting_down) {
            Phase::TrainSend
        } else {
            Phase::Topology
        },
    )
}

/// Whether any of the first `n` connectors has a monitor.
pub open spec fn any_present(present: Seq<bool>, n: int) -> bool {
    exists|c: int| 0 <= c < n && c < present.len() && #[trigger] present[c]
}

/// Whether the link is kept quiet for the mode set that answers the announcement: only where a
/// mode set is dock-wide and there is a monitor to announce.
pub open spec fn topology(s: State, f: Facts) -> State {
    let published = any_present(f.present@, s.profile.offered as int);
    State {
        published,
        phase: if f.dock_wide_modeset && published {
            Phase::Hold
        } else {
            Phase::Activate
        },
        ..s
    }
}

/// The opening after the outcome of the action it asked for.
#[verifier::opaque]
pub open spec fn step_spec(s: State, ev: Event, f: Facts, now: Instant) -> State {
    match s.phase {
        Phase::Attempt(n) => to(
            s,
            if f.shutting_down {
                Phase::Stopped
            } else {
                Phase::Open(n)
            },
        ),
        Phase::Open(n) => to(
            s,
            if ev is Done {
                Phase::Establish(n)
            } else {
                Phase::Stopped
            },
        ),
        Phase::Establish(n) => attempted(s, n, ev),
        Phase::Release(n) => to(
            s,
            if n < SESSION_ATTEMPTS {
                Phase::Backoff(n)
            } else {
                Phase::Stopped
            },
        ),
        Phase::Backoff(n) => to(s, Phase::Attempt((n + 1) as u32)),
        Phase::Engage => to(s, Phase::Publish(0)),
        Phase::Publish(c) => publish(s, c as int),
        Phase::PublishEdid(c) => to(s, Phase::PublishConnect(c)),
        Phase::PublishConnect(c) => to(s, Phase::Publish((c + 1) as usize)),
        Phase::Defer => defer(s, f, now),
        Phase::Seek(c) => seek(s, c as int, now),
        Phase::SeekProbe(c) => State {
            recovery: bringup::after_probe(s.recovery, c as int, answer(ev)),
            phase: Phase::Seek((c + 1) as usize),
            ..s
        },
        Phase::Pass => pass(s, f, now),
        Phase::Try(c) => attempt_connector(s, f, c as int, now),
        Phase::TryEngage(c) => to(
            s,
            if ev is Present {
                Phase::TryConnect(c)
            } else {
                Phase::Try((c + 1) as usize)
            },
        ),
        Phase::TryConnect(c) => State {
            recovery: bringup::answered(s.recovery, c as int, now),
            phase: Phase::Try((c + 1) as usize),
            ..s
        },
        Phase::Pause => to(s, Phase::Pass),
        Phase::LetGo => to(s, Phase::Reopen),
        Phase::Reopen => to(
            s,
            if ev is Done {
                Phase::Ready
            } else {
                Phase::Stopped
            },
        ),
        Phase::Ready => ready(s, f, now),
        Phase::Train => train(s, f, now),
        Phase::TrainSend => State { polls: s.polls + 1, phase: Phase::TrainRest, ..s },
        Phase::TrainRest => to(s, Phase::Train),
        Phase::Topology => topology(s, f),
        Phase::Hold => to(s, Phase::Activate),
        Phase::Activate => to(s, Phase::Announce),
        Phase::Announce => to(s, Phase::Up),
        Phase::Up => s,
        Phase::Stopped => s,
    }
}

/// Whether a phase belongs to the recovery of connectors.
pub open spec fn recovers(phase: Phase) -> bool {
    match phase {
        Phase::Seek(_) => true,
        Phase::SeekProbe(_) => true,
        Phase::Pass => true,
        Phase::Try(_) => true,
        Phase::TryEngage(_) => true,
        Phase::TryConnect(_) => true,
        Phase::Pause => true,
        _ => false,
    }
}

/// Whether a phase belongs to the training of the link.
pub open spec fn trains(phase: Phase) -> bool {
    match phase {
        Phase::Train => true,
        Phase::TrainSend => true,
        Phase::TrainRest => true,
        _ => false,
    }
}

/// Whether a phase names an attempt or a connector there is.
pub open spec fn phase_in(phase: Phase) -> bool {
    match phase {
        Phase::Attempt(n) => 1 <= n <= SESSION_ATTEMPTS,
        Phase::Open(n) => 1 <= n <= SESSION_ATTEMPTS,
        Phase::Establish(n) => 1 <= n <= SESSION_ATTEMPTS,
        Phase::Release(n) => 1 <= n <= SESSION_ATTEMPTS,
        Phase::Backoff(n) => 1 <= n < SESSION_ATTEMPTS,
        Phase::Publish(c) => c <= CONNECTORS,
        Phase::PublishEdid(c) => c < CONNECTORS,
        Phase::PublishConnect(c) => c < CONNECTORS,
        Phase::Seek(c) => c <= CONNECTORS,
        Phase::SeekProbe(c) => c < CONNECTORS,
        Phase::Try(c) => c <= CONNECTORS,
        Phase::TryEngage(c) => c < CONNECTORS,
        Phase::TryConnect(c) => c < CONNECTORS,
        _ => true,
    }
}

/// Whether the opening's parts fit together.
pub open spec fn sound(s: State) -> bool {
    &&& s.deferred.len() == CONNECTORS
    &&& s.found.len() == CONNECTORS
    &&& s.recovery.pending.len() == CONNECTORS
    &&& phase_in(s.phase)
    &&& recovers(s.phase) ==> s.profile.per_connector_onehot
    &&& trains(s.phase) ==> !s.profile.per_connector_onehot
}

/// Whether the clock and the counters have room for a step.
pub open spec fn has_headroom(s: State, now: Instant) -> bool {
    &&& time::has_room(now, bringup::INITIAL_RECOVERY_MS as int)
    &&& s.recovery.pass < u32::MAX
    &&& s.polls < u32::MAX
}

/// The opening of a session.
#[derive(Debug)]
pub struct Opening {
    profile: Profile,
    phase: Phase,
    deferred: [bool; 4],
    found: [bool; 4],
    recovery: Recovery,
    train_from: Instant,
    polls: u32,
    published: bool,
}

impl View for Opening {
    type V = State;

    closed spec fn view(&self) -> State {
        State {
            profile: self.profile,
            phase: self.phase,
            deferred: self.deferred@,
            found: self.found@,
            recovery: self.recovery@,
            train_from: self.train_from,
            polls: self.polls as int,
            published: self.published,
        }
    }
}

/// What a probe answered.
fn answer_of(ev: Event) -> (a: Option<bool>)
    ensures
        a == answer(ev),
{
    match ev {
        Event::Present => Some(true),
        Event::Absent => Some(false),
        _ => None,
    }
}

/// Whether an action was done.
fn is_done(ev: Event) -> (b: bool)
    ensures
        b == (ev is Done),
{
    match ev {
        Event::Done => true,
        _ => false,
    }
}

impl Opening {
    /// Start the opening.
    pub fn new(profile: Profile, now: Instant) -> (o: Opening)
        ensures
            o@ == initial(profile, now),
            sound(o@),
    {
        let none: [bool; 4] = [false, false, false, false];
        let o = Opening {
            profile,
            phase: Phase::Attempt(1),
            deferred: none,
            found: none,
            recovery: Recovery::new(0, &none, &none, &none, now),
            train_from: now,
            polls: 0,
            published: false,
        };
        assert(o@.deferred =~= initial(profile, now).deferred);
        assert(o@.found =~= initial(profile, now).found);
        assert(o@.recovery.pending =~= initial(profile, now).recovery.pending);
        o
    }

    /// What is to be done next.
    pub fn next(&self) -> (a: Action)
        requires
            sound(self@),
        ensures
            a == action_spec(self@),
    {
        match self.phase {
            Phase::Open(_) => Action::OpenLink,
            Phase::Establish(_) => Action::Establish,
            Phase::Release(_) => Action::ReleaseLink,
            Phase::Backoff(n) => match after_attempt(n, false) {
                AfterAttempt::Retry(ms) => Action::Sleep(ms),
                _ => Action::Pass,
            },
            Phase::Engage => Action::Engage,
            Phase::PublishEdid(c) => Action::SetEdid(c),
            Phase::PublishConnect(c) => Action::SetConnected(c),
            Phase::SeekProbe(c) => Action::Probe(c),
            Phase::TryEngage(c) => Action::Reengage(c),
            Phase::TryConnect(c) => Action::SetConnected(c),
            Phase::Pause => Action::Sleep(RECOVERY_PAUSE_MS),
            Phase::LetGo => Action::ReleaseLink,
            Phase::Reopen => Action::OpenLink,
            Phase::TrainSend => Action::SendStatus,
            Phase::TrainRest => Action::Sleep(TRAINING_POLL_MS),
            Phase::Hold => Action::HoldForModeset,
            Phase::Activate => Action::ActivateKms,
            Phase::Announce => Action::Hotplug,
            Phase::Up => Action::KeepUp,
            Phase::Stopped => Action::Stop,
            _ => Action::Pass,
        }
    }

    /// Whether the dock has a monitor to announce.
    fn any_connected(&self, f: &Facts) -> (b: bool)
        ensures
            b == any_present(f.present@, self@.profile.offered as int),
    {
        let mut c: usize = 0;
        while c < 4
            invariant
                c <= 4,
                forall|k: int|
                    0 <= k < c && k < self.profile.offered ==> !#[trigger] f.present@[k],
            decreases 4 - c,
        {
            if c < self.profile.offered as usize && f.present[c] {
                assert(f.present@[c as int]);
                return true;
            }
            c += 1;
        }
        false
    }

    /// Take up what became of an attempt's action.
    fn apply_attempt(&mut self, ev: Event, f: &Facts, now: Instant)
        requires
            sound(old(self)@),
            match old(self)@.phase {
                Phase::Attempt(_) | Phase::Open(_) | Phase::Establish(_) | Phase::Release(_)
                | Phase::Backoff(_) => true,
                _ => false,
            },
        ensures
            final(self)@ == step_spec(old(self)@, ev, *f, now),
            sound(final(self)@),
    {
        proof {
            reveal(step_spec);
        }
        match self.phase {
            Phase::Attempt(n) => {
                self.phase =
                if f.shutting_down {
                    Phase::Stopped
                } else {
                    Phase::Open(n)
                };
            },
            Phase::Open(n) => {
                self.phase =
                if is_done(ev) {
                    Phase::Establish(n)
                } else {
                    Phase::Stopped
                };
            },
            Phase::Establish(n) => match ev {
                Event::Established { deferred, found } => {
                    self.deferred = deferred;
                    self.found = found;
                    self.phase = Phase::Engage;
                },
                _ => {
                    self.phase = Phase::Release(n);
                },
            },
            Phase::Release(n) => {
                self.phase =
                if n < SESSION_ATTEMPTS {
                    Phase::Backoff(n)
                } else {
                    Phase::Stopped
                };
            },
            Phase::Backoff(n) => {
                self.phase = Phase::Attempt(n + 1);
            },
            _ => {},
        }
    }

    /// Take up what became of an action of the recovery.
    fn apply_recovery(&mut self, ev: Event, f: &Facts, now: Instant)
        requires
            sound(old(self)@),
            has_headroom(old(self)@, now),
            recovers(old(self)@.phase) || old(self)@.phase is Defer,
        ensures
            final(self)@ == step_spec(old(self)@, ev, *f, now),
            sound(final(self)@),
    {
        proof {
            reveal(step_spec);
        }
        match self.phase {
            Phase::Defer => if self.profile.per_connector_onehot {
                self.recovery = Recovery::new(
                    self.profile.connectors,
                    &self.deferred,
                    &f.runtime,
                    &f.present,
                    now,
                );
                self.phase = Phase::Seek(0);
                assert(self@.recovery.pending =~= step_spec(
                    old(self)@,
                    ev,
                    *f,
                    now,
                ).recovery.pending);
            } else {
                self.phase = Phase::LetGo;
            },
            Phase::Seek(c) => if c >= CONNECTORS {
                self.recovery.start(now);
                self.phase = Phase::Pass;
            } else if self.recovery.is_pending(c) {
                self.phase = Phase::SeekProbe(c);
            } else {
                self.phase = Phase::Seek(c + 1);
            },
            Phase::SeekProbe(c) => {
                self.recovery.probed(c, answer_of(ev));
                self.phase = Phase::Seek(c + 1);
            },
            Phase::Pass => {
                self.phase =
                if self.recovery.next_pass(f.shutting_down, now) {
                    Phase::Try(0)
                } else {
                    Phase::LetGo
                };
            },
            Phase::Try(c) => if c >= CONNECTORS {
                self.phase = Phase::Pause;
            } else if !self.recovery.wants(c, now) {
                self.phase = Phase::Try(c + 1);
            } else if !f.reports_presence {
                self.recovery.stand_down(c);
                self.phase = Phase::Try(c + 1);
            } else {
                self.phase = Phase::TryEngage(c);
            },
            Phase::TryEngage(c) => {
                self.phase =
                match ev {
                    Event::Present => Phase::TryConnect(c),
                    _ => Phase::Try(c + 1),
                };
            },
            Phase::TryConnect(c) => {
                self.recovery.answer(c, now);
                self.phase = Phase::Try(c + 1);
            },
            Phase::Pause => {
                self.phase = Phase::Pass;
            },
            _ => {},
        }
    }

    /// Take up what became of the publication of a connector.
    fn apply_publication(&mut self, ev: Event, f: &Facts, now: Instant)
        requires
            sound(old(self)@),
            match old(self)@.phase {
                Phase::Engage | Phase::Publish(_) | Phase::PublishEdid(_)
                | Phase::PublishConnect(_) => true,
                _ => false,
            },
        ensures
            final(self)@ == step_spec(old(self)@, ev, *f, now),
            sound(final(self)@),
    {
        proof {
            reveal(step_spec);
        }
        match self.phase {
            Phase::Engage => {
                self.phase = Phase::Publish(0);
            },
            Phase::Publish(c) => {
                self.phase =
                if c >= self.profile.connectors as usize || c >= CONNECTORS {
                    Phase::Defer
                } else if !self.deferred[c] && self.found[c] {
                    Phase::PublishEdid(c)
                } else {
                    Phase::Publish(c + 1)
                };
            },
            Phase::PublishEdid(c) => {
                self.phase = Phase::PublishConnect(c);
            },
            Phase::PublishConnect(c) => {
                self.phase = Phase::Publish(c + 1);
            },
            _ => {},
        }
    }

    /// Take up what became of an action between the recovery and the announcement.
    fn apply_announcement(&mut self, ev: Event, f: &Facts, now: Instant)
        requires
            sound(old(self)@),
            has_headroom(old(self)@, now),
            trains(old(self)@.phase) || match old(self)@.phase {
                Phase::LetGo | Phase::Reopen | Phase::Ready | Phase::Topology | Phase::Hold
                | Phase::Activate | Phase::Announce | Phase::Up | Phase::Stopped => true,
                _ => false,
            },
        ensures
            final(self)@ == step_spec(old(self)@, ev, *f, now),
            sound(final(self)@),
    {
        proof {
            reveal(step_spec);
        }
        match self.phase {
            Phase::LetGo => {
                self.phase = Phase::Reopen;
            },
            Phase::Reopen => {
                self.phase =
                if is_done(ev) {
                    Phase::Ready
                } else {
                    Phase::Stopped
                };
            },
            Phase::Ready => if f.engaged && !self.profile.per_connector_onehot {
                self.train_from = now;
                self.phase = Phase::Train;
            } else {
                self.phase = Phase::Topology;
            },
            Phase::Train => {
                self.phase =
                if in_training(self.train_from, now, f.shutting_down) {
                    Phase::TrainSend
                } else {
                    Phase::Topology
                };
            },
            Phase::TrainSend => {
                self.polls = self.polls + 1;
                self.phase = Phase::TrainRest;
            },
            Phase::TrainRest => {
                self.phase = Phase::Train;
            },
            Phase::Topology => {
                self.published = self.any_connected(f);
                self.phase =
                if f.dock_wide_modeset && self.published {
                    Phase::Hold
                } else {
                    Phase::Activate
                };
            },
            Phase::Hold => {
                self.phase = Phase::Activate;
            },
            Phase::Activate => {
                self.phase = Phase::Announce;
            },
            Phase::Announce => {
                self.phase = Phase::Up;
            },
            _ => {},
        }
    }

    /// Take up what became of the action asked for.
    pub fn apply(&mut self, ev: Event, f: &Facts, now: Instant)
        requires
            sound(old(self)@),
            has_headroom(old(self)@, now),
        ensures
            final(self)@ == step_spec(old(self)@, ev, *f, now),
            sound(final(self)@),
    {
        match self.phase {
            Phase::Attempt(_) | Phase::Open(_) | Phase::Establish(_) | Phase::Release(_)
            | Phase::Backoff(_) => self.apply_attempt(ev, f, now),
            Phase::Engage | Phase::Publish(_) | Phase::PublishEdid(_) | Phase::PublishConnect(_)
            => self.apply_publication(ev, f, now),
            Phase::Defer | Phase::Seek(_) | Phase::SeekProbe(_) | Phase::Pass | Phase::Try(_)
            | Phase::TryEngage(_) | Phase::TryConnect(_) | Phase::Pause => self.apply_recovery(
                ev,
                f,
                now,
            ),
            _ => self.apply_announcement(ev, f, now),
        }
    }

    /// Whether a connector was announced.
    pub fn is_published(&self) -> (b: bool)
        ensures
            b == self@.published,
    {
        self.published
    }

    /// Status queries of the training.
    pub fn polls(&self) -> (n: u32)
        ensures
            n == self@.polls,
    {
        self.polls
    }

    /// Passes of the recovery.
    pub fn passes(&self) -> (n: u32)
        ensures
            n == self@.recovery.pass,
    {
        self.recovery.passes()
    }
}

/// No attempt starts once the device is going away.
pub proof fn law_no_attempt_starts_late(s: State, n: u32, ev: Event, f: Facts, now: Instant)
    requires
        s.phase == Phase::Attempt(n),
        f.shutting_down,
    ensures
        action_spec(step_spec(s, ev, f, now)) == Action::Stop,
{
    reveal(step_spec);
}

/// A failed attempt gives the link back before anything is waited for; the last ends the opening.
pub proof fn law_failed_attempts_give_the_link_back(
    s: State,
    n: u32,
    ev: Event,
    f: Facts,
    now: Instant,
    then: Instant,
)
    requires
        sound(s),
        s.phase == Phase::Establish(n),
        !(ev is Established),
    ensures
        ({
            let t = step_spec(s, ev, f, now);
            let u = step_spec(t, Event::Done, f, then);
            &&& action_spec(t) == Action::ReleaseLink
            &&& action_spec(u) == (if n < SESSION_ATTEMPTS {
                Action::Sleep(bringup::backoff(n as int) as i64)
            } else {
                Action::Stop
            })
        }),
{
    reveal(step_spec);
}

/// A connector is engaged only on a dock followed step by step that says what is plugged in, while
/// it is still waited for and its time is not up.
pub proof fn law_engagements_have_a_reason(s: State, ev: Event, f: Facts, now: Instant, c: usize)
    requires
        sound(s),
        action_spec(step_spec(s, ev, f, now)) == Action::Reengage(c),
    ensures
        s.profile.per_connector_onehot,
        f.reports_presence,
        bringup::wants_spec(s.recovery, c as int, now),
{
    reveal(step_spec);
}

/// Each connector that is waited for is probed before the recovery's time starts, and a probe that
/// brings no answer stands none down.
pub proof fn law_probes_precede_the_recovery(s: State, ev: Event, f: Facts, now: Instant, c: usize)
    requires
        sound(s),
        s.phase == Phase::Seek(c) || s.phase == Phase::SeekProbe(c),
    ensures
        ({
            let t = step_spec(s, ev, f, now);
            &&& s.phase == Phase::Seek(c) && bringup::is_pending_spec(s.recovery, c as int)
                ==> action_spec(t) == Action::Probe(c)
            &&& t.phase != Phase::Pass ==> t.recovery.give_up == s.recovery.give_up
            &&& t.phase == Phase::Pass ==> c == CONNECTORS && t.recovery.give_up == time::later_by(
                now,
                bringup::INITIAL_RECOVERY_MS as int,
            )
            &&& !(ev is Absent) ==> t.recovery.pending == s.recovery.pending
        }),
{
    reveal(step_spec);
}

/// A link is trained only where it is engaged and the dock is not followed step by step.
pub proof fn law_training_is_for_engaged_links(s: State, ev: Event, f: Facts, now: Instant)
    requires
        sound(s),
        trains(step_spec(s, ev, f, now).phase),
        !trains(s.phase),
    ensures
        s.phase is Ready,
        f.engaged,
        !s.profile.per_connector_onehot,
{
    reveal(step_spec);
}

/// The link is kept quiet only for a topology that a dock-wide mode set can answer, and the
/// announcement follows once mode sets may reach the dock.
pub proof fn law_quiet_needs_a_topology(s: State, ev: Event, f: Facts, now: Instant)
    requires
        sound(s),
    ensures
        action_spec(step_spec(s, ev, f, now)) == Action::HoldForModeset ==> {
            &&& f.dock_wide_modeset
            &&& any_present(f.present@, s.profile.offered as int)
        },
        action_spec(step_spec(s, ev, f, now)) == Action::Hotplug ==> action_spec(s)
            == Action::ActivateKms,
        action_spec(step_spec(s, ev, f, now)) == Action::KeepUp ==> action_spec(s)
            == Action::Hotplug || action_spec(s) == Action::KeepUp,
{
    reveal(step_spec);
}

} // verus!
