//! What holds of every opening of a session.

use vstd::prelude::*;

use crate::session::bringup;
use crate::session::opening;
use crate::session::opening::{Action, Event, Facts, Phase, Profile};
use crate::time;
use crate::time::Instant;

verus! {

/// An attempt takes the link, and once it has it establishes the session; a link that cannot be
/// taken ends the opening.
pub proof fn law_attempts_take_the_link_and_establish(
    s: opening::State,
    n: u32,
    ev: Event,
    f: Facts,
    now: Instant,
)
    ensures
        s.phase == Phase::Attempt(n) && !f.shutting_down ==> opening::action_spec(
            opening::step_spec(s, ev, f, now),
        ) == Action::OpenLink,
        s.phase == Phase::Open(n) ==> opening::action_spec(
            opening::step_spec(s, Event::Done, f, now),
        ) == Action::Establish && opening::action_spec(
            opening::step_spec(s, Event::Failed, f, now),
        ) == Action::Stop,
        s.phase == Phase::Backoff(n) && n < 8 ==> opening::step_spec(s, ev, f, now).phase
            == Phase::Attempt((n + 1) as u32),
{
    reveal(opening::step_spec);
}

/// A session that was established is taken up with what its discovery found, connector for
/// connector, and published from the first connector on.
pub proof fn law_established_sessions_are_taken_up(
    s: opening::State,
    n: u32,
    deferred: [bool; 4],
    found: [bool; 4],
    f: Facts,
    now: Instant,
    ev: Event,
    g: Facts,
    then: Instant,
)
    requires
        s.phase == Phase::Establish(n),
    ensures
        ({
            let t = opening::step_spec(s, Event::Established { deferred, found }, f, now);
            let u = opening::step_spec(t, ev, g, then);
            &&& opening::action_spec(t) == Action::Engage
            &&& t.deferred == deferred@ && t.found == found@
            &&& u == (opening::State { phase: Phase::Publish(0), ..t })
        }),
{
    reveal(opening::step_spec);
}

/// Publication visits every connector of the dock, in order. One whose discovery was not deferred
/// and brought an EDID has it kept and its monitor recorded; any other is passed over.
pub proof fn law_found_connectors_are_published(
    s: opening::State,
    c: usize,
    ev: Event,
    f: Facts,
    now: Instant,
    ev1: Event,
    f1: Facts,
    t1: Instant,
    ev2: Event,
    f2: Facts,
    t2: Instant,
)
    requires
        opening::sound(s),
        s.phase == Phase::Publish(c),
    ensures
        ({
            let a = opening::step_spec(s, ev, f, now);
            let b = opening::step_spec(a, ev1, f1, t1);
            let d = opening::step_spec(b, ev2, f2, t2);
            let there = c < s.profile.connectors && c < 4;
            &&& there && s.found[c as int] && !s.deferred[c as int] ==> {
                &&& opening::action_spec(a) == Action::SetEdid(c)
                &&& opening::action_spec(b) == Action::SetConnected(c)
                &&& d == (opening::State { phase: Phase::Publish((c + 1) as usize), ..s })
            }
            &&& there && (!s.found[c as int] || s.deferred[c as int]) ==> a == (opening::State {
                phase: Phase::Publish((c + 1) as usize),
                ..s
            })
            &&& !there ==> a == (opening::State { phase: Phase::Defer, ..s })
        }),
{
    reveal(opening::step_spec);
}

/// A monitor is recorded only where its EDID is known: a found connector's, just kept, or one that
/// was engaged and answered.
pub proof fn law_recorded_monitors_have_an_edid(
    s: opening::State,
    ev: Event,
    f: Facts,
    now: Instant,
    c: usize,
)
    requires
        opening::action_spec(opening::step_spec(s, ev, f, now)) == Action::SetConnected(c),
    ensures
        opening::action_spec(s) == Action::SetEdid(c) || (opening::action_spec(s)
            == Action::Reengage(c) && ev is Present),
{
    reveal(opening::step_spec);
}

/// What is waited for on a dock followed step by step: exactly the connectors it has whose discovery
/// was deferred, that are driven, and that have no monitor. Any other dock goes on at once.
pub proof fn law_deferred_connectors_are_waited_for(
    s: opening::State,
    ev: Event,
    f: Facts,
    now: Instant,
    c: int,
)
    requires
        opening::sound(s),
        s.phase == Phase::Defer,
        0 <= c < 4,
    ensures
        ({
            let t = opening::step_spec(s, ev, f, now);
            &&& s.profile.per_connector_onehot ==> {
                &&& t.phase == Phase::Seek(0)
                &&& t.recovery.pending.len() == 4
                &&& t.recovery.pending[c] <==> c < s.profile.connectors && s.deferred[c]
                    && f.runtime@[c] && !f.present@[c]
                &&& t.recovery.pass == 0
            }
            &&& !s.profile.per_connector_onehot ==> opening::action_spec(t) == Action::ReleaseLink
        }),
{
    reveal(opening::step_spec);
}

/// A connector that is waited for stands down only where its probe says there is nothing; the walk
/// goes on to the next either way.
pub proof fn law_probes_stand_down_the_absent(
    s: opening::State,
    c: usize,
    ev: Event,
    f: Facts,
    now: Instant,
    h: int,
)
    requires
        opening::sound(s),
        s.phase == Phase::SeekProbe(c),
        0 <= h < 4,
    ensures
        ({
            let t = opening::step_spec(s, ev, f, now);
            &&& t.recovery.pending[h] == (s.recovery.pending[h] && !(h == c && ev is Absent))
            &&& t.phase == Phase::Seek((c + 1) as usize)
        }),
{
    reveal(opening::step_spec);
}

/// There is another pass exactly while a connector is waited for, time is left and the device stays;
/// it starts at the first connector, and after the last one the opening rests.
pub proof fn law_passes_go_on_while_someone_is_missing(
    s: opening::State,
    ev: Event,
    f: Facts,
    now: Instant,
    c: int,
)
    requires
        opening::sound(s),
        s.phase == Phase::Pass,
        0 <= c < 4,
    ensures
        ({
            let t = opening::step_spec(s, ev, f, now);
            &&& s.recovery.pending[c] && !f.shutting_down && s.recovery.give_up.nanos - now.nanos
                >= 1_000_000 ==> t.phase == Phase::Try(0) && t.recovery.pass == s.recovery.pass + 1
            &&& f.shutting_down || now.nanos >= s.recovery.give_up.nanos || (forall|h: int|
                0 <= h < 4 ==> !(#[trigger] s.recovery.pending[h])) ==> opening::action_spec(t)
                == Action::ReleaseLink
            &&& t.recovery.pending == s.recovery.pending
        }),
{
    reveal(opening::step_spec);
    if s.recovery.pending[c] {
        assert(s.recovery.pending.contains(true));
    }
}

/// A pass tries every connector that is waited for: it is engaged where the dock says what is
/// plugged in, and no longer waited for where it does not. After the last the opening rests.
pub proof fn law_missing_connectors_are_tried(
    s: opening::State,
    c: usize,
    ev: Event,
    f: Facts,
    now: Instant,
)
    requires
        opening::sound(s),
        s.phase == Phase::Try(c),
    ensures
        ({
            let t = opening::step_spec(s, ev, f, now);
            let missing = c < 4 && s.recovery.pending[c as int];
            &&& missing && f.reports_presence && s.recovery.give_up.nanos - now.nanos >= 1_000_000
                ==> opening::action_spec(t) == Action::Reengage(c)
            &&& missing && !f.reports_presence && s.recovery.give_up.nanos - now.nanos >= 1_000_000
                ==> !t.recovery.pending[c as int] && t.phase == Phase::Try((c + 1) as usize)
            &&& c < 4 && !missing ==> t == (opening::State {
                phase: Phase::Try((c + 1) as usize),
                ..s
            })
            &&& c == 4 ==> opening::action_spec(t) == Action::Sleep(250)
        }),
{
    reveal(opening::step_spec);
}

/// A connector that answers its engagement is recorded and no longer waited for, and its siblings
/// get their grace; one that does not is left for the next pass.
pub proof fn law_answering_connectors_are_recorded(
    s: opening::State,
    c: usize,
    ev: Event,
    f: Facts,
    now: Instant,
    done: Event,
    g: Facts,
    then: Instant,
)
    requires
        opening::sound(s),
        s.phase == Phase::TryEngage(c),
        time::has_room(then, 1500),
    ensures
        ({
            let t = opening::step_spec(s, ev, f, now);
            let u = opening::step_spec(t, done, g, then);
            &&& ev is Present ==> {
                &&& opening::action_spec(t) == Action::SetConnected(c)
                &&& !u.recovery.pending[c as int]
                &&& u.recovery.give_up.nanos - then.nanos > 1_500_000_000
                    - 1_000_000
                &&& u.recovery.give_up.nanos >= s.recovery.give_up.nanos
                &&& u.phase == Phase::Try((c + 1) as usize)
            }
            &&& !(ev is Present) ==> t == (opening::State {
                phase: Phase::Try((c + 1) as usize),
                ..s
            })
        }),
{
    reveal(opening::step_spec);
}

/// After the recovery the link is given back and taken again for the rest of the session; one that
/// cannot be taken ends the opening.
pub proof fn law_the_link_changes_hands(
    s: opening::State,
    ev: Event,
    f: Facts,
    now: Instant,
)
    ensures
        s.phase == Phase::LetGo ==> opening::action_spec(s) == Action::ReleaseLink
            && opening::action_spec(opening::step_spec(s, ev, f, now)) == Action::OpenLink,
        s.phase == Phase::Reopen ==> opening::step_spec(s, Event::Done, f, now).phase
            == Phase::Ready && opening::action_spec(opening::step_spec(s, Event::Failed, f, now))
            == Action::Stop,
{
    reveal(opening::step_spec);
}

/// An engaged link that its setup has not trained is, before anything is announced: its status is
/// queried and rests of fifteen milliseconds follow until its time is up.
pub proof fn law_links_are_trained_before_the_announcement(
    s: opening::State,
    ev: Event,
    f: Facts,
    now: Instant,
    done: Event,
    g: Facts,
    then: Instant,
)
    requires
        opening::sound(s),
    ensures
        s.phase == Phase::Ready && f.engaged && !s.profile.per_connector_onehot
            ==> opening::step_spec(s, ev, f, now).phase == Phase::Train && opening::step_spec(
            s,
            ev,
            f,
            now,
        ).train_from == now,
        s.phase == Phase::Ready && !(f.engaged && !s.profile.per_connector_onehot)
            ==> opening::step_spec(s, ev, f, now).phase == Phase::Topology,
        s.phase == Phase::Train && !f.shutting_down && now.nanos - s.train_from.nanos
            < 1_300_000_000 ==> {
            let t = opening::step_spec(s, ev, f, now);
            let u = opening::step_spec(t, done, g, then);
            &&& opening::action_spec(t) == Action::SendStatus
            &&& opening::action_spec(u) == Action::Sleep(15)
            &&& u.polls == s.polls + 1
            &&& u.train_from == s.train_from
        },
        s.phase == Phase::Train && (f.shutting_down || now.nanos - s.train_from.nanos
            >= 1_300_000_000) ==> opening::step_spec(s, ev, f, now).phase
            == Phase::Topology,
        s.phase == Phase::TrainRest ==> opening::step_spec(s, ev, f, now).phase == Phase::Train,
{
    reveal(opening::step_spec);
}

/// What was found is announced: mode sets may reach the dock, and then the topology is announced,
/// in every opening that gets that far; a dock-wide mode set with a monitor to answer it is readied
/// for first. Whether a connector was announced is whether one that is offered has a monitor.
pub proof fn law_openings_end_in_an_announcement(
    s: opening::State,
    ev: Event,
    f: Facts,
    now: Instant,
    c: int,
)
    requires
        opening::sound(s),
        0 <= c < 4,
    ensures
        s.phase == Phase::Topology && f.present@[c] && c < s.profile.offered ==> {
            let t = opening::step_spec(s, ev, f, now);
            &&& t.published
            &&& f.dock_wide_modeset ==> opening::action_spec(t) == Action::HoldForModeset
            &&& !f.dock_wide_modeset ==> opening::action_spec(t) == Action::ActivateKms
        },
        s.phase == Phase::Topology && (forall|h: int|
            0 <= h < 4 && h < s.profile.offered ==> !(#[trigger] f.present@[h])) ==> {
            let t = opening::step_spec(s, ev, f, now);
            !t.published && opening::action_spec(t) == Action::ActivateKms
        },
        s.phase == Phase::Hold ==> opening::action_spec(opening::step_spec(s, ev, f, now))
            == Action::ActivateKms,
        s.phase == Phase::Activate ==> opening::action_spec(opening::step_spec(s, ev, f, now))
            == Action::Hotplug,
        s.phase == Phase::Announce ==> opening::action_spec(opening::step_spec(s, ev, f, now))
            == Action::KeepUp,
        s.phase == Phase::Hold || s.phase == Phase::Activate || s.phase == Phase::Announce
            ==> opening::step_spec(s, ev, f, now).published == s.published,
{
    reveal(opening::step_spec);
}

/// An opening that is done stays done.
pub proof fn law_openings_stay_done(s: opening::State, ev: Event, f: Facts, now: Instant)
    ensures
        s.phase == Phase::Up || s.phase == Phase::Stopped ==> opening::step_spec(s, ev, f, now)
            == s,
{
    reveal(opening::step_spec);
}

/// An opening starts with its first attempt, with nothing found.
pub proof fn law_openings_start_from_nothing(profile: Profile, now: Instant, c: int)
    requires
        0 <= c < 4,
    ensures
        ({
            let s = opening::initial(profile, now);
            &&& s.phase == Phase::Attempt(1)
            &&& s.profile == profile
            &&& !s.found[c] && !s.deferred[c] && !s.recovery.pending[c]
            &&& !s.published
        }),
{
}

/// The pause after a refusal doubles from a quarter of a second to eight seconds.
pub proof fn law_pauses_double(n: int)
    requires
        1 <= n,
    ensures
        bringup::backoff(1) == 250,
        n < 6 ==> bringup::backoff(n + 1) == 2 * bringup::backoff(n),
        n >= 6 ==> bringup::backoff(n) == 8000,
{
    reveal_with_fuel(bringup::doubled, 8);
    if n < 6 {
        assert(bringup::doubled(n as nat) == 2 * bringup::doubled((n - 1) as nat));
    }
}

} // verus!
