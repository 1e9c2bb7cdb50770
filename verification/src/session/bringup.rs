//! The attempts at a session, what is published of it, and the connectors that answer late.

use vstd::prelude::*;

use crate::time;
use crate::time::Instant;

verus! {

/// Attempts at a session.
pub const SESSION_ATTEMPTS: u32 = 8;

/// Pause after the first failed attempt, in milliseconds.
pub const FIRST_BACKOFF_MS: i64 = 250;

/// How long deferred connectors are retried before the topology is published, in milliseconds.
pub const INITIAL_RECOVERY_MS: i64 = 6000;

/// Time granted after a connector answers, for a sibling close behind it.
pub const SIBLING_GRACE_MS: i64 = 1500;

/// Pause between passes over the deferred connectors.
pub const RECOVERY_PAUSE_MS: i64 = 250;

/// How long a link is trained before the topology is published.
pub const TRAINING_MS: i64 = 1300;

/// What follows an attempt.
#[derive(Clone, Copy, Debug, PartialEq, Eq, Structural)]
pub enum AfterAttempt {
    /// The session stands.
    Established,
    /// Another attempt, after so many milliseconds.
    Retry(i64),
    /// The device is given up.
    GiveUp,
}

/// Two to the power of `n`.
pub open spec fn doubled(n: nat) -> int
    decreases n,
{
    if n == 0 {
        1
    } else {
        2 * doubled((n - 1) as nat)
    }
}

/// The pause after failed attempt `attempt`: doubled each time, five times at most.
pub open spec fn backoff(attempt: int) -> int {
    FIRST_BACKOFF_MS * doubled(
        (if attempt - 1 < 5 {
            attempt - 1
        } else {
            5
        }) as nat,
    )
}

/// What follows attempt `attempt`, counted from one.
pub fn after_attempt(attempt: u32, succeeded: bool) -> (next: AfterAttempt)
    requires
        attempt >= 1,
    ensures
        next == (if succeeded {
            AfterAttempt::Established
        } else if attempt < SESSION_ATTEMPTS {
            AfterAttempt::Retry(backoff(attempt as int) as i64)
        } else {
            AfterAttempt::GiveUp
        }),
{
    if succeeded {
        return AfterAttempt::Established;
    }
    if attempt < SESSION_ATTEMPTS {
        let limit: u32 = if attempt - 1 < 5 {
            attempt - 1
        } else {
            5
        };
        let mut ms: i64 = FIRST_BACKOFF_MS;
        let mut i: u32 = 0;
        while i < limit
            invariant
                i <= limit <= 5,
                ms == FIRST_BACKOFF_MS * doubled(i as nat),
            decreases limit - i,
        {
            proof {
                reveal_with_fuel(doubled, 6);
                assert(i == 0 || i == 1 || i == 2 || i == 3 || i == 4);
                assert(doubled(i as nat) <= 16);
            }
            ms = 2 * ms;
            i += 1;
        }
        AfterAttempt::Retry(ms)
    } else {
        AfterAttempt::GiveUp
    }
}

/// The pauses of the first `n` failed attempts together.
pub open spec fn waited(n: nat) -> int
    decreases n,
{
    if n == 0 {
        0
    } else {
        waited((n - 1) as nat) + backoff(n as int)
    }
}

/// However many attempts a dock refuses, its pauses together stay below twenty-four seconds, and
/// the last refusal gives it up.
pub proof fn law_refusals_are_given_up(refused: nat)
    requires
        refused < SESSION_ATTEMPTS,
    ensures
        waited(refused) <= 23_750,
        waited((SESSION_ATTEMPTS - 1) as nat) == 23_750,
{
    reveal_with_fuel(doubled, 7);
    reveal_with_fuel(waited, 8);
}

/// Whether a link is still being trained.
pub open spec fn in_training_spec(start: Instant, now: Instant, stopping: bool) -> bool {
    !stopping && now.nanos - start.nanos < TRAINING_MS * time::NANOS_PER_MILLI
}

/// Whether a link is still being trained.
pub fn in_training(start: Instant, now: Instant, stopping: bool) -> (b: bool)
    ensures
        b == in_training_spec(start, now, stopping),
{
    now.is_within(start, TRAINING_MS) && !stopping
}

/// Whether connector `c` is published: its discovery was not deferred and brought an EDID. One
/// without an EDID is not, or the dock would lay out buffers for an output that does not exist.
pub open spec fn is_published(deferred: Seq<bool>, known: Seq<bool>, c: int) -> bool {
    c < deferred.len() && c < known.len() && !deferred[c] && known[c]
}

/// The deferred connectors of a dock and how long they are retried.
#[verifier::ext_equal]
pub ghost struct RecoveryState {
    /// Per connector, whether it is still waited for.
    pub pending: Seq<bool>,
    /// When the rest are given up, once their time has started.
    pub give_up: Instant,
    /// Passes over them.
    pub pass: int,
}

/// Whether the time is up.
pub open spec fn expired(s: RecoveryState, now: Instant) -> bool {
    time::millis_between(now, s.give_up) >= 0
}

/// Whether a connector is still waited for.
pub open spec fn is_pending_spec(s: RecoveryState, c: int) -> bool {
    0 <= c < s.pending.len() && s.pending[c]
}

/// Whether a connector is tried at `now`.
pub open spec fn wants_spec(s: RecoveryState, c: int, now: Instant) -> bool {
    is_pending_spec(s, c) && !expired(s, now)
}

/// The recovery whose time starts at `now`.
pub open spec fn started(s: RecoveryState, now: Instant) -> RecoveryState {
    RecoveryState { give_up: time::later_by(now, INITIAL_RECOVERY_MS as int), ..s }
}

/// Whether there is another pass at `now`.
pub open spec fn goes_on(s: RecoveryState, stopping: bool, now: Instant) -> bool {
    s.pending.contains(true) && !stopping && !expired(s, now)
}

/// The recovery after a connector's probe: only a definite negative stands it down.
pub open spec fn after_probe(s: RecoveryState, c: int, answer: Option<bool>) -> RecoveryState {
    if answer == Some(false) {
        without(s, c)
    } else {
        s
    }
}

/// The recovery with a connector no longer waited for.
pub open spec fn without(s: RecoveryState, c: int) -> RecoveryState {
    if 0 <= c < s.pending.len() {
        RecoveryState { pending: s.pending.update(c, false), ..s }
    } else {
        s
    }
}

/// The recovery after a connector answered: a sibling gets its grace.
pub open spec fn answered(s: RecoveryState, c: int, now: Instant) -> RecoveryState {
    let grace = time::later_by(now, SIBLING_GRACE_MS as int);
    RecoveryState {
        give_up: if time::millis_between(grace, s.give_up) > 0 {
            grace
        } else {
            s.give_up
        },
        ..without(s, c)
    }
}

/// The deferred connectors of a dock that are still waited for.
#[derive(Debug)]
pub struct Recovery {
    pending: Vec<bool>,
    give_up: Instant,
    pass: u32,
}

impl View for Recovery {
    type V = RecoveryState;

    closed spec fn view(&self) -> RecoveryState {
        RecoveryState {
            pending: self.pending@,
            give_up: self.give_up,
            pass: self.pass as int,
        }
    }
}

/// Whether connector `c` is waited for at the start: the dock has it, its discovery was deferred,
/// it is driven at run time and has no monitor yet.
pub open spec fn starts_pending(
    connectors: u8,
    deferred: Seq<bool>,
    runtime: Seq<bool>,
    present: Seq<bool>,
    c: int,
) -> bool {
    c < connectors && deferred[c] && runtime[c] && !present[c]
}

impl Recovery {
    /// The deferred connectors; their time has not started yet.
    pub fn new(
        connectors: u8,
        deferred: &[bool],
        runtime: &[bool],
        present: &[bool],
        now: Instant,
    ) -> (r: Recovery)
        requires
            runtime@.len() == deferred@.len(),
            present@.len() == deferred@.len(),
        ensures
            r@ == (RecoveryState {
                pending: Seq::new(
                    deferred@.len(),
                    |c: int| starts_pending(connectors, deferred@, runtime@, present@, c),
                ),
                give_up: now,
                pass: 0,
            }),
    {
        let mut pending: Vec<bool> = Vec::new();
        let mut c: usize = 0;
        while c < deferred.len()
            invariant
                c <= deferred@.len(),
                runtime@.len() == deferred@.len(),
                present@.len() == deferred@.len(),
                pending@.len() == c,
                forall|j: int|
                    0 <= j < c ==> pending@[j] == starts_pending(
                        connectors,
                        deferred@,
                        runtime@,
                        present@,
                        j,
                    ),
            decreases deferred@.len() - c,
        {
            pending.push(c < connectors as usize && deferred[c] && runtime[c] && !present[c]);
            c += 1;
        }
        let r = Recovery { pending, give_up: now, pass: 0 };
        assert(r@.pending =~= Seq::new(
            deferred@.len(),
            |c: int| starts_pending(connectors, deferred@, runtime@, present@, c),
        ));
        r
    }

    /// Start the time that the connectors are given.
    pub fn start(&mut self, now: Instant)
        requires
            time::has_room(now, INITIAL_RECOVERY_MS as int),
        ensures
            final(self)@ == started(old(self)@, now),
    {
        self.give_up = now.plus_millis(INITIAL_RECOVERY_MS);
    }

    /// Whether a connector is still waited for.
    pub fn is_pending(&self, c: usize) -> (b: bool)
        ensures
            b == is_pending_spec(self@, c as int),
    {
        c < self.pending.len() && self.pending[c]
    }

    /// Whether the time is up.
    fn is_expired(&self, now: Instant) -> (b: bool)
        ensures
            b == expired(self@, now),
    {
        now.millis_since(self.give_up) >= 0
    }

    /// Whether there is another pass; if so it is counted.
    pub fn next_pass(&mut self, stopping: bool, now: Instant) -> (more: bool)
        requires
            old(self)@.pass < u32::MAX,
        ensures
            more == goes_on(old(self)@, stopping, now),
            final(self)@ == (RecoveryState {
                pass: if more {
                    old(self)@.pass + 1
                } else {
                    old(self)@.pass
                },
                ..old(self)@
            }),
    {
        let mut any = false;
        let mut c: usize = 0;
        while c < self.pending.len()
            invariant
                c <= self.pending@.len(),
                self@ == old(self)@,
                any == self.pending@.take(c as int).contains(true),
            decreases self.pending@.len() - c,
        {
            proof {
                let t = self.pending@.take(c as int);
                let u = self.pending@.take(c + 1);
                assert(u =~= t.push(self.pending@[c as int]));
                if t.contains(true) {
                    let j = choose|j: int| 0 <= j < t.len() && t[j];
                    assert(u[j]);
                }
                if self.pending@[c as int] {
                    assert(u[c as int]);
                }
                if u.contains(true) {
                    let j = choose|j: int| 0 <= j < u.len() && u[j];
                    assert(j == c || t[j]);
                }
            }
            if self.pending[c] {
                any = true;
            }
            c += 1;
        }
        assert(self.pending@.take(c as int) =~= self.pending@);
        if any && !stopping && !self.is_expired(now) {
            self.pass = self.pass + 1;
            true
        } else {
            false
        }
    }

    /// Whether a connector is tried.
    pub fn wants(&self, c: usize, now: Instant) -> (b: bool)
        ensures
            b == wants_spec(self@, c as int, now),
    {
        c < self.pending.len() && self.pending[c] && !self.is_expired(now)
    }

    /// Stop waiting for a connector.
    pub fn stand_down(&mut self, c: usize)
        ensures
            final(self)@ == without(old(self)@, c as int),
    {
        if c < self.pending.len() {
            self.pending.set(c, false);
        }
    }

    /// Take up the probe of a connector: only a definite negative stands it down.
    pub fn probed(&mut self, c: usize, answer: Option<bool>)
        ensures
            final(self)@ == after_probe(old(self)@, c as int, answer),
    {
        if let Some(present) = answer {
            if !present {
                self.stand_down(c);
            }
        }
    }

    /// Take up a connector's answer.
    pub fn answer(&mut self, c: usize, now: Instant)
        requires
            time::has_room(now, SIBLING_GRACE_MS as int),
        ensures
            final(self)@ == answered(old(self)@, c as int, now),
    {
        self.stand_down(c);
        let grace = now.plus_millis(SIBLING_GRACE_MS);
        if grace.millis_since(self.give_up) > 0 {
            self.give_up = grace;
        }
    }

    /// Passes made so far.
    pub fn passes(&self) -> (n: u32)
        ensures
            n == self@.pass,
    {
        self.pass
    }
}

/// Connectors still waited for.
pub open spec fn outstanding(pending: Seq<bool>) -> int
    decreases pending.len(),
{
    if pending.len() == 0 {
        0
    } else {
        outstanding(pending.drop_last()) + if pending.last() {
            1int
        } else {
            0int
        }
    }
}

proof fn lemma_one_fewer(pending: Seq<bool>, c: int)
    requires
        0 <= c < pending.len(),
        pending[c],
    ensures
        outstanding(pending.update(c, false)) == outstanding(pending) - 1,
    decreases pending.len(),
{
    let p = pending.update(c, false);
    if c == pending.len() - 1 {
        assert(p.drop_last() =~= pending.drop_last());
    } else {
        assert(p.drop_last() =~= pending.drop_last().update(c, false));
        lemma_one_fewer(pending.drop_last(), c);
    }
}

/// The latest a recovery can be given up, in nanoseconds: each connector still waited for can
/// put it off by one grace.
pub open spec fn latest(s: RecoveryState) -> int {
    s.give_up.nanos + outstanding(s.pending) * (SIBLING_GRACE_MS * time::NANOS_PER_MILLI)
}

/// Recovery ends: an answer within its time never puts off the latest it can be given up, so
/// that a dock of four connectors is waited for twelve seconds at most. Nor does an answer ever
/// cut short what was granted.
pub proof fn law_recovery_is_bounded(s: RecoveryState, c: int, now: Instant)
    requires
        wants_spec(s, c, now),
        time::has_room(now, SIBLING_GRACE_MS as int),
    ensures
        latest(answered(s, c, now)) <= latest(s),
        answered(s, c, now).give_up.nanos >= s.give_up.nanos,
        outstanding(answered(s, c, now).pending) == outstanding(s.pending) - 1,
{
    lemma_one_fewer(s.pending, c);
    let n = outstanding(s.pending);
    let g = SIBLING_GRACE_MS * time::NANOS_PER_MILLI;
    assert((n - 1) * g == n * g - g) by (nonlinear_arith);
}

/// The deferred connectors are waited for six seconds from the start, and which they are stays.
pub proof fn law_recovery_starts_its_time(s: RecoveryState, now: Instant)
    requires
        time::has_room(now, 6000),
    ensures
        started(s, now).give_up.nanos == now.nanos + 6_000_000_000,
        started(s, now).pending == s.pending,
        started(s, now).pass == s.pass,
{
}

} // verus!
