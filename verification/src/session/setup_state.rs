//! What the setup burst knows, and what each of its operations does with an outcome.

use vstd::prelude::*;

use crate::error::Error;
use crate::session::drain;
use crate::session::drain::Ep84Drain;
use crate::session::program;
use crate::session::program::{Account, Message, Op, Step, Wait, When};
use crate::session::replies;
use crate::session::replies::Mode;
use crate::time::{Instant, NANOS_PER_MILLI};

verus! {

/// How long a connector's EDID is waited for, in milliseconds.
pub const EDID_REPLY_WAIT: i64 = 2000;

/// How long a connector is polled for readiness, in milliseconds.
pub const EDID_POLL_MAX: i64 = 6000;

/// How long after its key a receiver's H' is looked for, in microseconds.
pub const HPRIME_WAIT_US: i64 = 220_000;

/// How long the first reply to a discovery message is waited for, in milliseconds.
pub const LIVE_REPLY_WAIT: i64 = 8;

/// The receiver-authentication status of a receiver that passed.
pub const RECEIVER_PASSED: u8 = 0x04;

/// What the burst asks to be done next.
#[derive(Clone, Copy, Debug, PartialEq, Eq, Structural)]
pub enum Action {
    /// Nothing.
    Pass,
    /// Write the plaintext marker that arms the cipher.
    Arm,
    /// Send the first message, which is sealed once; through the queue, flushing it, or directly,
    /// for [`HELLO_TRY_TIMEOUT`](crate::session::program::HELLO_TRY_TIMEOUT).
    Hello { ctr: u16, wseq: u32, queued: bool },
    /// Sweep the replies.
    Sweep(Mode),
    /// Seal and send an initialization record.
    Init { id: u16, sub: u16, prefix: u8, a: u8, b: u8, ctr: u16, wseq: u32 },
    /// Clear a video endpoint's halt on the wire.
    ClearHalt(u8),
    /// Sleep, in milliseconds.
    Sleep(i64),
    /// Commit the video engine.
    Commit,
    /// Read the interface state back.
    ReadState,
    /// Draw a connector's secrets and set its video key.
    Begin(u8),
    /// Name a connector's content stream.
    Announce(u8),
    /// Derive a connector's keys from the nonce held.
    Derive(u8),
    /// Seal and send an authentication message.
    HeadSend { connector: u8, index: u8, ctr: u16, wseq: u32 },
    /// Wait out the receiver's computation since the last message.
    Hold,
    /// Derive a connector's key and compute the H' it should have answered.
    ExpectH { connector: u8, repeater: bool },
    /// Encrypt a connector's session key.
    Eks(u8),
    /// Compute the L' a connector should have answered.
    ExpectL(u8),
    /// Compute the V of the receiver list held.
    ExpectV(u8),
    /// Seal and send the dock-wide state transition.
    PostAuth { ctr: u16, wseq: u32 },
    /// Seal and send a finalization step.
    Finalize { id: u16, sub: u16, connector: u8, ctr: u16, wseq: u32 },
    /// Flush the queue.
    Flush,
    /// Send a discovery message and sweep its replies.
    Live { message: Message, ctr: u16, wseq: u32 },
    /// Open a connector's video stream and announce its plane, both directly.
    OpenStream(u8),
}

/// What became of an action.
#[derive(Debug)]
pub enum Event {
    /// There was nothing to do.
    Pass,
    /// It was done.
    Done,
    /// It failed.
    Failed(Error),
    /// Its message was not taken.
    SendFailed(Error),
    /// The replies were swept.
    Swept { tally: Ep84Drain, edid: Option<Vec<u8>> },
    /// A message of so many bytes was sent.
    Sent { len: usize },
    /// A discovery message of so many bytes was sent and its replies swept.
    LiveSent { len: usize, tally: Ep84Drain, edid: Option<Vec<u8>> },
    /// It computed this.
    Digest(Vec<u8>),
}

/// What became of an action.
pub ghost enum Ev {
    Pass,
    Done,
    Failed(Error),
    SendFailed(Error),
    Swept(drain::Tally, Option<Seq<u8>>),
    Sent(int),
    LiveSent(int, drain::Tally, Option<Seq<u8>>),
    Digest(Seq<u8>),
}

impl View for Event {
    type V = Ev;

    open spec fn view(&self) -> Ev {
        match *self {
            Event::Pass => Ev::Pass,
            Event::Done => Ev::Done,
            Event::Failed(e) => Ev::Failed(e),
            Event::SendFailed(e) => Ev::SendFailed(e),
            Event::Swept { tally, edid } => Ev::Swept(tally@, replies::contents(edid)),
            Event::Sent { len } => Ev::Sent(len as int),
            Event::LiveSent { len, tally, edid } => Ev::LiveSent(
                len as int,
                tally@,
                replies::contents(edid),
            ),
            Event::Digest(d) => Ev::Digest(d@),
        }
    }
}

/// What is known of the connector being authenticated.
#[verifier::ext_equal]
pub ghost struct HeadState {
    /// Whether it is being skipped.
    pub skipping: bool,
    /// Its receiver's nonce.
    pub rrx: Option<Seq<u8>>,
    /// Whether its receiver is a repeater.
    pub repeater: Option<bool>,
    /// Whether its key has been derived.
    pub kd: bool,
    /// Whether its session key has been encrypted.
    pub edkey: bool,
    /// Whether its V is there.
    pub v: bool,
    /// The replies to the current message.
    pub d: drain::Tally,
}

/// A connector of which nothing is known.
pub open spec fn fresh_head() -> HeadState {
    HeadState {
        skipping: false,
        rrx: None,
        repeater: None,
        kd: false,
        edkey: false,
        v: false,
        d: drain::empty_tally(),
    }
}

/// What the burst knows.
#[verifier::ext_equal]
pub ghost struct State {
    pub program: Seq<Step>,
    /// Whether an EDID counts only once the dock reports its downstream read complete.
    pub ready_reported: bool,
    /// The step it has reached.
    pub pos: int,
    /// The error it has failed with.
    pub failed: Option<Error>,
    /// The inner counter of the next message.
    pub ctr: int,
    /// The cipher block of the next message.
    pub wseq: int,
    /// Messages sent, frames read, and those acknowledged and rejected.
    pub sent: int,
    pub drained: int,
    pub acks: int,
    pub rejects: int,
    /// Connectors authenticated.
    pub heads: int,
    /// The EDID collected last.
    pub slot: Option<Seq<u8>>,
    /// Per connector: its EDID, whether its capability arrived, whether its discovery was
    /// deferred, whether it was authenticated, and the counter that opened its stream.
    pub edids: Seq<Option<Seq<u8>>>,
    pub present: Seq<bool>,
    pub deferred: Seq<bool>,
    pub authentic: Seq<bool>,
    pub open_ctr: Seq<Option<u16>>,
    /// The connectors whose video stream was opened, as a bit mask.
    pub opened: u32,
    pub head: HeadState,
    /// Whether the first message was accepted, and the error it was refused with last.
    pub accepted: bool,
    pub refusal: Error,
    /// Whether a sweep after finalization brought nothing.
    pub quiet: bool,
    /// Discovery of one connector: whether the dock reports its read complete, which rounds are
    /// on, and the transport error that ended it.
    pub ready: bool,
    pub early: bool,
    pub polling: bool,
    pub retrying: bool,
    pub transport: Option<Error>,
    /// When the current wait started.
    pub started: Instant,
}

/// The burst at its start: `ctr` continues the authentication's counter, and the cipher starts
/// at block zero.
pub open spec fn initial(program: Seq<Step>, ready_reported: bool, ctr: u16) -> State {
    let n = program::CP_SETUP_CONNECTORS as nat;
    State {
        program,
        ready_reported,
        pos: 0,
        failed: None,
        ctr: ctr as int,
        wseq: 0,
        sent: 0,
        drained: 0,
        acks: 0,
        rejects: 0,
        heads: 0,
        slot: None,
        edids: Seq::new(n, |i: int| None),
        present: Seq::new(n, |i: int| false),
        deferred: Seq::new(n, |i: int| false),
        authentic: Seq::new(n, |i: int| false),
        open_ctr: Seq::new(n, |i: int| None),
        opened: 0,
        head: fresh_head(),
        accepted: false,
        refusal: Error::ETIMEDOUT,
        quiet: false,
        ready: false,
        early: false,
        polling: false,
        retrying: false,
        transport: None,
        started: Instant { nanos: 0 },
    }
}

/// Whether the burst is over.
pub open spec fn finished(s: State) -> bool {
    s.failed is Some || s.pos >= s.program.len()
}

/// Whether every count is within what its counter holds.
pub open spec fn in_range(s: State) -> bool {
    &&& s.ctr <= u16::MAX
    &&& s.wseq <= u32::MAX
    &&& s.sent <= usize::MAX
    &&& s.drained <= usize::MAX
    &&& s.acks <= usize::MAX
    &&& s.rejects <= usize::MAX
    &&& s.heads <= usize::MAX
    &&& s.head.d.reads <= usize::MAX
    &&& s.head.d.acks <= usize::MAX
    &&& s.head.d.rejects <= usize::MAX
}

/// A connector's flag.
pub open spec fn flag(s: Seq<bool>, c: u8) -> bool {
    c < s.len() && s[c as int]
}

/// A per-connector record with one entry replaced.
pub open spec fn with_entry<T>(s: Seq<T>, c: u8, v: T) -> Seq<T> {
    if c < s.len() {
        s.update(c as int, v)
    } else {
        s
    }
}

/// Whether discovery looks at a connector: the first always, and any other unless some connector
/// reported its capability and this one did not.
pub open spec fn candidate(s: State, c: u8) -> bool {
    c == 0 || !s.present.contains(true) || flag(s.present, c)
}

/// Whether a step's condition holds.
pub open spec fn enabled(s: State, when: When) -> bool {
    match when {
        When::Always => true,
        When::Refused => !s.accepted,
        When::Taken => !s.head.skipping,
        When::Skipped => s.head.skipping,
        When::Authentic(c) => flag(s.authentic, c),
        When::Restless => !s.quiet,
        When::Known(c) => c < s.edids.len() && s.edids[c as int] is Some,
        When::Candidate(c) => candidate(s, c),
        When::Working(c) => candidate(s, c) && s.transport is None,
        When::Early(c) => candidate(s, c) && s.transport is None && s.early,
        When::Polling(c) => candidate(s, c) && s.transport is None && s.polling,
        When::Retrying(c) => candidate(s, c) && s.transport is None && s.retrying,
    }
}

/// The sweep that waits for `wait`.
pub open spec fn mode_of(s: State, wait: Wait) -> Mode {
    match wait {
        Wait::Drain(ms) => Mode::Drain { first_wait: ms },
        Wait::Echo => Mode::Lockstep { ictr: s.ctr as u16 },
        Wait::EchoOf(ctr) => Mode::Lockstep { ictr: ctr },
        Wait::Push(want, ms) => Mode::Push { want, wait: ms },
    }
}

/// Whether the EDID is still waited for.
pub open spec fn awaiting(s: State, settle: bool, now: Instant) -> bool {
    (settle || s.slot is None) && now.nanos - s.started.nanos < EDID_REPLY_WAIT * NANOS_PER_MILLI
}

/// What an operation asks to be done.
pub open spec fn action_of(s: State, op: Op, now: Instant) -> Action {
    let (ctr, wseq) = (s.ctr as u16, s.wseq as u32);
    match op {
        Op::Arm => Action::Arm,
        Op::HelloQueued => Action::Hello { ctr, wseq, queued: true },
        Op::HelloTry => Action::Hello { ctr, wseq, queued: false },
        Op::Sweep { wait, .. } => Action::Sweep(mode_of(s, wait)),
        Op::Init { id, sub, prefix, a, b } => Action::Init { id, sub, prefix, a, b, ctr, wseq },
        Op::ClearHalt(h) => Action::ClearHalt(h),
        Op::Sleep(ms) => Action::Sleep(ms),
        Op::Commit => Action::Commit,
        Op::ReadState => Action::ReadState,
        Op::Begin(c) => Action::Begin(c),
        Op::Announce(c) => Action::Announce(c),
        Op::Derive(c) => Action::Derive(c),
        Op::HeadSend { connector, index, .. } => Action::HeadSend { connector, index, ctr, wseq },
        Op::HeadReply { wait, .. } => Action::Sweep(mode_of(s, wait)),
        Op::HeadMore { wait, .. } => Action::Sweep(mode_of(s, wait)),
        Op::Hold => Action::Hold,
        Op::VerifyH(c) => if s.head.d.hprime is None {
            Action::Pass
        } else {
            Action::ExpectH {
                connector: c,
                repeater: if s.head.repeater is Some {
                    s.head.repeater->0
                } else {
                    true
                },
            }
        },
        Op::Eks(c) => Action::Eks(c),
        Op::VerifyL(c) => if s.head.d.lprime is None || !s.head.kd || s.head.rrx is None {
            Action::Pass
        } else {
            Action::ExpectL(c)
        },
        Op::VerifyV(c) => if s.head.d.v is None || !s.head.kd {
            Action::Pass
        } else {
            Action::ExpectV(c)
        },
        Op::PostAuth => Action::PostAuth { ctr, wseq },
        Op::Finalize { id, sub, connector } => Action::Finalize { id, sub, connector, ctr, wseq },
        Op::Flush => Action::Flush,
        Op::DrainQuiet => Action::Sweep(Mode::Drain { first_wait: 10 }),
        Op::Live(message, _) => Action::Live { message, ctr, wseq },
        Op::Await { settle } => if awaiting(s, settle, now) {
            Action::Sweep(Mode::Drain { first_wait: 20 })
        } else {
            Action::Pass
        },
        Op::OpenStream(c) => Action::OpenStream(c),
        _ => Action::Pass,
    }
}

/// What the burst asks to be done next.
pub open spec fn action_spec(s: State, now: Instant) -> Action {
    let step = s.program[s.pos];
    if enabled(s, step.when) {
        action_of(s, step.op, now)
    } else {
        Action::Pass
    }
}

/// The burst, failed.
pub open spec fn fail(s: State, e: Error) -> State {
    State { failed: Some(e), ..s }
}

/// The burst, a step further.
pub open spec fn next(s: State) -> State {
    State { pos: s.pos + 1, ..s }
}

/// An outcome that does not answer the action.
pub open spec fn stray(s: State) -> State {
    fail(s, Error::EINVAL)
}

/// The outcome of an action that either is done, leading to `done`, or fails the burst.
pub open spec fn settled_by(s: State, ev: Ev, done: State) -> State {
    match ev {
        Ev::Done => next(done),
        Ev::Failed(e) => fail(s, e),
        Ev::SendFailed(e) => fail(s, e),
        _ => stray(s),
    }
}

/// Mark the connectors whose stream was opened by the counter a capability reply echoes.
pub open spec fn marked(present: Seq<bool>, open_ctr: Seq<Option<u16>>, echoed: Option<u16>) -> Seq<
    bool,
> {
    match echoed {
        Some(ctr) => Seq::new(
            present.len(),
            |h: int| present[h] || (h < open_ctr.len() && open_ctr[h] == Some(ctr)),
        ),
        None => present,
    }
}

/// Add a sweep to the totals.
pub open spec fn totalled(s: State, d: drain::Tally, mark: bool) -> State {
    State {
        drained: s.drained + d.reads,
        acks: s.acks + d.acks,
        rejects: s.rejects + d.rejects,
        present: if mark {
            marked(s.present, s.open_ctr, d.display_cap_ctr)
        } else {
            s.present
        },
        ..s
    }
}

/// Keep an EDID a sweep found, where the slot is empty.
pub open spec fn slotted(s: State, edid: Option<Seq<u8>>) -> State {
    State { slot: drain::first_of(s.slot, edid), ..s }
}

/// Drop an EDID offered before the dock reported its downstream read complete: it describes the
/// dock's own bridge.
pub open spec fn settle(s: State) -> State {
    if s.ready_reported && !s.ready {
        State { slot: None, ..s }
    } else {
        s
    }
}

/// One attempt at the first message: a refusal is kept, in case there is no further attempt. A
/// message that cannot be sealed is not tried again.
pub open spec fn hello_try(s: State, ev: Ev) -> State {
    match ev {
        Ev::Done => next(State { accepted: true, ..s }),
        Ev::Failed(e) => fail(s, e),
        Ev::SendFailed(e) => next(State { refusal: e, ..s }),
        _ => stray(s),
    }
}

/// A message that has been sent.
pub open spec fn counted(s: State) -> State {
    State { sent: s.sent + 1, ..s }
}

/// Step past a message of `n` cipher blocks.
pub open spec fn advanced(s: State, n: int) -> State {
    State { ctr: s.ctr + 1, wseq: s.wseq + n, ..s }
}

/// The receiver's answer decides whether the connector is skipped.
pub open spec fn gate(s: State, advance: bool, n: int) -> State {
    if s.head.rrx is Some {
        next(s)
    } else {
        let t = if advance {
            advanced(s, n)
        } else {
            s
        };
        next(State { head: HeadState { skipping: true, ..t.head }, ..t })
    }
}

/// The replies to an authentication message.
pub open spec fn head_reply(s: State, ev: Ev, learn: bool) -> State {
    match ev {
        Ev::Swept(d, edid) => next(
            State {
                head: HeadState {
                    d,
                    rrx: drain::first_of(s.head.rrx, d.rrx),
                    repeater: if learn {
                        drain::first_of(s.head.repeater, d.repeater)
                    } else {
                        s.head.repeater
                    },
                    ..s.head
                },
                ..slotted(s, edid)
            },
        ),
        _ => stray(s),
    }
}

/// Further replies to the same message.
pub open spec fn head_more(s: State, ev: Ev, learn: bool) -> State {
    match ev {
        Ev::Swept(d, edid) => next(
            State {
                head: HeadState {
                    d: drain::joined(s.head.d, d),
                    rrx: if learn {
                        drain::first_of(s.head.rrx, d.rrx)
                    } else {
                        s.head.rrx
                    },
                    repeater: if learn {
                        drain::first_of(s.head.repeater, d.repeater)
                    } else {
                        s.head.repeater
                    },
                    ..s.head
                },
                ..slotted(s, edid)
            },
        ),
        _ => stray(s),
    }
}

/// A digest must equal the one the receiver answered.
pub open spec fn compared(s: State, ev: Ev, answered: Seq<u8>, good: State) -> State {
    match ev {
        Ev::Digest(d) => if d == answered {
            next(good)
        } else {
            fail(s, Error::EPROTO)
        },
        Ev::Failed(e) => fail(s, e),
        _ => stray(s),
    }
}

/// The check of H'.
pub open spec fn verify_h(s: State, ev: Ev) -> State {
    match s.head.d.hprime {
        None => fail(s, Error::EPROTO),
        Some(h) => compared(s, ev, h, State { head: HeadState { kd: true, ..s.head }, ..s }),
    }
}

/// The check of L'.
pub open spec fn verify_l(s: State, ev: Ev) -> State {
    if !s.head.kd || s.head.rrx is None {
        fail(s, Error::EPROTO)
    } else {
        match s.head.d.lprime {
            None => fail(s, Error::EPROTO),
            Some(l) => compared(s, ev, l, s),
        }
    }
}

/// The check of V', which is the first half of V.
pub open spec fn verify_v(s: State, ev: Ev) -> State {
    match s.head.d.v {
        None => fail(s, Error::EPROTO),
        Some((_, vprime)) => if !s.head.kd {
            fail(s, Error::EPROTO)
        } else {
            match ev {
                Ev::Digest(v) => if v.len() >= drain::V_PRIME_HALF_LEN && v.take(
                    drain::V_PRIME_HALF_LEN as int,
                ) == vprime {
                    next(State { head: HeadState { v: true, ..s.head }, ..s })
                } else {
                    fail(s, Error::EPROTO)
                },
                Ev::Failed(e) => fail(s, e),
                _ => stray(s),
            }
        },
    }
}

/// A discovery message and its replies. A message that is not taken ends the connector's
/// discovery where it is the connector's own, and the burst otherwise.
pub open spec fn live(s: State, account: Account, ev: Ev) -> State {
    match ev {
        Ev::LiveSent(len, d, edid) => {
            let t = totalled(slotted(s, edid), d, false);
            next(
                State {
                    ctr: t.ctr + 1,
                    wseq: (t.wseq + program::blocks(len)) % 0x1_0000_0000,
                    sent: if account is Counted {
                        t.sent + 1
                    } else {
                        t.sent
                    },
                    ready: t.ready || d.edid_ready,
                    ..t
                },
            )
        },
        Ev::Failed(e) => fail(s, e),
        Ev::SendFailed(e) => if account is Local {
            next(State { transport: Some(e), ..s })
        } else {
            fail(s, e)
        },
        _ => stray(s),
    }
}

/// The wait for an EDID: over once its time is up or, without `settle`, once the EDID is in. A
/// sweep keeps it going, unless with `settle` it brings an EDID that counts.
pub open spec fn awaited(s: State, by_settling: bool, ev: Ev, now: Instant) -> State {
    match ev {
        Ev::Swept(d, edid) => {
            let t = totalled(slotted(s, edid), d, false);
            if by_settling {
                let u = settle(State { ready: t.ready || d.edid_ready, ..t });
                if u.slot is Some {
                    next(State { early: false, ..u })
                } else {
                    u
                }
            } else {
                t
            }
        },
        Ev::Pass => if awaiting(s, by_settling, now) {
            stray(s)
        } else {
            next(s)
        },
        _ => stray(s),
    }
}

/// Move the EDID to a connector.
pub open spec fn store_edid(s: State, c: u8, defer: bool) -> State {
    next(
        State {
            edids: with_entry(s.edids, c, s.slot),
            deferred: if defer {
                with_entry(s.deferred, c, s.slot is None)
            } else {
                s.deferred
            },
            slot: None,
            ..s
        },
    )
}

/// Whether the polls are over.
pub open spec fn polls_over(s: State, timed: bool, now: Instant) -> bool {
    s.slot is Some || s.ready || (timed && now.nanos - s.started.nanos > EDID_POLL_MAX
        * NANOS_PER_MILLI)
}

/// Finish a connector: a transport error defers it and drops its EDID.
pub open spec fn discover_end(s: State, c: u8) -> State {
    next(
        State {
            edids: with_entry(
                s.edids,
                c,
                if s.transport is Some {
                    None
                } else {
                    s.slot
                },
            ),
            deferred: with_entry(s.deferred, c, s.transport is Some),
            slot: None,
            ..s
        },
    )
}

/// What an operation without any outcome does.
#[verifier::opaque]
pub open spec fn internal(s: State, op: Op, now: Instant) -> State {
    match op {
        Op::HelloSent => if s.accepted {
            next(counted(s))
        } else {
            fail(s, s.refusal)
        },
        Op::Advance(n) => next(advanced(s, n as int)),
        Op::Gate { advance, blocks } => gate(s, advance, blocks as int),
        Op::Ready(i) => if (i == 4 && !s.head.edkey) || (i == 5 && !s.head.v) {
            fail(s, Error::EPROTO)
        } else {
            next(s)
        },
        Op::CheckStatus => if s.head.d.auth_status == Some(RECEIVER_PASSED) {
            next(s)
        } else {
            fail(s, Error::EPROTO)
        },
        Op::CheckM => if s.head.d.mprime is Some {
            next(s)
        } else {
            fail(s, Error::EPROTO)
        },
        Op::Tally { mark } => next(totalled(s, s.head.d, mark)),
        Op::Authenticated(c) => next(
            State { authentic: with_entry(s.authentic, c, true), heads: s.heads + 1, ..s },
        ),
        Op::AckGate => if s.acks == 0 {
            fail(s, Error::EPROTO)
        } else {
            next(s)
        },
        Op::ClearEdid => next(State { slot: None, ..s }),
        Op::StartTimer => next(State { started: now, ..s }),
        Op::StoreEdid { connector, defer } => store_edid(s, connector, defer),
        Op::DiscoverBegin => next(
            State {
                slot: None,
                ready: false,
                early: false,
                polling: false,
                retrying: false,
                transport: None,
                ..s
            },
        ),
        Op::EarlyCheck => next(State { early: settle(s).slot is None, ..settle(s) }),
        Op::PollOpen => next(
            State { polling: s.slot is None, retrying: s.slot is None, started: now, ..s },
        ),
        Op::PollCheck { timed } => next(
            State { polling: s.polling && !polls_over(s, timed, now), ..s },
        ),
        Op::RetryCheck => next(State { retrying: settle(s).slot is None, ..settle(s) }),
        Op::DiscoverEnd(c) => discover_end(s, c),
        _ => stray(s),
    }
}

/// Whether an operation is one without any outcome.
pub open spec fn is_internal(op: Op) -> bool {
    match op {
        Op::HelloSent => true,
        Op::Advance(_) => true,
        Op::Gate { .. } => true,
        Op::Ready(_) => true,
        Op::CheckStatus => true,
        Op::CheckM => true,
        Op::Tally { .. } => true,
        Op::Authenticated(_) => true,
        Op::AckGate => true,
        Op::ClearEdid => true,
        Op::StartTimer => true,
        Op::StoreEdid { .. } => true,
        Op::DiscoverBegin => true,
        Op::EarlyCheck => true,
        Op::PollOpen => true,
        Op::PollCheck { .. } => true,
        Op::RetryCheck => true,
        Op::DiscoverEnd(_) => true,
        _ => false,
    }
}

/// What an operation does with the outcome of its action.
#[verifier::opaque]
pub open spec fn outcome(s: State, op: Op, ev: Ev, now: Instant) -> State {
    match op {
        Op::Arm => settled_by(s, ev, s),
        Op::HelloQueued => settled_by(s, ev, State { accepted: true, ..s }),
        Op::HelloTry => hello_try(s, ev),
        Op::Sweep { mark, .. } => match ev {
            Ev::Swept(d, edid) => next(totalled(slotted(s, edid), d, mark)),
            _ => stray(s),
        },
        Op::Init { .. } => settled_by(s, ev, counted(s)),
        Op::ClearHalt(_) => settled_by(s, ev, s),
        Op::Sleep(_) => settled_by(s, ev, s),
        Op::Commit => settled_by(s, ev, s),
        Op::ReadState => settled_by(s, ev, s),
        Op::Begin(_) => settled_by(s, ev, State { head: fresh_head(), ..s }),
        Op::Announce(_) => settled_by(s, ev, s),
        Op::Derive(_) => settled_by(
            s,
            ev,
            State { head: HeadState { kd: true, edkey: true, v: true, ..s.head }, ..s },
        ),
        Op::HeadSend { connector, opens, .. } => settled_by(
            s,
            ev,
            State {
                open_ctr: if opens {
                    with_entry(s.open_ctr, connector, Some(s.ctr as u16))
                } else {
                    s.open_ctr
                },
                ..counted(s)
            },
        ),
        Op::HeadReply { learn, .. } => head_reply(s, ev, learn),
        Op::HeadMore { learn, .. } => head_more(s, ev, learn),
        Op::Hold => settled_by(s, ev, s),
        Op::VerifyH(_) => verify_h(s, ev),
        Op::Eks(_) => settled_by(s, ev, State { head: HeadState { edkey: true, ..s.head }, ..s }),
        Op::VerifyL(_) => verify_l(s, ev),
        Op::VerifyV(_) => verify_v(s, ev),
        Op::PostAuth => match ev {
            Ev::Sent(len) => next(advanced(counted(s), program::blocks(len))),
            Ev::Failed(e) => fail(s, e),
            Ev::SendFailed(e) => fail(s, e),
            _ => stray(s),
        },
        Op::Finalize { .. } => settled_by(s, ev, counted(s)),
        Op::Flush => match ev {
            Ev::Done => next(s),
            Ev::Failed(_) => next(s),
            Ev::SendFailed(_) => next(s),
            _ => stray(s),
        },
        Op::DrainQuiet => match ev {
            Ev::Swept(d, edid) => next(
                State { quiet: d.reads == 0, ..totalled(slotted(s, edid), d, false) },
            ),
            _ => stray(s),
        },
        Op::Live(_, account) => live(s, account, ev),
        Op::Await { settle } => awaited(s, settle, ev, now),
        Op::OpenStream(c) => settled_by(
            s,
            ev,
            State {
                sent: s.sent + 2,
                opened: if c < program::CP_SETUP_CONNECTORS {
                    s.opened | (1u32 << c)
                } else {
                    s.opened
                },
                ..s
            },
        ),
        _ => stray(s),
    }
}

/// The burst after the outcome of the action it asked for.
pub open spec fn step_spec(s: State, ev: Ev, now: Instant) -> State {
    let step = s.program[s.pos];
    if !enabled(s, step.when) {
        if ev is Pass {
            next(s)
        } else {
            stray(s)
        }
    } else if is_internal(step.op) {
        if ev is Pass {
            internal(s, step.op, now)
        } else {
            stray(s)
        }
    } else {
        outcome(s, step.op, ev, now)
    }
}

/// The tally an outcome brings.
pub open spec fn tally_of(ev: Ev) -> drain::Tally {
    match ev {
        Ev::Swept(d, _) => d,
        Ev::LiveSent(_, d, _) => d,
        _ => drain::empty_tally(),
    }
}

/// The most cipher blocks an operation may step past.
pub open spec fn most_blocks(op: Op, ev: Ev) -> int {
    match op {
        Op::Advance(n) => n as int,
        Op::Gate { blocks, .. } => blocks as int,
        Op::PostAuth => match ev {
            Ev::Sent(len) => program::blocks(len),
            _ => 0,
        },
        _ => 0,
    }
}

/// Whether every counter has room for an outcome, whatever the operation makes of it.
pub open spec fn headroom(s: State, ev: Ev) -> bool {
    let d = tally_of(ev);
    &&& s.ctr < u16::MAX
    &&& s.wseq + most_blocks(s.program[s.pos].op, ev) <= u32::MAX
    &&& s.sent + 2 <= usize::MAX
    &&& s.heads < usize::MAX
    &&& s.drained + d.reads + s.head.d.reads <= usize::MAX
    &&& s.acks + d.acks + s.head.d.acks <= usize::MAX
    &&& s.rejects + d.rejects + s.head.d.rejects <= usize::MAX
}

/// Whether no count is negative.
pub open spec fn counts(s: State, ev: Ev) -> bool {
    let d = tally_of(ev);
    &&& 0 <= s.ctr
    &&& 0 <= s.wseq
    &&& 0 <= s.sent
    &&& 0 <= s.drained
    &&& 0 <= s.acks
    &&& 0 <= s.rejects
    &&& 0 <= s.heads
    &&& 0 <= s.head.d.reads
    &&& 0 <= s.head.d.acks
    &&& 0 <= s.head.d.rejects
    &&& 0 <= d.reads
    &&& 0 <= d.acks
    &&& 0 <= d.rejects
}

#[verifier::rlimit(40)]
#[verifier::spinoff_prover]
proof fn lemma_internal_room(s: State, op: Op, now: Instant)
    requires
        in_range(s),
        counts(s, Ev::Pass),
        s.ctr < u16::MAX,
        s.wseq + most_blocks(op, Ev::Pass) <= u32::MAX,
        s.sent < usize::MAX,
        s.heads < usize::MAX,
        s.drained + s.head.d.reads <= usize::MAX,
        s.acks + s.head.d.acks <= usize::MAX,
        s.rejects + s.head.d.rejects <= usize::MAX,
    ensures
        in_range(internal(s, op, now)),
{
    reveal(internal);
    match op {
        Op::HelloSent => {},
        Op::Advance(_) => {},
        Op::Gate { .. } => {},
        Op::Ready(_) => {},
        Op::CheckStatus => {},
        Op::CheckM => {},
        Op::Tally { .. } => {},
        Op::Authenticated(_) => {},
        Op::AckGate => {},
        Op::ClearEdid => {},
        Op::StartTimer => {},
        Op::StoreEdid { .. } => {},
        Op::DiscoverBegin => {},
        Op::EarlyCheck => {},
        Op::PollOpen => {},
        Op::PollCheck { .. } => {},
        Op::RetryCheck => {},
        Op::DiscoverEnd(_) => {},
        _ => {},
    }
}

#[verifier::rlimit(40)]
#[verifier::spinoff_prover]
proof fn lemma_outcome_room(s: State, op: Op, ev: Ev, now: Instant)
    requires
        in_range(s),
        counts(s, ev),
        s.ctr < u16::MAX,
        s.wseq + most_blocks(op, ev) <= u32::MAX,
        s.sent + 2 <= usize::MAX,
        s.drained + tally_of(ev).reads + s.head.d.reads <= usize::MAX,
        s.acks + tally_of(ev).acks + s.head.d.acks <= usize::MAX,
        s.rejects + tally_of(ev).rejects + s.head.d.rejects <= usize::MAX,
    ensures
        in_range(outcome(s, op, ev, now)),
{
    reveal(outcome);
    match op {
        Op::HelloTry => {},
        Op::Sweep { .. } => {},
        Op::Begin(_) => {},
        Op::Derive(_) => {},
        Op::HeadSend { .. } => {},
        Op::HeadReply { .. } => {},
        Op::HeadMore { .. } => {},
        Op::VerifyH(_) => {},
        Op::Eks(_) => {},
        Op::VerifyL(_) => {},
        Op::VerifyV(_) => {},
        Op::PostAuth => {},
        Op::Flush => {},
        Op::DrainQuiet => {},
        Op::Live(..) => {},
        Op::Await { .. } => {},
        Op::OpenStream(_) => {},
        _ => {},
    }
}

/// Where the counters have room for an outcome, taking it up keeps them in range.
pub proof fn law_room_is_enough(s: State, ev: Ev, now: Instant)
    requires
        in_range(s),
        counts(s, ev),
        !finished(s),
        headroom(s, ev),
    ensures
        in_range(step_spec(s, ev, now)),
{
    let op = s.program[s.pos].op;
    if enabled(s, s.program[s.pos].when) {
        if is_internal(op) {
            if ev is Pass {
                lemma_internal_room(s, op, now);
            }
        } else {
            lemma_outcome_room(s, op, ev, now);
        }
    }
}

} // verus!
