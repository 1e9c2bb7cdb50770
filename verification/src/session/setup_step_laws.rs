//! What each step of a setup burst asks for, and what its outcome changes.

use vstd::prelude::*;

use crate::error::Error;
use crate::session::drain;
use crate::session::program;
use crate::session::program::{Account, Message, Op, Wait, When};
use crate::session::replies::Mode;
use crate::session::setup_state;
use crate::session::setup_state::Action;
use crate::time::Instant;

verus! {

/// Whether a burst is about to perform an operation.
pub open spec fn performs(s: setup_state::State, op: Op) -> bool {
    &&& s.failed is None
    &&& 0 <= s.pos < s.program.len()
    &&& setup_state::enabled(s, s.program[s.pos].when)
    &&& s.program[s.pos].op == op
}

/// A burst asks for what its program says, under the counter and the cipher block it has reached.
pub proof fn law_the_program_is_carried_out(s: setup_state::State, op: Op, now: Instant)
    requires
        performs(s, op),
    ensures
        ({
            let a = setup_state::action_spec(s, now);
            let (ctr, wseq) = (s.ctr as u16, s.wseq as u32);
            match op {
                Op::Arm => a == Action::Arm,
                Op::HelloQueued => a == (Action::Hello { ctr, wseq, queued: true }),
                Op::HelloTry => a == (Action::Hello { ctr, wseq, queued: false }),
                Op::Init { id, sub, prefix, a: x, b } => a == (Action::Init {
                    id,
                    sub,
                    prefix,
                    a: x,
                    b,
                    ctr,
                    wseq,
                }),
                Op::HeadSend { connector, index, opens } => a == (Action::HeadSend {
                    connector,
                    index,
                    ctr,
                    wseq,
                }),
                Op::PostAuth => a == (Action::PostAuth { ctr, wseq }),
                Op::Finalize { id, sub, connector } => a == (Action::Finalize {
                    id,
                    sub,
                    connector,
                    ctr,
                    wseq,
                }),
                Op::Live(message, account) => a == (Action::Live { message, ctr, wseq }),
                Op::ClearHalt(h) => a == Action::ClearHalt(h),
                Op::Sleep(ms) => a == Action::Sleep(ms),
                Op::Commit => a == Action::Commit,
                Op::ReadState => a == Action::ReadState,
                Op::Begin(c) => a == Action::Begin(c),
                Op::Announce(c) => a == Action::Announce(c),
                Op::Derive(c) => a == Action::Derive(c),
                Op::Hold => a == Action::Hold,
                Op::Eks(c) => a == Action::Eks(c),
                Op::Flush => a == Action::Flush,
                Op::OpenStream(c) => a == Action::OpenStream(c),
                Op::DrainQuiet => a == Action::Sweep(Mode::Drain { first_wait: 10 }),
                Op::Sweep { wait, mark } => a == Action::Sweep(setup_state::mode_of(s, wait)),
                Op::HeadReply { wait, learn } => a == Action::Sweep(setup_state::mode_of(s, wait)),
                Op::HeadMore { wait, learn } => a == Action::Sweep(setup_state::mode_of(s, wait)),
                _ => true,
            }
        }),
{
}

/// A sweep waits for what it is told to: an echo is that of the message just sent.
pub proof fn law_sweeps_wait_for_what_they_are_told(s: setup_state::State, wait: Wait)
    ensures
        match wait {
            Wait::Drain(ms) => setup_state::mode_of(s, wait) == (Mode::Drain { first_wait: ms }),
            Wait::Echo => setup_state::mode_of(s, wait) == (Mode::Lockstep { ictr: s.ctr as u16 }),
            Wait::EchoOf(ctr) => setup_state::mode_of(s, wait) == (Mode::Lockstep { ictr: ctr }),
            Wait::Push(want, ms) => setup_state::mode_of(s, wait) == (Mode::Push { want, wait: ms }),
        },
{
}

/// What a step's condition means. A connector is a candidate for discovery where it is the first,
/// where no connector reported its capability, or where it did itself.
pub proof fn law_conditions_mean_what_they_say(s: setup_state::State, c: u8)
    requires
        c < s.present.len(),
        c < s.authentic.len(),
        c < s.edids.len(),
    ensures
        setup_state::enabled(s, When::Always),
        setup_state::enabled(s, When::Refused) <==> !s.accepted,
        setup_state::enabled(s, When::Taken) <==> !s.head.skipping,
        setup_state::enabled(s, When::Skipped) <==> s.head.skipping,
        setup_state::enabled(s, When::Authentic(c)) <==> s.authentic[c as int],
        setup_state::enabled(s, When::Restless) <==> !s.quiet,
        setup_state::enabled(s, When::Known(c)) <==> s.edids[c as int] is Some,
        setup_state::enabled(s, When::Candidate(c)) <==> c == 0 || s.present[c as int] || (forall|
            h: int,
        |
            0 <= h < s.present.len() ==> !(#[trigger] s.present[h])),
        setup_state::enabled(s, When::Working(c)) <==> setup_state::enabled(s, When::Candidate(c))
            && s.transport is None,
        setup_state::enabled(s, When::Early(c)) <==> setup_state::enabled(s, When::Working(c))
            && s.early,
        setup_state::enabled(s, When::Polling(c)) <==> setup_state::enabled(s, When::Working(c))
            && s.polling,
        setup_state::enabled(s, When::Retrying(c)) <==> setup_state::enabled(s, When::Working(c))
            && s.retrying,
{
    if s.present.contains(true) {
        let h = choose|h: int| 0 <= h < s.present.len() && s.present[h] == true;
        assert(s.present[h]);
    } else {
        assert forall|h: int| 0 <= h < s.present.len() implies !(#[trigger] s.present[h]) by {
            if s.present[h] {
                assert(s.present.contains(s.present[h]));
            }
        }
    }
}

/// Stepping past a message moves the counter by one and the cipher by its blocks, and nothing else.
pub proof fn law_messages_are_stepped_past(s: setup_state::State, n: u32, now: Instant)
    requires
        performs(s, Op::Advance(n)),
    ensures
        setup_state::step_spec(s, setup_state::Ev::Pass, now) == (setup_state::State {
            ctr: s.ctr + 1,
            wseq: s.wseq + n,
            pos: s.pos + 1,
            ..s
        }),
{
    reveal(setup_state::internal);
}

/// A message of the burst that was sent is counted once and leaves the counters for the step past
/// it; one that was not fails the burst with its error.
pub proof fn law_sent_messages_are_counted(s: setup_state::State, op: Op, e: Error, now: Instant)
    requires
        performs(s, op),
        op is Init || op is HeadSend || op is Finalize,
    ensures
        ({
            let t = setup_state::step_spec(s, setup_state::Ev::Done, now);
            &&& t.sent == s.sent + 1
            &&& t.pos == s.pos + 1
            &&& t.failed is None
            &&& t.ctr == s.ctr && t.wseq == s.wseq
            &&& t.edids == s.edids && t.authentic == s.authentic && t.present == s.present
        }),
        setup_state::step_spec(s, setup_state::Ev::SendFailed(e), now).failed == Some(e),
        setup_state::step_spec(s, setup_state::Ev::Failed(e), now).failed == Some(e),
{
    reveal(setup_state::outcome);
}

/// The message that opens a connector's stream is remembered by its counter, for that connector
/// alone.
pub proof fn law_stream_openings_are_remembered(
    s: setup_state::State,
    connector: u8,
    index: u8,
    opens: bool,
    h: int,
    now: Instant,
)
    requires
        performs(s, Op::HeadSend { connector, index, opens }),
        0 <= h < s.open_ctr.len(),
    ensures
        setup_state::step_spec(s, setup_state::Ev::Done, now).open_ctr[h] == (if opens && h
            == connector {
            Some(s.ctr as u16)
        } else {
            s.open_ctr[h]
        }),
{
    reveal(setup_state::outcome);
}

/// A capability reply marks exactly the connector whose stream the message it echoes opened; no
/// mark is ever taken back.
pub proof fn law_capabilities_mark_their_connector(
    present: Seq<bool>,
    open_ctr: Seq<Option<u16>>,
    echoed: Option<u16>,
    h: int,
)
    requires
        0 <= h < present.len(),
        open_ctr.len() == present.len(),
    ensures
        setup_state::marked(present, open_ctr, echoed).len() == present.len(),
        setup_state::marked(present, open_ctr, echoed)[h] <==> present[h] || (echoed is Some
            && open_ctr[h] == echoed),
{
}

/// A sweep's frames, acknowledgments and rejections are added to the totals, an EDID it found goes
/// into an empty slot, and a capability it heard is marked where the step says so.
pub proof fn law_sweeps_are_totalled(
    s: setup_state::State,
    wait: Wait,
    mark: bool,
    d: drain::Tally,
    edid: Option<Seq<u8>>,
    now: Instant,
)
    requires
        performs(s, Op::Sweep { wait, mark }),
    ensures
        ({
            let t = setup_state::step_spec(s, setup_state::Ev::Swept(d, edid), now);
            &&& t.drained == s.drained + d.reads
            &&& t.acks == s.acks + d.acks
            &&& t.rejects == s.rejects + d.rejects
            &&& s.slot is None ==> t.slot == edid
            &&& s.slot is Some ==> t.slot == s.slot
            &&& mark ==> t.present == setup_state::marked(s.present, s.open_ctr, d.display_cap_ctr)
            &&& !mark ==> t.present == s.present
            &&& t.failed is None
            &&& t.pos == s.pos + 1
        }),
{
    reveal(setup_state::outcome);
}

/// A sweep after finalization is the last exactly where it brought nothing.
pub proof fn law_rounds_end_with_silence(
    s: setup_state::State,
    d: drain::Tally,
    edid: Option<Seq<u8>>,
    now: Instant,
)
    requires
        performs(s, Op::DrainQuiet),
    ensures
        ({
            let t = setup_state::step_spec(s, setup_state::Ev::Swept(d, edid), now);
            &&& setup_state::enabled(t, When::Restless) <==> d.reads != 0
            &&& t.acks == s.acks + d.acks
            &&& t.drained == s.drained + d.reads
            &&& t.rejects == s.rejects + d.rejects
        }),
{
    reveal(setup_state::outcome);
}

/// The first message: an attempt that is taken ends the attempts, one that is refused leaves its
/// error for when there are no more, and without one that was taken the burst fails with it.
pub proof fn law_the_first_message_must_be_taken(s: setup_state::State, e: Error, now: Instant)
    ensures
        performs(s, Op::HelloTry) ==> {
            let done = setup_state::step_spec(s, setup_state::Ev::Done, now);
            let refused = setup_state::step_spec(s, setup_state::Ev::SendFailed(e), now);
            &&& done.accepted
            &&& !setup_state::enabled(done, When::Refused)
            &&& refused.refusal == e
            &&& refused.accepted == s.accepted
            &&& refused.failed is None
            &&& done.failed is None
        },
        performs(s, Op::HelloSent) ==> {
            let t = setup_state::step_spec(s, setup_state::Ev::Pass, now);
            &&& s.accepted ==> t.failed is None && t.sent == s.sent + 1
            &&& !s.accepted ==> t.failed == Some(s.refusal)
        },
{
    reveal(setup_state::outcome);
    reveal(setup_state::internal);
}

/// The nonce of a receiver is taken up from the first reply that carries one and then kept; so is
/// whether it is a repeater, where the step learns it.
pub proof fn law_nonces_are_taken_up(
    s: setup_state::State,
    wait: Wait,
    learn: bool,
    d: drain::Tally,
    edid: Option<Seq<u8>>,
    now: Instant,
)
    requires
        performs(s, Op::HeadReply { wait, learn }),
    ensures
        ({
            let t = setup_state::step_spec(s, setup_state::Ev::Swept(d, edid), now);
            &&& s.head.rrx is None ==> t.head.rrx == d.rrx
            &&& s.head.rrx is Some ==> t.head.rrx == s.head.rrx
            &&& learn && s.head.repeater is None ==> t.head.repeater == d.repeater
            &&& !learn || s.head.repeater is Some ==> t.head.repeater == s.head.repeater
            &&& t.head.d == d
            &&& t.head.skipping == s.head.skipping && t.head.kd == s.head.kd && t.head.edkey
                == s.head.edkey && t.head.v == s.head.v
            &&& s.slot is None ==> t.slot == edid
        }),
{
    reveal(setup_state::outcome);
}

/// Further replies to a message add to what the first ones brought, and lose none of it.
pub proof fn law_further_replies_add_up(
    s: setup_state::State,
    wait: Wait,
    learn: bool,
    d: drain::Tally,
    edid: Option<Seq<u8>>,
    now: Instant,
)
    requires
        performs(s, Op::HeadMore { wait, learn }),
    ensures
        ({
            let t = setup_state::step_spec(s, setup_state::Ev::Swept(d, edid), now);
            &&& t.head.d.acks == s.head.d.acks + d.acks
            &&& t.head.d.reads == s.head.d.reads + d.reads
            &&& t.head.d.rejects == s.head.d.rejects + d.rejects
            &&& s.head.d.hprime is None ==> t.head.d.hprime == d.hprime
            &&& s.head.d.hprime is Some ==> t.head.d.hprime == s.head.d.hprime
            &&& learn && s.head.rrx is None ==> t.head.rrx == d.rrx
            &&& s.head.rrx is Some ==> t.head.rrx == s.head.rrx
            &&& s.slot is None ==> t.slot == edid
        }),
{
    reveal(setup_state::outcome);
}

/// The replies to an authentication message are added to the totals once.
pub proof fn law_head_replies_are_totalled(s: setup_state::State, mark: bool, now: Instant)
    requires
        performs(s, Op::Tally { mark }),
    ensures
        ({
            let t = setup_state::step_spec(s, setup_state::Ev::Pass, now);
            &&& t.acks == s.acks + s.head.d.acks
            &&& t.drained == s.drained + s.head.d.reads
            &&& t.rejects == s.rejects + s.head.d.rejects
            &&& mark ==> t.present == setup_state::marked(
                s.present,
                s.open_ctr,
                s.head.d.display_cap_ctr,
            )
            &&& !mark ==> t.present == s.present
        }),
{
    reveal(setup_state::internal);
}

/// A connector's secrets are its own: each starts with nothing known of its receiver.
pub proof fn law_connectors_start_fresh(s: setup_state::State, c: u8, now: Instant)
    requires
        performs(s, Op::Begin(c)),
    ensures
        ({
            let t = setup_state::step_spec(s, setup_state::Ev::Done, now);
            &&& !t.head.skipping
            &&& t.head.rrx is None && t.head.repeater is None
            &&& !t.head.kd && !t.head.edkey && !t.head.v
            &&& t.authentic == s.authentic
            &&& t.failed is None
        }),
{
    reveal(setup_state::outcome);
}

/// A digest that equals the receiver's answer lets the burst go on: H' proves the shared key, L'
/// and the first half of V are compared in full.
pub proof fn law_right_digests_are_taken(s: setup_state::State, c: u8, digest: Seq<u8>, now: Instant)
    ensures
        performs(s, Op::VerifyH(c)) && s.head.d.hprime == Some(digest) ==> {
            let t = setup_state::step_spec(s, setup_state::Ev::Digest(digest), now);
            t.failed is None && t.head.kd && t.pos == s.pos + 1
        },
        performs(s, Op::VerifyL(c)) && s.head.d.lprime == Some(digest) && s.head.kd
            && s.head.rrx is Some ==> {
            let t = setup_state::step_spec(s, setup_state::Ev::Digest(digest), now);
            t.failed is None && t.pos == s.pos + 1
        },
        performs(s, Op::VerifyV(c)) && s.head.kd && digest.len() >= 16 && (s.head.d.v matches Some((
            _,
            vprime,
        )) && vprime == digest.take(16)) ==> {
            let t = setup_state::step_spec(s, setup_state::Ev::Digest(digest), now);
            t.failed is None && t.head.v && t.pos == s.pos + 1
        },
{
    reveal(setup_state::outcome);
}

/// What a digest is compared with is asked for: where the receiver answered, the expected digest of
/// that connector is computed; a receiver that did not say is taken for a repeater.
pub proof fn law_expected_digests_are_asked_for(s: setup_state::State, c: u8, now: Instant)
    ensures
        performs(s, Op::VerifyH(c)) && s.head.d.hprime is Some ==> setup_state::action_spec(s, now)
            == (Action::ExpectH {
            connector: c,
            repeater: s.head.repeater != Some(false),
        }),
        performs(s, Op::VerifyL(c)) && s.head.d.lprime is Some && s.head.kd && s.head.rrx is Some
            ==> setup_state::action_spec(s, now) == Action::ExpectL(c),
        performs(s, Op::VerifyV(c)) && s.head.d.v is Some && s.head.kd ==> setup_state::action_spec(
            s,
            now,
        ) == Action::ExpectV(c),
{
}

/// A receiver that does not pass fails the burst: its verdict must be four, M' must have come, and
/// the fifth and sixth messages need their keys.
pub proof fn law_receivers_must_pass(s: setup_state::State, now: Instant)
    ensures
        ({
            let t = setup_state::step_spec(s, setup_state::Ev::Pass, now);
            &&& performs(s, Op::CheckStatus) ==> (t.failed is None <==> s.head.d.auth_status
                == Some(4u8))
            &&& performs(s, Op::CheckM) ==> (t.failed is None <==> s.head.d.mprime is Some)
            &&& performs(s, Op::Ready(4)) ==> (t.failed is None <==> s.head.edkey)
            &&& performs(s, Op::Ready(5)) ==> (t.failed is None <==> s.head.v)
            &&& performs(s, Op::AckGate) ==> (t.failed is None <==> s.acks != 0)
            &&& t.failed is Some && (performs(s, Op::CheckStatus) || performs(s, Op::CheckM)
                || performs(s, Op::Ready(4)) || performs(s, Op::Ready(5)) || performs(
                s,
                Op::AckGate,
            )) ==> t.failed == Some(Error::EPROTO)
        }),
{
    reveal(setup_state::internal);
}

/// Key material comes from its own steps: the session key is there once it has been encrypted, and
/// all of it once the keys have been derived.
pub proof fn law_keys_come_from_their_steps(s: setup_state::State, c: u8, e: Error, now: Instant)
    ensures
        performs(s, Op::Eks(c)) ==> setup_state::step_spec(
            s,
            setup_state::Ev::Done,
            now,
        ).head.edkey && setup_state::step_spec(s, setup_state::Ev::Failed(e), now).failed == Some(e),
        performs(s, Op::Derive(c)) ==> {
            let t = setup_state::step_spec(s, setup_state::Ev::Done, now);
            t.head.kd && t.head.edkey && t.head.v
        },
{
    reveal(setup_state::outcome);
}

/// A connector that counts as authenticated is counted once, and no other is.
pub proof fn law_authentication_is_the_connectors_own(
    s: setup_state::State,
    c: u8,
    h: int,
    now: Instant,
)
    requires
        performs(s, Op::Authenticated(c)),
        0 <= h < s.authentic.len(),
    ensures
        ({
            let t = setup_state::step_spec(s, setup_state::Ev::Pass, now);
            &&& t.authentic.len() == s.authentic.len()
            &&& t.authentic[h] <==> s.authentic[h] || h == c
            &&& t.heads == s.heads + 1
        }),
{
    reveal(setup_state::internal);
}

/// The dock-wide transition is counted and stepped past by its own length.
pub proof fn law_the_transition_steps_past_itself(s: setup_state::State, len: int, now: Instant)
    requires
        performs(s, Op::PostAuth),
        0 <= len,
    ensures
        ({
            let t = setup_state::step_spec(s, setup_state::Ev::Sent(len), now);
            &&& t.ctr == s.ctr + 1
            &&& 16 * (t.wseq - s.wseq - 1) < len <= 16 * (t.wseq - s.wseq)
            &&& t.sent == s.sent + 1
            &&& t.failed is None
        }),
{
    reveal(setup_state::outcome);
}

/// A flush that fails costs nothing: the proof of the session is its acknowledgment.
pub proof fn law_flushes_may_fail(s: setup_state::State, e: Error, now: Instant)
    requires
        performs(s, Op::Flush),
    ensures
        setup_state::step_spec(s, setup_state::Ev::Done, now) == setup_state::next(s),
        setup_state::step_spec(s, setup_state::Ev::Failed(e), now) == setup_state::next(s),
        setup_state::step_spec(s, setup_state::Ev::SendFailed(e), now) == setup_state::next(s),
{
    reveal(setup_state::outcome);
}

/// An action that has no way round its failure fails the burst with its error.
pub proof fn law_failures_are_the_bursts(s: setup_state::State, op: Op, e: Error, now: Instant)
    requires
        performs(s, op),
        op is Arm || op is HelloQueued || op is ClearHalt || op is Sleep || op is Commit
            || op is ReadState || op is Begin || op is Announce || op is Derive || op is Hold
            || op is OpenStream,
    ensures
        setup_state::step_spec(s, setup_state::Ev::Failed(e), now).failed == Some(e),
        setup_state::step_spec(s, setup_state::Ev::Done, now).failed is None,
        setup_state::step_spec(s, setup_state::Ev::Done, now).pos == s.pos + 1,
{
    reveal(setup_state::outcome);
}

/// A discovery message that was sent moves the counter by one and the cipher by its blocks, adds
/// its replies to the totals and keeps an EDID they brought; it counts as sent where it is to.
pub proof fn law_discovery_messages_are_accounted_for(
    s: setup_state::State,
    m: Message,
    account: Account,
    len: int,
    d: drain::Tally,
    edid: Option<Seq<u8>>,
    now: Instant,
)
    requires
        performs(s, Op::Live(m, account)),
        0 <= len,
        0 <= s.wseq,
        s.wseq + len <= 0xffff_ffff,
    ensures
        ({
            let t = setup_state::step_spec(s, setup_state::Ev::LiveSent(len, d, edid), now);
            &&& t.ctr == s.ctr + 1
            &&& 16 * (t.wseq - s.wseq - 1) < len <= 16 * (t.wseq - s.wseq)
            &&& t.sent == s.sent + (if account is Counted {
                1int
            } else {
                0
            })
            &&& t.acks == s.acks + d.acks
            &&& t.drained == s.drained + d.reads
            &&& t.rejects == s.rejects + d.rejects
            &&& s.slot is None ==> t.slot == edid
            &&& s.slot is Some ==> t.slot == s.slot
            &&& t.ready <==> s.ready || d.edid_ready
            &&& t.failed is None
        }),
{
    reveal(setup_state::outcome);
}

/// A discovery message that is not taken ends the discovery of its own connector where it is that
/// connector's, and the burst otherwise.
pub proof fn law_refused_discovery_is_local(
    s: setup_state::State,
    m: Message,
    account: Account,
    e: Error,
    now: Instant,
)
    requires
        performs(s, Op::Live(m, account)),
    ensures
        ({
            let t = setup_state::step_spec(s, setup_state::Ev::SendFailed(e), now);
            &&& account is Local ==> t.failed is None && t.transport == Some(e)
            &&& !(account is Local) ==> t.failed == Some(e)
        }),
{
    reveal(setup_state::outcome);
}

/// The EDID that discovery collected goes to the connector it was collected for, and to no other;
/// the slot is empty for the next. Where the step says so, a connector without one is deferred.
pub proof fn law_edids_go_to_their_connector(
    s: setup_state::State,
    connector: u8,
    defer: bool,
    h: int,
    now: Instant,
)
    requires
        performs(s, Op::StoreEdid { connector, defer }),
        0 <= h < s.edids.len(),
        s.deferred.len() == s.edids.len(),
    ensures
        ({
            let t = setup_state::step_spec(s, setup_state::Ev::Pass, now);
            &&& t.edids.len() == s.edids.len()
            &&& t.edids[h] == (if h == connector {
                s.slot
            } else {
                s.edids[h]
            })
            &&& t.deferred[h] == (if defer && h == connector {
                s.slot is None
            } else {
                s.deferred[h]
            })
            &&& t.slot is None
        }),
{
    reveal(setup_state::internal);
}

/// The end of a connector's own discovery: its EDID is kept, unless its transport failed, which
/// defers it.
pub proof fn law_discoveries_end_with_their_edid(
    s: setup_state::State,
    c: u8,
    h: int,
    now: Instant,
)
    requires
        performs(s, Op::DiscoverEnd(c)),
        0 <= h < s.edids.len(),
        s.deferred.len() == s.edids.len(),
    ensures
        ({
            let t = setup_state::step_spec(s, setup_state::Ev::Pass, now);
            &&& h == c && s.transport is None ==> t.edids[h] == s.slot && !t.deferred[h]
            &&& h == c && s.transport is Some ==> t.edids[h] is None && t.deferred[h]
            &&& h != c ==> t.edids[h] == s.edids[h] && t.deferred[h] == s.deferred[h]
            &&& t.slot is None
        }),
{
    reveal(setup_state::internal);
}

/// A connector's own discovery starts from nothing.
pub proof fn law_discoveries_start_from_nothing(s: setup_state::State, now: Instant)
    requires
        performs(s, Op::DiscoverBegin),
    ensures
        ({
            let t = setup_state::step_spec(s, setup_state::Ev::Pass, now);
            &&& t.slot is None && !t.ready && t.transport is None
            &&& !t.early && !t.polling && !t.retrying
            &&& t.edids == s.edids && t.deferred == s.deferred
        }),
{
    reveal(setup_state::internal);
}

/// Whether an EDID counts: not one that is offered before a dock that reports its downstream read
/// has reported it.
pub open spec fn counts(s: setup_state::State) -> bool {
    s.slot is Some && (s.ready || !s.ready_reported)
}

/// The early round, the polls and the further fetches each go on exactly while no EDID that counts
/// is in. An EDID that does not count is dropped by the rounds that fetch, and one that does is
/// kept.
pub proof fn law_rounds_go_on_without_an_edid(s: setup_state::State, timed: bool, now: Instant)
    ensures
        ({
            let t = setup_state::step_spec(s, setup_state::Ev::Pass, now);
            &&& performs(s, Op::EarlyCheck) ==> t.early == !counts(s) && (counts(s) ==> t.slot
                == s.slot) && (!counts(s) ==> t.slot is None)
            &&& performs(s, Op::RetryCheck) ==> t.retrying == !counts(s) && (counts(s) ==> t.slot
                == s.slot) && (!counts(s) ==> t.slot is None)
            &&& performs(s, Op::PollOpen) ==> t.polling == (s.slot is None) && t.retrying == (s.slot
                is None) && t.started == now && t.slot == s.slot
            &&& performs(s, Op::PollCheck { timed }) ==> t.polling == (s.polling && s.slot is None
                && !s.ready && (timed ==> now.nanos - s.started.nanos <= 6_000_000_000))
                && t.slot == s.slot
            &&& performs(s, Op::ClearEdid) ==> t.slot is None
            &&& performs(s, Op::StartTimer) ==> t.started == now
        }),
{
    reveal(setup_state::internal);
}

/// A wait for an EDID sweeps for two seconds. Without settling it is over once one is in; with it,
/// once one that counts is.
pub proof fn law_edids_are_waited_for(
    s: setup_state::State,
    settle: bool,
    d: drain::Tally,
    edid: Option<Seq<u8>>,
    now: Instant,
)
    requires
        performs(s, Op::Await { settle }),
    ensures
        ({
            let waits = (settle || s.slot is None) && now.nanos - s.started.nanos < 2_000_000_000;
            let t = setup_state::step_spec(s, setup_state::Ev::Swept(d, edid), now);
            let offered = setup_state::State {
                slot: if s.slot is Some {
                    s.slot
                } else {
                    edid
                },
                ready: s.ready || d.edid_ready,
                ..s
            };
            &&& waits ==> setup_state::action_spec(s, now) == Action::Sweep(
                Mode::Drain { first_wait: 20 },
            )
            &&& !waits ==> setup_state::action_spec(s, now) == Action::Pass
                && setup_state::step_spec(s, setup_state::Ev::Pass, now) == setup_state::next(s)
            &&& !settle ==> t.pos == s.pos && t.slot == offered.slot
            &&& settle && counts(offered) ==> t.pos == s.pos + 1 && t.slot == offered.slot
                && !t.early
            &&& settle && !counts(offered) ==> t.pos == s.pos && t.slot is None
            &&& t.acks == s.acks + d.acks
        }),
{
    reveal(setup_state::outcome);
}

/// Opening a connector's stream sets that connector's bit, keeps every other, and counts both
/// messages.
pub proof fn law_opened_streams_are_marked(s: setup_state::State, c: u8, h: u8, now: Instant)
    requires
        performs(s, Op::OpenStream(c)),
        c < 4,
        h < 32,
    ensures
        ({
            let t = setup_state::step_spec(s, setup_state::Ev::Done, now);
            &&& t.opened & (1u32 << h) != 0 <==> s.opened & (1u32 << h) != 0 || h == c
            &&& t.sent == s.sent + 2
            &&& t.ctr == s.ctr && t.wseq == s.wseq
        }),
{
    reveal(setup_state::outcome);
    let m = s.opened;
    assert((m | (1u32 << c)) & (1u32 << h) != 0 <==> m & (1u32 << h) != 0 || h == c)
        by (bit_vector)
        requires
            c < 32,
            h < 32,
    ;
}

/// A step whose condition does not hold is passed over without a trace.
pub proof fn law_untaken_steps_leave_no_trace(s: setup_state::State, now: Instant)
    requires
        !setup_state::finished(s),
        0 <= s.pos,
        !setup_state::enabled(s, s.program[s.pos].when),
    ensures
        setup_state::action_spec(s, now) == Action::Pass,
        setup_state::step_spec(s, setup_state::Ev::Pass, now) == (setup_state::State {
            pos: s.pos + 1,
            ..s
        }),
{
}

/// A burst starts at its first step, with the counter it is given and the cipher at block zero, and
/// with nothing known of any of the four connectors.
pub proof fn law_bursts_start_from_nothing(
    steps: Seq<program::Step>,
    ready_reported: bool,
    ctr: u16,
    h: int,
)
    requires
        0 <= h < 4,
    ensures
        ({
            let s = setup_state::initial(steps, ready_reported, ctr);
            &&& s.pos == 0 && s.failed is None && s.program == steps
            &&& s.ctr == ctr && s.wseq == 0 && s.sent == 0 && s.acks == 0
            &&& s.ready_reported == ready_reported
            &&& s.edids.len() == 4 && s.edids[h] is None
            &&& s.present.len() == 4 && !s.present[h]
            &&& s.deferred.len() == 4 && !s.deferred[h]
            &&& s.authentic.len() == 4 && !s.authentic[h]
            &&& s.open_ctr.len() == 4 && s.open_ctr[h] is None
            &&& s.opened == 0 && !s.accepted && s.slot is None
            &&& s.refusal == Error::ETIMEDOUT
        }),
{
}

/// A burst sees an outcome as it was handed over, byte for byte.
pub proof fn law_outcomes_are_seen_as_given(ev: setup_state::Event)
    ensures
        match ev {
            setup_state::Event::Pass => ev@ == setup_state::Ev::Pass,
            setup_state::Event::Done => ev@ == setup_state::Ev::Done,
            setup_state::Event::Failed(e) => ev@ == setup_state::Ev::Failed(e),
            setup_state::Event::SendFailed(e) => ev@ == setup_state::Ev::SendFailed(e),
            setup_state::Event::Sent { len } => ev@ == setup_state::Ev::Sent(len as int),
            setup_state::Event::Digest(d) => ev@ == setup_state::Ev::Digest(d@),
            setup_state::Event::Swept { tally, edid } => match edid {
                Some(e) => ev@ == setup_state::Ev::Swept(tally@, Some(e@)),
                None => ev@ == setup_state::Ev::Swept(tally@, None),
            },
            setup_state::Event::LiveSent { len, tally, edid } => match edid {
                Some(e) => ev@ == setup_state::Ev::LiveSent(len as int, tally@, Some(e@)),
                None => ev@ == setup_state::Ev::LiveSent(len as int, tally@, None),
            },
        },
{
}

} // verus!
