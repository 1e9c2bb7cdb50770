//! The setup burst as a program: which messages go out, in which order, and under which
//! conditions.
//!
//! The order is the dock's. A message sent out of turn puts the authenticated counter out of
//! step for the rest of the session.

use vstd::prelude::*;

verus! {

/// Connectors a setup burst has room for.
pub const CP_SETUP_CONNECTORS: usize = 4;

/// Submissions of the first message to a dock that refuses it.
pub const HELLO_TRIES: usize = 40;

/// How long one submission of the first message may last, in nanoseconds.
pub const HELLO_TRY_TIMEOUT: i64 = 5_000_000;

/// Sweeps after the first message where replies are not in lockstep.
pub const HELLO_DRAINS: usize = 8;

/// Sweeps after finalization, at most.
pub const MAX_ROUNDS: usize = 16;

/// Readiness polls of one connector, at most.
pub const EDID_POLL_ITERS: usize = 250;

/// Readiness polls per presence probe.
pub const EDID_POLL_PROBE_EVERY: usize = 8;

/// EDID fetches after the polls, at most.
pub const EDID_RETRIES: usize = 24;

/// Pause between discovery messages, in milliseconds.
pub const EDID_STEP_DELAY: i64 = 100;

/// Pause between readiness polls, in milliseconds.
pub const EDID_POLL_DELAY: i64 = 20;

/// Status samples after the clock has been set.
pub const STATUS_SAMPLES: usize = 13;

/// Identifier of the stream-management restatement.
pub const STREAM_MANAGE: u16 = 0x0026;

/// Downstream authentication pushes.
pub const AKE_SEND_CERT: u8 = 0x03;

pub const AKE_RECEIVER_INFO: u8 = 0x14;

pub const AKE_SEND_RRX: u8 = 0x06;

pub const AKE_SEND_H_PRIME: u8 = 0x07;

pub const AKE_SEND_PAIRING_INFO: u8 = 0x08;

pub const LC_SEND_L_PRIME: u8 = 0x0a;

pub const REPEATERAUTH_SEND_RECEIVERID_LIST: u8 = 0x0c;

pub const RECEIVER_AUTH_STATUS: u8 = 0x12;

pub const REPEATERAUTH_STREAM_READY: u8 = 0x11;

/// How replies are collected.
#[derive(Clone, Copy, Debug, PartialEq, Eq, Structural)]
pub enum ReplyDiscipline {
    /// The next message follows the echo of the last.
    Lockstep,
    /// The next message follows a sweep of whatever has arrived.
    Drain,
}

/// Where the video engine is committed.
#[derive(Clone, Copy, Debug, PartialEq, Eq, Structural)]
pub enum VideoCommitPoint {
    /// Ahead of the records that select a connector.
    BeforeConnectorRecords,
    /// After the streams have been finalized.
    AfterFinalize,
}

/// What a dock's profile says of its setup burst.
#[derive(Clone, Copy, Debug)]
pub struct SetupProfile {
    /// Connectors the dock has.
    pub connectors: u8,
    /// Whether each connector's authentication is followed step by step.
    pub per_connector_onehot: bool,
    /// How replies are collected.
    pub reply_discipline: ReplyDiscipline,
    /// Whether the dock expects the dock-wide records.
    pub dock_wide_init: bool,
    /// Where the video engine is committed.
    pub video_commit_point: VideoCommitPoint,
    /// Whether video shares the control pipe.
    pub video_on_ctrl_pipe: bool,
    /// How long a receiver may take to answer with its nonce, in milliseconds.
    pub perhead_rrx_wait_ms: i64,
    /// Whether the dock reports its downstream reads complete.
    pub edid_ready_reported: bool,
    /// Status polls ahead of each connector's stream opening.
    pub polls_before_open: [u8; 4],
    /// Status polls after the last stream opening.
    pub polls_after_opens: u8,
}

/// One message of a connector's authentication.
#[derive(Clone, Copy, Debug, PartialEq, Eq, Structural)]
pub struct HeadStep {
    pub id: u16,
    pub sub: u16,
    /// Length of its content.
    pub len: usize,
}

/// A message of discovery.
#[derive(Clone, Copy, Debug, PartialEq, Eq, Structural)]
pub enum Message {
    /// Ask whether a connector has a monitor.
    Probe(u8),
    /// Start a connector's downstream read.
    Kick(u8),
    /// Fetch a connector's EDID.
    Fetch(u8),
    /// Engage a connector's sink.
    Engage(u8),
    /// Ask for a connector's capabilities once its EDID is known.
    PostEdid(u8),
    /// Query the device.
    Query(u16),
    /// Restate the session's opening.
    Hello,
    /// Keep the session alive.
    Heartbeat,
    /// Set the dock's clock.
    Rtc,
}

/// How a discovery message is accounted for.
#[derive(Clone, Copy, Debug, PartialEq, Eq, Structural)]
pub enum Account {
    /// It counts as sent, and a failure is the session's.
    Counted,
    /// It does not count as sent, and a failure is the session's.
    Silent,
    /// It does not count as sent, and a failure defers the connector.
    Local,
}

/// What a sweep of the replies waits for.
#[derive(Clone, Copy, Debug, PartialEq, Eq, Structural)]
pub enum Wait {
    /// Whatever arrives, this many milliseconds for the first frame.
    Drain(i64),
    /// The echo of the current counter.
    Echo,
    /// The echo of this counter.
    EchoOf(u16),
    /// This push, this many milliseconds for each frame.
    Push(u8, i64),
}

/// What an operation does.
#[derive(Clone, Copy, Debug, PartialEq, Eq, Structural)]
pub enum Op {
    /// Write the plaintext marker that arms the cipher.
    Arm,
    /// Queue the first message and flush it.
    HelloQueued,
    /// Submit the first message once.
    HelloTry,
    /// Fail unless the first message was accepted.
    HelloSent,
    /// Sweep the replies into the totals; `mark` also attributes a capability reply.
    Sweep { wait: Wait, mark: bool },
    /// Send an initialization record whose tail starts with the first `prefix` of two bytes.
    Init { id: u16, sub: u16, prefix: u8, a: u8, b: u8 },
    /// Step past a message of so many cipher blocks.
    Advance(u32),
    /// Clear a video endpoint's halt on the wire.
    ClearHalt(u8),
    /// Sleep, in milliseconds.
    Sleep(i64),
    /// Commit the video engine.
    Commit,
    /// Read the interface state back.
    ReadState,
    /// Draw a connector's secrets.
    Begin(u8),
    /// Skip the connector unless its receiver answered; with `advance`, stepping past a message of
    /// so many cipher blocks first.
    Gate { advance: bool, blocks: u32 },
    /// Name the connector's content stream.
    Announce(u8),
    /// Derive the connector's keys.
    Derive(u8),
    /// Fail unless the message's key material is there.
    Ready(u8),
    /// Send an authentication message; `opens` notes its counter as the one that opens the
    /// connector's stream.
    HeadSend { connector: u8, index: u8, opens: bool },
    /// Sweep its replies, taking up the receiver's nonce and, with `learn`, its repeater flag.
    HeadReply { wait: Wait, learn: bool },
    /// Wait out the receiver's computation since the message.
    Hold,
    /// Sweep further replies to the same message, taking up what they carry with `learn`.
    HeadMore { wait: Wait, learn: bool },
    /// Check H'.
    VerifyH(u8),
    /// Encrypt the connector's session key.
    Eks(u8),
    /// Check L'.
    VerifyL(u8),
    /// Check V'.
    VerifyV(u8),
    /// Check the receiver-authentication status.
    CheckStatus,
    /// Check that M' arrived.
    CheckM,
    /// Add the message's replies to the totals; `mark` also attributes a capability reply.
    Tally { mark: bool },
    /// Count the connector as authenticated.
    Authenticated(u8),
    /// Send the dock-wide state transition.
    PostAuth,
    /// Send a finalization step of a connector.
    Finalize { id: u16, sub: u16, connector: u8 },
    /// Flush the queue.
    Flush,
    /// Sweep the replies, noting when nothing arrives.
    DrainQuiet,
    /// Fail unless the dock acknowledged anything.
    AckGate,
    /// Empty the EDID slot.
    ClearEdid,
    /// Send a discovery message and sweep its replies.
    Live(Message, Account),
    /// Start timing.
    StartTimer,
    /// Sweep the replies until the EDID is in, for two seconds at most; `settle` drops an EDID
    /// offered too early.
    Await { settle: bool },
    /// Move the EDID slot to a connector; `defer` notes an empty one as deferred.
    StoreEdid { connector: u8, defer: bool },
    /// Open a connector's video stream and announce its plane.
    OpenStream(u8),
    /// Start discovering a connector.
    DiscoverBegin,
    /// Take the early round while the EDID is not in.
    EarlyCheck,
    /// Poll unless the EDID is in.
    PollOpen,
    /// Leave the polls once there is an answer or, with `timed`, once they have lasted too long.
    PollCheck { timed: bool },
    /// Leave the fetches once the EDID is in.
    RetryCheck,
    /// Finish discovering a connector.
    DiscoverEnd(u8),
}

/// When an operation is performed.
#[derive(Clone, Copy, Debug, PartialEq, Eq, Structural)]
pub enum When {
    /// Always.
    Always,
    /// While the first message has not been accepted.
    Refused,
    /// While the connector is not being skipped.
    Taken,
    /// While it is.
    Skipped,
    /// Where the connector was authenticated.
    Authentic(u8),
    /// Until a sweep has brought nothing.
    Restless,
    /// Where the connector's EDID is known.
    Known(u8),
    /// Where the connector may have a monitor.
    Candidate(u8),
    /// There, while its transport works.
    Working(u8),
    /// There, in the early round.
    Early(u8),
    /// There, while polling.
    Polling(u8),
    /// There, while fetching again.
    Retrying(u8),
}

/// One step of the program.
#[derive(Clone, Copy, Debug, PartialEq, Eq, Structural)]
pub struct Step {
    pub when: When,
    pub op: Op,
}

/// A step that is always taken.
pub open spec fn plain(op: Op) -> Seq<Step> {
    seq![Step { when: When::Always, op }]
}

/// A step taken under a condition.
pub open spec fn guarded(when: When, op: Op) -> Seq<Step> {
    seq![Step { when, op }]
}

/// The blocks `f(0)`, `f(1)`, ..., one after the other.
pub open spec fn each(n: nat, f: spec_fn(int) -> Seq<Step>) -> Seq<Step>
    decreases n,
{
    if n == 0 {
        seq![]
    } else {
        each((n - 1) as nat, f) + f(n - 1)
    }
}

/// Cipher blocks a content of `len` bytes takes.
pub open spec fn blocks(len: int) -> int {
    (len + 15) / 16
}

/// Connectors a burst configures.
pub open spec fn connector_count(p: SetupProfile) -> nat {
    if p.connectors < CP_SETUP_CONNECTORS {
        p.connectors as nat
    } else {
        CP_SETUP_CONNECTORS as nat
    }
}

/// A sweep that waits ten milliseconds for its first frame.
pub open spec fn sweep10(mark: bool) -> Op {
    Op::Sweep { wait: Wait::Drain(10), mark }
}

/// The sweep after an initialization message.
pub open spec fn reply_sweep(p: SetupProfile) -> Op {
    match p.reply_discipline {
        ReplyDiscipline::Lockstep => Op::Sweep { wait: Wait::Echo, mark: false },
        ReplyDiscipline::Drain => sweep10(false),
    }
}

/// One attempt at the first message, and the sweep that lets the dock move on.
pub open spec fn hello_try() -> spec_fn(int) -> Seq<Step> {
    |i: int| guarded(When::Refused, Op::HelloTry) + guarded(When::Refused, sweep10(false))
}

/// A sweep after the first message.
pub open spec fn hello_drain() -> spec_fn(int) -> Seq<Step> {
    |i: int| plain(sweep10(false))
}

/// The arm marker and the first message.
pub open spec fn opening(p: SetupProfile, queued: bool) -> Seq<Step> {
    plain(Op::Arm) + (if queued {
        plain(Op::HelloQueued) + (match p.reply_discipline {
            ReplyDiscipline::Lockstep => plain(reply_sweep(p)),
            ReplyDiscipline::Drain => each(HELLO_DRAINS as nat, hello_drain()),
        })
    } else {
        each(HELLO_TRIES as nat, hello_try())
    }) + plain(Op::HelloSent) + plain(Op::Advance(2))
}

/// An initialization record: sent, answered, stepped past.
pub open spec fn init_record(
    p: SetupProfile,
    id: u16,
    sub: u16,
    prefix: u8,
    a: u8,
    b: u8,
) -> Seq<Step> {
    plain(Op::Init { id, sub, prefix, a, b }) + plain(reply_sweep(p)) + plain(Op::Advance(2))
}

/// A connector's initialization record.
pub open spec fn connector_record(p: SetupProfile) -> spec_fn(int) -> Seq<Step> {
    |c: int| init_record(p, 0x0016, 0x002a, 2, c as u8, 0x01)
}

/// The initialization records, with the video engine committed among them where the dock wants
/// it there.
pub open spec fn initialization(p: SetupProfile) -> Seq<Step> {
    (if p.dock_wide_init {
        init_record(p, 0x0014, 0x0030, 0, 0, 0) + init_record(p, 0x0015, 0x000b, 1, 0x01, 0)
    } else {
        seq![]
    }) + (match p.video_commit_point {
        VideoCommitPoint::BeforeConnectorRecords => plain(Op::ClearHalt(0)) + plain(Op::Sleep(13))
            + plain(Op::ClearHalt(1)) + plain(Op::Commit) + plain(Op::ReadState) + plain(
            Op::Sleep(3),
        ),
        VideoCommitPoint::AfterFinalize => seq![],
    }) + (if p.dock_wide_init {
        each(connector_count(p), connector_record(p))
    } else {
        seq![]
    }) + plain(sweep10(true))
}

/// The push that answers authentication message `i`.
pub open spec fn wanted_push(i: int) -> u8 {
    if i == 0 {
        AKE_SEND_CERT
    } else if i == 1 {
        AKE_RECEIVER_INFO
    } else if i == 2 {
        AKE_SEND_RRX
    } else if i == 3 {
        LC_SEND_L_PRIME
    } else if i == 4 {
        REPEATERAUTH_SEND_RECEIVERID_LIST
    } else {
        RECEIVER_AUTH_STATUS
    }
}

/// What the sweep after authentication message `i` waits for.
pub open spec fn head_wait(p: SetupProfile, i: int) -> Wait {
    if !p.per_connector_onehot {
        Wait::Drain(10)
    } else if i <= 5 {
        Wait::Push(wanted_push(i), 30)
    } else {
        Wait::Echo
    }
}

/// The stream-management restatement: it is answered, checked and followed by the stream's name.
pub open spec fn restatement(p: SetupProfile, c: int, i: int, s: HeadStep) -> Seq<Step> {
    guarded(
        When::Taken,
        Op::HeadSend { connector: c as u8, index: i as u8, opens: false },
    ) + guarded(
        When::Taken,
        Op::HeadReply {
            wait: if p.per_connector_onehot {
                Wait::Push(REPEATERAUTH_STREAM_READY, 30)
            } else {
                Wait::Drain(10)
            },
            learn: false,
        },
    ) + (if p.per_connector_onehot {
        guarded(When::Taken, Op::CheckM)
    } else {
        seq![]
    }) + guarded(When::Taken, Op::Tally { mark: false }) + guarded(
        When::Taken,
        Op::Advance(blocks(s.len as int) as u32),
    ) + guarded(When::Taken, Op::Announce(c as u8))
}

/// The receiver's nonce decides whether there is a sink: without one the connector is named and
/// skipped.
pub open spec fn sink_gate(c: int, advance: bool, blocks: u32) -> Seq<Step> {
    guarded(When::Taken, Op::Gate { advance, blocks }) + guarded(When::Skipped, Op::Announce(c as u8))
}

/// What follows authentication message `i` besides its replies.
pub open spec fn after_message(p: SetupProfile, c: int, i: int, s: HeadStep) -> Seq<Step> {
    if i == 2 && !p.per_connector_onehot {
        guarded(When::Taken, Op::Hold) + guarded(
            When::Taken,
            Op::HeadMore {
                wait: Wait::Push(AKE_SEND_RRX, p.perhead_rrx_wait_ms),
                learn: true,
            },
        )
    } else if i == 2 {
        sink_gate(c, true, blocks(s.len as int) as u32) + guarded(When::Taken, Op::Hold) + guarded(
            When::Taken,
            Op::HeadMore { wait: Wait::Push(AKE_SEND_H_PRIME, 50), learn: false },
        ) + guarded(
            When::Taken,
            Op::HeadMore { wait: Wait::Push(AKE_SEND_PAIRING_INFO, 30), learn: false },
        ) + guarded(When::Taken, Op::VerifyH(c as u8)) + guarded(When::Taken, Op::Eks(c as u8))
    } else if i == 3 && p.per_connector_onehot {
        guarded(When::Taken, Op::VerifyL(c as u8))
    } else if i == 4 && p.per_connector_onehot {
        guarded(When::Taken, Op::VerifyV(c as u8))
    } else if i == 5 && p.per_connector_onehot {
        guarded(When::Taken, Op::CheckStatus)
    } else {
        seq![]
    }
}

/// An authentication message other than the restatement.
pub open spec fn exchange(p: SetupProfile, c: int, i: int, s: HeadStep) -> Seq<Step> {
    (if i == 4 || i == 5 {
        guarded(When::Taken, Op::Ready(i as u8))
    } else {
        seq![]
    }) + guarded(
        When::Taken,
        Op::HeadSend { connector: c as u8, index: i as u8, opens: i == 7 },
    ) + guarded(
        When::Taken,
        Op::HeadReply { wait: head_wait(p, i), learn: true },
    ) + after_message(p, c, i, s) + guarded(When::Taken, Op::Tally { mark: true }) + guarded(
        When::Taken,
        Op::Advance(blocks(s.len as int) as u32),
    )
}

/// Authentication message `i` of connector `c`. Where the authentication is not followed step by
/// step, the nonce is taken up ahead of the fourth message.
pub open spec fn head_message(
    p: SetupProfile,
    table: Seq<HeadStep>,
    c: int,
) -> spec_fn(int) -> Seq<Step> {
    |i: int|
        (if i == 3 && !p.per_connector_onehot {
            sink_gate(c, false, 0) + guarded(When::Taken, Op::Derive(c as u8))
        } else {
            seq![]
        }) + (if table[i].id == STREAM_MANAGE {
            restatement(p, c, i, table[i])
        } else {
            exchange(p, c, i, table[i])
        })
}

/// The authentication of one connector.
pub open spec fn connector_burst(p: SetupProfile, table: Seq<HeadStep>) -> spec_fn(int) -> Seq<
    Step,
> {
    |c: int|
        plain(Op::Begin(c as u8)) + each(table.len(), head_message(p, table, c)) + guarded(
            When::Taken,
            sweep10(true),
        ) + guarded(When::Taken, Op::Authenticated(c as u8))
}

/// A finalization step of connector `c`: performed only where it was authenticated, because a
/// dock asked to finalize a stream that was not resets itself.
pub open spec fn finalize_step(table: Seq<(u16, u16)>, c: int) -> spec_fn(int) -> Seq<Step> {
    |k: int|
        guarded(
            When::Authentic(c as u8),
            Op::Finalize { id: table[k].0, sub: table[k].1, connector: c as u8 },
        ) + guarded(When::Authentic(c as u8), sweep10(false)) + guarded(
            When::Authentic(c as u8),
            Op::Advance(2),
        )
}

/// The finalization of connector `c`.
pub open spec fn finalize_connector(table: Seq<(u16, u16)>) -> spec_fn(int) -> Seq<Step> {
    |c: int| each(table.len(), finalize_step(table, c))
}

/// A sweep after finalization.
pub open spec fn quiet_round() -> spec_fn(int) -> Seq<Step> {
    |i: int| guarded(When::Restless, Op::DrainQuiet)
}

/// The dock-wide state transition, and the finalization of the connectors. A dock that shares its
/// control pipe is never finalized.
pub open spec fn finalization(p: SetupProfile, steps: Seq<(u16, u16)>) -> Seq<Step> {
    (if p.per_connector_onehot {
        plain(Op::PostAuth) + plain(sweep10(false))
    } else {
        seq![]
    }) + (if p.video_on_ctrl_pipe {
        seq![]
    } else {
        each(connector_count(p), finalize_connector(steps))
    })
}

/// From the last message of the burst to the proof that the session holds.
pub open spec fn settling(p: SetupProfile, queued: bool) -> Seq<Step> {
    (if queued {
        plain(Op::Flush)
    } else {
        seq![]
    }) + (match p.video_commit_point {
        VideoCommitPoint::AfterFinalize => plain(Op::Commit) + plain(Op::ReadState),
        VideoCommitPoint::BeforeConnectorRecords => seq![],
    }) + plain(Op::Sweep { wait: Wait::EchoOf(0x08), mark: false }) + each(
        MAX_ROUNDS as nat,
        quiet_round(),
    ) + plain(Op::AckGate)
}

/// A discovery message that counts.
pub open spec fn live(m: Message) -> Seq<Step> {
    plain(Op::Live(m, Account::Counted))
}

/// A presence probe of each connector.
pub open spec fn seek() -> spec_fn(int) -> Seq<Step> {
    |c: int| live(Message::Probe(c as u8))
}

/// Kick, probe and fetch of one connector.
pub open spec fn triplet() -> spec_fn(int) -> Seq<Step> {
    |c: int|
        plain(Op::ClearEdid) + live(Message::Kick(c as u8)) + live(Message::Probe(c as u8)) + live(
            Message::Fetch(c as u8),
        ) + plain(Op::StoreEdid { connector: c as u8, defer: true })
}

/// Engagement of a connector that answered.
pub open spec fn engage_known() -> spec_fn(int) -> Seq<Step> {
    |c: int|
        guarded(When::Known(c as u8), Op::Live(Message::Engage(c as u8), Account::Counted))
}

/// A status sample.
pub open spec fn sample() -> spec_fn(int) -> Seq<Step> {
    |i: int| live(Message::Query(0x000c))
}

/// Discovery as one ordered transaction, for a dock followed step by step.
pub open spec fn discovery_ordered(p: SetupProfile) -> Seq<Step> {
    each(connector_count(p), seek()) + live(Message::Query(0)) + each(
        connector_count(p),
        triplet(),
    ) + each(connector_count(p), engage_known()) + each(2, sample()) + live(Message::Rtc) + each(
        STATUS_SAMPLES as nat,
        sample(),
    ) + each(connector_count(p), seek())
}

/// Probe and fetch of one connector, and the wait for its EDID.
pub open spec fn walk_fetch() -> spec_fn(int) -> Seq<Step> {
    |c: int|
        plain(Op::ClearEdid) + live(Message::Probe(c as u8)) + live(Message::Fetch(c as u8))
            + plain(Op::StartTimer) + plain(Op::Await { settle: false }) + plain(
            Op::StoreEdid { connector: c as u8, defer: false },
        )
}

/// Engagement of a connector.
pub open spec fn engage_any() -> spec_fn(int) -> Seq<Step> {
    |c: int| live(Message::Engage(c as u8))
}

/// Opening of a connector's video stream.
pub open spec fn walk_open(p: SetupProfile) -> spec_fn(int) -> Seq<Step> {
    |c: int|
        each(p.polls_before_open@[c] as nat, sample()) + plain(Op::OpenStream(c as u8)) + plain(
            sweep10(false),
        )
}

/// A connector's capability query.
pub open spec fn post_edid() -> spec_fn(int) -> Seq<Step> {
    |c: int| live(Message::PostEdid(c as u8))
}

/// Discovery phase by phase over all connectors, for a dock whose video shares its control pipe.
pub open spec fn discovery_walk(p: SetupProfile) -> Seq<Step> {
    each(connector_count(p), walk_fetch()) + live(Message::Hello) + each(
        connector_count(p),
        engage_any(),
    ) + each(connector_count(p), walk_open(p)) + each(p.polls_after_opens as nat, sample()) + each(
        connector_count(p),
        post_edid(),
    )
}

/// A discovery message of one connector.
pub open spec fn local(when: When, m: Message) -> Seq<Step> {
    guarded(when, Op::Live(m, Account::Local))
}

/// An early probe and its pause.
pub open spec fn early_probe(c: int) -> spec_fn(int) -> Seq<Step> {
    |i: int|
        local(When::Early(c as u8), Message::Probe(c as u8)) + guarded(
            When::Early(c as u8),
            Op::Sleep(EDID_STEP_DELAY),
        )
}

/// The early round: two probes, a kick and a fetch, and the wait for the EDID.
pub open spec fn early_round(c: int) -> Seq<Step> {
    guarded(When::Working(c as u8), Op::EarlyCheck) + each(2, early_probe(c)) + local(
        When::Early(c as u8),
        Message::Kick(c as u8),
    ) + guarded(When::Early(c as u8), Op::Sleep(EDID_STEP_DELAY)) + local(
        When::Early(c as u8),
        Message::Fetch(c as u8),
    ) + guarded(When::Early(c as u8), Op::EarlyCheck) + guarded(
        When::Early(c as u8),
        Op::Sleep(EDID_STEP_DELAY),
    ) + guarded(When::Early(c as u8), Op::StartTimer) + guarded(
        When::Early(c as u8),
        Op::Await { settle: true },
    )
}

/// An engagement and its pause.
pub open spec fn engage_round(c: int) -> spec_fn(int) -> Seq<Step> {
    |i: int|
        local(When::Working(c as u8), Message::Engage(c as u8)) + guarded(
            When::Working(c as u8),
            Op::Sleep(EDID_STEP_DELAY),
        )
}

/// A readiness poll; every eighth also probes.
pub open spec fn poll_round(c: int) -> spec_fn(int) -> Seq<Step> {
    |i: int|
        guarded(When::Polling(c as u8), Op::PollCheck { timed: true }) + local(
            When::Polling(c as u8),
            Message::Query(0x000c),
        ) + (if i % (EDID_POLL_PROBE_EVERY as int) == EDID_POLL_PROBE_EVERY - 1 {
            local(When::Polling(c as u8), Message::Probe(c as u8))
        } else {
            seq![]
        }) + guarded(When::Polling(c as u8), Op::PollCheck { timed: false }) + guarded(
            When::Polling(c as u8),
            Op::Sleep(EDID_POLL_DELAY),
        )
}

/// A further fetch.
pub open spec fn retry_round(c: int) -> spec_fn(int) -> Seq<Step> {
    |i: int|
        guarded(When::Retrying(c as u8), Op::RetryCheck) + local(
            When::Retrying(c as u8),
            Message::Fetch(c as u8),
        ) + guarded(When::Retrying(c as u8), sweep10(false)) + guarded(
            When::Retrying(c as u8),
            Op::Sleep(EDID_POLL_DELAY),
        )
}

/// Discovery of one connector from end to end.
pub open spec fn discover() -> spec_fn(int) -> Seq<Step> {
    |c: int|
        guarded(When::Candidate(c as u8), Op::DiscoverBegin) + early_round(c) + each(
            2,
            engage_round(c),
        ) + guarded(When::Working(c as u8), Op::PollOpen) + each(
            EDID_POLL_ITERS as nat,
            poll_round(c),
        ) + each(EDID_RETRIES as nat, retry_round(c)) + local(
            When::Working(c as u8),
            Message::PostEdid(c as u8),
        ) + guarded(When::Candidate(c as u8), Op::DiscoverEnd(c as u8))
}

/// Discovery connector by connector.
pub open spec fn discovery_each(p: SetupProfile) -> Seq<Step> {
    plain(Op::Live(Message::Heartbeat, Account::Silent)) + plain(
        Op::Live(Message::Query(0), Account::Silent),
    ) + each(connector_count(p), discover())
}

/// Discovery, as the dock wants it.
pub open spec fn discovery(p: SetupProfile) -> Seq<Step> {
    if p.per_connector_onehot {
        discovery_ordered(p)
    } else if p.video_on_ctrl_pipe {
        discovery_walk(p)
    } else {
        discovery_each(p)
    }
}

/// The whole burst.
pub open spec fn program_spec(
    p: SetupProfile,
    table: Seq<HeadStep>,
    steps: Seq<(u16, u16)>,
    queued: bool,
) -> Seq<Step> {
    opening(p, queued) + initialization(p) + each(connector_count(p), connector_burst(p, table))
        + finalization(p, steps) + settling(p, queued) + discovery(p)
}

/// Append one step.
fn put(out: &mut Vec<Step>, when: When, op: Op)
    ensures
        final(out)@ == old(out)@ + guarded(when, op),
{
    out.push(Step { when, op });
    assert(out@ =~= old(out)@ + guarded(when, op));
}

/// One more block of a repetition.
proof fn lemma_each_next(a: Seq<Step>, n: nat, f: spec_fn(int) -> Seq<Step>)
    ensures
        a + each(n, f) + f(n as int) == a + each(n + 1, f),
{
    assert(a + each(n, f) + f(n as int) =~= a + each(n + 1, f));
}

/// Cipher blocks a content of `len` bytes takes, as far as 32 bits hold them.
fn block_count(len: usize) -> (n: u32)
    requires
        blocks(len as int) <= u32::MAX,
    ensures
        n == blocks(len as int),
{
    let whole: usize = len / 16;
    if len % 16 == 0 {
        whole as u32
    } else {
        (whole + 1) as u32
    }
}

/// Append an initialization record with its reply; see [`init_record`].
fn put_record(out: &mut Vec<Step>, p: &SetupProfile, id: u16, sub: u16, prefix: u8, a: u8, b: u8)
    ensures
        final(out)@ == old(out)@ + init_record(*p, id, sub, prefix, a, b),
{
    put(out, When::Always, Op::Init { id, sub, prefix, a, b });
    put_reply(out, p);
    put(out, When::Always, Op::Advance(2));
    assert(out@ =~= old(out)@ + init_record(*p, id, sub, prefix, a, b));
}

/// Append a step's reply sweep; see [`reply_sweep`].
fn put_reply(out: &mut Vec<Step>, p: &SetupProfile)
    ensures
        final(out)@ == old(out)@ + plain(reply_sweep(*p)),
{
    match p.reply_discipline {
        ReplyDiscipline::Lockstep => put(
            out,
            When::Always,
            Op::Sweep { wait: Wait::Echo, mark: false },
        ),
        ReplyDiscipline::Drain => put(
            out,
            When::Always,
            Op::Sweep { wait: Wait::Drain(10), mark: false },
        ),
    }
}

/// Connectors a burst configures.
fn count(p: &SetupProfile) -> (n: u8)
    ensures
        n == connector_count(*p),
        n <= CP_SETUP_CONNECTORS,
{
    if p.connectors < CP_SETUP_CONNECTORS as u8 {
        p.connectors
    } else {
        CP_SETUP_CONNECTORS as u8
    }
}

/// Append the arm marker and the first message; see [`opening`].
fn put_opening(out: &mut Vec<Step>, p: &SetupProfile, queued: bool)
    ensures
        final(out)@ == old(out)@ + opening(*p, queued),
{
    put(out, When::Always, Op::Arm);
    if queued {
        put(out, When::Always, Op::HelloQueued);
        match p.reply_discipline {
            ReplyDiscipline::Lockstep => put_reply(out, p),
            ReplyDiscipline::Drain => {
                let ghost base = out@;
                let mut i: usize = 0;
                assert(base + each(0, hello_drain()) =~= base);
                while i < HELLO_DRAINS
                    invariant
                        i <= HELLO_DRAINS,
                        out@ == base + each(i as nat, hello_drain()),
                    decreases HELLO_DRAINS - i,
                {
                    put(out, When::Always, Op::Sweep { wait: Wait::Drain(10), mark: false });
                    proof {
                        lemma_each_next(base, i as nat, hello_drain());
                    }
                    i += 1;
                }
            },
        }
    } else {
        let ghost base = out@;
        let mut i: usize = 0;
        assert(base + each(0, hello_try()) =~= base);
        while i < HELLO_TRIES
            invariant
                i <= HELLO_TRIES,
                out@ == base + each(i as nat, hello_try()),
            decreases HELLO_TRIES - i,
        {
            let ghost prior = out@;
            put(out, When::Refused, Op::HelloTry);
            put(out, When::Refused, Op::Sweep { wait: Wait::Drain(10), mark: false });
            proof {
                assert(out@ =~= prior + hello_try()(i as int));
                lemma_each_next(base, i as nat, hello_try());
            }
            i += 1;
        }
    }
    put(out, When::Always, Op::HelloSent);
    put(out, When::Always, Op::Advance(2));
    assert(out@ =~= old(out)@ + opening(*p, queued));
}

/// Append the initialization records; see [`initialization`].
fn put_initialization(out: &mut Vec<Step>, p: &SetupProfile)
    ensures
        final(out)@ == old(out)@ + initialization(*p),
{
    if p.dock_wide_init {
        put_record(out, p, 0x0014, 0x0030, 0, 0, 0);
        put_record(out, p, 0x0015, 0x000b, 1, 0x01, 0);
    }
    match p.video_commit_point {
        VideoCommitPoint::BeforeConnectorRecords => {
            put(out, When::Always, Op::ClearHalt(0));
            put(out, When::Always, Op::Sleep(13));
            put(out, When::Always, Op::ClearHalt(1));
            put(out, When::Always, Op::Commit);
            put(out, When::Always, Op::ReadState);
            put(out, When::Always, Op::Sleep(3));
        },
        VideoCommitPoint::AfterFinalize => {},
    }
    if p.dock_wide_init {
        let n: u8 = count(p);
        let ghost base = out@;
        let mut c: u8 = 0;
        assert(base + each(0, connector_record(*p)) =~= base);
        while c < n
            invariant
                c <= n,
                out@ == base + each(c as nat, connector_record(*p)),
            decreases n - c,
        {
            put_record(out, p, 0x0016, 0x002a, 2, c, 0x01);
            proof {
                lemma_each_next(base, c as nat, connector_record(*p));
            }
            c += 1;
        }
    }
    put(out, When::Always, Op::Sweep { wait: Wait::Drain(10), mark: true });
    assert(out@ =~= old(out)@ + initialization(*p));
}

/// Append the stream-management restatement; see [`restatement`].
fn put_restatement(out: &mut Vec<Step>, p: &SetupProfile, c: u8, i: u8, s: &HeadStep)
    requires
        blocks(s.len as int) <= u32::MAX,
    ensures
        final(out)@ == old(out)@ + restatement(*p, c as int, i as int, *s),
{
    put(out, When::Taken, Op::HeadSend { connector: c, index: i, opens: false });
    let wait = if p.per_connector_onehot {
        Wait::Push(REPEATERAUTH_STREAM_READY, 30)
    } else {
        Wait::Drain(10)
    };
    put(out, When::Taken, Op::HeadReply { wait, learn: false });
    if p.per_connector_onehot {
        put(out, When::Taken, Op::CheckM);
    }
    put(out, When::Taken, Op::Tally { mark: false });
    put(out, When::Taken, Op::Advance(block_count(s.len)));
    put(out, When::Taken, Op::Announce(c));
    assert(out@ =~= old(out)@ + restatement(*p, c as int, i as int, *s));
}

/// Append the test whether a connector has a sink; see [`sink_gate`].
fn put_gate(out: &mut Vec<Step>, c: u8, advance: bool, blocks: u32)
    ensures
        final(out)@ == old(out)@ + sink_gate(c as int, advance, blocks),
{
    put(out, When::Taken, Op::Gate { advance, blocks });
    put(out, When::Skipped, Op::Announce(c));
    assert(out@ =~= old(out)@ + sink_gate(c as int, advance, blocks));
}

/// Append what follows an authentication message; see [`after_message`].
fn put_after(out: &mut Vec<Step>, p: &SetupProfile, c: u8, i: u8, s: &HeadStep)
    requires
        blocks(s.len as int) <= u32::MAX,
    ensures
        final(out)@ == old(out)@ + after_message(*p, c as int, i as int, *s),
{
    if i == 2 && !p.per_connector_onehot {
        put(out, When::Taken, Op::Hold);
        put(
            out,
            When::Taken,
            Op::HeadMore { wait: Wait::Push(AKE_SEND_RRX, p.perhead_rrx_wait_ms), learn: true },
        );
    } else if i == 2 {
        put_gate(out, c, true, block_count(s.len));
        put(out, When::Taken, Op::Hold);
        put(
            out,
            When::Taken,
            Op::HeadMore { wait: Wait::Push(AKE_SEND_H_PRIME, 50), learn: false },
        );
        put(
            out,
            When::Taken,
            Op::HeadMore { wait: Wait::Push(AKE_SEND_PAIRING_INFO, 30), learn: false },
        );
        put(out, When::Taken, Op::VerifyH(c));
        put(out, When::Taken, Op::Eks(c));
    } else if i == 3 && p.per_connector_onehot {
        put(out, When::Taken, Op::VerifyL(c));
    } else if i == 4 && p.per_connector_onehot {
        put(out, When::Taken, Op::VerifyV(c));
    } else if i == 5 && p.per_connector_onehot {
        put(out, When::Taken, Op::CheckStatus);
    }
    assert(out@ =~= old(out)@ + after_message(*p, c as int, i as int, *s));
}

/// What the sweep after authentication message `i` waits for.
fn wait_of(p: &SetupProfile, i: u8) -> (w: Wait)
    ensures
        w == head_wait(*p, i as int),
{
    if !p.per_connector_onehot {
        Wait::Drain(10)
    } else if i <= 5 {
        let want: u8 = match i {
            0 => AKE_SEND_CERT,
            1 => AKE_RECEIVER_INFO,
            2 => AKE_SEND_RRX,
            3 => LC_SEND_L_PRIME,
            4 => REPEATERAUTH_SEND_RECEIVERID_LIST,
            _ => RECEIVER_AUTH_STATUS,
        };
        Wait::Push(want, 30)
    } else {
        Wait::Echo
    }
}

/// Append an authentication message other than the restatement; see [`exchange`].
fn put_exchange(out: &mut Vec<Step>, p: &SetupProfile, c: u8, i: u8, s: &HeadStep)
    requires
        blocks(s.len as int) <= u32::MAX,
    ensures
        final(out)@ == old(out)@ + exchange(*p, c as int, i as int, *s),
{
    if i == 4 || i == 5 {
        put(out, When::Taken, Op::Ready(i));
    }
    put(out, When::Taken, Op::HeadSend { connector: c, index: i, opens: i == 7 });
    put(out, When::Taken, Op::HeadReply { wait: wait_of(p, i), learn: true });
    put_after(out, p, c, i, s);
    put(out, When::Taken, Op::Tally { mark: true });
    put(out, When::Taken, Op::Advance(block_count(s.len)));
    assert(out@ =~= old(out)@ + exchange(*p, c as int, i as int, *s));
}

/// Whether a table of authentication messages can be numbered in a byte and stepped over in a
/// 32-bit counter.
pub open spec fn table_fits(table: Seq<HeadStep>) -> bool {
    &&& table.len() <= 255
    &&& forall|i: int| 0 <= i < table.len() ==> blocks((#[trigger] table[i]).len as int) <= u32::MAX
}

/// Append the authentication of a connector; see [`connector_burst`].
fn put_connector(out: &mut Vec<Step>, p: &SetupProfile, table: &[HeadStep], c: u8)
    requires
        table_fits(table@),
    ensures
        final(out)@ == old(out)@ + connector_burst(*p, table@)(c as int),
{
    let ghost start = out@;
    put(out, When::Always, Op::Begin(c));
    let ghost base = out@;
    let ghost f = head_message(*p, table@, c as int);
    let mut i: usize = 0;
    assert(base + each(0, f) =~= base);
    while i < table.len()
        invariant
            i <= table@.len(),
            table_fits(table@),
            f == head_message(*p, table@, c as int),
            out@ == base + each(i as nat, f),
        decreases table@.len() - i,
    {
        let ghost prior = out@;
        let s = table[i];
        if i == 3 && !p.per_connector_onehot {
            put_gate(out, c, false, 0);
            put(out, When::Taken, Op::Derive(c));
        }
        if s.id == STREAM_MANAGE {
            put_restatement(out, p, c, i as u8, &s);
        } else {
            put_exchange(out, p, c, i as u8, &s);
        }
        proof {
            assert(out@ =~= prior + f(i as int));
            lemma_each_next(base, i as nat, f);
        }
        i += 1;
    }
    put(out, When::Taken, Op::Sweep { wait: Wait::Drain(10), mark: true });
    put(out, When::Taken, Op::Authenticated(c));
    assert(out@ =~= start + connector_burst(*p, table@)(c as int));
}

/// Append the finalization of a connector; see [`finalize_connector`].
fn put_finalize(out: &mut Vec<Step>, steps: &[(u16, u16)], c: u8)
    ensures
        final(out)@ == old(out)@ + finalize_connector(steps@)(c as int),
{
    let ghost base = out@;
    let ghost f = finalize_step(steps@, c as int);
    let mut k: usize = 0;
    assert(base + each(0, f) =~= base);
    while k < steps.len()
        invariant
            k <= steps@.len(),
            f == finalize_step(steps@, c as int),
            out@ == base + each(k as nat, f),
        decreases steps@.len() - k,
    {
        let ghost prior = out@;
        let (id, sub) = steps[k];
        put(out, When::Authentic(c), Op::Finalize { id, sub, connector: c });
        put(out, When::Authentic(c), Op::Sweep { wait: Wait::Drain(10), mark: false });
        put(out, When::Authentic(c), Op::Advance(2));
        proof {
            assert(out@ =~= prior + f(k as int));
            lemma_each_next(base, k as nat, f);
        }
        k += 1;
    }
}

/// Append the finalization of every connector; see [`finalization`].
fn put_finalization(out: &mut Vec<Step>, p: &SetupProfile, steps: &[(u16, u16)])
    ensures
        final(out)@ == old(out)@ + finalization(*p, steps@),
{
    let ghost start = out@;
    if p.per_connector_onehot {
        put(out, When::Always, Op::PostAuth);
        put(out, When::Always, Op::Sweep { wait: Wait::Drain(10), mark: false });
    }
    if !p.video_on_ctrl_pipe {
        let n: u8 = count(p);
        let ghost base = out@;
        let ghost f = finalize_connector(steps@);
        let mut c: u8 = 0;
        assert(base + each(0, f) =~= base);
        while c < n
            invariant
                c <= n,
                f == finalize_connector(steps@),
                out@ == base + each(c as nat, f),
            decreases n - c,
        {
            put_finalize(out, steps, c);
            proof {
                lemma_each_next(base, c as nat, f);
            }
            c += 1;
        }
    }
    assert(out@ =~= start + finalization(*p, steps@));
}

/// Append the end of the burst and the proof that the session holds; see [`settling`].
fn put_settling(out: &mut Vec<Step>, p: &SetupProfile, queued: bool)
    ensures
        final(out)@ == old(out)@ + settling(*p, queued),
{
    let ghost start = out@;
    if queued {
        put(out, When::Always, Op::Flush);
    }
    match p.video_commit_point {
        VideoCommitPoint::AfterFinalize => {
            put(out, When::Always, Op::Commit);
            put(out, When::Always, Op::ReadState);
        },
        VideoCommitPoint::BeforeConnectorRecords => {},
    }
    put(out, When::Always, Op::Sweep { wait: Wait::EchoOf(0x08), mark: false });
    let ghost base = out@;
    let mut i: usize = 0;
    assert(base + each(0, quiet_round()) =~= base);
    while i < MAX_ROUNDS
        invariant
            i <= MAX_ROUNDS,
            out@ == base + each(i as nat, quiet_round()),
        decreases MAX_ROUNDS - i,
    {
        put(out, When::Restless, Op::DrainQuiet);
        proof {
            lemma_each_next(base, i as nat, quiet_round());
        }
        i += 1;
    }
    put(out, When::Always, Op::AckGate);
    assert(out@ =~= start + settling(*p, queued));
}

/// Append a discovery message that counts.
fn put_live(out: &mut Vec<Step>, m: Message)
    ensures
        final(out)@ == old(out)@ + live(m),
{
    put(out, When::Always, Op::Live(m, Account::Counted));
}

/// Append so many status samples.
fn put_samples(out: &mut Vec<Step>, n: usize)
    ensures
        final(out)@ == old(out)@ + each(n as nat, sample()),
{
    let ghost base = out@;
    let mut i: usize = 0;
    assert(base + each(0, sample()) =~= base);
    while i < n
        invariant
            i <= n,
            out@ == base + each(i as nat, sample()),
        decreases n - i,
    {
        put_live(out, Message::Query(0x000c));
        proof {
            lemma_each_next(base, i as nat, sample());
        }
        i += 1;
    }
}

/// Append a presence probe of each connector.
fn put_seek(out: &mut Vec<Step>, n: u8)
    ensures
        final(out)@ == old(out)@ + each(n as nat, seek()),
{
    let ghost base = out@;
    let mut c: u8 = 0;
    assert(base + each(0, seek()) =~= base);
    while c < n
        invariant
            c <= n,
            out@ == base + each(c as nat, seek()),
        decreases n - c,
    {
        put_live(out, Message::Probe(c));
        proof {
            lemma_each_next(base, c as nat, seek());
        }
        c += 1;
    }
}

/// Append the kick, probe and fetch of each connector.
fn put_triplets(out: &mut Vec<Step>, n: u8)
    ensures
        final(out)@ == old(out)@ + each(n as nat, triplet()),
{
    let ghost base = out@;
    let mut c: u8 = 0;
    assert(base + each(0, triplet()) =~= base);
    while c < n
        invariant
            c <= n,
            out@ == base + each(c as nat, triplet()),
        decreases n - c,
    {
        let ghost prior = out@;
        put(out, When::Always, Op::ClearEdid);
        put_live(out, Message::Kick(c));
        put_live(out, Message::Probe(c));
        put_live(out, Message::Fetch(c));
        put(out, When::Always, Op::StoreEdid { connector: c, defer: true });
        proof {
            assert(out@ =~= prior + triplet()(c as int));
            lemma_each_next(base, c as nat, triplet());
        }
        c += 1;
    }
}

/// Append the engagement of each connector that answered.
fn put_engage_known(out: &mut Vec<Step>, n: u8)
    ensures
        final(out)@ == old(out)@ + each(n as nat, engage_known()),
{
    let ghost base = out@;
    let mut c: u8 = 0;
    assert(base + each(0, engage_known()) =~= base);
    while c < n
        invariant
            c <= n,
            out@ == base + each(c as nat, engage_known()),
        decreases n - c,
    {
        put(out, When::Known(c), Op::Live(Message::Engage(c), Account::Counted));
        proof {
            lemma_each_next(base, c as nat, engage_known());
        }
        c += 1;
    }
}

/// Append discovery in the fixed order; see [`discovery_ordered`].
fn put_discovery_ordered(out: &mut Vec<Step>, p: &SetupProfile)
    ensures
        final(out)@ == old(out)@ + discovery_ordered(*p),
{
    let ghost start = out@;
    let n: u8 = count(p);
    put_seek(out, n);
    put_live(out, Message::Query(0));
    put_triplets(out, n);
    put_engage_known(out, n);
    put_samples(out, 2);
    put_live(out, Message::Rtc);
    put_samples(out, STATUS_SAMPLES);
    put_seek(out, n);
    assert(out@ =~= start + discovery_ordered(*p));
}

/// Append the probe and fetch of each connector.
fn put_walk_fetches(out: &mut Vec<Step>, n: u8)
    ensures
        final(out)@ == old(out)@ + each(n as nat, walk_fetch()),
{
    let ghost base = out@;
    let mut c: u8 = 0;
    assert(base + each(0, walk_fetch()) =~= base);
    while c < n
        invariant
            c <= n,
            out@ == base + each(c as nat, walk_fetch()),
        decreases n - c,
    {
        let ghost prior = out@;
        put(out, When::Always, Op::ClearEdid);
        put_live(out, Message::Probe(c));
        put_live(out, Message::Fetch(c));
        put(out, When::Always, Op::StartTimer);
        put(out, When::Always, Op::Await { settle: false });
        put(out, When::Always, Op::StoreEdid { connector: c, defer: false });
        proof {
            assert(out@ =~= prior + walk_fetch()(c as int));
            lemma_each_next(base, c as nat, walk_fetch());
        }
        c += 1;
    }
}

/// Append the engagement of each connector.
fn put_engage_any(out: &mut Vec<Step>, n: u8)
    ensures
        final(out)@ == old(out)@ + each(n as nat, engage_any()),
{
    let ghost base = out@;
    let mut c: u8 = 0;
    assert(base + each(0, engage_any()) =~= base);
    while c < n
        invariant
            c <= n,
            out@ == base + each(c as nat, engage_any()),
        decreases n - c,
    {
        put_live(out, Message::Engage(c));
        proof {
            lemma_each_next(base, c as nat, engage_any());
        }
        c += 1;
    }
}

/// Append the opening of each connector's video stream.
fn put_walk_opens(out: &mut Vec<Step>, p: &SetupProfile, n: u8)
    requires
        n <= CP_SETUP_CONNECTORS,
    ensures
        final(out)@ == old(out)@ + each(n as nat, walk_open(*p)),
{
    let ghost base = out@;
    let mut c: u8 = 0;
    assert(base + each(0, walk_open(*p)) =~= base);
    while c < n
        invariant
            c <= n <= CP_SETUP_CONNECTORS,
            out@ == base + each(c as nat, walk_open(*p)),
        decreases n - c,
    {
        let ghost prior = out@;
        put_samples(out, p.polls_before_open[c as usize] as usize);
        put(out, When::Always, Op::OpenStream(c));
        put(out, When::Always, Op::Sweep { wait: Wait::Drain(10), mark: false });
        proof {
            assert(out@ =~= prior + walk_open(*p)(c as int));
            lemma_each_next(base, c as nat, walk_open(*p));
        }
        c += 1;
    }
}

/// Append each connector's capability query.
fn put_post_edid(out: &mut Vec<Step>, n: u8)
    ensures
        final(out)@ == old(out)@ + each(n as nat, post_edid()),
{
    let ghost base = out@;
    let mut c: u8 = 0;
    assert(base + each(0, post_edid()) =~= base);
    while c < n
        invariant
            c <= n,
            out@ == base + each(c as nat, post_edid()),
        decreases n - c,
    {
        put_live(out, Message::PostEdid(c));
        proof {
            lemma_each_next(base, c as nat, post_edid());
        }
        c += 1;
    }
}

fn put_discovery_walk(out: &mut Vec<Step>, p: &SetupProfile)
    ensures
        final(out)@ == old(out)@ + discovery_walk(*p),
{
    let ghost start = out@;
    let n: u8 = count(p);
    put_walk_fetches(out, n);
    put_live(out, Message::Hello);
    put_engage_any(out, n);
    put_walk_opens(out, p, n);
    put_samples(out, p.polls_after_opens as usize);
    put_post_edid(out, n);
    assert(out@ =~= start + discovery_walk(*p));
}

/// Append a discovery message of one connector.
fn put_local(out: &mut Vec<Step>, when: When, m: Message)
    ensures
        final(out)@ == old(out)@ + local(when, m),
{
    put(out, when, Op::Live(m, Account::Local));
}

/// Append two early probes.
fn put_early_probes(out: &mut Vec<Step>, c: u8)
    ensures
        final(out)@ == old(out)@ + each(2, early_probe(c as int)),
{
    let ghost base = out@;
    let mut i: usize = 0;
    assert(base + each(0, early_probe(c as int)) =~= base);
    while i < 2
        invariant
            i <= 2,
            out@ == base + each(i as nat, early_probe(c as int)),
        decreases 2 - i,
    {
        let ghost prior = out@;
        put_local(out, When::Early(c), Message::Probe(c));
        put(out, When::Early(c), Op::Sleep(EDID_STEP_DELAY));
        proof {
            assert(out@ =~= prior + early_probe(c as int)(i as int));
            lemma_each_next(base, i as nat, early_probe(c as int));
        }
        i += 1;
    }
}

fn put_early_round(out: &mut Vec<Step>, c: u8)
    ensures
        final(out)@ == old(out)@ + early_round(c as int),
{
    let ghost start = out@;
    put(out, When::Working(c), Op::EarlyCheck);
    put_early_probes(out, c);
    put_local(out, When::Early(c), Message::Kick(c));
    put(out, When::Early(c), Op::Sleep(EDID_STEP_DELAY));
    put_local(out, When::Early(c), Message::Fetch(c));
    put(out, When::Early(c), Op::EarlyCheck);
    put(out, When::Early(c), Op::Sleep(EDID_STEP_DELAY));
    put(out, When::Early(c), Op::StartTimer);
    put(out, When::Early(c), Op::Await { settle: true });
    assert(out@ =~= start + early_round(c as int));
}

/// Append two engagements.
fn put_engage_rounds(out: &mut Vec<Step>, c: u8)
    ensures
        final(out)@ == old(out)@ + each(2, engage_round(c as int)),
{
    let ghost base = out@;
    let mut i: usize = 0;
    assert(base + each(0, engage_round(c as int)) =~= base);
    while i < 2
        invariant
            i <= 2,
            out@ == base + each(i as nat, engage_round(c as int)),
        decreases 2 - i,
    {
        let ghost prior = out@;
        put_local(out, When::Working(c), Message::Engage(c));
        put(out, When::Working(c), Op::Sleep(EDID_STEP_DELAY));
        proof {
            assert(out@ =~= prior + engage_round(c as int)(i as int));
            lemma_each_next(base, i as nat, engage_round(c as int));
        }
        i += 1;
    }
}

/// Append the readiness polls.
fn put_polls(out: &mut Vec<Step>, c: u8)
    ensures
        final(out)@ == old(out)@ + each(EDID_POLL_ITERS as nat, poll_round(c as int)),
{
    let ghost base = out@;
    let mut i: usize = 0;
    assert(base + each(0, poll_round(c as int)) =~= base);
    while i < EDID_POLL_ITERS
        invariant
            i <= EDID_POLL_ITERS,
            out@ == base + each(i as nat, poll_round(c as int)),
        decreases EDID_POLL_ITERS - i,
    {
        let ghost prior = out@;
        put(out, When::Polling(c), Op::PollCheck { timed: true });
        put_local(out, When::Polling(c), Message::Query(0x000c));
        if i % EDID_POLL_PROBE_EVERY == EDID_POLL_PROBE_EVERY - 1 {
            put_local(out, When::Polling(c), Message::Probe(c));
        }
        put(out, When::Polling(c), Op::PollCheck { timed: false });
        put(out, When::Polling(c), Op::Sleep(EDID_POLL_DELAY));
        proof {
            assert(out@ =~= prior + poll_round(c as int)(i as int));
            lemma_each_next(base, i as nat, poll_round(c as int));
        }
        i += 1;
    }
}

/// Append the further fetches.
fn put_retries(out: &mut Vec<Step>, c: u8)
    ensures
        final(out)@ == old(out)@ + each(EDID_RETRIES as nat, retry_round(c as int)),
{
    let ghost base = out@;
    let mut i: usize = 0;
    assert(base + each(0, retry_round(c as int)) =~= base);
    while i < EDID_RETRIES
        invariant
            i <= EDID_RETRIES,
            out@ == base + each(i as nat, retry_round(c as int)),
        decreases EDID_RETRIES - i,
    {
        let ghost prior = out@;
        put(out, When::Retrying(c), Op::RetryCheck);
        put_local(out, When::Retrying(c), Message::Fetch(c));
        put(out, When::Retrying(c), Op::Sweep { wait: Wait::Drain(10), mark: false });
        put(out, When::Retrying(c), Op::Sleep(EDID_POLL_DELAY));
        proof {
            assert(out@ =~= prior + retry_round(c as int)(i as int));
            lemma_each_next(base, i as nat, retry_round(c as int));
        }
        i += 1;
    }
}

fn put_discover(out: &mut Vec<Step>, c: u8)
    ensures
        final(out)@ == old(out)@ + discover()(c as int),
{
    let ghost start = out@;
    put(out, When::Candidate(c), Op::DiscoverBegin);
    put_early_round(out, c);
    put_engage_rounds(out, c);
    put(out, When::Working(c), Op::PollOpen);
    put_polls(out, c);
    put_retries(out, c);
    put_local(out, When::Working(c), Message::PostEdid(c));
    put(out, When::Candidate(c), Op::DiscoverEnd(c));
    assert(out@ =~= start + discover()(c as int));
}

fn put_discovery_each(out: &mut Vec<Step>, p: &SetupProfile)
    ensures
        final(out)@ == old(out)@ + discovery_each(*p),
{
    let ghost start = out@;
    put(out, When::Always, Op::Live(Message::Heartbeat, Account::Silent));
    put(out, When::Always, Op::Live(Message::Query(0), Account::Silent));
    let n: u8 = count(p);
    let ghost base = out@;
    let mut c: u8 = 0;
    assert(base + each(0, discover()) =~= base);
    while c < n
        invariant
            c <= n,
            out@ == base + each(c as nat, discover()),
        decreases n - c,
    {
        put_discover(out, c);
        proof {
            lemma_each_next(base, c as nat, discover());
        }
        c += 1;
    }
    assert(out@ =~= start + discovery_each(*p));
}

/// The setup burst of a dock: `table` holds the messages of a connector's authentication and
/// `steps` those of its finalization, and `queued` says whether the outgoing queue opened.
pub fn program(
    p: &SetupProfile,
    table: &[HeadStep],
    steps: &[(u16, u16)],
    queued: bool,
) -> (out: Vec<Step>)
    requires
        table_fits(table@),
    ensures
        out@ == program_spec(*p, table@, steps@, queued),
{
    let mut out: Vec<Step> = Vec::new();
    put_opening(&mut out, p, queued);
    put_initialization(&mut out, p);
    let n: u8 = count(p);
    let ghost base = out@;
    let ghost f = connector_burst(*p, table@);
    let mut c: u8 = 0;
    assert(base + each(0, f) =~= base);
    while c < n
        invariant
            c <= n,
            table_fits(table@),
            f == connector_burst(*p, table@),
            out@ == base + each(c as nat, f),
        decreases n - c,
    {
        put_connector(&mut out, p, table, c);
        proof {
            lemma_each_next(base, c as nat, f);
        }
        c += 1;
    }
    put_finalization(&mut out, p, steps);
    put_settling(&mut out, p, queued);
    if p.per_connector_onehot {
        put_discovery_ordered(&mut out, p);
    } else if p.video_on_ctrl_pipe {
        put_discovery_walk(&mut out, p);
    } else {
        put_discovery_each(&mut out, p);
    }
    assert(out@ =~= program_spec(*p, table@, steps@, queued));
    out
}

} // verus!
