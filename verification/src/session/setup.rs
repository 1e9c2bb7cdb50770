//! The setup burst: it asks for one action after another and takes up what became of each.

use vstd::prelude::*;

use crate::error::Error;
use crate::session::drain;
use crate::session::drain::{Ep84Drain, ReceiverList};
use crate::session::program;
use crate::session::program::{Account, CP_SETUP_CONNECTORS, HeadStep, Message, Op, SetupProfile, Step, Wait, When, program as build};
use crate::session::replies;
use crate::session::replies::Mode;
use crate::session::setup_state;
use crate::session::setup_state::{Action, EDID_POLL_MAX, EDID_REPLY_WAIT, Event, RECEIVER_PASSED};
use crate::time::Instant;

verus! {

/// What is known of the connector being authenticated.
#[derive(Clone, Copy, Debug)]
struct Head {
    skipping: bool,
    rrx: Option<[u8; 8]>,
    repeater: Option<bool>,
    kd: bool,
    edkey: bool,
    v: bool,
    d: Ep84Drain,
}

impl View for Head {
    type V = setup_state::HeadState;

    closed spec fn view(&self) -> setup_state::HeadState {
        setup_state::HeadState {
            skipping: self.skipping,
            rrx: drain::bytes_of(self.rrx),
            repeater: self.repeater,
            kd: self.kd,
            edkey: self.edkey,
            v: self.v,
            d: self.d@,
        }
    }
}

/// The setup burst of one dock.
#[derive(Debug)]
pub struct Setup {
    program: Vec<Step>,
    ready_reported: bool,
    pos: usize,
    failed: Option<Error>,
    ctr: u16,
    wseq: u32,
    sent: usize,
    drained: usize,
    acks: usize,
    rejects: usize,
    heads: usize,
    slot: Option<Vec<u8>>,
    edids: Vec<Option<Vec<u8>>>,
    present: Vec<bool>,
    deferred: Vec<bool>,
    authentic: Vec<bool>,
    open_ctr: Vec<Option<u16>>,
    opened: u32,
    head: Head,
    accepted: bool,
    refusal: Error,
    quiet: bool,
    ready: bool,
    early: bool,
    polling: bool,
    retrying: bool,
    transport: Option<Error>,
    started: Instant,
}

/// The bytes of each of a sequence of optional buffers.
pub open spec fn all_contents(v: Seq<Option<Vec<u8>>>) -> Seq<Option<Seq<u8>>> {
    Seq::new(v.len(), |i: int| replies::contents(v[i]))
}

impl View for Setup {
    type V = setup_state::State;

    closed spec fn view(&self) -> setup_state::State {
        setup_state::State {
            program: self.program@,
            ready_reported: self.ready_reported,
            pos: self.pos as int,
            failed: self.failed,
            ctr: self.ctr as int,
            wseq: self.wseq as int,
            sent: self.sent as int,
            drained: self.drained as int,
            acks: self.acks as int,
            rejects: self.rejects as int,
            heads: self.heads as int,
            slot: replies::contents(self.slot),
            edids: all_contents(self.edids@),
            present: self.present@,
            deferred: self.deferred@,
            authentic: self.authentic@,
            open_ctr: self.open_ctr@,
            opened: self.opened,
            head: self.head@,
            accepted: self.accepted,
            refusal: self.refusal,
            quiet: self.quiet,
            ready: self.ready,
            early: self.early,
            polling: self.polling,
            retrying: self.retrying,
            transport: self.transport,
            started: self.started,
        }
    }
}

/// Replace a connector's entry.
fn set_flag(v: &mut Vec<bool>, c: u8, b: bool)
    ensures
        final(v)@ == setup_state::with_entry(old(v)@, c, b),
{
    if (c as usize) < v.len() {
        v.set(c as usize, b);
    }
}

/// The first of two optional nonces.
fn first_nonce(a: Option<[u8; 8]>, b: Option<[u8; 8]>) -> (r: Option<[u8; 8]>)
    ensures
        drain::bytes_of(r) == drain::first_of(drain::bytes_of(a), drain::bytes_of(b)),
{
    if a.is_some() {
        a
    } else {
        b
    }
}

/// The first of two optional flags.
fn first_flag(a: Option<bool>, b: Option<bool>) -> (r: Option<bool>)
    ensures
        r == drain::first_of(a, b),
{
    if a.is_some() {
        a
    } else {
        b
    }
}

/// Whether two byte sequences are equal.
fn same_bytes(a: &[u8], b: &[u8]) -> (same: bool)
    ensures
        same == (a@ == b@),
{
    if a.len() != b.len() {
        return false;
    }
    let mut i: usize = 0;
    while i < a.len()
        invariant
            i <= a@.len(),
            a@.len() == b@.len(),
            forall|j: int| 0 <= j < i ==> a@[j] == b@[j],
        decreases a@.len() - i,
    {
        if a[i] != b[i] {
            assert(a@[i as int] != b@[i as int]);
            return false;
        }
        i += 1;
    }
    assert(a@ =~= b@);
    true
}

/// Cipher blocks of a content, modulo the width of their counter.
fn wrapped_blocks(len: usize) -> (n: u64)
    ensures
        n == program::blocks(len as int),
{
    let whole: u64 = (len / 16) as u64;
    if len % 16 == 0 {
        whole
    } else {
        whole + 1
    }
}

impl Setup {
    /// Start the burst of a dock. `ctr` continues the authentication's counter, `table` and
    /// `steps` hold the messages of a connector's authentication and finalization, and `queued`
    /// says whether the outgoing queue opened.
    pub fn new(
        profile: &SetupProfile,
        table: &[HeadStep],
        steps: &[(u16, u16)],
        queued: bool,
        ctr: u16,
    ) -> (s: Setup)
        requires
            program::table_fits(table@),
        ensures
            s@ == setup_state::initial(
                program::program_spec(*profile, table@, steps@, queued),
                profile.edid_ready_reported,
                ctr,
            ),
    {
        let program = build(profile, table, steps, queued);
        let mut edids: Vec<Option<Vec<u8>>> = Vec::new();
        let mut flags: Vec<bool> = Vec::new();
        let mut more: Vec<bool> = Vec::new();
        let mut last: Vec<bool> = Vec::new();
        let mut open_ctr: Vec<Option<u16>> = Vec::new();
        let mut i: usize = 0;
        while i < CP_SETUP_CONNECTORS
            invariant
                i <= CP_SETUP_CONNECTORS,
                edids@.len() == i,
                flags@.len() == i,
                more@.len() == i,
                last@.len() == i,
                open_ctr@.len() == i,
                forall|j: int| 0 <= j < i ==> edids@[j] is None,
                forall|j: int| 0 <= j < i ==> !flags@[j],
                forall|j: int| 0 <= j < i ==> !more@[j],
                forall|j: int| 0 <= j < i ==> !last@[j],
                forall|j: int| 0 <= j < i ==> open_ctr@[j] is None,
            decreases CP_SETUP_CONNECTORS - i,
        {
            edids.push(None);
            flags.push(false);
            more.push(false);
            last.push(false);
            open_ctr.push(None);
            i += 1;
        }
        let s = Setup {
            program,
            ready_reported: profile.edid_ready_reported,
            pos: 0,
            failed: None,
            ctr,
            wseq: 0,
            sent: 0,
            drained: 0,
            acks: 0,
            rejects: 0,
            heads: 0,
            slot: None,
            edids,
            present: flags,
            deferred: more,
            authentic: last,
            open_ctr,
            opened: 0,
            head: Head {
                skipping: false,
                rrx: None,
                repeater: None,
                kd: false,
                edkey: false,
                v: false,
                d: Ep84Drain::new(),
            },
            accepted: false,
            refusal: Error::ETIMEDOUT,
            quiet: false,
            ready: false,
            early: false,
            polling: false,
            retrying: false,
            transport: None,
            started: Instant { nanos: 0 },
        };
        assert(s@ =~= setup_state::initial(
            program::program_spec(*profile, table@, steps@, queued),
            profile.edid_ready_reported,
            ctr,
        ));
        s
    }

    /// Whether the burst is over.
    pub fn is_finished(&self) -> (b: bool)
        ensures
            b == setup_state::finished(self@),
    {
        self.failed.is_some() || self.pos >= self.program.len()
    }

    /// Whether any connector's capability arrived.
    fn any_present(&self) -> (b: bool)
        ensures
            b == self@.present.contains(true),
    {
        let mut i: usize = 0;
        while i < self.present.len()
            invariant
                i <= self.present@.len(),
                forall|j: int| 0 <= j < i ==> !self.present@[j],
            decreases self.present@.len() - i,
        {
            if self.present[i] {
                assert(self@.present[i as int]);
                return true;
            }
            i += 1;
        }
        false
    }

    /// Whether discovery looks at a connector.
    fn is_candidate(&self, c: u8) -> (b: bool)
        ensures
            b == setup_state::candidate(self@, c),
    {
        c == 0 || !self.any_present() || ((c as usize) < self.present.len() && self.present[c as usize])
    }

    /// Whether a step's condition holds.
    fn is_enabled(&self, when: When) -> (b: bool)
        ensures
            b == setup_state::enabled(self@, when),
    {
        match when {
            When::Always => true,
            When::Refused => !self.accepted,
            When::Taken => !self.head.skipping,
            When::Skipped => self.head.skipping,
            When::Authentic(c) => (c as usize) < self.authentic.len() && self.authentic[c as usize],
            When::Restless => !self.quiet,
            When::Known(c) => (c as usize) < self.edids.len() && self.edids[c as usize].is_some(),
            When::Candidate(c) => self.is_candidate(c),
            When::Working(c) => self.is_candidate(c) && self.transport.is_none(),
            When::Early(c) => self.is_candidate(c) && self.transport.is_none() && self.early,
            When::Polling(c) => self.is_candidate(c) && self.transport.is_none() && self.polling,
            When::Retrying(c) => self.is_candidate(c) && self.transport.is_none() && self.retrying,
        }
    }

    /// The sweep that waits for `wait`.
    fn mode(&self, wait: Wait) -> (m: Mode)
        ensures
            m == setup_state::mode_of(self@, wait),
    {
        match wait {
            Wait::Drain(ms) => Mode::Drain { first_wait: ms },
            Wait::Echo => Mode::Lockstep { ictr: self.ctr },
            Wait::EchoOf(ctr) => Mode::Lockstep { ictr: ctr },
            Wait::Push(want, ms) => Mode::Push { want, wait: ms },
        }
    }

    /// Whether the EDID is still waited for.
    fn is_awaiting(&self, settle: bool, now: Instant) -> (b: bool)
        ensures
            b == setup_state::awaiting(self@, settle, now),
    {
        (settle || self.slot.is_none()) && now.is_within(self.started, EDID_REPLY_WAIT)
    }

    /// What an operation asks to be done.
    fn action_of(&self, op: Op, now: Instant) -> (a: Action)
        ensures
            a == setup_state::action_of(self@, op, now),
    {
        let ctr: u16 = self.ctr;
        let wseq: u32 = self.wseq;
        match op {
            Op::Arm => Action::Arm,
            Op::HelloQueued => Action::Hello { ctr, wseq, queued: true },
            Op::HelloTry => Action::Hello { ctr, wseq, queued: false },
            Op::Sweep { wait, mark: _ } => Action::Sweep(self.mode(wait)),
            Op::Init { id, sub, prefix, a, b } => Action::Init { id, sub, prefix, a, b, ctr, wseq },
            Op::ClearHalt(h) => Action::ClearHalt(h),
            Op::Sleep(ms) => Action::Sleep(ms),
            Op::Commit => Action::Commit,
            Op::ReadState => Action::ReadState,
            Op::Begin(c) => Action::Begin(c),
            Op::Announce(c) => Action::Announce(c),
            Op::Derive(c) => Action::Derive(c),
            Op::HeadSend { connector, index, opens: _ } => Action::HeadSend {
                connector,
                index,
                ctr,
                wseq,
            },
            Op::HeadReply { wait, learn: _ } => Action::Sweep(self.mode(wait)),
            Op::HeadMore { wait, learn: _ } => Action::Sweep(self.mode(wait)),
            Op::Hold => Action::Hold,
            Op::VerifyH(c) => if self.head.d.per_connector_hprime.is_none() {
                Action::Pass
            } else {
                let repeater = match self.head.repeater {
                    Some(b) => b,
                    None => true,
                };
                Action::ExpectH { connector: c, repeater }
            },
            Op::Eks(c) => Action::Eks(c),
            Op::VerifyL(c) => if self.head.d.per_connector_lprime.is_none() || !self.head.kd
                || self.head.rrx.is_none() {
                Action::Pass
            } else {
                Action::ExpectL(c)
            },
            Op::VerifyV(c) => if self.head.d.per_connector_v.is_none() || !self.head.kd {
                Action::Pass
            } else {
                Action::ExpectV(c)
            },
            Op::PostAuth => Action::PostAuth { ctr, wseq },
            Op::Finalize { id, sub, connector } => Action::Finalize {
                id,
                sub,
                connector,
                ctr,
                wseq,
            },
            Op::Flush => Action::Flush,
            Op::DrainQuiet => Action::Sweep(Mode::Drain { first_wait: 10 }),
            Op::Live(message, _) => Action::Live { message, ctr, wseq },
            Op::Await { settle } => if self.is_awaiting(settle, now) {
                Action::Sweep(Mode::Drain { first_wait: 20 })
            } else {
                Action::Pass
            },
            Op::OpenStream(c) => Action::OpenStream(c),
            _ => Action::Pass,
        }
    }

    /// What is to be done next.
    pub fn action(&self, now: Instant) -> (a: Action)
        requires
            !setup_state::finished(self@),
        ensures
            a == setup_state::action_spec(self@, now),
    {
        let step = self.program[self.pos];
        if self.is_enabled(step.when) {
            self.action_of(step.op, now)
        } else {
            Action::Pass
        }
    }

    /// The receiver's nonce held for the connector being authenticated.
    pub fn nonce(&self) -> (r: Option<[u8; 8]>)
        ensures
            drain::bytes_of(r) == self@.head.rrx,
    {
        self.head.rrx
    }

    /// The receiver list held for the connector being authenticated.
    pub fn receiver_list(&self) -> (r: Option<ReceiverList>)
        ensures
            drain::list_of(r) == self@.head.d.v,
    {
        self.head.d.per_connector_v
    }

    /// Go on to the next step.
    fn go_on(&mut self)
        requires
            !setup_state::finished(old(self)@),
        ensures
            final(self)@ == setup_state::next(old(self)@),
    {
        let len: usize = self.program.len();
        assert(self.pos < len);
        self.pos = self.pos + 1;
    }

    /// Fail the burst.
    fn fail(&mut self, e: Error)
        ensures
            final(self)@ == setup_state::fail(old(self)@, e),
    {
        self.failed = Some(e);
    }

    /// Go on where the action was done; fail the burst where it was not. Says whether it was.
    fn settle_by(&mut self, ev: &Event) -> (done: bool)
        requires
            !setup_state::finished(old(self)@),
        ensures
            done == (ev@ is Done),
            done ==> final(self)@ == old(self)@,
            !done ==> final(self)@ == setup_state::settled_by(old(self)@, ev@, old(self)@),
    {
        match ev {
            Event::Done => true,
            Event::Failed(e) => {
                self.fail(*e);
                false
            },
            Event::SendFailed(e) => {
                self.fail(*e);
                false
            },
            _ => {
                self.fail(Error::EINVAL);
                false
            },
        }
    }

    /// Keep an EDID a sweep found.
    fn keep(&mut self, edid: Option<Vec<u8>>)
        ensures
            final(self)@ == setup_state::slotted(old(self)@, replies::contents(edid)),
    {
        if self.slot.is_none() {
            self.slot = edid;
        }
    }

    /// Attribute a capability reply.
    fn mark(&mut self, echoed: Option<u16>)
        ensures
            final(self)@ == (setup_state::State {
                present: setup_state::marked(old(self)@.present, old(self)@.open_ctr, echoed),
                ..old(self)@
            }),
    {
        if let Some(ctr) = echoed {
            let mut h: usize = 0;
            while h < self.present.len()
                invariant
                    h <= self.present@.len(),
                    self.present@.len() == old(self).present@.len(),
                    self@ == (setup_state::State { present: self.present@, ..old(self)@ }),
                    forall|j: int|
                        0 <= j < h ==> self.present@[j] == setup_state::marked(
                            old(self)@.present,
                            old(self)@.open_ctr,
                            Some(ctr),
                        )[j],
                    forall|j: int|
                        h <= j < self.present@.len() ==> self.present@[j]
                            == old(self).present@[j],
                decreases self.present@.len() - h,
            {
                let opened = if h < self.open_ctr.len() {
                    match self.open_ctr[h] {
                        Some(c) => c == ctr,
                        None => false,
                    }
                } else {
                    false
                };
                if opened {
                    self.present.set(h, true);
                }
                h += 1;
            }
            assert(self.present@ =~= setup_state::marked(
                old(self)@.present,
                old(self)@.open_ctr,
                Some(ctr),
            ));
        }
    }

    /// Add a sweep to the totals.
    fn total(&mut self, d: &Ep84Drain, mark: bool)
        requires
            old(self)@.drained + d@.reads <= usize::MAX,
            old(self)@.acks + d@.acks <= usize::MAX,
            old(self)@.rejects + d@.rejects <= usize::MAX,
        ensures
            final(self)@ == setup_state::totalled(old(self)@, d@, mark),
    {
        self.drained = self.drained + d.reads;
        self.acks = self.acks + d.acks;
        self.rejects = self.rejects + d.rejects;
        if mark {
            self.mark(d.display_cap_ctr);
        }
        assert(self@ =~= setup_state::totalled(old(self)@, d@, mark));
    }

    /// Drop an EDID offered too early.
    fn settle(&mut self)
        ensures
            final(self)@ == setup_state::settle(old(self)@),
    {
        if self.ready_reported && !self.ready {
            self.slot = None;
        }
    }

    /// Step past a message.
    fn advance(&mut self, n: u32)
        requires
            old(self)@.ctr + 1 <= u16::MAX,
            old(self)@.wseq + n <= u32::MAX,
        ensures
            final(self)@ == setup_state::advanced(old(self)@, n as int),
    {
        self.ctr = self.ctr + 1;
        self.wseq = self.wseq + n;
    }

    fn apply_hello_try(&mut self, ev: &Event)
        requires
            !setup_state::finished(old(self)@),
        ensures
            final(self)@ == setup_state::hello_try(old(self)@, ev@),
    {
        match ev {
            Event::Done => {
                self.accepted = true;
                self.go_on();
            },
            Event::Failed(e) => self.fail(*e),
            Event::SendFailed(e) => {
                self.refusal = *e;
                self.go_on();
            },
            _ => self.fail(Error::EINVAL),
        }
    }

    /// Skip the connector.
    fn skip(&mut self)
        ensures
            final(self)@ == (setup_state::State {
                head: setup_state::HeadState { skipping: true, ..old(self)@.head },
                ..old(self)@
            }),
    {
        self.head.skipping = true;
    }

    fn apply_gate(&mut self, advance: bool, n: u32)
        requires
            !setup_state::finished(old(self)@),
            setup_state::in_range(setup_state::gate(old(self)@, advance, n as int)),
        ensures
            final(self)@ == setup_state::gate(old(self)@, advance, n as int),
    {
        if self.head.rrx.is_some() {
            self.go_on();
            return ;
        }
        if advance {
            self.advance(n);
        }
        let ghost t = self@;
        self.skip();
        assert(self@ == (setup_state::State {
            head: setup_state::HeadState { skipping: true, ..t.head },
            ..t
        }));
        self.go_on();
    }

    fn apply_head_reply(&mut self, ev: Event, learn: bool)
        requires
            !setup_state::finished(old(self)@),
        ensures
            final(self)@ == setup_state::head_reply(old(self)@, ev@, learn),
    {
        match ev {
            Event::Swept { tally, edid } => {
                self.keep(edid);
                self.head.rrx = first_nonce(self.head.rrx, tally.per_connector_rrx);
                if learn {
                    self.head.repeater =
                    first_flag(self.head.repeater, tally.per_connector_repeater);
                }
                self.head.d = tally;
                self.go_on();
            },
            _ => self.fail(Error::EINVAL),
        }
    }

    fn apply_head_more(&mut self, ev: Event, learn: bool)
        requires
            !setup_state::finished(old(self)@),
            setup_state::in_range(setup_state::head_more(old(self)@, ev@, learn)),
        ensures
            final(self)@ == setup_state::head_more(old(self)@, ev@, learn),
    {
        match ev {
            Event::Swept { tally, edid } => {
                self.keep(edid);
                if learn {
                    self.head.rrx = first_nonce(self.head.rrx, tally.per_connector_rrx);
                    self.head.repeater =
                    first_flag(self.head.repeater, tally.per_connector_repeater);
                }
                let mut d = self.head.d;
                d.add(tally);
                self.head.d = d;
                self.go_on();
            },
            _ => self.fail(Error::EINVAL),
        }
    }

    /// Hold a digest against the one the receiver answered. Says whether they are equal.
    fn compare(&mut self, ev: &Event, answered: &[u8]) -> (good: bool)
        ensures
            good == (ev@ matches setup_state::Ev::Digest(d) && d == answered@),
            good ==> final(self)@ == old(self)@,
            !good ==> final(self)@ == setup_state::compared(
                old(self)@,
                ev@,
                answered@,
                old(self)@,
            ),
    {
        match ev {
            Event::Digest(d) => if same_bytes(d.as_slice(), answered) {
                true
            } else {
                self.fail(Error::EPROTO);
                false
            },
            Event::Failed(e) => {
                self.fail(*e);
                false
            },
            _ => {
                self.fail(Error::EINVAL);
                false
            },
        }
    }

    fn apply_verify_h(&mut self, ev: &Event)
        requires
            !setup_state::finished(old(self)@),
        ensures
            final(self)@ == setup_state::verify_h(old(self)@, ev@),
    {
        match self.head.d.per_connector_hprime {
            None => self.fail(Error::EPROTO),
            Some(h) => if self.compare(ev, h.as_slice()) {
                self.head.kd = true;
                self.go_on();
            },
        }
    }

    fn apply_verify_l(&mut self, ev: &Event)
        requires
            !setup_state::finished(old(self)@),
        ensures
            final(self)@ == setup_state::verify_l(old(self)@, ev@),
    {
        if !self.head.kd || self.head.rrx.is_none() {
            self.fail(Error::EPROTO);
            return ;
        }
        match self.head.d.per_connector_lprime {
            None => self.fail(Error::EPROTO),
            Some(l) => if self.compare(ev, l.as_slice()) {
                self.go_on();
            },
        }
    }

    fn apply_verify_v(&mut self, ev: &Event)
        requires
            !setup_state::finished(old(self)@),
        ensures
            final(self)@ == setup_state::verify_v(old(self)@, ev@),
    {
        let list = match self.head.d.per_connector_v {
            None => {
                self.fail(Error::EPROTO);
                return ;
            },
            Some(list) => list,
        };
        if !self.head.kd {
            self.fail(Error::EPROTO);
            return ;
        }
        match ev {
            Event::Digest(v) => {
                let whole = v.as_slice();
                if whole.len() >= drain::V_PRIME_HALF_LEN && same_bytes(
                    vstd::slice::slice_subrange(whole, 0, drain::V_PRIME_HALF_LEN),
                    list.vprime.as_slice(),
                ) {
                    self.head.v = true;
                    self.go_on();
                } else {
                    self.fail(Error::EPROTO);
                }
            },
            Event::Failed(e) => self.fail(*e),
            _ => self.fail(Error::EINVAL),
        }
    }

    fn apply_live(&mut self, account: Account, ev: Event)
        requires
            !setup_state::finished(old(self)@),
            setup_state::in_range(setup_state::live(old(self)@, account, ev@)),
        ensures
            final(self)@ == setup_state::live(old(self)@, account, ev@),
    {
        match ev {
            Event::LiveSent { len, tally, edid } => {
                self.keep(edid);
                self.total(&tally, false);
                self.ctr = self.ctr + 1;
                let w: u64 = (self.wseq as u64 + wrapped_blocks(len)) % 0x1_0000_0000;
                self.wseq = w as u32;
                match account {
                    Account::Counted => {
                        self.sent = self.sent + 1;
                    },
                    _ => {},
                }
                self.ready = self.ready || tally.edid_ready;
                self.go_on();
            },
            Event::Failed(e) => self.fail(e),
            Event::SendFailed(e) => match account {
                Account::Local => {
                    self.transport = Some(e);
                    self.go_on();
                },
                _ => self.fail(e),
            },
            _ => self.fail(Error::EINVAL),
        }
    }

    fn apply_await(&mut self, by_settling: bool, ev: Event, now: Instant)
        requires
            !setup_state::finished(old(self)@),
            setup_state::in_range(setup_state::awaited(old(self)@, by_settling, ev@, now)),
        ensures
            final(self)@ == setup_state::awaited(old(self)@, by_settling, ev@, now),
    {
        match ev {
            Event::Swept { tally, edid } => {
                self.keep(edid);
                self.total(&tally, false);
                if by_settling {
                    self.ready = self.ready || tally.edid_ready;
                    self.settle();
                    if self.slot.is_some() {
                        self.early = false;
                        self.go_on();
                    }
                }
            },
            Event::Pass => if self.is_awaiting(by_settling, now) {
                self.fail(Error::EINVAL);
            } else {
                self.go_on();
            },
            _ => self.fail(Error::EINVAL),
        }
    }

    /// Move an EDID to a connector.
    fn put_edid(&mut self, c: u8, edid: Option<Vec<u8>>)
        ensures
            final(self)@ == (setup_state::State {
                edids: setup_state::with_entry(old(self)@.edids, c, replies::contents(edid)),
                ..old(self)@
            }),
    {
        if (c as usize) < self.edids.len() {
            self.edids.set(c as usize, edid);
        }
        assert(self@.edids =~= setup_state::with_entry(
            old(self)@.edids,
            c,
            replies::contents(edid),
        ));
    }

    fn apply_store_edid(&mut self, c: u8, defer: bool)
        requires
            !setup_state::finished(old(self)@),
        ensures
            final(self)@ == setup_state::store_edid(old(self)@, c, defer),
    {
        let edid = self.slot.take();
        if defer {
            set_flag(&mut self.deferred, c, edid.is_none());
        }
        self.put_edid(c, edid);
        self.go_on();
    }

    fn apply_discover_end(&mut self, c: u8)
        requires
            !setup_state::finished(old(self)@),
        ensures
            final(self)@ == setup_state::discover_end(old(self)@, c),
    {
        let mut edid = self.slot.take();
        let broken = self.transport.is_some();
        if broken {
            edid = None;
        }
        set_flag(&mut self.deferred, c, broken);
        self.put_edid(c, edid);
        self.go_on();
    }

    fn do_hello_sent(&mut self, now: Instant)
        requires
            !setup_state::finished(old(self)@),
            setup_state::in_range(setup_state::internal(old(self)@, Op::HelloSent, now)),
        ensures
            final(self)@ == setup_state::internal(old(self)@, Op::HelloSent, now),
    {
        proof {
            reveal(setup_state::internal);
        }
        if self.accepted {
            self.sent = self.sent + 1;
            self.go_on();
        } else {
            let e = self.refusal;
            self.fail(e);
        }
    }

    fn do_advance(&mut self, n: u32, now: Instant)
        requires
            !setup_state::finished(old(self)@),
            setup_state::in_range(setup_state::internal(old(self)@, Op::Advance(n), now)),
        ensures
            final(self)@ == setup_state::internal(old(self)@, Op::Advance(n), now),
    {
        proof {
            reveal(setup_state::internal);
        }
        self.advance(n);
        self.go_on();
    }

    fn do_gate(&mut self, advance: bool, blocks: u32, now: Instant)
        requires
            !setup_state::finished(old(self)@),
            setup_state::in_range(setup_state::internal(old(self)@, (Op::Gate { advance, blocks }), now)),
        ensures
            final(self)@ == setup_state::internal(old(self)@, (Op::Gate { advance, blocks }), now),
    {
        proof {
            reveal(setup_state::internal);
        }
        self.apply_gate(advance, blocks);
    }

    fn do_ready(&mut self, i: u8, now: Instant)
        requires
            !setup_state::finished(old(self)@),
        ensures
            final(self)@ == setup_state::internal(old(self)@, Op::Ready(i), now),
    {
        proof {
            reveal(setup_state::internal);
        }
        if (i == 4 && !self.head.edkey) || (i == 5 && !self.head.v) {
            self.fail(Error::EPROTO);
        } else {
            self.go_on();
        }
    }

    fn do_check_status(&mut self, now: Instant)
        requires
            !setup_state::finished(old(self)@),
        ensures
            final(self)@ == setup_state::internal(old(self)@, Op::CheckStatus, now),
    {
        proof {
            reveal(setup_state::internal);
        }
        let passed = match self.head.d.per_connector_auth_status {
            Some(status) => status == RECEIVER_PASSED,
            None => false,
        };
        if passed {
            self.go_on();
        } else {
            self.fail(Error::EPROTO);
        }
    }

    fn do_check_m(&mut self, now: Instant)
        requires
            !setup_state::finished(old(self)@),
        ensures
            final(self)@ == setup_state::internal(old(self)@, Op::CheckM, now),
    {
        proof {
            reveal(setup_state::internal);
        }
        if self.head.d.per_connector_mprime.is_some() {
            self.go_on();
        } else {
            self.fail(Error::EPROTO);
        }
    }

    fn do_tally(&mut self, mark: bool, now: Instant)
        requires
            !setup_state::finished(old(self)@),
            setup_state::in_range(setup_state::internal(old(self)@, (Op::Tally { mark }), now)),
        ensures
            final(self)@ == setup_state::internal(old(self)@, (Op::Tally { mark }), now),
    {
        proof {
            reveal(setup_state::internal);
        }
        let d = self.head.d;
        self.total(&d, mark);
        self.go_on();
    }

    fn do_authenticated(&mut self, c: u8, now: Instant)
        requires
            !setup_state::finished(old(self)@),
            setup_state::in_range(setup_state::internal(old(self)@, Op::Authenticated(c), now)),
        ensures
            final(self)@ == setup_state::internal(old(self)@, Op::Authenticated(c), now),
    {
        proof {
            reveal(setup_state::internal);
        }
        set_flag(&mut self.authentic, c, true);
        self.heads = self.heads + 1;
        self.go_on();
    }

    fn do_ack_gate(&mut self, now: Instant)
        requires
            !setup_state::finished(old(self)@),
        ensures
            final(self)@ == setup_state::internal(old(self)@, Op::AckGate, now),
    {
        proof {
            reveal(setup_state::internal);
        }
        if self.acks == 0 {
            self.fail(Error::EPROTO);
        } else {
            self.go_on();
        }
    }

    fn do_clear_edid(&mut self, now: Instant)
        requires
            !setup_state::finished(old(self)@),
        ensures
            final(self)@ == setup_state::internal(old(self)@, Op::ClearEdid, now),
    {
        proof {
            reveal(setup_state::internal);
        }
        self.slot = None;
        self.go_on();
    }

    fn do_start_timer(&mut self, now: Instant)
        requires
            !setup_state::finished(old(self)@),
        ensures
            final(self)@ == setup_state::internal(old(self)@, Op::StartTimer, now),
    {
        proof {
            reveal(setup_state::internal);
        }
        self.started = now;
        self.go_on();
    }

    fn do_store_edid(&mut self, connector: u8, defer: bool, now: Instant)
        requires
            !setup_state::finished(old(self)@),
        ensures
            final(self)@ == setup_state::internal(old(self)@, (Op::StoreEdid { connector, defer }), now),
    {
        proof {
            reveal(setup_state::internal);
        }
        self.apply_store_edid(connector, defer);
    }

    fn do_discover_begin(&mut self, now: Instant)
        requires
            !setup_state::finished(old(self)@),
        ensures
            final(self)@ == setup_state::internal(old(self)@, Op::DiscoverBegin, now),
    {
        proof {
            reveal(setup_state::internal);
        }
        self.slot = None;
        self.ready = false;
        self.early = false;
        self.polling = false;
        self.retrying = false;
        self.transport = None;
        self.go_on();
    }

    fn do_early_check(&mut self, now: Instant)
        requires
            !setup_state::finished(old(self)@),
        ensures
            final(self)@ == setup_state::internal(old(self)@, Op::EarlyCheck, now),
    {
        proof {
            reveal(setup_state::internal);
        }
        self.settle();
        self.early = self.slot.is_none();
        self.go_on();
    }

    fn do_poll_open(&mut self, now: Instant)
        requires
            !setup_state::finished(old(self)@),
        ensures
            final(self)@ == setup_state::internal(old(self)@, Op::PollOpen, now),
    {
        proof {
            reveal(setup_state::internal);
        }
        self.polling = self.slot.is_none();
        self.retrying = self.slot.is_none();
        self.started = now;
        self.go_on();
    }

    fn do_poll_check(&mut self, timed: bool, now: Instant)
        requires
            !setup_state::finished(old(self)@),
        ensures
            final(self)@ == setup_state::internal(old(self)@, (Op::PollCheck { timed }), now),
    {
        proof {
            reveal(setup_state::internal);
        }
        if self.slot.is_some() || self.ready || (timed && now.is_beyond(
            self.started,
            EDID_POLL_MAX,
        )) {
            self.polling = false;
        }
        self.go_on();
    }

    fn do_retry_check(&mut self, now: Instant)
        requires
            !setup_state::finished(old(self)@),
        ensures
            final(self)@ == setup_state::internal(old(self)@, Op::RetryCheck, now),
    {
        proof {
            reveal(setup_state::internal);
        }
        self.settle();
        self.retrying = self.slot.is_none();
        self.go_on();
    }

    fn do_discover_end(&mut self, c: u8, now: Instant)
        requires
            !setup_state::finished(old(self)@),
        ensures
            final(self)@ == setup_state::internal(old(self)@, Op::DiscoverEnd(c), now),
    {
        proof {
            reveal(setup_state::internal);
        }
        self.apply_discover_end(c);
    }

    /// Perform an operation without any outcome.
    fn apply_internal(&mut self, op: Op, now: Instant)
        requires
            !setup_state::finished(old(self)@),
            setup_state::is_internal(op),
            setup_state::in_range(setup_state::internal(old(self)@, op, now)),
        ensures
            final(self)@ == setup_state::internal(old(self)@, op, now),
    {
        match op {
            Op::HelloSent => self.do_hello_sent(now),
            Op::Advance(n) => self.do_advance(n, now),
            Op::Gate { advance, blocks } => self.do_gate(advance, blocks, now),
            Op::Ready(i) => self.do_ready(i, now),
            Op::CheckStatus => self.do_check_status(now),
            Op::CheckM => self.do_check_m(now),
            Op::Tally { mark } => self.do_tally(mark, now),
            Op::Authenticated(c) => self.do_authenticated(c, now),
            Op::AckGate => self.do_ack_gate(now),
            Op::ClearEdid => self.do_clear_edid(now),
            Op::StartTimer => self.do_start_timer(now),
            Op::StoreEdid { connector, defer } => self.do_store_edid(connector, defer, now),
            Op::DiscoverBegin => self.do_discover_begin(now),
            Op::EarlyCheck => self.do_early_check(now),
            Op::PollOpen => self.do_poll_open(now),
            Op::PollCheck { timed } => self.do_poll_check(timed, now),
            Op::RetryCheck => self.do_retry_check(now),
            Op::DiscoverEnd(c) => self.do_discover_end(c, now),
            _ => {},
        }
    }

    fn on_hello_queued(&mut self, ev: &Event, now: Instant)
        requires
            !setup_state::finished(old(self)@),
        ensures
            final(self)@ == setup_state::outcome(old(self)@, Op::HelloQueued, ev@, now),
    {
        proof {
            reveal(setup_state::outcome);
        }
        if self.settle_by(ev) {
            self.accepted = true;
            self.go_on();
        }
    }

    fn on_hello_try(&mut self, ev: &Event, now: Instant)
        requires
            !setup_state::finished(old(self)@),
        ensures
            final(self)@ == setup_state::outcome(old(self)@, Op::HelloTry, ev@, now),
    {
        proof {
            reveal(setup_state::outcome);
        }
        self.apply_hello_try(ev);
    }

    fn on_sweep(&mut self, wait: Wait, mark: bool, ev: Event, now: Instant)
        requires
            !setup_state::finished(old(self)@),
            setup_state::in_range(setup_state::outcome(old(self)@, (Op::Sweep { wait, mark }), ev@, now)),
        ensures
            final(self)@ == setup_state::outcome(old(self)@, (Op::Sweep { wait, mark }), ev@, now),
    {
        proof {
            reveal(setup_state::outcome);
        }
        match ev {
            Event::Swept { tally, edid } => {
                self.keep(edid);
                self.total(&tally, mark);
                self.go_on();
            },
            _ => self.fail(Error::EINVAL),
        }
    }

    /// Count a message that was sent.
    fn count_sent(&mut self, ev: &Event)
        requires
            !setup_state::finished(old(self)@),
            setup_state::in_range(
                setup_state::settled_by(old(self)@, ev@, setup_state::counted(old(self)@)),
            ),
        ensures
            final(self)@ == setup_state::settled_by(
                old(self)@,
                ev@,
                setup_state::counted(old(self)@),
            ),
    {
        if self.settle_by(ev) {
            self.sent = self.sent + 1;
            self.go_on();
        }
    }

    /// Go on once the action is done.
    fn on_plain(&mut self, ev: &Event)
        requires
            !setup_state::finished(old(self)@),
        ensures
            final(self)@ == setup_state::settled_by(old(self)@, ev@, old(self)@),
    {
        if self.settle_by(ev) {
            self.go_on();
        }
    }

    fn on_init(&mut self, id: u16, sub: u16, prefix: u8, a: u8, b: u8, ev: &Event, now: Instant)
        requires
            !setup_state::finished(old(self)@),
            setup_state::in_range(setup_state::outcome(old(self)@, (Op::Init { id, sub, prefix, a, b }), ev@, now)),
        ensures
            final(self)@ == setup_state::outcome(old(self)@, (Op::Init { id, sub, prefix, a, b }), ev@, now),
    {
        proof {
            reveal(setup_state::outcome);
        }
        self.count_sent(ev);
    }

    fn on_begin(&mut self, c: u8, ev: &Event, now: Instant)
        requires
            !setup_state::finished(old(self)@),
        ensures
            final(self)@ == setup_state::outcome(old(self)@, Op::Begin(c), ev@, now),
    {
        proof {
            reveal(setup_state::outcome);
        }
        if self.settle_by(ev) {
            self.head =
            Head {
                skipping: false,
                rrx: None,
                repeater: None,
                kd: false,
                edkey: false,
                v: false,
                d: Ep84Drain::new(),
            };
            self.go_on();
        }
    }

    fn on_derive(&mut self, c: u8, ev: &Event, now: Instant)
        requires
            !setup_state::finished(old(self)@),
        ensures
            final(self)@ == setup_state::outcome(old(self)@, Op::Derive(c), ev@, now),
    {
        proof {
            reveal(setup_state::outcome);
        }
        if self.settle_by(ev) {
            self.head.kd = true;
            self.head.edkey = true;
            self.head.v = true;
            self.go_on();
        }
    }

    fn on_head_send(&mut self, connector: u8, index: u8, opens: bool, ev: &Event, now: Instant)
        requires
            !setup_state::finished(old(self)@),
            setup_state::in_range(setup_state::outcome(old(self)@, (Op::HeadSend { connector, index, opens }), ev@, now)),
        ensures
            final(self)@ == setup_state::outcome(old(self)@, (Op::HeadSend { connector, index, opens }), ev@, now),
    {
        proof {
            reveal(setup_state::outcome);
        }
        if self.settle_by(ev) {
            if opens {
                if (connector as usize) < self.open_ctr.len() {
                    self.open_ctr.set(connector as usize, Some(self.ctr));
                }
            }
            self.sent = self.sent + 1;
            self.go_on();
        }
    }

    fn on_head_reply(&mut self, wait: Wait, learn: bool, ev: Event, now: Instant)
        requires
            !setup_state::finished(old(self)@),
        ensures
            final(self)@ == setup_state::outcome(old(self)@, (Op::HeadReply { wait, learn }), ev@, now),
    {
        proof {
            reveal(setup_state::outcome);
        }
        self.apply_head_reply(ev, learn);
    }

    fn on_head_more(&mut self, wait: Wait, learn: bool, ev: Event, now: Instant)
        requires
            !setup_state::finished(old(self)@),
            setup_state::in_range(setup_state::outcome(old(self)@, (Op::HeadMore { wait, learn }), ev@, now)),
        ensures
            final(self)@ == setup_state::outcome(old(self)@, (Op::HeadMore { wait, learn }), ev@, now),
    {
        proof {
            reveal(setup_state::outcome);
        }
        self.apply_head_more(ev, learn);
    }

    fn on_verify_h(&mut self, c: u8, ev: &Event, now: Instant)
        requires
            !setup_state::finished(old(self)@),
        ensures
            final(self)@ == setup_state::outcome(old(self)@, Op::VerifyH(c), ev@, now),
    {
        proof {
            reveal(setup_state::outcome);
        }
        self.apply_verify_h(ev);
    }

    fn on_eks(&mut self, c: u8, ev: &Event, now: Instant)
        requires
            !setup_state::finished(old(self)@),
        ensures
            final(self)@ == setup_state::outcome(old(self)@, Op::Eks(c), ev@, now),
    {
        proof {
            reveal(setup_state::outcome);
        }
        if self.settle_by(ev) {
            self.head.edkey = true;
            self.go_on();
        }
    }

    fn on_verify_l(&mut self, c: u8, ev: &Event, now: Instant)
        requires
            !setup_state::finished(old(self)@),
        ensures
            final(self)@ == setup_state::outcome(old(self)@, Op::VerifyL(c), ev@, now),
    {
        proof {
            reveal(setup_state::outcome);
        }
        self.apply_verify_l(ev);
    }

    fn on_verify_v(&mut self, c: u8, ev: &Event, now: Instant)
        requires
            !setup_state::finished(old(self)@),
        ensures
            final(self)@ == setup_state::outcome(old(self)@, Op::VerifyV(c), ev@, now),
    {
        proof {
            reveal(setup_state::outcome);
        }
        self.apply_verify_v(ev);
    }

    fn on_post_auth(&mut self, ev: &Event, now: Instant)
        requires
            !setup_state::finished(old(self)@),
            setup_state::in_range(setup_state::outcome(old(self)@, Op::PostAuth, ev@, now)),
        ensures
            final(self)@ == setup_state::outcome(old(self)@, Op::PostAuth, ev@, now),
    {
        proof {
            reveal(setup_state::outcome);
        }
        match ev {
            Event::Sent { len } => {
                self.sent = self.sent + 1;
                self.advance(wrapped_blocks(*len) as u32);
                self.go_on();
            },
            Event::Failed(e) => self.fail(*e),
            Event::SendFailed(e) => self.fail(*e),
            _ => self.fail(Error::EINVAL),
        }
    }

    fn on_finalize(&mut self, id: u16, sub: u16, connector: u8, ev: &Event, now: Instant)
        requires
            !setup_state::finished(old(self)@),
            setup_state::in_range(setup_state::outcome(old(self)@, (Op::Finalize { id, sub, connector }), ev@, now)),
        ensures
            final(self)@ == setup_state::outcome(old(self)@, (Op::Finalize { id, sub, connector }), ev@, now),
    {
        proof {
            reveal(setup_state::outcome);
        }
        self.count_sent(ev);
    }

    fn on_flush(&mut self, ev: &Event, now: Instant)
        requires
            !setup_state::finished(old(self)@),
        ensures
            final(self)@ == setup_state::outcome(old(self)@, Op::Flush, ev@, now),
    {
        proof {
            reveal(setup_state::outcome);
        }
        match ev {
            Event::Done => self.go_on(),
            Event::Failed(_) => self.go_on(),
            Event::SendFailed(_) => self.go_on(),
            _ => self.fail(Error::EINVAL),
        }
    }

    fn on_drain_quiet(&mut self, ev: Event, now: Instant)
        requires
            !setup_state::finished(old(self)@),
            setup_state::in_range(setup_state::outcome(old(self)@, Op::DrainQuiet, ev@, now)),
        ensures
            final(self)@ == setup_state::outcome(old(self)@, Op::DrainQuiet, ev@, now),
    {
        proof {
            reveal(setup_state::outcome);
        }
        match ev {
            Event::Swept { tally, edid } => {
                self.keep(edid);
                self.total(&tally, false);
                self.quiet = tally.reads == 0;
                self.go_on();
            },
            _ => self.fail(Error::EINVAL),
        }
    }

    fn on_live(&mut self, message: Message, account: Account, ev: Event, now: Instant)
        requires
            !setup_state::finished(old(self)@),
            setup_state::in_range(setup_state::outcome(old(self)@, Op::Live(message, account), ev@, now)),
        ensures
            final(self)@ == setup_state::outcome(old(self)@, Op::Live(message, account), ev@, now),
    {
        proof {
            reveal(setup_state::outcome);
        }
        self.apply_live(account, ev);
    }

    fn on_await(&mut self, settle: bool, ev: Event, now: Instant)
        requires
            !setup_state::finished(old(self)@),
            setup_state::in_range(setup_state::outcome(old(self)@, (Op::Await { settle }), ev@, now)),
        ensures
            final(self)@ == setup_state::outcome(old(self)@, (Op::Await { settle }), ev@, now),
    {
        proof {
            reveal(setup_state::outcome);
        }
        self.apply_await(settle, ev, now);
    }

    fn on_open_stream(&mut self, c: u8, ev: &Event, now: Instant)
        requires
            !setup_state::finished(old(self)@),
            setup_state::in_range(setup_state::outcome(old(self)@, Op::OpenStream(c), ev@, now)),
        ensures
            final(self)@ == setup_state::outcome(old(self)@, Op::OpenStream(c), ev@, now),
    {
        proof {
            reveal(setup_state::outcome);
        }
        if self.settle_by(ev) {
            self.sent = self.sent + 2;
            if (c as usize) < CP_SETUP_CONNECTORS {
                self.opened = self.opened | (1u32 << c);
            }
            self.go_on();
        }
    }

    fn on_arm(&mut self, ev: &Event, now: Instant)
        requires
            !setup_state::finished(old(self)@),
        ensures
            final(self)@ == setup_state::outcome(old(self)@, Op::Arm, ev@, now),
    {
        proof {
            reveal(setup_state::outcome);
        }
        self.on_plain(ev);
    }

    fn on_commit(&mut self, ev: &Event, now: Instant)
        requires
            !setup_state::finished(old(self)@),
        ensures
            final(self)@ == setup_state::outcome(old(self)@, Op::Commit, ev@, now),
    {
        proof {
            reveal(setup_state::outcome);
        }
        self.on_plain(ev);
    }

    fn on_read_state(&mut self, ev: &Event, now: Instant)
        requires
            !setup_state::finished(old(self)@),
        ensures
            final(self)@ == setup_state::outcome(old(self)@, Op::ReadState, ev@, now),
    {
        proof {
            reveal(setup_state::outcome);
        }
        self.on_plain(ev);
    }

    fn on_hold(&mut self, ev: &Event, now: Instant)
        requires
            !setup_state::finished(old(self)@),
        ensures
            final(self)@ == setup_state::outcome(old(self)@, Op::Hold, ev@, now),
    {
        proof {
            reveal(setup_state::outcome);
        }
        self.on_plain(ev);
    }

    fn on_clear_halt(&mut self, h: u8, ev: &Event, now: Instant)
        requires
            !setup_state::finished(old(self)@),
        ensures
            final(self)@ == setup_state::outcome(old(self)@, Op::ClearHalt(h), ev@, now),
    {
        proof {
            reveal(setup_state::outcome);
        }
        self.on_plain(ev);
    }

    fn on_sleep(&mut self, ms: i64, ev: &Event, now: Instant)
        requires
            !setup_state::finished(old(self)@),
        ensures
            final(self)@ == setup_state::outcome(old(self)@, Op::Sleep(ms), ev@, now),
    {
        proof {
            reveal(setup_state::outcome);
        }
        self.on_plain(ev);
    }

    fn on_announce(&mut self, c: u8, ev: &Event, now: Instant)
        requires
            !setup_state::finished(old(self)@),
        ensures
            final(self)@ == setup_state::outcome(old(self)@, Op::Announce(c), ev@, now),
    {
        proof {
            reveal(setup_state::outcome);
        }
        self.on_plain(ev);
    }

    /// Take up the outcome of an operation's action.
    fn apply_outcome(&mut self, op: Op, ev: Event, now: Instant)
        requires
            !setup_state::finished(old(self)@),
            !setup_state::is_internal(op),
            setup_state::in_range(setup_state::outcome(old(self)@, op, ev@, now)),
        ensures
            final(self)@ == setup_state::outcome(old(self)@, op, ev@, now),
    {
        match op {
            Op::Arm => self.on_arm(&ev, now),
            Op::HelloQueued => self.on_hello_queued(&ev, now),
            Op::HelloTry => self.on_hello_try(&ev, now),
            Op::Sweep { wait, mark } => self.on_sweep(wait, mark, ev, now),
            Op::Init { id, sub, prefix, a, b } => self.on_init(id, sub, prefix, a, b, &ev, now),
            Op::ClearHalt(h) => self.on_clear_halt(h, &ev, now),
            Op::Sleep(ms) => self.on_sleep(ms, &ev, now),
            Op::Commit => self.on_commit(&ev, now),
            Op::ReadState => self.on_read_state(&ev, now),
            Op::Begin(c) => self.on_begin(c, &ev, now),
            Op::Announce(c) => self.on_announce(c, &ev, now),
            Op::Derive(c) => self.on_derive(c, &ev, now),
            Op::HeadSend { connector, index, opens } => self.on_head_send(
                connector,
                index,
                opens,
                &ev,
                now,
            ),
            Op::HeadReply { wait, learn } => self.on_head_reply(wait, learn, ev, now),
            Op::HeadMore { wait, learn } => self.on_head_more(wait, learn, ev, now),
            Op::Hold => self.on_hold(&ev, now),
            Op::VerifyH(c) => self.on_verify_h(c, &ev, now),
            Op::Eks(c) => self.on_eks(c, &ev, now),
            Op::VerifyL(c) => self.on_verify_l(c, &ev, now),
            Op::VerifyV(c) => self.on_verify_v(c, &ev, now),
            Op::PostAuth => self.on_post_auth(&ev, now),
            Op::Finalize { id, sub, connector } => self.on_finalize(id, sub, connector, &ev, now),
            Op::Flush => self.on_flush(&ev, now),
            Op::DrainQuiet => self.on_drain_quiet(ev, now),
            Op::Live(message, account) => self.on_live(message, account, ev, now),
            Op::Await { settle } => self.on_await(settle, ev, now),
            Op::OpenStream(c) => self.on_open_stream(c, &ev, now),
            _ => {},
        }
    }

    /// Take up what became of the action asked for.
    ///
    /// An outcome that does not answer that action fails the burst.
    pub fn apply(&mut self, ev: Event, now: Instant)
        requires
            !setup_state::finished(old(self)@),
            setup_state::in_range(setup_state::step_spec(old(self)@, ev@, now)),
        ensures
            final(self)@ == setup_state::step_spec(old(self)@, ev@, now),
    {
        let step = self.program[self.pos];
        let idle = match ev {
            Event::Pass => true,
            _ => false,
        };
        if !self.is_enabled(step.when) {
            if idle {
                self.go_on();
            } else {
                self.fail(Error::EINVAL);
            }
        } else if self.is_internal(step.op) {
            if idle {
                self.apply_internal(step.op, now);
            } else {
                self.fail(Error::EINVAL);
            }
        } else {
            self.apply_outcome(step.op, ev, now);
        }
    }

    /// Whether every counter has room for an outcome.
    fn has_room(&self, ev: &Event) -> (b: bool)
        requires
            !setup_state::finished(self@),
        ensures
            b == setup_state::headroom(self@, ev@),
    {
        let (reads, acks, rejects): (usize, usize, usize) = match ev {
            Event::Swept { tally, edid: _ } => (tally.reads, tally.acks, tally.rejects),
            Event::LiveSent { len: _, tally, edid: _ } => (tally.reads, tally.acks, tally.rejects),
            _ => (0, 0, 0),
        };
        let blocks: u128 = match self.program[self.pos].op {
            Op::Advance(n) => n as u128,
            Op::Gate { advance: _, blocks } => blocks as u128,
            Op::PostAuth => match ev {
                Event::Sent { len } => (*len as u128 + 15) / 16,
                _ => 0,
            },
            _ => 0,
        };
        let most: u128 = usize::MAX as u128;
        self.ctr < u16::MAX && self.wseq as u128 + blocks <= u32::MAX as u128 && self.sent as u128 + 2
            <= most && self.heads < usize::MAX && self.drained as u128 + reads as u128
            + self.head.d.reads as u128 <= most && self.acks as u128 + acks as u128
            + self.head.d.acks as u128 <= most && self.rejects as u128 + rejects as u128
            + self.head.d.rejects as u128 <= most
    }

    /// Take up the outcome of the action asked for, where every counter has room for it. Else
    /// nothing changes.
    pub fn offer(&mut self, ev: Event, now: Instant) -> (taken: bool)
        requires
            !setup_state::finished(old(self)@),
        ensures
            taken == setup_state::headroom(old(self)@, ev@),
            final(self)@ == (if taken {
                setup_state::step_spec(old(self)@, ev@, now)
            } else {
                old(self)@
            }),
    {
        if !self.has_room(&ev) {
            return false;
        }
        proof {
            setup_state::law_room_is_enough(self@, ev@, now);
        }
        self.apply(ev, now);
        true
    }

    /// Whether an operation is one without any outcome.
    fn is_internal(&self, op: Op) -> (b: bool)
        ensures
            b == setup_state::is_internal(op),
    {
        match op {
            Op::HelloSent => true,
            Op::Advance(_) => true,
            Op::Gate { advance: _, blocks: _ } => true,
            Op::Ready(_) => true,
            Op::CheckStatus => true,
            Op::CheckM => true,
            Op::Tally { mark: _ } => true,
            Op::Authenticated(_) => true,
            Op::AckGate => true,
            Op::ClearEdid => true,
            Op::StartTimer => true,
            Op::StoreEdid { connector: _, defer: _ } => true,
            Op::DiscoverBegin => true,
            Op::EarlyCheck => true,
            Op::PollOpen => true,
            Op::PollCheck { timed: _ } => true,
            Op::RetryCheck => true,
            Op::DiscoverEnd(_) => true,
            _ => false,
        }
    }

    /// What the burst came to: messages sent, the next cipher block and the next counter.
    pub fn result(&self) -> (r: Result<(usize, u32, u16), Error>)
        requires
            setup_state::finished(self@),
        ensures
            r == (match self@.failed {
                Some(e) => Err::<(usize, u32, u16), Error>(e),
                None => Ok((self@.sent as usize, self@.wseq as u32, self@.ctr as u16)),
            }),
    {
        match self.failed {
            Some(e) => Err(e),
            None => Ok((self.sent, self.wseq, self.ctr)),
        }
    }

    /// Take a connector's EDID.
    pub fn take_edid(&mut self, c: u8) -> (edid: Option<Vec<u8>>)
        ensures
            replies::contents(edid) == (if c < old(self)@.edids.len() {
                old(self)@.edids[c as int]
            } else {
                None
            }),
            final(self)@ == (setup_state::State {
                edids: setup_state::with_entry(old(self)@.edids, c, None),
                ..old(self)@
            }),
    {
        let ghost before = self@;
        let edid = if (c as usize) < self.edids.len() {
            let mut taken: Option<Vec<u8>> = None;
            self.edids.set_and_swap(c as usize, &mut taken);
            taken
        } else {
            None
        };
        assert(self@.edids =~= setup_state::with_entry(before.edids, c, None));
        edid
    }

    /// Whether a connector's capability arrived.
    pub fn is_present(&self, c: u8) -> (b: bool)
        ensures
            b == setup_state::flag(self@.present, c),
    {
        (c as usize) < self.present.len() && self.present[c as usize]
    }

    /// Whether a connector's discovery was deferred.
    pub fn is_deferred(&self, c: u8) -> (b: bool)
        ensures
            b == setup_state::flag(self@.deferred, c),
    {
        (c as usize) < self.deferred.len() && self.deferred[c as usize]
    }

    /// The connectors whose video stream was opened, as a bit mask.
    pub fn streams_opened(&self) -> (m: u32)
        ensures
            m == self@.opened,
    {
        self.opened
    }
}

} // verus!
