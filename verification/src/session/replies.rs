//! Reading the dock's reply endpoint.
//!
//! The dock answers here and also pushes unsolicited messages. A reply left undrained puts the
//! control plane out of step, so these sweeps are what keep the session in lockstep.

use vstd::prelude::*;

use crate::bytes;
use crate::bytes::read_u16;
use crate::error::Error;
use crate::session::drain;
use crate::session::drain::{Ep84Drain, PerheadHdcpPush};

verus! {

/// Wire tag of a control-plane reply.
pub const REPLY_TAG: u16 = 0x45;

/// Length of a wire header; a frame no longer than this carries no reply.
pub const HEADER_LEN: usize = 16;

/// Reads of a draining sweep or of a wait for a push.
pub const MAX_READS: u8 = 16;

/// Reads of a lockstep sweep.
pub const MAX_LOCKSTEP_READS: u8 = 8;

/// What the session's cipher makes of a frame.
#[derive(Debug)]
pub struct Decoded {
    /// The downstream authentication push it carries.
    pub push: Option<PerheadHdcpPush>,
    /// The counter of the acknowledgment it verifies as.
    pub ack: Option<u16>,
    /// Whether that acknowledgment is a display-capability reply.
    pub display_cap: bool,
    /// The EDID it carries.
    pub edid: Option<Vec<u8>>,
    /// Whether it reports the downstream read complete.
    pub edid_ready: bool,
    /// Whether it decrypts to a plausible header of an unlisted kind.
    pub lenient: bool,
    /// Whether it is framed in plaintext.
    pub plaintext: bool,
}

/// The outcome of one read.
#[derive(Debug)]
pub enum Read {
    /// A frame arrived.
    Frame { bytes: Vec<u8>, decoded: Decoded },
    /// Nothing arrived within the wait, or the read failed.
    Failed,
}

/// What a sweep is for.
#[derive(Clone, Copy, Debug, PartialEq, Eq, Structural)]
pub enum Mode {
    /// Take what there is; the first read may cover a computation.
    Drain { first_wait: i64 },
    /// Read on until push `want`.
    Push { want: u8, wait: i64 },
    /// Read on until an acknowledgment echoes counter `ictr`.
    Lockstep { ictr: u16 },
}

/// A frame, as the sweeps see it.
pub ghost struct Frame {
    pub len: int,
    pub tagged: bool,
    pub push: Option<(u8, Seq<u8>)>,
    pub ack: Option<u16>,
    pub display_cap: bool,
    pub edid: Option<Seq<u8>>,
    pub edid_ready: bool,
    pub lenient: bool,
    pub plaintext: bool,
}

/// Whether a frame carries the tag of a control-plane reply.
pub open spec fn tagged(s: Seq<u8>) -> bool {
    s.len() >= 10 && bytes::u16_at(s, 8) == REPLY_TAG
}

/// The bytes of an optional buffer.
pub open spec fn contents(v: Option<Vec<u8>>) -> Option<Seq<u8>> {
    match v {
        Some(b) => Some(b@),
        None => None,
    }
}

/// A push's message and payload.
pub open spec fn push_of(p: Option<PerheadHdcpPush>) -> Option<(u8, Seq<u8>)> {
    match p {
        Some(p) => Some((p.msg_id, p.payload@)),
        None => None,
    }
}

impl View for Read {
    type V = Option<Frame>;

    open spec fn view(&self) -> Option<Frame> {
        match *self {
            Read::Frame { bytes, decoded } => Some(
                Frame {
                    len: bytes@.len() as int,
                    tagged: tagged(bytes@),
                    push: push_of(decoded.push),
                    ack: decoded.ack,
                    display_cap: decoded.display_cap,
                    edid: contents(decoded.edid),
                    edid_ready: decoded.edid_ready,
                    lenient: decoded.lenient,
                    plaintext: decoded.plaintext,
                },
            ),
            Read::Failed => None,
        }
    }
}

/// What a sweep has come to.
#[verifier::ext_equal]
pub ghost struct SweepState {
    pub mode: Mode,
    /// Reads it may still make.
    pub left: int,
    pub out: drain::Tally,
}

/// Reads a sweep may make in all.
pub open spec fn budget(mode: Mode) -> int {
    match mode {
        Mode::Lockstep { .. } => MAX_LOCKSTEP_READS as int,
        _ => MAX_READS as int,
    }
}

/// A tally with one more frame read.
pub open spec fn counted(t: drain::Tally) -> drain::Tally {
    drain::Tally { reads: t.reads + 1, ..t }
}

/// A tally with the push a frame carries.
pub open spec fn pushed(t: drain::Tally, f: Frame) -> drain::Tally {
    match f.push {
        Some((msg_id, payload)) => drain::observed(t, msg_id, payload),
        None => t,
    }
}

/// A tally with one more acknowledgment or rejection.
pub open spec fn judged(t: drain::Tally, good: bool) -> drain::Tally {
    if good {
        drain::Tally { acks: t.acks + 1, ..t }
    } else {
        drain::Tally { rejects: t.rejects + 1, ..t }
    }
}

/// What a frame adds to a draining sweep.
pub open spec fn drained(t: drain::Tally, f: Frame) -> drain::Tally {
    let t = pushed(counted(t), f);
    if !f.tagged {
        t
    } else if f.ack is Some {
        let t = judged(t, true);
        drain::Tally {
            display_cap_ctr: if f.display_cap {
                f.ack
            } else {
                t.display_cap_ctr
            },
            edid_ready: t.edid_ready || f.edid_ready,
            ..t
        }
    } else {
        judged(t, f.lenient || f.plaintext)
    }
}

/// What a frame adds to a wait for a push: a push is no acknowledgment.
pub open spec fn awaited(t: drain::Tally, f: Frame) -> drain::Tally {
    let t = counted(t);
    if f.push is Some {
        pushed(t, f)
    } else if !f.tagged {
        t
    } else {
        judged(t, f.ack is Some || f.lenient)
    }
}

/// What a frame adds to a lockstep sweep.
pub open spec fn stepped(t: drain::Tally, f: Frame) -> drain::Tally {
    let t = counted(t);
    if !f.tagged {
        t
    } else {
        judged(pushed(t, f), f.ack is Some || f.lenient)
    }
}

/// Whether a frame ends the sweep it adds to.
pub open spec fn ends(s: SweepState, f: Frame) -> bool {
    match s.mode {
        Mode::Drain { .. } => f.len == 0,
        Mode::Push { want, .. } => f.len > HEADER_LEN && f.push is Some && drain::saw(
            pushed(s.out, f),
            want,
        ),
        Mode::Lockstep { ictr } => f.len > HEADER_LEN && f.tagged && f.ack == Some(ictr),
    }
}

/// A sweep after one read: a failed read ends it, a frame adds what it carries.
pub open spec fn read_spec(s: SweepState, read: Option<Frame>) -> SweepState {
    match read {
        None => SweepState { left: 0, ..s },
        Some(f) => SweepState {
            left: if ends(s, f) {
                0
            } else {
                s.left - 1
            },
            out: match s.mode {
                Mode::Drain { .. } => if f.len == 0 {
                    s.out
                } else {
                    drained(s.out, f)
                },
                Mode::Push { .. } => if f.len > HEADER_LEN {
                    awaited(s.out, f)
                } else {
                    s.out
                },
                Mode::Lockstep { .. } => if f.len > HEADER_LEN {
                    stepped(s.out, f)
                } else {
                    s.out
                },
            },
            ..s
        },
    }
}

/// The EDID slot after one read: an acknowledged frame fills it where it is empty. A wait for a
/// push leaves it alone.
pub open spec fn slot_spec(
    s: SweepState,
    slot: Option<Seq<u8>>,
    read: Option<Frame>,
) -> Option<Seq<u8>> {
    match read {
        None => slot,
        Some(f) => {
            let looks = match s.mode {
                Mode::Drain { .. } => f.len > 0,
                Mode::Push { .. } => false,
                Mode::Lockstep { .. } => f.len > HEADER_LEN,
            };
            if looks && f.tagged && f.ack is Some {
                drain::first_of(slot, f.edid)
            } else {
                slot
            }
        },
    }
}

/// Whether a sweep's counts are within its budget.
pub open spec fn sound(s: SweepState) -> bool {
    &&& 0 <= s.left <= budget(s.mode)
    &&& 0 <= s.out.reads
    &&& s.out.reads + s.left <= budget(s.mode)
    &&& 0 <= s.out.acks
    &&& 0 <= s.out.rejects
    &&& s.out.acks + s.out.rejects <= s.out.reads
}

/// A sweep of the reply endpoint.
#[derive(Debug)]
pub struct Sweep {
    mode: Mode,
    left: u8,
    out: Ep84Drain,
}

impl View for Sweep {
    type V = SweepState;

    closed spec fn view(&self) -> SweepState {
        SweepState { mode: self.mode, left: self.left as int, out: self.out@ }
    }
}

/// Whether a frame carries the tag of a control-plane reply.
fn is_tagged(frame: &[u8]) -> (t: bool)
    ensures
        t == tagged(frame@),
{
    frame.len() >= 10 && read_u16(frame, 8) == REPLY_TAG
}

/// Put an EDID into a slot that holds none.
fn fill(slot: &mut Option<Vec<u8>>, edid: Option<Vec<u8>>)
    ensures
        contents(*final(slot)) == drain::first_of(contents(*old(slot)), contents(edid)),
{
    if slot.is_none() {
        *slot = edid;
    }
}

impl Sweep {
    /// Take what the dock has to say, waiting `first_wait` milliseconds for the first frame and
    /// ten for each further one.
    pub fn drain_ep84(first_wait: i64) -> (s: Sweep)
        ensures
            s@ == (SweepState {
                mode: Mode::Drain { first_wait },
                left: MAX_READS as int,
                out: drain::empty_tally(),
            }),
            sound(s@),
    {
        Sweep { mode: Mode::Drain { first_wait }, left: MAX_READS, out: Ep84Drain::new() }
    }

    /// Read on until push `want`, waiting `wait` milliseconds for each frame.
    ///
    /// The dock acknowledges an envelope before the result it stands for, so the push rather
    /// than the acknowledgment is what the sequence waits for.
    pub fn wait_per_connector_push(want: u8, wait: i64) -> (s: Sweep)
        ensures
            s@ == (SweepState {
                mode: Mode::Push { want, wait },
                left: MAX_READS as int,
                out: drain::empty_tally(),
            }),
            sound(s@),
    {
        Sweep { mode: Mode::Push { want, wait }, left: MAX_READS, out: Ep84Drain::new() }
    }

    /// Read on until an acknowledgment echoes `ictr`.
    pub fn lockstep_reply(ictr: u16) -> (s: Sweep)
        ensures
            s@ == (SweepState {
                mode: Mode::Lockstep { ictr },
                left: MAX_LOCKSTEP_READS as int,
                out: drain::empty_tally(),
            }),
            sound(s@),
    {
        Sweep { mode: Mode::Lockstep { ictr }, left: MAX_LOCKSTEP_READS, out: Ep84Drain::new() }
    }

    /// How long to wait for the next frame, in milliseconds; `None` once the sweep is over.
    pub fn next_wait(&self) -> (ms: Option<i64>)
        requires
            sound(self@),
        ensures
            ms == (if self@.left == 0 {
                None
            } else {
                Some(
                    match self@.mode {
                        Mode::Drain { first_wait } => if self@.left == MAX_READS {
                            first_wait
                        } else {
                            10i64
                        },
                        Mode::Push { wait, .. } => wait,
                        Mode::Lockstep { .. } => 30i64,
                    },
                )
            }),
    {
        if self.left == 0 {
            return None;
        }
        match self.mode {
            Mode::Drain { first_wait } => if self.left == MAX_READS {
                Some(first_wait)
            } else {
                Some(10)
            },
            Mode::Push { want: _, wait } => Some(wait),
            Mode::Lockstep { ictr: _ } => Some(30),
        }
    }

    /// Count an acknowledgment or a rejection.
    fn judge(&mut self, good: bool)
        requires
            old(self).out.acks < usize::MAX,
            old(self).out.rejects < usize::MAX,
        ensures
            final(self)@ == (SweepState { out: judged(old(self)@.out, good), ..old(self)@ }),
    {
        if good {
            self.out.acks = self.out.acks + 1;
        } else {
            self.out.rejects = self.out.rejects + 1;
        }
    }

    /// Record the outcome of the read just made; an EDID found goes into `edid_out`, if that is
    /// still empty.
    pub fn observe(&mut self, read: Read, edid_out: &mut Option<Vec<u8>>)
        requires
            sound(old(self)@),
            old(self)@.left > 0,
        ensures
            final(self)@ == read_spec(old(self)@, read@),
            contents(*final(edid_out)) == slot_spec(
                old(self)@,
                contents(*old(edid_out)),
                read@,
            ),
            sound(final(self)@),
    {
        let (bytes, decoded) = match read {
            Read::Frame { bytes, decoded } => (bytes, decoded),
            Read::Failed => {
                self.left = 0;
                return ;
            },
        };
        let tag = is_tagged(bytes.as_slice());
        let len: usize = bytes.len();
        match self.mode {
            Mode::Drain { first_wait: _ } => {
                if len == 0 {
                    self.left = 0;
                    return ;
                }
                self.left = self.left - 1;
                self.out.reads = self.out.reads + 1;
                if let Some(push) = &decoded.push {
                    self.out.observe_perhead(push);
                }
                if tag {
                    match decoded.ack {
                        Some(ctr) => {
                            self.judge(true);
                            if decoded.display_cap {
                                self.out.display_cap_ctr = Some(ctr);
                            }
                            fill(edid_out, decoded.edid);
                            if decoded.edid_ready {
                                self.out.edid_ready = true;
                            }
                        },
                        None => self.judge(decoded.lenient || decoded.plaintext),
                    }
                }
            },
            Mode::Push { want, wait: _ } => {
                self.left = self.left - 1;
                if len > HEADER_LEN {
                    self.out.reads = self.out.reads + 1;
                    if let Some(push) = &decoded.push {
                        self.out.observe_perhead(push);
                        if self.out.saw_perhead(want) {
                            self.left = 0;
                        }
                    } else if tag {
                        self.judge(decoded.ack.is_some() || decoded.lenient);
                    }
                }
            },
            Mode::Lockstep { ictr } => {
                self.left = self.left - 1;
                if len > HEADER_LEN {
                    self.out.reads = self.out.reads + 1;
                    if tag {
                        if let Some(push) = &decoded.push {
                            self.out.observe_perhead(push);
                        }
                        match decoded.ack {
                            Some(ctr) => {
                                self.judge(true);
                                fill(edid_out, decoded.edid);
                                if ctr == ictr {
                                    self.left = 0;
                                }
                            },
                            None => self.judge(decoded.lenient),
                        }
                    }
                }
            },
        }
    }

    /// What the sweep has gathered.
    pub fn tally(&self) -> (d: Ep84Drain)
        ensures
            d@ == self@.out,
    {
        self.out
    }
}

/// What a queued read comes to: a wait that ran out is a timeout.
pub fn read_ep84(received: Result<Option<usize>, Error>) -> (r: Result<usize, Error>)
    ensures
        r == (match received {
            Ok(Some(n)) => Ok::<usize, Error>(n),
            Ok(None) => Err(Error::ETIMEDOUT),
            Err(e) => Err(e),
        }),
{
    match received {
        Ok(Some(n)) => Ok(n),
        Ok(None) => Err(Error::ETIMEDOUT),
        Err(e) => Err(e),
    }
}

/// The fields of a wire header.
#[derive(Clone, Copy, Debug, PartialEq, Eq, Structural)]
pub struct WireHeader {
    /// The frame's type.
    pub wtype: u32,
    /// Its tag.
    pub wsub: u16,
    /// Its auxiliary word.
    pub aux: u16,
    /// Its block counter.
    pub wseq: u32,
}

/// The 32-bit number at `at`.
pub open spec fn u32_at(s: Seq<u8>, at: int) -> int {
    bytes::u16_at(s, at) + 0x1_0000 * bytes::u16_at(s, at + 2)
}

/// Read the header of a frame; a field the frame is too short for is zero.
pub fn wire_header(frame: &[u8]) -> (h: WireHeader)
    ensures
        h.wtype == (if frame@.len() >= 8 {
            u32_at(frame@, 4)
        } else {
            0
        }),
        h.wsub == (if frame@.len() >= 10 {
            bytes::u16_at(frame@, 8)
        } else {
            0
        }),
        h.aux == (if frame@.len() >= 12 {
            bytes::u16_at(frame@, 10)
        } else {
            0
        }),
        h.wseq == (if frame@.len() >= 16 {
            u32_at(frame@, 12)
        } else {
            0
        }),
{
    let len: usize = frame.len();
    WireHeader {
        wtype: if len >= 8 {
            read_u16(frame, 4) as u32 + 0x1_0000 * read_u16(frame, 6) as u32
        } else {
            0
        },
        wsub: if len >= 10 {
            read_u16(frame, 8)
        } else {
            0
        },
        aux: if len >= 12 {
            read_u16(frame, 10)
        } else {
            0
        },
        wseq: if len >= 16 {
            read_u16(frame, 12) as u32 + 0x1_0000 * read_u16(frame, 14) as u32
        } else {
            0
        },
    }
}

/// Most bytes of a frame that are logged.
pub const LOG_CAP: usize = 768;

/// Most bytes that are logged on the frame's own line.
pub const LOG_INLINE: usize = 64;

/// Bytes on each line of a longer dump.
pub const LOG_CHUNK: usize = 128;

/// Bytes of a frame of `len` that are logged.
pub open spec fn logged(len: int) -> int {
    if len < LOG_CAP {
        len
    } else {
        LOG_CAP as int
    }
}

/// The lines of a dump: one for a short frame, else a line per chunk, each as the offset it
/// starts at and the one it ends before.
pub open spec fn log_spec(len: int) -> Seq<(usize, usize)> {
    let cap = logged(len);
    if cap <= LOG_INLINE {
        seq![(0usize, cap as usize)]
    } else {
        Seq::new(
            ((cap + LOG_CHUNK - 1) / (LOG_CHUNK as int)) as nat,
            |k: int|
                (
                    (k * LOG_CHUNK) as usize,
                    (if (k + 1) * LOG_CHUNK < cap {
                        (k + 1) * LOG_CHUNK
                    } else {
                        cap
                    }) as usize,
                ),
        )
    }
}

/// The lines a frame of `len` bytes is logged on.
pub fn log_ep84(len: usize) -> (lines: Vec<(usize, usize)>)
    ensures
        lines@ == log_spec(len as int),
{
    let cap: usize = if len < LOG_CAP {
        len
    } else {
        LOG_CAP
    };
    let mut lines: Vec<(usize, usize)> = Vec::new();
    if cap <= LOG_INLINE {
        lines.push((0, cap));
        assert(lines@ =~= log_spec(len as int));
        return lines;
    }
    let mut o: usize = 0;
    while o < cap
        invariant
            cap == logged(len as int),
            cap > LOG_INLINE,
            o <= cap,
            lines@.len() == (o + LOG_CHUNK - 1) / (LOG_CHUNK as int),
            o < cap ==> o == lines@.len() * LOG_CHUNK,
            forall|k: int|
                0 <= k < lines@.len() ==> #[trigger] lines@[k] == log_spec(len as int)[k],
            lines@.len() <= log_spec(len as int).len(),
        decreases cap - o,
    {
        let e: usize = if o + LOG_CHUNK < cap {
            o + LOG_CHUNK
        } else {
            cap
        };
        lines.push((o, e));
        o = e;
    }
    assert(lines@ =~= log_spec(len as int));
    lines
}

/// The lines of a dump cover the logged bytes in order, without gap or overlap.
pub proof fn law_log_lines_partition_the_frame(len: int)
    requires
        0 <= len <= usize::MAX,
    ensures
        log_spec(len).len() > 0,
        log_spec(len)[0].0 == 0,
        log_spec(len).last().1 == logged(len),
        forall|k: int|
            0 < k < log_spec(len).len() ==> (#[trigger] log_spec(len)[k]).0 == log_spec(len)[k
                - 1].1,
        forall|k: int|
            0 <= k < log_spec(len).len() ==> (#[trigger] log_spec(len)[k]).0 <= log_spec(len)[k].1
                <= log_spec(len)[k].0 + LOG_CHUNK,
{
}

/// A sweep after a run of reads.
pub open spec fn swept(s: SweepState, reads: Seq<Option<Frame>>) -> SweepState
    decreases reads.len(),
{
    if reads.len() == 0 || s.left == 0 {
        s
    } else {
        swept(read_spec(s, reads[0]), reads.skip(1))
    }
}

/// Whatever the dock sends, a sweep stays within its budget of reads and counts each frame as an
/// acknowledgment or a rejection at most once.
pub proof fn law_sweeps_are_bounded(s: SweepState, reads: Seq<Option<Frame>>)
    requires
        sound(s),
    ensures
        sound(swept(s, reads)),
        swept(s, reads).out.reads <= budget(s.mode),
        swept(s, reads).out.acks + swept(s, reads).out.rejects <= swept(s, reads).out.reads,
        swept(s, reads).mode == s.mode,
    decreases reads.len(),
{
    if reads.len() > 0 && s.left > 0 {
        law_sweeps_are_bounded(read_spec(s, reads[0]), reads.skip(1));
    }
}

/// A lockstep sweep is over with the acknowledgment that echoes its counter.
pub proof fn law_lockstep_ends_at_its_echo(s: SweepState, ictr: u16, f: Frame)
    requires
        sound(s),
        s.left > 1,
        s.mode == (Mode::Lockstep { ictr }),
    ensures
        read_spec(s, Some(f)).left == 0 <==> f.len > HEADER_LEN && f.tagged && f.ack == Some(ictr),
{
}

/// A wait for a push is over exactly when that push has been seen.
pub proof fn law_push_waits_end_at_their_push(s: SweepState, want: u8, wait: i64, f: Frame)
    requires
        sound(s),
        s.left > 1,
        s.mode == (Mode::Push { want, wait }),
        !drain::saw(s.out, want),
        want < 32,
    ensures
        read_spec(s, Some(f)).left == 0 <==> drain::saw(read_spec(s, Some(f)).out, want),
        read_spec(s, Some(f)).left == 0 <==> f.len > HEADER_LEN && (f.push matches Some((
            msg_id,
            _,
        )) && msg_id == want),
{
    if let Some((msg_id, payload)) = f.push {
        drain::law_observed_pushes_stay_seen(s.out, msg_id, payload, want);
        drain::law_observed_pushes_stay_seen(s.out, msg_id, payload, msg_id);
        drain::law_observed_pushes_stay_seen(counted(s.out), msg_id, payload, want);
        drain::law_observed_pushes_stay_seen(counted(s.out), msg_id, payload, msg_id);
    }
}

/// The first EDID a sweep finds is the one it keeps.
pub proof fn law_first_edid_is_kept(s: SweepState, edid: Seq<u8>, read: Option<Frame>)
    ensures
        slot_spec(s, Some(edid), read) == Some(edid),
{
}

/// An EDID that arrives is picked up: in a draining or a lockstep sweep, a tagged frame longer than
/// a header that verifies as an acknowledgment and carries an EDID leaves it in an empty slot.
pub proof fn law_arriving_edids_are_picked_up(s: SweepState, f: Frame)
    requires
        !(s.mode is Push),
        f.len > 16,
        f.tagged,
        f.ack is Some,
        f.edid is Some,
    ensures
        slot_spec(s, None, Some(f)) == f.edid,
{
}

/// An EDID comes from nowhere else: a slot is filled by a verified frame of the dock, with what
/// that frame carries, and never by a failed read or while a push is waited for.
pub proof fn law_edids_come_from_verified_frames(
    s: SweepState,
    slot: Option<Seq<u8>>,
    read: Option<Frame>,
)
    ensures
        slot_spec(s, slot, read) != slot ==> {
            &&& slot is None
            &&& !(s.mode is Push)
            &&& read matches Some(f) && f.tagged && f.ack is Some && slot_spec(s, slot, read)
                == f.edid
        },
{
}

/// The EDID slot after a run of reads.
pub open spec fn collected(
    s: SweepState,
    slot: Option<Seq<u8>>,
    reads: Seq<Option<Frame>>,
) -> Option<Seq<u8>>
    decreases reads.len(),
{
    if reads.len() == 0 || s.left == 0 {
        slot
    } else {
        collected(read_spec(s, reads[0]), slot_spec(s, slot, reads[0]), reads.skip(1))
    }
}

/// A lockstep sweep that reaches the echo of its counter has read every frame up to it, and so
/// returns with the EDID of the first that carries one, the echo included.
pub proof fn law_the_echo_does_not_hide_an_edid(s: SweepState, ictr: u16, f: Frame)
    requires
        s.mode == (Mode::Lockstep { ictr }),
        s.left > 0,
        f.len > 16,
        f.tagged,
        f.ack == Some(ictr),
    ensures
        swept(s, seq![Some(f)]).left == 0,
        collected(s, None, seq![Some(f)]) == f.edid,
        swept(s, seq![Some(f)]).out.acks == s.out.acks + 1,
{
    let reads = seq![Some(f)];
    assert(reads.skip(1).len() == 0);
    assert(swept(read_spec(s, reads[0]), reads.skip(1)) == read_spec(s, reads[0]));
    assert(collected(read_spec(s, reads[0]), slot_spec(s, None, reads[0]), reads.skip(1))
        == slot_spec(s, None, reads[0]));
    if let Some((msg_id, payload)) = f.push {
        drain::law_pushes_leave_the_counts(counted(s.out), msg_id, payload);
    }
}

/// Every tagged reply is counted once, for or against the session: as an acknowledgment where it
/// verifies or decrypts to a plausible header, and as a rejection otherwise. Only a draining sweep
/// also takes a frame in plaintext for one. A frame without the tag is read and not judged, and
/// neither is a push that a wait is for.
pub proof fn law_replies_are_judged_once(s: SweepState, f: Frame)
    requires
        f.len > 16,
    ensures
        ({
            let t = read_spec(s, Some(f)).out;
            let judged = f.tagged && !(s.mode is Push && f.push is Some);
            let good = f.ack is Some || f.lenient || (s.mode is Drain && f.plaintext);
            &&& t.reads == s.out.reads + 1
            &&& t.acks == s.out.acks + (if judged && good {
                1int
            } else {
                0
            })
            &&& t.rejects == s.out.rejects + (if judged && !good {
                1int
            } else {
                0
            })
        }),
{
    if let Some((msg_id, payload)) = f.push {
        drain::law_pushes_leave_the_counts(counted(s.out), msg_id, payload);
    }
}

/// A frame that is no more than a header is not counted by a sweep that waits for something, and
/// does not end it.
pub proof fn law_bare_headers_are_passed_over(s: SweepState, f: Frame)
    requires
        !(s.mode is Drain),
        f.len <= 16,
    ensures
        read_spec(s, Some(f)) == (SweepState { left: s.left - 1, ..s }),
        slot_spec(s, None, Some(f)) is None,
{
}

/// A sweep that drains takes whatever has come: each frame leaves one read fewer, and only an empty
/// read or a failed one ends it early.
pub proof fn law_drains_go_on_while_frames_come(s: SweepState, read: Option<Frame>)
    requires
        s.mode is Drain,
        s.left > 1,
    ensures
        read_spec(s, read).left == (if read matches Some(f) && f.len != 0 {
            s.left - 1
        } else {
            0
        }),
        (read matches Some(f) ==> f.len == 0) ==> read_spec(s, read).out == s.out,
{
}

/// A failed read ends any sweep, with what it has.
pub proof fn law_failed_reads_end_the_sweep(s: SweepState)
    ensures
        read_spec(s, None) == (SweepState { left: 0, ..s }),
{
}

/// What a draining sweep learns from a verified reply: the counter that a capability reply echoes,
/// and that the downstream read is complete. Nothing else teaches it either.
pub proof fn law_capabilities_come_from_verified_replies(s: SweepState, f: Frame)
    requires
        f.len > 16,
    ensures
        ({
            let t = read_spec(s, Some(f)).out;
            let heard = s.mode is Drain && f.tagged && f.ack is Some;
            &&& t.display_cap_ctr == (if heard && f.display_cap {
                f.ack
            } else {
                s.out.display_cap_ctr
            })
            &&& t.edid_ready == (s.out.edid_ready || (heard && f.edid_ready))
        }),
{
    if let Some((msg_id, payload)) = f.push {
        drain::law_pushes_leave_the_counts(counted(s.out), msg_id, payload);
    }
}

/// A push that a sweep reads is noted, whatever the sweep is for; in lockstep only where the frame
/// carries the tag.
pub proof fn law_pushes_are_noted(s: SweepState, f: Frame, msg_id: u8, payload: Seq<u8>)
    requires
        f.len > 16,
        f.push == Some((msg_id, payload)),
        msg_id < 32,
        s.mode is Lockstep ==> f.tagged,
    ensures
        drain::saw(read_spec(s, Some(f)).out, msg_id),
        msg_id == 0x06 && payload.len() >= 8 ==> read_spec(s, Some(f)).out.rrx == Some(
            payload.take(8),
        ),
        msg_id == 0x07 && payload.len() >= 32 ==> read_spec(s, Some(f)).out.hprime == Some(
            payload.take(32),
        ),
        msg_id == 0x0a && payload.len() >= 32 ==> read_spec(s, Some(f)).out.lprime == Some(
            payload.take(32),
        ),
        msg_id == 0x0c && payload.len() >= 25 ==> read_spec(s, Some(f)).out.v == Some(
            (payload.take(9), payload.subrange(9, 25)),
        ),
        msg_id == 0x11 && payload.len() >= 32 ==> read_spec(s, Some(f)).out.mprime == Some(
            payload.take(32),
        ),
{
    drain::law_observed_pushes_stay_seen(counted(s.out), msg_id, payload, msg_id);
}

/// The tag is the little-endian word 0x45 at the ninth byte.
pub proof fn law_the_tag_is_read_at_its_place(s: Seq<u8>)
    requires
        s.len() >= 10,
    ensures
        tagged(s) <==> s[8] == 0x45 && s[9] == 0,
{
}

/// A sweep sees a frame as it was read and decoded: whatever the cipher found in it, byte for byte.
pub proof fn law_frames_are_seen_as_read(read: Read, bytes: Vec<u8>, decoded: Decoded)
    requires
        read == (Read::Frame { bytes, decoded }),
    ensures
        read@ matches Some(f) && {
            &&& f.len == bytes@.len()
            &&& f.tagged <==> bytes@.len() >= 10 && bytes@[8] == 0x45 && bytes@[9] == 0
            &&& f.ack == decoded.ack
            &&& f.display_cap == decoded.display_cap
            &&& f.edid_ready == decoded.edid_ready
            &&& f.lenient == decoded.lenient
            &&& f.plaintext == decoded.plaintext
            &&& f.edid is Some <==> decoded.edid is Some
            &&& decoded.edid matches Some(e) ==> f.edid == Some(e@)
            &&& f.push is Some <==> decoded.push is Some
            &&& decoded.push matches Some(p) ==> f.push == Some((p.msg_id, p.payload@))
        },
{
}

/// A sweep that waits for something specific reads at most sixteen frames for a push and eight for
/// an echo; one that drains reads sixteen.
pub proof fn law_budgets(mode: Mode)
    ensures
        budget(mode) == (if mode is Lockstep {
            8int
        } else {
            16
        }),
{
}

/// A frame is logged whole up to seven hundred and sixty-eight bytes, and no further.
pub proof fn law_frames_are_logged_as_far_as_they_may(len: int)
    requires
        0 <= len,
    ensures
        len <= 768 ==> logged(len) == len,
        len > 768 ==> logged(len) == 768,
{
}

} // verus!
