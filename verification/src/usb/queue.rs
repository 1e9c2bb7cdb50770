//! Queues of transfers: a reader that keeps its endpoint posted, and a writer that keeps several
//! transfers in flight.

use vstd::prelude::*;

use crate::error;
use crate::error::Error;
use crate::haar::quant;
use crate::usb::endpoint::{BulkIn, BulkOut, Endpoint};
use crate::usb::pipe::Pipe;
use crate::usb::window;
use crate::usb::window::{Io, IoWindow, RegisteredUrb};

verus! {

/// How long a transfer is waited for, in whole milliseconds: nothing below zero, and no more
/// than its type holds.
pub fn wait_millis(nanos: i64) -> (ms: u32)
    ensures
        ms == ({
            let ms = quant::truncated(nanos as int, 1_000_000);
            if ms <= 0 {
                0
            } else if ms > u32::MAX {
                u32::MAX as int
            } else {
                ms
            }
        }),
{
    if nanos <= 0 {
        return 0;
    }
    let ms: i64 = nanos / 1_000_000;
    if ms > 0xffff_ffff {
        u32::MAX
    } else {
        ms as u32
    }
}

/// A slot of a queue.
#[verifier::ext_equal]
pub ghost struct SlotState {
    /// Whether its transfer is in flight.
    pub active: bool,
    /// Its buffer.
    pub buffer: Seq<u8>,
    /// How much of it the next submission uses.
    pub used: int,
}

/// A slot of a queue: one transfer and its buffer.
#[derive(Debug)]
pub struct UrbSlot {
    active: bool,
    buffer: Vec<u8>,
    used: u32,
}

impl View for UrbSlot {
    type V = SlotState;

    closed spec fn view(&self) -> SlotState {
        SlotState { active: self.active, buffer: self.buffer@, used: self.used as int }
    }
}

/// A slot whose buffer starts with `data` and is otherwise as it was.
pub open spec fn filled(s: SlotState, data: Seq<u8>) -> SlotState {
    SlotState { buffer: data + s.buffer.skip(data.len() as int), ..s }
}

/// The smaller of two numbers.
pub open spec fn least(a: int, b: int) -> int {
    if a < b {
        a
    } else {
        b
    }
}

impl UrbSlot {
    /// A slot with a buffer of `len` zeros.
    fn new(len: usize) -> (s: UrbSlot)
        ensures
            s@ == (SlotState {
                active: false,
                buffer: Seq::new(len as nat, |i: int| 0u8),
                used: len as int % 0x1_0000_0000,
            }),
    {
        let mut buffer: Vec<u8> = Vec::new();
        let mut i: usize = 0;
        while i < len
            invariant
                i <= len,
                buffer@.len() == i,
                forall|j: int| 0 <= j < i ==> buffer@[j] == 0,
            decreases len - i,
        {
            buffer.push(0);
            i += 1;
        }
        let s = UrbSlot { active: false, buffer, used: (len as u64 % 0x1_0000_0000) as u32 };
        assert(s@.buffer =~= Seq::new(len as nat, |i: int| 0u8));
        s
    }

    /// Whether the slot's transfer is in flight.
    pub fn is_active(&self) -> (b: bool)
        ensures
            b == self@.active,
    {
        self.active
    }

    /// The part of the buffer that the next submission uses.
    pub fn outgoing(&self) -> (b: &[u8])
        requires
            self@.used <= self@.buffer.len(),
        ensures
            b@ == self@.buffer.take(self@.used),
    {
        let b = vstd::slice::slice_subrange(self.buffer.as_slice(), 0, self.used as usize);
        assert(b@ =~= self@.buffer.take(self@.used));
        b
    }

    /// Put `data` at the start of the buffer.
    fn fill(&mut self, data: &[u8])
        requires
            data@.len() <= old(self)@.buffer.len(),
        ensures
            final(self)@ == filled(old(self)@, data@),
    {
        let mut i: usize = 0;
        while i < data.len()
            invariant
                i <= data@.len() <= self.buffer@.len(),
                self.buffer@.len() == old(self).buffer@.len(),
                self.active == old(self).active,
                self.used == old(self).used,
                forall|j: int| 0 <= j < i ==> self.buffer@[j] == data@[j],
                forall|j: int|
                    i <= j < self.buffer@.len() ==> self.buffer@[j] == old(self).buffer@[j],
            decreases data@.len() - i,
        {
            self.buffer.set(i, data[i]);
            i += 1;
        }
        assert(self@ =~= filled(old(self)@, data@));
    }

    /// Take up that the transfer came back.
    fn finish(&mut self)
        ensures
            final(self)@ == (SlotState { active: false, ..old(self)@ }),
    {
        self.active = false;
    }

    /// Copy at most `len` bytes out of the buffer, as far as `out` takes them.
    fn copy_from_buffer(&self, out: &mut [u8], len: usize) -> (n: usize)
        ensures
            n == least(least(len as int, old(out)@.len() as int), self@.buffer.len() as int),
            final(out)@ == self@.buffer.take(n as int) + old(out)@.skip(n as int),
    {
        let room: usize = out.len();
        let mut n: usize = if len < room {
            len
        } else {
            room
        };
        if self.buffer.len() < n {
            n = self.buffer.len();
        }
        let mut i: usize = 0;
        while i < n
            invariant
                i <= n <= self.buffer@.len(),
                n <= out@.len(),
                out@.len() == old(out)@.len(),
                forall|j: int| 0 <= j < i ==> out@[j] == self.buffer@[j],
                forall|j: int| i <= j < out@.len() ==> out@[j] == old(out)@[j],
            decreases n - i,
        {
            out[i] = self.buffer[i];
            i += 1;
        }
        assert(out@ =~= self@.buffer.take(n as int) + old(out)@.skip(n as int));
        n
    }

    /// Take up a submission: a transfer that was not accepted stays idle.
    fn submit(&mut self, ret: Result<(), Error>) -> (r: Result<(), Error>)
        ensures
            r == (if old(self)@.active {
                Err(Error::EBUSY)
            } else {
                ret
            }),
            final(self)@ == (SlotState { active: old(self)@.active || ret is Ok, ..old(self)@ }),
    {
        if self.active {
            return Err(Error::EBUSY);
        }
        match ret {
            Ok(()) => {
                self.active = true;
            },
            Err(_) => {},
        }
        ret
    }
}

/// What a queue holds.
#[verifier::ext_equal]
pub ghost struct QueueState {
    /// The window it was opened against.
    pub window: u64,
    /// Its token there.
    pub token: u64,
    /// The pipe its transfers are addressed to.
    pub pipe: Pipe,
    /// Its slots.
    pub slots: Seq<SlotState>,
    /// The slot whose turn it is.
    pub cursor: int,
}

/// The views of a sequence of slots.
pub open spec fn slot_views(s: Seq<UrbSlot>) -> Seq<SlotState> {
    Seq::new(s.len(), |i: int| s[i]@)
}

/// Whether a queue's cursor names a slot, and its slots are of one size.
pub open spec fn queue_ok(q: QueueState) -> bool {
    &&& 0 <= q.cursor < q.slots.len()
    &&& forall|i: int|
        0 <= i < q.slots.len() ==> (#[trigger] q.slots[i]).buffer.len() == q.slots[0].buffer.len()
}

/// A queue with one slot replaced.
pub open spec fn with_slot(q: QueueState, i: int, s: SlotState) -> QueueState {
    QueueState { slots: q.slots.update(i, s), ..q }
}

/// A queue after a turn.
pub open spec fn turned(q: QueueState) -> QueueState {
    QueueState { cursor: (q.cursor + 1) % (q.slots.len() as int), ..q }
}

/// Those of the first `n` slots that are in flight, in order.
pub open spec fn flying(slots: Seq<SlotState>, n: nat) -> Seq<usize>
    decreases n,
{
    if n == 0 {
        seq![]
    } else {
        let before = flying(slots, (n - 1) as nat);
        if slots[n - 1].active {
            before.push((n - 1) as usize)
        } else {
            before
        }
    }
}

/// The slots of a queue that are in flight.
pub open spec fn in_flight_of(q: QueueState) -> Seq<usize> {
    flying(q.slots, q.slots.len())
}

/// The transfers of slots of a queue, as they are registered with its window.
pub open spec fn transfers_of(q: QueueState, slots: Seq<usize>) -> Seq<RegisteredUrb> {
    Seq::new(slots.len(), |i: int| RegisteredUrb { token: q.token, urb: slots[i] as u64 })
}

/// A queue once the transfers of some of its slots came back.
pub open spec fn back(q: QueueState, slots: Seq<usize>) -> QueueState {
    QueueState {
        slots: Seq::new(
            q.slots.len(),
            |i: int|
                if slots.contains(i as usize) {
                    SlotState { active: false, ..q.slots[i] }
                } else {
                    q.slots[i]
                },
        ),
        ..q
    }
}

/// How many submissions were accepted before the first that was not.
pub open spec fn accepted(rets: Seq<Result<(), Error>>) -> nat
    decreases rets.len(),
{
    if rets.len() == 0 || rets[0] is Err {
        0
    } else {
        1 + accepted(rets.skip(1))
    }
}

/// A queue whose first `n` slots have been submitted.
pub open spec fn posted_first(q: QueueState, n: int) -> QueueState {
    QueueState {
        slots: Seq::new(
            q.slots.len(),
            |i: int|
                if i < n {
                    SlotState { active: true, ..q.slots[i] }
                } else {
                    q.slots[i]
                },
        ),
        ..q
    }
}

/// Whether the outcomes are those of submitting a queue's slots in order: each of them, or as far
/// as the first that was not accepted.
pub open spec fn submissions(q: QueueState, rets: Seq<Result<(), Error>>) -> bool {
    &&& rets.len() <= q.slots.len()
    &&& rets.len() == q.slots.len() || (rets.len() > 0 && rets.last() is Err)
}

/// Whether nothing of a queue is in flight.
pub open spec fn is_idle(q: QueueState) -> bool {
    forall|i: int| 0 <= i < q.slots.len() ==> !(#[trigger] q.slots[i]).active
}

/// A reader that could not be posted whole.
#[derive(Debug)]
pub struct GivenUp {
    /// Why.
    pub error: Error,
    /// The transfers to cancel.
    pub cancel: Vec<RegisteredUrb>,
}

/// The queue both kinds share.
#[derive(Debug)]
struct Queue {
    window: u64,
    token: u64,
    pipe: Pipe,
    slots: Vec<UrbSlot>,
    cursor: usize,
}

impl View for Queue {
    type V = QueueState;

    closed spec fn view(&self) -> QueueState {
        QueueState {
            window: self.window,
            token: self.token,
            pipe: self.pipe,
            slots: slot_views(self.slots@),
            cursor: self.cursor as int,
        }
    }
}

/// A queue of `depth` slots of `len` bytes.
pub open spec fn fresh_queue(w: u64, token: u64, pipe: Pipe, depth: nat, len: nat) -> QueueState {
    QueueState {
        window: w,
        token,
        pipe,
        slots: Seq::new(
            depth,
            |i: int|
                SlotState {
                    active: false,
                    buffer: Seq::new(len, |j: int| 0u8),
                    used: (len % 0x1_0000_0000) as int,
                },
        ),
        cursor: 0,
    }
}

/// The registrations of the first `n` slots of a queue.
pub open spec fn registrations(token: u64, n: nat) -> Seq<window::RegisteredUrb> {
    Seq::new(n, |i: int| window::RegisteredUrb { token, urb: i as u64 })
}

/// Why a queue cannot be opened: a depth or a buffer of zero, a token of another window, or a
/// window that is closed or out of tokens.
pub open spec fn refusal(
    w: window::WindowState,
    io: window::IoState,
    depth: usize,
    len: usize,
) -> Option<Error> {
    if depth == 0 || len == 0 {
        Some(Error::EINVAL)
    } else if io.window != w.id {
        Some(Error::EINVAL)
    } else if !w.open {
        Some(Error::ENODEV)
    } else if w.next_token == u64::MAX {
        Some(Error::EOVERFLOW)
    } else {
        None
    }
}

/// A window after a queue of `depth` slots has been opened against it.
pub open spec fn registered(w: window::WindowState, depth: nat) -> window::WindowState {
    window::WindowState {
        urbs: w.urbs + registrations(w.next_token, depth),
        next_token: (w.next_token + 1) as u64,
        ..w
    }
}

impl Queue {
    fn open(
        w: &mut IoWindow,
        io: &Io,
        pipe: Pipe,
        depth: usize,
        len: usize,
    ) -> (r: Result<Queue, Error>)
        requires
            depth <= u64::MAX,
        ensures
            match refusal(old(w)@, io@, depth, len) {
                Some(e) => r == Err::<Queue, Error>(e) && final(w)@ == old(w)@,
                None => {
                    &&& r is Ok
                    &&& r->Ok_0@ == fresh_queue(
                        old(w)@.id,
                        old(w)@.next_token,
                        pipe,
                        depth as nat,
                        len as nat,
                    )
                    &&& queue_ok(r->Ok_0@)
                    &&& final(w)@ == registered(old(w)@, depth as nat)
                },
            },
    {
        if depth == 0 || len == 0 {
            return Err(Error::EINVAL);
        }
        if io.window() != w.id() {
            return Err(Error::EINVAL);
        }
        let id: u64 = w.id();
        let token: u64 = w.new_token()?;
        let ghost before = w@;
        let mut slots: Vec<UrbSlot> = Vec::new();
        let mut i: usize = 0;
        assert(before.urbs + registrations(token, 0) =~= before.urbs);
        while i < depth
            invariant
                i <= depth,
                depth <= u64::MAX,
                before.open,
                w@ == (window::WindowState {
                    urbs: before.urbs + registrations(token, i as nat),
                    ..before
                }),
                slot_views(slots@) == fresh_queue(id, token, pipe, i as nat, len as nat).slots,
                slots@.len() == i,
            decreases depth - i,
        {
            let ghost held = slot_views(slots@);
            let s = UrbSlot::new(len);
            let ghost sv = s@;
            w.register_urb(token, i as u64)?;
            slots.push(s);
            i += 1;
            proof {
                assert(w@.urbs =~= before.urbs + registrations(token, i as nat));
                assert(slot_views(slots@) =~= held.push(sv));
                assert(slot_views(slots@) =~= fresh_queue(
                    id,
                    token,
                    pipe,
                    i as nat,
                    len as nat,
                ).slots);
            }
        }
        let q = Queue { window: id, token, pipe, slots, cursor: 0 };
        assert(q@ =~= fresh_queue(id, token, pipe, depth as nat, len as nat));
        Ok(q)
    }

    /// Take up that slot `i` came back.
    fn finish(&mut self, i: usize)
        requires
            i < old(self)@.slots.len(),
        ensures
            final(self)@ == with_slot(
                old(self)@,
                i as int,
                (SlotState { active: false, ..old(self)@.slots[i as int] }),
            ),
    {
        let mut s = self.take(i);
        s.finish();
        self.put(i, s);
    }

    /// Take slot `i` out, leaving an empty one.
    fn take(&mut self, i: usize) -> (s: UrbSlot)
        requires
            i < old(self)@.slots.len(),
        ensures
            s@ == old(self)@.slots[i as int],
            final(self)@.slots.len() == old(self)@.slots.len(),
            forall|j: int|
                0 <= j < old(self)@.slots.len() && j != i ==> final(self)@.slots[j] == old(
                    self,
                )@.slots[j],
            final(self)@.window == old(self)@.window,
            final(self)@.token == old(self)@.token,
            final(self)@.pipe == old(self)@.pipe,
            final(self)@.cursor == old(self)@.cursor,
    {
        let mut s = UrbSlot { active: false, buffer: Vec::new(), used: 0 };
        self.slots.set_and_swap(i, &mut s);
        s
    }

    /// Put slot `i` back.
    fn put(&mut self, i: usize, s: UrbSlot)
        requires
            i < old(self)@.slots.len(),
        ensures
            final(self)@ == with_slot(old(self)@, i as int, s@),
    {
        self.slots.set(i, s);
        assert(self@.slots =~= old(self)@.slots.update(i as int, s@));
    }

    /// The slots that are in flight.
    fn in_flight(&self) -> (v: Vec<usize>)
        ensures
            v@ == in_flight_of(self@),
    {
        let mut v: Vec<usize> = Vec::new();
        let mut i: usize = 0;
        while i < self.slots.len()
            invariant
                i <= self.slots@.len(),
                v@ == flying(self@.slots, i as nat),
            decreases self.slots@.len() - i,
        {
            if self.slots[i].is_active() {
                v.push(i);
            }
            i += 1;
        }
        v
    }

    /// Forget the queue's transfers, and name those to cancel.
    fn release(self, w: &mut IoWindow) -> (cancel: Vec<RegisteredUrb>)
        ensures
            cancel@ == transfers_of(self@, in_flight_of(self@)),
            final(w)@ == (window::WindowState {
                urbs: window::others(old(w)@.urbs, self@.token),
                ..old(w)@
            }),
    {
        let flying: Vec<usize> = self.in_flight();
        w.deregister(self.token);
        let mut cancel: Vec<RegisteredUrb> = Vec::new();
        let mut i: usize = 0;
        while i < flying.len()
            invariant
                i <= flying@.len(),
                cancel@ == transfers_of(self@, flying@.take(i as int)),
            decreases flying@.len() - i,
        {
            cancel.push(RegisteredUrb { token: self.token, urb: flying[i] as u64 });
            i += 1;
            assert(cancel@ =~= transfers_of(self@, flying@.take(i as int)));
        }
        assert(flying@.take(i as int) =~= flying@);
        cancel
    }

    /// Give the next slot its turn.
    fn turn(&mut self)
        requires
            queue_ok(old(self)@),
        ensures
            final(self)@ == turned(old(self)@),
    {
        let n: usize = self.slots.len();
        self.cursor =
        if self.cursor + 1 == n {
            0
        } else {
            self.cursor + 1
        };
        proof {
            let c = old(self)@.cursor + 1;
            if c == n {
                vstd::arithmetic::div_mod::lemma_mod_self_0(n as int);
            } else {
                vstd::arithmetic::div_mod::lemma_small_mod(c as nat, n as nat);
            }
        }
    }
}

/// A transfer that came back.
#[derive(Debug)]
pub struct Completed {
    /// How it completed.
    pub status: i32,
    /// How much was transferred.
    pub actual: usize,
    /// What is in its buffer.
    pub data: Vec<u8>,
}

/// What became of a read.
#[derive(Debug)]
pub struct Received {
    /// The submission of the slot, where it was not in flight.
    pub post: Result<(), Error>,
    /// The transfer, where it came back in time.
    pub completed: Option<Completed>,
    /// The submission of the slot after that.
    pub repost: Result<(), Error>,
}

/// The error a transfer's status stands for; none where it is zero.
pub open spec fn status_error(status: i32) -> Option<Error> {
    if status == 0 {
        None
    } else {
        Some(error::error_of(status))
    }
}

/// The queue once the slot whose turn it is has been posted.
pub open spec fn posted(q: QueueState) -> QueueState {
    with_slot(q, q.cursor, SlotState { active: true, ..q.slots[q.cursor] })
}

/// The queue after the slot whose turn it is brought `data` back and was submitted again.
pub open spec fn collected(q: QueueState, data: Seq<u8>, reposted: bool) -> QueueState {
    turned(
        with_slot(
            q,
            q.cursor,
            SlotState { active: reposted, buffer: data, ..q.slots[q.cursor] },
        ),
    )
}

/// Bytes a read hands over: what was transferred, as far as the buffers hold it.
pub open spec fn handed_over(q: QueueState, actual: usize, room: int) -> int {
    least(least(actual as int, room), q.slots[q.cursor].buffer.len() as int)
}

/// A persistently queued reader: each transfer that comes back is submitted again at once, so
/// that the endpoint stays posted.
#[derive(Debug)]
pub struct BulkInQueue {
    inner: Queue,
}

impl View for BulkInQueue {
    type V = QueueState;

    closed spec fn view(&self) -> QueueState {
        self.inner@
    }
}

impl BulkInQueue {
    /// Open a reader of `depth` transfers of `buf_len` bytes each, registered with the window.
    /// Each slot is then to be submitted, in order, and the reader started with what became of
    /// that; see [`start`](Self::start).
    pub fn new(
        w: &mut IoWindow,
        io: &Io,
        endpoint: &Endpoint<BulkIn>,
        depth: usize,
        buf_len: usize,
    ) -> (r: Result<BulkInQueue, Error>)
        ensures
            match refusal(old(w)@, io@, depth, buf_len) {
                Some(e) => r == Err::<BulkInQueue, Error>(e) && final(w)@ == old(w)@,
                None => {
                    &&& r is Ok
                    &&& r->Ok_0@ == fresh_queue(
                        old(w)@.id,
                        old(w)@.next_token,
                        endpoint@.pipe,
                        depth as nat,
                        buf_len as nat,
                    )
                    &&& queue_ok(r->Ok_0@)
                    &&& final(w)@ == registered(old(w)@, depth as nat)
                },
            },
    {
        match Queue::open(w, io, endpoint.pipe(), depth, buf_len) {
            Ok(inner) => Ok(BulkInQueue { inner }),
            Err(e) => Err(e),
        }
    }

    /// Take up the submission of slot `i`.
    pub fn post(&mut self, i: usize, ret: Result<(), Error>) -> (r: Result<(), Error>)
        requires
            queue_ok(old(self)@),
            i < old(self)@.slots.len(),
        ensures
            queue_ok(final(self)@),
            r == (if old(self)@.slots[i as int].active {
                Err(Error::EBUSY)
            } else {
                ret
            }),
            final(self)@ == with_slot(
                old(self)@,
                i as int,
                (SlotState {
                    active: old(self)@.slots[i as int].active || ret is Ok,
                    ..old(self)@.slots[i as int]
                }),
            ),
    {
        let mut s = self.inner.take(i);
        let r = s.submit(ret);
        self.inner.put(i, s);
        assert(self@ =~= with_slot(
            old(self)@,
            i as int,
            (SlotState {
                active: old(self)@.slots[i as int].active || ret is Ok,
                ..old(self)@.slots[i as int]
            }),
        ));
        r
    }

    /// Take up the submissions of every slot, or of those up to the first that was not accepted.
    pub fn post_all(&mut self, rets: &[Result<(), Error>]) -> (r: Result<(), Error>)
        requires
            queue_ok(old(self)@),
            is_idle(old(self)@),
            submissions(old(self)@, rets@),
        ensures
            queue_ok(final(self)@),
            final(self)@ == posted_first(old(self)@, accepted(rets@) as int),
            r == (if accepted(rets@) == old(self)@.slots.len() {
                Ok::<(), Error>(())
            } else {
                rets@[accepted(rets@) as int]
            }),
            r is Ok <==> accepted(rets@) == old(self)@.slots.len(),
            r is Ok <==> forall|i: int| 0 <= i < rets@.len() ==> (#[trigger] rets@[i]) is Ok,
    {
        proof {
            law_accepted_stops_at_the_first_refusal(rets@);
        }
        let ghost q = self@;
        let mut i: usize = 0;
        assert(self@ =~= posted_first(q, 0));
        assert(rets@.skip(0) =~= rets@);
        while i < rets.len()
            invariant
                q == old(self)@,
                i <= rets@.len() <= q.slots.len(),
                queue_ok(self@),
                is_idle(q),
                self@ == posted_first(q, i as int),
                accepted(rets@) == i + accepted(rets@.skip(i as int)),
                submissions(q, rets@),
            decreases rets@.len() - i,
        {
            assert(rets@.skip(i as int)[0] == rets@[i as int]);
            assert(rets@.skip(i as int).skip(1) =~= rets@.skip(i + 1));
            assert(!q.slots[i as int].active);
            let r = self.post(i, rets[i]);
            if r.is_err() {
                assert(self@ =~= posted_first(q, i as int));
                return r;
            }
            assert(self@ =~= posted_first(q, i + 1));
            i += 1;
        }
        proof {
            assert(rets@.skip(i as int).len() == 0);
            if rets@.len() != q.slots.len() {
                lemma_accepted_all(rets@);
            }
        }
        Ok(())
    }

    /// Start a reader that was just opened, with what became of its submissions: it is posted
    /// whole, or given up with nothing of it left registered.
    pub fn start(self, w: &mut IoWindow, rets: &[Result<(), Error>]) -> (r: Result<
        BulkInQueue,
        GivenUp,
    >)
        requires
            queue_ok(self@),
            is_idle(self@),
            submissions(self@, rets@),
        ensures
            match r {
                Ok(q) => {
                    &&& accepted(rets@) == self@.slots.len()
                    &&& q@ == posted_first(self@, self@.slots.len() as int)
                    &&& queue_ok(q@)
                    &&& final(w)@ == old(w)@
                },
                Err(g) => {
                    let n = accepted(rets@) as int;
                    &&& n < rets@.len()
                    &&& Err::<(), Error>(g.error) == rets@[n]
                    &&& g.cancel@ == transfers_of(self@, Seq::new(n as nat, |i: int| i as usize))
                    &&& final(w)@ == (window::WindowState {
                        urbs: window::others(old(w)@.urbs, self@.token),
                        ..old(w)@
                    })
                },
            },
    {
        let mut q = self;
        match q.post_all(rets) {
            Ok(()) => Ok(q),
            Err(error) => {
                let ghost n = accepted(rets@) as int;
                proof {
                    law_accepted_stops_at_the_first_refusal(rets@);
                    lemma_flying_first(self@, n, self@.slots.len());
                }
                let cancel: Vec<RegisteredUrb> = q.release(w);
                assert(cancel@ =~= transfers_of(self@, Seq::new(n as nat, |i: int| i as usize)));
                Err(GivenUp { error, cancel })
            },
        }
    }

    /// The slot whose turn it is, and whether it is in flight.
    pub fn current(&self) -> (r: (usize, bool))
        requires
            queue_ok(self@),
        ensures
            r.0 == self@.cursor,
            r.1 == self@.slots[self@.cursor].active,
    {
        (self.inner.cursor, self.inner.slots[self.inner.cursor].is_active())
    }

    /// Take up a read: copy what came back into `out`, and say how much.
    ///
    /// `None` where nothing came back in time; the transfer is then still outstanding. A transfer
    /// that failed reports its error, after the slot has had its turn.
    pub fn recv(&mut self, io: &Io, out: &mut [u8], got: &Received) -> (r: Result<
        Option<usize>,
        Error,
    >)
        requires
            queue_ok(old(self)@),
            got.completed matches Some(c) ==> c.data@.len() == old(self)@.slots[0].buffer.len(),
        ensures
            queue_ok(final(self)@),
            ({
                let q = old(self)@;
                let slot = q.slots[q.cursor];
                if io@.window != q.window {
                    &&& r == Err::<Option<usize>, Error>(Error::EINVAL)
                    &&& final(self)@ == q
                    &&& final(out)@ == old(out)@
                } else if !slot.active && got.post is Err {
                    &&& r == Err::<Option<usize>, Error>(got.post->Err_0)
                    &&& final(self)@ == q
                    &&& final(out)@ == old(out)@
                } else {
                    match got.completed {
                        None => {
                            &&& r == Ok::<Option<usize>, Error>(None)
                            &&& final(self)@ == posted(q)
                            &&& final(out)@ == old(out)@
                        },
                        Some(c) => {
                            let n = handed_over(q, c.actual, old(out)@.len() as int);
                            &&& final(self)@ == collected(q, c.data@, got.repost is Ok)
                            &&& final(out)@ == c.data@.take(n) + old(out)@.skip(n)
                            &&& r == (match status_error(c.status) {
                                Some(e) => Err::<Option<usize>, Error>(e),
                                None => match got.repost {
                                    Err(e) => Err(e),
                                    Ok(()) => Ok(Some(n as usize)),
                                },
                            })
                        },
                    }
                }
            }),
    {
        if io.window() != self.inner.window {
            return Err(Error::EINVAL);
        }
        let ghost q = self@;
        let i: usize = self.inner.cursor;
        let ghost slot = q.slots[i as int];
        let mut s = self.inner.take(i);
        if !s.is_active() {
            match got.post {
                Ok(()) => {
                    s.active = true;
                },
                Err(e) => {
                    self.inner.put(i, s);
                    assert(self@ =~= q);
                    return Err(e);
                },
            }
        }
        match &got.completed {
            None => {
                self.inner.put(i, s);
                assert(self@ =~= posted(q));
                Ok(None)
            },
            Some(c) => {
                s.finish();
                s.fill(c.data.as_slice());
                assert(s@.buffer =~= c.data@);
                let n: usize = s.copy_from_buffer(out, c.actual);
                let again = s.submit(got.repost);
                self.inner.put(i, s);
                assert(self@ =~= with_slot(
                    q,
                    i as int,
                    (SlotState { active: got.repost is Ok, buffer: c.data@, ..slot }),
                ));
                self.inner.turn();
                proof {
                    lemma_turned_is_ok(q, c.data@, got.repost is Ok);
                }
                if c.status != 0 {
                    return Err(Error::from_errno(c.status));
                }
                match again {
                    Err(e) => Err(e),
                    Ok(()) => Ok(Some(n)),
                }
            },
        }
    }

    /// The transfer of a slot, as it is registered with the window.
    pub fn transfer(&self, slot: usize) -> (r: RegisteredUrb)
        ensures
            r == (RegisteredUrb { token: self@.token, urb: slot as u64 }),
    {
        RegisteredUrb { token: self.inner.token, urb: slot as u64 }
    }

    /// The slots that are in flight.
    pub fn in_flight(&self) -> (v: Vec<usize>)
        ensures
            v@ == in_flight_of(self@),
    {
        self.inner.in_flight()
    }

    /// Give the queue up: its transfers are no longer the window's to cancel, and those in flight
    /// are to be cancelled now.
    pub fn release(self, w: &mut IoWindow) -> (cancel: Vec<RegisteredUrb>)
        ensures
            cancel@ == transfers_of(self@, in_flight_of(self@)),
            final(w)@ == (window::WindowState {
                urbs: window::others(old(w)@.urbs, self@.token),
                ..old(w)@
            }),
    {
        self.inner.release(w)
    }
}

proof fn lemma_turned_is_ok(q: QueueState, data: Seq<u8>, reposted: bool)
    requires
        queue_ok(q),
        data.len() == q.slots[0].buffer.len(),
    ensures
        queue_ok(collected(q, data, reposted)),
{
    vstd::arithmetic::div_mod::lemma_mod_bound(q.cursor + 1, q.slots.len() as int);
}

/// A pipelined writer: a message waits only for the transfer that last used its slot.
#[derive(Debug)]
pub struct BulkOutQueue {
    inner: Queue,
}

impl View for BulkOutQueue {
    type V = QueueState;

    closed spec fn view(&self) -> QueueState {
        self.inner@
    }
}

/// A slot after its transfer was waited for, which `done` says came back with that status.
pub open spec fn reaped(s: SlotState, done: Option<i32>) -> SlotState {
    if s.active && done is Some {
        SlotState { active: false, ..s }
    } else {
        s
    }
}

/// What reaping a slot comes to: whether there was a transfer, or why it did not come back well.
pub open spec fn reap_result(s: SlotState, done: Option<i32>) -> Result<bool, Error> {
    if !s.active {
        Ok(false)
    } else {
        match done {
            None => Err(Error::ETIMEDOUT),
            Some(status) => match status_error(status) {
                Some(e) => Err(e),
                None => Ok(true),
            },
        }
    }
}

/// The slot `off` places ahead of the cursor.
pub open spec fn ahead(q: QueueState, off: int) -> int {
    (q.cursor + off) % (q.slots.len() as int)
}

/// Whether the `n` slots from place `off` on are free, and the queue once those that came back
/// have been reaped: the first that did not, or failed, decides.
pub open spec fn free_from(q: QueueState, off: int, n: nat, done: Seq<Option<i32>>) -> (
    QueueState,
    Result<bool, Error>,
)
    decreases n,
{
    if n == 0 {
        (q, Ok(true))
    } else {
        let i = ahead(q, off);
        let s = q.slots[i];
        if !s.active {
            free_from(q, off + 1, (n - 1) as nat, done)
        } else {
            match done[off] {
                None => (q, Ok(false)),
                Some(status) => {
                    let t = with_slot(q, i, SlotState { active: false, ..s });
                    match status_error(status) {
                        Some(e) => (t, Err(e)),
                        None => free_from(t, off + 1, (n - 1) as nat, done),
                    }
                },
            }
        }
    }
}

/// A queue after its first `n` slots were reaped, and the first error.
pub open spec fn flushed(q: QueueState, n: nat, done: Seq<Option<i32>>) -> (
    QueueState,
    Result<(), Error>,
)
    decreases n,
{
    if n == 0 {
        (q, Ok(()))
    } else {
        let (t, r) = flushed(q, (n - 1) as nat, done);
        let s = t.slots[n - 1];
        (
            with_slot(t, n - 1, reaped(s, done[n - 1])),
            match r {
                Err(e) => Err(e),
                Ok(()) => match reap_result(s, done[n - 1]) {
                    Err(e) => Err(e),
                    Ok(_) => Ok(()),
                },
            },
        )
    }
}

/// The queue once a message has been put into the slot whose turn it is and submitted.
pub open spec fn sent(q: QueueState, data: Seq<u8>) -> QueueState {
    turned(
        with_slot(
            q,
            q.cursor,
            SlotState {
                active: true,
                used: data.len() as int,
                ..filled(q.slots[q.cursor], data)
            },
        ),
    )
}

/// The queue once a message has been put into the slot whose turn it is but not submitted.
pub open spec fn prepared(q: QueueState, data: Seq<u8>) -> QueueState {
    with_slot(
        q,
        q.cursor,
        SlotState {
            active: false,
            used: data.len() as int,
            ..filled(q.slots[q.cursor], data)
        },
    )
}

/// The queue once a message too long to be counted has been put into the slot whose turn it is.
pub open spec fn overlong(q: QueueState, data: Seq<u8>) -> QueueState {
    with_slot(q, q.cursor, SlotState { active: false, ..filled(q.slots[q.cursor], data) })
}

impl BulkOutQueue {
    /// Open a writer of `depth` transfers of `buf_len` bytes each, registered with the window.
    /// None is submitted: each carries a message.
    pub fn new(
        w: &mut IoWindow,
        io: &Io,
        endpoint: &Endpoint<BulkOut>,
        depth: usize,
        buf_len: usize,
    ) -> (r: Result<BulkOutQueue, Error>)
        ensures
            match refusal(old(w)@, io@, depth, buf_len) {
                Some(e) => r == Err::<BulkOutQueue, Error>(e) && final(w)@ == old(w)@,
                None => {
                    &&& r is Ok
                    &&& r->Ok_0@ == fresh_queue(
                        old(w)@.id,
                        old(w)@.next_token,
                        endpoint@.pipe,
                        depth as nat,
                        buf_len as nat,
                    )
                    &&& queue_ok(r->Ok_0@)
                    &&& final(w)@ == registered(old(w)@, depth as nat)
                },
            },
    {
        match Queue::open(w, io, endpoint.pipe(), depth, buf_len) {
            Ok(inner) => Ok(BulkOutQueue { inner }),
            Err(e) => Err(e),
        }
    }

    /// The slot whose turn it is, and whether it is in flight.
    pub fn current(&self) -> (r: (usize, bool))
        requires
            queue_ok(self@),
        ensures
            r.0 == self@.cursor,
            r.1 == self@.slots[self@.cursor].active,
    {
        (self.inner.cursor, self.inner.slots[self.inner.cursor].is_active())
    }

    /// Reap slot `i`.
    fn reap(&mut self, i: usize, done: Option<i32>) -> (r: Result<bool, Error>)
        requires
            i < old(self)@.slots.len(),
        ensures
            r == reap_result(old(self)@.slots[i as int], done),
            final(self)@ == with_slot(
                old(self)@,
                i as int,
                reaped(old(self)@.slots[i as int], done),
            ),
    {
        if !self.inner.slots[i].is_active() {
            assert(self@.slots.update(i as int, self@.slots[i as int]) =~= self@.slots);
            return Ok(false);
        }
        match done {
            None => {
                assert(self@.slots.update(i as int, self@.slots[i as int]) =~= self@.slots);
                Err(Error::ETIMEDOUT)
            },
            Some(status) => {
                self.inner.finish(i);
                if status != 0 {
                    Err(Error::from_errno(status))
                } else {
                    Ok(true)
                }
            },
        }
    }

    /// Whether the next `count` slots can be submitted without waiting. `done` says of each of
    /// them, where it is in flight, whether it came back and how.
    pub fn can_send_n(&mut self, io: &Io, count: usize, done: &[Option<i32>]) -> (r: Result<
        bool,
        Error,
    >)
        requires
            queue_ok(old(self)@),
            done@.len() >= count,
        ensures
            queue_ok(final(self)@),
            if io@.window != old(self)@.window {
                r == Err::<bool, Error>(Error::EINVAL) && final(self)@ == old(self)@
            } else if count > old(self)@.slots.len() {
                r == Ok::<bool, Error>(false) && final(self)@ == old(self)@
            } else {
                (final(self)@, r) == free_from(old(self)@, 0, count as nat, done@)
            },
    {
        if io.window() != self.inner.window {
            return Err(Error::EINVAL);
        }
        let len: usize = self.inner.slots.len();
        if count > len {
            return Ok(false);
        }
        let mut off: usize = 0;
        let ghost whole = free_from(self@, 0, count as nat, done@);
        while off < count
            invariant
                off <= count <= len,
                len == old(self)@.slots.len(),
                io@.window == old(self)@.window,
                whole == free_from(old(self)@, 0, count as nat, done@),
                done@.len() >= count,
                queue_ok(self@),
                self@.slots.len() == len,
                self@.cursor == self.inner.cursor,
                whole == free_from(self@, off as int, (count - off) as nat, done@),
            decreases count - off,
        {
            let c: usize = self.inner.cursor;
            let i: usize = if c < len - off {
                c + off
            } else {
                c - (len - off)
            };
            proof {
                if c < len - off {
                    vstd::arithmetic::div_mod::lemma_small_mod((c + off) as nat, len as nat);
                } else {
                    vstd::arithmetic::div_mod::lemma_small_mod((c + off - len) as nat, len as nat);
                    vstd::arithmetic::div_mod::lemma_mod_sub_multiples_vanish(
                        c + off,
                        len as int,
                    );
                }
                assert(i == ahead(self@, off as int));
            }
            if self.inner.slots[i].is_active() {
                match done[off] {
                    None => {
                        return Ok(false);
                    },
                    Some(status) => {
                        self.inner.finish(i);
                        if status != 0 {
                            return Err(Error::from_errno(status));
                        }
                    },
                }
            }
            off += 1;
        }
        Ok(true)
    }

    /// Send a message: `EMSGSIZE` where it is longer than a slot, the last transfer's error where
    /// it did not come back well, `EINVAL` where its length does not fit its field, and the
    /// submission's error where it was not accepted. `done`
    /// says whether the slot's last transfer came back and how, and `ret` what became of the
    /// submission.
    pub fn send(
        &mut self,
        io: &Io,
        data: &[u8],
        done: Option<i32>,
        ret: Result<(), Error>,
    ) -> (r: Result<(), Error>)
        requires
            queue_ok(old(self)@),
        ensures
            queue_ok(final(self)@),
            ({
                let q = old(self)@;
                let slot = q.slots[q.cursor];
                if io@.window != q.window {
                    r == Err::<(), Error>(Error::EINVAL) && final(self)@ == q
                } else if data@.len() > slot.buffer.len() {
                    r == Err::<(), Error>(Error::EMSGSIZE) && final(self)@ == q
                } else {
                    match reap_result(slot, done) {
                        Err(e) => r == Err::<(), Error>(e) && final(self)@ == with_slot(
                            q,
                            q.cursor,
                            reaped(slot, done),
                        ),
                        Ok(_) => if data@.len() > u32::MAX {
                            r == Err::<(), Error>(Error::EINVAL) && final(self)@ == overlong(
                                q,
                                data@,
                            )
                        } else {
                            r == ret && final(self)@ == (match ret {
                                Ok(()) => sent(q, data@),
                                Err(_) => prepared(q, data@),
                            })
                        },
                    }
                }
            }),
    {
        if io.window() != self.inner.window {
            return Err(Error::EINVAL);
        }
        let ghost q = self@;
        let i: usize = self.inner.cursor;
        if data.len() > self.inner.slots[i].buffer.len() {
            return Err(Error::EMSGSIZE);
        }
        match self.reap(i, done) {
            Err(e) => {
                return Err(e);
            },
            Ok(_) => {},
        }
        let ghost free = self@;
        assert(!free.slots[i as int].active);
        let mut s = self.inner.take(i);
        s.fill(data);
        assert(filled(q.slots[i as int], data@).buffer.len() == q.slots[i as int].buffer.len());
        if data.len() as u64 > 0xffff_ffff {
            self.inner.put(i, s);
            assert(self@ =~= overlong(q, data@));
            return Err(Error::EINVAL);
        }
        s.used = data.len() as u32;
        let r = s.submit(ret);
        self.inner.put(i, s);
        if r.is_ok() {
            self.inner.turn();
            assert(self@ =~= sent(q, data@));
            proof {
                vstd::arithmetic::div_mod::lemma_mod_bound(q.cursor + 1, q.slots.len() as int);
            }
        } else {
            assert(self@ =~= prepared(q, data@));
        }
        r
    }

    /// Reap every slot, and report the first error. `done` says of each whether its transfer
    /// came back and how.
    pub fn flush(&mut self, io: &Io, done: &[Option<i32>]) -> (r: Result<(), Error>)
        requires
            queue_ok(old(self)@),
            done@.len() >= old(self)@.slots.len(),
        ensures
            queue_ok(final(self)@),
            if io@.window != old(self)@.window {
                r == Err::<(), Error>(Error::EINVAL) && final(self)@ == old(self)@
            } else {
                (final(self)@, r) == flushed(old(self)@, old(self)@.slots.len(), done@)
            },
    {
        if io.window() != self.inner.window {
            return Err(Error::EINVAL);
        }
        let len: usize = self.inner.slots.len();
        let ghost q = self@;
        let mut first: Result<(), Error> = Ok(());
        let mut i: usize = 0;
        while i < len
            invariant
                i <= len,
                len == q.slots.len(),
                done@.len() >= len,
                queue_ok(self@),
                self@.slots.len() == len,
                (self@, first) == flushed(q, i as nat, done@),
            decreases len - i,
        {
            match self.reap(i, done[i]) {
                Err(e) => {
                    if first.is_ok() {
                        first = Err(e);
                    }
                },
                Ok(_) => {},
            }
            i += 1;
        }
        first
    }

    /// The part of slot `i`'s buffer that its submission uses.
    pub fn outgoing(&self, i: usize) -> (b: &[u8])
        requires
            i < self@.slots.len(),
            self@.slots[i as int].used <= self@.slots[i as int].buffer.len(),
        ensures
            b@ == self@.slots[i as int].buffer.take(self@.slots[i as int].used),
    {
        self.inner.slots[i].outgoing()
    }

    /// The transfer of a slot, as it is registered with the window.
    pub fn transfer(&self, slot: usize) -> (r: RegisteredUrb)
        ensures
            r == (RegisteredUrb { token: self@.token, urb: slot as u64 }),
    {
        RegisteredUrb { token: self.inner.token, urb: slot as u64 }
    }

    /// The slots that are in flight.
    pub fn in_flight(&self) -> (v: Vec<usize>)
        ensures
            v@ == in_flight_of(self@),
    {
        self.inner.in_flight()
    }

    /// Give the queue up: its transfers are no longer the window's to cancel, and those in flight
    /// are to be cancelled now.
    pub fn release(self, w: &mut IoWindow) -> (cancel: Vec<RegisteredUrb>)
        ensures
            cancel@ == transfers_of(self@, in_flight_of(self@)),
            final(w)@ == (window::WindowState {
                urbs: window::others(old(w)@.urbs, self@.token),
                ..old(w)@
            }),
    {
        self.inner.release(w)
    }
}

/// What is accepted is what stands before the first refusal.
pub proof fn law_accepted_stops_at_the_first_refusal(rets: Seq<Result<(), Error>>)
    ensures
        accepted(rets) <= rets.len(),
        accepted(rets) < rets.len() ==> rets[accepted(rets) as int] is Err,
        forall|i: int| 0 <= i < accepted(rets) ==> (#[trigger] rets[i]) is Ok,
    decreases rets.len(),
{
    if rets.len() > 0 && rets[0] is Ok {
        law_accepted_stops_at_the_first_refusal(rets.skip(1));
        assert forall|i: int| 0 <= i < accepted(rets) implies (#[trigger] rets[i]) is Ok by {
            if i > 0 {
                assert(rets.skip(1)[i - 1] == rets[i]);
            }
        }
    }
}

/// Where the last submission was not accepted, not all were.
proof fn lemma_accepted_all(rets: Seq<Result<(), Error>>)
    requires
        rets.len() > 0,
        rets.last() is Err,
    ensures
        accepted(rets) < rets.len(),
{
    law_accepted_stops_at_the_first_refusal(rets);
    if accepted(rets) == rets.len() {
        assert(rets[rets.len() - 1] is Ok);
    }
}

/// The slots in flight of an idle queue whose first slots were submitted are those.
proof fn lemma_flying_first(q: QueueState, n: int, k: nat)
    requires
        is_idle(q),
        0 <= n,
        k <= q.slots.len(),
    ensures
        flying(posted_first(q, n).slots, k) == Seq::new(
            least(n, k as int) as nat,
            |i: int| i as usize,
        ),
    decreases k,
{
    let slots = posted_first(q, n).slots;
    if k > 0 {
        lemma_flying_first(q, n, (k - 1) as nat);
        assert(!q.slots[k - 1].active);
        assert(flying(slots, k) =~= Seq::new(least(n, k as int) as nat, |i: int| i as usize));
    } else {
        assert(flying(slots, 0) =~= Seq::new(0, |i: int| i as usize));
    }
}

/// The slots in flight are exactly those listed.
proof fn lemma_flying(slots: Seq<SlotState>, n: nat, i: int)
    requires
        n <= slots.len() <= usize::MAX,
        0 <= i < n,
    ensures
        flying(slots, n).contains(i as usize) <==> slots[i].active,
    decreases n,
{
    let list = flying(slots, n);
    let before = flying(slots, (n - 1) as nat);
    lemma_flying_below(slots, (n - 1) as nat);
    if i < n - 1 {
        lemma_flying(slots, (n - 1) as nat, i);
        if before.contains(i as usize) {
            let k = choose|k: int| 0 <= k < before.len() && before[k] == i as usize;
            assert(list[k] == i as usize);
        }
        if list.contains(i as usize) {
            let k = choose|k: int| 0 <= k < list.len() && list[k] == i as usize;
            assert(k < before.len() && before[k] == i as usize);
        }
    } else if slots[i].active {
        assert(list[before.len() as int] == i as usize);
    } else if list.contains(i as usize) {
        let k = choose|k: int| 0 <= k < list.len() && list[k] == i as usize;
        assert(before[k] < n - 1);
    }
}

/// Only the slots looked at are listed.
proof fn lemma_flying_below(slots: Seq<SlotState>, n: nat)
    requires
        n <= slots.len() <= usize::MAX,
    ensures
        forall|k: int| 0 <= k < flying(slots, n).len() ==> (#[trigger] flying(slots, n)[k]) < n,
    decreases n,
{
    if n > 0 {
        lemma_flying_below(slots, (n - 1) as nat);
        let before = flying(slots, (n - 1) as nat);
        assert forall|k: int| 0 <= k < flying(slots, n).len() implies (#[trigger] flying(
            slots,
            n,
        )[k]) < n by {
            if k < before.len() {
                assert(before[k] < n - 1);
            }
        }
    }
}

/// What a queue lists as in flight is exactly what is: once it has come back nothing is.
pub proof fn law_nothing_outlives_its_queue(q: QueueState, i: int)
    requires
        q.slots.len() <= usize::MAX,
        0 <= i < q.slots.len(),
    ensures
        in_flight_of(q).contains(i as usize) <==> q.slots[i].active,
        is_idle(back(q, in_flight_of(q))),
{
    lemma_flying(q.slots, q.slots.len(), i);
    assert forall|k: int| 0 <= k < q.slots.len() implies !(#[trigger] back(
        q,
        in_flight_of(q),
    ).slots[k]).active by {
        lemma_flying(q.slots, q.slots.len(), k);
    }
}

/// A reader is opened whole or not at all: posted, with every transfer registered; or with none
/// registered, and none in flight once those named have been cancelled.
pub proof fn law_readers_open_whole_or_not_at_all(
    w: window::WindowState,
    pipe: Pipe,
    depth: nat,
    len: nat,
    rets: Seq<Result<(), Error>>,
)
    requires
        0 < depth <= usize::MAX,
        submissions(fresh_queue(w.id, w.next_token, pipe, depth, len), rets),
    ensures
        ({
            let q = fresh_queue(w.id, w.next_token, pipe, depth, len);
            let opened = registered(w, depth);
            let n = accepted(rets);
            let started = posted_first(q, n as int);
            let named = Seq::new(n, |i: int| i as usize);
            &&& is_idle(q) && q.slots.len() == depth
            &&& n == depth ==> forall|i: int|
                #![trigger started.slots[i]]
                0 <= i < depth ==> started.slots[i].active && started.slots[i].buffer.len() == len
                    && opened.urbs.contains(RegisteredUrb { token: q.token, urb: i as u64 })
            &&& n < depth ==> n < rets.len() && rets[n as int] is Err
            &&& named == in_flight_of(started)
            &&& is_idle(back(started, named))
            &&& forall|r: RegisteredUrb| #[trigger]
                window::others(opened.urbs, q.token).contains(r) ==> r.token != q.token
        }),
{
    let q = fresh_queue(w.id, w.next_token, pipe, depth, len);
    let opened = registered(w, depth);
    let n = accepted(rets);
    let started = posted_first(q, n as int);
    let named = Seq::new(n, |i: int| i as usize);
    law_accepted_stops_at_the_first_refusal(rets);
    assert(is_idle(q) && q.slots.len() == depth && started.slots.len() == depth);
    assert(named == in_flight_of(started)) by {
        lemma_flying_first(q, n as int, depth);
        assert(named =~= in_flight_of(started));
    }
    law_nothing_outlives_its_queue(started, 0);
    assert forall|i: int| #![trigger started.slots[i]] 0 <= i < depth implies opened.urbs.contains(
        RegisteredUrb { token: q.token, urb: i as u64 },
    ) by {
        assert(opened.urbs[w.urbs.len() + i] == RegisteredUrb { token: q.token, urb: i as u64 });
    }
    assert forall|r: RegisteredUrb| #[trigger]
        window::others(opened.urbs, q.token).contains(r) implies r.token != q.token by {
        window::law_deregistering_is_exact(opened.urbs, q.token, r);
    }
    if n < depth {
        if rets.len() == n {
            lemma_accepted_all(rets);
        }
        assert(n < rets.len() && rets[n as int] is Err);
    }
}

/// What is submitted for a message is the message.
pub proof fn law_messages_are_sent_whole(q: QueueState, data: Seq<u8>)
    requires
        queue_ok(q),
        data.len() <= q.slots[q.cursor].buffer.len(),
    ensures
        ({
            let s = sent(q, data).slots[q.cursor];
            &&& s.active
            &&& s.buffer.take(s.used) == data
            &&& s.buffer.len() == q.slots[q.cursor].buffer.len()
        }),
{
    let s = sent(q, data).slots[q.cursor];
    assert(s.buffer.take(s.used) =~= data);
}

/// A queue after `n` turns.
pub open spec fn turned_by(q: QueueState, n: nat) -> QueueState
    decreases n,
{
    if n == 0 {
        q
    } else {
        turned(turned_by(q, (n - 1) as nat))
    }
}

/// The slots take their turns in order, round and round.
pub proof fn law_slots_take_turns(q: QueueState, n: nat)
    requires
        queue_ok(q),
    ensures
        turned_by(q, n).cursor == (q.cursor + n) % (q.slots.len() as int),
        turned_by(q, n).slots == q.slots,
        turned_by(q, q.slots.len()).cursor == q.cursor,
{
    let len = q.slots.len() as int;
    lemma_turned_by(q, n);
    lemma_turned_by(q, q.slots.len());
    vstd::arithmetic::div_mod::lemma_mod_add_multiples_vanish(q.cursor, len);
    vstd::arithmetic::div_mod::lemma_small_mod(q.cursor as nat, len as nat);
}

proof fn lemma_turned_by(q: QueueState, n: nat)
    requires
        queue_ok(q),
    ensures
        turned_by(q, n).cursor == (q.cursor + n) % (q.slots.len() as int),
        turned_by(q, n).slots == q.slots,
    decreases n,
{
    let len = q.slots.len() as int;
    if n == 0 {
        vstd::arithmetic::div_mod::lemma_small_mod(q.cursor as nat, len as nat);
    } else {
        lemma_turned_by(q, (n - 1) as nat);
        vstd::arithmetic::div_mod::lemma_add_mod_noop(q.cursor + n - 1, 1, len);
        vstd::arithmetic::div_mod::lemma_add_mod_noop((q.cursor + n - 1) % len, 1, len);
        vstd::arithmetic::div_mod::lemma_mod_twice(q.cursor + n - 1, len);
    }
}

/// A flush whose transfers all come back leaves none in flight, whatever their status.
pub proof fn law_flushing_empties_the_queue(q: QueueState, n: nat, done: Seq<Option<i32>>, i: int)
    requires
        n <= q.slots.len(),
        n <= done.len(),
        forall|k: int| 0 <= k < n ==> (#[trigger] done[k]) is Some,
        0 <= i < n,
    ensures
        flushed(q, n, done).0.slots.len() == q.slots.len(),
        !flushed(q, n, done).0.slots[i].active,
    decreases n,
{
    lemma_flushed_len(q, (n - 1) as nat, done);
    if i < n - 1 {
        law_flushing_empties_the_queue(q, (n - 1) as nat, done, i);
    }
}

proof fn lemma_flushed_len(q: QueueState, n: nat, done: Seq<Option<i32>>)
    requires
        n <= q.slots.len(),
    ensures
        flushed(q, n, done).0.slots.len() == q.slots.len(),
    decreases n,
{
    if n > 0 {
        lemma_flushed_len(q, (n - 1) as nat, done);
    }
}

/// A read hands over what was transferred, as far as the buffers on both sides hold it.
pub proof fn law_reads_hand_over_what_came(q: QueueState, actual: usize, room: int)
    requires
        queue_ok(q),
        0 <= room,
    ensures
        ({
            let n = handed_over(q, actual, room);
            let len = q.slots[q.cursor].buffer.len();
            &&& n <= actual && n <= room && n <= len
            &&& n == actual || n == room || n == len
        }),
{
}

/// A read touches the slot whose turn it is and no other: that holds what came and is in flight
/// again, and the next slot has its turn.
pub proof fn law_reads_touch_their_slot_alone(
    q: QueueState,
    data: Seq<u8>,
    reposted: bool,
    i: int,
)
    requires
        queue_ok(q),
        0 <= i < q.slots.len(),
    ensures
        ({
            let t = collected(q, data, reposted);
            &&& t.slots.len() == q.slots.len()
            &&& i != q.cursor ==> t.slots[i] == q.slots[i]
            &&& t.slots[q.cursor].buffer == data
            &&& t.slots[q.cursor].active == reposted
            &&& t.cursor == if q.cursor + 1 == q.slots.len() {
                0
            } else {
                q.cursor + 1
            }
            &&& (t.window, t.token, t.pipe) == (q.window, q.token, q.pipe)
        }),
        posted(q).slots[q.cursor].active,
        i != q.cursor ==> posted(q).slots[i] == q.slots[i],
        posted(q).slots[i].buffer == q.slots[i].buffer,
        posted(q).cursor == q.cursor,
{
    let n = q.slots.len() as int;
    if q.cursor + 1 == n {
        vstd::arithmetic::div_mod::lemma_mod_self_0(n);
    } else {
        vstd::arithmetic::div_mod::lemma_small_mod((q.cursor + 1) as nat, n as nat);
    }
}

/// A message touches the slot whose turn it is and no other. Where it was submitted, the next slot
/// has its turn; where it was not, the same slot is free and keeps its turn.
pub proof fn law_messages_touch_their_slot_alone(q: QueueState, data: Seq<u8>, i: int)
    requires
        queue_ok(q),
        data.len() <= q.slots[q.cursor].buffer.len(),
        0 <= i < q.slots.len(),
    ensures
        i != q.cursor ==> sent(q, data).slots[i] == q.slots[i],
        i != q.cursor ==> prepared(q, data).slots[i] == q.slots[i],
        i != q.cursor ==> overlong(q, data).slots[i] == q.slots[i],
        sent(q, data).slots[q.cursor].active,
        !prepared(q, data).slots[q.cursor].active,
        !overlong(q, data).slots[q.cursor].active,
        prepared(q, data).slots[q.cursor].buffer.take(data.len() as int) == data,
        prepared(q, data).cursor == q.cursor,
        overlong(q, data).cursor == q.cursor,
        sent(q, data).cursor == if q.cursor + 1 == q.slots.len() {
            0
        } else {
            q.cursor + 1
        },
{
    let n = q.slots.len() as int;
    if q.cursor + 1 == n {
        vstd::arithmetic::div_mod::lemma_mod_self_0(n);
    } else {
        vstd::arithmetic::div_mod::lemma_small_mod((q.cursor + 1) as nat, n as nat);
    }
    assert(prepared(q, data).slots[q.cursor].buffer.take(data.len() as int) =~= data);
}

/// A slot in flight is free again once its transfer came back, however it did, and busy until then;
/// a transfer that is late is a timeout, and one that failed keeps its number.
pub proof fn law_slots_are_freed_by_what_comes_back(s: SlotState, done: Option<i32>)
    ensures
        reaped(s, done).active <==> s.active && done is None,
        reaped(s, done).buffer == s.buffer,
        !s.active ==> reap_result(s, done) == Ok::<bool, Error>(false),
        s.active && done is None ==> reap_result(s, done) == Err::<bool, Error>(Error::ETIMEDOUT),
        s.active && done == Some(0i32) ==> reap_result(s, done) == Ok::<bool, Error>(true),
        s.active && done is Some && done != Some(0i32) ==> reap_result(s, done) is Err,
        s.active && done is Some && -4095 <= done->0 < 0 ==> reap_result(s, done) is Err
            && error::errno_of(reap_result(s, done)->Err_0) == done->0,
{
    if let Some(status) = done {
        if -4095 <= status < 0 {
            error::law_error_numbers_read_back(status);
        }
    }
}

/// A queue is opened for one slot or more of one byte or more, against an open window by one of
/// its own tokens, and is refused otherwise.
pub proof fn law_queues_are_opened_by_their_window(
    w: window::WindowState,
    io: window::IoState,
    depth: usize,
    len: usize,
)
    requires
        w.next_token < u64::MAX,
    ensures
        refusal(w, io, depth, len) is None <==> depth > 0 && len > 0 && io.window == w.id && w.open,
        !w.open && depth > 0 && len > 0 && io.window == w.id ==> refusal(w, io, depth, len) == Some(
            Error::ENODEV,
        ),
        depth == 0 || len == 0 || io.window != w.id ==> refusal(w, io, depth, len) == Some(
            Error::EINVAL,
        ),
{
}

/// Each queue's transfers are registered under a token of their own, and the others' stay.
pub proof fn law_queues_have_their_own_token(w: window::WindowState, depth: nat)
    requires
        w.next_token < u64::MAX,
        depth <= u64::MAX,
    ensures
        registered(w, depth).next_token == w.next_token + 1,
        registered(w, depth).urbs.take(w.urbs.len() as int) == w.urbs,
        registered(w, depth).urbs.len() == w.urbs.len() + depth,
        forall|i: int|
            0 <= i < depth ==> (#[trigger] registered(w, depth).urbs[w.urbs.len() + i])
                == (RegisteredUrb { token: w.next_token, urb: i as u64 }),
        registered(w, depth).active == w.active,
        registered(w, depth).open == w.open,
{
    assert(registered(w, depth).urbs.take(w.urbs.len() as int) =~= w.urbs);
}

/// Where the next slots are said to be free, they are, and those in flight had come back well.
pub proof fn law_free_slots_are_free(
    q: QueueState,
    off: int,
    n: nat,
    done: Seq<Option<i32>>,
    k: int,
)
    requires
        queue_ok(q),
        0 <= off,
        off + n <= q.slots.len(),
        off + n <= done.len(),
        free_from(q, off, n, done).1 == Ok::<bool, Error>(true),
        off <= k < off + n,
    ensures
        !free_from(q, off, n, done).0.slots[ahead(q, k)].active,
        q.slots[ahead(q, k)].active ==> done[k] == Some(0i32),
    decreases n,
{
    let i = ahead(q, off);
    let s = q.slots[i];
    vstd::arithmetic::div_mod::lemma_mod_bound(q.cursor + off, q.slots.len() as int);
    vstd::arithmetic::div_mod::lemma_mod_bound(q.cursor + k, q.slots.len() as int);
    let t = if s.active {
        with_slot(q, i, SlotState { active: false, ..s })
    } else {
        q
    };
    assert(free_from(q, off, n, done) == free_from(t, off + 1, (n - 1) as nat, done));
    assert(queue_ok(t));
    if k == off {
        lemma_free_stays(t, off + 1, (n - 1) as nat, done, i);
    } else {
        law_free_slots_are_free(t, off + 1, (n - 1) as nat, done, k);
        lemma_ahead_apart(q, off, k);
    }
}

/// A free slot stays free while others are reaped.
proof fn lemma_free_stays(q: QueueState, off: int, n: nat, done: Seq<Option<i32>>, i: int)
    requires
        queue_ok(q),
        0 <= i < q.slots.len(),
        !q.slots[i].active,
    ensures
        !free_from(q, off, n, done).0.slots[i].active,
    decreases n,
{
    if n > 0 {
        let j = ahead(q, off);
        let s = q.slots[j];
        vstd::arithmetic::div_mod::lemma_mod_bound(q.cursor + off, q.slots.len() as int);
        if !s.active {
            lemma_free_stays(q, off + 1, (n - 1) as nat, done, i);
        } else if done[off] is Some {
            let t = with_slot(q, j, SlotState { active: false, ..s });
            assert(queue_ok(t));
            lemma_free_stays(t, off + 1, (n - 1) as nat, done, i);
        }
    }
}

/// Two places less than a round ahead are two slots.
proof fn lemma_ahead_apart(q: QueueState, a: int, b: int)
    requires
        queue_ok(q),
        0 <= a < b < q.slots.len(),
    ensures
        ahead(q, a) != ahead(q, b),
{
    let n = q.slots.len() as int;
    if ahead(q, a) == ahead(q, b) {
        vstd::arithmetic::div_mod::lemma_mod_equivalence(q.cursor + b, q.cursor + a, n);
        assert((b - a) % n == 0);
        vstd::arithmetic::div_mod::lemma_small_mod((b - a) as nat, n as nat);
    }
}

/// A flush succeeds exactly where every transfer in flight came back well.
pub proof fn law_flushing_reports_what_failed(q: QueueState, n: nat, done: Seq<Option<i32>>)
    requires
        n <= q.slots.len(),
        n <= done.len(),
    ensures
        flushed(q, n, done).1 is Ok <==> forall|i: int|
            0 <= i < n && (#[trigger] q.slots[i]).active ==> done[i] == Some(0i32),
        forall|i: int| n <= i < q.slots.len() ==> #[trigger] flushed(q, n, done).0.slots[i] == q.slots[i],
    decreases n,
{
    if n > 0 {
        let m = (n - 1) as nat;
        law_flushing_reports_what_failed(q, m, done);
        lemma_flushed_len(q, m, done);
        lemma_flushed_len(q, n, done);
        assert(flushed(q, m, done).0.slots[m as int] == q.slots[m as int]);
    }
}

} // verus!
