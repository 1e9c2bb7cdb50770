//! Transfers: what they are set up with, when their buffer may be touched, and what they bring
//! back.

use vstd::prelude::*;

use std::marker::PhantomData;
use std::sync::Arc;

use crate::error;
use crate::error::Error;
use crate::usb::pipe::Pipe;

verus! {

/// What the host controller's answer comes to: a negative number is an error.
pub open spec fn result_of(ret: i32) -> Result<(), Error> {
    if ret < 0 {
        Err(error::error_of(ret))
    } else {
        Ok(())
    }
}

/// What the host controller's answer comes to.
pub fn to_result(ret: i32) -> (r: Result<(), Error>)
    ensures
        r == result_of(ret),
{
    if ret < 0 {
        Err(Error::from_errno(ret))
    } else {
        Ok(())
    }
}

/// One packet of an isochronous transfer.
#[derive(Clone, Copy, Debug, PartialEq, Eq, Structural)]
pub struct IsoPacketDescriptor {
    /// Where its data starts in the buffer.
    pub start: u32,
    /// How much it may hold.
    pub room: u32,
    /// How much of it was transferred.
    pub transferred: u32,
    /// How it completed.
    pub outcome: i32,
}

impl IsoPacketDescriptor {
    /// Where the packet's data starts in the buffer.
    pub fn offset(&self) -> (n: u32)
        ensures
            n == self.start,
    {
        self.start
    }

    /// How much the packet may hold.
    pub fn length(&self) -> (n: u32)
        ensures
            n == self.room,
    {
        self.room
    }

    /// How much of the packet was transferred.
    pub fn actual_length(&self) -> (n: u32)
        ensures
            n == self.transferred,
    {
        self.transferred
    }

    /// How the packet completed.
    pub fn status(&self) -> (n: i32)
        ensures
            n == self.outcome,
    {
        self.outcome
    }
}

/// Whether a transfer is in flight.
pub trait UrbState {
    /// Whether a transfer in this state must be cancelled before its memory is freed.
    spec fn in_flight() -> bool;

    /// Whether a transfer in this state must be cancelled before its memory is freed.
    fn pre_drop() -> (cancel: bool)
        ensures
            cancel == Self::in_flight(),
    ;
}

/// A transfer that has not been submitted, or has come back.
#[derive(Clone, Copy, Debug)]
pub struct Idle;

/// A transfer in flight.
#[derive(Clone, Copy, Debug)]
pub struct Active;

impl UrbState for Idle {
    open spec fn in_flight() -> bool {
        false
    }

    fn pre_drop() -> (cancel: bool) {
        false
    }
}

impl UrbState for Active {
    open spec fn in_flight() -> bool {
        true
    }

    fn pre_drop() -> (cancel: bool) {
        true
    }
}

/// A transfer.
#[derive(Debug)]
pub struct Urb<T> {
    /// Where it is addressed.
    pub pipe: Pipe,
    /// The setup packet of a control transfer.
    pub setup: Option<[u8; 8]>,
    /// Its buffer.
    pub buffer: Vec<u8>,
    /// How much of the buffer the next submission uses.
    pub used: u32,
    /// The packets of an isochronous transfer.
    pub packets: Vec<IsoPacketDescriptor>,
    /// Its flags.
    pub flags: u32,
    /// Its interval.
    pub interval: i32,
    /// How it completed.
    pub outcome: i32,
    /// How much was transferred.
    pub transferred: u32,
    /// What its owner keeps with it.
    pub attached: Option<Arc<T>>,
}

impl<T> Urb<T> {
    /// What the transfer's owner keeps with it.
    pub fn context(&self) -> (c: Option<&Arc<T>>)
        ensures
            match c {
                Some(a) => self.attached == Some(*a),
                None => self.attached is None,
            },
    {
        match &self.attached {
            Some(a) => Some(a),
            None => None,
        }
    }

    /// How the transfer completed.
    pub fn status(&self) -> (n: i32)
        ensures
            n == self.outcome,
    {
        self.outcome
    }
}

/// A handle on a transfer; `S` says whether it is in flight.
#[derive(Debug)]
pub struct UrbHandle<T, S: UrbState> {
    urb: Urb<T>,
    state: PhantomData<S>,
}

impl<T, S: UrbState> View for UrbHandle<T, S> {
    type V = Urb<T>;

    closed spec fn view(&self) -> Urb<T> {
        self.urb
    }
}

/// The packets of a transfer of `n` packets of `len` bytes: one after the other, untransferred.
pub open spec fn packets_of(n: nat, len: int) -> Seq<IsoPacketDescriptor> {
    Seq::new(
        n,
        |i: int|
            IsoPacketDescriptor {
                start: (i * len) as u32,
                room: len as u32,
                transferred: 0,
                outcome: 0,
            },
    )
}

/// A transfer that has been set up and not submitted.
pub open spec fn is_set_up<T>(
    u: Urb<T>,
    pipe: Pipe,
    setup: Option<[u8; 8]>,
    buffer: Seq<u8>,
    context: Option<Arc<T>>,
    packets: nat,
    packet_len: int,
    flags: u32,
    interval: i32,
) -> bool {
    &&& u.pipe == pipe
    &&& u.setup == setup
    &&& u.buffer@ == buffer
    &&& u.used == buffer.len() % 0x1_0000_0000
    &&& u.packets@ == packets_of(packets, packet_len)
    &&& u.flags == flags
    &&& u.interval == interval
    &&& u.outcome == 0
    &&& u.transferred == 0
    &&& u.attached == context
}

/// Set a transfer up.
fn init_common<T>(
    pipe: Pipe,
    setup: Option<[u8; 8]>,
    buffer: Vec<u8>,
    context: Option<Arc<T>>,
    packets: u32,
    packet_len: u16,
    flags: u32,
    interval: i32,
) -> (h: UrbHandle<T, Idle>)
    requires
        packets * packet_len <= u32::MAX,
    ensures
        is_set_up(
            h@,
            pipe,
            setup,
            buffer@,
            context,
            packets as nat,
            packet_len as int,
            flags,
            interval,
        ),
{
    let mut descs: Vec<IsoPacketDescriptor> = Vec::new();
    let mut i: u32 = 0;
    while i < packets
        invariant
            i <= packets,
            packets * packet_len <= u32::MAX,
            descs@ == packets_of(i as nat, packet_len as int),
        decreases packets - i,
    {
        assert(i * packet_len <= packets * packet_len) by (nonlinear_arith)
            requires
                i <= packets,
        ;
        let ghost before = descs@;
        descs.push(
            IsoPacketDescriptor {
                start: i * packet_len as u32,
                room: packet_len as u32,
                transferred: 0,
                outcome: 0,
            },
        );
        i += 1;
        assert(descs@ =~= packets_of(i as nat, packet_len as int));
    }
    let used: u32 = (buffer.len() as u64 % 0x1_0000_0000) as u32;
    UrbHandle {
        urb: Urb {
            pipe,
            setup,
            buffer,
            used,
            packets: descs,
            flags,
            interval,
            outcome: 0,
            transferred: 0,
            attached: context,
        },
        state: PhantomData,
    }
}

impl<T> Urb<T> {
    /// Set a bulk transfer up.
    pub fn new_bulk(pipe: Pipe, buffer: Vec<u8>, context: Option<Arc<T>>, flags: u32) -> (h:
        UrbHandle<T, Idle>)
        ensures
            is_set_up(h@, pipe, None, buffer@, context, 0, 0, flags, 0),
    {
        init_common(pipe, None, buffer, context, 0, 0, flags, 0)
    }

    /// Set an interrupt transfer up.
    pub fn new_int(
        pipe: Pipe,
        buffer: Vec<u8>,
        context: Option<Arc<T>>,
        flags: u32,
        interval: i32,
    ) -> (h: UrbHandle<T, Idle>)
        ensures
            is_set_up(h@, pipe, None, buffer@, context, 0, 0, flags, interval),
    {
        init_common(pipe, None, buffer, context, 0, 0, flags, interval)
    }

    /// Set a control transfer up; without a buffer it has an empty one.
    pub fn new_ctrl(
        pipe: Pipe,
        setup: [u8; 8],
        buffer: Option<Vec<u8>>,
        context: Option<Arc<T>>,
        flags: u32,
    ) -> (h: UrbHandle<T, Idle>)
        ensures
            is_set_up(
                h@,
                pipe,
                Some(setup),
                match buffer {
                    Some(b) => b@,
                    None => seq![],
                },
                context,
                0,
                0,
                flags,
                0,
            ),
    {
        let data: Vec<u8> = match buffer {
            Some(b) => b,
            None => Vec::new(),
        };
        assert(data@ =~= match buffer {
            Some(b) => b@,
            None => seq![],
        });
        init_common(pipe, Some(setup), data, context, 0, 0, flags, 0)
    }

    /// Set an isochronous transfer up; `EINVAL` where its buffer cannot hold every packet.
    pub fn new_isoc(
        pipe: Pipe,
        buffer: Vec<u8>,
        context: Option<Arc<T>>,
        packets: u32,
        packet_len: u16,
        flags: u32,
        interval: i32,
    ) -> (r: Result<UrbHandle<T, Idle>, Error>)
        requires
            buffer@.len() >= packets * packet_len ==> packets * packet_len <= u32::MAX,
        ensures
            match r {
                Ok(h) => buffer@.len() >= packets * packet_len && is_set_up(
                    h@,
                    pipe,
                    None,
                    buffer@,
                    context,
                    packets as nat,
                    packet_len as int,
                    flags,
                    interval,
                ),
                Err(e) => buffer@.len() < packets * packet_len && e == Error::EINVAL,
            },
    {
        assert(0 <= packets * packet_len <= 0xffff_ffff * 0xffff) by (nonlinear_arith)
            requires
                packets <= 0xffff_ffff,
                packet_len <= 0xffff,
        ;
        let needed: u64 = packets as u64 * packet_len as u64;
        if (buffer.len() as u64) < needed {
            return Err(Error::EINVAL);
        }
        Ok(init_common(pipe, None, buffer, context, packets, packet_len, flags, interval))
    }
}

impl<T> UrbHandle<T, Idle> {
    /// The whole buffer of an idle transfer.
    pub fn transfer_buffer(&self) -> (b: &[u8])
        ensures
            b@ == self@.buffer@,
    {
        self.urb.buffer.as_slice()
    }

    /// The whole buffer of an idle transfer, to be filled.
    pub fn transfer_buffer_mut(&mut self) -> (b: &mut [u8])
        ensures
            (*b)@ == old(self)@.buffer@,
            final(self)@.buffer@ == (*final(b))@,
            final(self)@ == (Urb::<T> { buffer: final(self)@.buffer, ..old(self)@ }),
    {
        self.urb.buffer.as_mut_slice()
    }

    /// How much of the buffer the next submission uses; `EMSGSIZE` past its end.
    pub fn set_transfer_buffer_length(&mut self, len: usize) -> (r: Result<(), Error>)
        ensures
            match r {
                Ok(()) => len <= old(self)@.buffer@.len() && len <= u32::MAX && final(self)@ == (
                Urb::<T> { used: len as u32, ..old(self)@ }),
                Err(e) => final(self)@ == old(self)@ && e == (if len > old(self)@.buffer@.len() {
                    Error::EMSGSIZE
                } else {
                    Error::EINVAL
                }) && (len > old(self)@.buffer@.len() || len > u32::MAX),
            },
    {
        if len > self.urb.buffer.len() {
            return Err(Error::EMSGSIZE);
        }
        if len as u64 > 0xffff_ffff {
            return Err(Error::EINVAL);
        }
        self.urb.used = len as u32;
        Ok(())
    }

    /// Take up a submission: a transfer that was not accepted stays idle and usable.
    pub fn submit_recoverable(self, ret: i32) -> (r: Result<
        UrbHandle<T, Active>,
        (Error, UrbHandle<T, Idle>),
    >)
        ensures
            match r {
                Ok(h) => ret == 0 && h@ == self@,
                Err((e, h)) => ret != 0 && e == error::error_of(ret) && h@ == self@,
            },
    {
        if ret == 0 {
            Ok(UrbHandle { urb: self.urb, state: PhantomData })
        } else {
            Err((Error::from_errno(ret), UrbHandle { urb: self.urb, state: PhantomData }))
        }
    }

    /// Take up a submission; a transfer that was not accepted is given up.
    pub fn submit(self, ret: i32) -> (r: Result<UrbHandle<T, Active>, Error>)
        ensures
            match r {
                Ok(h) => ret == 0 && h@ == self@,
                Err(e) => ret != 0 && e == error::error_of(ret),
            },
    {
        match self.submit_recoverable(ret) {
            Ok(h) => Ok(h),
            Err((e, _)) => Err(e),
        }
    }
}

impl<T> UrbHandle<T, Active> {
    /// Take up that a transfer came back or was cancelled, with how it completed and how much
    /// was transferred.
    pub fn into_idle(self, outcome: i32, transferred: u32) -> (h: UrbHandle<T, Idle>)
        ensures
            h@ == (Urb::<T> { outcome, transferred, ..self@ }),
    {
        let mut urb = self.urb;
        urb.outcome = outcome;
        urb.transferred = transferred;
        UrbHandle { urb, state: PhantomData }
    }
}

/// A transfer that came back, whose outcome is to be checked before its data is read.
#[derive(Debug)]
pub struct UrbResult<'a, T> {
    /// The transfer.
    pub urb: &'a Urb<T>,
}

/// A transfer that succeeded.
#[derive(Debug)]
pub struct UrbData<'a, T> {
    urb: &'a Urb<T>,
}

impl<'a, T> View for UrbData<'a, T> {
    type V = Urb<T>;

    closed spec fn view(&self) -> Urb<T> {
        *self.urb
    }
}

impl<'a, T> UrbResult<'a, T> {
    /// Check how the transfer completed.
    pub fn check(&self) -> (r: Result<UrbData<'a, T>, Error>)
        ensures
            match r {
                Ok(d) => self.urb.outcome == 0 && d@ == *self.urb,
                Err(e) => self.urb.outcome != 0 && e == error::error_of(self.urb.outcome),
            },
    {
        if self.urb.status() != 0 {
            Err(Error::from_errno(self.urb.status()))
        } else {
            Ok(UrbData { urb: self.urb })
        }
    }

    /// Check how the transfer completed; one that failed has been submitted again, with `ret`.
    pub fn check_or_resubmit(self, ret: i32) -> (r: Result<UrbData<'a, T>, Result<(), Error>>)
        ensures
            match r {
                Ok(d) => self.urb.outcome == 0 && d@ == *self.urb,
                Err(again) => self.urb.outcome != 0 && again == result_of(ret),
            },
    {
        if self.urb.status() != 0 {
            Err(to_result(ret))
        } else {
            Ok(UrbData { urb: self.urb })
        }
    }
}

impl<'a, T> UrbData<'a, T> {
    /// Take up that the transfer was submitted again, with `ret`.
    pub fn resubmit(self, ret: i32) -> (r: Result<(), Error>)
        ensures
            r == result_of(ret),
    {
        to_result(ret)
    }

    /// How much was transferred.
    pub fn actual_length(&self) -> (n: u32)
        ensures
            n == self@.transferred,
    {
        self.urb.transferred
    }

    /// The part of the buffer that was submitted.
    pub fn transfer_buffer(&self) -> (b: &[u8])
        requires
            self@.used <= self@.buffer@.len(),
        ensures
            b@ == self@.buffer@.take(self@.used as int),
    {
        let b = vstd::slice::slice_subrange(
            self.urb.buffer.as_slice(),
            0,
            self.urb.used as usize,
        );
        assert(b@ =~= self@.buffer@.take(self@.used as int));
        b
    }

    /// The packets of the transfer.
    pub fn iso_frame_descs(&self) -> (p: &[IsoPacketDescriptor])
        ensures
            p@ == self@.packets@,
    {
        self.urb.packets.as_slice()
    }

    /// The data of a packet; its error where it failed.
    pub fn data_from_iso_packet_desc(&self, packet: &IsoPacketDescriptor) -> (r: Result<
        &[u8],
        Error,
    >)
        requires
            packet.outcome == 0 ==> packet.start + packet.transferred <= self@.buffer@.len(),
        ensures
            match r {
                Ok(b) => packet.outcome == 0 && b@ == self@.buffer@.subrange(
                    packet.start as int,
                    packet.start + packet.transferred,
                ),
                Err(e) => packet.outcome != 0 && e == error::error_of(packet.outcome),
            },
    {
        if packet.status() != 0 {
            return Err(Error::from_errno(packet.status()));
        }
        let buffer = self.urb.buffer.as_slice();
        let len: usize = buffer.len();
        let from: usize = packet.offset() as usize;
        let to: usize = from + packet.actual_length() as usize;
        Ok(vstd::slice::slice_subrange(buffer, from, to))
    }
}

/// The packets of an isochronous transfer lie in its buffer without overlap, so that a packet
/// that transferred no more than its room reads its own data alone.
pub proof fn law_packets_partition_the_buffer(n: nat, len: int, buffer_len: int, i: int, j: int)
    requires
        0 <= len <= u16::MAX,
        n * len <= buffer_len,
        n * len <= u32::MAX,
        0 <= i < j < n,
    ensures
        packets_of(n, len)[i].start + packets_of(n, len)[i].room <= packets_of(n, len)[j].start,
        packets_of(n, len)[j].start + packets_of(n, len)[j].room <= buffer_len,
{
    assert((i + 1) * len <= j * len && (j + 1) * len <= n * len && 0 <= i * len && (i + 1) * len
        == i * len + len && (j + 1) * len == j * len + len) by (nonlinear_arith)
        requires
            0 <= len,
            0 <= i < j < n,
    ;
}

/// A call fails where its number is negative, with the error of that number.
pub proof fn law_failures_keep_their_number(ret: i32)
    ensures
        result_of(ret) is Ok <==> ret >= 0,
        -4095 <= ret < 0 ==> (result_of(ret) matches Err(e) && error::errno_of(e) == ret),
        ret < -4095 ==> result_of(ret) == Err::<(), Error>(Error::EINVAL),
{
    if -4095 <= ret < 0 {
        error::law_error_numbers_read_back(ret);
    }
}

/// The packets follow each other from the start of the buffer without a gap, all of one size.
pub proof fn law_packets_leave_no_gap(n: nat, len: int, i: int)
    requires
        0 <= len <= u16::MAX,
        n * len <= u32::MAX,
        0 <= i < n,
    ensures
        packets_of(n, len).len() == n,
        packets_of(n, len)[0].start == 0,
        packets_of(n, len)[i].room == len,
        i + 1 < n ==> packets_of(n, len)[i + 1].start == packets_of(n, len)[i].start + len,
{
    assert(i * len <= n * len) by (nonlinear_arith)
        requires
            0 <= i < n,
            0 <= len,
    ;
    assert(0 <= i * len) by (nonlinear_arith)
        requires
            0 <= i,
            0 <= len,
    ;
    if i + 1 < n {
        assert((i + 1) * len <= n * len) by (nonlinear_arith)
            requires
                0 <= i,
                i + 1 < n,
                0 <= len,
        ;
        assert((i + 1) * len == i * len + len) by (nonlinear_arith);
    }
    assert(0 * len == 0);
}

} // verus!
