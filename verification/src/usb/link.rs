//! A dock's endpoints, resolved once and checked for their kind.

use vstd::prelude::*;

use crate::error::Error;
use crate::usb::endpoint;
use crate::usb::endpoint::{BulkIn, BulkOut, Endpoint, Interface};
use crate::usb::pipe::Pipe;
use crate::usb::queue;
use crate::usb::queue::{BulkInQueue, BulkOutQueue};
use crate::usb::transfer;
use crate::usb::transfer::{ControlTransfer, Transfer};
use crate::usb::window;
use crate::usb::window::{Io, IoWindow};

verus! {

/// Connectors a dock may drive.
pub const HEADS: usize = 4;

/// Address of the control plane's writes.
pub const EP_CTRL_OUT: u8 = 0x02;

/// Address of the control plane's replies.
pub const EP_CTRL_IN: u8 = 0x84;

/// Size of a read of the control plane's replies.
pub const EP84_BUF: usize = 4096;

/// A dock's endpoints.
#[derive(Debug)]
pub struct Endpoints {
    /// The control plane's writes.
    pub ctrl_out: Endpoint<BulkOut>,
    /// The control plane's replies.
    pub ctrl_in: Endpoint<BulkIn>,
    /// The video endpoint of each connector.
    pub video: Vec<Endpoint<BulkOut>>,
}

/// Whether looking an address up succeeds.
pub open spec fn is_there(intf: Interface, addr: u8) -> bool {
    exists|e: endpoint::EndpointState| #[trigger]
        endpoint::looked_up::<BulkOut>(intf, addr, Ok(e))
}

/// Whether looking up the first `n` video addresses succeeds.
pub open spec fn video_found(intf: Interface, addrs: Seq<u8>, n: int) -> bool {
    forall|i: int| 0 <= i < n ==> is_there(intf, #[trigger] addrs[i])
}

impl Endpoints {
    /// Resolve every endpoint the driver uses: the video endpoints in order, then the control
    /// plane's. The first that cannot be resolved decides the error.
    pub fn resolve(intf: &Interface, video_eps: &[u8; 4]) -> (r: Result<Endpoints, Error>)
        ensures
            match r {
                Ok(eps) => {
                    &&& eps.video@.len() == HEADS
                    &&& forall|i: int|
                        0 <= i < HEADS ==> endpoint::looked_up::<BulkOut>(
                            *intf,
                            video_eps@[i],
                            Ok((#[trigger] eps.video@[i])@),
                        )
                    &&& endpoint::looked_up::<BulkOut>(*intf, EP_CTRL_OUT, Ok(eps.ctrl_out@))
                    &&& endpoint::looked_up::<BulkIn>(*intf, EP_CTRL_IN, Ok(eps.ctrl_in@))
                },
                Err(e) => {
                    ||| exists|i: int|
                        0 <= i < HEADS && video_found(*intf, video_eps@, i)
                            && endpoint::looked_up::<BulkOut>(
                            *intf,
                            #[trigger] video_eps@[i],
                            Err(e),
                        )
                    ||| video_found(*intf, video_eps@, HEADS as int) && endpoint::looked_up::<
                        BulkOut,
                    >(*intf, EP_CTRL_OUT, Err(e))
                    ||| video_found(*intf, video_eps@, HEADS as int) && is_there(
                        *intf,
                        EP_CTRL_OUT,
                    ) && endpoint::looked_up::<BulkIn>(*intf, EP_CTRL_IN, Err(e))
                },
            },
    {
        let mut video: Vec<Endpoint<BulkOut>> = Vec::new();
        let mut i: usize = 0;
        while i < HEADS
            invariant
                i <= HEADS,
                video@.len() == i,
                video_found(*intf, video_eps@, i as int),
                forall|j: int|
                    0 <= j < i ==> endpoint::looked_up::<BulkOut>(
                        *intf,
                        video_eps@[j],
                        Ok((#[trigger] video@[j])@),
                    ),
            decreases HEADS - i,
        {
            let found = intf.endpoint::<BulkOut>(video_eps[i]);
            match found {
                Ok(e) => {
                    assert(endpoint::looked_up::<BulkOut>(*intf, video_eps@[i as int], Ok(e@)));
                    assert(is_there(*intf, video_eps@[i as int]));
                    video.push(e);
                },
                Err(e) => {
                    assert(endpoint::looked_up::<BulkOut>(*intf, video_eps@[i as int], Err(e)));
                    return Err(e);
                },
            }
            i += 1;
        }
        let ctrl_out = match intf.endpoint::<BulkOut>(EP_CTRL_OUT) {
            Ok(e) => {
                assert(endpoint::looked_up::<BulkOut>(*intf, EP_CTRL_OUT, Ok(e@)));
                e
            },
            Err(e) => {
                return Err(e);
            },
        };
        let ctrl_in = match intf.endpoint::<BulkIn>(EP_CTRL_IN) {
            Ok(e) => e,
            Err(e) => {
                return Err(e);
            },
        };
        Ok(Endpoints { ctrl_out, ctrl_in, video })
    }

    /// The queue of a connector's video endpoint: connectors that share an endpoint share the
    /// queue of the first of them. `EINVAL` for a connector there is not.
    pub fn video_pipe_index(&self, head: usize) -> (r: Result<usize, Error>)
        ensures
            r == pipe_index(addresses(self.video@), head as int),
    {
        if head >= self.video.len() {
            return Err(Error::EINVAL);
        }
        let wanted: u8 = self.video[head].address();
        let ghost addrs = addresses(self.video@);
        let mut i: usize = 0;
        while self.video[i].address() != wanted
            invariant
                i <= head < self.video@.len(),
                addrs == addresses(self.video@),
                wanted == addrs[head as int],
                forall|j: int| 0 <= j < i ==> #[trigger] addrs[j] != wanted,
            decreases head - i,
        {
            i += 1;
        }
        proof {
            lemma_first_place(addrs, wanted, i as int);
        }
        Ok(i)
    }
}

/// How long a request of the setup may last, in nanoseconds.
pub const SETUP_TIMEOUT: i64 = 1_000_000_000;

/// Transfers that the control plane's writer keeps.
pub const CTRL_OUT_DEPTH: usize = 4;

/// Size of each of them.
pub const CTRL_OUT_BUF: usize = 1024;

/// Length of the interface's state.
pub const STATE_LEN: usize = 28;

/// A dock's endpoints with the token that permits their use.
#[derive(Debug)]
pub struct UsbLink {
    /// The token.
    pub io: Io,
    /// The endpoints.
    pub eps: Endpoints,
}

impl UsbLink {
    /// The number of the device.
    pub open spec fn device(&self) -> u32 {
        self.io@.interface.device.number
    }

    /// The video endpoint of connector `head`, if there is one.
    pub open spec fn video(&self, head: usize) -> Option<endpoint::EndpointState> {
        if head < self.eps.video@.len() {
            Some(self.eps.video@[head as int]@)
        } else {
            None
        }
    }

    /// Take a token of the window for the endpoints; `ENODEV` once the window is closed.
    pub fn open(w: &mut IoWindow, eps: Endpoints) -> (r: Result<UsbLink, Error>)
        ensures
            final(w)@ == window::after(old(w)@, window::Happening::Enter),
            r is Ok <==> window::admits(old(w)@),
            match r {
                Ok(link) => link.eps == eps && link.io@.window == old(w)@.id && link.io@.interface
                    == old(w)@.interface,
                Err(e) => e == (if !old(w)@.open {
                    Error::ENODEV
                } else {
                    Error::EOVERFLOW
                }),
            },
    {
        match w.enter() {
            Ok(io) => Ok(UsbLink { io, eps }),
            Err(e) => Err(e),
        }
    }

    /// Open the reader of the control plane's replies.
    pub fn ctrl_in_queue(&self, w: &mut IoWindow, depth: usize, buf_len: usize) -> (r: Result<
        BulkInQueue,
        Error,
    >)
        ensures
            match queue::refusal(old(w)@, self.io@, depth, buf_len) {
                Some(e) => r == Err::<BulkInQueue, Error>(e) && final(w)@ == old(w)@,
                None => r matches Ok(q) && q@ == queue::fresh_queue(
                    old(w)@.id,
                    old(w)@.next_token,
                    self.eps.ctrl_in@.pipe,
                    depth as nat,
                    buf_len as nat,
                ) && final(w)@ == queue::registered(old(w)@, depth as nat),
            },
    {
        BulkInQueue::new(w, &self.io, &self.eps.ctrl_in, depth, buf_len)
    }

    /// Open the writer of the control plane.
    pub fn ctrl_out_queue(&self, w: &mut IoWindow, depth: usize, buf_len: usize) -> (r: Result<
        BulkOutQueue,
        Error,
    >)
        ensures
            match queue::refusal(old(w)@, self.io@, depth, buf_len) {
                Some(e) => r == Err::<BulkOutQueue, Error>(e) && final(w)@ == old(w)@,
                None => r matches Ok(q) && q@ == queue::fresh_queue(
                    old(w)@.id,
                    old(w)@.next_token,
                    self.eps.ctrl_out@.pipe,
                    depth as nat,
                    buf_len as nat,
                ) && final(w)@ == queue::registered(old(w)@, depth as nat),
            },
    {
        BulkOutQueue::new(w, &self.io, &self.eps.ctrl_out, depth, buf_len)
    }

    /// Open the writer of a connector's video endpoint; `EINVAL` for a connector there is not.
    pub fn video_queue(
        &self,
        w: &mut IoWindow,
        head: usize,
        depth: usize,
        buf_len: usize,
    ) -> (r: Result<BulkOutQueue, Error>)
        ensures
            match self.video(head) {
                None => r == Err::<BulkOutQueue, Error>(Error::EINVAL) && final(w)@ == old(w)@,
                Some(ep) => match queue::refusal(old(w)@, self.io@, depth, buf_len) {
                    Some(e) => r == Err::<BulkOutQueue, Error>(e) && final(w)@ == old(w)@,
                    None => r matches Ok(q) && q@ == queue::fresh_queue(
                        old(w)@.id,
                        old(w)@.next_token,
                        ep.pipe,
                        depth as nat,
                        buf_len as nat,
                    ) && final(w)@ == queue::registered(old(w)@, depth as nat),
                },
            },
    {
        if head >= self.eps.video.len() {
            return Err(Error::EINVAL);
        }
        BulkOutQueue::new(w, &self.io, &self.eps.video[head], depth, buf_len)
    }

    /// The transfer that sends video data to a connector; `EINVAL` for a connector there is not.
    pub fn video_send(&self, head: usize, data: &[u8], timeout: i64) -> (r: Result<Transfer, Error>)
        ensures
            r == match self.video(head) {
                None => Err::<Transfer, Error>(Error::EINVAL),
                Some(ep) => transfer::transfer_of(
                    self.device(),
                    ep.pipe,
                    data@.len() as int,
                    timeout,
                ),
            },
    {
        if head >= self.eps.video.len() {
            return Err(Error::EINVAL);
        }
        self.io.bulk_send(&self.eps.video[head], data, timeout)
    }

    /// The transfer that sends a message of the control plane.
    pub fn ctrl_send(&self, data: &[u8], timeout: i64) -> (r: Result<Transfer, Error>)
        ensures
            r == transfer::transfer_of(
                self.device(),
                self.eps.ctrl_out@.pipe,
                data@.len() as int,
                timeout,
            ),
    {
        self.io.bulk_send(&self.eps.ctrl_out, data, timeout)
    }

    /// The transfer that receives a reply of the control plane.
    pub fn ctrl_recv(&self, room: usize, timeout: i64) -> (r: Result<Transfer, Error>)
        ensures
            r == transfer::transfer_of(
                self.device(),
                self.eps.ctrl_in@.pipe,
                room as int,
                timeout,
            ),
    {
        self.io.bulk_recv(&self.eps.ctrl_in, room, timeout)
    }

    /// The pipe of a connector whose stall is to be cleared; `EINVAL` for a connector there is
    /// not.
    pub fn clear_video_halt(&self, head: usize) -> (r: Result<(u32, Pipe), Error>)
        ensures
            r == match self.video(head) {
                None => Err::<(u32, Pipe), Error>(Error::EINVAL),
                Some(ep) => Ok::<(u32, Pipe), Error>((self.device(), ep.pipe)),
            },
    {
        if head >= self.eps.video.len() {
            return Err(Error::EINVAL);
        }
        Ok(self.io.clear_halt(&self.eps.video[head]))
    }

    /// The request for a video endpoint's two-byte status, which tells a stalled endpoint from a
    /// busy one without disturbing it.
    pub fn video_endpoint_status(&self, head: usize) -> (r: Result<ControlTransfer, Error>)
        ensures
            r == match self.video(head) {
                None => Err::<ControlTransfer, Error>(Error::EINVAL),
                Some(ep) => transfer::control_of(
                    self.device(),
                    0x00,
                    0x82,
                    0,
                    ep.address as u16,
                    2,
                    SETUP_TIMEOUT,
                ),
            },
    {
        if head >= self.eps.video.len() {
            return Err(Error::EINVAL);
        }
        let address: u16 = self.eps.video[head].address() as u16;
        self.io.control_recv(0x00, 0x82, 0, address, 2, SETUP_TIMEOUT)
    }

    /// The bare request that clears a video endpoint's stall on the dock, which leaves the host's
    /// own state of the endpoint alone.
    pub fn clear_video_halt_wire(&self, head: usize) -> (r: Result<ControlTransfer, Error>)
        ensures
            r == match self.video(head) {
                None => Err::<ControlTransfer, Error>(Error::EINVAL),
                Some(ep) => transfer::control_of(
                    self.device(),
                    0x01,
                    0x02,
                    0,
                    ep.address as u16,
                    0,
                    SETUP_TIMEOUT,
                ),
            },
    {
        if head >= self.eps.video.len() {
            return Err(Error::EINVAL);
        }
        let address: u16 = self.eps.video[head].address() as u16;
        self.io.control_send(0x01, 0x02, 0, address, &[], SETUP_TIMEOUT)
    }

    /// The vendor request that commits the video engine.
    pub fn commit_video(&self) -> (r: Result<ControlTransfer, Error>)
        ensures
            r == transfer::control_of(self.device(), 0x24, 0x40, 0, 0, 0, SETUP_TIMEOUT),
    {
        self.io.control_send(0x24, 0x40, 0, 0, &[], SETUP_TIMEOUT)
    }

    /// The vendor request that reads the interface's state back.
    pub fn read_state(&self) -> (r: Result<ControlTransfer, Error>)
        ensures
            r == transfer::control_of(
                self.device(),
                0x22,
                0xc1,
                1,
                0,
                STATE_LEN as int,
                SETUP_TIMEOUT,
            ),
    {
        self.io.control_recv(0x22, 0xc1, 1, 0, STATE_LEN, SETUP_TIMEOUT)
    }
}

/// The addresses of a sequence of endpoints.
pub open spec fn addresses(eps: Seq<Endpoint<BulkOut>>) -> Seq<u8> {
    Seq::new(eps.len(), |i: int| eps[i]@.address)
}

/// The first place at or after `from` that holds `a`.
pub open spec fn first_place(addrs: Seq<u8>, a: u8, from: int) -> int
    decreases addrs.len() - from,
{
    if from >= addrs.len() || addrs[from] == a {
        from
    } else {
        first_place(addrs, a, from + 1)
    }
}

/// The queue of connector `head`.
pub open spec fn pipe_index(addrs: Seq<u8>, head: int) -> Result<usize, Error> {
    if 0 <= head < addrs.len() {
        Ok(first_place(addrs, addrs[head], 0) as usize)
    } else {
        Err(Error::EINVAL)
    }
}

proof fn lemma_first_from(addrs: Seq<u8>, a: u8, from: int, at: int)
    requires
        0 <= from <= at < addrs.len(),
        addrs[at] == a,
        forall|j: int| from <= j < at ==> #[trigger] addrs[j] != a,
    ensures
        first_place(addrs, a, from) == at,
    decreases at - from,
{
    if from < at {
        lemma_first_from(addrs, a, from + 1, at);
    }
}

proof fn lemma_first_place(addrs: Seq<u8>, a: u8, at: int)
    requires
        0 <= at < addrs.len(),
        addrs[at] == a,
        forall|j: int| 0 <= j < at ==> #[trigger] addrs[j] != a,
    ensures
        first_place(addrs, a, 0) == at,
{
    lemma_first_from(addrs, a, 0, at);
}

proof fn lemma_first_is_first(addrs: Seq<u8>, a: u8, from: int, head: int)
    requires
        0 <= from <= head < addrs.len(),
        addrs[head] == a,
    ensures
        from <= first_place(addrs, a, from) <= head,
        addrs[first_place(addrs, a, from)] == a,
    decreases head - from,
{
    if addrs[from] != a {
        lemma_first_is_first(addrs, a, from + 1, head);
    }
}

/// Two connectors share a queue exactly where they share an endpoint, and a connector's queue is
/// that of no later one.
pub proof fn law_shared_endpoints_share_a_queue(addrs: Seq<u8>, a: int, b: int)
    requires
        0 <= a < addrs.len(),
        0 <= b < addrs.len(),
        addrs.len() <= usize::MAX,
    ensures
        pipe_index(addrs, a) == pipe_index(addrs, b) <==> addrs[a] == addrs[b],
        pipe_index(addrs, a) matches Ok(i) && i <= a && addrs[i as int] == addrs[a],
{
    lemma_first_is_first(addrs, addrs[a], 0, a);
    lemma_first_is_first(addrs, addrs[b], 0, b);
}

/// The control endpoints are found at their own addresses, one for each direction.
pub proof fn law_control_has_an_endpoint_each_way(
    intf: Interface,
    out: endpoint::EndpointState,
    into: endpoint::EndpointState,
)
    requires
        endpoint::looked_up::<BulkOut>(intf, EP_CTRL_OUT, Ok(out)),
        endpoint::looked_up::<BulkIn>(intf, EP_CTRL_IN, Ok(into)),
    ensures
        out.address == 0x02,
        into.address == 0x84,
{
    endpoint::law_found_endpoints_are_of_their_kind::<BulkOut>(intf, EP_CTRL_OUT, out);
    endpoint::law_found_endpoints_are_of_their_kind::<BulkIn>(intf, EP_CTRL_IN, into);
}

/// A request of the link's own waits for a second.
pub proof fn law_link_requests_wait_for_a_second(
    device: u32,
    request: u8,
    request_type: u8,
    value: u16,
    index: u16,
    len: int,
)
    requires
        0 <= len <= u16::MAX,
    ensures
        transfer::control_of(
            device,
            request,
            request_type,
            value,
            index,
            len,
            SETUP_TIMEOUT,
        ) matches Ok(t) && t.millis == 1000 && t.len == len,
{
}

} // verus!
