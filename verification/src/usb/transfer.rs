//! Transfers that are waited for: what is asked of the host controller, and what its answer comes
//! to.

use vstd::prelude::*;

use crate::error::Error;
use crate::usb::endpoint::{BulkIn, BulkOut, Endpoint, EndpointKind, InterruptIn};
use crate::usb::pipe::Pipe;
use crate::usb::urb;
use crate::usb::urb::to_result;
use crate::usb::window;
use crate::usb::window::{Io, timeout_millis};

verus! {

/// A transfer on an endpoint.
#[derive(Clone, Copy, Debug, PartialEq, Eq, Structural)]
pub struct Transfer {
    /// The device.
    pub device: u32,
    /// The pipe.
    pub pipe: Pipe,
    /// Bytes to transfer.
    pub len: i32,
    /// How long it may last, in milliseconds.
    pub millis: i32,
}

/// A request on the control endpoint.
#[derive(Clone, Copy, Debug, PartialEq, Eq, Structural)]
pub struct ControlTransfer {
    /// The device.
    pub device: u32,
    /// The request.
    pub request: u8,
    /// Its direction, type and recipient.
    pub request_type: u8,
    /// Its value.
    pub value: u16,
    /// Its index.
    pub index: u16,
    /// Bytes to transfer.
    pub len: u16,
    /// How long it may last, in milliseconds.
    pub millis: i32,
}

/// The transfer of `len` bytes: `EINVAL` where the timeout or the length does not fit its type.
pub open spec fn transfer_of(device: u32, pipe: Pipe, len: int, timeout: i64) -> Result<
    Transfer,
    Error,
> {
    match window::timeout_of(timeout) {
        Err(e) => Err(e),
        Ok(millis) => if len <= i32::MAX {
            Ok(Transfer { device, pipe, len: len as i32, millis })
        } else {
            Err(Error::EINVAL)
        },
    }
}

/// The control request of `len` bytes: `EINVAL` where the timeout or the length does not fit its
/// type.
pub open spec fn control_of(
    device: u32,
    request: u8,
    request_type: u8,
    value: u16,
    index: u16,
    len: int,
    timeout: i64,
) -> Result<ControlTransfer, Error> {
    match window::timeout_of(timeout) {
        Err(e) => Err(e),
        Ok(millis) => if len <= u16::MAX {
            Ok(
                ControlTransfer {
                    device,
                    request,
                    request_type,
                    value,
                    index,
                    len: len as u16,
                    millis,
                },
            )
        } else {
            Err(Error::EINVAL)
        },
    }
}

fn transfer(device: u32, pipe: Pipe, len: usize, timeout: i64) -> (r: Result<Transfer, Error>)
    ensures
        r == transfer_of(device, pipe, len as int, timeout),
{
    match timeout_millis(timeout) {
        Err(e) => Err(e),
        Ok(millis) => if len <= i32::MAX as usize {
            Ok(Transfer { device, pipe, len: len as i32, millis })
        } else {
            Err(Error::EINVAL)
        },
    }
}

fn control(
    device: u32,
    request: u8,
    request_type: u8,
    value: u16,
    index: u16,
    len: usize,
    timeout: i64,
) -> (r: Result<ControlTransfer, Error>)
    ensures
        r == control_of(device, request, request_type, value, index, len as int, timeout),
{
    match timeout_millis(timeout) {
        Err(e) => Err(e),
        Ok(millis) => if len <= u16::MAX as usize {
            Ok(
                ControlTransfer {
                    device,
                    request,
                    request_type,
                    value,
                    index,
                    len: len as u16,
                    millis,
                },
            )
        } else {
            Err(Error::EINVAL)
        },
    }
}

impl Io {
    /// The pipe whose stall is to be cleared, and its device.
    pub fn clear_halt<K: EndpointKind>(&self, endpoint: &Endpoint<K>) -> (r: (u32, Pipe))
        ensures
            r == (self@.interface.device.number, endpoint@.pipe),
    {
        (self.interface().device.number, endpoint.pipe())
    }

    /// The transfer that sends `data`.
    pub fn bulk_send(&self, endpoint: &Endpoint<BulkOut>, data: &[u8], timeout: i64) -> (r: Result<
        Transfer,
        Error,
    >)
        ensures
            r == transfer_of(
                self@.interface.device.number,
                endpoint@.pipe,
                data@.len() as int,
                timeout,
            ),
    {
        transfer(self.interface().device.number, endpoint.pipe(), data.len(), timeout)
    }

    /// The transfer that receives up to `room` bytes.
    pub fn bulk_recv(&self, endpoint: &Endpoint<BulkIn>, room: usize, timeout: i64) -> (r: Result<
        Transfer,
        Error,
    >)
        ensures
            r == transfer_of(
                self@.interface.device.number,
                endpoint@.pipe,
                room as int,
                timeout,
            ),
    {
        transfer(self.interface().device.number, endpoint.pipe(), room, timeout)
    }

    /// The transfer that receives up to `room` bytes of an interrupt.
    pub fn interrupt_recv(
        &self,
        endpoint: &Endpoint<InterruptIn>,
        room: usize,
        timeout: i64,
    ) -> (r: Result<Transfer, Error>)
        ensures
            r == transfer_of(
                self@.interface.device.number,
                endpoint@.pipe,
                room as int,
                timeout,
            ),
    {
        transfer(self.interface().device.number, endpoint.pipe(), room, timeout)
    }

    /// The control request that sends `data`.
    pub fn control_send(
        &self,
        request: u8,
        request_type: u8,
        value: u16,
        index: u16,
        data: &[u8],
        timeout: i64,
    ) -> (r: Result<ControlTransfer, Error>)
        ensures
            r == control_of(
                self@.interface.device.number,
                request,
                request_type,
                value,
                index,
                data@.len() as int,
                timeout,
            ),
    {
        control(
            self.interface().device.number,
            request,
            request_type,
            value,
            index,
            data.len(),
            timeout,
        )
    }

    /// The control request that receives exactly `room` bytes.
    pub fn control_recv(
        &self,
        request: u8,
        request_type: u8,
        value: u16,
        index: u16,
        room: usize,
        timeout: i64,
    ) -> (r: Result<ControlTransfer, Error>)
        ensures
            r == control_of(
                self@.interface.device.number,
                request,
                request_type,
                value,
                index,
                room as int,
                timeout,
            ),
    {
        control(
            self.interface().device.number,
            request,
            request_type,
            value,
            index,
            room,
            timeout,
        )
    }
}

/// Bytes that a receive hands over: those that came, as far as there is room.
pub open spec fn handed_over(actual: int, room: int) -> int {
    if actual < room {
        actual
    } else {
        room
    }
}

impl Transfer {
    /// What became of a send: the bytes that were taken, or the error.
    pub fn sent(&self, ret: i32, actual: i32) -> (r: Result<usize, Error>)
        requires
            actual >= 0,
        ensures
            r == match urb::result_of(ret) {
                Ok(()) => Ok::<usize, Error>(actual as usize),
                Err(e) => Err::<usize, Error>(e),
            },
    {
        match to_result(ret) {
            Ok(()) => Ok(actual as usize),
            Err(e) => Err(e),
        }
    }

    /// What became of a receive: on success `data` begins with what came, and nothing else of it
    /// changes.
    pub fn received(&self, ret: i32, actual: i32, buf: &[u8], data: &mut [u8]) -> (r: Result<
        usize,
        Error,
    >)
        requires
            actual >= 0,
            buf@.len() == old(data)@.len(),
        ensures
            match urb::result_of(ret) {
                Ok(()) => {
                    let n = handed_over(actual as int, old(data)@.len() as int);
                    r == Ok::<usize, Error>(n as usize) && final(data)@ == buf@.take(n) + old(
                        data,
                    )@.skip(n)
                },
                Err(e) => r == Err::<usize, Error>(e) && final(data)@ == old(data)@,
            },
    {
        match to_result(ret) {
            Ok(()) => (),
            Err(e) => {
                return Err(e);
            },
        }
        let came: usize = actual as usize;
        let room: usize = data.len();
        let n: usize = if came < room {
            came
        } else {
            room
        };
        let mut i: usize = 0;
        while i < n
            invariant
                i <= n,
                n <= old(data)@.len(),
                n <= buf@.len(),
                data@ == buf@.take(i as int) + old(data)@.skip(i as int),
            decreases n - i,
        {
            data[i] = buf[i];
            i += 1;
            assert(data@ =~= buf@.take(i as int) + old(data)@.skip(i as int));
        }
        Ok(n)
    }
}

/// A receive never hands over more than came, nor more than there was room for.
pub proof fn law_receives_stay_in_bounds(actual: int, room: int)
    requires
        0 <= actual,
        0 <= room,
    ensures
        handed_over(actual, room) <= actual,
        handed_over(actual, room) <= room,
        handed_over(actual, room) == actual || handed_over(actual, room) == room,
{
}

/// A transfer that is asked for is asked for whole: its length is that of its data.
pub proof fn law_transfers_are_whole(device: u32, pipe: Pipe, len: int, timeout: i64)
    requires
        0 <= len,
    ensures
        transfer_of(device, pipe, len, timeout) matches Ok(t) ==> t.len == len && t.pipe == pipe,
        transfer_of(device, pipe, len, timeout) is Ok <==> len <= i32::MAX && window::timeout_of(
            timeout,
        ) is Ok,
{
}

/// A control transfer is the request asked for, in every field, and refused only where its length
/// or its timeout does not fit.
pub proof fn law_requests_are_whole(
    device: u32,
    request: u8,
    request_type: u8,
    value: u16,
    index: u16,
    len: int,
    timeout: i64,
)
    requires
        0 <= len,
    ensures
        match control_of(device, request, request_type, value, index, len, timeout) {
            Ok(t) => {
                &&& t.device == device
                &&& t.request == request
                &&& t.request_type == request_type
                &&& t.value == value
                &&& t.index == index
                &&& t.len == len
                &&& window::timeout_of(timeout) == Ok::<i32, Error>(t.millis)
            },
            Err(e) => e == Error::EINVAL && (len > 0xffff || window::timeout_of(timeout) is Err),
        },
{
}

/// A transfer goes to the device it is for, and lasts as long as it may.
pub proof fn law_transfers_go_to_their_device(device: u32, pipe: Pipe, len: int, timeout: i64)
    requires
        0 <= len,
    ensures
        match transfer_of(device, pipe, len, timeout) {
            Ok(t) => t.device == device && window::timeout_of(timeout) == Ok::<i32, Error>(
                t.millis,
            ),
            Err(e) => e == Error::EINVAL && (len > 0x7fff_ffff || window::timeout_of(
                timeout,
            ) is Err),
        },
{
}

} // verus!
