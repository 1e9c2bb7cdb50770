//! Pipes: the endpoint a transfer is addressed to, in one word.

use vstd::prelude::*;

use crate::usb::descriptor;
use crate::usb::descriptor::HostEndpoint;
use crate::usb::device::Device;

verus! {

pub const PIPE_ISOCHRONOUS: u32 = 0;

pub const PIPE_INTERRUPT: u32 = 1;

pub const PIPE_CONTROL: u32 = 2;

pub const PIPE_BULK: u32 = 3;

/// The direction bit of a pipe.
pub const PIPE_DIR_IN: u32 = 0x80;

/// The endpoint a transfer is addressed to: transfer type from bit 30, endpoint number from bit
/// 15, device number from bit 8, direction in bit 7.
#[derive(Clone, Copy, Debug, PartialEq, Eq, Structural)]
pub struct Pipe(pub u32);

/// The word of a pipe.
pub open spec fn word(kind: u32, devnum: u32, endpoint: u32, dir: u32) -> u32 {
    (kind << 30) | (devnum << 8) | (endpoint << 15) | dir
}

/// The pipe of an endpoint.
pub open spec fn pipe_of(kind: u32, dev: Device, ep: HostEndpoint, input: bool) -> Pipe {
    Pipe(
        word(
            kind,
            dev.number,
            descriptor::number_of(ep) as u32,
            if input {
                PIPE_DIR_IN
            } else {
                0
            },
        ),
    )
}

/// The control pipe of a device, which is endpoint zero.
pub open spec fn control_pipe(dev: Device, input: bool) -> Pipe {
    Pipe(
        word(
            PIPE_CONTROL,
            dev.number,
            0,
            if input {
                PIPE_DIR_IN
            } else {
                0
            },
        ),
    )
}

impl Pipe {
    /// Assemble a pipe.
    fn assemble(kind: u32, dev: &Device, endpoint: u32, input: bool) -> (p: Pipe)
        requires
            kind < 4,
        ensures
            p == Pipe(
                word(
                    kind,
                    dev.number,
                    endpoint,
                    if input {
                        PIPE_DIR_IN
                    } else {
                        0
                    },
                ),
            ),
    {
        let dir: u32 = if input {
            PIPE_DIR_IN
        } else {
            0
        };
        Pipe((kind << 30) | (dev.devnum() << 8) | (endpoint << 15) | dir)
    }

    /// The control pipe towards a device.
    pub fn new_send_control_pipe(dev: &Device) -> (p: Pipe)
        ensures
            p == control_pipe(*dev, false),
    {
        Pipe::assemble(PIPE_CONTROL, dev, 0, false)
    }

    /// The control pipe from a device.
    pub fn new_receive_control_pipe(dev: &Device) -> (p: Pipe)
        ensures
            p == control_pipe(*dev, true),
    {
        Pipe::assemble(PIPE_CONTROL, dev, 0, true)
    }

    /// An isochronous pipe from a device.
    pub fn new_receive_isoc_pipe(dev: &Device, endpoint: &HostEndpoint) -> (p: Pipe)
        ensures
            p == pipe_of(PIPE_ISOCHRONOUS, *dev, *endpoint, true),
    {
        Pipe::assemble(PIPE_ISOCHRONOUS, dev, endpoint.endpoint_number() as u32, true)
    }

    /// An isochronous pipe towards a device.
    pub fn new_send_isoc_pipe(dev: &Device, endpoint: &HostEndpoint) -> (p: Pipe)
        ensures
            p == pipe_of(PIPE_ISOCHRONOUS, *dev, *endpoint, false),
    {
        Pipe::assemble(PIPE_ISOCHRONOUS, dev, endpoint.endpoint_number() as u32, false)
    }

    /// A bulk pipe towards a device.
    pub fn new_send_bulk_pipe(dev: &Device, endpoint: &HostEndpoint) -> (p: Pipe)
        ensures
            p == pipe_of(PIPE_BULK, *dev, *endpoint, false),
    {
        Pipe::assemble(PIPE_BULK, dev, endpoint.endpoint_number() as u32, false)
    }

    /// A bulk pipe from a device.
    pub fn new_receive_bulk_pipe(dev: &Device, endpoint: &HostEndpoint) -> (p: Pipe)
        ensures
            p == pipe_of(PIPE_BULK, *dev, *endpoint, true),
    {
        Pipe::assemble(PIPE_BULK, dev, endpoint.endpoint_number() as u32, true)
    }

    /// An interrupt pipe towards a device.
    pub fn new_send_int_pipe(dev: &Device, endpoint: &HostEndpoint) -> (p: Pipe)
        ensures
            p == pipe_of(PIPE_INTERRUPT, *dev, *endpoint, false),
    {
        Pipe::assemble(PIPE_INTERRUPT, dev, endpoint.endpoint_number() as u32, false)
    }

    /// An interrupt pipe from a device.
    pub fn new_receive_int_pipe(dev: &Device, endpoint: &HostEndpoint) -> (p: Pipe)
        ensures
            p == pipe_of(PIPE_INTERRUPT, *dev, *endpoint, true),
    {
        Pipe::assemble(PIPE_INTERRUPT, dev, endpoint.endpoint_number() as u32, true)
    }
}

/// A pipe's four fields read back, so that two pipes are equal only where all of them are.
pub proof fn law_pipe_fields_read_back(kind: u32, devnum: u32, endpoint: u32, dir: u32)
    requires
        kind < 4,
        devnum < 128,
        endpoint < 16,
        dir == 0 || dir == PIPE_DIR_IN,
    ensures
        word(kind, devnum, endpoint, dir) >> 30 == kind,
        (word(kind, devnum, endpoint, dir) >> 8) & 0x7f == devnum,
        (word(kind, devnum, endpoint, dir) >> 15) & 0x0f == endpoint,
        word(kind, devnum, endpoint, dir) & 0x80 == dir,
{
    let w = (kind << 30) | (devnum << 8) | (endpoint << 15) | dir;
    assert(w >> 30 == kind && (w >> 8) & 0x7f == devnum && (w >> 15) & 0x0f == endpoint && w & 0x80
        == dir) by (bit_vector)
        requires
            kind < 4,
            devnum < 128,
            endpoint < 16,
            dir == 0 || dir == 0x80,
            w == (kind << 30) | (devnum << 8) | (endpoint << 15) | dir,
    ;
}

/// A pipe leads to its endpoint: its kind, its device, its endpoint's number and its direction are
/// read back from it.
pub proof fn law_pipes_lead_to_their_endpoint(kind: u32, dev: Device, ep: HostEndpoint, input: bool)
    requires
        kind < 4,
        dev.number < 128,
    ensures
        pipe_of(kind, dev, ep, input).0 >> 30 == kind,
        (pipe_of(kind, dev, ep, input).0 >> 8) & 0x7f == dev.number,
        (pipe_of(kind, dev, ep, input).0 >> 15) & 0x0f == ep.address % 16,
        pipe_of(kind, dev, ep, input).0 & 0x80 == if input {
            0x80u32
        } else {
            0
        },
{
    law_pipe_fields_read_back(
        kind,
        dev.number,
        descriptor::number_of(ep) as u32,
        if input {
            PIPE_DIR_IN
        } else {
            0
        },
    );
}

/// A control pipe leads to the device's endpoint zero.
pub proof fn law_control_pipes_lead_to_endpoint_zero(dev: Device, input: bool)
    requires
        dev.number < 128,
    ensures
        control_pipe(dev, input).0 >> 30 == 2,
        (control_pipe(dev, input).0 >> 8) & 0x7f == dev.number,
        (control_pipe(dev, input).0 >> 15) & 0x0f == 0,
        control_pipe(dev, input).0 & 0x80 == if input {
            0x80u32
        } else {
            0
        },
{
    law_pipe_fields_read_back(
        PIPE_CONTROL,
        dev.number,
        0,
        if input {
            PIPE_DIR_IN
        } else {
            0
        },
    );
}

} // verus!
