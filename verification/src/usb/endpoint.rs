//! Interfaces, and endpoints checked to be of a kind.

use vstd::prelude::*;

use std::marker::PhantomData;

use crate::error::Error;
use crate::usb::descriptor;
use crate::usb::descriptor::{Direction, HostEndpoint, HostInterface};
use crate::usb::device::Device;
use crate::usb::pipe;
use crate::usb::pipe::Pipe;

verus! {

/// Keeps the kinds of endpoint to those of this module.
pub trait Sealed {}

/// The transfer type and direction of an endpoint.
pub trait EndpointKind: Sealed {
    /// The transfer type an endpoint must have.
    spec fn xfer() -> u8;

    /// Whether it must lead from device to host.
    spec fn input() -> bool;

    /// The type of its pipe.
    spec fn pipe_kind() -> u32;

    /// The transfer type an endpoint must have.
    fn xfer_type() -> (t: u8)
        ensures
            t == Self::xfer(),
    ;

    /// Whether it must lead from device to host.
    fn dir_in() -> (b: bool)
        ensures
            b == Self::input(),
    ;

    /// The pipe of an endpoint of this kind.
    fn pipe(dev: &Device, endpoint: &HostEndpoint) -> (p: Pipe)
        ensures
            p == pipe::pipe_of(Self::pipe_kind(), *dev, *endpoint, Self::input()),
    ;
}

/// Marker for a bulk endpoint from device to host.
#[derive(Clone, Copy, Debug)]
pub enum BulkIn {
    Marker,
}

/// Marker for a bulk endpoint from host to device.
#[derive(Clone, Copy, Debug)]
pub enum BulkOut {
    Marker,
}

/// Marker for an interrupt endpoint from device to host.
#[derive(Clone, Copy, Debug)]
pub enum InterruptIn {
    Marker,
}

impl Sealed for BulkIn {}

impl Sealed for BulkOut {}

impl Sealed for InterruptIn {}

impl EndpointKind for BulkIn {
    open spec fn xfer() -> u8 {
        2
    }

    open spec fn input() -> bool {
        true
    }

    open spec fn pipe_kind() -> u32 {
        pipe::PIPE_BULK
    }

    fn xfer_type() -> (t: u8) {
        2
    }

    fn dir_in() -> (b: bool) {
        true
    }

    fn pipe(dev: &Device, endpoint: &HostEndpoint) -> (p: Pipe) {
        Pipe::new_receive_bulk_pipe(dev, endpoint)
    }
}

impl EndpointKind for BulkOut {
    open spec fn xfer() -> u8 {
        2
    }

    open spec fn input() -> bool {
        false
    }

    open spec fn pipe_kind() -> u32 {
        pipe::PIPE_BULK
    }

    fn xfer_type() -> (t: u8) {
        2
    }

    fn dir_in() -> (b: bool) {
        false
    }

    fn pipe(dev: &Device, endpoint: &HostEndpoint) -> (p: Pipe) {
        Pipe::new_send_bulk_pipe(dev, endpoint)
    }
}

impl EndpointKind for InterruptIn {
    open spec fn xfer() -> u8 {
        3
    }

    open spec fn input() -> bool {
        true
    }

    open spec fn pipe_kind() -> u32 {
        pipe::PIPE_INTERRUPT
    }

    fn xfer_type() -> (t: u8) {
        3
    }

    fn dir_in() -> (b: bool) {
        true
    }

    fn pipe(dev: &Device, endpoint: &HostEndpoint) -> (p: Pipe) {
        Pipe::new_receive_int_pipe(dev, endpoint)
    }
}

/// An endpoint that was looked up in an interface's active setting and found to be of kind `K`.
#[derive(Debug)]
pub struct Endpoint<K: EndpointKind> {
    addr: u8,
    max_packet: u16,
    at: Pipe,
    kind: PhantomData<K>,
}

/// What is known of an endpoint.
pub ghost struct EndpointState {
    pub address: u8,
    pub max_packet: u16,
    pub pipe: Pipe,
}

impl<K: EndpointKind> View for Endpoint<K> {
    type V = EndpointState;

    closed spec fn view(&self) -> EndpointState {
        EndpointState { address: self.addr, max_packet: self.max_packet, pipe: self.at }
    }
}

impl<K: EndpointKind> Endpoint<K> {
    /// The endpoint's address, with its direction bit.
    pub fn address(&self) -> (a: u8)
        ensures
            a == self@.address,
    {
        self.addr
    }

    /// The largest packet the endpoint takes.
    pub fn max_packet_size(&self) -> (n: u16)
        ensures
            n == self@.max_packet,
    {
        self.max_packet
    }

    /// The endpoint's pipe.
    pub fn pipe(&self) -> (p: Pipe)
        ensures
            p == self@.pipe,
    {
        self.at
    }

    /// The same endpoint again.
    pub fn copied(&self) -> (e: Endpoint<K>)
        ensures
            e@ == self@,
    {
        Endpoint { addr: self.addr, max_packet: self.max_packet, at: self.at, kind: PhantomData }
    }
}

/// An interface: the device it belongs to and its settings, one of which may be active.
#[derive(Debug)]
pub struct Interface {
    /// The device.
    pub device: Device,
    /// The active setting.
    pub active: Option<HostInterface>,
    /// All settings.
    pub settings: Vec<HostInterface>,
}

/// A request to select an alternate setting.
#[derive(Clone, Copy, Debug, PartialEq, Eq, Structural)]
pub struct SetInterface {
    /// The interface.
    pub interface: u8,
    /// The setting.
    pub altsetting: u8,
}

/// Whether endpoint `i` is the first of address `addr`.
pub open spec fn is_first(eps: Seq<HostEndpoint>, addr: u8, i: int) -> bool {
    &&& 0 <= i < eps.len()
    &&& descriptor::address_of(eps[i]) == addr
    &&& forall|j: int| 0 <= j < i ==> descriptor::address_of(#[trigger] eps[j]) != addr
}

/// Whether an endpoint is of a kind.
pub open spec fn is_of_kind<K: EndpointKind>(ep: HostEndpoint) -> bool {
    (descriptor::dir_of(ep) is In) == K::input() && descriptor::xfer_number(
        descriptor::type_of(ep),
    ) == K::xfer()
}

/// Whether looking an address up comes to `r`: no active setting is no device; no endpoint of
/// that address is no entry; the first one of it must be of the kind, and is then the result.
pub open spec fn looked_up<K: EndpointKind>(
    intf: Interface,
    addr: u8,
    r: Result<EndpointState, Error>,
) -> bool {
    match intf.active {
        None => r == Err::<EndpointState, Error>(Error::ENODEV),
        Some(alt) => {
            let eps = alt.endpoint@;
            if exists|i: int| is_first(eps, addr, i) {
                let i = choose|i: int| is_first(eps, addr, i);
                if is_of_kind::<K>(eps[i]) {
                    r == Ok::<EndpointState, Error>(
                        EndpointState {
                            address: addr,
                            max_packet: (eps[i].packet % 2048) as u16,
                            pipe: pipe::pipe_of(K::pipe_kind(), intf.device, eps[i], K::input()),
                        },
                    )
                } else {
                    r == Err::<EndpointState, Error>(Error::EINVAL)
                }
            } else {
                r == Err::<EndpointState, Error>(Error::ENOENT)
            }
        },
    }
}

/// What a lookup came to, as far as is known of an endpoint.
pub open spec fn lookup_view<K: EndpointKind>(r: Result<Endpoint<K>, Error>) -> Result<
    EndpointState,
    Error,
> {
    match r {
        Ok(e) => Ok(e@),
        Err(e) => Err(e),
    }
}

impl Interface {
    /// The interface's number; `None` without an active setting.
    pub fn number(&self) -> (n: Option<u8>)
        ensures
            n == (match self.active {
                Some(alt) => Some(alt.interface_number),
                None => None,
            }),
    {
        match &self.active {
            Some(alt) => Some(alt.number()),
            None => None,
        }
    }

    /// The settings of the interface.
    pub fn altsettings(&self) -> (s: &[HostInterface])
        ensures
            s@ == self.settings@,
    {
        self.settings.as_slice()
    }

    /// The active setting.
    pub fn cur_altsetting(&self) -> (s: &HostInterface)
        requires
            self.active is Some,
        ensures
            self.active == Some(*s),
    {
        self.active.as_ref().unwrap()
    }

    /// The request that selects an alternate setting of this interface.
    pub fn set_interface(&self, altsetting: u8) -> (r: SetInterface)
        requires
            self.active is Some,
        ensures
            r == (SetInterface { interface: self.active->0.interface_number, altsetting }),
    {
        SetInterface { interface: self.cur_altsetting().number(), altsetting }
    }

    /// Look `addr` up in the active setting as an endpoint of kind `K`.
    ///
    /// `ENODEV` without an active setting, `ENOENT` where no endpoint has that address, and
    /// `EINVAL` where one does but its direction or transfer type is another.
    pub fn endpoint<K: EndpointKind>(&self, addr: u8) -> (r: Result<Endpoint<K>, Error>)
        ensures
            looked_up::<K>(*self, addr, lookup_view(r)),
    {
        let alt = match &self.active {
            Some(alt) => alt,
            None => {
                return Err(Error::ENODEV);
            },
        };
        let eps = alt.endpoints();
        let mut i: usize = 0;
        while i < eps.len()
            invariant
                i <= eps@.len(),
                self.active is Some,
                eps@ == self.active->0.endpoint@,
                forall|j: int| 0 <= j < i ==> descriptor::address_of(#[trigger] eps@[j]) != addr,
            decreases eps@.len() - i,
        {
            let ep = eps[i];
            if ep.full_address() == addr {
                proof {
                    assert(is_first(eps@, addr, i as int));
                    let k = choose|k: int| is_first(eps@, addr, k);
                    assert(k == i) by {
                        if k < i {
                            assert(descriptor::address_of(eps@[k]) != addr);
                        } else if i < k {
                            assert(descriptor::address_of(eps@[i as int]) != addr);
                        }
                    }
                }
                let is_in = match ep.endpoint_dir() {
                    Direction::In => true,
                    Direction::Out => false,
                };
                if is_in != K::dir_in() || ep.endpoint_type().number() != K::xfer_type() {
                    return Err(Error::EINVAL);
                }
                return Ok(
                    Endpoint {
                        addr,
                        max_packet: ep.maxp(),
                        at: K::pipe(&self.device, &ep),
                        kind: PhantomData,
                    },
                );
            }
            i += 1;
        }
        assert(forall|k: int| !is_first(eps@, addr, k));
        Err(Error::ENOENT)
    }
}

/// An endpoint that was found has the address that was asked for, and that address carries the
/// direction of its kind: a transfer cannot be aimed the wrong way.
pub proof fn law_found_endpoints_are_of_their_kind<K: EndpointKind>(
    intf: Interface,
    addr: u8,
    e: EndpointState,
)
    requires
        looked_up::<K>(intf, addr, Ok(e)),
    ensures
        e.address == addr,
        addr >= descriptor::USB_DIR_IN <==> K::input(),
        e.max_packet < 2048,
{
}

/// The first endpoint at an address decides: it is found where its direction and its type are
/// those asked for, with its own packet size, and is invalid otherwise.
pub proof fn law_the_first_endpoint_decides<K: EndpointKind>(
    intf: Interface,
    alt: HostInterface,
    addr: u8,
    i: int,
    r: Result<EndpointState, Error>,
)
    requires
        intf.active == Some(alt),
        is_first(alt.endpoint@, addr, i),
        looked_up::<K>(intf, addr, r),
    ensures
        r is Ok <==> (addr >= 128) == K::input() && alt.endpoint@[i].attributes % 4 == K::xfer(),
        r matches Ok(e) ==> e.address == addr && e.max_packet == alt.endpoint@[i].packet % 2048,
        r matches Ok(e) ==> e.pipe == pipe::pipe_of(
            K::pipe_kind(),
            intf.device,
            alt.endpoint@[i],
            K::input(),
        ),
        r matches Err(e) ==> e == Error::EINVAL,
{
    let eps = alt.endpoint@;
    let k = choose|k: int| is_first(eps, addr, k);
    assert(is_first(eps, addr, k));
    if k < i {
        assert(descriptor::address_of(eps[k]) != addr);
    }
    if i < k {
        assert(descriptor::address_of(eps[i]) != addr);
    }
    assert(k == i);
}

/// Without an active setting there is no device to ask, and an address no endpoint has is missing.
pub proof fn law_missing_endpoints_are_told_apart<K: EndpointKind>(
    intf: Interface,
    addr: u8,
    r: Result<EndpointState, Error>,
)
    requires
        looked_up::<K>(intf, addr, r),
    ensures
        intf.active is None ==> r == Err::<EndpointState, Error>(Error::ENODEV),
        intf.active matches Some(alt) && (forall|i: int|
            0 <= i < alt.endpoint@.len() ==> descriptor::address_of(#[trigger] alt.endpoint@[i])
                != addr) ==> r == Err::<EndpointState, Error>(Error::ENOENT),
{
}

/// The kinds of endpoints are those of their names.
pub proof fn law_kinds_are_those_of_their_names()
    ensures
        BulkIn::input() && !BulkOut::input() && InterruptIn::input(),
        BulkIn::xfer() == 2 && BulkOut::xfer() == 2 && InterruptIn::xfer() == 3,
        BulkIn::pipe_kind() == 3 && BulkOut::pipe_kind() == 3 && InterruptIn::pipe_kind() == 1,
{
}

} // verus!
