//! Interface and endpoint descriptors.

use vstd::prelude::*;

verus! {

/// Direction bit of an endpoint address.
pub const USB_DIR_IN: u8 = 0x80;

/// Number bits of an endpoint address.
pub const USB_ENDPOINT_NUMBER_MASK: u8 = 0x0f;

/// Transfer-type bits of an endpoint's attributes.
pub const USB_ENDPOINT_XFERTYPE_MASK: u8 = 0x03;

/// Packet-size bits of an endpoint's packet field.
pub const USB_ENDPOINT_MAXP_MASK: u16 = 0x07ff;

/// Multiplier bits of an endpoint's packet field.
pub const USB_EP_MAXP_MULT_MASK: u16 = 0x1800;

/// Where the multiplier bits start.
pub const USB_EP_MAXP_MULT_SHIFT: u16 = 11;

/// Direction of a transfer.
#[derive(Clone, Copy, Debug, PartialEq, Eq, Structural)]
pub enum Direction {
    /// From host to device.
    Out,
    /// From device to host.
    In,
}

/// The class of an interface.
#[derive(Clone, Copy, Debug, PartialEq, Eq, Structural)]
pub struct InterfaceClass(pub u8);

/// Transfer type of an endpoint.
#[derive(Clone, Copy, Debug, PartialEq, Eq, Structural)]
pub enum EndpointType {
    /// Control endpoint.
    Control,
    /// Isochronous endpoint.
    Isoc,
    /// Bulk endpoint.
    Bulk,
    /// Interrupt endpoint.
    Int,
}

/// The number of a transfer type.
pub open spec fn xfer_number(t: EndpointType) -> u8 {
    match t {
        EndpointType::Control => 0,
        EndpointType::Isoc => 1,
        EndpointType::Bulk => 2,
        EndpointType::Int => 3,
    }
}

/// An endpoint descriptor.
#[derive(Clone, Copy, Debug, PartialEq, Eq, Structural)]
pub struct HostEndpoint {
    /// `bEndpointAddress`.
    pub address: u8,
    /// `bmAttributes`.
    pub attributes: u8,
    /// `wMaxPacketSize`.
    pub packet: u16,
    /// `bInterval`.
    pub poll: u8,
}

/// Direction of an endpoint: the high bit of its address.
pub open spec fn dir_of(ep: HostEndpoint) -> Direction {
    if ep.address < USB_DIR_IN {
        Direction::Out
    } else {
        Direction::In
    }
}

/// Number of an endpoint: the low four bits of its address.
pub open spec fn number_of(ep: HostEndpoint) -> int {
    ep.address as int % 16
}

/// Address of an endpoint as its direction and number give it; reserved bits are dropped.
pub open spec fn address_of(ep: HostEndpoint) -> int {
    number_of(ep) + if dir_of(ep) is In {
        USB_DIR_IN as int
    } else {
        0
    }
}

/// Transfer type of an endpoint: the low two bits of its attributes.
pub open spec fn type_of(ep: HostEndpoint) -> EndpointType {
    if ep.attributes % 4 == 0 {
        EndpointType::Control
    } else if ep.attributes % 4 == 1 {
        EndpointType::Isoc
    } else if ep.attributes % 4 == 2 {
        EndpointType::Bulk
    } else {
        EndpointType::Int
    }
}

impl HostEndpoint {
    /// The endpoint's direction.
    pub fn endpoint_dir(&self) -> (d: Direction)
        ensures
            d == dir_of(*self),
    {
        let a: u8 = self.address;
        assert((a & 0x80 == 0) == (a < 0x80)) by (bit_vector);
        if a & USB_DIR_IN == 0 {
            Direction::Out
        } else {
            Direction::In
        }
    }

    /// The endpoint's number.
    pub fn endpoint_number(&self) -> (n: u8)
        ensures
            n == number_of(*self),
            n < 16,
    {
        let a: u8 = self.address;
        assert(a & 0x0f == a % 16) by (bit_vector);
        a & USB_ENDPOINT_NUMBER_MASK
    }

    /// The endpoint's transfer type.
    pub fn endpoint_type(&self) -> (t: EndpointType)
        ensures
            t == type_of(*self),
    {
        let a: u8 = self.attributes;
        assert(a & 0x03 == a % 4) by (bit_vector);
        match a & USB_ENDPOINT_XFERTYPE_MASK {
            0 => EndpointType::Control,
            1 => EndpointType::Isoc,
            2 => EndpointType::Bulk,
            _ => EndpointType::Int,
        }
    }

    /// The interval of an interrupt or isochronous endpoint.
    pub fn interval(&self) -> (i: u8)
        ensures
            i == self.poll,
    {
        self.poll
    }

    /// The largest packet the endpoint takes: the low eleven bits of its packet field.
    pub fn maxp(&self) -> (n: u16)
        ensures
            n == self.packet % 2048,
    {
        let p: u16 = self.packet;
        assert(p & 0x07ff == p % 2048) by (bit_vector);
        p & USB_ENDPOINT_MAXP_MASK
    }

    /// The high-speed multiplier of an isochronous endpoint: the two bits above the packet size.
    pub fn maxp_mult(&self) -> (n: u16)
        ensures
            n == (self.packet / 2048) % 4,
    {
        let p: u16 = self.packet;
        assert((p & 0x1800) >> 11 == (p / 2048) % 4) by (bit_vector);
        (p & USB_EP_MAXP_MULT_MASK) >> USB_EP_MAXP_MULT_SHIFT
    }

    /// The endpoint's address as its direction and number give it.
    pub fn full_address(&self) -> (a: u8)
        ensures
            a == address_of(*self),
    {
        match self.endpoint_dir() {
            Direction::In => self.endpoint_number() + USB_DIR_IN,
            Direction::Out => self.endpoint_number(),
        }
    }
}

impl EndpointType {
    /// The number of the transfer type.
    pub fn number(self) -> (n: u8)
        ensures
            n == xfer_number(self),
    {
        match self {
            EndpointType::Control => 0,
            EndpointType::Isoc => 1,
            EndpointType::Bulk => 2,
            EndpointType::Int => 3,
        }
    }

    /// The name of the transfer type.
    pub fn name(self) -> (s: &'static str)
        ensures
            s@ == (match self {
                EndpointType::Control => "control"@,
                EndpointType::Isoc => "isoc"@,
                EndpointType::Bulk => "bulk"@,
                EndpointType::Int => "int"@,
            }),
    {
        match self {
            EndpointType::Control => "control",
            EndpointType::Isoc => "isoc",
            EndpointType::Bulk => "bulk",
            EndpointType::Int => "int",
        }
    }
}

impl Direction {
    /// The name of the direction.
    pub fn name(self) -> (s: &'static str)
        ensures
            s@ == (match self {
                Direction::Out => "out"@,
                Direction::In => "in"@,
            }),
    {
        match self {
            Direction::Out => "out",
            Direction::In => "in",
        }
    }
}

/// An alternate setting of an interface.
#[derive(Debug)]
pub struct HostInterface {
    /// `bInterfaceNumber`.
    pub interface_number: u8,
    /// `bAlternateSetting`.
    pub alternate: u8,
    /// `bInterfaceClass`.
    pub interface_class: InterfaceClass,
    /// Its endpoints.
    pub endpoint: Vec<HostEndpoint>,
}

impl HostInterface {
    /// The endpoints of the setting.
    pub fn endpoints(&self) -> (e: &[HostEndpoint])
        ensures
            e@ == self.endpoint@,
    {
        self.endpoint.as_slice()
    }

    /// The number of the interface.
    pub fn number(&self) -> (n: u8)
        ensures
            n == self.interface_number,
    {
        self.interface_number
    }

    /// The number of the setting.
    pub fn alternate_setting(&self) -> (n: u8)
        ensures
            n == self.alternate,
    {
        self.alternate
    }

    /// The class of the interface.
    pub fn class(&self) -> (c: InterfaceClass)
        ensures
            c == self.interface_class,
    {
        self.interface_class
    }
}

/// An endpoint's address without reserved bits is the one its descriptor carries.
pub proof fn law_addresses_read_back(ep: HostEndpoint)
    requires
        ep.address % 128 < 16,
    ensures
        address_of(ep) == ep.address,
{
}

/// An endpoint's number is the low four bits of its address, its direction the top one, and its
/// type the low two bits of its attributes.
pub proof fn law_endpoint_fields_are_read_at_their_place(ep: HostEndpoint)
    ensures
        0 <= number_of(ep) < 16,
        (ep.address - number_of(ep)) % 16 == 0,
        dir_of(ep) is In <==> ep.address >= 128,
        xfer_number(type_of(ep)) == ep.attributes % 4,
{
}

/// The types of endpoints are numbered apart, control first, then isochronous, bulk and interrupt.
pub proof fn law_types_are_numbered_apart(a: EndpointType, b: EndpointType)
    ensures
        xfer_number(a) == xfer_number(b) <==> a == b,
        xfer_number(a) < 4,
{
}

} // verus!
