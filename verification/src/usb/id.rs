//! Device identifiers: which devices and interfaces a driver is offered.

use vstd::prelude::*;

verus! {

pub const MATCH_VENDOR: u16 = 0x0001;

pub const MATCH_INT_CLASS: u16 = 0x0080;

pub const MATCH_INT_PROTOCOL: u16 = 0x0200;

pub const MATCH_INT_NUMBER: u16 = 0x0400;

/// Vendor and product.
pub const MATCH_DEVICE: u16 = 0x0003;

/// Vendor, product and a range of revisions.
pub const MATCH_DEVICE_AND_VERSION: u16 = 0x000f;

/// Class, subclass and protocol of the device.
pub const MATCH_DEV_INFO: u16 = 0x0070;

/// Class, subclass and protocol of the interface.
pub const MATCH_INT_INFO: u16 = 0x0380;

/// An identifier: the fields whose flag is set must match.
#[derive(Clone, Copy, Debug, PartialEq, Eq, Structural)]
pub struct DeviceId {
    /// The fields that must match.
    pub match_flags: u16,
    /// The vendor.
    pub vendor: u16,
    /// The product.
    pub product: u16,
    /// The lowest revision.
    pub bcd_lo: u16,
    /// The highest revision.
    pub bcd_hi: u16,
    /// The device's class.
    pub device_class: u8,
    /// The device's subclass.
    pub device_subclass: u8,
    /// The device's protocol.
    pub device_protocol: u8,
    /// The interface's class.
    pub interface_class: u8,
    /// The interface's subclass.
    pub interface_subclass: u8,
    /// The interface's protocol.
    pub interface_protocol: u8,
    /// The interface's number.
    pub interface_number: u8,
}

/// An identifier that matches every device.
pub open spec fn any_device() -> DeviceId {
    DeviceId {
        match_flags: 0,
        vendor: 0,
        product: 0,
        bcd_lo: 0,
        bcd_hi: 0,
        device_class: 0,
        device_subclass: 0,
        device_protocol: 0,
        interface_class: 0,
        interface_subclass: 0,
        interface_protocol: 0,
        interface_number: 0,
    }
}

/// Interfaces of a class on a vendor's devices.
pub open spec fn vendor_interface(vendor: u16, class: u8, subclass: u8, protocol: u8) -> DeviceId {
    DeviceId {
        match_flags: 0x0381,
        vendor,
        interface_class: class,
        interface_subclass: subclass,
        interface_protocol: protocol,
        ..any_device()
    }
}

impl DeviceId {
    /// An identifier that matches every device.
    fn zeroed() -> (id: DeviceId)
        ensures
            id == any_device(),
    {
        DeviceId {
            match_flags: 0,
            vendor: 0,
            product: 0,
            bcd_lo: 0,
            bcd_hi: 0,
            device_class: 0,
            device_subclass: 0,
            device_protocol: 0,
            interface_class: 0,
            interface_subclass: 0,
            interface_protocol: 0,
            interface_number: 0,
        }
    }

    /// One product of one vendor.
    pub fn from_id(vendor: u16, product: u16) -> (id: DeviceId)
        ensures
            id == (DeviceId { match_flags: MATCH_DEVICE, vendor, product, ..any_device() }),
    {
        DeviceId { match_flags: MATCH_DEVICE, vendor, product, ..DeviceId::zeroed() }
    }

    /// A range of revisions of one product.
    pub fn from_device_ver(vendor: u16, product: u16, bcd_lo: u16, bcd_hi: u16) -> (id: DeviceId)
        ensures
            id == (DeviceId {
                match_flags: MATCH_DEVICE_AND_VERSION,
                vendor,
                product,
                bcd_lo,
                bcd_hi,
                ..any_device()
            }),
    {
        DeviceId {
            match_flags: MATCH_DEVICE_AND_VERSION,
            vendor,
            product,
            bcd_lo,
            bcd_hi,
            ..DeviceId::zeroed()
        }
    }

    /// Devices of a class.
    pub fn from_device_info(class: u8, subclass: u8, protocol: u8) -> (id: DeviceId)
        ensures
            id == (DeviceId {
                match_flags: MATCH_DEV_INFO,
                device_class: class,
                device_subclass: subclass,
                device_protocol: protocol,
                ..any_device()
            }),
    {
        DeviceId {
            match_flags: MATCH_DEV_INFO,
            device_class: class,
            device_subclass: subclass,
            device_protocol: protocol,
            ..DeviceId::zeroed()
        }
    }

    /// Interfaces of a class.
    pub fn from_interface_info(class: u8, subclass: u8, protocol: u8) -> (id: DeviceId)
        ensures
            id == (DeviceId {
                match_flags: MATCH_INT_INFO,
                interface_class: class,
                interface_subclass: subclass,
                interface_protocol: protocol,
                ..any_device()
            }),
    {
        DeviceId {
            match_flags: MATCH_INT_INFO,
            interface_class: class,
            interface_subclass: subclass,
            interface_protocol: protocol,
            ..DeviceId::zeroed()
        }
    }

    /// Interfaces of a class on any product of one vendor.
    pub fn from_vendor_and_interface_info(
        vendor: u16,
        class: u8,
        subclass: u8,
        protocol: u8,
    ) -> (id: DeviceId)
        ensures
            id == vendor_interface(vendor, class, subclass, protocol),
    {
        assert(0x0001u16 | 0x0380u16 == 0x0381u16) by (bit_vector);
        DeviceId {
            match_flags: MATCH_VENDOR | MATCH_INT_INFO,
            vendor,
            interface_class: class,
            interface_subclass: subclass,
            interface_protocol: protocol,
            ..DeviceId::zeroed()
        }
    }

    /// Interfaces of a class, whatever their subclass, on one product.
    pub fn from_device_interface_class(vendor: u16, product: u16, class: u8) -> (id: DeviceId)
        ensures
            id == (DeviceId {
                match_flags: 0x0083,
                vendor,
                product,
                interface_class: class,
                ..any_device()
            }),
    {
        assert(0x0003u16 | 0x0080u16 == 0x0083u16) by (bit_vector);
        DeviceId {
            match_flags: MATCH_DEVICE | MATCH_INT_CLASS,
            vendor,
            product,
            interface_class: class,
            ..DeviceId::zeroed()
        }
    }

    /// Interfaces of a protocol on one product.
    pub fn from_device_interface_protocol(vendor: u16, product: u16, protocol: u8) -> (id: DeviceId)
        ensures
            id == (DeviceId {
                match_flags: 0x0203,
                vendor,
                product,
                interface_protocol: protocol,
                ..any_device()
            }),
    {
        assert(0x0003u16 | 0x0200u16 == 0x0203u16) by (bit_vector);
        DeviceId {
            match_flags: MATCH_DEVICE | MATCH_INT_PROTOCOL,
            vendor,
            product,
            interface_protocol: protocol,
            ..DeviceId::zeroed()
        }
    }

    /// One interface of one product.
    pub fn from_device_interface_number(vendor: u16, product: u16, number: u8) -> (id: DeviceId)
        ensures
            id == (DeviceId {
                match_flags: 0x0403,
                vendor,
                product,
                interface_number: number,
                ..any_device()
            }),
    {
        assert(0x0003u16 | 0x0400u16 == 0x0403u16) by (bit_vector);
        DeviceId {
            match_flags: MATCH_DEVICE | MATCH_INT_NUMBER,
            vendor,
            product,
            interface_number: number,
            ..DeviceId::zeroed()
        }
    }

    /// Interfaces of a class on one product.
    pub fn from_device_and_interface_info(
        vendor: u16,
        product: u16,
        class: u8,
        subclass: u8,
        protocol: u8,
    ) -> (id: DeviceId)
        ensures
            id == (DeviceId {
                match_flags: 0x0383,
                vendor,
                product,
                interface_class: class,
                interface_subclass: subclass,
                interface_protocol: protocol,
                ..any_device()
            }),
    {
        assert(0x0380u16 | 0x0003u16 == 0x0383u16) by (bit_vector);
        DeviceId {
            match_flags: MATCH_INT_INFO | MATCH_DEVICE,
            vendor,
            product,
            interface_class: class,
            interface_subclass: subclass,
            interface_protocol: protocol,
            ..DeviceId::zeroed()
        }
    }
}

} // verus!
