//! What the driver does with an interface it is offered, and how it lets go of one.

use vstd::prelude::*;

use crate::error::Error;
use crate::usb::id;
use crate::usb::id::DeviceId;

verus! {

/// The vendor whose docks are driven.
pub const VID_DISPLAYLINK: u16 = 0x17e9;

/// Class of a display function.
pub const CLASS_VENDOR: u8 = 0xff;

/// Protocol of a display function.
pub const PROTOCOL_DL3: u8 = 0x03;

/// Class, subclass and protocol of a firmware-update function.
pub const CLASS_DFU: (u8, u8, u8) = (0xfe, 0x01, 0x01);

/// Which function an interface exposes.
#[derive(Clone, Copy, Debug, PartialEq, Eq, Structural)]
pub enum Function {
    /// The display function: the control endpoints and every video endpoint.
    Display,
    /// The firmware-update function.
    Dfu,
}

/// The interfaces that are offered to the driver: the vendor's display functions and its
/// firmware-update functions.
pub fn device_table() -> (table: Vec<(DeviceId, Function)>)
    ensures
        table@.len() == 2,
        table@[0].0 == id::vendor_interface(
            VID_DISPLAYLINK,
            CLASS_VENDOR,
            0x00,
            PROTOCOL_DL3,
        ),
        table@[0].1 == Function::Display,
        table@[1].0 == id::vendor_interface(
            VID_DISPLAYLINK,
            CLASS_DFU.0,
            CLASS_DFU.1,
            CLASS_DFU.2,
        ),
        table@[1].1 == Function::Dfu,
{
    let mut table: Vec<(DeviceId, Function)> = Vec::new();
    table.push(
        (
            DeviceId::from_vendor_and_interface_info(
                VID_DISPLAYLINK,
                CLASS_VENDOR,
                0x00,
                PROTOCOL_DL3,
            ),
            Function::Display,
        ),
    );
    table.push(
        (
            DeviceId::from_vendor_and_interface_info(
                VID_DISPLAYLINK,
                CLASS_DFU.0,
                CLASS_DFU.1,
                CLASS_DFU.2,
            ),
            Function::Dfu,
        ),
    );
    table
}

/// What is known of an interface when it is offered.
#[derive(Clone, Copy, Debug)]
pub struct Offer {
    /// The function it exposes.
    pub function: Function,
    /// Its number, where it has an active setting.
    pub interface: Option<u8>,
    /// Whether the dock's identity could be read.
    pub identified: bool,
    /// Whether its identity names a family.
    pub family: bool,
    /// Whether an update of its firmware is pending.
    pub update_pending: bool,
    /// The profile of its family.
    pub family_profile: Option<usize>,
    /// The profile of its product.
    pub product_profile: Option<usize>,
}

/// What the driver does with an interface.
#[derive(Clone, Copy, Debug, PartialEq, Eq, Structural)]
pub enum Binding {
    /// It is bound idle; its firmware is checked where the dock could be identified, and an
    /// upload is offered where its family is known.
    Idle { check: bool, upload: bool },
    /// It is driven by a profile; `quirk` says that the product had to stand in for the
    /// identity.
    Drive { profile: usize, quirk: bool },
}

/// The profile that drives a display function: its family's where its identity names one, and
/// its product's only where the dock could not be asked.
pub open spec fn profile_of(o: Offer) -> Option<(usize, bool)> {
    if o.identified && o.family {
        match o.family_profile {
            Some(p) => Some((p, false)),
            None => None,
        }
    } else {
        match o.product_profile {
            Some(p) => Some((p, true)),
            None => None,
        }
    }
}

/// What is done with an interface. Everything but a firmware-update function and a display
/// function with a profile is declined.
pub open spec fn binding_of(o: Offer) -> Result<Binding, Error> {
    if o.interface is None {
        Err(Error::ENODEV)
    } else if o.function is Dfu {
        Ok(Binding::Idle { check: o.identified, upload: o.identified && o.family })
    } else if o.identified && o.update_pending {
        Err(Error::ENODEV)
    } else {
        match profile_of(o) {
            Some((profile, quirk)) => Ok(Binding::Drive { profile, quirk }),
            None => Err(Error::ENODEV),
        }
    }
}

/// Decide what to do with an interface.
pub fn probe(o: &Offer) -> (r: Result<Binding, Error>)
    ensures
        r == binding_of(*o),
{
    if o.interface.is_none() {
        return Err(Error::ENODEV);
    }
    match o.function {
        Function::Dfu => {
            return Ok(Binding::Idle { check: o.identified, upload: o.identified && o.family });
        },
        Function::Display => {},
    }
    if o.identified && o.update_pending {
        return Err(Error::ENODEV);
    }
    if o.identified && o.family {
        match o.family_profile {
            Some(profile) => Ok(Binding::Drive { profile, quirk: false }),
            None => Err(Error::ENODEV),
        }
    } else {
        match o.product_profile {
            Some(profile) => Ok(Binding::Drive { profile, quirk: true }),
            None => Err(Error::ENODEV),
        }
    }
}

/// A dock whose identity names a family without a profile is declined, whatever its product.
pub proof fn law_strange_families_are_declined(o: Offer)
    requires
        o.identified,
        o.family,
        o.family_profile is None,
        o.function is Display,
    ensures
        binding_of(o) == Err::<Binding, Error>(Error::ENODEV),
{
}

/// A dock that could not be asked keeps its display if its product is known.
pub proof fn law_unreadable_docks_fall_back_to_their_product(o: Offer)
    requires
        o.interface is Some,
        o.function is Display,
        !o.identified,
    ensures
        binding_of(o) == (match o.product_profile {
            Some(profile) => Ok::<Binding, Error>(Binding::Drive { profile, quirk: true }),
            None => Err(Error::ENODEV),
        }),
{
}

/// A step of letting go.
#[derive(Clone, Copy, Debug, PartialEq, Eq, Structural)]
pub enum Teardown {
    /// Tell the monitors to power down.
    ParkSinks,
    /// Publish the stop flag.
    BeginShutdown,
    /// Cancel the bring-up, or wait for it.
    CancelBringup,
    /// Stop for a reset.
    StopForReset,
    /// Stop every producer.
    Shutdown,
}

/// What happens while the interface is still bound. The monitors are told before the stop flag
/// is published, since every transfer refuses after it; the bring-up is cancelled last.
pub fn quiesce(registered: bool, bringing_up: bool) -> (steps: Vec<Teardown>)
    ensures
        steps@ == (if registered {
            seq![Teardown::ParkSinks, Teardown::BeginShutdown]
        } else {
            seq![]
        }) + (if bringing_up {
            seq![Teardown::CancelBringup]
        } else {
            seq![]
        }),
{
    let mut steps: Vec<Teardown> = Vec::new();
    if registered {
        steps.push(Teardown::ParkSinks);
        steps.push(Teardown::BeginShutdown);
    }
    if bringing_up {
        steps.push(Teardown::CancelBringup);
    }
    assert(steps@ =~= (if registered {
        seq![Teardown::ParkSinks, Teardown::BeginShutdown]
    } else {
        seq![]
    }) + (if bringing_up {
        seq![Teardown::CancelBringup]
    } else {
        seq![]
    }));
    steps
}

/// What happens once transfers have been revoked.
pub fn disconnect(registered: bool) -> (step: Option<Teardown>)
    ensures
        step == (if registered {
            Some(Teardown::Shutdown)
        } else {
            None
        }),
{
    if registered {
        Some(Teardown::Shutdown)
    } else {
        None
    }
}

/// What happens ahead of a reset.
pub fn pre_reset(registered: bool) -> (step: Option<Teardown>)
    ensures
        step == (if registered {
            Some(Teardown::StopForReset)
        } else {
            None
        }),
{
    if registered {
        Some(Teardown::StopForReset)
    } else {
        None
    }
}

/// What follows a reset: the session is gone, so the interface is bound anew.
pub fn post_reset() -> (r: Result<(), Error>)
    ensures
        r == Err::<(), Error>(Error::ENODEV),
{
    Err(Error::ENODEV)
}

/// The digit of a nibble.
pub open spec fn hex_digit(n: int) -> u8 {
    if n < 10 {
        (0x30 + n) as u8
    } else {
        (0x57 + n) as u8
    }
}

/// Two digits per byte, with a space between bytes.
pub open spec fn hex_list_spec(s: Seq<u8>) -> Seq<u8>
    decreases s.len(),
{
    if s.len() == 0 {
        seq![]
    } else {
        let b = s.last() as int;
        hex_list_spec(s.drop_last()) + (if s.len() == 1 {
            seq![]
        } else {
            seq![0x20u8]
        }) + seq![hex_digit(b / 16), hex_digit(b % 16)]
    }
}

/// The digit of a nibble.
fn digit(n: u8) -> (d: u8)
    requires
        n < 16,
    ensures
        d == hex_digit(n as int),
{
    if n < 10 {
        0x30 + n
    } else {
        0x57 + n
    }
}

/// Bytes on one line, as `08 0a 08 0a`, in ASCII.
pub fn hex_list(s: &[u8]) -> (out: Vec<u8>)
    ensures
        out@ == hex_list_spec(s@),
{
    let mut out: Vec<u8> = Vec::new();
    let mut i: usize = 0;
    while i < s.len()
        invariant
            i <= s@.len(),
            out@ == hex_list_spec(s@.take(i as int)),
        decreases s@.len() - i,
    {
        let ghost before = out@;
        if i > 0 {
            out.push(0x20);
        }
        out.push(digit(s[i] / 16));
        out.push(digit(s[i] % 16));
        i += 1;
        proof {
            let t = s@.take(i as int);
            assert(t.drop_last() =~= s@.take(i - 1));
            assert(out@ =~= hex_list_spec(t));
        }
    }
    assert(s@.take(i as int) =~= s@);
    out
}

/// A line of so many bytes takes three characters a byte, less one.
pub proof fn law_hex_lines_have_their_length(s: Seq<u8>)
    ensures
        hex_list_spec(s).len() == (if s.len() == 0 {
            0
        } else {
            3 * s.len() - 1
        }),
    decreases s.len(),
{
    if s.len() > 0 {
        law_hex_lines_have_their_length(s.drop_last());
    }
}

/// A dock whose identity names a family with a profile is driven by it, whatever its product, unless
/// an update of its firmware is pending.
pub proof fn law_known_families_are_driven(o: Offer, profile: usize)
    requires
        o.interface is Some,
        o.function is Display,
        o.identified,
        o.family,
        o.family_profile == Some(profile),
    ensures
        !o.update_pending ==> binding_of(o) == Ok::<Binding, Error>(
            Binding::Drive { profile, quirk: false },
        ),
        o.update_pending ==> binding_of(o) == Err::<Binding, Error>(Error::ENODEV),
{
}

/// A firmware-update function is bound idle: it is checked where the dock could be identified, and
/// an upload is offered where its family is known.
pub proof fn law_update_functions_are_bound_idle(o: Offer)
    requires
        o.interface is Some,
        o.function is Dfu,
    ensures
        binding_of(o) matches Ok(Binding::Idle { check, upload }) && check == o.identified && (
        upload <==> o.identified && o.family),
{
}

/// An interface without an active setting is declined.
pub proof fn law_settingless_interfaces_are_declined(o: Offer)
    requires
        o.interface is None,
    ensures
        binding_of(o) == Err::<Binding, Error>(Error::ENODEV),
{
}

/// The value of a hexadecimal digit.
pub open spec fn digit_value(d: u8) -> int {
    if 0x30 <= d <= 0x39 {
        d - 0x30
    } else {
        d - 0x61 + 10
    }
}

/// A line of bytes reads back: each byte stands at its place in two digits, the high one first, with
/// a space before every one but the first.
pub proof fn law_hex_lines_read_back(s: Seq<u8>, k: int)
    requires
        0 <= k < s.len(),
    ensures
        16 * digit_value(hex_list_spec(s)[3 * k]) + digit_value(hex_list_spec(s)[3 * k + 1])
            == s[k],
        k > 0 ==> hex_list_spec(s)[3 * k - 1] == 0x20,
    decreases s.len(),
{
    let front = s.drop_last();
    law_hex_lines_have_their_length(front);
    law_hex_lines_have_their_length(s);
    if k < s.len() - 1 {
        law_hex_lines_read_back(front, k);
        assert(front[k] == s[k]);
        assert(hex_list_spec(s)[3 * k] == hex_list_spec(front)[3 * k]);
        assert(hex_list_spec(s)[3 * k + 1] == hex_list_spec(front)[3 * k + 1]);
        if k > 0 {
            assert(hex_list_spec(s)[3 * k - 1] == hex_list_spec(front)[3 * k - 1]);
        }
    } else {
        let b = s.last() as int;
        assert(hex_list_spec(s)[3 * k] == hex_digit(b / 16));
        assert(hex_list_spec(s)[3 * k + 1] == hex_digit(b % 16));
    }
}

} // verus!
