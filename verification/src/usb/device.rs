//! USB devices and where they are plugged in.

use vstd::prelude::*;

use crate::error;
use crate::error::Error;
use crate::haar::quant;
use crate::usb::descriptor;
use crate::usb::descriptor::Direction;
use crate::usb::pipe;
use crate::usb::pipe::Pipe;

verus! {

/// A device as its descriptor and the bus describe it.
#[derive(Clone, Copy, Debug)]
pub struct Device {
    /// The number the bus assigned to it.
    pub number: u32,
    /// `idVendor`.
    pub vendor: u16,
    /// `idProduct`.
    pub product_number: u16,
    /// `bcdDevice`.
    pub revision: u16,
    /// `bcdUSB`.
    pub version: u16,
    /// The speed it was enumerated at.
    pub speed: u32,
}

pub const USB_SPEED_LOW: u32 = 1;

pub const USB_SPEED_FULL: u32 = 2;

pub const USB_SPEED_HIGH: u32 = 3;

pub const USB_SPEED_WIRELESS: u32 = 4;

pub const USB_SPEED_SUPER: u32 = 5;

pub const USB_SPEED_SUPER_PLUS: u32 = 6;

/// The name of a speed.
pub open spec fn speed_name(speed: u32) -> Seq<char> {
    if speed == USB_SPEED_LOW {
        "low (1.5 Mbps)"@
    } else if speed == USB_SPEED_FULL {
        "full (12 Mbps)"@
    } else if speed == USB_SPEED_HIGH {
        "high (480 Mbps)"@
    } else if speed == USB_SPEED_WIRELESS {
        "wireless"@
    } else if speed == USB_SPEED_SUPER {
        "super (5 Gbps)"@
    } else if speed == USB_SPEED_SUPER_PLUS {
        "super-plus (10+ Gbps)"@
    } else {
        "unknown"@
    }
}

impl Device {
    /// The number the bus assigned to the device.
    pub fn devnum(&self) -> (n: u32)
        ensures
            n == self.number,
    {
        self.number
    }

    /// The device's `idVendor`.
    pub fn vendor_id(&self) -> (v: u16)
        ensures
            v == self.vendor,
    {
        self.vendor
    }

    /// The device's `idProduct`.
    pub fn product_id(&self) -> (v: u16)
        ensures
            v == self.product_number,
    {
        self.product_number
    }

    /// The device's `bcdDevice`, conventionally its revision.
    pub fn bcd_device(&self) -> (v: u16)
        ensures
            v == self.revision,
    {
        self.revision
    }

    /// The device's `bcdUSB`.
    pub fn bcd_usb(&self) -> (v: u16)
        ensures
            v == self.version,
    {
        self.version
    }

    /// The speed the device was enumerated at, in words.
    pub fn speed_str(&self) -> (s: &'static str)
        ensures
            s@ == speed_name(self.speed),
    {
        match self.speed {
            USB_SPEED_LOW => "low (1.5 Mbps)",
            USB_SPEED_FULL => "full (12 Mbps)",
            USB_SPEED_HIGH => "high (480 Mbps)",
            USB_SPEED_WIRELESS => "wireless",
            USB_SPEED_SUPER => "super (5 Gbps)",
            USB_SPEED_SUPER_PLUS => "super-plus (10+ Gbps)",
            _ => "unknown",
        }
    }
}

/// The setup packet of a control request.
#[derive(Clone, Copy, Debug, PartialEq, Eq, Structural)]
pub struct CtrlRequest {
    /// Direction, type and recipient.
    pub request_type: u8,
    /// The request.
    pub request: u8,
    /// Its value.
    pub value: u16,
    /// Its index.
    pub index: u16,
}

/// The direction of a request, which is the top bit of its type.
pub open spec fn direction_of(setup: CtrlRequest) -> Direction {
    if setup.request_type < descriptor::USB_DIR_IN {
        Direction::Out
    } else {
        Direction::In
    }
}

impl CtrlRequest {
    /// The direction of the request's data.
    pub fn direction(&self) -> (d: Direction)
        ensures
            d == direction_of(*self),
    {
        if self.request_type < descriptor::USB_DIR_IN {
            Direction::Out
        } else {
            Direction::In
        }
    }
}

/// A control message as it is handed to the host controller.
#[derive(Clone, Copy, Debug, PartialEq, Eq, Structural)]
pub struct ControlMessage {
    /// The device.
    pub device: u32,
    /// The pipe.
    pub pipe: Pipe,
    /// The setup packet.
    pub setup: CtrlRequest,
    /// Whether it has a buffer.
    pub buffered: bool,
    /// Bytes to transfer.
    pub len: u16,
    /// How long it may last, in milliseconds.
    pub millis: i32,
}

/// The low 32 bits of a number, as a signed number.
pub open spec fn low_word(v: int) -> int {
    (v + 0x8000_0000) % 0x1_0000_0000 - 0x8000_0000
}

/// The whole milliseconds of `nanos`, cut off towards zero.
fn whole_millis(nanos: i64) -> (ms: i64)
    ensures
        ms == quant::truncated(nanos as int, 1_000_000),
        -0x1000_0000_0000 <= ms <= 0x1000_0000_0000,
{
    if nanos >= 0 {
        nanos / 1_000_000
    } else {
        -(((-(nanos as i128)) / 1_000_000) as i64)
    }
}

/// The low 32 bits of a number, as a signed number.
fn keep_low_word(v: i64) -> (r: i32)
    requires
        -0x1000_0000_0000 <= v <= 0x1000_0000_0000,
    ensures
        r == low_word(v as int),
{
    let lifted: u64 = (v + 0x8000_0000 + 0x1000_0000_0000) as u64;
    proof {
        vstd::arithmetic::div_mod::lemma_mod_multiples_vanish(
            0x1000,
            v + 0x8000_0000,
            0x1_0000_0000,
        );
    }
    ((lifted % 0x1_0000_0000) as i64 - 0x8000_0000) as i32
}

/// The control message with a buffer of `data` bytes, or with none, that may last `nanos`. The
/// length keeps its low 16 bits, and the whole milliseconds their low 32.
pub open spec fn message_of(
    dev: Device,
    setup: CtrlRequest,
    data: Option<usize>,
    nanos: i64,
) -> ControlMessage {
    ControlMessage {
        device: dev.number,
        pipe: pipe::control_pipe(dev, direction_of(setup) == Direction::In),
        setup,
        buffered: data is Some,
        len: match data {
            Some(n) => (n as int % 0x1_0000) as u16,
            None => 0,
        },
        millis: low_word(quant::truncated(nanos as int, 1_000_000)) as i32,
    }
}

impl Device {
    /// The control message to send: a request with a buffer of `data` bytes, or with none, that
    /// may last `timeout` nanoseconds. Its pipe follows the direction of the request.
    pub fn control_msg(&self, setup: &CtrlRequest, data: Option<usize>, timeout: i64) -> (m:
        ControlMessage)
        ensures
            m == message_of(*self, *setup, data, timeout),
            m.len as int == (match data {
                Some(n) => n as int % 0x1_0000,
                None => 0,
            }),
            m.millis as int == low_word(quant::truncated(timeout as int, 1_000_000)),
    {
        let pipe = match setup.direction() {
            Direction::In => Pipe::new_receive_control_pipe(self),
            Direction::Out => Pipe::new_send_control_pipe(self),
        };
        let len: u16 = match data {
            Some(n) => (n % 0x1_0000) as u16,
            None => 0,
        };
        let millis: i32 = keep_low_word(whole_millis(timeout));
        ControlMessage {
            device: self.number,
            pipe,
            setup: *setup,
            buffered: data.is_some(),
            len,
            millis,
        }
    }
}

impl ControlMessage {
    /// What the message came to: the bytes transferred, or the error a negative number stands
    /// for.
    pub fn outcome(&self, ret: i32) -> (r: Result<i32, Error>)
        ensures
            r == (if ret >= 0 {
                Ok::<i32, Error>(ret)
            } else {
                Err(error::error_of(ret))
            }),
    {
        if ret >= 0 {
            Ok(ret)
        } else {
            Err(Error::from_errno(ret))
        }
    }
}

/// A message that fits its types is sent as it was asked for.
pub proof fn law_messages_that_fit_are_sent_whole(
    dev: Device,
    setup: CtrlRequest,
    len: usize,
    nanos: i64,
)
    requires
        len <= u16::MAX,
        i32::MIN <= quant::truncated(nanos as int, 1_000_000) <= i32::MAX,
    ensures
        message_of(dev, setup, Some(len), nanos).len == len,
        message_of(dev, setup, Some(len), nanos).millis == quant::truncated(
            nanos as int,
            1_000_000,
        ),
{
}

/// One device on the way from a device to its root hub.
#[derive(Clone, Copy, Debug)]
pub struct Hop {
    /// The port it is plugged into; a root hub has none.
    pub port: u32,
    /// The number of its bus.
    pub bus: u32,
}

/// What a hop contributes to a path: its port, or the bus where it has none.
pub open spec fn hop_number(h: Hop) -> u32 {
    if h.port == 0 {
        h.bus
    } else {
        h.port
    }
}

/// The path from the root hub to a device: the bus, then each port. `chain` leads from the device
/// upwards. `None` where it is longer than `max`.
pub fn topology_path(chain: &[Hop], max: usize) -> (path: Option<Vec<u32>>)
    ensures
        path is None <==> chain@.len() > max,
        path matches Some(p) ==> p@ == Seq::new(
            chain@.len(),
            |i: int| hop_number(chain@[chain@.len() - 1 - i]),
        ),
{
    let n: usize = chain.len();
    if n > max {
        return None;
    }
    let mut path: Vec<u32> = Vec::new();
    let mut i: usize = 0;
    while i < n
        invariant
            i <= n,
            n == chain@.len(),
            path@.len() == i,
            forall|j: int| 0 <= j < i ==> path@[j] == hop_number(chain@[n - 1 - j]),
        decreases n - i,
    {
        let hop = chain[n - 1 - i];
        path.push(
            if hop.port == 0 {
                hop.bus
            } else {
                hop.port
            },
        );
        i += 1;
    }
    assert(path@ =~= Seq::new(chain@.len(), |i: int| hop_number(chain@[chain@.len() - 1 - i])));
    Some(path)
}

/// Find the first device that a predicate accepts.
pub fn find_device<F: Fn(&Device) -> bool>(devices: &[Device], predicate: F) -> (found: Option<
    usize,
>)
    requires
        forall|i: int| 0 <= i < devices@.len() ==> call_requires(predicate, (&devices@[i],)),
    ensures
        found matches Some(k) ==> k < devices@.len() && call_ensures(
            predicate,
            (&devices@[k as int],),
            true,
        ) && forall|i: int| 0 <= i < k ==> call_ensures(predicate, (&devices@[i],), false),
        found is None ==> forall|i: int|
            0 <= i < devices@.len() ==> call_ensures(predicate, (&devices@[i],), false),
{
    let mut k: usize = 0;
    while k < devices.len()
        invariant
            k <= devices@.len(),
            forall|i: int| 0 <= i < devices@.len() ==> call_requires(predicate, (&devices@[i],)),
            forall|i: int| 0 <= i < k ==> call_ensures(predicate, (&devices@[i],), false),
        decreases devices@.len() - k,
    {
        if predicate(&devices[k]) {
            return Some(k);
        }
        k += 1;
    }
    None
}

/// Notification that a device has been removed.
pub const USB_DEVICE_REMOVE: u32 = 0x0002;

/// Told of each device that is removed.
pub trait DeviceRemovalHandler {
    /// A device is being removed.
    fn device_removed(&self, device: &Device);
}

/// A handler on the chain that is notified of devices.
#[derive(Debug)]
pub struct DeviceRemovalNotifier<T: DeviceRemovalHandler> {
    /// The handler.
    pub handler: T,
}

impl<T: DeviceRemovalHandler> DeviceRemovalNotifier<T> {
    /// Put a handler on the chain.
    pub fn new(handler: T) -> (n: DeviceRemovalNotifier<T>)
        ensures
            n.handler == handler,
    {
        DeviceRemovalNotifier { handler }
    }

    /// Take up a notification, and say whether the handler was told of the device: only of a
    /// removal.
    pub fn notify(&self, action: u32, device: &Device) -> (told: bool)
        ensures
            told == (action == USB_DEVICE_REMOVE),
            told ==> call_ensures(T::device_removed, (&self.handler, device), ()),
    {
        if action == USB_DEVICE_REMOVE {
            self.handler.device_removed(device);
            true
        } else {
            false
        }
    }
}

/// A path starts at the bus of the root hub and is as long as the chain.
pub proof fn law_paths_start_at_the_root(chain: Seq<Hop>, path: Seq<u32>)
    requires
        chain.len() > 0,
        chain.last().port == 0,
        path == Seq::new(chain.len(), |i: int| hop_number(chain[chain.len() - 1 - i])),
    ensures
        path.len() == chain.len(),
        path[0] == chain.last().bus,
        path.last() == hop_number(chain[0]),
{
}

/// A word keeps the low thirty-two bits of a number, with their sign.
pub proof fn law_low_words_differ_by_whole_words(v: int)
    ensures
        i32::MIN <= low_word(v) <= i32::MAX,
        (v - low_word(v)) % 0x1_0000_0000 == 0,
{
}

/// A control message is the one asked for, on the device's own control pipe of its direction.
pub proof fn law_messages_are_the_ones_asked_for(
    dev: Device,
    setup: CtrlRequest,
    data: Option<usize>,
    nanos: i64,
)
    ensures
        ({
            let m = message_of(dev, setup, data, nanos);
            &&& m.device == dev.number
            &&& m.setup == setup
            &&& m.buffered == (data is Some)
            &&& data is None ==> m.len == 0
            &&& m.pipe == pipe::control_pipe(dev, setup.request_type >= 128)
        }),
{
}

/// A hop is named by its port, and the root, which has none, by its bus.
pub proof fn law_hops_are_named_by_their_port(h: Hop)
    ensures
        h.port != 0 ==> hop_number(h) == h.port,
        h.port == 0 ==> hop_number(h) == h.bus,
{
}

} // verus!
