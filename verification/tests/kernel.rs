//! Attribute files, two-wire buses, events and numbered requests.

use std::sync::atomic::{AtomicUsize, Ordering};

use vino::drm::event::{EventChannel, EventHeader, RawEvent};
use vino::drm::ioctl::{
    compat_begin, compat_end, compat_ioctl, handler_result, is_in_order, CompatIoctl,
    DrmCompatIoctlDescriptor, DrmIoctlDescriptor, IO, IOR, IOW, IOWR,
};
use vino::error::Error;
use vino::i2c::{
    id_info, transfer_result, BusAdapter, BusController, DeviceId, I2cAdapter, I2cBoardInfo, Msg,
    MsgBuffer, Registration, FUNC_I2C, READ,
};
use vino::sysfs::{
    show, show_result, store, store_result, Attr, AttributeGroup, DeviceAttributes, Withdrawal,
    Writer, PAGE_SIZE,
};

static DROPS: AtomicUsize = AtomicUsize::new(0);

struct TestContext;

impl Drop for TestContext {
    fn drop(&mut self) {
        DROPS.fetch_add(1, Ordering::Relaxed);
    }
}

impl DeviceAttributes for TestContext {}

#[test]
fn writer_reports_only_initialized_bytes() -> Result<(), Error> {
    let mut writer = Writer::new();

    writer.write(b"12")?;
    writer.write_str("34")?;
    assert_eq!(writer.len(), 4);
    assert_eq!(writer.as_slice(), b"1234");
    Ok(())
}

#[test]
fn registration_failure_drops_context_after_unwind() {
    DROPS.store(0, Ordering::Relaxed);
    let result = AttributeGroup::register_root(
        TestContext,
        vec![Attr::ro("first"), Attr::ro("second")],
        Ok(7),
        Err(Error::ENOMEM),
    );

    assert!(result.is_err());
    let failed = result.err().unwrap();
    assert_eq!(failed.error, Error::ENOMEM);
    // The root device goes before the context does.
    assert_eq!(
        failed.group.withdrawal(),
        vec![Withdrawal::ClearContext, Withdrawal::UnregisterRoot]
    );
    assert_eq!(DROPS.load(Ordering::Relaxed), 0);
    drop(failed);
    assert_eq!(DROPS.load(Ordering::Relaxed), 1);
}

struct Level(u8);

impl DeviceAttributes for Level {
    fn show(&self, name: &str, out: &mut Writer) -> Result<(), Error> {
        if name == "level" {
            out.write(&[b'0' + self.0])
        } else {
            Err(Error::ENOENT)
        }
    }
}

#[test]
fn a_read_is_answered_with_what_was_written() {
    let (ret, out) = show(&Level(3), "level");
    assert_eq!((ret, out.as_slice()), (1, &b"3"[..]));
    let (ret, out) = show(&Level(3), "other");
    assert_eq!(ret, -2);
    assert!(out.is_empty());
    // A group that takes no writes refuses them.
    assert_eq!(store(&Level(3), "level", b"4"), -22);
    assert_eq!(store_result(Ok(()), 9), 9);
    assert_eq!(show_result(Err(Error::EIO), &Writer::new()), -5);
}

#[test]
fn an_answer_stays_within_its_page() {
    let mut writer = Writer::new();
    assert_eq!(writer.write(&vec![1; PAGE_SIZE]), Ok(()));
    assert_eq!(writer.write(&[2]), Err(Error::ENOSPC));
    assert_eq!(writer.len(), PAGE_SIZE);
    assert_eq!(writer.write(&[]), Ok(()));
}

#[test]
fn a_group_is_withdrawn_files_first() {
    assert_eq!(Attr::ro("a").mode, 0o444);
    assert_eq!(Attr::wo("a").mode, 0o200);
    assert_eq!(Attr::rw("a").mode, 0o644);
    let group = AttributeGroup::register_root(Level(1), vec![], Ok(7), Ok(())).unwrap();
    assert_eq!(
        group.withdrawal(),
        vec![
            Withdrawal::RemoveFiles,
            Withdrawal::ClearContext,
            Withdrawal::UnregisterRoot
        ]
    );
    let failed =
        AttributeGroup::register_root(Level(1), vec![], Err(Error::EIO), Ok(())).unwrap_err();
    assert_eq!(failed.error, Error::EIO);
    assert!(failed.group.withdrawal().is_empty());
}

impl std::fmt::Debug for Level {
    fn fmt(&self, f: &mut std::fmt::Formatter<'_>) -> std::fmt::Result {
        f.write_str("Level")
    }
}

#[test]
fn zero_length_null_buffers_are_empty_slices() {
    let mut msg = Msg {
        addr: 0,
        flags: 0,
        buf: Vec::new(),
    };
    match msg.buffer() {
        MsgBuffer::Write(buf) => assert!(buf.is_empty()),
        MsgBuffer::Read(_) => panic!("write message exposed as read"),
    }

    msg.flags = READ;
    match msg.buffer() {
        MsgBuffer::Read(buf) => assert!(buf.is_empty()),
        MsgBuffer::Write(_) => panic!("read message exposed as write"),
    }
}

struct ZeroController;

impl BusController for ZeroController {
    type Context = ();

    fn master_xfer(_ctx: &(), msgs: &mut Vec<Msg>) -> Result<usize, Error> {
        Ok(msgs.len())
    }

    fn functionality(_ctx: &()) -> u32 {
        FUNC_I2C
    }
}

struct InvalidCountController;

impl BusController for InvalidCountController {
    type Context = ();

    fn master_xfer(_ctx: &(), msgs: &mut Vec<Msg>) -> Result<usize, Error> {
        Ok(msgs.len() + 1)
    }

    fn functionality(_ctx: &()) -> u32 {
        FUNC_I2C
    }
}

#[test]
fn transfer_result_cannot_exceed_input_count() {
    let ret = BusAdapter::<InvalidCountController>::xfer(&(), &mut Vec::new(), 0);
    assert_eq!(ret, Error::EINVAL.to_errno());

    let ret = BusAdapter::<ZeroController>::xfer(&(), &mut Vec::new(), 0);
    assert_eq!(ret, 0);
}

#[test]
fn a_transfer_is_answered_with_its_count_or_its_error() {
    assert_eq!(transfer_result(3, Ok(2)), 2);
    assert_eq!(transfer_result(3, Ok(4)), -22);
    assert_eq!(transfer_result(-1, Ok(0)), -22);
    assert_eq!(transfer_result(3, Err(Error::EIO)), -5);
    assert_eq!(BusAdapter::<ZeroController>::xfer(&(), &mut Vec::new(), -1), -22);
    assert_eq!(ZeroController::functionality(&()), 1);
}

#[test]
fn a_message_that_reads_can_be_filled() {
    let mut msg = Msg {
        addr: 0x50,
        flags: READ | 0x10,
        buf: vec![0; 2],
    };
    assert_eq!((msg.addr(), msg.len(), msg.is_empty()), (0x50, 2, false));
    assert!(msg.is_read());
    if let MsgBuffer::Read(buf) = msg.buffer() {
        buf[1] = 9;
    }
    assert_eq!(msg.buf, vec![0, 9]);
    msg.flags = 0x10;
    assert!(!msg.is_read());
    assert_eq!(msg.flags(), 0x10);
}

#[test]
fn names_fill_their_fields() {
    let id = DeviceId::new(b"edid");
    assert_eq!(&id.name[..6], b"edid\0\0");
    assert_eq!(id.index(), 0);
    let info = I2cBoardInfo::new(b"0123456789012345678", 0x50);
    assert_eq!(&info.type_, b"0123456789012345678\0");
    assert_eq!(info.addr, 0x50);
    let bus = BusAdapter::<ZeroController>::new(&[b'x'; 60], (), Ok(())).ok().unwrap();
    assert_eq!(&bus.name[..47], &[b'x'; 47]);
    assert_eq!(bus.name[47], 0);
    assert_eq!(
        BusAdapter::<ZeroController>::new(b"x", (), Err(Error::ENOMEM)).err(),
        Some(Error::ENOMEM)
    );
}

#[test]
fn buses_and_devices_that_are_not_there_are_errors() {
    assert_eq!(I2cAdapter::get(None), Err(Error::ENODEV));
    assert_eq!(I2cAdapter::get(Some(I2cAdapter { nr: 3 })).unwrap().index(), 3);
    assert_eq!(Registration::new(Ok(None)), Err(Error::ENODEV));
    assert_eq!(Registration::new(Err(Error::EBUSY)), Err(Error::EBUSY));
    assert_eq!(Registration::new(Ok(Some(5))), Ok(Registration { client: 5 }));
    assert_eq!(id_info(Some(1), Some(2)), Some(1));
    assert_eq!(id_info(None, Some(2)), Some(2));
}

#[test]
fn an_old_connection_cannot_end_a_newer_one() {
    let mut channel = EventChannel::new();
    let first = channel.connect(1, 1, Ok(10), Ok(()));
    let first = first.result.unwrap();
    let second = channel.connect(1, 1, Ok(11), Ok(()));
    assert_eq!(second.replaced.unwrap().anchor, 10);
    let second = second.result.unwrap();
    assert_ne!(first.generation, second.generation);
    assert!(channel.disconnect_generation(first.generation).is_none());
    assert!(channel.is_connected(Some(5)));
    assert!(!channel.is_connected(None));
    assert_eq!(
        channel.disconnect_generation(second.generation).unwrap().anchor,
        11
    );
    assert!(!channel.is_connected(Some(5)));
    assert!(channel.close().is_none());
}

#[test]
fn a_refused_connection_leaves_the_channel_alone_until_its_anchor_hangs() {
    let mut channel = EventChannel::new();
    let _ = channel.connect(1, 1, Ok(10), Ok(()));
    // Another device's file.
    let other = channel.connect(1, 2, Ok(11), Ok(()));
    assert_eq!(other.result.err(), Some(Error::EINVAL));
    assert!(other.replaced.is_none());
    assert_eq!(
        channel.connect(1, 1, Err(Error::ENOMEM), Ok(())).result.err(),
        Some(Error::ENOMEM)
    );
    assert!(channel.is_connected(Some(5)));
    // The old connection has gone by the time the new one fails.
    let failed = channel.connect(1, 1, Ok(12), Err(Error::ENOSPC));
    assert_eq!(failed.result.err(), Some(Error::ENOSPC));
    assert_eq!(failed.replaced.unwrap().anchor, 10);
    assert!(!channel.is_connected(Some(5)));
}

#[test]
fn a_generation_is_never_zero() {
    let mut channel = EventChannel {
        connected: None,
        next_generation: u64::MAX,
    };
    let _ = channel.connect(1, 1, Ok(10), Ok(()));
    assert_eq!(channel.next_generation, 1);
}

#[test]
fn an_event_carries_its_header() {
    assert_eq!(EventHeader::new(7, 4).length, 12);
    let mut channel = EventChannel::new();
    let event = RawEvent {
        type_: 0x8000_0001,
        bytes: vec![1, 2, 3],
    };
    assert_eq!(channel.send(&event, Some(5), Ok(())), Ok(None));
    let _ = channel.connect(1, 1, Ok(10), Ok(()));
    assert_eq!(channel.send(&event, None, Ok(())), Ok(None));
    assert_eq!(
        channel.send(&event, Some(5), Err(Error::ENOMEM)),
        Err(Error::ENOMEM)
    );
    assert_eq!(
        channel.send(&event, Some(5), Ok(())),
        Ok(Some(vec![1, 0, 0, 0x80, 11, 0, 0, 0, 1, 2, 3]))
    );
}

#[test]
fn a_file_is_found_only_while_it_is_open() {
    let mut channel = EventChannel::new();
    assert_eq!(channel.with_connected_file(1, Some(5), &[5]), Ok(None));
    let _ = channel.connect(1, 1, Ok(10), Ok(()));
    assert_eq!(
        channel.with_connected_file(2, Some(5), &[5]),
        Err(Error::EINVAL)
    );
    assert_eq!(channel.with_connected_file(1, None, &[5]), Ok(None));
    assert_eq!(channel.with_connected_file(1, Some(5), &[4, 6]), Ok(None));
    assert_eq!(channel.with_connected_file(1, Some(5), &[4, 5]), Ok(Some(5)));
}

#[test]
fn a_request_number_holds_its_fields() {
    assert_eq!(IO(0x40), 0x0000_6440);
    assert_eq!(IOR::<u32>(0x41), 0x8004_6441);
    assert_eq!(IOW::<u64>(0x42), 0x4008_6442);
    assert_eq!(IOWR::<[u8; 24]>(0x43), 0xc018_6443);
}

#[test]
fn a_table_of_requests_has_no_gaps() {
    let at = |cmd: u32, size: usize| DrmIoctlDescriptor {
        cmd,
        size,
        flags: 0,
    };
    let good = [at(IOW::<u64>(0x40), 8), at(IOR::<u32>(0x41), 4)];
    assert!(is_in_order(&good));
    assert!(!is_in_order(&[good[1], good[0]]));
    assert!(!is_in_order(&[at(IOW::<u64>(0x40), 4)]));
    assert!(is_in_order(&[]));
}

#[test]
fn a_compat_request_selects_the_first_exact_match() {
    let table = [
        DrmCompatIoctlDescriptor::new(7, 0),
        DrmCompatIoctlDescriptor::new(8, 1),
        DrmCompatIoctlDescriptor::new(8, 2),
    ];
    assert_eq!(compat_ioctl(&table, 8), Some(1));
    assert_eq!(compat_ioctl(&table, 9), None);
}

#[test]
fn a_handler_is_answered_for() {
    assert_eq!(handler_result(true, Ok(5)), 5);
    assert_eq!(handler_result(true, Ok(0x8000_0000)), -34);
    assert_eq!(handler_result(true, Err(Error::EBUSY)), -16);
    assert_eq!(handler_result(false, Ok(5)), -19);
}

struct Narrow {
    value: u32,
    back: Result<(), Error>,
}

impl CompatIoctl for Narrow {
    type Native = u64;

    fn read_from_user(ptr: usize) -> Result<Self, Error> {
        if ptr == 0 {
            Err(Error::EINVAL)
        } else {
            Ok(Narrow {
                value: ptr as u32,
                back: Ok(()),
            })
        }
    }

    fn into_native(&self) -> u64 {
        u64::from(self.value)
    }

    fn write_back(&mut self, native: &u64, _ptr: usize) -> Result<(), Error> {
        self.value = *native as u32;
        self.back
    }
}

#[test]
fn a_narrow_argument_is_widened_and_written_back() {
    assert_eq!(compat_begin::<Narrow>(0).err(), Some(-22));
    let (mut compat, native) = compat_begin::<Narrow>(6).ok().unwrap();
    assert_eq!(native, 6);
    // A handler that failed hands nothing back.
    assert_eq!(compat_end(&mut compat, &9, 6, -5), -5);
    assert_eq!(compat.value, 6);
    assert_eq!(compat_end(&mut compat, &9, 6, 2), 2);
    assert_eq!(compat.value, 9);
    compat.back = Err(Error::EIO);
    assert_eq!(compat_end(&mut compat, &9, 6, 2), -5);
}
