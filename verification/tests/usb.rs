//! Descriptors, pipes, endpoints, windows, transfers and queues.

use std::cell::Cell;
use std::sync::Arc;

use vino::error::Error;
use vino::usb::descriptor::{
    Direction, EndpointType, HostEndpoint, HostInterface, InterfaceClass,
};
use vino::usb::device::{
    find_device, topology_path, ControlMessage, CtrlRequest, Device, DeviceRemovalHandler,
    DeviceRemovalNotifier, Hop, USB_DEVICE_REMOVE,
};
use vino::usb::endpoint::{BulkIn, BulkOut, Interface, InterruptIn};
use vino::usb::id::DeviceId;
use vino::usb::link::{Endpoints, UsbLink};
use vino::usb::pipe::Pipe;
use vino::usb::pm::{after_callback, before_callback};
use vino::usb::queue::{wait_millis, BulkInQueue, BulkOutQueue, Completed, Received};
use vino::usb::transfer::ControlTransfer;
use vino::usb::urb::{to_result, Idle, IsoPacketDescriptor, Urb, UrbHandle, UrbResult};
use vino::usb::window::{timeout_millis, CloseStep, IoWindow, RegisteredUrb};

fn endpoint(address: u8, attributes: u8) -> HostEndpoint {
    HostEndpoint {
        address,
        attributes,
        packet: 0x1400,
        poll: 4,
    }
}

fn device() -> Device {
    Device {
        number: 5,
        vendor: 0x17e9,
        product_number: 0x6006,
        revision: 0x0100,
        version: 0x0320,
        speed: 5,
    }
}

fn interface() -> Interface {
    let active = HostInterface {
        interface_number: 1,
        alternate: 0,
        interface_class: InterfaceClass(0xff),
        endpoint: vec![
            endpoint(0x02, 2),
            endpoint(0x84, 2),
            endpoint(0x08, 2),
            endpoint(0x0a, 2),
            endpoint(0x85, 3),
        ],
    };
    Interface {
        device: device(),
        active: Some(active),
        settings: Vec::new(),
    }
}

#[test]
fn a_descriptor_is_read_field_by_field() {
    let e = endpoint(0x84, 2);
    assert_eq!(e.endpoint_dir(), Direction::In);
    assert_eq!(e.endpoint_number(), 4);
    assert_eq!(e.endpoint_type(), EndpointType::Bulk);
    assert_eq!((e.maxp(), e.maxp_mult()), (0x400, 2));
    assert_eq!((e.interval(), e.full_address()), (4, 0x84));
    assert_eq!(Direction::Out.name(), "out");
    assert_eq!(EndpointType::Int.number(), 3);
    let intf = interface();
    let alt = intf.cur_altsetting();
    assert_eq!((alt.number(), alt.alternate_setting()), (1, 0));
    assert_eq!(alt.class(), InterfaceClass(0xff));
    assert_eq!(alt.endpoints().len(), 5);
    assert_eq!(intf.number(), Some(1));
    assert_eq!(intf.set_interface(2).interface, 1);
    assert!(intf.altsettings().is_empty());
}

#[test]
fn a_device_reports_its_numbers() {
    let d = device();
    assert_eq!((d.devnum(), d.vendor_id(), d.product_id()), (5, 0x17e9, 0x6006));
    assert_eq!((d.bcd_device(), d.bcd_usb()), (0x0100, 0x0320));
    assert_eq!(d.speed_str(), "super (5 Gbps)");
    assert_eq!(to_result(-110), Err(Error::ETIMEDOUT));
    assert_eq!(to_result(3), Ok(()));
}

#[test]
fn a_path_starts_at_the_bus() {
    let chain = [
        Hop { port: 3, bus: 2 },
        Hop { port: 1, bus: 2 },
        Hop { port: 0, bus: 2 },
    ];
    assert_eq!(topology_path(&chain, 8), Some(vec![2, 1, 3]));
}

#[test]
fn the_first_matching_device_is_found() {
    let mut other = device();
    other.number = 9;
    let list = [device(), other, other];
    assert_eq!(find_device(&list, |d: &Device| d.number == 9), Some(1));
    assert_eq!(find_device(&list, |d: &Device| d.number == 1), None);
}

struct Counter(Cell<u32>);

impl DeviceRemovalHandler for Counter {
    fn device_removed(&self, _device: &Device) {
        self.0.set(self.0.get() + 1);
    }
}

#[test]
fn only_removals_are_told() {
    let n = DeviceRemovalNotifier::new(Counter(Cell::new(0)));
    assert!(!n.notify(1, &device()));
    assert!(n.notify(USB_DEVICE_REMOVE, &device()));
    assert_eq!(n.handler.0.get(), 1);
}

#[test]
fn a_pipe_holds_kind_device_endpoint_and_direction() {
    let d = device();
    assert_eq!(Pipe::new_send_control_pipe(&d).0, 0x8000_0500);
    assert_eq!(Pipe::new_receive_control_pipe(&d).0, 0x8000_0580);
    assert_eq!(Pipe::new_send_bulk_pipe(&d, &endpoint(0x08, 2)).0, 0xc004_0500);
    assert_eq!(Pipe::new_receive_bulk_pipe(&d, &endpoint(0x84, 2)).0, 0xc002_0580);
    assert_eq!(Pipe::new_send_int_pipe(&d, &endpoint(0x01, 3)).0, 0x4000_8500);
    assert_eq!(Pipe::new_receive_int_pipe(&d, &endpoint(0x85, 3)).0, 0x4002_8580);
    assert_eq!(Pipe::new_send_isoc_pipe(&d, &endpoint(0x01, 1)).0, 0x0000_8500);
    assert_eq!(Pipe::new_receive_isoc_pipe(&d, &endpoint(0x81, 1)).0, 0x0000_8580);
}

#[test]
fn an_endpoint_is_found_only_as_what_it_is() {
    let intf = interface();
    let e = intf.endpoint::<BulkIn>(0x84).unwrap();
    assert_eq!((e.address(), e.max_packet_size()), (0x84, 0x400));
    assert_eq!(e.pipe().0, 0xc002_0580);
    assert_eq!(e.copied().address(), 0x84);
    assert_eq!(intf.endpoint::<BulkOut>(0x84).err(), Some(Error::EINVAL));
    assert_eq!(intf.endpoint::<InterruptIn>(0x85).unwrap().address(), 0x85);
    assert_eq!(intf.endpoint::<BulkIn>(0x86).err(), Some(Error::ENOENT));
    let mut bare = interface();
    bare.active = None;
    assert_eq!(bare.endpoint::<BulkIn>(0x84).err(), Some(Error::ENODEV));
}

#[test]
fn a_short_timeout_stays_a_timeout() {
    assert_eq!(timeout_millis(0), Ok(0));
    assert_eq!(timeout_millis(1), Ok(1));
    assert_eq!(timeout_millis(2_500_000), Ok(2));
    assert_eq!(timeout_millis(i64::MAX), Err(Error::EINVAL));
    // A wait may be for nothing.
    assert_eq!(wait_millis(1), 0);
    assert_eq!(wait_millis(-5), 0);
    assert_eq!(wait_millis(3_000_000), 3);
}

fn cancelled(step: CloseStep) -> Option<Vec<u64>> {
    match step {
        CloseStep::Cancel(urbs) => Some(urbs.iter().map(|r| r.urb).collect()),
        _ => None,
    }
}

fn cancelled_transfers(step: CloseStep) -> Option<Vec<RegisteredUrb>> {
    match step {
        CloseStep::Cancel(urbs) => Some(urbs),
        _ => None,
    }
}

#[test]
fn a_closed_window_admits_nothing() {
    let mut w = IoWindow::new(1, interface());
    let io = w.enter().unwrap();
    assert_eq!(io.window(), w.id());
    assert_eq!(io.set_alternate_setting(3), Ok((1, 3)));
    assert!(!w.is_idle());
    let token = w.new_token().unwrap();
    assert_eq!(w.register_urb(token, 44), Ok(()));
    let mut closing = w.close();
    assert_eq!(closing.window(), w.id());
    assert_eq!(cancelled(closing.next(&w)), Some(vec![44]));
    assert!(!w.is_open());
    assert_eq!(w.enter().err(), Some(Error::ENODEV));
    assert_eq!(w.register_urb(token, 45), Err(Error::ENODEV));
    assert!(matches!(closing.next(&w), CloseStep::Wait));
    assert!(w.leave(io));
    assert!(w.is_idle());
    // Whoever held a token may have submitted once more.
    assert_eq!(cancelled(closing.next(&w)), Some(vec![44]));
    assert!(matches!(closing.next(&w), CloseStep::Done));
    w.reopen();
    assert!(w.enter().is_ok());
}

#[test]
fn deregistering_takes_a_queue_and_no_other() {
    let mut w = IoWindow::new(1, interface());
    let a = w.new_token().unwrap();
    let b = w.new_token().unwrap();
    assert_ne!(a, b);
    for (token, urb) in [(a, 1), (b, 2), (a, 3)] {
        w.register_urb(token, urb).unwrap();
    }
    w.deregister(a);
    let mut closing = w.close();
    assert_eq!(cancelled(closing.next(&w)), Some(vec![2]));
    w.deregister(b);
    assert_eq!(cancelled(closing.next(&w)), Some(vec![]));
    assert!(matches!(closing.next(&w), CloseStep::Done));
}

#[test]
fn a_window_follows_the_power_callbacks() {
    let mut w = IoWindow::new(1, interface());
    before_callback(&mut w, false);
    assert!(w.is_open());
    assert!(after_callback(&mut w, false, Ok(())).is_some());
    assert!(!w.is_open());
    before_callback(&mut w, true);
    assert!(w.is_open());
    assert!(after_callback(&mut w, true, Ok(())).is_none());
    assert!(w.is_open());
}

#[test]
fn a_transfer_checks_its_length_and_reports_its_end() {
    let h: UrbHandle<(), Idle> = Urb::new_bulk(Pipe(7), vec![0; 4], None, 0);
    let mut h = h;
    assert_eq!(h.transfer_buffer().len(), 4);
    h.transfer_buffer_mut()[1] = 9;
    assert_eq!(h.set_transfer_buffer_length(5), Err(Error::EMSGSIZE));
    assert_eq!(h.set_transfer_buffer_length(2), Ok(()));
    let (e, h) = h.submit_recoverable(-19).err().unwrap();
    assert_eq!(e, Error::ENODEV);
    let active = h.submit(0).ok().unwrap();
    let idle = active.into_idle(0, 2);
    assert_eq!(idle.transfer_buffer(), &[0, 9, 0, 0]);
}

#[test]
fn a_completed_transfer_is_read_only_where_it_succeeded() {
    let mut urb: Urb<u8> = Urb {
        pipe: Pipe(7),
        setup: None,
        buffer: vec![1, 2, 3],
        used: 3,
        packets: Vec::new(),
        flags: 0,
        interval: 0,
        outcome: 0,
        transferred: 2,
        attached: Some(Arc::new(8)),
    };
    assert_eq!(urb.context().map(|c| **c), Some(8));
    let data = UrbResult { urb: &urb }.check().ok().unwrap();
    assert_eq!(data.actual_length(), 2);
    assert_eq!(data.transfer_buffer(), &[1, 2, 3]);
    assert!(data.iso_frame_descs().is_empty());
    let packet = |outcome: i32| IsoPacketDescriptor {
        start: 1,
        room: 2,
        transferred: 2,
        outcome,
    };
    assert_eq!(data.data_from_iso_packet_desc(&packet(0)), Ok(&[2u8, 3][..]));
    assert_eq!(
        data.data_from_iso_packet_desc(&packet(-71)),
        Err(Error::EPROTO)
    );
    // A failed packet's place does not matter.
    let stray = IsoPacketDescriptor {
        start: 3,
        room: 9,
        transferred: 9,
        outcome: -71,
    };
    assert_eq!(data.data_from_iso_packet_desc(&stray), Err(Error::EPROTO));
    let p = packet(0);
    assert_eq!((p.offset(), p.length(), p.actual_length(), p.status()), (1, 2, 2, 0));
    assert_eq!(data.resubmit(-32), Err(Error::EPIPE));
    urb.outcome = -71;
    assert_eq!(urb.status(), -71);
    assert_eq!(UrbResult { urb: &urb }.check().err(), Some(Error::EPROTO));
    assert_eq!(
        UrbResult { urb: &urb }.check_or_resubmit(0).err(),
        Some(Ok(()))
    );
}

#[test]
fn isochronous_packets_partition_their_buffer() {
    let h: UrbHandle<(), Idle> =
        Urb::new_isoc(Pipe(7), vec![0; 6], None, 3, 2, 0, 1).ok().unwrap();
    assert_eq!(h.transfer_buffer().len(), 6);
    let short: Result<UrbHandle<(), Idle>, Error> =
        Urb::new_isoc(Pipe(7), vec![0; 5], None, 3, 2, 0, 1);
    assert_eq!(short.err(), Some(Error::EINVAL));
    // More than any length could say.
    let huge: Result<UrbHandle<(), Idle>, Error> =
        Urb::new_isoc(Pipe(7), vec![0; 6], None, u32::MAX, u16::MAX, 0, 1);
    assert_eq!(huge.err(), Some(Error::EINVAL));
    let _: UrbHandle<(), Idle> = Urb::new_int(Pipe(7), vec![0; 5], None, 0, 4);
    let _: UrbHandle<(), Idle> = Urb::new_ctrl(Pipe(7), [0; 8], None, None, 0);
}

#[test]
fn a_reader_hands_over_what_came() {
    let mut w = IoWindow::new(1, interface());
    let io = w.enter().unwrap();
    let ep = interface().endpoint::<BulkIn>(0x84).unwrap();
    let mut q = BulkInQueue::new(&mut w, &io, &ep, 2, 4).ok().unwrap();
    for i in 0..2 {
        assert_eq!(q.post(i, Ok(())), Ok(()));
    }
    assert_eq!(q.current(), (0, true));
    let mut out = [0u8; 4];
    // Nothing yet.
    let nothing = Received {
        post: Ok(()),
        completed: None,
        repost: Ok(()),
    };
    assert_eq!(q.recv(&io, &mut out, &nothing), Ok(None));
    let got = Received {
        post: Ok(()),
        completed: Some(Completed {
            status: 0,
            actual: 3,
            data: vec![7, 8, 9, 0],
        }),
        repost: Ok(()),
    };
    assert_eq!(q.recv(&io, &mut out, &got), Ok(Some(3)));
    assert_eq!(&out[..3], &[7, 8, 9]);
    assert_eq!(q.current(), (1, true));
    assert_eq!(q.in_flight(), vec![0, 1]);
    let transfers = vec![q.transfer(0), q.transfer(1)];
    assert_eq!(q.release(&mut w), transfers);
    let mut closing = w.close();
    assert_eq!(cancelled(closing.next(&w)), Some(vec![]));
}

#[test]
fn a_writer_sends_whole_messages_in_turn() {
    let mut w = IoWindow::new(1, interface());
    let io = w.enter().unwrap();
    let ep = interface().endpoint::<BulkOut>(0x02).unwrap();
    let mut q = BulkOutQueue::new(&mut w, &io, &ep, 2, 4).ok().unwrap();
    assert_eq!(q.send(&io, &[1, 2, 3, 4, 5], None, Ok(())), Err(Error::EMSGSIZE));
    assert_eq!(q.can_send_n(&io, 2, &[None, None]), Ok(true));
    let (i, _) = q.current();
    assert_eq!(q.send(&io, &[1, 2], None, Ok(())), Ok(()));
    assert_eq!(q.outgoing(i), &[1, 2]);
    assert_eq!(q.can_send_n(&io, 2, &[None, None]), Ok(false));
    assert_eq!(q.flush(&io, &[Some(0), Some(0)]), Ok(()));
    assert_eq!(q.can_send_n(&io, 2, &[None, None]), Ok(true));
    // Another window's token is of no use.
    let mut other = IoWindow::new(2, interface());
    let wrong = other.enter().unwrap();
    assert_eq!(q.send(&wrong, &[1], None, Ok(())), Err(Error::EINVAL));
    assert_eq!(q.in_flight(), Vec::<usize>::new());
    // What is in flight when the queue goes is to be cancelled.
    let (i, _) = q.current();
    assert_eq!(q.send(&io, &[3], None, Ok(())), Ok(()));
    assert_eq!(q.in_flight(), vec![i]);
    let transfer = q.transfer(i);
    assert_eq!(q.release(&mut w), vec![transfer]);
}

#[test]
fn a_reader_opens_whole() {
    let mut w = IoWindow::new(1, interface());
    let io = w.enter().unwrap();
    let ep = interface().endpoint::<BulkIn>(0x84).unwrap();
    assert_eq!(BulkInQueue::new(&mut w, &io, &ep, 0, 4).err(), Some(Error::EINVAL));
    assert_eq!(BulkInQueue::new(&mut w, &io, &ep, 3, 0).err(), Some(Error::EINVAL));
    let q = BulkInQueue::new(&mut w, &io, &ep, 3, 4).ok().unwrap();
    assert_eq!(q.in_flight(), Vec::<usize>::new());
    let transfers = vec![q.transfer(0), q.transfer(1), q.transfer(2)];
    let q = q.start(&mut w, &[Ok(()), Ok(()), Ok(())]).ok().unwrap();
    assert_eq!(q.in_flight(), vec![0, 1, 2]);
    let mut closing = w.close();
    assert_eq!(cancelled_transfers(closing.next(&w)), Some(transfers));
}

#[test]
fn a_reader_that_cannot_open_leaves_nothing() {
    let mut w = IoWindow::new(1, interface());
    let io = w.enter().unwrap();
    let ep = interface().endpoint::<BulkIn>(0x84).unwrap();
    let kept = BulkInQueue::new(&mut w, &io, &ep, 1, 4).ok().unwrap();
    let q = BulkInQueue::new(&mut w, &io, &ep, 3, 4).ok().unwrap();
    let posted = vec![q.transfer(0), q.transfer(1)];
    let given_up = q.start(&mut w, &[Ok(()), Ok(()), Err(Error::ENOMEM)]).err().unwrap();
    assert_eq!(given_up.error, Error::ENOMEM);
    assert_eq!(given_up.cancel, posted);
    let mut closing = w.close();
    assert_eq!(cancelled_transfers(closing.next(&w)), Some(vec![kept.transfer(0)]));
}

#[test]
fn submissions_stop_at_the_first_refusal() {
    let mut w = IoWindow::new(1, interface());
    let io = w.enter().unwrap();
    let ep = interface().endpoint::<BulkIn>(0x84).unwrap();
    let mut q = BulkInQueue::new(&mut w, &io, &ep, 3, 4).ok().unwrap();
    assert_eq!(q.post_all(&[Ok(()), Err(Error::EPIPE)]), Err(Error::EPIPE));
    assert_eq!(q.in_flight(), vec![0]);
    let mut q = BulkInQueue::new(&mut w, &io, &ep, 2, 4).ok().unwrap();
    assert_eq!(q.post_all(&[Ok(()), Ok(())]), Ok(()));
    assert_eq!(q.in_flight(), vec![0, 1]);
}

#[test]
fn a_control_message_follows_its_request() {
    let d = device();
    let setup = CtrlRequest {
        request_type: 0xc1,
        request: 0x22,
        value: 1,
        index: 7,
    };
    assert_eq!(setup.direction(), Direction::In);
    let m = d.control_msg(&setup, Some(28), 1_500_999_999);
    assert_eq!(
        m,
        ControlMessage {
            device: 5,
            pipe: Pipe::new_receive_control_pipe(&d),
            setup,
            buffered: true,
            len: 28,
            millis: 1500,
        }
    );
    assert_eq!(m.outcome(-32), Err(Error::EPIPE));
    assert_eq!(m.outcome(7), Ok(7));
    let out = CtrlRequest {
        request_type: 0x40,
        ..setup
    };
    assert_eq!(out.direction(), Direction::Out);
    let m = d.control_msg(&out, None, -1_999_999);
    assert_eq!(m.pipe, Pipe::new_send_control_pipe(&d));
    assert_eq!((m.buffered, m.len, m.millis), (false, 0, -1));
    // What does not fit keeps its low bits.
    let m = d.control_msg(&out, Some(0x1_0003), i64::MAX);
    assert_eq!((m.len, m.millis), (3, (i64::MAX / 1_000_000) as i32));
    let m = d.control_msg(&out, Some(0), i64::MIN);
    assert_eq!((m.len, m.millis), (0, (i64::MIN / 1_000_000) as i32));
}

#[test]
fn a_table_entry_matches_what_it_names() {
    let id = DeviceId::from_id(0x17e9, 0x6006);
    assert_eq!((id.match_flags, id.vendor, id.product), (0x0003, 0x17e9, 0x6006));
    assert_eq!(DeviceId::from_device_ver(1, 2, 3, 4).match_flags, 0x000f);
    assert_eq!(DeviceId::from_device_info(1, 2, 3).match_flags, 0x0070);
    assert_eq!(DeviceId::from_interface_info(1, 2, 3).match_flags, 0x0380);
    let id = DeviceId::from_vendor_and_interface_info(0x17e9, 0xff, 0, 3);
    assert_eq!((id.match_flags, id.interface_protocol), (0x0381, 3));
    assert_eq!(DeviceId::from_device_interface_class(1, 2, 3).match_flags, 0x0083);
    assert_eq!(DeviceId::from_device_interface_protocol(1, 2, 3).match_flags, 0x0203);
    assert_eq!(DeviceId::from_device_interface_number(1, 2, 3).match_flags, 0x0403);
    assert_eq!(
        DeviceId::from_device_and_interface_info(1, 2, 3, 4, 5).match_flags,
        0x0383
    );
}

#[test]
fn connectors_that_share_an_endpoint_share_a_queue() {
    let eps = Endpoints::resolve(&interface(), &[0x08, 0x0a, 0x08, 0x0a]).ok().unwrap();
    assert_eq!(eps.video_pipe_index(0), Ok(0));
    assert_eq!(eps.video_pipe_index(1), Ok(1));
    assert_eq!(eps.video_pipe_index(2), Ok(0));
    assert_eq!(eps.video_pipe_index(3), Ok(1));
    assert_eq!(eps.video_pipe_index(4), Err(Error::EINVAL));
    assert_eq!(
        Endpoints::resolve(&interface(), &[0x08, 0x0a, 0x09, 0x0a]).err(),
        Some(Error::ENOENT)
    );
}

#[test]
fn a_link_asks_for_its_transfers() {
    let mut w = IoWindow::new(1, interface());
    let eps = Endpoints::resolve(&interface(), &[0x08, 0x0a, 0x08, 0x0a]).ok().unwrap();
    let link = UsbLink::open(&mut w, eps).ok().unwrap();
    let t = link.ctrl_send(&[1, 2, 3], 1_000_000_000).unwrap();
    assert_eq!((t.device, t.pipe.0, t.len, t.millis), (5, 0xc001_0500, 3, 1000));
    assert_eq!(t.sent(0, 3), Ok(3));
    assert_eq!(t.sent(-32, 0), Err(Error::EPIPE));
    let t = link.ctrl_recv(4, 20_000_000).unwrap();
    let mut data = [9u8; 4];
    assert_eq!(t.received(0, 2, &[1, 2, 0, 0], &mut data), Ok(2));
    assert_eq!(data, [1, 2, 9, 9]);
    assert_eq!(t.received(-110, 0, &[0; 4], &mut data), Err(Error::ETIMEDOUT));
    assert_eq!(link.video_send(1, &[0; 6], 0).unwrap().pipe.0, 0xc005_0500);
    assert_eq!(link.video_send(7, &[], 0).err(), Some(Error::EINVAL));
    assert_eq!(link.clear_video_halt(0), Ok((5, Pipe(0xc004_0500))));
    assert_eq!(
        link.video_endpoint_status(1),
        Ok(ControlTransfer {
            device: 5,
            request: 0,
            request_type: 0x82,
            value: 0,
            index: 0x0a,
            len: 2,
            millis: 1000,
        })
    );
    let wire = link.clear_video_halt_wire(0).unwrap();
    assert_eq!((wire.request, wire.request_type, wire.index, wire.len), (1, 2, 8, 0));
    assert_eq!(link.clear_video_halt_wire(9).err(), Some(Error::EINVAL));
    let commit = link.commit_video().unwrap();
    assert_eq!((commit.request, commit.request_type, commit.len), (0x24, 0x40, 0));
    let state = link.read_state().unwrap();
    assert_eq!((state.request, state.request_type, state.value, state.len), (0x22, 0xc1, 1, 28));
    let reader = link.ctrl_in_queue(&mut w, 2, 64).ok().unwrap();
    let writer = link.ctrl_out_queue(&mut w, 2, 64).ok().unwrap();
    let video = link.video_queue(&mut w, 0, 2, 64).ok().unwrap();
    assert!(link.video_queue(&mut w, 9, 2, 64).is_err());
    reader.release(&mut w);
    writer.release(&mut w);
    video.release(&mut w);
    let intr = interface().endpoint::<InterruptIn>(0x85).unwrap();
    let t = link.io.interrupt_recv(&intr, 8, 0).unwrap();
    assert_eq!((t.pipe.0, t.len), (0x4002_8580, 8));
    let long = vec![0u8; 0x1_0000];
    assert_eq!(
        link.io.control_send(1, 2, 3, 4, &long, 0).err(),
        Some(Error::EINVAL)
    );
}
