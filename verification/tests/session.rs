//! The control plane: replies, the setup burst, the upkeep and the bring-up.

use vino::error::Error;
use vino::session::bringup::{after_attempt, in_training, AfterAttempt, Recovery};
use vino::session::contents::{
    bare_content, filler_size, finalize_content, finalize_size, head_content, hello_header, init_content,
    payload_size,
    stream_bind_content, stream_open_content, STREAM_OPEN, TRANSMITTER_INFO,
};
use vino::session::drain::{Ep84Drain, PerheadHdcpPush, ReceiverList};
use vino::session::flap::{FlapTracker, REPAIR_COUNT, REPAIR_LIMIT, WINDOW_MS};
use vino::session::keepalive::{
    Action as Upkeep, Event as Happened, Facts, Keepalive, HEARTBEAT_PERIOD_MS,
};
use vino::session::opening;
use vino::session::probe::{
    device_table, disconnect, hex_list, post_reset, pre_reset, probe, quiesce, Binding, Function, Offer,
    Teardown,
};
use vino::session::program::{
    program, HeadStep, Op, ReplyDiscipline, SetupProfile, VideoCommitPoint,
};
use vino::session::replies::{
    log_ep84, read_ep84, wire_header, Decoded, Mode, Read, Sweep,
};
use vino::session::setup::Setup;
use vino::session::setup_state::{Action, Event};
use vino::session::socket::{Socket, Verdict};
use vino::time::{hold_sleep, hold_spin, Instant};

fn at(ms: i64) -> Instant {
    Instant {
        nanos: ms * 1_000_000,
    }
}

/// Flaps `n` times `apart_ms` apart, and reports how many repairs that asked for.
fn flaps(n: u32, apart_ms: i64) -> u32 {
    let mut tracker = FlapTracker::new();
    let mut repairs = 0;
    for i in 0..n {
        if tracker.healed(at(7 + apart_ms * i64::from(i))) {
            repairs += 1;
        }
    }
    repairs
}

#[test]
fn a_blip_is_absorbed_and_sustained_flapping_is_repaired() {
    assert_eq!(flaps(1, 0), 0);
    assert_eq!(flaps(2, 1_000), 0);
    // Flaps spread wider than the window never accumulate, however many there are.
    assert_eq!(flaps(20, WINDOW_MS), 0);

    // A sink that will not settle is repaired.
    assert!(flaps(REPAIR_COUNT, 1_000) > 0);
    assert!(flaps(30, 6_500) > 0);
}

#[test]
fn a_flapping_dock_cannot_hold_vino_in_a_repair_loop() {
    assert_eq!(flaps(10_000, 1_000), REPAIR_LIMIT);
}

#[test]
fn a_connector_that_comes_back_starts_again() {
    let mut tracker = FlapTracker::new();
    let now = at(1);
    for _ in 0..REPAIR_LIMIT * REPAIR_COUNT {
        tracker.healed(now);
    }
    assert!(!tracker.healed(now));
    tracker = FlapTracker::new();
    for _ in 0..REPAIR_COUNT - 1 {
        assert!(!tracker.healed(now));
    }
    assert!(tracker.healed(now));
}

fn nothing() -> Decoded {
    Decoded {
        push: None,
        ack: None,
        display_cap: false,
        edid: None,
        edid_ready: false,
        lenient: false,
        plaintext: false,
    }
}

fn reply(decoded: Decoded) -> Read {
    let mut bytes = vec![0u8; 32];
    bytes[8] = 0x45;
    Read::Frame { bytes, decoded }
}

#[test]
fn a_drain_takes_what_there_is() {
    let mut edid = None;
    let mut s = Sweep::drain_ep84(100);
    assert_eq!(s.next_wait(), Some(100));
    s.observe(
        reply(Decoded {
            ack: Some(5),
            display_cap: true,
            edid: Some(vec![1, 2]),
            edid_ready: true,
            ..nothing()
        }),
        &mut edid,
    );
    assert_eq!(s.next_wait(), Some(10));
    // A second one does not displace the first.
    s.observe(
        reply(Decoded {
            ack: Some(6),
            edid: Some(vec![9]),
            ..nothing()
        }),
        &mut edid,
    );
    s.observe(reply(nothing()), &mut edid);
    s.observe(Read::Failed, &mut edid);
    assert_eq!(s.next_wait(), None);
    let t = s.tally();
    assert_eq!((t.reads, t.acks, t.rejects), (3, 2, 1));
    assert_eq!(t.display_cap_ctr, Some(5));
    assert!(t.edid_ready);
    assert_eq!(edid, Some(vec![1, 2]));
}

#[test]
fn a_lockstep_sweep_ends_at_its_echo() {
    let mut edid = None;
    let mut s = Sweep::lockstep_reply(7);
    assert_eq!(s.next_wait(), Some(30));
    s.observe(
        reply(Decoded {
            ack: Some(6),
            ..nothing()
        }),
        &mut edid,
    );
    assert!(s.next_wait().is_some());
    s.observe(
        reply(Decoded {
            ack: Some(7),
            ..nothing()
        }),
        &mut edid,
    );
    assert_eq!(s.next_wait(), None);
    assert_eq!(s.tally().acks, 2);
}

#[test]
fn a_wait_for_a_push_ends_at_the_push() {
    let mut edid = None;
    let mut s = Sweep::wait_per_connector_push(6, 30);
    for _ in 0..15 {
        s.observe(
            reply(Decoded {
                ack: Some(1),
                ..nothing()
            }),
            &mut edid,
        );
        assert_eq!(s.next_wait(), Some(30));
    }
    s.observe(
        reply(Decoded {
            push: Some(PerheadHdcpPush {
                msg_id: 6,
                payload: vec![1, 2, 3, 4, 5, 6, 7, 8],
            }),
            ..nothing()
        }),
        &mut edid,
    );
    assert_eq!(s.next_wait(), None);
    let t = s.tally();
    assert!(t.saw_perhead(6));
    assert!(!t.saw_perhead(7));
    assert_eq!(t.per_connector_rrx, Some([1, 2, 3, 4, 5, 6, 7, 8]));
    assert_eq!((t.reads, t.acks), (16, 15));
}

#[test]
fn sweeps_add_up() {
    let mut a = Ep84Drain::new();
    a.reads = 2;
    a.per_connector_auth_status = Some(4);
    let mut b = Ep84Drain::new();
    b.reads = 3;
    b.acks = 1;
    b.per_connector_auth_status = Some(9);
    b.observe_perhead(&PerheadHdcpPush {
        msg_id: 3,
        payload: vec![1],
    });
    a.add(b);
    assert_eq!((a.reads, a.acks), (5, 1));
    assert!(a.saw_perhead(3));
    assert_eq!(a.per_connector_repeater, Some(true));
}

#[test]
fn a_read_that_times_out_is_told_from_one_that_fails() {
    assert_eq!(read_ep84(Ok(Some(12))), Ok(12));
    assert_eq!(read_ep84(Ok(None)), Err(Error::ETIMEDOUT));
    assert_eq!(read_ep84(Err(Error::EIO)), Err(Error::EIO));
}

#[test]
fn a_frame_is_logged_line_by_line() {
    let h = wire_header(&[
        0, 0, 0, 0, 4, 0, 0, 0, 0x45, 0, 0x0a, 0, 0x59, 3, 0, 0,
    ]);
    assert_eq!((h.wtype, h.wsub, h.aux, h.wseq), (4, 0x45, 0x0a, 0x359));
    let lines = log_ep84(300);
    assert_eq!(lines.first().map(|l| l.0), Some(0));
    assert_eq!(lines.last().map(|l| l.1), Some(300));
    for pair in lines.windows(2) {
        assert_eq!(pair[0].1, pair[1].0);
    }
    assert_eq!(log_ep84(4096).last().map(|l| l.1), Some(768));
}

fn table() -> Vec<HeadStep> {
    let lens = [48usize, 48, 160, 48, 64, 48, 48, 32, 32];
    lens.iter()
        .enumerate()
        .map(|(i, &len)| HeadStep {
            id: if i == 6 { 0x26 } else { 0x30 + i as u16 },
            sub: 0x10,
            len,
        })
        .collect()
}

fn ridge() -> SetupProfile {
    SetupProfile {
        connectors: 2,
        per_connector_onehot: false,
        reply_discipline: ReplyDiscipline::Drain,
        dock_wide_init: true,
        video_commit_point: VideoCommitPoint::AfterFinalize,
        video_on_ctrl_pipe: false,
        perhead_rrx_wait_ms: 100,
        edid_ready_reported: true,
        polls_before_open: [0; 4],
        polls_after_opens: 0,
    }
}

fn navarro() -> SetupProfile {
    SetupProfile {
        connectors: 4,
        per_connector_onehot: true,
        reply_discipline: ReplyDiscipline::Lockstep,
        video_commit_point: VideoCommitPoint::BeforeConnectorRecords,
        edid_ready_reported: false,
        ..ridge()
    }
}

/// A dock of which every connector in `sinks` has a monitor.
struct Dock {
    sinks: Vec<u8>,
    connector: u8,
    asked: u8,
    tamper: bool,
    deaf: bool,
    actions: Vec<Action>,
    ms: i64,
}

impl Dock {
    fn new(sinks: &[u8]) -> Self {
        Dock {
            sinks: sinks.to_vec(),
            connector: 0,
            asked: 0,
            tamper: false,
            deaf: false,
            actions: Vec::new(),
            ms: 0,
        }
    }

    fn lit(&self) -> bool {
        self.sinks.contains(&self.connector)
    }

    fn swept(&self, mode: Mode) -> Event {
        let mut tally = Ep84Drain::new();
        if !self.deaf {
            tally.reads = 1;
            tally.acks = 1;
        }
        if self.lit() {
            let payload = |id: u8| match id {
                0x06 => vec![7u8; 8],
                0x07 | 0x0a | 0x11 => vec![id; 32],
                0x0c => vec![0x0c; 25],
                0x12 => vec![0, 0x04],
                _ => vec![0],
            };
            let ids: Vec<u8> = match mode {
                Mode::Push { want, .. } => vec![want],
                _ => vec![0x06],
            };
            for id in ids {
                tally.observe_perhead(&PerheadHdcpPush {
                    msg_id: id,
                    payload: payload(id),
                });
            }
        }
        Event::Swept { tally, edid: None }
    }

    fn answer(&mut self, action: Action) -> Event {
        self.actions.push(action);
        match action {
            Action::Pass => Event::Pass,
            Action::Sweep(mode) => self.swept(mode),
            Action::Begin(c) => {
                self.connector = c;
                Event::Done
            }
            Action::Sleep(ms) => {
                self.ms += ms;
                Event::Done
            }
            Action::ExpectH { .. } => Event::Digest(vec![if self.tamper { 1 } else { 0x07 }; 32]),
            Action::ExpectL(_) => Event::Digest(vec![0x0a; 32]),
            Action::ExpectV(_) => Event::Digest(vec![0x0c; 32]),
            Action::PostAuth { .. } => Event::Sent { len: 32 },
            Action::Live { message, .. } => {
                let mut edid = None;
                let mut tally = Ep84Drain::new();
                tally.edid_ready = true;
                if let vino::session::program::Message::Fetch(c) = message {
                    self.asked = c;
                    if self.sinks.contains(&c) {
                        edid = Some(vec![0xed, c]);
                    }
                }
                Event::LiveSent {
                    len: 32,
                    tally,
                    edid,
                }
            }
            _ => Event::Done,
        }
    }

    fn run(&mut self, profile: &SetupProfile, queued: bool) -> Setup {
        let finalize = [(0x16u16, 0x2eu16), (0x15, 0x4c), (0x16, 0x2f)];
        let mut setup = Setup::new(profile, &table(), &finalize, queued, 4);
        while !setup.is_finished() {
            self.ms += 1;
            let now = at(self.ms);
            let action = setup.action(now);
            let event = self.answer(action);
            assert!(setup.offer(event, now));
        }
        setup
    }

    fn count(&self, f: impl Fn(&Action) -> bool) -> usize {
        self.actions.iter().filter(|a| f(a)).count()
    }
}

#[test]
fn a_burst_authenticates_and_finalizes_every_monitor() {
    let mut dock = Dock::new(&[0, 1]);
    let mut setup = dock.run(&ridge(), true);
    let (sent, _wseq, ctr) = setup.result().unwrap();
    assert!(sent > 0 && ctr > 4);
    assert_eq!(setup.take_edid(0), Some(vec![0xed, 0]));
    assert_eq!(setup.take_edid(0), None);
    assert_eq!(setup.take_edid(1), Some(vec![0xed, 1]));
    assert!(!setup.is_deferred(0) && !setup.is_deferred(1));
    assert_eq!(dock.count(|a| matches!(a, Action::Finalize { .. })), 6);
    assert_eq!(setup.streams_opened(), 0);
}

#[test]
fn an_empty_connector_is_passed_over_and_never_finalized() {
    let mut dock = Dock::new(&[1]);
    let mut setup = dock.run(&ridge(), false);
    assert!(setup.result().is_ok());
    assert_eq!(setup.take_edid(0), None);
    assert_eq!(
        dock.count(|a| matches!(a, Action::Finalize { connector: 0, .. })),
        0
    );
    assert_eq!(
        dock.count(|a| matches!(a, Action::Finalize { connector: 1, .. })),
        3
    );
}

#[test]
fn a_followed_authentication_checks_every_digest() {
    let mut dock = Dock::new(&[0, 2]);
    let mut setup = dock.run(&navarro(), true);
    assert!(setup.result().is_ok());
    assert_eq!(dock.count(|a| matches!(a, Action::ExpectH { .. })), 2);
    assert_eq!(dock.count(|a| matches!(a, Action::ExpectL(_))), 2);
    assert_eq!(dock.count(|a| matches!(a, Action::ExpectV(_))), 2);
    assert_eq!(setup.take_edid(2), Some(vec![0xed, 2]));
    assert!(setup.is_deferred(1) && !setup.is_deferred(2));
    assert!(!setup.is_present(1));
}

#[test]
fn a_wrong_digest_fails_the_burst() {
    let mut dock = Dock::new(&[0]);
    dock.tamper = true;
    let setup = dock.run(&navarro(), true);
    assert_eq!(setup.result(), Err(Error::EPROTO));
}

#[test]
fn a_burst_that_is_never_acknowledged_fails() {
    let mut dock = Dock::new(&[]);
    dock.deaf = true;
    let setup = dock.run(&ridge(), true);
    assert_eq!(setup.result(), Err(Error::EPROTO));
}

#[test]
fn a_shared_pipe_opens_its_streams_and_is_not_finalized() {
    let mut dock = Dock::new(&[0, 1]);
    let profile = SetupProfile {
        video_on_ctrl_pipe: true,
        polls_before_open: [1, 2, 0, 0],
        polls_after_opens: 3,
        ..ridge()
    };
    let setup = dock.run(&profile, true);
    assert!(setup.result().is_ok());
    assert_eq!(setup.streams_opened(), 0b11);
    assert_eq!(dock.count(|a| matches!(a, Action::Finalize { .. })), 0);
}

#[test]
fn a_refused_opening_is_the_error_of_the_burst() {
    let mut setup = Setup::new(&ridge(), &table(), &[], false, 4);
    while !setup.is_finished() {
        let now = at(0);
        let event = match setup.action(now) {
            Action::Pass => Event::Pass,
            Action::Hello { .. } => Event::SendFailed(Error::EPIPE),
            Action::Sweep(_) => Event::Swept {
                tally: Ep84Drain::new(),
                edid: None,
            },
            _ => Event::Done,
        };
        setup.apply(event, now);
    }
    assert_eq!(setup.result(), Err(Error::EPIPE));
    assert_eq!(setup.nonce(), None);
    assert!(setup.receiver_list().is_none());
}

#[test]
fn an_opening_that_cannot_be_sealed_is_not_tried_again() {
    let mut setup = Setup::new(&ridge(), &table(), &[], false, 4);
    let mut tries = 0;
    while !setup.is_finished() {
        let now = at(0);
        let event = match setup.action(now) {
            Action::Pass => Event::Pass,
            Action::Hello { .. } => {
                tries += 1;
                Event::Failed(Error::ENOMEM)
            }
            _ => Event::Done,
        };
        setup.apply(event, now);
    }
    assert_eq!((setup.result(), tries), (Err(Error::ENOMEM), 1));
}

#[test]
fn an_outcome_that_no_counter_has_room_for_is_not_taken() {
    let mut setup = Setup::new(&ridge(), &table(), &[], true, u16::MAX);
    assert!(!setup.offer(Event::Done, at(0)));
    assert_eq!(setup.action(at(0)), Action::Arm);
    let mut setup = Setup::new(&ridge(), &table(), &[], true, 4);
    assert!(setup.offer(Event::Done, at(0)));
    assert_ne!(setup.action(at(0)), Action::Arm);
}

#[test]
fn a_program_starts_by_arming_the_cipher() {
    let steps = program(&ridge(), &table(), &[], true);
    assert_eq!(steps[0].op, Op::Arm);
    assert_eq!(steps[1].op, Op::HelloQueued);
    let finalizes = |s: &[(u16, u16)]| {
        program(&ridge(), &table(), s, true)
            .iter()
            .filter(|s| matches!(s.op, Op::Finalize { .. }))
            .count()
    };
    assert_eq!(finalizes(&[]), 0);
    assert_eq!(finalizes(&[(1, 2), (3, 4)]), 4);
}

#[test]
fn messages_are_laid_out_byte_by_byte() {
    assert_eq!(STREAM_OPEN[8], 0x24);
    assert_eq!(
        hello_header(32, 0x0a, 5),
        vec![0, 0, 60, 0, 4, 0, 0, 0, 0x24, 0, 0x0a, 0, 5, 0, 0, 0]
    );
    let c = init_content(0x0016, 0x002a, 0x1234, &[1, 2], &[9; 10]);
    assert_eq!(&c[..6], &[0x16, 0, 0x2a, 0, 0x34, 0x12]);
    assert_eq!(&c[22..], &[1, 2, 9, 9, 9, 9, 9, 9, 9, 9]);
    let step = table()[1];
    let c = head_content(&step, 1, 7, &[1, 2, 3, 4], &TRANSMITTER_INFO, &[8; 15]);
    assert_eq!(c.len(), 48);
    assert_eq!(&c[23..33], &[1, 2, 3, 4, 0x13, 0, 6, 2, 0, 2]);
    let c = stream_open_content(&table()[7], 7, &[8; 10]);
    assert_eq!((c.len(), c[22]), (32, 8));
    let c = stream_bind_content(&table()[8], 7, 2, 0x2f, &[8; 5]);
    assert_eq!(&c[22..], &[2, 0, 0x2f, 8, 4, 8, 8, 8, 8, 8]);
    assert_eq!(bare_content(&table()[6], 7).len(), 48);
    assert_eq!((payload_size(2), filler_size(2)), (128, 4));
    assert_eq!((payload_size(4), filler_size(4)), (24, 12));
    assert_eq!((finalize_size(0x4c), finalize_size(0x2e)), (8, 9));
    let c = finalize_content(0x15, 0x4c, 7, 1, &[8; 8]);
    assert_eq!(&c[22..25], &[1, 1, 8]);
    let c = finalize_content(0x16, 0x2e, 7, 1, &[8; 9]);
    assert_eq!(&c[22..25], &[1, 8, 8]);
}

#[test]
fn a_receiver_list_is_read_from_its_push() {
    let mut d = Ep84Drain::new();
    let mut payload = vec![1u8; 9];
    payload.extend([2u8; 16]);
    d.observe_perhead(&PerheadHdcpPush {
        msg_id: 0x0c,
        payload,
    });
    let ReceiverList { header, vprime } = d.per_connector_v.unwrap();
    assert_eq!((header, vprime), ([1; 9], [2; 16]));
}

#[test]
fn an_arrival_takes_two_probes() {
    let mut s = Socket::new(false, at(0));
    assert_eq!(s.look(true, false, at(1000)), Verdict::Stay);
    assert_eq!(s.look(true, false, at(2000)), Verdict::Engage);
    s.engage(at(2000));
    s.connect(at(2000));
    assert!(s.known);
    // A negative probe is ignored while the monitor settles.
    assert_eq!(s.look(false, false, at(3000)), Verdict::Stay);
    assert!(s.absent_since.is_none());
}

#[test]
fn a_departure_takes_five_seconds_of_evidence() {
    let mut s = Socket::new(true, at(0));
    assert_eq!(s.look(false, false, at(20_000)), Verdict::Stay);
    assert_eq!(s.look(false, false, at(24_999)), Verdict::Stay);
    assert_eq!(s.look(false, false, at(25_000)), Verdict::Drop);
    assert!(!s.known);
    // A connector that was blanked on purpose is left alone.
    let mut s = Socket::new(true, at(0));
    for t in 20..40 {
        assert_eq!(s.look(false, true, at(t * 1000)), Verdict::Stay);
    }
}

#[test]
fn a_connector_without_a_monitor_is_tried_blindly_ten_times() {
    let mut s = Socket::new(false, at(0));
    let tries = (0..30)
        .filter(|t| s.recover(Some(false), true, false, at(t * 4000)))
        .count();
    assert_eq!(tries, 10);
    assert!(s.recover(None, true, false, at(0)));
    let mut s = Socket::new(false, at(0));
    assert!(!s.recover(Some(false), false, false, at(0)));
    assert!(!s.recover(Some(false), true, true, at(0)));
}

fn facts() -> Facts {
    Facts {
        shutting_down: false,
        link_alive: true,
        initial_quiet: false,
        exclusive: false,
        reports_presence: true,
        shared_edid_handler: false,
        dock_wide_modeset: false,
        video_on_ctrl_pipe: false,
        runtime: [true; 4],
        self_blanked: [false; 4],
    }
}

#[test]
fn heartbeats_keep_their_period() {
    let mut k = Keepalive::new(&[true, false, false, false], 1000, true, at(0));
    let mut beats = Vec::new();
    for t in 0..40_000 {
        let now = at(t);
        let action = k.action();
        let event = match action {
            Upkeep::SendHeartbeat => {
                beats.push(t);
                Happened::Done
            }
            Upkeep::Probe(0) => Happened::Present,
            Upkeep::Probe(_) => Happened::Absent,
            Upkeep::Reengage(_) => Happened::Failed,
            Upkeep::Stop => panic!("the upkeep stopped"),
            _ => Happened::Done,
        };
        k.apply(event, &facts(), now);
    }
    assert!(beats.len() > 10);
    for pair in beats.windows(2) {
        assert!((pair[1] - pair[0] - HEARTBEAT_PERIOD_MS).abs() < 200);
    }
    assert!(k.polls() > 0);
    assert!(k.socket(0).unwrap().known);
    assert!(k.socket(9).is_none());
}

#[test]
fn a_monitor_that_leaves_is_dropped_and_announced() {
    let mut k = Keepalive::new(&[true, false, false, false], 1000, true, at(0));
    let mut log = Vec::new();
    for t in 0..40_000 {
        let action = k.action();
        let event = match action {
            Upkeep::Probe(_) => Happened::Absent,
            Upkeep::Reengage(_) => Happened::Failed,
            _ => Happened::Done,
        };
        if matches!(action, Upkeep::SetDisconnected(_) | Upkeep::Hotplug) {
            log.push(action);
        }
        k.apply(event, &facts(), at(t));
    }
    assert_eq!(log.first(), Some(&Upkeep::SetDisconnected(0)));
    assert_eq!(log.get(1), Some(&Upkeep::Hotplug));
    assert!(!k.socket(0).unwrap().known);
}

#[test]
fn a_dead_link_ends_the_upkeep() {
    let mut k = Keepalive::new(&[true, false, false, false], 1000, true, at(0));
    let mut f = facts();
    f.link_alive = false;
    let mut dropped = false;
    for t in 0..100 {
        let action = k.action();
        if matches!(action, Upkeep::DropConnectors) {
            dropped = true;
        }
        if matches!(action, Upkeep::Stop) {
            break;
        }
        k.apply(Happened::Done, &f, at(t));
    }
    assert!(dropped);
    assert_eq!(k.action(), Upkeep::Stop);
}

#[test]
fn refused_attempts_back_off_and_are_given_up() {
    let mut total = 0;
    for attempt in 1..8 {
        match after_attempt(attempt, false) {
            AfterAttempt::Retry(ms) => total += ms,
            other => panic!("{:?}", other),
        }
    }
    assert_eq!(total, 23_750);
    assert_eq!(after_attempt(8, false), AfterAttempt::GiveUp);
    assert_eq!(after_attempt(3, true), AfterAttempt::Established);
    assert!(in_training(at(0), at(1299), false));
    assert!(!in_training(at(0), at(1300), false));
    assert!(!in_training(at(0), at(0), true));
}

fn opening_facts() -> opening::Facts {
    opening::Facts {
        shutting_down: false,
        engaged: true,
        reports_presence: true,
        dock_wide_modeset: true,
        runtime: [true; 4],
        present: [false; 4],
    }
}

/// Run an opening to its end: what it asked for, each with the time.
fn open(
    profile: opening::Profile,
    f: opening::Facts,
    mut answer: impl FnMut(opening::Action, &mut opening::Facts) -> opening::Event,
) -> (Vec<opening::Action>, opening::Opening) {
    let mut facts = f;
    let mut ms = 0;
    let mut asked = Vec::new();
    let mut o = opening::Opening::new(profile, at(ms));
    loop {
        let action = o.next();
        if action != opening::Action::Pass {
            asked.push(action);
        }
        match action {
            opening::Action::KeepUp | opening::Action::Stop => return (asked, o),
            opening::Action::Sleep(wait) => ms += wait,
            opening::Action::SetConnected(c) => facts.present[c] = true,
            _ => {}
        }
        let event = answer(action, &mut facts);
        o.apply(event, &facts, at(ms));
    }
}

fn stepwise(onehot: bool) -> opening::Profile {
    opening::Profile {
        connectors: 4,
        offered: 4,
        per_connector_onehot: onehot,
    }
}

#[test]
fn only_answering_connectors_are_published() {
    let deferred = [false, true, false, false];
    let found = [true, true, false, true];
    let profile = opening::Profile {
        connectors: 3,
        ..stepwise(false)
    };
    let (asked, o) = open(profile, opening_facts(), |a, _| match a {
        opening::Action::Establish => opening::Event::Established { deferred, found },
        _ => opening::Event::Done,
    });
    assert_eq!(
        &asked[..8],
        &[
            opening::Action::OpenLink,
            opening::Action::Establish,
            opening::Action::Engage,
            opening::Action::SetEdid(0),
            opening::Action::SetConnected(0),
            opening::Action::ReleaseLink,
            opening::Action::OpenLink,
            opening::Action::SendStatus,
        ]
    );
    // A link is queried every fifteen milliseconds while it is trained.
    assert_eq!(o.polls(), 87);
    assert_eq!(
        &asked[asked.len() - 4..],
        &[
            opening::Action::HoldForModeset,
            opening::Action::ActivateKms,
            opening::Action::Hotplug,
            opening::Action::KeepUp,
        ]
    );
    assert!(o.is_published());
}

#[test]
fn late_connectors_are_probed_before_they_are_engaged() {
    let deferred = [true, true, true, false];
    let found = [false; 4];
    let mut facts = opening_facts();
    facts.runtime[2] = false;
    let mut tries = 0;
    let (asked, o) = open(stepwise(true), facts, |a, _| match a {
        opening::Action::Establish => opening::Event::Established { deferred, found },
        // The first has nothing plugged in; the second does not say.
        opening::Action::Probe(0) => opening::Event::Absent,
        opening::Action::Probe(_) => opening::Event::Failed,
        opening::Action::Reengage(_) => {
            tries += 1;
            if tries == 2 {
                opening::Event::Present
            } else {
                opening::Event::Failed
            }
        }
        _ => opening::Event::Done,
    });
    assert_eq!(
        &asked[3..],
        &[
            opening::Action::Probe(0),
            opening::Action::Probe(1),
            opening::Action::Reengage(1),
            opening::Action::Sleep(250),
            opening::Action::Reengage(1),
            opening::Action::SetConnected(1),
            opening::Action::Sleep(250),
            opening::Action::ReleaseLink,
            opening::Action::OpenLink,
            opening::Action::HoldForModeset,
            opening::Action::ActivateKms,
            opening::Action::Hotplug,
            opening::Action::KeepUp,
        ]
    );
    assert_eq!(o.passes(), 2);
    assert_eq!(o.polls(), 0);
}

#[test]
fn a_dock_that_reports_no_presence_is_not_engaged() {
    let mut facts = opening_facts();
    facts.reports_presence = false;
    let (asked, o) = open(stepwise(true), facts, |a, _| match a {
        opening::Action::Establish => opening::Event::Established {
            deferred: [true; 4],
            found: [false; 4],
        },
        opening::Action::Probe(_) => opening::Event::Failed,
        _ => opening::Event::Done,
    });
    assert!(!asked
        .iter()
        .any(|a| matches!(a, opening::Action::Reengage(_))));
    // Nothing to announce, so nothing is held for.
    assert!(!asked.contains(&opening::Action::HoldForModeset));
    assert!(!o.is_published());
}

#[test]
fn a_refused_opening_lets_go_between_its_attempts() {
    let (asked, _) = open(stepwise(true), opening_facts(), |a, _| match a {
        opening::Action::Establish => opening::Event::Failed,
        _ => opening::Event::Done,
    });
    assert_eq!(
        &asked[..4],
        &[
            opening::Action::OpenLink,
            opening::Action::Establish,
            opening::Action::ReleaseLink,
            opening::Action::Sleep(250),
        ]
    );
    assert_eq!(asked.len(), 4 * 8);
    assert_eq!(asked.last(), Some(&opening::Action::Stop));
    // No attempt starts once the device is going away.
    let (asked, _) = open(stepwise(true), opening_facts(), |a, f| match a {
        opening::Action::Establish => {
            f.shutting_down = true;
            opening::Event::Failed
        }
        _ => opening::Event::Done,
    });
    assert_eq!(asked.len(), 5);
    assert_eq!(asked[4], opening::Action::Stop);
}

#[test]
fn late_connectors_are_waited_for_a_bounded_time() {
    let mut r = Recovery::new(2, &[true, true], &[true, true], &[false, false], at(0));
    assert!(r.is_pending(0) && !r.is_pending(2));
    r.start(at(0));
    assert!(r.next_pass(false, at(0)));
    assert!(r.wants(0, at(0)) && r.wants(1, at(0)));
    r.probed(1, Some(false));
    assert!(!r.wants(1, at(0)));
    r.probed(0, None);
    assert!(r.wants(0, at(5_999)));
    assert!(!r.wants(0, at(6_000)));
    r.answer(0, at(5_999));
    assert!(!r.next_pass(false, at(6_000)));
    assert_eq!(r.passes(), 1);
    let mut r = Recovery::new(2, &[true, true], &[true, true], &[false, false], at(0));
    r.start(at(0));
    r.answer(0, at(5_999));
    // The sibling gets its grace.
    assert!(r.wants(1, at(7_000)));
    r.stand_down(1);
    assert!(!r.wants(1, at(7_000)));
}

fn offer() -> Offer {
    Offer {
        function: Function::Display,
        interface: Some(0),
        identified: true,
        family: true,
        update_pending: false,
        family_profile: Some(1),
        product_profile: Some(2),
    }
}

#[test]
fn an_interface_is_driven_by_its_family_else_by_its_product() {
    assert_eq!(
        probe(&offer()),
        Ok(Binding::Drive {
            profile: 1,
            quirk: false
        })
    );
    let unreadable = Offer {
        identified: false,
        ..offer()
    };
    assert_eq!(
        probe(&unreadable),
        Ok(Binding::Drive {
            profile: 2,
            quirk: true
        })
    );
    let strange = Offer {
        family_profile: None,
        ..offer()
    };
    assert_eq!(probe(&strange), Err(Error::ENODEV));
    let pending = Offer {
        update_pending: true,
        ..offer()
    };
    assert_eq!(probe(&pending), Err(Error::ENODEV));
    let bare = Offer {
        interface: None,
        ..offer()
    };
    assert_eq!(probe(&bare), Err(Error::ENODEV));
    let dfu = Offer {
        function: Function::Dfu,
        ..offer()
    };
    assert_eq!(
        probe(&dfu),
        Ok(Binding::Idle {
            check: true,
            upload: true
        })
    );
}

#[test]
fn both_functions_are_in_the_table() {
    let table = device_table();
    let row = |i: usize| {
        let (id, f) = table[i];
        (
            id.vendor,
            id.interface_class,
            id.interface_subclass,
            id.interface_protocol,
            f,
        )
    };
    assert_eq!(row(0), (0x17e9, 0xff, 0, 3, Function::Display));
    assert_eq!(row(1), (0x17e9, 0xfe, 1, 1, Function::Dfu));
}

#[test]
fn monitors_are_parked_before_the_stop_is_published() {
    assert_eq!(
        quiesce(true, true),
        vec![
            Teardown::ParkSinks,
            Teardown::BeginShutdown,
            Teardown::CancelBringup
        ]
    );
    assert!(quiesce(false, false).is_empty());
    assert_eq!(disconnect(true), Some(Teardown::Shutdown));
    assert_eq!(pre_reset(true), Some(Teardown::StopForReset));
    assert_eq!(pre_reset(false), None);
    assert_eq!(post_reset(), Err(Error::ENODEV));
    assert_eq!(hex_list(&[0x08, 0x0a, 0xff]), b"08 0a ff".to_vec());
    assert!(hex_list(&[]).is_empty());
}

#[test]
fn a_hold_sleeps_and_then_spins() {
    assert_eq!(hold_sleep(0, 10_000), Some(9_600));
    assert_eq!(hold_sleep(9_700, 10_000), None);
    assert_eq!(hold_spin(9_700, 10_000), Some(300));
    assert_eq!(hold_spin(10_000, 10_000), None);
    assert_eq!(at(5).millis_since(at(2)), 3);
    assert!(at(5).is_within(at(2), 4));
    assert!(at(7).is_beyond(at(2), 4));
    assert_eq!(at(5).plus_millis(3), at(8));
}
