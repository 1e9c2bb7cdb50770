//! Strips, records, trailers and whole frames.

use std::cell::Cell;

use vino::error::Error;
use vino::haar::coords::{all_strip_coords, damage_strip_coords};
use vino::haar::entropy::Depth;
use vino::haar::frame::{
    black_frame_ep08, black_frame_ep08_ordinary, colour_frame_ep08, colour_frame_ep08_damage,
    colour_frame_ep08_navarro_ordinary,
};
use vino::haar::geometry::{ridge_geometry, Geometry};
use vino::haar::order::{order_strips, strip_x, strip_y, ELLA_ROWS_1080P};
use vino::haar::params::{navarro_strip_params, strip_size_class};
use vino::haar::records::{
    frame_records, frame_records_navarro_ordinary, frame_records_with_boundary, record_header,
};
use vino::haar::sample::{colour_strip_at, colour_strip_blocks};
use vino::haar::strip::colour_strip;
use vino::haar::trailer::{
    ella_frame_close, ella_stream_open, frame_trailer, navarro_frame_opener,
    navarro_frame_trailer, ring_phase, FrameTrailer, PipeRing,
};
use vino::haar::walk::{framed_strip_extents, record_stats};
use vino::video::rgb565;
use vino::video_arm::{build, build_with_layout_word, CodeTables};

fn navarro() -> Geometry {
    Geometry::new(16, true, false, 3, 0x07, 3)
}

fn ella() -> Geometry {
    Geometry::new(8, true, false, 0, 0x08, 3).with_coding(CodeTables::Narrow)
}

fn flat(frames: &[Vec<u8>]) -> Vec<u8> {
    frames.concat()
}

fn total(frames: &[Vec<u8>]) -> usize {
    frames.iter().map(|f| f.len()).sum()
}

fn gradient(x: usize, y: usize) -> (u16, u16, u16) {
    (
        ((x * 7) & 0xff) as u16,
        ((y * 5) & 0xff) as u16,
        (((x + y) * 3) & 0xff) as u16,
    )
}

fn check_damage_selects_changed_strips() -> Result<(), Error> {
    // 512x128 is 2 x 2 macro-tiles, each 4 strips wide by 4 bands.
    let (w, h) = (512usize, 128usize);
    const STRIPS_PER_MACRO: usize = 16;
    let geometry = ridge_geometry();
    let full = colour_frame_ep08(geometry, w, h, 0, &gradient)?;

    // Damage over the whole surface selects every strip in the same order as the full frame.
    let dfull = colour_frame_ep08_damage(geometry, w, h, 0, &[(0, 0, w, h)], &gradient)?;
    assert_eq!(flat(&full).as_slice(), flat(&dfull).as_slice());

    // No damage, no strips.
    let empty = colour_frame_ep08_damage(geometry, w, h, 0, &[], &gradient)?;
    assert!(empty.is_empty());

    let coords = |clips: &[(usize, usize, usize, usize)]| -> Result<usize, Error> {
        Ok(damage_strip_coords(geometry, w, h, clips)?.len())
    };
    assert_eq!(coords(&[])?, 0);
    assert_eq!(coords(&[(0, 0, w, h)])?, 4 * STRIPS_PER_MACRO);

    // One pixel lands in one macro-tile and selects all of its strips.
    assert_eq!(coords(&[(1, 1, 2, 2)])?, STRIPS_PER_MACRO);
    let d1 = colour_frame_ep08_damage(geometry, w, h, 0, &[(1, 1, 2, 2)], &gradient)?;
    assert!(!d1.is_empty());
    assert!(total(&d1) < total(&full));

    // One pixel column down the left edge spans the left column of macro-tiles.
    assert_eq!(coords(&[(0, 0, 1, h)])?, 2 * STRIPS_PER_MACRO);
    let d2 = colour_frame_ep08_damage(geometry, w, h, 0, &[(0, 0, 1, h)], &gradient)?;
    assert!(total(&d1) < total(&d2) && total(&d2) < total(&full));

    // A surface that is not whole strips is rejected.
    assert!(
        colour_frame_ep08_damage(geometry, 100, 32, 0, &[(0, 0, 1, 1)], &gradient).is_err()
    );
    Ok(())
}

#[test]
fn a_damaged_frame_reads_only_its_own_strips() -> Result<(), Error> {
    let geometry = ridge_geometry();
    // The second macro-tile of the top row.
    let inside = |x: usize, y: usize| {
        assert!((256..512).contains(&x) && y < 64);
        gradient(x, y)
    };
    let part = colour_frame_ep08_damage(geometry, 512, 128, 0, &[(300, 10, 301, 11)], &inside)?;
    assert_eq!(framed_strip_extents(&part).len(), 16);
    // A surface off the grid is refused before anything is read.
    let never = |_: usize, _: usize| -> (u16, u16, u16) { panic!("read") };
    assert_eq!(
        colour_frame_ep08_damage(geometry, 100, 32, 0, &[(0, 0, 1, 1)], &never),
        Err(Error::EINVAL)
    );
    assert_eq!(
        colour_frame_ep08(geometry, 100, 32, 0, &never),
        Err(Error::EINVAL)
    );
    Ok(())
}

#[test]
fn tests_colour_frame_ep08_damage_selects_changed_strips() -> Result<(), Error> {
    check_damage_selects_changed_strips()
}

#[test]
fn video_colour_frame_ep08_damage_selects_changed_strips() -> Result<(), Error> {
    check_damage_selects_changed_strips()
}

fn check_black_training_frame() -> Result<(), Error> {
    let geometry = ridge_geometry();
    let frame = black_frame_ep08(geometry, 2560, 1440, 0)?;
    let image_len = frame.iter().map(|part| part.len()).sum::<usize>();
    assert_eq!(image_len, 203_040);
    assert_eq!(
        2_560 + image_len + frame_trailer(geometry, 0, 0).len(),
        205_696
    );
    Ok(())
}

#[test]
fn tests_black_training_frame_matches_captured_1440p_size() -> Result<(), Error> {
    check_black_training_frame()
}

#[test]
fn video_black_training_frame_matches_captured_1440p_size() -> Result<(), Error> {
    check_black_training_frame()
}

#[test]
fn stream_ids_follow_the_dock_profile() {
    let ridge = ridge_geometry();
    assert_eq!(ridge.stream_id(0), 0x0008);
    assert_eq!(ridge.stream_id(1), 0x0009);

    let navarro = navarro();
    assert_eq!(navarro.stream_id(0), 0x0007);
    assert_eq!(navarro.stream_id(1), 0x000f);
    assert_eq!(navarro.stream_id(2), 0x0017);
    assert_eq!(navarro.stream_id(3), 0x001f);

    // The one is unchanged by having read the other.
    assert_eq!(ridge.stream_id(0), 0x0008);
}

fn check_rgb565() {
    assert_eq!(rgb565(0xff, 0x00, 0x00), 0xf800);
    assert_eq!(rgb565(0x00, 0xff, 0x00), 0x07e0);
    assert_eq!(rgb565(0x00, 0x00, 0xff), 0x001f);
}

#[test]
fn tests_rgb565_packing() {
    check_rgb565();
}

#[test]
fn video_rgb565_packing() {
    check_rgb565();
}

#[test]
fn ella_stream_records_match_the_dlm_capture() {
    let geometry = ella();

    // Stream open, connector 0. Two ring descriptors naming slot 0.
    let open = ella_stream_open(geometry, 0);
    assert_eq!(
        &open[..40],
        &[
            0x00, 0x00, 0x2c, 0x00, 0x04, 0x00, 0x00, 0x00, 0x00, 0x00, 0x08, 0x00, 0x00, 0x00,
            0x00, 0x00, 0x0a, 0x00, 0x04, 0x00, 0x00, 0x00, 0x00, 0x00, 0x00, 0x00, 0x00, 0x02,
            0x0a, 0x00, 0x04, 0x00, 0x00, 0x00, 0x00, 0x00, 0x00, 0x00, 0x00, 0x00,
        ][..]
    );

    // Three consecutive frame closes on connector 0, walking the ring 0 -> 1 -> 2.
    let expect: [[u8; 40]; 3] = [
        [
            0x00, 0x00, 0x2c, 0x00, 0x04, 0x00, 0x00, 0x00, 0x00, 0x00, 0x0a, 0x00, 0x00, 0x00,
            0x00, 0x00, 0x08, 0x00, 0x05, 0x00, 0x00, 0x00, 0x00, 0x00, 0x01, 0x01, 0x0a, 0x00,
            0x04, 0x01, 0x00, 0x00, 0x00, 0x01, 0x00, 0x00, 0x00, 0x00, 0x00, 0x00,
        ],
        [
            0x00, 0x00, 0x2c, 0x00, 0x04, 0x00, 0x00, 0x00, 0x00, 0x00, 0x0a, 0x00, 0x00, 0x00,
            0x00, 0x00, 0x08, 0x00, 0x05, 0x01, 0x00, 0x00, 0x00, 0x01, 0x01, 0x02, 0x0a, 0x00,
            0x04, 0x02, 0x00, 0x00, 0x00, 0x02, 0x00, 0x00, 0x00, 0x01, 0x00, 0x00,
        ],
        [
            0x00, 0x00, 0x2c, 0x00, 0x04, 0x00, 0x00, 0x00, 0x00, 0x00, 0x0a, 0x00, 0x00, 0x00,
            0x00, 0x00, 0x08, 0x00, 0x05, 0x02, 0x00, 0x00, 0x00, 0x02, 0x01, 0x03, 0x0a, 0x00,
            0x04, 0x00, 0x00, 0x00, 0x00, 0x00, 0x00, 0x00, 0x00, 0x02, 0x00, 0x00,
        ],
    ];
    for (seq0, want) in expect.iter().enumerate() {
        let got = ella_frame_close(geometry, 0, seq0 as u32);
        assert_eq!(&got[..40], &want[..]);
    }

    // Head 1 differs only in the record's selector.
    let head1 = ella_frame_close(geometry, 1, 0);
    assert_eq!(head1[8], 0x01);
    assert_eq!(&head1[16..38], &expect[0][16..38]);
}

#[test]
fn an_encoded_strip_never_exceeds_the_decoder_input_bound() -> Result<(), Error> {
    const DECODER_STRIP_BOUND: usize = 0x0ff0 - 16 - 2;
    let state = Cell::new(0x1234_5678u32);
    let next = || {
        state.set(
            state
                .get()
                .wrapping_mul(1_103_515_245)
                .wrapping_add(12_345),
        );
        (state.get() >> 16) as u16
    };
    let mut worst = 0usize;
    let mut worst_eight = 0usize;
    for geometry in [
        ridge_geometry(),
        Geometry::new(8, true, false, 0, 0x08, 3),
        Geometry::new(16, true, false, 3, 0x07, 3),
    ] {
        for (mask, ten_bit) in [(0xffu16, false), (0x3ff, true)] {
            let geometry = if ten_bit {
                geometry.with_depth(Depth::Ten)
            } else {
                geometry
            };
            for _ in 0..16 {
                let px = |_x: usize, _y: usize| (next() & mask, next() & mask, next() & mask);
                let strip = colour_strip_at(geometry, 0, 0, &px)?;
                worst = worst.max(strip.len());
                if !ten_bit {
                    worst_eight = worst_eight.max(strip.len());
                }
            }
        }
    }
    println!("worst 8-bit encoded strip {worst_eight} B");

    // A flat strip is the one picture whose encoding can be compared exactly.
    const DLM_FLAT_STRIP: [u8; 54] = [
        0x01, 0x28, 0x00, 0x00, 0x00, 0x00, 0x00, 0x00, 0x00, 0x00, 0x36, 0x00, 0x36, 0x00,
        0x00, 0x00, 0x54, 0x15, 0xaa, 0x0a, 0x55, 0x85, 0xaa, 0x42, 0x55, 0xa1, 0xaa, 0x50,
        0x55, 0xa8, 0x2a, 0x54, 0x15, 0xaa, 0x0a, 0x55, 0x85, 0xaa, 0x42, 0x55, 0xa1, 0xaa,
        0x50, 0x55, 0xa8, 0x2a, 0x00, 0x00, 0x00, 0x00, 0x00, 0x00, 0x00, 0x00,
    ];
    let ella = ella();
    let black = |_x: usize, _y: usize| (0u16, 0u16, 0u16);
    let flat = colour_strip_at(ella, 0, 0, &black)?;
    let ramp = |x: usize, y: usize| {
        let v = ((x + y) & 0xff) as u16;
        (v, v, v)
    };
    let gradient = colour_strip_at(ella, 0, 0, &ramp)?;

    // A strip that carries payload bits pins their order.
    const NARROW_GRADIENT_HEAD: [u8; 64] = [
        0x01, 0x28, 0x00, 0x00, 0x00, 0x00, 0x00, 0x00, 0x00, 0x00, 0x48, 0x00, 0xf8, 0x00,
        0x00, 0x00, 0x5c, 0xe1, 0x0a, 0x57, 0xb8, 0xc2, 0x15, 0xae, 0x70, 0x85, 0x2b, 0x5c,
        0xe1, 0x0a, 0x57, 0xb8, 0xc2, 0x15, 0xae, 0x70, 0x85, 0x2b, 0x5c, 0x8f, 0xab, 0xc2,
        0x55, 0xe1, 0xaa, 0x70, 0x55, 0xb8, 0x2a, 0x5c, 0x15, 0xae, 0x0a, 0x55, 0xd5, 0xb8,
        0x2a, 0x5c, 0x15, 0xae, 0x0a, 0x57, 0x85, 0xab,
    ];
    assert_eq!(
        &gradient[..NARROW_GRADIENT_HEAD.len()],
        &NARROW_GRADIENT_HEAD[..]
    );
    assert_eq!(flat.len(), DLM_FLAT_STRIP.len());
    assert_eq!(&flat[..], &DLM_FLAT_STRIP[..]);
    println!("worst encoded strip {worst} B (bound {DECODER_STRIP_BOUND})");
    assert!(worst_eight <= DECODER_STRIP_BOUND);
    // The ten-bit profile does not stay inside the bound, so the framing has to refuse it.
    if worst > DECODER_STRIP_BOUND {
        let geometry = ridge_geometry().with_depth(Depth::Ten);
        let mut oversized: Vec<Vec<u8>> = Vec::new();
        loop {
            let px = |_x: usize, _y: usize| (next() & 0x3ff, next() & 0x3ff, next() & 0x3ff);
            let strip = colour_strip_at(geometry, 0, 0, &px)?;
            if strip.len() > DECODER_STRIP_BOUND {
                oversized.push(strip);
                break;
            }
        }
        assert!(frame_records(geometry, &oversized, 0).is_err());
    }
    Ok(())
}

#[test]
fn record_stats_reads_a_frame_back_off_its_own_records() -> Result<(), Error> {
    let geometry = Geometry::new(8, true, false, 0, 0x08, 3);
    let mut strips: Vec<Vec<u8>> = Vec::new();
    let px = |_x: usize, _y: usize| (0u16, 0u16, 0u16);
    for _ in 0..40 {
        strips.push(colour_strip_at(geometry, 0, 0, &px)?);
    }
    let flat = strips[0].len();
    let records = frame_records(geometry, &strips, 0)?;
    let (count, max_stride, max_strip) = record_stats(&records);
    assert!(count > 0);
    assert_eq!(max_strip, flat);
    assert!(max_stride <= 0x0ff0);
    assert_eq!(max_stride % 16, 0);
    Ok(())
}

#[test]
fn ella_band_order_is_the_producer_order_not_a_plain_interlace() {
    let rows = ELLA_ROWS_1080P;
    assert_eq!(rows.len(), 68);
    assert_eq!(&rows[..8], &[0, 3, 5, 7, 9, 11, 13, 16]);
    assert_eq!(&rows[33..37], &[65, 66, 1, 2]);
    assert_eq!(rows[67], 67);
    // Every band exactly once.
    let mut seen = [false; 68];
    for &y in rows.iter() {
        assert!(!seen[y as usize]);
        seen[y as usize] = true;
    }
    assert!(seen.iter().all(|s| *s));
}

fn check_frame_trailer() {
    let geometry = ridge_geometry();
    let t0 = frame_trailer(geometry, 0, 0);
    let t0 = t0.as_slice();
    assert_eq!(
        &t0[..32],
        &[
            0, 0, 0x1c, 0, 4, 0, 0, 0, 0, 0, 6, 0, 0, 0, 0, 0, 8, 0, 5, 0, 0, 0, 0, 0, 0, 1, 0,
            0, 0, 0, 0, 0,
        ]
    );
    assert_eq!(
        &t0[32..64],
        &[
            0, 0, 0x1c, 0, 4, 0, 0, 0, 0, 0, 4, 0, 0, 0, 0, 0, 0x0a, 0, 4, 2, 0, 0, 0, 8, 0, 0,
            0, 0, 0, 0, 0, 0,
        ]
    );
    // The last record's selector carries 0x10 in its low byte.
    assert_eq!(
        &t0[64..],
        &[
            0, 0, 0x1c, 0, 4, 0, 0, 0, 0x10, 0, 4, 0, 0, 0, 0, 0, 0x0a, 0, 4, 2, 0, 0, 0, 8, 0,
            0, 0, 0, 0, 0, 0, 0,
        ]
    );

    let t1 = frame_trailer(geometry, 1, 1);
    let t1 = t1.as_slice();
    assert_eq!(u16::from_le_bytes([t1[8], t1[9]]), 0x0001);
    assert_eq!(u16::from_le_bytes([t1[32 + 8], t1[32 + 9]]), 0x0001);
    assert_eq!(u16::from_le_bytes([t1[64 + 8], t1[64 + 9]]), 0x0011);
    assert_eq!(t1[19], 2);
    assert_eq!(t1[23], 8);
    assert_eq!(t1[25], 2);
    assert_eq!(t1[32 + 19], 4);
    assert_eq!(t1[32 + 23], 16);
    assert_eq!(t1[32 + 27], 8);
}

#[test]
fn tests_video_frame_trailer_matches_dlm_cycle_and_head() {
    check_frame_trailer();
}

#[test]
fn records_video_frame_trailer_matches_dlm_cycle_and_head() {
    check_frame_trailer();
}

#[test]
fn navarro_parameter_records_stay_within_the_record_ceiling() -> Result<(), Error> {
    let geometry = navarro();
    let frames: [Vec<u8>; 0] = [];
    for (width, height, want_records) in [(2560usize, 1440usize, 2usize), (3840, 2160, 3)] {
        let mut remembered: Vec<u8> = Vec::new();
        let out = navarro_strip_params(geometry, 0, width, height, &frames, &mut remembered)?;
        let mut off = 0usize;
        let mut records = 0usize;
        while off < out.len() {
            let size = usize::from(u16::from_le_bytes([out[off + 2], out[off + 3]]));
            assert!(size <= 0x0ff0);
            off += size + 4;
            records += 1;
        }
        assert_eq!(off, out.len());
        assert_eq!(records, want_records);
    }
    Ok(())
}

#[test]
fn video_arm_configuration_uses_mode_and_nonce() -> Result<(), Error> {
    let nonce = [0x5a; 14];
    let config = build(1920, 1080, &nonce)?;

    assert_eq!(config.len(), 1104);
    assert_eq!(&config[10..14], &[0x80, 0x07, 0x38, 0x04]);
    assert_eq!(&config[18..22], &[0x80, 0x07, 0x38, 0x04]);
    assert_eq!(&config[1090..], &nonce);
    Ok(())
}

#[test]
fn a_layout_word_is_stated_with_each_surface() -> Result<(), Error> {
    let tail = [0x5a; 14];
    let config = build_with_layout_word(2560, 1440, 0x2100, &tail)?;
    assert_eq!(config.len(), 1104);
    assert_eq!(
        &config[..26],
        &[
            0x18, 0x00, 0x0b, 0x03, 0x04, 0x02, 0x02, 0x00, 0x02, 0x00, 0x00, 0x0a, 0xa0, 0x05,
            0x00, 0x21, 0x02, 0x00, 0x00, 0x0a, 0xa0, 0x05, 0x00, 0x21, 0x00, 0x00,
        ]
    );
    assert_eq!(&config[1090..], &tail);
    Ok(())
}

#[test]
fn a_strip_states_its_position_and_reads_back_from_its_records() -> Result<(), Error> {
    let geometry = ridge_geometry();
    let mut strips = Vec::new();
    for (x, y) in all_strip_coords(geometry, 512, 64)? {
        let strip = colour_strip_at(geometry, x, y, &gradient)?;
        assert_eq!(strip_x(&strip) as usize, x);
        assert_eq!(strip_y(&strip) as usize, y);
        let blocks = colour_strip_blocks(geometry, x, y, &gradient)?;
        assert_eq!(strip, colour_strip(geometry, &blocks, x as u16, y as u16)?);
        strips.push(strip);
    }
    let order = order_strips(geometry, &strips, None);
    let frames = frame_records(geometry, &strips, 0)?;
    let found = framed_strip_extents(&frames);
    assert_eq!(found.len(), strips.len());
    for (extent, &i) in found.iter().zip(&order) {
        assert_eq!(extent.x, strip_x(&strips[i]) as usize);
        assert_eq!(extent.y, strip_y(&strips[i]) as usize);
        assert_eq!(extent.len, strips[i].len());
    }
    Ok(())
}

#[test]
fn every_dock_sends_each_strip_once() -> Result<(), Error> {
    for (geometry, ordinary) in [
        (ridge_geometry(), None),
        (ella(), None),
        (navarro(), Some(false)),
        (navarro(), Some(true)),
    ] {
        let mut strips = Vec::new();
        for (x, y) in all_strip_coords(geometry, 2560, 1440)? {
            let mut s = vec![0u8; 16];
            s[0] = 0x01;
            s[1] = 0x28;
            s[2..4].copy_from_slice(&(x as u16).to_le_bytes());
            s[4..6].copy_from_slice(&(y as u16).to_le_bytes());
            strips.push(s);
        }
        let mut order = order_strips(geometry, &strips, ordinary);
        assert_eq!(order.len(), strips.len());
        order.sort();
        assert!(order.iter().enumerate().all(|(i, &k)| i == k));
    }
    Ok(())
}

#[test]
fn a_record_states_its_size_and_kind() {
    let mut record = [0u8; 48];
    record_header(&mut record, 4, 0x1234, 0x5678, 0x9abc_def0);
    assert_eq!(
        &record[..16],
        &[0, 0, 44, 0, 4, 0, 0, 0, 0x34, 0x12, 0x78, 0x56, 0xf0, 0xde, 0xbc, 0x9a]
    );
}

#[test]
fn a_geometry_is_changed_one_thing_at_a_time() {
    let g = ella().with_steady_sub_bit(0x20);
    assert_eq!(g.opening(), ella());
    assert_eq!(g.coding(), CodeTables::Narrow);
    assert_eq!(g.with_depth(Depth::Ten).depth(), Depth::Ten);
    assert_eq!((g.strip_w(), g.strip_h()), (64, 16));
    assert_eq!((g.macro_w(), g.macro_h()), (256, 64));
    assert_eq!((navarro().strip_w(), navarro().strip_h()), (128, 8));
    assert_eq!((navarro().strip_w_shift(), navarro().strip_h_shift()), (7, 3));
    assert_eq!(navarro().connector_selector(2), 16);
    assert_eq!(FrameTrailer::none().len(), 0);
    assert_eq!(FrameTrailer::one(&[7; 32]).as_slice(), &[7; 32]);
}

#[test]
fn a_ring_has_three_phases() {
    assert_eq!(ring_phase(0), (0, 2));
    assert_eq!(ring_phase(1), (2, 4));
    assert_eq!(ring_phase(2), (4, 0));
    assert_eq!(ring_phase(3), ring_phase(0));
}

#[test]
fn a_frame_names_its_slot_and_the_one_before() {
    let pipe = PipeRing {
        slots: [4, 5, 6],
        rings: [0x1111, 0x2222, 0x3333],
    };
    let open = navarro_frame_opener(navarro(), 1, &pipe, 1);
    assert_eq!(&open[16..20], &[0x0a, 0, 4, 5]);
    assert_eq!(&open[22..24], &[0x22, 0x22]);
    assert_eq!(&open[26..28], &[0x11, 0x11]);
    let close = navarro_frame_trailer(navarro(), 1, &pipe, 1);
    assert_eq!(close.len(), 32);
    assert_eq!(close.as_slice()[19], 5);
}

#[test]
fn size_classes_are_half_kilobytes() {
    assert_eq!(strip_size_class(0), 0);
    assert_eq!(strip_size_class(511), 0);
    assert_eq!(strip_size_class(512), 1);
    assert_eq!(strip_size_class(2048), 4);
}

#[test]
fn an_over_long_strip_is_refused() {
    let strips = vec![vec![0u8; 0x0ff0]];
    assert_eq!(
        frame_records(ridge_geometry(), &strips, 0),
        Err(Error::EOVERFLOW)
    );
}

#[test]
fn a_black_frame_is_the_frame_of_a_black_picture() -> Result<(), Error> {
    let black = |_x: usize, _y: usize| (0u16, 0u16, 0u16);
    let geometry = ridge_geometry();
    assert_eq!(
        black_frame_ep08(geometry, 512, 128, 0)?,
        colour_frame_ep08(geometry, 512, 128, 0, &black)?
    );
    assert_eq!(
        black_frame_ep08_ordinary(navarro(), 512, 128, 1)?,
        colour_frame_ep08_navarro_ordinary(navarro(), 512, 128, 1, &black)?
    );
    assert!(black_frame_ep08(geometry, 100, 100, 0).is_err());
    // The grid itself covers whatever it is asked to.
    assert_eq!(all_strip_coords(geometry, 100, 20)?, vec![(0, 0), (64, 0), (0, 16), (64, 16)]);
    Ok(())
}

#[test]
fn the_ordinary_framing_is_the_boundary_framing() -> Result<(), Error> {
    let geometry = navarro();
    let mut strips = Vec::new();
    for (x, y) in all_strip_coords(geometry, 512, 64)? {
        strips.push(colour_strip_at(geometry, x, y, &gradient)?);
    }
    assert_eq!(
        frame_records_navarro_ordinary(geometry, &strips, 0)?,
        frame_records_with_boundary(geometry, &strips, 0, Some(true))?
    );
    Ok(())
}
