//! The colour and Haar transforms, the quantisers and the variable-length code.

use vino::error::Error;
use vino::haar::entropy::{mag_category, Depth, ARGB8888, XRGB2101010, XRGB8888};
use vino::haar::geometry::ridge_geometry;
use vino::haar::quant::{quantize, quantize_chroma_ac, quantize_dc_round};
use vino::haar::strip::{chroma_last, colour_block, colour_strip};
use vino::haar::transform::{colour, transform, BLOCK, COEFFS, DIM, PIXELS};
use vino::haar::vlc::Vlc;
use vino::simd::{
    bench_shares, check_inblock, colour_block_transforms, cpu_has, encoder_simd, make_blocks,
    ns_per, percent, transform_inblock, transform_lanes, BenchTimes,
};

fn check_colour_and_quantize() {
    // White maps to Y=16320, achromatic pixels have zero chroma, and red's floored luma is 4032.
    assert_eq!(colour(255, 255, 255), (16320, 0, 0));
    assert_eq!(colour(128, 128, 128), (128 * 64, 0, 0));
    assert_eq!(colour(255, 0, 0), (4032, 64 * 255, 0));
    // Green has two negative signed-chroma components.
    assert_eq!(colour(0, 255, 0), (8128, -64 * 255, -64 * 255));
    assert_eq!(colour(0, 0, 255), (4032, 0, 64 * 255));
    // White quantizes to 1020 at DC position zero.
    assert_eq!(quantize(16320, 0), 1020);
    // AC clamps to the 12-bit signed long-token range.
    assert_eq!(quantize(1_000_000, 16), 2047);
    assert_eq!(quantize(-1_000_000, 16), -2048);
}

#[test]
fn wht_colour_and_quantize() {
    check_colour_and_quantize();
}

#[test]
fn haar_colour_and_quantize() {
    check_colour_and_quantize();
}

#[test]
fn haar_colour_carries_ten_bit_unchanged() {
    assert_eq!(colour(1023, 1023, 1023), (64 * 1023, 0, 0));
    assert_eq!(colour(512, 512, 512), (512 * 64, 0, 0));
    assert_eq!(colour(1023, 0, 0), (64 * (1023 >> 2), 64 * 1023, 0));
    // Ten-bit white quantises to 4092 at DC.
    let (y, _, _) = colour(1023, 1023, 1023);
    assert_eq!(quantize_dc_round(0, transform(&[y; BLOCK])[0]), 4092);
}

#[test]
fn haar_strip_encoding_follows_the_depth() {
    let white = colour(1023, 1023, 1023).0;
    let plane = [white; PIXELS];
    let zero = [0i32; PIXELS];
    let mut blocks = Vec::new();
    for _ in 0..16 {
        blocks.push(colour_block(&zero, &zero, &plane));
    }
    let geometry = ridge_geometry();
    let eight = colour_strip(geometry, &blocks, 0, 0).unwrap();
    let ten = colour_strip(geometry.with_depth(Depth::Ten), &blocks, 0, 0).unwrap();
    assert_ne!(eight[..], ten[..]);
    // Saturating at the lower ceiling costs bits, so the 8-bit encoding is the shorter one.
    assert!(eight.len() <= ten.len());
}

#[test]
fn a_strip_within_eight_bits_is_the_same_at_ten() {
    let geometry = ridge_geometry();
    let zero = [0i32; PIXELS];
    for (sample, same) in [(0, true), (100, true), (127, true), (255, false), (256, false)] {
        let plane = [colour(sample, sample, sample).0; PIXELS];
        let mut blocks = Vec::new();
        for _ in 0..16 {
            blocks.push(colour_block(&zero, &zero, &plane));
        }
        let eight = colour_strip(geometry, &blocks, 64, 32).unwrap();
        let ten = colour_strip(geometry.with_depth(Depth::Ten), &blocks, 64, 32).unwrap();
        assert_eq!(eight == ten, same, "sample {}", sample);
        assert!(eight.len() <= ten.len());
        // What follows the position does not depend on it.
        let moved = colour_strip(geometry, &blocks, 0, 0).unwrap();
        assert_eq!(eight[6..], moved[6..]);
        let row0 = u16::from_le_bytes([eight[10], eight[11]]) as usize;
        let row1 = u16::from_le_bytes([eight[12], eight[13]]) as usize;
        assert!(18 < row0 && row0 <= row1 && row1 <= eight.len());
    }
}

fn check_chroma_last() {
    let mut q = [0i32; COEFFS];
    assert_eq!(chroma_last(&q), 0);
    for exact in [1usize, 2, 3, 4, 7, 8, 11, 15, 16, 27, 31, 32, 48, 62, 63] {
        q.fill(0);
        q[exact] = 1;
        assert_eq!(chroma_last(&q), exact);
    }
}

#[test]
fn wht_chroma_last_is_exact() {
    check_chroma_last();
}

#[test]
fn haar_chroma_last_is_exact() {
    check_chroma_last();
}

#[test]
fn haar_depth_selects_the_ac_codebooks() {
    assert_eq!(Depth::Eight.ac_cmax(), 9);
    assert_eq!(Depth::Ten.ac_cmax(), 11);
    assert_eq!(Depth::Eight.chroma_ac_cmax(), 10);
    assert_eq!(Depth::Ten.chroma_ac_cmax(), 12);
    assert_eq!(Depth::Ten.ac_cmax(), Depth::Eight.ac_cmax() + 2);
    assert_eq!(
        Depth::Ten.chroma_ac_cmax(),
        Depth::Eight.chroma_ac_cmax() + 2
    );
    assert_eq!(Depth::Ten.dc_cmax(), Depth::Eight.dc_cmax() + 2);
    // Chroma stays one category above luma.
    assert_eq!(Depth::Eight.chroma_ac_cmax(), Depth::Eight.ac_cmax() + 1);
    assert_eq!(Depth::Ten.chroma_ac_cmax(), Depth::Ten.ac_cmax() + 1);
}

#[test]
fn haar_depth_selects_the_dc_codebook() {
    assert_eq!(Depth::Eight.dc_cmax(), 10);
    assert_eq!(Depth::Ten.dc_cmax(), 12);
    // A luma DC is four times the sample, so each ceiling holds its depth's largest value.
    assert_eq!(mag_category(4 * 255), Depth::Eight.dc_cmax());
    assert_eq!(mag_category(4 * 1023), Depth::Ten.dc_cmax());
}

#[test]
fn haar_depth_from_fourcc() {
    assert!(matches!(Depth::from_fourcc(XRGB8888), Some(Depth::Eight)));
    assert!(matches!(
        Depth::from_fourcc(XRGB2101010),
        Some(Depth::Ten)
    ));
    assert!(Depth::from_fourcc(ARGB8888).is_none());
}

fn check_transform_uniform() {
    // A uniform block has the per-pixel value at DC and zero AC terms.
    let block = [16320i32; BLOCK];
    let c = transform(&block);
    assert_eq!(c[0], 16320);
    assert!(c[1..].iter().all(|&x| x == 0));
    // White pixel -> Y plane -> DC -> quantized value.
    let (y, _, _) = colour(255, 255, 255);
    assert_eq!(quantize(transform(&[y; BLOCK])[0], 0), 1020);
}

#[test]
fn wht_transform_uniform() {
    check_transform_uniform();
}

#[test]
fn haar_transform_uniform() {
    check_transform_uniform();
}

fn quantized_by_division(coeff: i32, step: i32, bias: i32) -> i32 {
    let q = if bias == 0 {
        let q = coeff.abs() / step;
        if coeff < 0 {
            -q
        } else {
            q
        }
    } else {
        (coeff + bias).div_euclid(step)
    };
    q.clamp(-2048, 2047)
}

fn check_quantiser_shifts() {
    const LIMIT: i32 = 200_000;
    let step_bias = |i: usize| -> (i32, i32) {
        match i {
            0 | 1 | 2 => (16, 8),
            3 => (32, 16),
            4..=11 => (4, 2),
            12..=15 => (8, 4),
            16..=47 => (2, 0),
            _ => (4, 2),
        }
    };
    for i in 0..COEFFS {
        let (step, bias) = step_bias(i);
        for coeff in (-LIMIT..=LIMIT).step_by(37) {
            assert_eq!(quantize(coeff, i), quantized_by_division(coeff, step, bias));
        }
    }
    // Every exact multiple and half-step of the divisor, on both signs, is where floor and
    // truncation differ.
    for i in 0..COEFFS {
        let (step, bias) = step_bias(i);
        for m in -4i32..=4 {
            for d in [-1, 0, 1, step / 2, -step / 2] {
                let coeff = m * step + d;
                assert_eq!(quantize(coeff, i), quantized_by_division(coeff, step, bias));
            }
        }
    }
}

#[test]
fn tests_quantiser_shifts_match_division() {
    check_quantiser_shifts();
}

#[test]
fn transform_quantiser_shifts_match_division() {
    check_quantiser_shifts();
}

fn build(gray: impl Fn(usize, usize) -> i32) -> [i32; PIXELS] {
    let mut b = [0i32; PIXELS];
    for r in 0..DIM {
        for c in 0..DIM {
            b[r * DIM + c] = 64 * gray(r, c);
        }
    }
    b
}

fn check_haar_vectors() {
    // Period-two vertical stripe: the level-two HL band is -2040.
    let c = transform(&build(|_, c| if (c / 2) & 1 != 0 { 255 } else { 0 }));
    assert_eq!(&c[4..8], &[-2040, -2040, -2040, -2040]);
    assert!(c[1..4].iter().all(|&x| x == 0) && c[8..].iter().all(|&x| x == 0));
    // Period-four vertical stripe: coarse HL is -8160.
    let c = transform(&build(|_, c| if (c / 4) & 1 != 0 { 255 } else { 0 }));
    assert_eq!(c[1], -8160);
    // Period-two horizontal stripe: the level-two LH band is -2040.
    let c = transform(&build(|r, _| if (r / 2) & 1 != 0 { 255 } else { 0 }));
    assert_eq!(&c[8..12], &[-2040, -2040, -2040, -2040]);
    // A per-column gradient exercises DC, coarse HL and the finest band.
    let c = transform(&build(|_, col| 36 * col as i32));
    assert_eq!(c[0], 8064);
    assert_eq!(&c[4..8], &[-576, -576, -576, -576]);
    // It has no vertical detail.
    assert!(c[16..32].iter().all(|&x| x == -72));
    assert!(c[32..].iter().all(|&x| x == 0));
}

#[test]
fn wht_transform_haar_vectors() {
    check_haar_vectors();
}

#[test]
fn haar_transform_haar_vectors() {
    check_haar_vectors();
}

fn check_vlc_codebook() -> Result<(), Error> {
    let mut w = Vlc::new();
    for _ in 0..4 {
        w.symbol(7)?;
    }
    assert_eq!(&w.finish()?[..], &[0x87, 0xc3, 0xe1, 0xf0]);
    let mut w = Vlc::new();
    for s in [0usize, 0, 0, 7, 7, 7, 7] {
        w.symbol(s)?;
    }
    assert_eq!(&w.finish()?[..4], &[0x38, 0x1c, 0x0e, 0x87]);
    // The one-bit code alone: one byte padded with seven 1-bits.
    let mut w = Vlc::new();
    w.symbol(0)?;
    assert_eq!(&w.finish()?[..], &[0xfe]);
    Ok(())
}

#[test]
fn wht_vlc_codebook_byte_exact() -> Result<(), Error> {
    check_vlc_codebook()
}

#[test]
fn haar_vlc_codebook_byte_exact() -> Result<(), Error> {
    check_vlc_codebook()
}

fn check_coeff_magnitude_code() -> Result<(), Error> {
    let mut w = Vlc::new();
    for _ in 0..4 {
        w.coeff(-4)?;
    }
    assert_eq!(&w.finish()?[..], &[0x87, 0xc3, 0xe1, 0xf0]);
    let mut w = Vlc::new();
    w.coeff(0)?;
    assert_eq!(&w.finish()?[..], &[0xfe]);
    let mut w = Vlc::new();
    w.coeff(-6)?;
    assert_eq!(&w.finish()?[..], &[0x97]);
    let mut w = Vlc::new();
    w.coeff(6)?;
    assert_eq!(&w.finish()?[..], &[0xd7]);
    let mut w = Vlc::new();
    w.coeff(-16)?;
    assert_eq!(&w.finish()?[..], &[0x1f, 0xf8]);
    // The unsupported long-form escape is rejected.
    let mut w = Vlc::new();
    assert!(w.coeff(-256).is_err());
    Ok(())
}

#[test]
fn wht_coeff_magnitude_code() -> Result<(), Error> {
    check_coeff_magnitude_code()
}

#[test]
fn haar_coeff_magnitude_code() -> Result<(), Error> {
    check_coeff_magnitude_code()
}

fn check_magnitude_category() {
    assert_eq!(mag_category(0), 0);
    assert_eq!(mag_category(1), 1);
    assert_eq!(mag_category(-4), 3);
    assert_eq!(mag_category(7), 3);
    assert_eq!(mag_category(-8), 4);
    assert_eq!(mag_category(16), 5);
    assert_eq!(mag_category(-128), 8);
    assert_eq!(mag_category(255), 8);
}

#[test]
fn wht_magnitude_category() {
    check_magnitude_category();
}

#[test]
fn haar_magnitude_category() {
    check_magnitude_category();
}

#[test]
fn vlc_refuses_magnitudes_past_its_codebook() {
    let mut w = Vlc::new();
    assert_eq!(w.coeff(256), Err(Error::EOVERFLOW));
    assert_eq!(w.coeff(255), Ok(()));
}

#[test]
fn chroma_ac_is_quantised_by_its_own_steps() {
    assert_eq!(quantize_chroma_ac(0, 5), 0);
    assert_eq!(quantize_chroma_ac(160, 1), 10);
    assert_eq!(quantize_chroma_ac(160, 20), 5);
    assert_eq!(quantize_chroma_ac(160, 63), 3);
    // Half a step rounds up, on either sign.
    assert_eq!(quantize_chroma_ac(8, 1), 1);
    assert_eq!(quantize_chroma_ac(-8, 1), 0);
}

#[test]
fn the_in_block_kernel_agrees_with_the_transform() {
    let blocks = make_blocks(5).unwrap();
    assert_eq!(blocks.len(), 5);
    for b in &blocks {
        assert_eq!(transform_inblock(b), transform(b));
    }
    assert_eq!(check_inblock(&blocks), Ok(()));
    let lanes = transform_lanes(&blocks, 3);
    assert_eq!(lanes.len(), 3);
    for (got, b) in lanes.iter().zip(&blocks) {
        assert_eq!(*got, transform(b));
    }
}

#[test]
fn the_kernel_is_used_only_where_the_processor_has_it() {
    assert!(encoder_simd(true, true));
    assert!(!encoder_simd(true, false));
    assert!(!encoder_simd(false, true));
    assert!(cpu_has(&[0, 0b100], 34));
    assert!(!cpu_has(&[0, 0b100], 33));
    let b = [[1i32; 64], [2; 64], [3; 64]];
    assert!(colour_block_transforms(false, &b[0], &b[1], &b[2]).is_none());
    let (cr, cb, y) = colour_block_transforms(true, &b[0], &b[1], &b[2]).unwrap();
    assert_eq!((cr, cb, y), (transform(&b[0]), transform(&b[1]), transform(&b[2])));
}

#[test]
fn benchmark_figures_are_per_item_and_in_percent() {
    assert_eq!(ns_per(1000, 4), 250);
    assert_eq!(percent(25, 50), 50);
    assert_eq!(percent(1, 0), 0);
    assert_eq!(ns_per(5, 0), 0);
    assert_eq!(ns_per(-7, 2), -3);
    let s = bench_shares(BenchTimes {
        scalar_ns: 10,
        strip_ns: 10_000,
        px_ns: 2,
        block_ns: 100,
        entropy_ns: 3_000,
    });
    assert_eq!((s.in_transform, s.transform_share), (480, 4));
    assert_eq!((s.in_colour, s.colour_share), (2048, 20));
    assert_eq!((s.in_blocks, s.block_share), (1600, 16));
    assert_eq!(s.entropy_share, 30);
}
