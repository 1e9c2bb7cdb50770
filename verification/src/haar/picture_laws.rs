//! What becomes of a picture: every pixel of a strip has its place in a block, and the tokens of a
//! block still show it.

use vstd::prelude::*;

use crate::haar::bits;
use crate::haar::decode;
use crate::haar::entropy;
use crate::haar::entropy::Depth;
use crate::haar::geometry::Geometry;
use crate::haar::quant;
use crate::haar::sample;
use crate::haar::strip;
use crate::haar::transform;

verus! {

/// Every pixel of a strip is one sample of one of its sixteen blocks: the strip's blocks run across
/// and then down, eight pixels each way, and so do a block's samples.
pub proof fn law_every_pixel_has_its_sample(g: Geometry, ox: int, oy: int, x: int, y: int)
    requires
        g.shaped(),
        ox <= x < ox + g.width(),
        oy <= y < oy + g.height(),
    ensures
        ({
            let k = ((y - oy) / 8) * (g.width() / 8) + (x - ox) / 8;
            let i = 8 * ((y - oy) % 8) + (x - ox) % 8;
            &&& 0 <= k < 16
            &&& 0 <= i < 64
            &&& sample::sample_x(g, ox, k, i) == x
            &&& sample::sample_y(g, oy, k, i) == y
        }),
{
    let (dx, dy) = (x - ox, y - oy);
    let k = (dy / 8) * (g.width() / 8) + dx / 8;
    let i = 8 * (dy % 8) + dx % 8;
    assert(i % 8 == dx % 8 && i / 8 == dy % 8);
    if g.width() == 64 {
        assert(k == (dy / 8) * 8 + dx / 8);
        assert(k % 8 == dx / 8 && k / 8 == dy / 8);
    } else {
        assert(dy / 8 == 0);
        assert(k == dx / 8);
        assert(k % 16 == dx / 8 && k / 16 == 0);
    }
}

/// No two samples of a strip are the same pixel.
pub proof fn law_samples_are_distinct_pixels(
    g: Geometry,
    ox: int,
    oy: int,
    j: int,
    i: int,
    k: int,
    l: int,
)
    requires
        g.shaped(),
        0 <= j < 16,
        0 <= k < 16,
        0 <= i < 64,
        0 <= l < 64,
        sample::sample_x(g, ox, j, i) == sample::sample_x(g, ox, k, l),
        sample::sample_y(g, oy, j, i) == sample::sample_y(g, oy, k, l),
    ensures
        j == k,
        i == l,
{
    if g.width() == 64 {
        assert(8 * (j % 8) + i % 8 == 8 * (k % 8) + l % 8);
        assert(8 * (j / 8) + i / 8 == 8 * (k / 8) + l / 8);
    } else {
        assert(8 * (j % 16) + i % 8 == 8 * (k % 16) + l % 8);
        assert(8 * (j / 16) + i / 8 == 8 * (k / 16) + l / 8);
    }
}

/// What a luma token stands for at position `i`.
pub open spec fn luma_weight(i: int) -> int {
    if i < 3 {
        16
    } else if i == 3 {
        32
    } else if i < 12 {
        4
    } else if i < 16 {
        8
    } else if i < 48 {
        2
    } else {
        4
    }
}

/// What a chroma token stands for at position `i`.
pub open spec fn chroma_weight(i: int) -> int {
    if i == 0 {
        64
    } else if i < 3 {
        16
    } else if i == 3 {
        32
    } else if i < 12 {
        16
    } else if i < 48 {
        32
    } else {
        64
    }
}

/// The coefficients that luma tokens stand for.
pub open spec fn luma_shown(q: Seq<int>) -> Seq<int> {
    Seq::new(64, |i: int| luma_weight(i) * q[i])
}

/// The coefficients that chroma tokens stand for.
pub open spec fn chroma_shown(q: Seq<int>) -> Seq<int> {
    Seq::new(64, |i: int| chroma_weight(i) * q[i])
}

/// Whether two numbers are at most `by` apart.
pub open spec fn near(a: int, b: int, by: int) -> bool {
    -by <= a - b <= by
}

/// Signs keep numbers as close together as they are.
proof fn lemma_signed_near(second: int, other: int, a: int, b: int, by: int)
    requires
        near(a, b, by),
    ensures
        near(transform::half(second) * a, transform::half(second) * b, by),
        near(
            transform::half(second) * transform::half(other) * a,
            transform::half(second) * transform::half(other) * b,
            by,
        ),
{
    transform::lemma_signs(second, other, a);
    transform::lemma_signs(second, other, b);
}

/// Coefficients that are close together rebuild samples that are.
proof fn lemma_rebuilt_near(
    a: Seq<int>,
    b: Seq<int>,
    r: int,
    c: int,
    p0: int,
    p1: int,
    p3: int,
    m: int,
    mh: int,
    f: int,
    fh: int,
)
    requires
        0 <= r < 8,
        0 <= c < 8,
        near(a[0], b[0], p0),
        near(a[1], b[1], p1),
        near(a[2], b[2], p1),
        near(a[3], b[3], p3),
        forall|i: int| 4 <= i < 12 ==> near(#[trigger] a[i], b[i], m),
        forall|i: int| 12 <= i < 16 ==> near(#[trigger] a[i], b[i], mh),
        forall|i: int| 16 <= i < 48 ==> near(#[trigger] a[i], b[i], f),
        forall|i: int| 48 <= i < 64 ==> near(#[trigger] a[i], b[i], fh),
    ensures
        near(
            transform::rebuilt(a, r, c),
            transform::rebuilt(b, r, c),
            p0 + 2 * p1 + p3 + 4 * (2 * m + mh) + 16 * (2 * f + fh),
        ),
{
    let q = 2 * (r / 4) + c / 4;
    let i = transform::scanned_at(r / 2, c / 2);
    transform::lemma_scanned_at(r / 2, c / 2);
    assert(0 <= q < 4);
    let (x3, y3) = (c / 4, r / 4);
    let (x2, y2) = (c / 2 % 2, r / 2 % 2);
    let (x1, y1) = (c % 2, r % 2);
    lemma_signed_near(x3, y3, a[1], b[1], p1);
    lemma_signed_near(y3, x3, a[2], b[2], p1);
    lemma_signed_near(x3, y3, a[3], b[3], p3);
    lemma_signed_near(x2, y2, a[4 + q], b[4 + q], m);
    lemma_signed_near(y2, x2, a[8 + q], b[8 + q], m);
    lemma_signed_near(x2, y2, a[12 + q], b[12 + q], mh);
    lemma_signed_near(x1, y1, a[16 + i], b[16 + i], f);
    lemma_signed_near(y1, x1, a[32 + i], b[32 + i], f);
    lemma_signed_near(x1, y1, a[48 + i], b[48 + i], fh);
}

/// The details of samples from zero to `top` are at most half of what they are made of.
proof fn lemma_details_of_light(src: Seq<int>, n: int, top: int, x: bool, y: bool)
    requires
        n == 8 || n == 4 || n == 2,
        src.len() == n * n,
        forall|i: int| 0 <= i < src.len() ==> 0 <= #[trigger] src[i] <= top,
    ensures
        forall|k: int|
            0 <= k < transform::subband(src, n, x, y).len() ==> {
                let v = #[trigger] transform::subband(src, n, x, y)[k];
                if x || y {
                    -2 * top <= v <= 2 * top
                } else {
                    0 <= v <= 4 * top
                }
            },
{
    transform::lemma_subband_len(src, n);
    assert forall|k: int| 0 <= k < transform::subband(src, n, x, y).len() implies {
        let v = #[trigger] transform::subband(src, n, x, y)[k];
        if x || y {
            -2 * top <= v <= 2 * top
        } else {
            0 <= v <= 4 * top
        }
    } by {
        transform::lemma_subband_entry(src, n, k, 2 * n * (k / (n / 2)) + 2 * (k % (n / 2)));
    }
}

/// How large the coefficients of samples from zero to `64 * top` are.
proof fn lemma_light_coefficients(samples: Seq<int>, top: int)
    requires
        samples.len() == 64,
        0 <= top,
        forall|i: int| 0 <= i < 64 ==> 0 <= #[trigger] samples[i] <= 64 * top,
    ensures
        forall|i: int| 1 <= i < 4 ==> near(#[trigger] transform::transform_spec(samples)[i], 0, 32
            * top),
        forall|i: int| 4 <= i < 16 ==> near(#[trigger] transform::transform_spec(samples)[i], 0, 8
            * top),
        forall|i: int| 16 <= i < 64 ==> near(#[trigger] transform::transform_spec(samples)[i], 0, 2
            * top),
{
    reveal(transform::mallat);
    let ll1 = transform::subband(samples, 8, false, false);
    let ll2 = transform::subband(ll1, 4, false, false);
    transform::lemma_subband_len(samples, 8);
    transform::lemma_subband_len(ll1, 4);
    transform::lemma_subband_len(ll2, 2);
    lemma_details_of_light(samples, 8, 64 * top, false, false);
    lemma_details_of_light(samples, 8, 64 * top, true, false);
    lemma_details_of_light(samples, 8, 64 * top, false, true);
    lemma_details_of_light(samples, 8, 64 * top, true, true);
    lemma_details_of_light(ll1, 4, 256 * top, false, false);
    lemma_details_of_light(ll1, 4, 256 * top, true, false);
    lemma_details_of_light(ll1, 4, 256 * top, false, true);
    lemma_details_of_light(ll1, 4, 256 * top, true, true);
    lemma_details_of_light(ll2, 2, 1024 * top, true, false);
    lemma_details_of_light(ll2, 2, 1024 * top, false, true);
    lemma_details_of_light(ll2, 2, 1024 * top, true, true);
    let t = transform::transform_spec(samples);
    assert forall|i: int| 1 <= i < 4 implies near(#[trigger] t[i], 0, 32 * top) by {
        assert(-2048 * top <= transform::mallat(samples, i) <= 2048 * top);
    }
    assert forall|i: int| 4 <= i < 16 implies near(#[trigger] t[i], 0, 8 * top) by {
        assert(-512 * top <= transform::mallat(samples, i) <= 512 * top);
    }
    assert forall|i: int| 16 <= i < 64 implies near(#[trigger] t[i], 0, 2 * top) by {
        let k = if i < 32 {
            i - 16
        } else if i < 48 {
            i - 32
        } else {
            i - 48
        };
        assert(0 <= transform::morton(k) < 16) by {
            transform::lemma_scan_is_morton(k);
        }
        assert(-128 * top <= transform::mallat(samples, i) <= 128 * top);
    }
}

/// A luma token stands for its coefficient to within half its weight, or within its weight in the
/// two bands that are cut off, unless it is held to the token range.
pub proof fn law_luma_tokens_stand_for_their_coefficients(coeff: int, i: int)
    requires
        1 <= i < 64,
        -2047 * luma_weight(i) <= coeff <= 2046 * luma_weight(i),
    ensures
        near(luma_weight(i) * quant::quantize_spec(coeff, i), coeff, luma_weight(i) / 2),
        16 <= i < 48 ==> near(luma_weight(i) * quant::quantize_spec(coeff, i), coeff, 1),
        coeff >= 0 && 16 <= i < 48 ==> luma_weight(i) * quant::quantize_spec(coeff, i) <= coeff,
        coeff <= 0 && 16 <= i < 48 ==> luma_weight(i) * quant::quantize_spec(coeff, i) >= coeff,
{
    let w = luma_weight(i);
    let q = quant::quantize_spec(coeff, i);
    if i < 3 {
        let v = (coeff + 8) / 16;
        assert(quant::luma_step(i) == 16 && quant::luma_bias(i) == 8);
        assert(16 * v <= coeff + 8 < 16 * v + 16);
        assert(-2048 <= v <= 2047);
        assert(q == v && w * q == 16 * v);
    } else if i == 3 {
        let v = (coeff + 16) / 32;
        assert(quant::luma_step(i) == 32 && quant::luma_bias(i) == 16);
        assert(32 * v <= coeff + 16 < 32 * v + 32);
        assert(-2048 <= v <= 2047);
        assert(q == v && w * q == 32 * v);
    } else if i < 12 {
        let v = (coeff + 2) / 4;
        assert(quant::luma_step(i) == 4 && quant::luma_bias(i) == 2);
        assert(4 * v <= coeff + 2 < 4 * v + 4);
        assert(-2048 <= v <= 2047);
        assert(q == v && w * q == 4 * v);
    } else if i < 16 {
        let v = (coeff + 4) / 8;
        assert(quant::luma_step(i) == 8 && quant::luma_bias(i) == 4);
        assert(8 * v <= coeff + 4 < 8 * v + 8);
        assert(-2048 <= v <= 2047);
        assert(q == v && w * q == 8 * v);
    } else if i < 48 {
        let v = quant::truncated(coeff, 2);
        assert(quant::luma_step(i) == 2);
        assert(-1 <= 2 * v - coeff <= 1);
        assert(-2048 <= v <= 2047);
        assert(q == v && w * q == 2 * v);
    } else {
        let v = (coeff + 2) / 4;
        assert(quant::luma_step(i) == 4 && quant::luma_bias(i) == 2);
        assert(4 * v <= coeff + 2 < 4 * v + 4);
        assert(-2048 <= v <= 2047);
        assert(q == v && w * q == 4 * v);
    }
}

/// A chroma token stands for its coefficient to within half its weight, and so do the DCs.
pub proof fn law_chroma_tokens_stand_for_their_coefficients(coeff: int, i: int)
    ensures
        1 <= i < 64 ==> near(
            chroma_weight(i) * quant::quantize_chroma_spec(coeff, i),
            coeff,
            chroma_weight(i) / 2,
        ),
        near(64 * quant::quantize_dc_spec(1, coeff), coeff, 32),
        near(64 * quant::quantize_dc_spec(2, coeff), coeff, 32),
        near(16 * quant::quantize_dc_spec(0, coeff), coeff, 8),
{
    let w = chroma_weight(i);
    let q = quant::quantize_chroma_spec(coeff, i);
    if 1 <= i < 64 {
        if w == 16 {
            assert(w * q == 16 * q);
        } else if w == 32 {
            assert(w * q == 32 * q);
        } else {
            assert(w * q == 64 * q);
        }
    }
}

/// The luma of a block is still there after quantisation: each sample, rebuilt from what the
/// block's tokens stand for, is off by less than three and a quarter code words.
pub proof fn law_luma_survives_its_tokens(samples: Seq<int>, r: int, c: int)
    requires
        samples.len() == 64,
        forall|i: int| 0 <= i < 64 ==> 0 <= #[trigger] samples[i] <= 64 * 1023,
        0 <= r < 8,
        0 <= c < 8,
    ensures
        near(
            transform::rebuilt(luma_shown(strip::luma_plane(samples)), r, c),
            samples[8 * r + c],
            199,
        ),
{
    let t = transform::transform_spec(samples);
    let d = luma_shown(strip::luma_plane(samples));
    lemma_light_coefficients(samples, 1023);
    law_chroma_tokens_stand_for_their_coefficients(t[0], 0);
    assert(d[0] == 16 * quant::quantize_dc_spec(0, t[0]));
    assert forall|i: int| 1 <= i < 64 implies near(#[trigger] d[i], t[i], luma_weight(i) / 2) by {
        assert(near(t[i], 0, 32736));
        assert(-2047 * luma_weight(i) <= t[i] <= 2046 * luma_weight(i));
        law_luma_tokens_stand_for_their_coefficients(t[i], i);
        assert(d[i] == luma_weight(i) * quant::quantize_spec(t[i], i));
    }
    assert(near(d[1], t[1], 8) && near(d[2], t[2], 8) && near(d[3], t[3], 16));
    lemma_rebuilt_near(d, t, r, c, 8, 8, 16, 2, 4, 1, 2);
    transform::law_transform_carries_the_block(samples, r, c);
}

/// The chroma of a block is still there after quantisation: each sample, rebuilt from what the
/// block's tokens stand for, is off by less than twenty code words.
pub proof fn law_chroma_survives_its_tokens(samples: Seq<int>, r: int, c: int)
    requires
        samples.len() == 64,
        0 <= r < 8,
        0 <= c < 8,
    ensures
        near(
            transform::rebuilt(chroma_shown(strip::chroma_plane(samples)), r, c),
            samples[8 * r + c],
            1279,
        ),
{
    let t = transform::transform_spec(samples);
    let d = chroma_shown(strip::chroma_plane(samples));
    law_chroma_tokens_stand_for_their_coefficients(t[0], 0);
    assert(d[0] == 64 * quant::quantize_dc_spec(1, t[0]));
    assert forall|i: int| 1 <= i < 64 implies near(#[trigger] d[i], t[i], chroma_weight(i) / 2) by {
        law_chroma_tokens_stand_for_their_coefficients(t[i], i);
        assert(d[i] == chroma_weight(i) * quant::quantize_chroma_spec(t[i], i));
    }
    assert(near(d[1], t[1], 8) && near(d[2], t[2], 8) && near(d[3], t[3], 16));
    lemma_rebuilt_near(d, t, r, c, 32, 8, 16, 8, 16, 16, 32);
    transform::law_transform_carries_the_block(samples, r, c);
}

/// A block shows its pixels: rebuilt from what its tokens stand for, each pixel's luma is off by
/// less than three and a quarter code words and each of its two chroma differences by less than
/// twenty. The first chroma plane is red's difference to green, the second blue's, and luma is
/// green with a quarter of both.
pub proof fn law_blocks_show_their_pixels(pixels: Seq<(u16, u16, u16)>, r: int, c: int)
    requires
        pixels.len() == 64,
        forall|i: int|
            0 <= i < 64 ==> (#[trigger] pixels[i]).0 <= 1023 && pixels[i].1 <= 1023 && pixels[i].2
                <= 1023,
        0 <= r < 8,
        0 <= c < 8,
    ensures
        ({
            let (red, green, blue) = pixels[8 * r + c];
            let b = sample::block_of_pixels(pixels);
            &&& near(
                transform::rebuilt(luma_shown(b.qy), r, c),
                64 * (green + (red + blue - 2 * green) / 4),
                199,
            )
            &&& near(transform::rebuilt(chroma_shown(b.qcb), r, c), 64 * (red - green), 1279)
            &&& near(transform::rebuilt(chroma_shown(b.qcr), r, c), 64 * (blue - green), 1279)
        }),
{
    reveal(sample::block_of_pixels);
    let cr = Seq::new(64, |i: int| sample::planes_of(pixels, i).2);
    let cb = Seq::new(64, |i: int| sample::planes_of(pixels, i).1);
    let y = Seq::new(64, |i: int| sample::planes_of(pixels, i).0);
    assert forall|i: int| 0 <= i < 64 implies 0 <= #[trigger] y[i] <= 64 * 1023 by {
        assert(pixels[i].0 <= 1023 && pixels[i].1 <= 1023 && pixels[i].2 <= 1023);
    }
    law_luma_survives_its_tokens(y, r, c);
    law_chroma_survives_its_tokens(cb, r, c);
    law_chroma_survives_its_tokens(cr, r, c);
}

/// Blocks that show the same tokens show the same picture, to within the error of both: two blocks
/// of pixels whose luma differs somewhere by seven code words or more never have equal tokens.
pub proof fn law_different_pictures_have_different_tokens(
    a: Seq<(u16, u16, u16)>,
    b: Seq<(u16, u16, u16)>,
    r: int,
    c: int,
)
    requires
        a.len() == 64,
        b.len() == 64,
        forall|i: int|
            0 <= i < 64 ==> (#[trigger] a[i]).0 <= 1023 && a[i].1 <= 1023 && a[i].2 <= 1023,
        forall|i: int|
            0 <= i < 64 ==> (#[trigger] b[i]).0 <= 1023 && b[i].1 <= 1023 && b[i].2 <= 1023,
        0 <= r < 8,
        0 <= c < 8,
        sample::planes_of(a, 8 * r + c).0 - sample::planes_of(b, 8 * r + c).0 >= 64 * 7,
    ensures
        sample::block_of_pixels(a).qy != sample::block_of_pixels(b).qy,
{
    law_blocks_show_their_pixels(a, r, c);
    law_blocks_show_their_pixels(b, r, c);
}

/// The largest code word of a depth.
pub open spec fn brightest(depth: Depth) -> int {
    match depth {
        Depth::Eight => 255,
        Depth::Ten => 1023,
    }
}

/// The tokens of luma samples up to the brightest are no larger than twice it.
proof fn lemma_luma_tokens_fit(samples: Seq<int>, top: int, i: int)
    requires
        samples.len() == 64,
        0 <= top <= 1023,
        forall|k: int| 0 <= k < 64 ==> 0 <= #[trigger] samples[k] <= 64 * top,
        1 <= i < 64,
    ensures
        near(strip::luma_plane(samples)[i], 0, 2 * top),
{
    lemma_light_coefficients(samples, top);
    let t = transform::transform_spec(samples);
    let q = strip::luma_plane(samples)[i];
    assert(q == quant::quantize_spec(t[i], i));
    let c = t[i];
    if i < 3 {
        assert(near(t[i], 0, 32 * top));
        assert(-2 * top <= (c + 8) / 16 <= 2 * top);
    } else if i == 3 {
        assert(near(t[i], 0, 32 * top));
        assert(-2 * top <= (c + 16) / 32 <= 2 * top);
    } else if i < 12 {
        assert(near(t[i], 0, 8 * top));
        assert(-2 * top <= (c + 2) / 4 <= 2 * top);
    } else if i < 16 {
        assert(near(t[i], 0, 8 * top));
        assert(-2 * top <= (c + 4) / 8 <= 2 * top);
    } else if i < 48 {
        assert(near(t[i], 0, 2 * top));
        assert(-2 * top <= quant::truncated(c, 2) <= 2 * top);
    } else {
        assert(near(t[i], 0, 2 * top));
        assert(-2 * top <= (c + 2) / 4 <= 2 * top);
    }
}

/// The tokens of chroma samples are no larger than four times the brightest.
proof fn lemma_chroma_tokens_fit(samples: Seq<int>, top: int, i: int)
    requires
        samples.len() == 64,
        0 <= top,
        forall|k: int| 0 <= k < 64 ==> -64 * top <= #[trigger] samples[k] <= 64 * top,
        1 <= i < 64,
    ensures
        near(strip::chroma_plane(samples)[i], 0, 4 * top),
{
    transform::law_transform_keeps_the_sample_range(samples, 64 * top);
    let t = transform::transform_spec(samples);
    let q = strip::chroma_plane(samples)[i];
    assert(-64 * top <= t[i] <= 64 * top);
    assert(q == quant::quantize_chroma_spec(t[i], i));
}

/// A DC is the mean of its plane, and its token no larger than the plane's range allows.
proof fn lemma_dc_tokens_fit(samples: Seq<int>, low: int, top: int)
    requires
        samples.len() == 64,
        low <= 0 <= top,
        forall|k: int| 0 <= k < 64 ==> 64 * low <= #[trigger] samples[k] <= 64 * top,
    ensures
        4 * low <= strip::luma_plane(samples)[0] <= 4 * top,
        low <= strip::chroma_plane(samples)[0] <= top,
{
    law_the_mean_is_kept(samples, low, top);
    let t = transform::transform_spec(samples);
    assert(64 * low <= t[0] <= 64 * top);
    assert(strip::luma_plane(samples)[0] == quant::quantize_dc_spec(0, t[0]));
    assert(strip::chroma_plane(samples)[0] == quant::quantize_dc_spec(1, t[0]));
}

/// The DC of a block lies between its smallest and its largest sample.
pub proof fn law_the_mean_is_kept(samples: Seq<int>, low: int, top: int)
    requires
        samples.len() == 64,
        forall|k: int| 0 <= k < 64 ==> 64 * low <= #[trigger] samples[k] <= 64 * top,
    ensures
        64 * low <= transform::transform_spec(samples)[0] <= 64 * top,
{
    reveal(transform::mallat);
    let ll1 = transform::subband(samples, 8, false, false);
    let ll2 = transform::subband(ll1, 4, false, false);
    transform::lemma_subband_len(samples, 8);
    transform::lemma_subband_len(ll1, 4);
    transform::lemma_subband_len(ll2, 2);
    assert forall|k: int| 0 <= k < 16 implies 256 * low <= #[trigger] ll1[k] <= 256 * top by {
        transform::lemma_subband_entry(samples, 8, k, 16 * (k / 4) + 2 * (k % 4));
    }
    assert forall|k: int| 0 <= k < 4 implies 1024 * low <= #[trigger] ll2[k] <= 1024 * top by {
        transform::lemma_subband_entry(ll1, 4, k, 8 * (k / 2) + 2 * (k % 2));
    }
    transform::lemma_subband_entry(ll2, 2, 0, 0);
    assert(4096 * low <= transform::mallat(samples, 0) <= 4096 * top);
}

/// Nothing of a picture is lost in its codes: the tokens of pixels that fit the surface's depth are
/// all within the ceilings of their codes, so that a decoder reads them back unchanged.
pub proof fn law_tokens_of_a_picture_fit_their_codes(
    g: Geometry,
    pixels: Seq<(u16, u16, u16)>,
    plane: int,
    i: int,
)
    requires
        pixels.len() == 64,
        forall|k: int|
            0 <= k < 64 ==> (#[trigger] pixels[k]).0 <= brightest(g.depth) && pixels[k].1
                <= brightest(g.depth) && pixels[k].2 <= brightest(g.depth),
        0 <= plane < 3,
        1 <= i < 64,
    ensures
        ({
            let q = decode::plane_of(sample::block_of_pixels(pixels), plane)[i];
            decode::saturate(q, decode::ceiling_of(g, plane)) == q
        }),
{
    reveal(sample::block_of_pixels);
    let top = brightest(g.depth);
    let cr = Seq::new(64, |i: int| sample::planes_of(pixels, i).2);
    let cb = Seq::new(64, |i: int| sample::planes_of(pixels, i).1);
    let y = Seq::new(64, |i: int| sample::planes_of(pixels, i).0);
    lemma_planes_in_range(pixels, top);
    lemma_luma_tokens_fit(y, top, i);
    lemma_chroma_tokens_fit(cr, top, i);
    lemma_chroma_tokens_fit(cb, top, i);
    entropy::lemma_powers();
    reveal_with_fuel(entropy::two_to, 14);
}

proof fn lemma_planes_in_range(pixels: Seq<(u16, u16, u16)>, top: int)
    requires
        pixels.len() == 64,
        forall|k: int|
            0 <= k < 64 ==> (#[trigger] pixels[k]).0 <= top && pixels[k].1 <= top && pixels[k].2
                <= top,
    ensures
        forall|i: int| 0 <= i < 64 ==> 0 <= (#[trigger] sample::planes_of(pixels, i)).0 <= 64 * top,
        forall|i: int|
            0 <= i < 64 ==> -64 * top <= (#[trigger] sample::planes_of(pixels, i)).1 <= 64 * top,
        forall|i: int|
            0 <= i < 64 ==> -64 * top <= (#[trigger] sample::planes_of(pixels, i)).2 <= 64 * top,
{
    assert forall|i: int| 0 <= i < 64 implies {
        let p = #[trigger] sample::planes_of(pixels, i);
        0 <= p.0 <= 64 * top && -64 * top <= p.1 <= 64 * top && -64 * top <= p.2 <= 64 * top
    } by {
        assert(pixels[i].0 <= top && pixels[i].1 <= top && pixels[i].2 <= top);
    }
}

/// The differences of consecutive DCs of a picture fit their codes as well.
pub proof fn law_dc_steps_of_a_picture_fit_their_codes(
    g: Geometry,
    a: Seq<(u16, u16, u16)>,
    b: Seq<(u16, u16, u16)>,
    plane: int,
)
    requires
        a.len() == 64,
        b.len() == 64,
        forall|k: int|
            0 <= k < 64 ==> (#[trigger] a[k]).0 <= brightest(g.depth) && a[k].1 <= brightest(
                g.depth,
            ) && a[k].2 <= brightest(g.depth),
        forall|k: int|
            0 <= k < 64 ==> (#[trigger] b[k]).0 <= brightest(g.depth) && b[k].1 <= brightest(
                g.depth,
            ) && b[k].2 <= brightest(g.depth),
        0 <= plane < 3,
    ensures
        ({
            let step = decode::plane_of(sample::block_of_pixels(b), plane)[0] - decode::plane_of(
                sample::block_of_pixels(a),
                plane,
            )[0];
            decode::saturate(step, (g.depth.bits() + 2) as nat) == step
        }),
{
    lemma_dcs_in_range(a, brightest(g.depth));
    lemma_dcs_in_range(b, brightest(g.depth));
    entropy::lemma_powers();
    reveal_with_fuel(entropy::two_to, 14);
}

proof fn lemma_dcs_in_range(pixels: Seq<(u16, u16, u16)>, top: int)
    requires
        pixels.len() == 64,
        0 <= top,
        forall|k: int|
            0 <= k < 64 ==> (#[trigger] pixels[k]).0 <= top && pixels[k].1 <= top && pixels[k].2
                <= top,
    ensures
        0 <= sample::block_of_pixels(pixels).qy[0] <= 4 * top,
        -top <= sample::block_of_pixels(pixels).qcb[0] <= top,
        -top <= sample::block_of_pixels(pixels).qcr[0] <= top,
{
    reveal(sample::block_of_pixels);
    lemma_planes_in_range(pixels, top);
    let cr = Seq::new(64, |i: int| sample::planes_of(pixels, i).2);
    let cb = Seq::new(64, |i: int| sample::planes_of(pixels, i).1);
    let y = Seq::new(64, |i: int| sample::planes_of(pixels, i).0);
    lemma_dc_tokens_fit(y, 0, top);
    lemma_dc_tokens_fit(cb, -top, top);
    lemma_dc_tokens_fit(cr, -top, top);
}

/// A strip's regions hold all of it: the main region every block's significance and DCs, the first
/// AC region the details of the first eight blocks, and the second those of the other eight.
pub proof fn law_regions_hold_every_block(g: Geometry, blocks: Seq<strip::Block>)
    requires
        blocks.len() == 16,
    ensures
        strip::main_region(g, blocks) == bits::pack(
            strip::sync_bits(g, blocks, 16) + strip::dc_bits(g, blocks, 16),
        ),
        strip::row0_region(g, blocks) == bits::pack(strip::ac_bits(g, blocks, 0, 8)),
        strip::row1_region(g, blocks) == bits::pack(strip::ac_bits(g, blocks, 8, 16)),
{
    reveal(strip::main_region);
    reveal(strip::row0_region);
    reveal(strip::row1_region);
}

/// A strip's blocks are those of its own pixels: block `k` is made of the 64 pixels that its
/// samples name, and the strip states where it starts.
pub proof fn law_strips_show_their_place(
    g: Geometry,
    image: spec_fn(int, int) -> (u16, u16, u16),
    ox: int,
    oy: int,
    k: int,
)
    requires
        g.shaped(),
        0 <= k < 16,
        0 <= ox,
        0 <= oy,
    ensures
        sample::blocks_at(g, image, ox, oy).len() == 16,
        sample::blocks_at(g, image, ox, oy)[k] == sample::block_of_pixels(
            Seq::new(
                64,
                |i: int|
                    image(
                        ox + 8 * (k % (g.width() / 8)) + i % 8,
                        oy + 8 * (k / (g.width() / 8)) + i / 8,
                    ),
            ),
        ),
        sample::strip_at(g, image, ox, oy).len() >= 18,
        crate::bytes::u16_at(sample::strip_at(g, image, ox, oy), 2) == ox % 0x1_0000,
        crate::bytes::u16_at(sample::strip_at(g, image, ox, oy), 4) == oy % 0x1_0000,
{
    let pixels = Seq::new(
        64,
        |i: int| image(sample::sample_x(g, ox, k, i), sample::sample_y(g, oy, k, i)),
    );
    assert(pixels =~= Seq::new(
        64,
        |i: int|
            image(
                ox + 8 * (k % (g.width() / 8)) + i % 8,
                oy + 8 * (k / (g.width() / 8)) + i / 8,
            ),
    ));
    strip::law_strip_states_its_position(
        g,
        sample::blocks_at(g, image, ox, oy),
        ox % 0x1_0000,
        oy % 0x1_0000,
    );
}

} // verus!
