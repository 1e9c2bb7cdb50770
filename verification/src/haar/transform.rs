//! The colour transform and the Haar transform.

use vstd::prelude::*;

verus! {

/// Side of a transform block.
pub const DIM: usize = 8;

/// Samples in a block.
pub const PIXELS: usize = 64;

/// Coefficients of a block.
pub const COEFFS: usize = 64;

/// Samples in a block, under the name the block builders use.
pub const BLOCK: usize = 64;

/// Largest magnitude of a sample for which the transform's sums fit 32 bits.
pub const SAMPLE_LIMIT: i32 = 0x1ff_ffff;

/// An arithmetic right shift is floor division by a power of two.
pub proof fn lemma_shift_is_floor(x: i32)
    ensures
        x >> 1u32 == x as int / 2,
        x >> 2u32 == x as int / 4,
        x >> 3u32 == x as int / 8,
        x >> 4u32 == x as int / 16,
        x >> 5u32 == x as int / 32,
        x >> 6u32 == x as int / 64,
{
    assert({
        &&& 2 * (x >> 1u32) <= x < 2 * (x >> 1u32) + 2
        &&& 4 * (x >> 2u32) <= x < 4 * (x >> 2u32) + 4
        &&& 8 * (x >> 3u32) <= x < 8 * (x >> 3u32) + 8
        &&& 16 * (x >> 4u32) <= x < 16 * (x >> 4u32) + 16
        &&& 32 * (x >> 5u32) <= x < 32 * (x >> 5u32) + 32
        &&& 64 * (x >> 6u32) <= x < 64 * (x >> 6u32) + 64
    }) by (bit_vector);
}

/// One pixel in the codec's x64 fixed point, as `(Y, Cb, Cr)`.
///
/// The chroma planes are the differences to green; luma is green plus a quarter of their sum,
/// rounded towards negative infinity.
pub open spec fn colour_spec(r: int, g: int, b: int) -> (int, int, int) {
    (64 * g + 64 * (((r - g) + (b - g)) / 4), 64 * (r - g), 64 * (b - g))
}

/// Whether every step of the colour transform of this pixel fits 32 bits.
pub open spec fn colour_fits(r: int, g: int, b: int) -> bool {
    &&& -0x200_0000 <= g <= 0x1ff_ffff
    &&& -0x200_0000 <= r - g <= 0x1ff_ffff
    &&& -0x200_0000 <= b - g <= 0x1ff_ffff
    &&& i32::MIN <= colour_spec(r, g, b).0 <= i32::MAX
}

/// Convert one pixel to the codec's colour planes; see [`colour_spec`].
///
/// The channels are the surface's own code words at whatever depth it is in.
pub fn colour(r: i32, g: i32, b: i32) -> (planes: (i32, i32, i32))
    requires
        colour_fits(r as int, g as int, b as int),
    ensures
        (planes.0 as int, planes.1 as int, planes.2 as int) == colour_spec(
            r as int,
            g as int,
            b as int,
        ),
{
    let cb: i32 = r - g;
    let cr: i32 = b - g;
    proof {
        lemma_shift_is_floor((cb + cr) as i32);
    }
    (64 * g + 64 * ((cb + cr) >> 2u32), 64 * cb, 64 * cr)
}

/// An achromatic pixel has no chroma, and its luma is its sample in x64 fixed point.
pub proof fn law_achromatic_pixel(v: int)
    ensures
        colour_spec(v, v, v) == (64 * v, 0int, 0int),
{
}

/// One output of a 2-D Haar step at row `r`, column `c` of a subband: the sum of the 2x2
/// samples there, the right column negated for a horizontal detail band and the lower row
/// negated for a vertical one.
pub open spec fn haar_step(
    src: Seq<int>,
    n: int,
    horizontal: bool,
    vertical: bool,
    r: int,
    c: int,
) -> int {
    let a = src[2 * r * n + 2 * c];
    let b = src[2 * r * n + 2 * c + 1];
    let d = src[(2 * r + 1) * n + 2 * c];
    let e = src[(2 * r + 1) * n + 2 * c + 1];
    let upper = if horizontal {
        a - b
    } else {
        a + b
    };
    let lower = if horizontal {
        d - e
    } else {
        d + e
    };
    if vertical {
        upper - lower
    } else {
        upper + lower
    }
}

/// One subband of an `n` by `n` block, row-major with `n / 2` columns.
pub open spec fn subband(src: Seq<int>, n: int, horizontal: bool, vertical: bool) -> Seq<int> {
    Seq::new(
        ((n / 2) * (n / 2)) as nat,
        |k: int| haar_step(src, n, horizontal, vertical, k / (n / 2), k % (n / 2)),
    )
}

/// Position in a row-major 4x4 band of the `i`-th coefficient of its 2x2 Morton scan.
pub open spec fn morton(i: int) -> int {
    4 * (2 * ((i / 2) % 2) + i / 8) + 2 * (i % 2) + (i / 4) % 2
}

/// The unnormalised coefficient at position `i` of the wire's Mallat layout.
///
/// Position 0 is the sum of the block and 1 to 3 its coarsest HL, LH and HH details; 4, 8 and
/// 12 start the second level's 2x2 bands; 16, 32 and 48 the finest level's Morton-scanned ones.
#[verifier::opaque]
pub open spec fn mallat(block: Seq<int>, i: int) -> int {
    let ll1 = subband(block, 8, false, false);
    let ll2 = subband(ll1, 4, false, false);
    if i == 0 {
        subband(ll2, 2, false, false)[0]
    } else if i == 1 {
        subband(ll2, 2, true, false)[0]
    } else if i == 2 {
        subband(ll2, 2, false, true)[0]
    } else if i == 3 {
        subband(ll2, 2, true, true)[0]
    } else if i < 8 {
        subband(ll1, 4, true, false)[i - 4]
    } else if i < 12 {
        subband(ll1, 4, false, true)[i - 8]
    } else if i < 16 {
        subband(ll1, 4, true, true)[i - 12]
    } else if i < 32 {
        subband(block, 8, true, false)[morton(i - 16)]
    } else if i < 48 {
        subband(block, 8, false, true)[morton(i - 32)]
    } else {
        subband(block, 8, true, true)[morton(i - 48)]
    }
}

/// The transform of a block: every coefficient of the Mallat layout, floor-divided by 64.
pub open spec fn transform_spec(block: Seq<int>) -> Seq<int> {
    Seq::new(64, |i: int| mallat(block, i) / 64)
}

/// The mathematical values of a sequence of 32-bit integers.
pub open spec fn ints(s: Seq<i32>) -> Seq<int> {
    Seq::new(s.len(), |i: int| s[i] as int)
}

/// Whether every sample is within `limit` of zero.
pub open spec fn within(s: Seq<i32>, limit: int) -> bool {
    forall|i: int| 0 <= i < s.len() ==> -limit <= #[trigger] s[i] <= limit
}

/// The four outputs of a 2-D Haar step on the 2x2 samples `a b / d e`: LL, HL, LH and HH.
fn butterfly(a: i32, b: i32, d: i32, e: i32) -> (bands: (i32, i32, i32, i32))
    requires
        -0x1fff_ffff <= a <= 0x1fff_ffff,
        -0x1fff_ffff <= b <= 0x1fff_ffff,
        -0x1fff_ffff <= d <= 0x1fff_ffff,
        -0x1fff_ffff <= e <= 0x1fff_ffff,
    ensures
        bands.0 == (a + b) + (d + e),
        bands.1 == (a - b) + (d - e),
        bands.2 == (a + b) - (d + e),
        bands.3 == (a - b) - (d - e),
{
    ((a + b) + (d + e), (a - b) + (d - e), (a + b) - (d + e), (a - b) - (d - e))
}

/// One Haar step over an 8x8 block, giving the LL, HL, LH and HH bands.
fn haar2d_8(src: &[i32; 64]) -> (bands: ([i32; 16], [i32; 16], [i32; 16], [i32; 16]))
    requires
        within(src@, SAMPLE_LIMIT as int),
    ensures
        ints(bands.0@) == subband(ints(src@), 8, false, false),
        ints(bands.1@) == subband(ints(src@), 8, true, false),
        ints(bands.2@) == subband(ints(src@), 8, false, true),
        ints(bands.3@) == subband(ints(src@), 8, true, true),
        within(bands.0@, 4 * SAMPLE_LIMIT),
{
    let mut ll: [i32; 16] = [0;16];
    let mut hl: [i32; 16] = [0;16];
    let mut lh: [i32; 16] = [0;16];
    let mut hh: [i32; 16] = [0;16];
    let ghost s = ints(src@);
    proof {
        lemma_subband_len(s, 8);
    }
    let mut k: usize = 0;
    while k < 16
        invariant
            k <= 16,
            within(src@, SAMPLE_LIMIT as int),
            s == ints(src@),
            within(ll@, 4 * SAMPLE_LIMIT),
            forall|j: int| 0 <= j < k ==> #[trigger] ll@[j] == subband(s, 8, false, false)[j],
            forall|j: int| 0 <= j < k ==> #[trigger] hl@[j] == subband(s, 8, true, false)[j],
            forall|j: int| 0 <= j < k ==> #[trigger] lh@[j] == subband(s, 8, false, true)[j],
            forall|j: int| 0 <= j < k ==> #[trigger] hh@[j] == subband(s, 8, true, true)[j],
        decreases 16 - k,
    {
        let at: usize = 16 * (k / 4) + 2 * (k % 4);
        let (p, q, u, v) = butterfly(src[at], src[at + 1], src[at + 8], src[at + 9]);
        proof {
            lemma_subband_entry(s, 8, k as int, at as int);
        }
        ll[k] = p;
        hl[k] = q;
        lh[k] = u;
        hh[k] = v;
        k += 1;
    }
    assert(ints(ll@) =~= subband(s, 8, false, false));
    assert(ints(hl@) =~= subband(s, 8, true, false));
    assert(ints(lh@) =~= subband(s, 8, false, true));
    assert(ints(hh@) =~= subband(s, 8, true, true));
    (ll, hl, lh, hh)
}

/// One Haar step over a 4x4 block, giving the LL, HL, LH and HH bands.
fn haar2d_4(src: &[i32; 16]) -> (bands: ([i32; 4], [i32; 4], [i32; 4], [i32; 4]))
    requires
        within(src@, 4 * SAMPLE_LIMIT),
    ensures
        ints(bands.0@) == subband(ints(src@), 4, false, false),
        ints(bands.1@) == subband(ints(src@), 4, true, false),
        ints(bands.2@) == subband(ints(src@), 4, false, true),
        ints(bands.3@) == subband(ints(src@), 4, true, true),
        within(bands.0@, 16 * SAMPLE_LIMIT),
{
    let mut ll: [i32; 4] = [0;4];
    let mut hl: [i32; 4] = [0;4];
    let mut lh: [i32; 4] = [0;4];
    let mut hh: [i32; 4] = [0;4];
    let ghost s = ints(src@);
    proof {
        lemma_subband_len(s, 8);
    }
    let mut k: usize = 0;
    while k < 4
        invariant
            k <= 4,
            within(src@, 4 * SAMPLE_LIMIT),
            s == ints(src@),
            within(ll@, 16 * SAMPLE_LIMIT),
            forall|j: int| 0 <= j < k ==> #[trigger] ll@[j] == subband(s, 4, false, false)[j],
            forall|j: int| 0 <= j < k ==> #[trigger] hl@[j] == subband(s, 4, true, false)[j],
            forall|j: int| 0 <= j < k ==> #[trigger] lh@[j] == subband(s, 4, false, true)[j],
            forall|j: int| 0 <= j < k ==> #[trigger] hh@[j] == subband(s, 4, true, true)[j],
        decreases 4 - k,
    {
        let at: usize = 8 * (k / 2) + 2 * (k % 2);
        let (p, q, u, v) = butterfly(src[at], src[at + 1], src[at + 4], src[at + 5]);
        proof {
            lemma_subband_entry(s, 4, k as int, at as int);
        }
        ll[k] = p;
        hl[k] = q;
        lh[k] = u;
        hh[k] = v;
        k += 1;
    }
    assert(ints(ll@) =~= subband(s, 4, false, false));
    assert(ints(hl@) =~= subband(s, 4, true, false));
    assert(ints(lh@) =~= subband(s, 4, false, true));
    assert(ints(hh@) =~= subband(s, 4, true, true));
    (ll, hl, lh, hh)
}

/// The Haar step over a 2x2 block, giving the four coarsest coefficients.
fn haar2d_2(src: &[i32; 4]) -> (bands: (i32, i32, i32, i32))
    requires
        within(src@, 16 * SAMPLE_LIMIT),
    ensures
        bands.0 == subband(ints(src@), 2, false, false)[0],
        bands.1 == subband(ints(src@), 2, true, false)[0],
        bands.2 == subband(ints(src@), 2, false, true)[0],
        bands.3 == subband(ints(src@), 2, true, true)[0],
{
    proof {
        lemma_subband_len(ints(src@), 2);
        lemma_subband_entry(ints(src@), 2, 0, 0);
    }
    butterfly(src[0], src[1], src[2], src[3])
}

/// Where the four samples under entry `k` of every subband of an `n` by `n` block lie.
pub proof fn lemma_subband_entry(src: Seq<int>, n: int, k: int, at: int)
    requires
        n == 8 || n == 4 || n == 2,
        0 <= k < (n / 2) * (n / 2),
        at == 2 * n * (k / (n / 2)) + 2 * (k % (n / 2)),
    ensures
        subband(src, n, false, false)[k] == (src[at] + src[at + 1]) + (src[at + n] + src[at + n + 1]),
        subband(src, n, true, false)[k] == (src[at] - src[at + 1]) + (src[at + n] - src[at + n + 1]),
        subband(src, n, false, true)[k] == (src[at] + src[at + 1]) - (src[at + n] + src[at + n + 1]),
        subband(src, n, true, true)[k] == (src[at] - src[at + 1]) - (src[at + n] - src[at + n + 1]),
        0 <= at,
        at + n + 1 < n * n,
{
    let h = n / 2;
    let r = k / h;
    let c = k % h;
    lemma_subband_len(src, n);
    assert(2 * r * n + 2 * c == at) by (nonlinear_arith)
        requires
            at == 2 * n * r + 2 * c,
    ;
    assert((2 * r + 1) * n + 2 * c == at + n) by (nonlinear_arith)
        requires
            at == 2 * n * r + 2 * c,
    ;
    assert(0 <= r < h) by (nonlinear_arith)
        requires
            0 <= k < h * h,
            r == k / h,
            h >= 1,
    ;
    assert(0 <= at && at + n + 1 < n * n) by (nonlinear_arith)
        requires
            at == 2 * n * r + 2 * c,
            0 <= r < h,
            0 <= c < h,
            n == 2 * h,
            h >= 1,
    ;
}

/// How many entries a subband has.
pub proof fn lemma_subband_len(src: Seq<int>, n: int)
    requires
        n == 8 || n == 4 || n == 2,
    ensures
        forall|x: bool, y: bool|
            #[trigger] subband(src, n, x, y).len() == (if n == 8 {
                16int
            } else if n == 4 {
                4int
            } else {
                1int
            }),
        (n / 2) * (n / 2) == (if n == 8 {
            16int
        } else if n == 4 {
            4int
        } else {
            1int
        }),
{
    assert((n / 2) * (n / 2) == (if n == 8 {
        16int
    } else if n == 4 {
        4int
    } else {
        1int
    })) by (nonlinear_arith)
        requires
            n == 8 || n == 4 || n == 2,
    ;
}

/// The row-major position of each coefficient of a 4x4 band's Morton scan.
pub const SCAN4_MORTON: [usize; 16] = [0, 2, 8, 10, 1, 3, 9, 11, 4, 6, 12, 14, 5, 7, 13, 15];

/// Apply the codec's 8x8 Haar transform; see [`transform_spec`].
pub fn transform(block: &[i32; 64]) -> (out: [i32; 64])
    requires
        within(block@, SAMPLE_LIMIT as int),
    ensures
        ints(out@) == transform_spec(ints(block@)),
{
    let (ll1, hl1, lh1, hh1) = haar2d_8(block);
    finish_levels(Ghost(ints(block@)), &ll1, &hl1, &lh1, &hh1)
}

/// Transform the coarser levels of a block whose finest bands are given, and lay out the
/// coefficients.
pub(crate) fn finish_levels(
    Ghost(b): Ghost<Seq<int>>,
    ll1: &[i32; 16],
    hl1: &[i32; 16],
    lh1: &[i32; 16],
    hh1: &[i32; 16],
) -> (out: [i32; 64])
    requires
        b.len() == 64,
        within(ll1@, 4 * SAMPLE_LIMIT),
        ints(ll1@) == subband(b, 8, false, false),
        ints(hl1@) == subband(b, 8, true, false),
        ints(lh1@) == subband(b, 8, false, true),
        ints(hh1@) == subband(b, 8, true, true),
    ensures
        ints(out@) == transform_spec(b),
{
    reveal(mallat);
    let (ll2, hl2, lh2, hh2) = haar2d_4(ll1);
    let (ll3, hl3, lh3, hh3) = haar2d_2(&ll2);
    let mut out: [i32; 64] = [0;64];
    proof {
        lemma_shift_is_floor(ll3);
        lemma_shift_is_floor(hl3);
        lemma_shift_is_floor(lh3);
        lemma_shift_is_floor(hh3);
        lemma_subband_len(b, 8);
        lemma_subband_len(ints(ll1@), 4);
    }
    out[0] = ll3 >> 6u32;
    out[1] = hl3 >> 6u32;
    out[2] = lh3 >> 6u32;
    out[3] = hh3 >> 6u32;
    let mut i: usize = 0;
    while i < 4
        invariant
            i <= 4,
            ints(ll1@) == subband(b, 8, false, false),
            ints(hl2@) == subband(ints(ll1@), 4, true, false),
            ints(lh2@) == subband(ints(ll1@), 4, false, true),
            ints(hh2@) == subband(ints(ll1@), 4, true, true),
            forall|j: int|
                0 <= j < 4 + i || 8 <= j < 8 + i || 12 <= j < 12 + i ==> #[trigger] out@[j]
                    == mallat(b, j) / 64,
        decreases 4 - i,
    {
        proof {
            reveal(mallat);
            lemma_shift_is_floor(hl2@[i as int]);
            lemma_shift_is_floor(lh2@[i as int]);
            lemma_shift_is_floor(hh2@[i as int]);
            assert(ints(hl2@)[i as int] == hl2@[i as int]);
            assert(ints(lh2@)[i as int] == lh2@[i as int]);
            assert(ints(hh2@)[i as int] == hh2@[i as int]);
        }
        out[4 + i] = hl2[i] >> 6u32;
        out[8 + i] = lh2[i] >> 6u32;
        out[12 + i] = hh2[i] >> 6u32;
        i += 1;
    }
    i = 0;
    while i < 16
        invariant
            i <= 16,
            ints(hl1@) == subband(b, 8, true, false),
            ints(lh1@) == subband(b, 8, false, true),
            ints(hh1@) == subband(b, 8, true, true),
            forall|j: int|
                0 <= j < 16 + i || 32 <= j < 32 + i || 48 <= j < 48 + i ==> #[trigger] out@[j]
                    == mallat(b, j) / 64,
        decreases 16 - i,
    {
        let m: usize = SCAN4_MORTON[i];
        proof {
            reveal(mallat);
            lemma_scan_is_morton(i as int);
            lemma_shift_is_floor(hl1@[m as int]);
            lemma_shift_is_floor(lh1@[m as int]);
            lemma_shift_is_floor(hh1@[m as int]);
            assert(ints(hl1@)[m as int] == hl1@[m as int]);
            assert(ints(lh1@)[m as int] == lh1@[m as int]);
            assert(ints(hh1@)[m as int] == hh1@[m as int]);
        }
        out[16 + i] = hl1[m] >> 6u32;
        out[32 + i] = lh1[m] >> 6u32;
        out[48 + i] = hh1[m] >> 6u32;
        i += 1;
    }
    assert(ints(out@) =~= transform_spec(b));
    out
}

/// The scan table is the Morton scan.
pub(crate) proof fn lemma_scan_is_morton(i: int)
    requires
        0 <= i < 16,
    ensures
        SCAN4_MORTON@[i] == morton(i),
        0 <= morton(i) < 16,
{
}

/// A Haar step keeps a bound on the samples up to a factor of four.
proof fn lemma_subband_bound(src: Seq<int>, n: int, limit: int, x: bool, y: bool)
    requires
        n == 8 || n == 4 || n == 2,
        src.len() == n * n,
        forall|i: int| 0 <= i < src.len() ==> -limit <= #[trigger] src[i] <= limit,
    ensures
        forall|k: int|
            0 <= k < subband(src, n, x, y).len() ==> -4 * limit <= #[trigger] subband(
                src,
                n,
                x,
                y,
            )[k] <= 4 * limit,
{
    lemma_subband_len(src, n);
    assert forall|k: int| 0 <= k < subband(src, n, x, y).len() implies -4 * limit
        <= #[trigger] subband(src, n, x, y)[k] <= 4 * limit by {
        let at = 2 * n * (k / (n / 2)) + 2 * (k % (n / 2));
        lemma_subband_entry(src, n, k, at);
    }
}

/// No coefficient is larger than the largest sample.
pub proof fn law_transform_keeps_the_sample_range(block: Seq<int>, limit: int)
    requires
        block.len() == 64,
        forall|i: int| 0 <= i < 64 ==> -limit <= #[trigger] block[i] <= limit,
    ensures
        forall|i: int| 0 <= i < 64 ==> -limit <= #[trigger] transform_spec(block)[i] <= limit,
{
    reveal(mallat);
    let ll1 = subband(block, 8, false, false);
    let ll2 = subband(ll1, 4, false, false);
    assert(-limit <= block[0] <= limit);
    lemma_subband_len(block, 8);
    lemma_subband_len(ll1, 4);
    lemma_subband_len(ll2, 2);
    lemma_subband_bound(block, 8, limit, false, false);
    lemma_subband_bound(block, 8, limit, true, false);
    lemma_subband_bound(block, 8, limit, false, true);
    lemma_subband_bound(block, 8, limit, true, true);
    lemma_subband_bound(ll1, 4, 4 * limit, false, false);
    lemma_subband_bound(ll1, 4, 4 * limit, true, false);
    lemma_subband_bound(ll1, 4, 4 * limit, false, true);
    lemma_subband_bound(ll1, 4, 4 * limit, true, true);
    lemma_subband_bound(ll2, 2, 16 * limit, false, false);
    lemma_subband_bound(ll2, 2, 16 * limit, true, false);
    lemma_subband_bound(ll2, 2, 16 * limit, false, true);
    lemma_subband_bound(ll2, 2, 16 * limit, true, true);
    assert forall|i: int| 0 <= i < 64 implies -limit <= #[trigger] transform_spec(block)[i]
        <= limit by {
        assert(-64 * limit <= mallat(block, i) <= 64 * limit) by {
            if 16 <= i < 32 {
                lemma_scan_is_morton(i - 16);
            } else if 32 <= i < 48 {
                lemma_scan_is_morton(i - 32);
            } else if 48 <= i {
                lemma_scan_is_morton(i - 48);
            }
        }
    }
}

/// A step over equal samples leaves four times the sample in LL and nothing in the details.
proof fn lemma_subband_uniform(src: Seq<int>, n: int, v: int)
    requires
        n == 8 || n == 4 || n == 2,
        src.len() == n * n,
        forall|i: int| 0 <= i < src.len() ==> #[trigger] src[i] == v,
    ensures
        forall|k: int|
            0 <= k < subband(src, n, false, false).len() ==> #[trigger] subband(
                src,
                n,
                false,
                false,
            )[k] == 4 * v,
        forall|x: bool, y: bool, k: int|
            0 <= k < subband(src, n, x, y).len() && (x || y) ==> #[trigger] subband(src, n, x, y)[k]
                == 0,
{
    lemma_subband_len(src, n);
    assert forall|k: int| 0 <= k < subband(src, n, false, false).len() implies #[trigger] subband(
        src,
        n,
        false,
        false,
    )[k] == 4 * v by {
        lemma_subband_entry(src, n, k, 2 * n * (k / (n / 2)) + 2 * (k % (n / 2)));
    }
    assert forall|x: bool, y: bool, k: int|
        0 <= k < subband(src, n, x, y).len() && (x || y) implies #[trigger] subband(src, n, x, y)[k]
        == 0 by {
        lemma_subband_entry(src, n, k, 2 * n * (k / (n / 2)) + 2 * (k % (n / 2)));
    }
}

/// A uniform block transforms to its own value at DC and zero everywhere else.
pub proof fn law_uniform_block_is_pure_dc(block: Seq<int>, v: int)
    requires
        block.len() == 64,
        forall|i: int| 0 <= i < 64 ==> #[trigger] block[i] == v,
    ensures
        transform_spec(block)[0] == v,
        forall|i: int| 1 <= i < 64 ==> #[trigger] transform_spec(block)[i] == 0,
{
    reveal(mallat);
    let ll1 = subband(block, 8, false, false);
    let ll2 = subband(ll1, 4, false, false);
    lemma_subband_len(block, 8);
    lemma_subband_len(ll1, 4);
    lemma_subband_len(ll2, 2);
    lemma_subband_uniform(block, 8, v);
    lemma_subband_uniform(ll1, 4, 4 * v);
    lemma_subband_uniform(ll2, 2, 16 * v);
    assert forall|i: int| 1 <= i < 64 implies #[trigger] transform_spec(block)[i] == 0 by {
        if 16 <= i < 32 {
            lemma_scan_is_morton(i - 16);
        } else if 32 <= i < 48 {
            lemma_scan_is_morton(i - 32);
        } else if 48 <= i {
            lemma_scan_is_morton(i - 48);
        }
        assert(mallat(block, i) == 0);
    }
}

/// Where the Morton scan of a 4x4 band visits row `row`, column `col`.
pub open spec fn scanned_at(row: int, col: int) -> int {
    col / 2 + 2 * (row / 2) + 4 * (col % 2) + 8 * (row % 2)
}

/// The sign a sample has in a difference of two halves: the first half counts, the second is
/// taken away.
pub open spec fn half(second: int) -> int {
    if second == 0 {
        1
    } else {
        -1
    }
}

/// The sample at row `r`, column `c` rebuilt from the coefficients of its block. Every level adds
/// the three details of the square that holds the sample, the finer ones weighing four times the
/// coarser.
pub open spec fn rebuilt(t: Seq<int>, r: int, c: int) -> int {
    let (x3, y3) = (half(c / 4), half(r / 4));
    let (x2, y2) = (half(c / 2 % 2), half(r / 2 % 2));
    let (x1, y1) = (half(c % 2), half(r % 2));
    let q = 2 * (r / 4) + c / 4;
    let i = scanned_at(r / 2, c / 2);
    t[0] + x3 * t[1] + y3 * t[2] + x3 * y3 * t[3] + 4 * (x2 * t[4 + q] + y2 * t[8 + q] + x2 * y2
        * t[12 + q]) + 16 * (x1 * t[16 + i] + y1 * t[32 + i] + x1 * y1 * t[48 + i])
}

/// Multiplying by a sign.
pub(crate) proof fn lemma_signs(second: int, other: int, v: int)
    ensures
        half(second) * v == (if second == 0 {
            v
        } else {
            -v
        }),
        half(second) * half(other) * v == (if (second == 0) == (other == 0) {
            v
        } else {
            -v
        }),
{
    let (a, b) = (half(second), half(other));
    assert(a * v == (if a == 1 {
        v
    } else {
        -v
    })) by (nonlinear_arith)
        requires
            a == 1 || a == -1,
    ;
    assert(a * b * v == (if a == b {
        v
    } else {
        -v
    })) by (nonlinear_arith)
        requires
            a == 1 || a == -1,
            b == 1 || b == -1,
    ;
}

/// One level taken back: of the four samples under an entry, the one in column `x`, row `y`.
proof fn lemma_step_back(src: Seq<int>, n: int, k: int, x: int, y: int)
    requires
        n == 8 || n == 4 || n == 2,
        0 <= k < (n / 2) * (n / 2),
        0 <= x < 2,
        0 <= y < 2,
    ensures
        ({
            let at = 2 * n * (k / (n / 2)) + 2 * (k % (n / 2));
            4 * src[at + n * y + x] == subband(src, n, false, false)[k] + half(x) * subband(
                src,
                n,
                true,
                false,
            )[k] + half(y) * subband(src, n, false, true)[k] + half(x) * half(y) * subband(
                src,
                n,
                true,
                true,
            )[k]
        }),
{
    let at = 2 * n * (k / (n / 2)) + 2 * (k % (n / 2));
    lemma_subband_entry(src, n, k, at);
    lemma_signs(x, y, subband(src, n, true, false)[k]);
    lemma_signs(y, x, subband(src, n, false, true)[k]);
    lemma_signs(x, y, subband(src, n, true, true)[k]);
    assert(n * y == (if y == 0 {
        0
    } else {
        n
    })) by (nonlinear_arith)
        requires
            y == 0 || y == 1,
    ;
}

/// The Morton scan visits every place of its band.
pub(crate) proof fn lemma_scanned_at(row: int, col: int)
    requires
        0 <= row < 4,
        0 <= col < 4,
    ensures
        0 <= scanned_at(row, col) < 16,
        morton(scanned_at(row, col)) == 4 * row + col,
{
    assert(row == 0 || row == 1 || row == 2 || row == 3);
    assert(col == 0 || col == 1 || col == 2 || col == 3);
}

/// Where a sample lies at each level.
proof fn lemma_places(r: int, c: int)
    requires
        0 <= r < 8,
        0 <= c < 8,
    ensures
        ({
            let k1 = 4 * (r / 2) + c / 2;
            let q = 2 * (r / 4) + c / 4;
            &&& 0 <= k1 < 16
            &&& 0 <= q < 4
            &&& 16 * (k1 / 4) + 2 * (k1 % 4) + 8 * (r % 2) + c % 2 == 8 * r + c
            &&& 8 * (q / 2) + 2 * (q % 2) + 4 * (r / 2 % 2) + c / 2 % 2 == k1
        }),
{
    assert(r == 0 || r == 1 || r == 2 || r == 3 || r == 4 || r == 5 || r == 6 || r == 7);
    assert(c == 0 || c == 1 || c == 2 || c == 3 || c == 4 || c == 5 || c == 6 || c == 7);
}

/// Which coefficients hold the details of a sample's squares.
proof fn lemma_mallat_places(block: Seq<int>, r: int, c: int)
    requires
        0 <= r < 8,
        0 <= c < 8,
    ensures
        ({
            let m = Seq::new(64, |i: int| mallat(block, i));
            let ll1 = subband(block, 8, false, false);
            let ll2 = subband(ll1, 4, false, false);
            let k1 = 4 * (r / 2) + c / 2;
            let q = 2 * (r / 4) + c / 4;
            let i = scanned_at(r / 2, c / 2);
            &&& m[0] == subband(ll2, 2, false, false)[0]
            &&& m[1] == subband(ll2, 2, true, false)[0]
            &&& m[2] == subband(ll2, 2, false, true)[0]
            &&& m[3] == subband(ll2, 2, true, true)[0]
            &&& m[4 + q] == subband(ll1, 4, true, false)[q]
            &&& m[8 + q] == subband(ll1, 4, false, true)[q]
            &&& m[12 + q] == subband(ll1, 4, true, true)[q]
            &&& m[16 + i] == subband(block, 8, true, false)[k1]
            &&& m[32 + i] == subband(block, 8, false, true)[k1]
            &&& m[48 + i] == subband(block, 8, true, true)[k1]
        }),
{
    reveal(mallat);
    lemma_scanned_at(r / 2, c / 2);
}

/// The transform keeps the whole block: each sample is rebuilt exactly from the coefficients
/// before their division.
#[verifier::spinoff_prover]
pub proof fn law_coefficients_hold_the_block(block: Seq<int>, r: int, c: int)
    requires
        block.len() == 64,
        0 <= r < 8,
        0 <= c < 8,
    ensures
        64 * block[8 * r + c] == rebuilt(Seq::new(64, |i: int| mallat(block, i)), r, c),
{
    let ll1 = subband(block, 8, false, false);
    let ll2 = subband(ll1, 4, false, false);
    let k1 = 4 * (r / 2) + c / 2;
    let q = 2 * (r / 4) + c / 4;
    lemma_subband_len(block, 8);
    lemma_subband_len(ll1, 4);
    lemma_subband_len(ll2, 2);
    lemma_places(r, c);
    lemma_mallat_places(block, r, c);
    lemma_step_back(block, 8, k1, c % 2, r % 2);
    lemma_step_back(ll1, 4, q, c / 2 % 2, r / 2 % 2);
    lemma_step_back(ll2, 2, 0, c / 4, r / 4);
}

/// What rebuilding makes of coefficients that are off by remainders of a division by 64.
proof fn lemma_rebuilt_remainders(t: Seq<int>, m: Seq<int>, r: int, c: int)
    requires
        t.len() == 64,
        m.len() == 64,
        0 <= r < 8,
        0 <= c < 8,
        forall|i: int| 0 <= i < 64 ==> 64 * #[trigger] t[i] <= m[i] < 64 * t[i] + 64,
    ensures
        -64 * 64 < rebuilt(m, r, c) - 64 * rebuilt(t, r, c) < 64 * 64,
{
    let q = 2 * (r / 4) + c / 4;
    let i = scanned_at(r / 2, c / 2);
    lemma_scanned_at(r / 2, c / 2);
    let (x3, y3) = (c / 4, r / 4);
    let (x2, y2) = (c / 2 % 2, r / 2 % 2);
    let (x1, y1) = (c % 2, r % 2);
    lemma_signs(x3, y3, t[1]);
    lemma_signs(y3, x3, t[2]);
    lemma_signs(x3, y3, t[3]);
    lemma_signs(x3, y3, m[1]);
    lemma_signs(y3, x3, m[2]);
    lemma_signs(x3, y3, m[3]);
    lemma_signs(x2, y2, t[4 + q]);
    lemma_signs(y2, x2, t[8 + q]);
    lemma_signs(x2, y2, t[12 + q]);
    lemma_signs(x2, y2, m[4 + q]);
    lemma_signs(y2, x2, m[8 + q]);
    lemma_signs(x2, y2, m[12 + q]);
    lemma_signs(x1, y1, t[16 + i]);
    lemma_signs(y1, x1, t[32 + i]);
    lemma_signs(x1, y1, t[48 + i]);
    lemma_signs(x1, y1, m[16 + i]);
    lemma_signs(y1, x1, m[32 + i]);
    lemma_signs(x1, y1, m[48 + i]);
}

/// The transform carries the picture: each sample, rebuilt from the coefficients that are sent on,
/// is off by less than one code word, which is 64 in the codec's fixed point.
pub proof fn law_transform_carries_the_block(block: Seq<int>, r: int, c: int)
    requires
        block.len() == 64,
        0 <= r < 8,
        0 <= c < 8,
    ensures
        transform_spec(block).len() == 64,
        -64 < block[8 * r + c] - rebuilt(transform_spec(block), r, c) < 64,
{
    let t = transform_spec(block);
    let m = Seq::new(64, |i: int| mallat(block, i));
    law_coefficients_hold_the_block(block, r, c);
    assert forall|i: int| 0 <= i < 64 implies 64 * #[trigger] t[i] <= m[i] < 64 * t[i] + 64 by {
        assert(t[i] == m[i] / 64);
    }
    lemma_rebuilt_remainders(t, m, r, c);
}

/// The finest details of a 2x2 cell: left minus right, upper minus lower, and the one diagonal
/// minus the other, each divided by 64 towards negative infinity.
pub proof fn law_finest_details_are_those_of_their_cell(block: Seq<int>, row: int, col: int)
    requires
        block.len() == 64,
        0 <= row < 4,
        0 <= col < 4,
    ensures
        ({
            let i = scanned_at(row, col);
            let (a, b) = (block[16 * row + 2 * col], block[16 * row + 2 * col + 1]);
            let (d, e) = (block[16 * row + 2 * col + 8], block[16 * row + 2 * col + 9]);
            let t = transform_spec(block);
            &&& t[16 + i] == ((a + d) - (b + e)) / 64
            &&& t[32 + i] == ((a + b) - (d + e)) / 64
            &&& t[48 + i] == ((a + e) - (b + d)) / 64
        }),
{
    reveal(mallat);
    lemma_scanned_at(row, col);
    let k = 4 * row + col;
    assert(k / 4 == row && k % 4 == col);
    lemma_subband_entry(block, 8, k, 16 * row + 2 * col);
}

/// No colour is lost: each channel is read back from the planes. The first chroma plane is red's,
/// the second blue's, and luma leaves green once a quarter of both is taken off it.
pub proof fn law_colours_read_back(r: int, g: int, b: int)
    ensures
        ({
            let (y, cb, cr) = colour_spec(r, g, b);
            &&& 64 * g == y - 64 * ((cb + cr) / 256)
            &&& 64 * r == 64 * g + cb
            &&& 64 * b == 64 * g + cr
        }),
{
}

} // verus!
