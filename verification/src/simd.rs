//! The within-block form of the transform, the choice to use it, and the benchmark's arithmetic.

use vstd::prelude::*;

use crate::error::Error;
use crate::haar::quant;
use crate::haar::transform;
use crate::haar::transform::{SAMPLE_LIMIT, finish_levels, transform as haar_transform};

verus! {

/// Planes the encoder transforms together.
pub const ENCODER_BATCH: usize = 3;

/// Whether bit `bit` of a 32-bit word is set.
pub open spec fn word_has(word: u32, bit: u32) -> bool {
    word & (1u32 << bit) != 0
}

/// Whether the processor's capability words report a feature: the feature number names a word
/// and a bit of it, and a word that is not there reports nothing.
pub fn cpu_has(caps: &[u32], feature: u32) -> (has: bool)
    ensures
        has == (feature / 32 < caps@.len() && word_has(
            caps@[(feature / 32) as int],
            feature % 32,
        )),
{
    let word: usize = (feature / 32) as usize;
    if word < caps.len() {
        caps[word] & (1u32 << (feature % 32)) != 0
    } else {
        false
    }
}

/// Whether the encoder takes the vectorised path: it was asked for and the processor has it.
pub fn encoder_simd(on: bool, has_avx2: bool) -> (v: bool)
    ensures
        v == (on && has_avx2),
{
    on && has_avx2
}

/// The transform of one block, row pass over whole rows and column pass over row pairs.
///
/// Only the finest level differs in form from the plain transform; the result is the same.
pub fn transform_inblock(block: &[i32; 64]) -> (out: [i32; 64])
    requires
        transform::within(block@, SAMPLE_LIMIT as int),
    ensures
        transform::ints(out@) == transform::transform_spec(transform::ints(block@)),
{
    let mut l: [i32; 32] = [0;32];
    let mut h: [i32; 32] = [0;32];
    let mut k: usize = 0;
    while k < 32
        invariant
            k <= 32,
            transform::within(block@, SAMPLE_LIMIT as int),
            forall|j: int| 0 <= j < k ==> #[trigger] l@[j] == block@[2 * j] + block@[2 * j + 1],
            forall|j: int| 0 <= j < k ==> #[trigger] h@[j] == block@[2 * j] - block@[2 * j + 1],
        decreases 32 - k,
    {
        let e: i32 = block[2 * k];
        let o: i32 = block[2 * k + 1];
        l[k] = e + o;
        h[k] = e - o;
        k += 1;
    }
    let mut ll1: [i32; 16] = [0;16];
    let mut hl1: [i32; 16] = [0;16];
    let mut lh1: [i32; 16] = [0;16];
    let mut hh1: [i32; 16] = [0;16];
    let ghost s = transform::ints(block@);
    proof {
        transform::lemma_subband_len(s, 8);
    }
    k = 0;
    while k < 16
        invariant
            k <= 16,
            s == transform::ints(block@),
            transform::within(block@, SAMPLE_LIMIT as int),
            transform::within(ll1@, 4 * SAMPLE_LIMIT),
            forall|j: int| 0 <= j < 32 ==> #[trigger] l@[j] == block@[2 * j] + block@[2 * j + 1],
            forall|j: int| 0 <= j < 32 ==> #[trigger] h@[j] == block@[2 * j] - block@[2 * j + 1],
            forall|j: int|
                0 <= j < k ==> #[trigger] ll1@[j] == transform::subband(s, 8, false, false)[j],
            forall|j: int|
                0 <= j < k ==> #[trigger] hl1@[j] == transform::subband(s, 8, true, false)[j],
            forall|j: int|
                0 <= j < k ==> #[trigger] lh1@[j] == transform::subband(s, 8, false, true)[j],
            forall|j: int|
                0 <= j < k ==> #[trigger] hh1@[j] == transform::subband(s, 8, true, true)[j],
        decreases 16 - k,
    {
        let at: usize = 8 * (k / 4) + k % 4;
        let la: i32 = l[at];
        let lb: i32 = l[at + 4];
        let ha: i32 = h[at];
        let hb: i32 = h[at + 4];
        proof {
            let q = 2 * at as int;
            transform::lemma_subband_entry(s, 8, k as int, q);
            assert(la == block@[q] + block@[q + 1]);
            assert(lb == block@[q + 8] + block@[q + 9]);
            assert(ha == block@[q] - block@[q + 1]);
            assert(hb == block@[q + 8] - block@[q + 9]);
        }
        ll1[k] = la + lb;
        lh1[k] = la - lb;
        hl1[k] = ha + hb;
        hh1[k] = ha - hb;
        k += 1;
    }
    assert(transform::ints(ll1@) =~= transform::subband(s, 8, false, false));
    assert(transform::ints(hl1@) =~= transform::subband(s, 8, true, false));
    assert(transform::ints(lh1@) =~= transform::subband(s, 8, false, true));
    assert(transform::ints(hh1@) =~= transform::subband(s, 8, true, true));
    finish_levels(Ghost(s), &ll1, &hl1, &lh1, &hh1)
}

/// Transform the three planes of one block in the within-block form, or `None` where the plain
/// path is to run.
pub fn colour_block_transforms(
    enabled: bool,
    cr: &[i32; 64],
    cb: &[i32; 64],
    y: &[i32; 64],
) -> (r: Option<([i32; 64], [i32; 64], [i32; 64])>)
    requires
        transform::within(cr@, SAMPLE_LIMIT as int),
        transform::within(cb@, SAMPLE_LIMIT as int),
        transform::within(y@, SAMPLE_LIMIT as int),
    ensures
        r is Some <==> enabled,
        r matches Some(t) ==> {
            &&& transform::ints(t.0@) == transform::transform_spec(transform::ints(cr@))
            &&& transform::ints(t.1@) == transform::transform_spec(transform::ints(cb@))
            &&& transform::ints(t.2@) == transform::transform_spec(transform::ints(y@))
        },
{
    if !enabled {
        return None;
    }
    Some((transform_inblock(cr), transform_inblock(cb), transform_inblock(y)))
}

/// Transform the first `lanes` of a list of blocks.
pub fn transform_lanes(blocks: &[[i32; 64]], lanes: usize) -> (out: Vec<[i32; 64]>)
    requires
        lanes <= blocks@.len(),
        forall|i: int|
            0 <= i < blocks@.len() ==> transform::within(
                (#[trigger] blocks@[i])@,
                SAMPLE_LIMIT as int,
            ),
    ensures
        out@.len() == lanes,
        forall|i: int|
            0 <= i < lanes ==> transform::ints((#[trigger] out@[i])@) == transform::transform_spec(
                transform::ints(blocks@[i]@),
            ),
{
    let mut out: Vec<[i32; 64]> = Vec::new();
    let mut i: usize = 0;
    while i < lanes
        invariant
            i <= lanes <= blocks@.len(),
            forall|k: int|
                0 <= k < blocks@.len() ==> transform::within(
                    (#[trigger] blocks@[k])@,
                    SAMPLE_LIMIT as int,
                ),
            out@.len() == i,
            forall|k: int|
                0 <= k < i ==> transform::ints((#[trigger] out@[k])@)
                    == transform::transform_spec(transform::ints(blocks@[k]@)),
        decreases lanes - i,
    {
        let b: &[i32; 64] = &blocks[i];
        assert(transform::within(blocks@[i as int]@, SAMPLE_LIMIT as int));
        out.push(transform_inblock(b));
        i += 1;
    }
    out
}

/// One step of the block generator.
pub open spec fn xorshift(state: u64) -> u64 {
    let a = state ^ (state << 13u64);
    let b = a ^ (a >> 7u64);
    b ^ (b << 17u64)
}

/// The generator's state after `n` steps.
pub open spec fn state_after(n: nat) -> u64
    decreases n,
{
    if n == 0 {
        0x2545_f491_4f6c_dd1du64
    } else {
        xorshift(state_after((n - 1) as nat))
    }
}

/// Deterministic pseudo-random blocks spanning the 8-bit range the codec sees: sample `p` of
/// block `b` is the generator's state after `64 * b + p + 1` steps, modulo 256.
pub fn make_blocks(n: usize) -> (r: Result<Vec<[i32; 64]>, Error>)
    ensures
        r matches Ok(v) && v@.len() == n && forall|b: int, p: int|
            0 <= b < n && 0 <= p < 64 ==> #[trigger] v@[b]@[p] == state_after(
                (64 * b + p + 1) as nat,
            ) % 256,
{
    let mut state: u64 = 0x2545_f491_4f6c_dd1d;
    let mut v: Vec<[i32; 64]> = Vec::new();
    let mut i: usize = 0;
    while i < n
        invariant
            i <= n,
            v@.len() == i,
            state == state_after((64 * i) as nat),
            forall|b: int, p: int|
                0 <= b < i && 0 <= p < 64 ==> #[trigger] v@[b]@[p] == state_after(
                    (64 * b + p + 1) as nat,
                ) % 256,
        decreases n - i,
    {
        let mut block: [i32; 64] = [0;64];
        let mut p: usize = 0;
        while p < 64
            invariant
                p <= 64,
                state == state_after((64 * i + p) as nat),
                forall|q: int|
                    0 <= q < p ==> #[trigger] block@[q] == state_after((64 * i + q + 1) as nat)
                        % 256,
            decreases 64 - p,
        {
            let a: u64 = state ^ (state << 13u64);
            let b: u64 = a ^ (a >> 7u64);
            state = b ^ (b << 17u64);
            assert(state == state_after((64 * i + p + 1) as nat));
            block[p] = (state % 256) as i32;
            p += 1;
        }
        v.push(block);
        i += 1;
    }
    Ok(v)
}

/// Nanoseconds per item, truncated towards zero; nothing per no item.
pub fn ns_per(total: i64, items: usize) -> (ns: i64)
    requires
        items <= i64::MAX,
    ensures
        ns == (if items == 0 {
            0int
        } else {
            quant::truncated(total as int, items as int)
        }),
{
    if items == 0 {
        return 0;
    }
    let n: i128 = items as i128;
    if total < 0 {
        let t: i128 = -(total as i128);
        let q: i128 = t / n;
        assert(0 <= q <= t) by (nonlinear_arith)
            requires
                q == t / n,
                n >= 1,
                t >= 0,
        ;
        (-q) as i64
    } else {
        let t: i128 = total as i128;
        let q: i128 = t / n;
        assert(0 <= q <= t) by (nonlinear_arith)
            requires
                q == t / n,
                n >= 1,
                t >= 0,
        ;
        q as i64
    }
}

/// `part` as a percentage of `whole`, zero where there is no whole.
pub open spec fn percent_spec(part: int, whole: int) -> int {
    if whole > 0 {
        100 * part / whole
    } else {
        0
    }
}

/// `part` as a percentage of `whole`; see [`percent_spec`].
pub fn percent(part: i64, whole: i64) -> (p: i64)
    requires
        0 <= part,
        100 * part <= i64::MAX,
    ensures
        p == percent_spec(part as int, whole as int),
{
    if whole > 0 {
        (100 * part) / whole
    } else {
        0
    }
}

/// What the benchmark measured, in nanoseconds per unit.
#[derive(Clone, Copy, Debug, PartialEq, Eq, Structural)]
pub struct BenchTimes {
    /// The plain transform of one block.
    pub scalar_ns: i64,
    /// The encoding of one strip.
    pub strip_ns: i64,
    /// The colour conversion of one pixel.
    pub px_ns: i64,
    /// The quantised block of three planes.
    pub block_ns: i64,
    /// The entropy coding of one strip.
    pub entropy_ns: i64,
}

/// What the benchmark reports of a strip: the time of each stage and its share in percent.
#[derive(Clone, Copy, Debug, PartialEq, Eq, Structural)]
pub struct BenchShares {
    /// Time in the 48 transforms of a strip.
    pub in_transform: i64,
    /// Its share.
    pub transform_share: i64,
    /// Time in the colour conversion of a strip's pixels.
    pub in_colour: i64,
    /// Its share.
    pub colour_share: i64,
    /// Time in a strip's sixteen blocks.
    pub in_blocks: i64,
    /// Its share.
    pub block_share: i64,
    /// Share of the entropy coder.
    pub entropy_share: i64,
}

/// Break a strip's encoding time down: 48 transforms, 1024 pixels and 16 blocks to a strip.
pub fn bench_shares(t: BenchTimes) -> (s: BenchShares)
    requires
        0 <= t.scalar_ns,
        0 <= t.px_ns,
        0 <= t.block_ns,
        0 <= t.entropy_ns,
        4800 * t.scalar_ns <= i64::MAX,
        102400 * t.px_ns <= i64::MAX,
        1600 * t.block_ns <= i64::MAX,
        100 * t.entropy_ns <= i64::MAX,
    ensures
        s.in_transform == 48 * t.scalar_ns,
        s.transform_share == percent_spec(48 * t.scalar_ns, t.strip_ns as int),
        s.in_colour == 1024 * t.px_ns,
        s.colour_share == percent_spec(1024 * t.px_ns, t.strip_ns as int),
        s.in_blocks == 16 * t.block_ns,
        s.block_share == percent_spec(16 * t.block_ns, t.strip_ns as int),
        s.entropy_share == percent_spec(t.entropy_ns as int, t.strip_ns as int),
{
    let in_transform: i64 = 48 * t.scalar_ns;
    let in_colour: i64 = 1024 * t.px_ns;
    let in_blocks: i64 = 16 * t.block_ns;
    BenchShares {
        in_transform,
        transform_share: percent(in_transform, t.strip_ns),
        in_colour,
        colour_share: percent(in_colour, t.strip_ns),
        in_blocks,
        block_share: percent(in_blocks, t.strip_ns),
        entropy_share: percent(t.entropy_ns, t.strip_ns),
    }
}

/// Check the within-block form against the plain transform before any timing is reported; a
/// mismatch would be answered with [`Error::EINVAL`], and none is possible.
pub fn check_inblock(blocks: &[[i32; 64]]) -> (r: Result<(), Error>)
    requires
        forall|i: int|
            0 <= i < blocks@.len() ==> transform::within(
                (#[trigger] blocks@[i])@,
                SAMPLE_LIMIT as int,
            ),
    ensures
        r is Ok,
{
    let mut i: usize = 0;
    while i < blocks.len()
        invariant
            i <= blocks@.len(),
            forall|k: int|
                0 <= k < blocks@.len() ==> transform::within(
                    (#[trigger] blocks@[k])@,
                    SAMPLE_LIMIT as int,
                ),
        decreases blocks@.len() - i,
    {
        assert(transform::within(blocks@[i as int]@, SAMPLE_LIMIT as int));
        let a: [i32; 64] = transform_inblock(&blocks[i]);
        let b: [i32; 64] = haar_transform(&blocks[i]);
        let mut k: usize = 0;
        while k < 64
            invariant
                k <= 64,
                transform::ints(a@) == transform::ints(b@),
            decreases 64 - k,
        {
            assert(transform::ints(a@)[k as int] == transform::ints(b@)[k as int]);
            if a[k] != b[k] {
                return Err(Error::EINVAL);
            }
            k += 1;
        }
        i += 1;
    }
    Ok(())
}

/// A bit is set where the word, shifted down to it, is odd.
pub proof fn law_bits_are_counted_from_the_lowest(word: u32, bit: u32)
    requires
        bit < 32,
    ensures
        word_has(word, bit) <==> (word >> bit) % 2 == 1,
{
    assert((word & (1u32 << bit) != 0) <==> ((word >> bit) % 2 == 1)) by (bit_vector)
        requires
            bit < 32,
    ;
}

/// A percentage is the whole number of hundredths, rounded down.
pub proof fn law_percentages_are_whole_hundredths(part: int, whole: int)
    requires
        0 <= part,
        0 < whole,
    ensures
        percent_spec(part, whole) * whole <= 100 * part,
        100 * part < (percent_spec(part, whole) + 1) * whole,
        part == whole ==> percent_spec(part, whole) == 100,
{
    vstd::arithmetic::div_mod::lemma_fundamental_div_mod(100 * part, whole);
    vstd::arithmetic::div_mod::lemma_mod_bound(100 * part, whole);
    let q = 100 * part / whole;
    assert(whole * q == q * whole && (q + 1) * whole == q * whole + whole) by (nonlinear_arith);
    if part == whole {
        vstd::arithmetic::div_mod::lemma_div_multiples_vanish(100, whole);
        assert(100 * whole == whole * 100);
    }
}

/// The generator never runs dry: what is not zero stays so.
pub proof fn law_the_generator_does_not_stop(n: nat)
    ensures
        state_after(n) != 0,
    decreases n,
{
    if n > 0 {
        law_the_generator_does_not_stop((n - 1) as nat);
        let s = state_after((n - 1) as nat);
        assert(s != 0 ==> xorshift(s) != 0) by (bit_vector);
    }
}

} // verus!
