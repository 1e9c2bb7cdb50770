//! One strip: its quantised blocks and their encoding.

use vstd::prelude::*;

use crate::bytes;
use crate::error::Error;
use crate::haar::bits;
use crate::haar::entropy;
use crate::haar::entropy::Bits;
use crate::haar::geometry::Geometry;
use crate::haar::quant;
use crate::haar::quant::{quantize, quantize_chroma_ac, quantize_dc_round};
use crate::haar::transform;
use crate::haar::transform::{SAMPLE_LIMIT, transform as haar_transform};

verus! {

/// The quantised coefficients of a block and each plane's last significant AC position.
pub struct Block {
    /// Cr coefficients.
    pub qcr: Seq<int>,
    /// Cb coefficients.
    pub qcb: Seq<int>,
    /// Luma coefficients.
    pub qy: Seq<int>,
    /// Last significant Cr position.
    pub lcr: nat,
    /// Last significant Cb position.
    pub lcb: nat,
    /// Last significant luma position.
    pub ly: nat,
}

/// One quantised colour block.
pub struct ColourBlock {
    /// Cr coefficients.
    pub qcr: [i32; 64],
    /// Cb coefficients.
    pub qcb: [i32; 64],
    /// Luma coefficients.
    pub qy: [i32; 64],
    /// Last significant Cr position.
    pub lcr: usize,
    /// Last significant Cb position.
    pub lcb: usize,
    /// Last significant luma position.
    pub ly: usize,
}

impl View for ColourBlock {
    type V = Block;

    open spec fn view(&self) -> Block {
        Block {
            qcr: transform::ints(self.qcr@),
            qcb: transform::ints(self.qcb@),
            qy: transform::ints(self.qy@),
            lcr: self.lcr as nat,
            lcb: self.lcb as nat,
            ly: self.ly as nat,
        }
    }
}

impl Block {
    /// Every last position lies in the block.
    pub open spec fn wf(self) -> bool {
        self.lcr < 64 && self.lcb < 64 && self.ly < 64
    }
}

/// The last nonzero position in `1..n`, or zero where there is none.
pub open spec fn last_nonzero(q: Seq<int>, n: int) -> nat
    decreases n,
{
    if n <= 1 {
        0
    } else if q[n - 1] != 0 {
        (n - 1) as nat
    } else {
        last_nonzero(q, n - 1)
    }
}

/// The last nonzero position is the one after which everything is zero.
pub proof fn law_last_nonzero_is_exact(q: Seq<int>, n: int)
    requires
        n >= 1,
    ensures
        last_nonzero(q, n) < n,
        last_nonzero(q, n) > 0 ==> q[last_nonzero(q, n) as int] != 0,
        forall|i: int| last_nonzero(q, n) < i < n ==> q[i] == 0,
    decreases n,
{
    if n > 1 && q[n - 1] == 0 {
        law_last_nonzero_is_exact(q, n - 1);
    }
}

/// The exact AC extent of a plane.
pub fn chroma_last(q: &[i32; 64]) -> (last: usize)
    ensures
        last == last_nonzero(transform::ints(q@), 64),
{
    let mut n: usize = 64;
    while n > 1
        invariant
            1 <= n <= 64,
            last_nonzero(transform::ints(q@), 64) == last_nonzero(transform::ints(q@), n as int),
        decreases n,
    {
        if q[n - 1] != 0 {
            return n - 1;
        }
        n = n - 1;
    }
    0
}

/// A chroma plane, transformed and quantised.
pub open spec fn chroma_plane(samples: Seq<int>) -> Seq<int> {
    let t = transform::transform_spec(samples);
    Seq::new(
        64,
        |i: int|
            if i == 0 {
                quant::quantize_dc_spec(1, t[0])
            } else {
                quant::quantize_chroma_spec(t[i], i)
            },
    )
}

/// The luma plane, transformed and quantised.
pub open spec fn luma_plane(samples: Seq<int>) -> Seq<int> {
    let t = transform::transform_spec(samples);
    Seq::new(
        64,
        |i: int|
            if i == 0 {
                quant::quantize_dc_spec(0, t[0])
            } else {
                quant::quantize_spec(t[i], i)
            },
    )
}

/// The quantised block of three planes of samples.
pub open spec fn block_of(cr: Seq<int>, cb: Seq<int>, y: Seq<int>) -> Block {
    Block {
        qcr: chroma_plane(cr),
        qcb: chroma_plane(cb),
        qy: luma_plane(y),
        lcr: last_nonzero(chroma_plane(cr), 64),
        lcb: last_nonzero(chroma_plane(cb), 64),
        ly: last_nonzero(luma_plane(y), 64),
    }
}

/// Transform and quantise one block's three planes; see [`block_of`].
pub fn colour_block(cr: &[i32; 64], cb: &[i32; 64], y: &[i32; 64]) -> (b: ColourBlock)
    requires
        transform::within(cr@, SAMPLE_LIMIT as int),
        transform::within(cb@, SAMPLE_LIMIT as int),
        transform::within(y@, SAMPLE_LIMIT as int),
    ensures
        b@ == block_of(transform::ints(cr@), transform::ints(cb@), transform::ints(y@)),
        b@.wf(),
{
    let tcr: [i32; 64] = haar_transform(cr);
    let tcb: [i32; 64] = haar_transform(cb);
    let ty: [i32; 64] = haar_transform(y);
    let ghost scr = transform::ints(cr@);
    let ghost scb = transform::ints(cb@);
    let ghost sy = transform::ints(y@);
    proof {
        transform::law_transform_keeps_the_sample_range(scr, SAMPLE_LIMIT as int);
        transform::law_transform_keeps_the_sample_range(scb, SAMPLE_LIMIT as int);
        transform::law_transform_keeps_the_sample_range(sy, SAMPLE_LIMIT as int);
        assert forall|i: int| 0 <= i < 64 implies {
            &&& -SAMPLE_LIMIT <= #[trigger] tcr@[i] <= SAMPLE_LIMIT
            &&& tcr@[i] == transform::transform_spec(scr)[i]
        } by {
            assert(transform::ints(tcr@)[i] == tcr@[i]);
        }
        assert forall|i: int| 0 <= i < 64 implies {
            &&& -SAMPLE_LIMIT <= #[trigger] tcb@[i] <= SAMPLE_LIMIT
            &&& tcb@[i] == transform::transform_spec(scb)[i]
        } by {
            assert(transform::ints(tcb@)[i] == tcb@[i]);
        }
        assert forall|i: int| 0 <= i < 64 implies {
            &&& -SAMPLE_LIMIT <= #[trigger] ty@[i] <= SAMPLE_LIMIT
            &&& ty@[i] == transform::transform_spec(sy)[i]
        } by {
            assert(transform::ints(ty@)[i] == ty@[i]);
        }
    }
    let mut qcr: [i32; 64] = [0;64];
    let mut qcb: [i32; 64] = [0;64];
    let mut qy: [i32; 64] = [0;64];
    let mut lcr: usize = 0;
    let mut lcb: usize = 0;
    let mut ly: usize = 0;
    qcr[0] = quantize_dc_round(2, tcr[0]);
    qcb[0] = quantize_dc_round(1, tcb[0]);
    qy[0] = quantize_dc_round(0, ty[0]);
    let mut i: usize = 1;
    while i < 64
        invariant
            1 <= i <= 64,
            forall|k: int|
                0 <= k < 64 ==> {
                    &&& -SAMPLE_LIMIT <= #[trigger] tcr@[k] <= SAMPLE_LIMIT
                    &&& tcr@[k] == transform::transform_spec(scr)[k]
                },
            forall|k: int|
                0 <= k < 64 ==> {
                    &&& -SAMPLE_LIMIT <= #[trigger] tcb@[k] <= SAMPLE_LIMIT
                    &&& tcb@[k] == transform::transform_spec(scb)[k]
                },
            forall|k: int|
                0 <= k < 64 ==> {
                    &&& -SAMPLE_LIMIT <= #[trigger] ty@[k] <= SAMPLE_LIMIT
                    &&& ty@[k] == transform::transform_spec(sy)[k]
                },
            forall|k: int| 0 <= k < i ==> #[trigger] qcr@[k] == chroma_plane(scr)[k],
            forall|k: int| 0 <= k < i ==> #[trigger] qcb@[k] == chroma_plane(scb)[k],
            forall|k: int| 0 <= k < i ==> #[trigger] qy@[k] == luma_plane(sy)[k],
            lcr == last_nonzero(chroma_plane(scr), i as int),
            lcb == last_nonzero(chroma_plane(scb), i as int),
            ly == last_nonzero(luma_plane(sy), i as int),
            lcr < 64,
            lcb < 64,
            ly < 64,
        decreases 64 - i,
    {
        let vcr: i32 = quantize_chroma_ac(tcr[i], i);
        let vcb: i32 = quantize_chroma_ac(tcb[i], i);
        let vy: i32 = quantize(ty[i], i);
        if vcr != 0 {
            lcr = i;
        }
        if vcb != 0 {
            lcb = i;
        }
        if vy != 0 {
            ly = i;
        }
        qcr[i] = vcr;
        qcb[i] = vcb;
        qy[i] = vy;
        i += 1;
    }
    let b = ColourBlock { qcr, qcb, qy, lcr, lcb, ly };
    assert(b@.qcr =~= chroma_plane(scr));
    assert(b@.qcb =~= chroma_plane(scb));
    assert(b@.qy =~= luma_plane(sy));
    b
}

/// The significance trees of the first `n` blocks.
pub open spec fn sync_bits(g: Geometry, blocks: Seq<Block>, n: nat) -> Seq<bool>
    decreases n,
{
    if n == 0 {
        Seq::empty()
    } else {
        let b = blocks[n - 1];
        sync_bits(g, blocks, (n - 1) as nat) + entropy::sync_code(g.coding, b.lcr, b.lcb, b.ly)
    }
}

/// The DCs of block `i`, in Cr, Cb, Y order; zero before the first block.
pub open spec fn dc_of(blocks: Seq<Block>, i: int) -> (int, int, int) {
    if i < 0 {
        (0, 0, 0)
    } else {
        (blocks[i].qcr[0], blocks[i].qcb[0], blocks[i].qy[0])
    }
}

/// The DCs of the first `n` blocks, each coded as its difference to the block before.
pub open spec fn dc_bits(g: Geometry, blocks: Seq<Block>, n: nat) -> Seq<bool>
    decreases n,
{
    if n == 0 {
        Seq::empty()
    } else {
        let cmax = (g.depth.bits() + 2) as nat;
        let d = dc_of(blocks, n - 1);
        let p = dc_of(blocks, n - 2);
        dc_bits(g, blocks, (n - 1) as nat) + entropy::escape_code(g.coding, d.0 - p.0, cmax)
            + entropy::escape_code(g.coding, d.1 - p.1, cmax) + entropy::escape_code(
            g.coding,
            d.2 - p.2,
            cmax,
        )
    }
}

/// The AC coefficients of blocks `from..to`.
pub open spec fn ac_bits(g: Geometry, blocks: Seq<Block>, from: int, to: int) -> Seq<bool>
    decreases to - from,
{
    if to <= from {
        Seq::empty()
    } else {
        let b = blocks[to - 1];
        ac_bits(g, blocks, from, to - 1) + entropy::block_ac_code(
            g.coding,
            g.depth,
            b.qcr,
            b.qcb,
            b.qy,
            b.lcr,
            b.lcb,
            b.ly,
        )
    }
}

/// The main region of a strip: every block's significance, then every block's DCs.
#[verifier::opaque]
pub open spec fn main_region(g: Geometry, blocks: Seq<Block>) -> Seq<u8> {
    bits::pack(sync_bits(g, blocks, blocks.len()) + dc_bits(g, blocks, blocks.len()))
}

/// The AC region of the first eight blocks.
#[verifier::opaque]
pub open spec fn row0_region(g: Geometry, blocks: Seq<Block>) -> Seq<u8> {
    bits::pack(ac_bits(g, blocks, 0, 8))
}

/// The AC region of the blocks after the eighth.
#[verifier::opaque]
pub open spec fn row1_region(g: Geometry, blocks: Seq<Block>) -> Seq<u8> {
    bits::pack(ac_bits(g, blocks, 8, blocks.len() as int))
}

/// Where the first AC region starts.
pub open spec fn row0_offset(g: Geometry, blocks: Seq<Block>) -> int {
    18 + bytes::even(main_region(g, blocks).len() as int)
}

/// Where the second AC region starts.
pub open spec fn row1_offset(g: Geometry, blocks: Seq<Block>) -> int {
    row0_offset(g, blocks) + bytes::even(row0_region(g, blocks).len() as int)
}

/// The sixteen-byte header of a strip: its magic, its position, and the offsets of its two AC
/// regions.
pub open spec fn strip_header(x: int, y: int, row0: int, row1: int) -> Seq<u8> {
    seq![0x01u8, 0x28u8] + bytes::le16(x) + bytes::le16(y) + bytes::zero_bytes(4) + bytes::le16(
        row0 % 0x1_0000,
    ) + bytes::le16(row1 % 0x1_0000) + bytes::zero_bytes(2)
}

/// One encoded strip: the header, the main region and two bytes, and the two AC regions, each
/// region padded to an even length.
pub open spec fn strip_spec(g: Geometry, blocks: Seq<Block>, x: int, y: int) -> Seq<u8> {
    strip_header(x, y, row0_offset(g, blocks), row1_offset(g, blocks)) + bytes::pad_even(
        main_region(g, blocks),
    ) + bytes::zero_bytes(2) + bytes::pad_even(row0_region(g, blocks)) + bytes::pad_even(
        row1_region(g, blocks),
    )
}

/// The models of a sequence of blocks.
pub open spec fn views(blocks: Seq<ColourBlock>) -> Seq<Block> {
    Seq::new(blocks.len(), |i: int| blocks[i]@)
}

/// Whether every difference of consecutive DCs fits 32 bits.
pub open spec fn dc_steps_fit(blocks: Seq<Block>) -> bool {
    forall|i: int|
        #![trigger blocks[i]]
        0 <= i < blocks.len() ==> {
            let d = dc_of(blocks, i);
            let p = dc_of(blocks, i - 1);
            &&& i32::MIN <= d.0 - p.0 <= i32::MAX
            &&& i32::MIN <= d.1 - p.1 <= i32::MAX
            &&& i32::MIN <= d.2 - p.2 <= i32::MAX
        }
}

/// Emit the AC coefficients of `blocks[from..to]`.
fn encode_row(g: Geometry, blocks: &[ColourBlock], from: usize, to: usize) -> (row: Vec<u8>)
    requires
        from <= to <= blocks@.len(),
        forall|i: int| 0 <= i < blocks@.len() ==> #[trigger] blocks@[i]@.wf(),
    ensures
        row@ == bits::pack(ac_bits(g, views(blocks@), from as int, to as int)),
{
    let mut row = Bits::new(g.coding());
    let mut i: usize = from;
    while i < to
        invariant
            from <= i <= to <= blocks@.len(),
            forall|k: int| 0 <= k < blocks@.len() ==> #[trigger] blocks@[k]@.wf(),
            row.wf(),
            row.dialect() == g.coding,
            row@ == ac_bits(g, views(blocks@), from as int, i as int),
        decreases to - i,
    {
        let b: &ColourBlock = &blocks[i];
        assert(blocks@[i as int]@.wf());
        row.colour_block_ac(&b.qcr, &b.qcb, &b.qy, b.lcr, b.lcb, b.ly, g.depth());
        i += 1;
    }
    row.finish()
}

/// Emit the AC region of the first eight blocks.
fn encode_row0(g: Geometry, blocks: &[ColourBlock]) -> (row: Vec<u8>)
    requires
        blocks@.len() >= 8,
        forall|i: int| 0 <= i < blocks@.len() ==> #[trigger] blocks@[i]@.wf(),
    ensures
        row@ == row0_region(g, views(blocks@)),
{
    reveal(row0_region);
    encode_row(g, blocks, 0, 8)
}

/// Emit the AC region of the blocks after the eighth.
fn encode_row1(g: Geometry, blocks: &[ColourBlock]) -> (row: Vec<u8>)
    requires
        blocks@.len() >= 8,
        forall|i: int| 0 <= i < blocks@.len() ==> #[trigger] blocks@[i]@.wf(),
    ensures
        row@ == row1_region(g, views(blocks@)),
{
    reveal(row1_region);
    encode_row(g, blocks, 8, blocks.len())
}

/// Concatenation groups either way.
proof fn lemma_append_three<T>(s: Seq<T>, d: Seq<T>, a: Seq<T>, b: Seq<T>, c: Seq<T>)
    ensures
        s + d + a + b + c == s + (d + a + b + c),
{
    assert(s + d + a + b + c =~= s + (d + a + b + c));
}

/// Append a region and its padding to an even length.
fn append_padded(out: &mut Vec<u8>, region: &[u8])
    ensures
        final(out)@ == old(out)@ + bytes::pad_even(region@),
{
    bytes::append(out, region);
    bytes::append_zeros(out, region.len() % 2);
    assert(out@ =~= old(out)@ + bytes::pad_even(region@));
}

/// Emit the significance trees and the DCs of a strip's blocks.
fn encode_main(g: Geometry, blocks: &[ColourBlock]) -> (main: Vec<u8>)
    requires
        forall|i: int| 0 <= i < blocks@.len() ==> #[trigger] blocks@[i]@.wf(),
        dc_steps_fit(views(blocks@)),
    ensures
        main@ == main_region(g, views(blocks@)),
{
    reveal(main_region);
    let ghost v = views(blocks@);
    let dc_cmax: u32 = g.depth().dc_cmax();
    let mut main = Bits::new(g.coding());
    let mut i: usize = 0;
    while i < blocks.len()
        invariant
            i <= blocks@.len(),
            v == views(blocks@),
            forall|k: int| 0 <= k < blocks@.len() ==> #[trigger] blocks@[k]@.wf(),
            main.wf(),
            main.dialect() == g.coding,
            main@ == sync_bits(g, v, i as nat),
        decreases blocks@.len() - i,
    {
        let b: &ColourBlock = &blocks[i];
        assert(blocks@[i as int]@.wf());
        main.colour_sync_unit(b.lcr, b.lcb, b.ly);
        i += 1;
    }
    let ghost start = main@;
    assert(main@ =~= start + dc_bits(g, v, 0));
    let mut pcr: i32 = 0;
    let mut pcb: i32 = 0;
    let mut py: i32 = 0;
    i = 0;
    while i < blocks.len()
        invariant
            i <= blocks@.len(),
            v == views(blocks@),
            dc_steps_fit(v),
            dc_cmax == g.depth.bits() + 2,
            start == sync_bits(g, v, v.len()),
            main.wf(),
            main.dialect() == g.coding,
            main@ == start + dc_bits(g, v, i as nat),
            (pcr as int, pcb as int, py as int) == dc_of(v, i - 1),
        decreases blocks@.len() - i,
    {
        let b: &ColourBlock = &blocks[i];
        let cr: i32 = b.qcr[0];
        let cb: i32 = b.qcb[0];
        let yv: i32 = b.qy[0];
        assert(v[i as int] == b@);
        assert(dc_of(v, i as int) == (cr as int, cb as int, yv as int));
        main.esc(cr - pcr, dc_cmax);
        main.esc(cb - pcb, dc_cmax);
        main.esc(yv - py, dc_cmax);
        proof {
            lemma_append_three(
                start,
                dc_bits(g, v, i as nat),
                entropy::escape_code(g.coding, cr - pcr, dc_cmax as nat),
                entropy::escape_code(g.coding, cb - pcb, dc_cmax as nat),
                entropy::escape_code(g.coding, yv - py, dc_cmax as nat),
            );
        }
        pcr = cr;
        pcb = cb;
        py = yv;
        i += 1;
    }
    main.finish()
}

/// Encode the strip at pixel `(x, y)` from its blocks; see [`strip_spec`].
pub fn colour_strip(geometry: Geometry, blocks: &[ColourBlock], x: u16, y: u16) -> (out: Result<
    Vec<u8>,
    Error,
>)
    requires
        blocks@.len() >= 8,
        forall|i: int| 0 <= i < blocks@.len() ==> #[trigger] blocks@[i]@.wf(),
        dc_steps_fit(views(blocks@)),
        strip_spec(geometry, views(blocks@), x as int, y as int).len() <= usize::MAX,
    ensures
        out matches Ok(s) && s@ == strip_spec(geometry, views(blocks@), x as int, y as int),
{
    let main: Vec<u8> = encode_main(geometry, blocks);
    let row0: Vec<u8> = encode_row0(geometry, blocks);
    let row1: Vec<u8> = encode_row1(geometry, blocks);
    let w18: usize = 18 + bytes::round_even(main.len());
    let w1c: usize = w18 + bytes::round_even(row0.len());
    let mut out: Vec<u8> = strip_head(x, y, w18, w1c);
    append_padded(&mut out, &main);
    bytes::append_zeros(&mut out, 2);
    append_padded(&mut out, &row0);
    append_padded(&mut out, &row1);
    Ok(out)
}

/// Build a strip's header; see [`strip_header`].
fn strip_head(x: u16, y: u16, row0: usize, row1: usize) -> (out: Vec<u8>)
    ensures
        out@ == strip_header(x as int, y as int, row0 as int, row1 as int),
{
    let mut out: Vec<u8> = Vec::new();
    out.push(0x01);
    out.push(0x28);
    assert(out@ =~= seq![0x01u8, 0x28u8]);
    bytes::append_u16(&mut out, x);
    bytes::append_u16(&mut out, y);
    bytes::append_zeros(&mut out, 4);
    bytes::append_u16(&mut out, bytes::low_u16(row0));
    bytes::append_u16(&mut out, bytes::low_u16(row1));
    bytes::append_zeros(&mut out, 2);
    out
}

/// An escape takes at most two bits per category of its codebook.
proof fn lemma_escape_len(g: Geometry, v: int, cmax: nat)
    requires
        cmax >= 1,
    ensures
        entropy::escape_code(g.coding, v, cmax).len() <= 2 * cmax,
{
}

/// A significance tree takes at most 41 bits.
proof fn lemma_sync_len(g: Geometry, b: Block)
    requires
        b.wf(),
    ensures
        entropy::sync_code(g.coding, b.lcr, b.lcb, b.ly).len() <= 41,
{
    lemma_small_log2(b.lcr + 1);
    lemma_small_log2(b.lcb + 1);
    lemma_small_log2((64 - b.ly) as nat);
}

/// The logarithm of a number up to 64 is at most six.
proof fn lemma_small_log2(n: nat)
    requires
        1 <= n <= 64,
    ensures
        entropy::floor_log2(n) <= 6,
{
    entropy::lemma_bit_length_bounds(n);
    entropy::lemma_powers();
    let c = entropy::bit_length(n);
    if c > 7 {
        entropy::lemma_two_to_grows(7, (c - 1) as nat);
        assert(entropy::two_to(7) == 2 * entropy::two_to(6));
    }
}

/// The AC coefficients of one plane take at most 24 bits each.
proof fn lemma_plane_len(g: Geometry, q: Seq<int>, last: nat, cmax: nat)
    requires
        1 <= cmax <= 12,
    ensures
        entropy::plane_ac_code(g.coding, q, last, cmax).len() <= 24 * last,
    decreases last,
{
    if last > 0 {
        lemma_plane_len(g, q, (last - 1) as nat, cmax);
        lemma_escape_len(g, q[last as int], cmax);
    }
}

/// The significance and the DCs of `n` blocks take at most 113 bits each.
proof fn lemma_main_len(g: Geometry, blocks: Seq<Block>, n: nat)
    requires
        n <= blocks.len(),
        forall|i: int| 0 <= i < blocks.len() ==> #[trigger] blocks[i].wf(),
    ensures
        sync_bits(g, blocks, n).len() <= 41 * n,
        dc_bits(g, blocks, n).len() <= 72 * n,
    decreases n,
{
    if n > 0 {
        lemma_main_len(g, blocks, (n - 1) as nat);
        lemma_sync_len(g, blocks[n - 1]);
        let d = dc_of(blocks, n - 1);
        let p = dc_of(blocks, n - 2);
        lemma_escape_len(g, d.0 - p.0, g.depth.bits() + 2);
        lemma_escape_len(g, d.1 - p.1, g.depth.bits() + 2);
        lemma_escape_len(g, d.2 - p.2, g.depth.bits() + 2);
    }
}

/// The AC coefficients of a block take at most 4536 bits.
proof fn lemma_row_len(g: Geometry, blocks: Seq<Block>, from: int, to: int)
    requires
        0 <= from <= to <= blocks.len(),
        forall|i: int| 0 <= i < blocks.len() ==> #[trigger] blocks[i].wf(),
    ensures
        ac_bits(g, blocks, from, to).len() <= 4536 * (to - from),
    decreases to - from,
{
    if to > from {
        lemma_row_len(g, blocks, from, to - 1);
        let b = blocks[to - 1];
        assert(blocks[to - 1].wf());
        lemma_plane_len(g, b.qcr, b.lcr, g.depth.bits() + 2);
        lemma_plane_len(g, b.qcb, b.lcb, g.depth.bits() + 2);
        lemma_plane_len(g, b.qy, b.ly, g.depth.bits() + 1);
    }
}

/// A strip of sixteen blocks never exceeds 9316 bytes, whatever it shows, so its region offsets
/// always fit their fields.
pub proof fn law_strip_is_bounded(g: Geometry, blocks: Seq<Block>, x: int, y: int)
    requires
        blocks.len() == 16,
        forall|i: int| 0 <= i < blocks.len() ==> #[trigger] blocks[i].wf(),
    ensures
        18 <= strip_spec(g, blocks, x, y).len() <= 9316,
        strip_spec(g, blocks, x, y).len() % 2 == 0,
        18 <= row0_offset(g, blocks) <= row1_offset(g, blocks) <= 9316,
{
    lemma_region_lens(g, blocks);
    lemma_strip_len(g, blocks, x, y);
}

/// How long the regions of a strip of sixteen blocks can be.
proof fn lemma_region_lens(g: Geometry, blocks: Seq<Block>)
    requires
        blocks.len() == 16,
        forall|i: int| 0 <= i < blocks.len() ==> #[trigger] blocks[i].wf(),
    ensures
        main_region(g, blocks).len() <= 226,
        row0_region(g, blocks).len() <= 4536,
        row1_region(g, blocks).len() <= 4536,
{
    reveal(main_region);
    reveal(row0_region);
    reveal(row1_region);
    lemma_main_len(g, blocks, 16);
    lemma_row_len(g, blocks, 0, 8);
    lemma_row_len(g, blocks, 8, 16);
}

/// How long a strip is.
pub proof fn lemma_strip_len(g: Geometry, blocks: Seq<Block>, x: int, y: int)
    ensures
        strip_spec(g, blocks, x, y).len() == row1_offset(g, blocks) + bytes::even(
            row1_region(g, blocks).len() as int,
        ),
{
    assert(strip_header(x, y, row0_offset(g, blocks), row1_offset(g, blocks)).len() == 16);
}

/// A strip opens with its magic and its position.
pub proof fn law_strip_states_its_position(g: Geometry, blocks: Seq<Block>, x: int, y: int)
    requires
        0 <= x < 0x1_0000,
        0 <= y < 0x1_0000,
    ensures
        strip_spec(g, blocks, x, y).len() >= 18,
        strip_spec(g, blocks, x, y)[0] == 0x01,
        strip_spec(g, blocks, x, y)[1] == 0x28,
        bytes::u16_at(strip_spec(g, blocks, x, y), 2) == x,
        bytes::u16_at(strip_spec(g, blocks, x, y), 4) == y,
{
    let h = strip_header(x, y, row0_offset(g, blocks), row1_offset(g, blocks));
    lemma_header_fields(x, y, row0_offset(g, blocks), row1_offset(g, blocks));
    lemma_front(
        h,
        bytes::pad_even(main_region(g, blocks)),
        bytes::zero_bytes(2),
        bytes::pad_even(row0_region(g, blocks)),
        bytes::pad_even(row1_region(g, blocks)),
    );
}

/// The front of a concatenation.
proof fn lemma_front(h: Seq<u8>, a: Seq<u8>, b: Seq<u8>, c: Seq<u8>, d: Seq<u8>)
    ensures
        (h + a + b + c + d).len() == h.len() + a.len() + b.len() + c.len() + d.len(),
        forall|i: int| 0 <= i < h.len() ==> (h + a + b + c + d)[i] == h[i],
{
}

/// The fields of a strip header.
proof fn lemma_header_fields(x: int, y: int, row0: int, row1: int)
    requires
        0 <= x < 0x1_0000,
        0 <= y < 0x1_0000,
    ensures
        ({
            let h = strip_header(x, y, row0, row1);
            &&& h.len() == 16
            &&& h[0] == 0x01
            &&& h[1] == 0x28
            &&& bytes::u16_at(h, 2) == x
            &&& bytes::u16_at(h, 4) == y
        }),
{
    let h = strip_header(x, y, row0, row1);
    assert(h[2] == bytes::le16(x)[0] && h[3] == bytes::le16(x)[1]);
    assert(h[4] == bytes::le16(y)[0] && h[5] == bytes::le16(y)[1]);
}

} // verus!
