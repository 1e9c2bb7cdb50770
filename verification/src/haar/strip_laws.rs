//! What a strip's header states, and what the sample depth does to its encoding.

use vstd::prelude::*;

use crate::bytes;
use crate::haar::bits;
use crate::haar::entropy;
use crate::haar::entropy::Depth;
use crate::haar::geometry::Geometry;
use crate::haar::strip;
use crate::haar::strip::Block;
use crate::video_arm::CodeTables;

verus! {

/// A geometry at a sample depth.
pub open spec fn at_depth(g: Geometry, depth: Depth) -> Geometry {
    Geometry { depth, ..g }
}

/// Whether a value's category is at or above a codebook's maximum, where codebooks of different
/// size code it differently.
pub open spec fn reaches(v: int, cmax: nat) -> bool {
    entropy::bit_length(entropy::magnitude(v)) >= cmax
}

/// Whether any of the positions `1..=last` of a plane reaches the maximum of its codebook.
pub open spec fn plane_reaches(q: Seq<int>, last: nat, cmax: nat) -> bool {
    exists|k: int| 1 <= k <= last && reaches(#[trigger] q[k], cmax)
}

/// Whether any AC coefficient of a block reaches the maximum of its codebook at a depth.
pub open spec fn ac_reaches(b: Block, depth: Depth) -> bool {
    ||| plane_reaches(b.qcr, b.lcr, depth.bits() + 2)
    ||| plane_reaches(b.qcb, b.lcb, depth.bits() + 2)
    ||| plane_reaches(b.qy, b.ly, depth.bits() + 1)
}

/// Whether any DC of block `i`, as its difference to the block before, reaches the maximum of
/// its codebook at a depth.
pub open spec fn dc_reaches(blocks: Seq<Block>, i: int, depth: Depth) -> bool {
    let d = strip::dc_of(blocks, i);
    let p = strip::dc_of(blocks, i - 1);
    ||| reaches(d.0 - p.0, depth.bits() + 2)
    ||| reaches(d.1 - p.1, depth.bits() + 2)
    ||| reaches(d.2 - p.2, depth.bits() + 2)
}

/// Whether no value of a strip reaches the maximum of its codebook at a depth.
pub open spec fn stays_below(blocks: Seq<Block>, depth: Depth) -> bool {
    forall|i: int|
        #![trigger blocks[i]]
        0 <= i < blocks.len() ==> !dc_reaches(blocks, i, depth) && !ac_reaches(blocks[i], depth)
}

/// How many bits a strip's coefficients take.
pub open spec fn coefficient_bits(g: Geometry, blocks: Seq<Block>) -> nat {
    strip::dc_bits(g, blocks, blocks.len()).len() + strip::ac_bits(g, blocks, 0, 8).len()
        + strip::ac_bits(g, blocks, 8, blocks.len() as int).len()
}

/// A larger codebook codes a value below the smaller one's maximum alike, and any other longer.
proof fn lemma_escape_grows(coding: CodeTables, v: int, c: nat)
    requires
        c >= 1,
    ensures
        ({
            let small = entropy::escape_code(coding, v, c);
            let large = entropy::escape_code(coding, v, (c + 2) as nat);
            &&& !reaches(v, c) ==> small == large
            &&& reaches(v, c) ==> small.len() < large.len()
        }),
{
    let n = entropy::bit_length(entropy::magnitude(v));
    entropy::lemma_bit_length_bounds(entropy::magnitude(v));
    if n < c {
        entropy::lemma_two_to_grows(n, c);
        entropy::lemma_two_to_grows(n, (c + 2) as nat);
    }
}

/// The same of a plane's AC coefficients.
proof fn lemma_plane_grows(coding: CodeTables, q: Seq<int>, last: nat, c: nat)
    requires
        c >= 1,
    ensures
        ({
            let small = entropy::plane_ac_code(coding, q, last, c);
            let large = entropy::plane_ac_code(coding, q, last, (c + 2) as nat);
            &&& small.len() <= large.len()
            &&& !plane_reaches(q, last, c) ==> small == large
            &&& plane_reaches(q, last, c) ==> small.len() < large.len()
        }),
    decreases last,
{
    if last > 0 {
        let before = (last - 1) as nat;
        lemma_plane_grows(coding, q, before, c);
        lemma_escape_grows(coding, q[last as int], c);
        if plane_reaches(q, before, c) {
            let k = choose|k: int| 1 <= k <= before && reaches(#[trigger] q[k], c);
            assert(1 <= k <= last && reaches(q[k], c));
        }
        if reaches(q[last as int], c) {
            assert(plane_reaches(q, last, c));
        }
        if plane_reaches(q, last, c) {
            let k = choose|k: int| 1 <= k <= last && reaches(#[trigger] q[k], c);
            assert(k == last || (1 <= k <= before && reaches(q[k], c)));
        }
    }
}

/// The same of the AC coefficients of a run of blocks, from eight bits to ten.
proof fn lemma_ac_grows(g: Geometry, blocks: Seq<Block>, from: int, to: int)
    requires
        0 <= from <= to <= blocks.len(),
    ensures
        ({
            let small = strip::ac_bits(at_depth(g, Depth::Eight), blocks, from, to);
            let large = strip::ac_bits(at_depth(g, Depth::Ten), blocks, from, to);
            let any = exists|i: int| from <= i < to && ac_reaches(#[trigger] blocks[i], Depth::Eight);
            &&& small.len() <= large.len()
            &&& !any ==> small == large
            &&& any ==> small.len() < large.len()
        }),
    decreases to - from,
{
    if to > from {
        lemma_ac_grows(g, blocks, from, to - 1);
        let b = blocks[to - 1];
        lemma_plane_grows(g.coding, b.qcr, b.lcr, 10);
        lemma_plane_grows(g.coding, b.qcb, b.lcb, 10);
        lemma_plane_grows(g.coding, b.qy, b.ly, 9);
        let any = exists|i: int| from <= i < to && ac_reaches(#[trigger] blocks[i], Depth::Eight);
        if any {
            let i = choose|i: int| from <= i < to && ac_reaches(#[trigger] blocks[i], Depth::Eight);
            assert(i == to - 1 || (from <= i < to - 1 && ac_reaches(blocks[i], Depth::Eight)));
        }
    }
}

/// The DCs of one block, as its differences to the block before.
spec fn dc_code(coding: CodeTables, d: (int, int, int), p: (int, int, int), c: nat) -> Seq<bool> {
    entropy::escape_code(coding, d.0 - p.0, c) + entropy::escape_code(coding, d.1 - p.1, c)
        + entropy::escape_code(coding, d.2 - p.2, c)
}

/// The same of one block's DCs.
proof fn lemma_block_dc_grows(coding: CodeTables, d: (int, int, int), p: (int, int, int), c: nat)
    requires
        c >= 1,
    ensures
        ({
            let small = dc_code(coding, d, p, c);
            let large = dc_code(coding, d, p, (c + 2) as nat);
            let any = reaches(d.0 - p.0, c) || reaches(d.1 - p.1, c) || reaches(d.2 - p.2, c);
            &&& !any ==> small == large
            &&& any ==> small.len() < large.len()
        }),
{
    lemma_escape_grows(coding, d.0 - p.0, c);
    lemma_escape_grows(coding, d.1 - p.1, c);
    lemma_escape_grows(coding, d.2 - p.2, c);
}

/// The DCs of the first blocks end in those of the last of them.
proof fn lemma_dc_step(g: Geometry, blocks: Seq<Block>, n: nat)
    requires
        n > 0,
    ensures
        strip::dc_bits(g, blocks, n) == strip::dc_bits(g, blocks, (n - 1) as nat) + dc_code(
            g.coding,
            strip::dc_of(blocks, n - 1),
            strip::dc_of(blocks, n - 2),
            g.depth.bits() + 2,
        ),
{
    assert(strip::dc_bits(g, blocks, n) =~= strip::dc_bits(g, blocks, (n - 1) as nat) + dc_code(
        g.coding,
        strip::dc_of(blocks, n - 1),
        strip::dc_of(blocks, n - 2),
        g.depth.bits() + 2,
    ));
}

/// Whether a DC of one of the first `n` blocks reaches an eight-bit maximum.
spec fn any_dc_reaches(blocks: Seq<Block>, n: nat) -> bool {
    exists|i: int| #![trigger blocks[i]] 0 <= i < n && dc_reaches(blocks, i, Depth::Eight)
}

/// The same of the DCs of the first blocks, from eight bits to ten.
proof fn lemma_dc_grows(g: Geometry, blocks: Seq<Block>, n: nat)
    requires
        n <= blocks.len(),
    ensures
        ({
            let small = strip::dc_bits(at_depth(g, Depth::Eight), blocks, n);
            let large = strip::dc_bits(at_depth(g, Depth::Ten), blocks, n);
            &&& small.len() <= large.len()
            &&& !any_dc_reaches(blocks, n) ==> small == large
            &&& any_dc_reaches(blocks, n) ==> small.len() < large.len()
        }),
    decreases n,
{
    if n > 0 {
        lemma_dc_grows(g, blocks, (n - 1) as nat);
        lemma_dc_step(at_depth(g, Depth::Eight), blocks, n);
        lemma_dc_step(at_depth(g, Depth::Ten), blocks, n);
        lemma_block_dc_grows(
            g.coding,
            strip::dc_of(blocks, n - 1),
            strip::dc_of(blocks, n - 2),
            10,
        );
        assert(any_dc_reaches(blocks, n) <==> any_dc_reaches(blocks, (n - 1) as nat) || dc_reaches(
            blocks,
            n - 1,
            Depth::Eight,
        )) by {
            let last = blocks[n - 1];
            if any_dc_reaches(blocks, n) {
                let i = choose|i: int|
                    #![trigger blocks[i]]
                    0 <= i < n && dc_reaches(blocks, i, Depth::Eight);
                assert(blocks[i] == blocks[i]);
            }
        }
    }
}

/// The significance of a strip does not depend on the depth.
proof fn lemma_sync_is_depthless(g: Geometry, blocks: Seq<Block>, n: nat)
    ensures
        strip::sync_bits(at_depth(g, Depth::Eight), blocks, n) == strip::sync_bits(
            at_depth(g, Depth::Ten),
            blocks,
            n,
        ),
    decreases n,
{
    if n > 0 {
        lemma_sync_is_depthless(g, blocks, (n - 1) as nat);
    }
}

/// The sample depth shows where the codebooks differ and nowhere else: a strip of which no value
/// reaches an eight-bit maximum is the same at ten bits, and any other takes more bits there.
pub proof fn law_depth_shows_at_the_maximum(g: Geometry, blocks: Seq<Block>, x: int, y: int)
    requires
        blocks.len() >= 8,
    ensures
        ({
            let eight = at_depth(g, Depth::Eight);
            let ten = at_depth(g, Depth::Ten);
            &&& stays_below(blocks, Depth::Eight) ==> strip::strip_spec(eight, blocks, x, y)
                == strip::strip_spec(ten, blocks, x, y) && coefficient_bits(eight, blocks)
                == coefficient_bits(ten, blocks)
            &&& !stays_below(blocks, Depth::Eight) ==> coefficient_bits(eight, blocks)
                < coefficient_bits(ten, blocks)
        }),
{
    reveal(strip::main_region);
    reveal(strip::row0_region);
    reveal(strip::row1_region);
    let len = blocks.len() as int;
    lemma_sync_is_depthless(g, blocks, blocks.len());
    lemma_dc_grows(g, blocks, blocks.len());
    lemma_ac_grows(g, blocks, 0, 8);
    lemma_ac_grows(g, blocks, 8, len);
    if !stays_below(blocks, Depth::Eight) {
        let i = choose|i: int|
            #![trigger blocks[i]]
            0 <= i < blocks.len() && (dc_reaches(blocks, i, Depth::Eight) || ac_reaches(
                blocks[i],
                Depth::Eight,
            ));
        assert(i < 8 || i >= 8);
    }
}

/// More bits pack into no fewer bytes.
proof fn lemma_pack_grows(a: Seq<bool>, b: Seq<bool>)
    requires
        a.len() <= b.len(),
    ensures
        bits::pack(a).len() <= bits::pack(b).len(),
{
}

/// No region of a strip is shorter at ten bits.
proof fn lemma_regions_grow(g: Geometry, blocks: Seq<Block>)
    requires
        blocks.len() >= 8,
    ensures
        ({
            let eight = at_depth(g, Depth::Eight);
            let ten = at_depth(g, Depth::Ten);
            &&& strip::main_region(eight, blocks).len() <= strip::main_region(ten, blocks).len()
            &&& strip::row0_region(eight, blocks).len() <= strip::row0_region(ten, blocks).len()
            &&& strip::row1_region(eight, blocks).len() <= strip::row1_region(ten, blocks).len()
        }),
{
    reveal(strip::main_region);
    reveal(strip::row0_region);
    reveal(strip::row1_region);
    let n = blocks.len();
    let eight = at_depth(g, Depth::Eight);
    let ten = at_depth(g, Depth::Ten);
    lemma_sync_is_depthless(g, blocks, n);
    lemma_dc_grows(g, blocks, n);
    lemma_ac_grows(g, blocks, 0, 8);
    lemma_ac_grows(g, blocks, 8, n as int);
    lemma_pack_grows(
        strip::sync_bits(eight, blocks, n) + strip::dc_bits(eight, blocks, n),
        strip::sync_bits(ten, blocks, n) + strip::dc_bits(ten, blocks, n),
    );
    lemma_pack_grows(strip::ac_bits(eight, blocks, 0, 8), strip::ac_bits(ten, blocks, 0, 8));
    lemma_pack_grows(
        strip::ac_bits(eight, blocks, 8, n as int),
        strip::ac_bits(ten, blocks, 8, n as int),
    );
}

/// Ten bits never encode a strip shorter than eight do.
pub proof fn law_depth_never_shortens_a_strip(g: Geometry, blocks: Seq<Block>, x: int, y: int)
    requires
        blocks.len() >= 8,
    ensures
        strip::strip_spec(at_depth(g, Depth::Eight), blocks, x, y).len() <= strip::strip_spec(
            at_depth(g, Depth::Ten),
            blocks,
            x,
            y,
        ).len(),
{
    lemma_regions_grow(g, blocks);
    strip::lemma_strip_len(at_depth(g, Depth::Eight), blocks, x, y);
    strip::lemma_strip_len(at_depth(g, Depth::Ten), blocks, x, y);
}

/// The escape of a value beyond what eight bits carry: all ones at eight bits, and at ten bits
/// other bits even where zeroes follow.
proof fn lemma_bright_escape(coding: CodeTables, v: int) -> (at: int)
    requires
        v >= 1024,
    ensures
        ({
            let small = entropy::escape_code(coding, v, 10);
            let large = entropy::escape_code(coding, v, 12);
            &&& small.len() == 20
            &&& 0 <= at < 24
            &&& at < large.len()
            &&& large[at] != (at < 20)
            &&& at < 20 ==> small[at]
        }),
{
    let n = entropy::bit_length(entropy::magnitude(v));
    let small = entropy::escape_code(coding, v, 10);
    let large = entropy::escape_code(coding, v, 12);
    entropy::lemma_powers();
    reveal_with_fuel(entropy::two_to, 6);
    assert(entropy::two_to(9) == 512 && entropy::two_to(10) == 1024 && entropy::two_to(11) == 2048);
    entropy::lemma_bit_length_bounds(entropy::magnitude(v));
    if n <= 10 {
        entropy::lemma_two_to_grows(n, 10);
        assert(false);
    }
    assert(entropy::escape_payload(v, 10) == 1023);
    match coding {
        CodeTables::Wide => {
            if n == 11 {
                assert(large[11] == entropy::terminator(true)[0]);
                assert(small[11] == entropy::payload_high_first(1023, 10)[1]);
                assert(entropy::two_to(8) == 256);
                assert(entropy::payload_bit(1023, 8));
                11
            } else {
                let p = entropy::escape_payload(v, 12);
                entropy::lemma_two_to_grows(12, n);
                assert(p % 2 == 1);
                assert(large[23] == entropy::payload_high_first(p, 12)[11]);
                assert(entropy::payload_bit(p, 0));
                23
            }
        },
        CodeTables::Narrow => 20,
    }
}

/// The DCs of like blocks: those of the first, and zeroes.
proof fn lemma_uniform_dcs(g: Geometry, blocks: Seq<Block>, n: nat)
    requires
        1 <= n <= blocks.len(),
        forall|i: int|
            #![trigger blocks[i]]
            0 <= i < blocks.len() ==> strip::dc_of(blocks, i) == strip::dc_of(blocks, 0),
    ensures
        strip::dc_bits(g, blocks, n) == dc_code(
            g.coding,
            strip::dc_of(blocks, 0),
            (0, 0, 0),
            g.depth.bits() + 2,
        ) + entropy::zeros((3 * (n - 1)) as nat),
    decreases n,
{
    let d = strip::dc_of(blocks, 0);
    let c = g.depth.bits() + 2;
    let first = dc_code(g.coding, d, (0, 0, 0), c);
    lemma_dc_step(g, blocks, n);
    if n == 1 {
        assert(strip::dc_bits(g, blocks, 0) + first =~= first + entropy::zeros(0));
    } else {
        lemma_uniform_dcs(g, blocks, (n - 1) as nat);
        assert(strip::dc_of(blocks, n - 1) == d && strip::dc_of(blocks, n - 2) == d) by {
            let (a, b) = (blocks[n - 1], blocks[n - 2]);
        }
        assert(dc_code(g.coding, d, d, c) =~= entropy::zeros(3));
        assert(first + entropy::zeros((3 * (n - 2)) as nat) + entropy::zeros(3) =~= first
            + entropy::zeros((3 * (n - 1)) as nat));
    }
}

/// Streams that differ in a bit of both pack into different bytes.
proof fn lemma_packs_differ(a: Seq<bool>, b: Seq<bool>, at: int)
    requires
        0 <= at < a.len(),
        at < b.len(),
        a[at] != b[at],
    ensures
        at / 8 < bits::pack(a).len(),
        at / 8 < bits::pack(b).len(),
        bits::pack(a)[at / 8] != bits::pack(b)[at / 8],
{
    bits::law_unpack_inverts_pack(a);
    bits::law_unpack_inverts_pack(b);
    let (ua, ub) = (bits::unpack(bits::pack(a)), bits::unpack(bits::pack(b)));
    assert(a[at] == ua.take(a.len() as int)[at] && b[at] == ub.take(b.len() as int)[at]);
    assert(ua[at] == bits::byte_bit(bits::pack(a)[at / 8], at % 8));
    assert(ub[at] == bits::byte_bit(bits::pack(b)[at / 8], at % 8));
}

/// A strip's bytes after its header start with its main region.
proof fn lemma_main_in_strip(g: Geometry, blocks: Seq<Block>, x: int, y: int, k: int)
    requires
        0 <= k < strip::main_region(g, blocks).len(),
    ensures
        16 + k < strip::strip_spec(g, blocks, x, y).len(),
        strip::strip_spec(g, blocks, x, y)[16 + k] == strip::main_region(g, blocks)[k],
{
    let h = strip::strip_header(x, y, strip::row0_offset(g, blocks), strip::row1_offset(g, blocks));
    assert(h.len() == 16);
    assert(bytes::pad_even(strip::main_region(g, blocks))[k] == strip::main_region(g, blocks)[k]);
}

/// The sample depth reaches the coder: a strip of like blocks whose luma is beyond what eight
/// bits carry, and whose chroma is not, has other bytes at ten bits. Eight-bit samples have DCs up
/// to 1020, ten-bit samples up to 4092.
pub proof fn law_depth_changes_bright_strips(g: Geometry, blocks: Seq<Block>, x: int, y: int)
    requires
        blocks.len() == 16,
        forall|i: int|
            #![trigger blocks[i]]
            0 <= i < blocks.len() ==> strip::dc_of(blocks, i) == strip::dc_of(blocks, 0),
        !reaches(blocks[0].qcr[0], 10),
        !reaches(blocks[0].qcb[0], 10),
        blocks[0].qy[0] >= 1024,
    ensures
        strip::strip_spec(at_depth(g, Depth::Eight), blocks, x, y) != strip::strip_spec(
            at_depth(g, Depth::Ten),
            blocks,
            x,
            y,
        ),
{
    let eight = at_depth(g, Depth::Eight);
    let ten = at_depth(g, Depth::Ten);
    let d = strip::dc_of(blocks, 0);
    let sync = strip::sync_bits(eight, blocks, 16);
    lemma_sync_is_depthless(g, blocks, 16);
    lemma_uniform_dcs(eight, blocks, 16);
    lemma_uniform_dcs(ten, blocks, 16);
    lemma_escape_grows(g.coding, d.0, 10);
    lemma_escape_grows(g.coding, d.1, 10);
    let chroma = entropy::escape_code(g.coding, d.0, 10) + entropy::escape_code(g.coding, d.1, 10);
    let small = entropy::escape_code(g.coding, d.2, 10);
    let large = entropy::escape_code(g.coding, d.2, 12);
    let rest = entropy::zeros(45);
    let j = lemma_bright_escape(g.coding, d.2);
    let a = sync + strip::dc_bits(eight, blocks, 16);
    let b = sync + strip::dc_bits(ten, blocks, 16);
    assert(strip::dc_bits(eight, blocks, 16) =~= chroma + small + rest);
    assert(strip::dc_bits(ten, blocks, 16) =~= chroma + large + rest);
    let at = sync.len() + chroma.len() + j;
    assert(a[at] == (small + rest)[j]);
    assert(b[at] == large[j]);
    lemma_packs_differ(a, b, at);
    reveal(strip::main_region);
    lemma_main_in_strip(eight, blocks, x, y, at / 8);
    lemma_main_in_strip(ten, blocks, x, y, at / 8);
}

/// A strip's header states where its regions are, and what follows its position does not depend
/// on it: all regions start and end on even offsets, none before the main region.
pub proof fn law_strip_header_states_its_regions(g: Geometry, blocks: Seq<Block>, x: int, y: int)
    requires
        blocks.len() == 16,
        forall|i: int| 0 <= i < blocks.len() ==> #[trigger] blocks[i].wf(),
    ensures
        ({
            let s = strip::strip_spec(g, blocks, x, y);
            let (row0, row1) = (strip::row0_offset(g, blocks), strip::row1_offset(g, blocks));
            &&& bytes::u16_at(s, 10) == row0
            &&& bytes::u16_at(s, 12) == row1
            &&& s.subrange(6, 10) == bytes::zero_bytes(4)
            &&& s.subrange(14, 16) == bytes::zero_bytes(2)
            &&& 18 < row0 <= row1 <= s.len()
            &&& row0 % 2 == 0 && row1 % 2 == 0 && s.len() % 2 == 0
            &&& s.skip(6) == strip::strip_spec(g, blocks, 0, 0).skip(6)
        }),
{
    let s = strip::strip_spec(g, blocks, x, y);
    let o = strip::strip_spec(g, blocks, 0, 0);
    let (row0, row1) = (strip::row0_offset(g, blocks), strip::row1_offset(g, blocks));
    strip::law_strip_is_bounded(g, blocks, x, y);
    strip::lemma_strip_len(g, blocks, x, y);
    strip::lemma_strip_len(g, blocks, 0, 0);
    let h = strip::strip_header(x, y, row0, row1);
    let ho = strip::strip_header(0, 0, row0, row1);
    let tail = bytes::pad_even(strip::main_region(g, blocks)) + bytes::zero_bytes(2)
        + bytes::pad_even(strip::row0_region(g, blocks)) + bytes::pad_even(
        strip::row1_region(g, blocks),
    );
    assert(s =~= h + tail);
    assert(o =~= ho + tail);
    assert(h.skip(6) =~= ho.skip(6));
    assert(s.skip(6) =~= h.skip(6) + tail);
    assert(o.skip(6) =~= ho.skip(6) + tail);
    assert(h[10] == bytes::le16(row0)[0] && h[11] == bytes::le16(row0)[1]);
    assert(h[12] == bytes::le16(row1)[0] && h[13] == bytes::le16(row1)[1]);
    assert(s.subrange(6, 10) =~= bytes::zero_bytes(4));
    assert(s.subrange(14, 16) =~= bytes::zero_bytes(2));
    assert(strip::main_region(g, blocks).len() > 0) by {
        reveal(strip::main_region);
        let b = blocks[15];
        assert(entropy::sync_code(g.coding, b.lcr, b.lcb, b.ly).len() > 0);
    }
}

} // verus!
