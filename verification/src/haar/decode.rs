//! What a decoder reads back: the codes are prefix-free and lose nothing but saturation.

use vstd::prelude::*;

use crate::haar::bits;
use crate::haar::entropy;
use crate::haar::geometry::Geometry;
use crate::haar::strip;
use crate::haar::strip::Block;
use crate::video_arm::CodeTables;

verus! {

/// How many ones a decoder counts before a zero, stopping at `max`; in the interleaved dialect
/// only every other bit is counted.
pub open spec fn count_ones(coding: CodeTables, bits: Seq<bool>, max: nat) -> nat
    decreases max,
{
    let width: int = match coding {
        CodeTables::Wide => 1,
        CodeTables::Narrow => 2,
    };
    if max == 0 || bits.len() == 0 || !bits[0] {
        0
    } else {
        1 + count_ones(coding, bits.skip(width), (max - 1) as nat)
    }
}

/// The number that `n` bits from `at` spell, most significant first.
pub open spec fn read_high_first(bits: Seq<bool>, at: int, n: nat) -> nat
    decreases n,
{
    if n == 0 {
        0
    } else {
        2 * read_high_first(bits, at, (n - 1) as nat) + (if bits[at + n - 1] {
            1nat
        } else {
            0nat
        })
    }
}

/// The number that the second of each of `n` bit pairs spells, least significant first.
pub open spec fn read_interleaved(bits: Seq<bool>, n: nat) -> nat
    decreases n,
{
    if n == 0 {
        0
    } else {
        read_interleaved(bits, (n - 1) as nat) + (if bits[2 * n - 1] {
            entropy::two_to((n - 1) as nat)
        } else {
            0
        })
    }
}

/// A unary code read off the front of a bit sequence.
pub struct Unary {
    /// The category.
    pub count: nat,
    /// The payload.
    pub payload: nat,
    /// How many bits the code took.
    pub length: nat,
}

/// Read one unary code of a codebook whose largest category is `cmax`.
pub open spec fn read_unary(coding: CodeTables, bits: Seq<bool>, cmax: nat) -> Unary {
    let count = count_ones(coding, bits, cmax);
    let term: nat = if count < cmax {
        1
    } else {
        0
    };
    Unary {
        count,
        payload: match coding {
            CodeTables::Wide => read_high_first(bits, (count + term) as int, count),
            CodeTables::Narrow => read_interleaved(bits, count),
        },
        length: 2 * count + term,
    }
}

/// The grouped payload reads back as the number it was written from.
proof fn lemma_high_first(bits: Seq<bool>, at: int, payload: nat, n: nat, k: nat)
    requires
        k <= n,
        payload < entropy::two_to(n),
        0 <= at,
        at + n <= bits.len(),
        forall|i: int|
            0 <= i < n ==> #[trigger] bits[at + i] == entropy::payload_bit(
                payload,
                (n - 1 - i) as nat,
            ),
    ensures
        read_high_first(bits, at, k) == payload / entropy::two_to((n - k) as nat),
    decreases k,
{
    entropy::lemma_two_to_grows(0, (n - k) as nat);
    if k == 0 {
        vstd::arithmetic::div_mod::lemma_basic_div(payload as int, entropy::two_to(n) as int);
    } else {
        lemma_high_first(bits, at, payload, n, (k - 1) as nat);
        let d = entropy::two_to((n - k) as nat);
        let x = payload / d;
        assert(entropy::two_to((n - (k - 1)) as nat) == 2 * d);
        vstd::arithmetic::div_mod::lemma_div_denominator(payload as int, d as int, 2);
        assert(d * 2 == 2 * d) by (nonlinear_arith);
        assert(payload / (2 * d) as nat == x / 2);
        assert(bits[at + (k - 1)] == entropy::payload_bit(payload, (n - k) as nat));
    }
}

/// The interleaved payload reads back as the number it was written from.
proof fn lemma_interleaved(bits: Seq<bool>, payload: nat, n: nat, k: nat)
    requires
        k <= n,
        2 * n <= bits.len(),
        forall|i: int|
            0 <= i < n ==> #[trigger] bits[2 * i + 1] == entropy::payload_bit(payload, i as nat),
    ensures
        read_interleaved(bits, k) == payload % entropy::two_to(k),
    decreases k,
{
    entropy::lemma_two_to_grows(0, k);
    if k == 0 {
        assert(payload % 1 == 0);
    } else {
        lemma_interleaved(bits, payload, n, (k - 1) as nat);
        let d = entropy::two_to((k - 1) as nat);
        entropy::lemma_two_to_grows(0, (k - 1) as nat);
        vstd::arithmetic::div_mod::lemma_mod_breakdown(payload as int, d as int, 2);
        assert(d * 2 == 2 * d) by (nonlinear_arith);
        assert(bits[2 * (k - 1) + 1] == entropy::payload_bit(payload, (k - 1) as nat));
        assert(2 * (k - 1) + 1 == 2 * k - 1);
        let b = (payload / d) % 2;
        assert(d * b == (if b == 1 {
            d as int
        } else {
            0
        })) by (nonlinear_arith)
            requires
                b == 0 || b == 1,
        ;
    }
}

/// A decoder of the grouped dialect counts the category that was written.
proof fn lemma_count_grouped(bits: Seq<bool>, count: nat, max: nat)
    requires
        count <= max,
        count <= bits.len(),
        forall|i: int| 0 <= i < count ==> #[trigger] bits[i],
        count < max ==> count < bits.len() && !bits[count as int],
    ensures
        count_ones(CodeTables::Wide, bits, max) == count,
    decreases count,
{
    if count > 0 {
        assert(bits[0]);
        let tail = bits.skip(1);
        assert forall|i: int| 0 <= i < count - 1 implies #[trigger] tail[i] by {
            assert(bits[i + 1]);
        }
        lemma_count_grouped(tail, (count - 1) as nat, (max - 1) as nat);
    }
}

/// A decoder of the interleaved dialect counts the category that was written.
proof fn lemma_count_interleaved(bits: Seq<bool>, count: nat, max: nat)
    requires
        count <= max,
        2 * count <= bits.len(),
        forall|i: int| 0 <= i < count ==> #[trigger] bits[2 * i],
        count < max ==> 2 * count < bits.len() && !bits[2 * count as int],
    ensures
        count_ones(CodeTables::Narrow, bits, max) == count,
    decreases count,
{
    if count > 0 {
        assert(bits[2 * 0int]);
        let tail = bits.skip(2);
        assert forall|i: int| 0 <= i < count - 1 implies #[trigger] tail[2 * i] by {
            assert(bits[2 * (i + 1)]);
        }
        lemma_count_interleaved(tail, (count - 1) as nat, (max - 1) as nat);
    }
}

/// Reading a unary code off any stream that starts with it gives back its category, its payload
/// and exactly its length, in either dialect.
pub proof fn law_unary_code_reads_back(
    coding: CodeTables,
    count: nat,
    payload: nat,
    cmax: nat,
    rest: Seq<bool>,
)
    requires
        count <= cmax,
        payload < entropy::two_to(count),
    ensures
        ({
            let code = entropy::unary_code(coding, count, count < cmax, payload);
            read_unary(coding, code + rest, cmax) == (Unary {
                count,
                payload,
                length: code.len(),
            })
        }),
{
    let code = entropy::unary_code(coding, count, count < cmax, payload);
    let bits = code + rest;
    match coding {
        CodeTables::Wide => {
            lemma_count_grouped(bits, count, cmax);
            let at = count + entropy::terminator(count < cmax).len();
            assert forall|i: int| 0 <= i < count implies #[trigger] bits[at + i]
                == entropy::payload_bit(payload, (count - 1 - i) as nat) by {}
            lemma_high_first(bits, at as int, payload, count, count);
            assert(entropy::two_to(0) == 1);
            assert(payload / 1 == payload);
        },
        CodeTables::Narrow => {
            assert forall|i: int| 0 <= i < count implies #[trigger] bits[2 * i] by {
                assert((2 * i) % 2 == 0);
            }
            lemma_count_interleaved(bits, count, cmax);
            assert forall|i: int| 0 <= i < count implies #[trigger] bits[2 * i + 1]
                == entropy::payload_bit(payload, i as nat) by {
                assert((2 * i + 1) % 2 == 1 && (2 * i + 1) / 2 == i);
            }
            lemma_interleaved(bits, payload, count, count);
            vstd::arithmetic::div_mod::lemma_small_mod(payload, entropy::two_to(count));
        },
    }
}

/// Both dialects spell a unary code in the same number of bits.
pub proof fn law_dialects_have_equal_length(count: nat, terminate: bool, payload: nat)
    ensures
        entropy::unary_code(CodeTables::Wide, count, terminate, payload).len()
            == entropy::unary_code(CodeTables::Narrow, count, terminate, payload).len(),
        entropy::unary_code(CodeTables::Wide, count, terminate, payload).len() == 2 * count + (
        if terminate {
            1nat
        } else {
            0nat
        }),
{
}

/// A value held to the range of a codebook whose largest category is `cmax`.
pub open spec fn saturate(v: int, cmax: nat) -> int {
    let top = entropy::two_to(cmax) - 1;
    if v > top {
        top
    } else if v < -top {
        -top
    } else {
        v
    }
}

/// A decoded value and how many bits it took.
pub struct Escape {
    /// The value.
    pub value: int,
    /// How many bits its code took.
    pub length: nat,
}

/// Read one escape code.
pub open spec fn read_escape(coding: CodeTables, bits: Seq<bool>, cmax: nat) -> Escape {
    let code = read_unary(coding, bits, cmax);
    if code.count == 0 {
        Escape { value: 0, length: code.length }
    } else {
        let mag = (entropy::two_to((code.count - 1) as nat) + code.payload / 2) as int;
        Escape {
            value: if code.payload % 2 == 1 {
                mag
            } else {
                -mag
            },
            length: code.length,
        }
    }
}

/// The fields of an escape of a nonzero value.
proof fn lemma_escape_fields(v: int, cmax: nat)
    requires
        v != 0,
        cmax >= 1,
    ensures
        1 <= entropy::escape_category(v, cmax) <= cmax,
        entropy::escape_payload(v, cmax) < entropy::two_to(entropy::escape_category(v, cmax)),
        entropy::escape_magnitude(v, cmax) == entropy::magnitude(saturate(v, cmax)),
        entropy::two_to((entropy::escape_category(v, cmax) - 1) as nat)
            <= entropy::escape_magnitude(v, cmax) < entropy::two_to(
            entropy::escape_category(v, cmax),
        ),
{
    let mag = entropy::magnitude(v);
    let natural = entropy::bit_length(mag);
    let c = entropy::escape_category(v, cmax);
    entropy::lemma_bit_length_bounds(mag);
    entropy::lemma_two_to_grows(0, (c - 1) as nat);
    entropy::lemma_two_to_grows(0, cmax);
    assert(entropy::two_to(c) == 2 * entropy::two_to((c - 1) as nat));
    if natural <= cmax {
        entropy::lemma_two_to_grows(natural, cmax);
    } else {
        entropy::lemma_two_to_grows(cmax, (natural - 1) as nat);
    }
}

/// Reading an escape off any stream that starts with it gives back the value, saturated at the
/// codebook's ceiling, and exactly its length. So nothing after it can be misread.
pub proof fn law_escape_reads_back(coding: CodeTables, v: int, cmax: nat, rest: Seq<bool>)
    requires
        cmax >= 1,
    ensures
        read_escape(coding, entropy::escape_code(coding, v, cmax) + rest, cmax) == (Escape {
            value: saturate(v, cmax),
            length: entropy::escape_code(coding, v, cmax).len(),
        }),
{
    entropy::lemma_two_to_grows(0, cmax);
    if v == 0 {
        assert(entropy::escape_code(coding, v, cmax) =~= entropy::unary_code(coding, 0, true, 0));
        assert(entropy::two_to(0) == 1);
        law_unary_code_reads_back(coding, 0, 0, cmax, rest);
    } else {
        lemma_escape_fields(v, cmax);
        let c = entropy::escape_category(v, cmax);
        let p = entropy::escape_payload(v, cmax);
        law_unary_code_reads_back(coding, c, p, cmax, rest);
    }
}

/// An escape's prefix never has more than `cmax` ones, and a value within the ceiling is carried
/// unchanged.
pub proof fn law_escape_within_ceiling_is_exact(v: int, cmax: nat)
    requires
        cmax >= 1,
        entropy::bit_length(entropy::magnitude(v)) <= cmax,
    ensures
        saturate(v, cmax) == v,
        entropy::escape_category(v, cmax) <= cmax,
{
    entropy::lemma_bit_length_bounds(entropy::magnitude(v));
    entropy::lemma_two_to_grows(entropy::bit_length(entropy::magnitude(v)), cmax);
}

/// A decoded significance tree and how many bits it took.
pub struct Sync {
    /// Last significant Cr position.
    pub lcr: nat,
    /// Last significant Cb position.
    pub lcb: nat,
    /// Last significant luma position.
    pub ly: nat,
    /// How many bits the tree took.
    pub length: nat,
}

/// The position a chroma node names; a plane without coefficients has category zero.
pub open spec fn chroma_position(code: Unary) -> nat {
    (entropy::two_to(code.count) - 1 + code.payload) as nat
}

/// The position a luma node names; category six stands for a flat block.
pub open spec fn luma_position(code: Unary) -> nat {
    if code.count == 6 {
        0
    } else {
        (64 - entropy::two_to(code.count) - code.payload) as nat
    }
}

/// Read one block's significance tree: a chroma node for each of Cr and Cb, then the luma node.
pub open spec fn read_sync(coding: CodeTables, bits: Seq<bool>) -> Sync {
    let cr = read_unary(coding, bits, 7);
    let cb = read_unary(coding, bits.skip(cr.length as int), 7);
    let y = read_unary(coding, bits.skip((cr.length + cb.length) as int), 7);
    Sync {
        lcr: chroma_position(cr),
        lcb: chroma_position(cb),
        ly: luma_position(y),
        length: cr.length + cb.length + y.length,
    }
}

/// The node of a chroma plane, present or not.
pub open spec fn chroma_node(coding: CodeTables, last: nat) -> Seq<bool> {
    if last == 0 {
        seq![false]
    } else {
        entropy::chroma_sync_code(coding, last)
    }
}

/// A chroma node is a unary code that reads back as its position.
proof fn lemma_chroma_node(coding: CodeTables, last: nat, rest: Seq<bool>)
    requires
        last < 64,
    ensures
        ({
            let node = chroma_node(coding, last);
            let code = read_unary(coding, node + rest, 7);
            &&& chroma_position(code) == last
            &&& code.length == node.len()
        }),
{
    entropy::lemma_powers();
    if last == 0 {
        assert(chroma_node(coding, 0) =~= entropy::unary_code(coding, 0, true, 0));
        law_unary_code_reads_back(coding, 0, 0, 7, rest);
    } else {
        let n = last + 1;
        let c = entropy::floor_log2(n);
        entropy::lemma_bit_length_bounds(n);
        assert(entropy::two_to(entropy::bit_length(n)) == 2 * entropy::two_to(c));
        if c >= 7 {
            entropy::lemma_two_to_grows(7, c);
            assert(entropy::two_to(7) == 2 * entropy::two_to(6));
        }
        law_unary_code_reads_back(coding, c, (n - entropy::two_to(c)) as nat, 7, rest);
    }
}

/// The luma node, after both root branches, is a unary code that reads back as its position.
proof fn lemma_luma_node(coding: CodeTables, last: nat, rest: Seq<bool>)
    requires
        last < 64,
    ensures
        ({
            let node = entropy::luma_sync_code(coding, last, 2);
            let code = read_unary(coding, node + rest, 7);
            &&& luma_position(code) == last
            &&& code.length == node.len()
        }),
{
    entropy::lemma_powers();
    let node = entropy::luma_sync_code(coding, last, 2);
    if last == 0 {
        assert(node =~= entropy::unary_code(coding, 6, true, 0));
        law_unary_code_reads_back(coding, 6, 0, 7, rest);
    } else {
        let n = (64 - last) as nat;
        let k = entropy::floor_log2(n);
        entropy::lemma_bit_length_bounds(n);
        assert(entropy::two_to(entropy::bit_length(n)) == 2 * entropy::two_to(k));
        if k >= 6 {
            entropy::lemma_two_to_grows(6, k);
        }
        assert(node =~= entropy::unary_code(coding, k, true, (n - entropy::two_to(k)) as nat));
        law_unary_code_reads_back(coding, k, (n - entropy::two_to(k)) as nat, 7, rest);
    }
}

/// A significance tree is its two chroma nodes and its luma node.
proof fn lemma_sync_nodes(coding: CodeTables, lcr: nat, lcb: nat, ly: nat)
    ensures
        entropy::sync_code(coding, lcr, lcb, ly) == chroma_node(coding, lcr) + chroma_node(
            coding,
            lcb,
        ) + entropy::luma_sync_code(coding, ly, 2),
{
    let y = entropy::luma_sync_code(coding, ly, 2);
    assert(entropy::luma_sync_code(coding, ly, 1) =~= seq![false] + y);
    assert(entropy::luma_sync_code(coding, ly, 0) =~= seq![false] + seq![false] + y);
    assert(entropy::sync_code(coding, lcr, lcb, ly) =~= chroma_node(coding, lcr) + chroma_node(
        coding,
        lcb,
    ) + y);
}

/// Reading a significance tree off any stream that starts with it gives back the three last
/// positions and exactly its length.
pub proof fn law_sync_reads_back(
    coding: CodeTables,
    lcr: nat,
    lcb: nat,
    ly: nat,
    rest: Seq<bool>,
)
    requires
        lcr < 64,
        lcb < 64,
        ly < 64,
    ensures
        read_sync(coding, entropy::sync_code(coding, lcr, lcb, ly) + rest) == (Sync {
            lcr,
            lcb,
            ly,
            length: entropy::sync_code(coding, lcr, lcb, ly).len(),
        }),
{
    let cr = chroma_node(coding, lcr);
    let cb = chroma_node(coding, lcb);
    let y = entropy::luma_sync_code(coding, ly, 2);
    let bits = entropy::sync_code(coding, lcr, lcb, ly) + rest;
    lemma_sync_nodes(coding, lcr, lcb, ly);
    assert(bits =~= cr + (cb + (y + rest)));
    lemma_chroma_node(coding, lcr, cb + (y + rest));
    assert(bits.skip(cr.len() as int) =~= cb + (y + rest));
    lemma_chroma_node(coding, lcb, y + rest);
    assert(bits.skip((cr.len() + cb.len()) as int) =~= y + rest);
    lemma_luma_node(coding, ly, rest);
}

/// The significance trees of a strip's first `n` blocks hold that of block `k` at its place.
proof fn lemma_sync_split(g: Geometry, blocks: Seq<Block>, k: nat, n: nat) -> (rest: Seq<bool>)
    requires
        k < n,
    ensures
        strip::sync_bits(g, blocks, n) == strip::sync_bits(g, blocks, k) + (entropy::sync_code(
            g.coding,
            blocks[k as int].lcr,
            blocks[k as int].lcb,
            blocks[k as int].ly,
        ) + rest),
    decreases n,
{
    let last = entropy::sync_code(
        g.coding,
        blocks[n - 1].lcr,
        blocks[n - 1].lcb,
        blocks[n - 1].ly,
    );
    if k == n - 1 {
        assert(strip::sync_bits(g, blocks, n) =~= strip::sync_bits(g, blocks, k) + (last
            + Seq::<bool>::empty()));
        Seq::empty()
    } else {
        let inner = lemma_sync_split(g, blocks, k, (n - 1) as nat);
        let code = entropy::sync_code(
            g.coding,
            blocks[k as int].lcr,
            blocks[k as int].lcb,
            blocks[k as int].ly,
        );
        let head = strip::sync_bits(g, blocks, k);
        assert(head + (code + inner) + last =~= head + (code + (inner + last)));
        inner + last
    }
}

/// The bits of a strip's main region, past which only padding lies.
pub open spec fn main_bits(g: Geometry, blocks: Seq<Block>) -> Seq<bool> {
    bits::unpack(strip::main_region(g, blocks))
}

/// The significance tree of block `k` reads back off the packed main region, at the place where
/// that of the block before it ended.
pub proof fn law_strip_significance_reads_back(g: Geometry, blocks: Seq<Block>, k: nat)
    requires
        k < blocks.len(),
        blocks[k as int].wf(),
    ensures
        read_sync(
            g.coding,
            main_bits(g, blocks).skip(strip::sync_bits(g, blocks, k).len() as int),
        ) == (Sync {
            lcr: blocks[k as int].lcr,
            lcb: blocks[k as int].lcb,
            ly: blocks[k as int].ly,
            length: (strip::sync_bits(g, blocks, k + 1).len() - strip::sync_bits(
                g,
                blocks,
                k,
            ).len()) as nat,
        }),
{
    reveal(strip::main_region);
    let n = blocks.len();
    let head = strip::sync_bits(g, blocks, k);
    let code = entropy::sync_code(
        g.coding,
        blocks[k as int].lcr,
        blocks[k as int].lcb,
        blocks[k as int].ly,
    );
    let rest = lemma_sync_split(g, blocks, k, n);
    let dcs = strip::dc_bits(g, blocks, n);
    let m = main_bits(g, blocks);
    bits::law_unpack_inverts_pack(head + (code + rest) + dcs);
    lemma_padded_middle(m, head, code, rest, dcs);
    assert(strip::sync_bits(g, blocks, k + 1).len() == head.len() + code.len());
    let tail = m.skip((head.len() + code.len()) as int);
    law_sync_reads_back(
        g.coding,
        blocks[k as int].lcr,
        blocks[k as int].lcb,
        blocks[k as int].ly,
        tail,
    );
}

/// A code in the middle of a stream is still there once the stream is padded.
proof fn lemma_padded_middle(
    m: Seq<bool>,
    head: Seq<bool>,
    code: Seq<bool>,
    rest: Seq<bool>,
    more: Seq<bool>,
)
    requires
        ({
            let whole = head + (code + rest) + more;
            &&& whole.len() <= m.len()
            &&& m.take(whole.len() as int) == whole
        }),
    ensures
        m.skip(head.len() as int) == code + m.skip((head.len() + code.len()) as int),
{
    let whole = head + (code + rest) + more;
    assert forall|i: int| 0 <= i < code.len() implies m[head.len() + i] == #[trigger] code[i] by {
        assert(whole[head.len() + i] == code[i]);
        assert(m.take(whole.len() as int)[head.len() + i] == whole[head.len() + i]);
    }
    assert(m.skip(head.len() as int) =~= code + m.skip((head.len() + code.len()) as int));
}

/// The three escapes of block `k`'s DC differences, in Cr, Cb, Y order.
pub open spec fn dc_escape(g: Geometry, blocks: Seq<Block>, k: nat, plane: int) -> Seq<bool> {
    entropy::escape_code(g.coding, dc_step(blocks, k, plane), g.depth.bits() + 2)
}

/// The difference of block `k`'s DC to the one before, on one of the planes Cr, Cb and Y.
pub open spec fn dc_step(blocks: Seq<Block>, k: nat, plane: int) -> int {
    let d = strip::dc_of(blocks, k as int);
    let p = strip::dc_of(blocks, k - 1);
    if plane == 0 {
        d.0 - p.0
    } else if plane == 1 {
        d.1 - p.1
    } else {
        d.2 - p.2
    }
}

/// Where the DC escape of block `k` on a plane starts in the main region.
pub open spec fn dc_place(g: Geometry, blocks: Seq<Block>, k: nat, plane: int) -> nat {
    strip::sync_bits(g, blocks, blocks.len()).len() + strip::dc_bits(g, blocks, k).len() + (
    if plane >= 1 {
        dc_escape(g, blocks, k, 0).len()
    } else {
        0
    }) + (if plane >= 2 {
        dc_escape(g, blocks, k, 1).len()
    } else {
        0
    })
}

/// The DCs of a strip's first `n` blocks hold those of block `k` at their place.
proof fn lemma_dc_split(g: Geometry, blocks: Seq<Block>, k: nat, n: nat) -> (rest: Seq<bool>)
    requires
        k < n,
    ensures
        strip::dc_bits(g, blocks, n) == strip::dc_bits(g, blocks, k) + dc_escape(g, blocks, k, 0)
            + dc_escape(g, blocks, k, 1) + dc_escape(g, blocks, k, 2) + rest,
    decreases n,
{
    let j = (n - 1) as nat;
    let e0 = dc_escape(g, blocks, j, 0);
    let e1 = dc_escape(g, blocks, j, 1);
    let e2 = dc_escape(g, blocks, j, 2);
    assert(strip::dc_bits(g, blocks, n) == strip::dc_bits(g, blocks, j) + e0 + e1 + e2);
    if k == j {
        let all = strip::dc_bits(g, blocks, j) + e0 + e1 + e2;
        assert(all =~= all + Seq::<bool>::empty());
        Seq::empty()
    } else {
        let inner = lemma_dc_split(g, blocks, k, j);
        let head = strip::dc_bits(g, blocks, k) + dc_escape(g, blocks, k, 0) + dc_escape(
            g,
            blocks,
            k,
            1,
        ) + dc_escape(g, blocks, k, 2);
        assert(head + inner + e0 + e1 + e2 =~= head + (inner + e0 + e1 + e2));
        inner + e0 + e1 + e2
    }
}

/// Every DC difference reads back off the packed main region at its place, saturated at the
/// depth's ceiling.
pub proof fn law_strip_dcs_read_back(g: Geometry, blocks: Seq<Block>, k: nat, plane: int)
    requires
        k < blocks.len(),
        0 <= plane <= 2,
    ensures
        read_escape(
            g.coding,
            main_bits(g, blocks).skip(dc_place(g, blocks, k, plane) as int),
            g.depth.bits() + 2,
        ) == (Escape {
            value: saturate(dc_step(blocks, k, plane), g.depth.bits() + 2),
            length: dc_escape(g, blocks, k, plane).len(),
        }),
{
    reveal(strip::main_region);
    let n = blocks.len();
    let s = strip::sync_bits(g, blocks, n);
    let d = strip::dc_bits(g, blocks, k);
    let e0 = dc_escape(g, blocks, k, 0);
    let e1 = dc_escape(g, blocks, k, 1);
    let e2 = dc_escape(g, blocks, k, 2);
    let rest = lemma_dc_split(g, blocks, k, n);
    let v = dc_step(blocks, k, plane);
    let cmax = g.depth.bits() + 2;
    let whole = s + (d + e0 + e1 + e2 + rest);
    lemma_pick(s, d, e0, e1, e2, rest);
    if plane == 0 {
        lemma_read_at(g.coding, whole, s + d, v, cmax, e1 + e2 + rest);
    } else if plane == 1 {
        lemma_read_at(g.coding, whole, s + d + e0, v, cmax, e2 + rest);
    } else {
        lemma_read_at(g.coding, whole, s + d + e0 + e1, v, cmax, rest);
    }
}

/// One of three codes in a row, picked out of a stream.
proof fn lemma_pick(
    s: Seq<bool>,
    d: Seq<bool>,
    e0: Seq<bool>,
    e1: Seq<bool>,
    e2: Seq<bool>,
    rest: Seq<bool>,
)
    ensures
        s + (d + e0 + e1 + e2 + rest) == (s + d) + (e0 + (e1 + e2 + rest)),
        s + (d + e0 + e1 + e2 + rest) == (s + d + e0) + (e1 + (e2 + rest)),
        s + (d + e0 + e1 + e2 + rest) == (s + d + e0 + e1) + (e2 + rest),
{
    let whole = s + (d + e0 + e1 + e2 + rest);
    assert(whole =~= (s + d) + (e0 + (e1 + e2 + rest)));
    assert(whole =~= (s + d + e0) + (e1 + (e2 + rest)));
    assert(whole =~= (s + d + e0 + e1) + (e2 + rest));
}

/// An escape in the middle of a packed stream reads back at its place.
proof fn lemma_read_at(
    coding: CodeTables,
    whole: Seq<bool>,
    head: Seq<bool>,
    v: int,
    cmax: nat,
    tail: Seq<bool>,
)
    requires
        cmax >= 1,
        whole == head + (entropy::escape_code(coding, v, cmax) + tail),
    ensures
        read_escape(coding, bits::unpack(bits::pack(whole)).skip(head.len() as int), cmax) == (
        Escape {
            value: saturate(v, cmax),
            length: entropy::escape_code(coding, v, cmax).len(),
        }),
{
    let m = bits::unpack(bits::pack(whole));
    let code = entropy::escape_code(coding, v, cmax);
    let none = Seq::<bool>::empty();
    bits::law_unpack_inverts_pack(whole);
    assert(head + (code + tail) + none =~= whole);
    lemma_padded_middle(m, head, code, tail, none);
    law_escape_reads_back(coding, v, cmax, m.skip((head.len() + code.len()) as int));
}

/// The coefficients of one of the planes Cr, Cb and Y.
pub open spec fn plane_of(b: Block, plane: int) -> Seq<int> {
    if plane == 0 {
        b.qcr
    } else if plane == 1 {
        b.qcb
    } else {
        b.qy
    }
}

/// The last significant position of a plane.
pub open spec fn last_of(b: Block, plane: int) -> nat {
    if plane == 0 {
        b.lcr
    } else if plane == 1 {
        b.lcb
    } else {
        b.ly
    }
}

/// The AC ceiling of a plane.
pub open spec fn ceiling_of(g: Geometry, plane: int) -> nat {
    if plane <= 1 {
        g.depth.bits() + 2
    } else {
        g.depth.bits() + 1
    }
}

/// The AC code of a whole plane of a block.
pub open spec fn plane_code(g: Geometry, b: Block, plane: int) -> Seq<bool> {
    entropy::plane_ac_code(g.coding, plane_of(b, plane), last_of(b, plane), ceiling_of(g, plane))
}

/// Where the escape of position `i` of a plane of block `k` starts in the region of the blocks
/// from `from`.
pub open spec fn ac_place(
    g: Geometry,
    blocks: Seq<Block>,
    from: int,
    k: int,
    plane: int,
    i: nat,
) -> nat {
    let b = blocks[k];
    strip::ac_bits(g, blocks, from, k).len() + (if plane >= 1 {
        plane_code(g, b, 0).len()
    } else {
        0
    }) + (if plane >= 2 {
        plane_code(g, b, 1).len()
    } else {
        0
    }) + entropy::plane_ac_code(
        g.coding,
        plane_of(b, plane),
        (i - 1) as nat,
        ceiling_of(g, plane),
    ).len()
}

/// A plane's code holds the escape of position `i` at its place.
proof fn lemma_plane_split(coding: CodeTables, q: Seq<int>, i: nat, last: nat, cmax: nat) -> (rest:
    Seq<bool>)
    requires
        1 <= i <= last,
    ensures
        entropy::plane_ac_code(coding, q, last, cmax) == entropy::plane_ac_code(
            coding,
            q,
            (i - 1) as nat,
            cmax,
        ) + (entropy::escape_code(coding, q[i as int], cmax) + rest),
    decreases last,
{
    let code = entropy::escape_code(coding, q[last as int], cmax);
    let head = entropy::plane_ac_code(coding, q, (i - 1) as nat, cmax);
    if i == last {
        assert(head + code =~= head + (code + Seq::<bool>::empty()));
        Seq::empty()
    } else {
        let inner = lemma_plane_split(coding, q, i, (last - 1) as nat, cmax);
        let own = entropy::escape_code(coding, q[i as int], cmax);
        assert(head + (own + inner) + code =~= head + (own + (inner + code)));
        inner + code
    }
}

/// A region's bits hold those of block `k` at their place.
proof fn lemma_ac_split(g: Geometry, blocks: Seq<Block>, from: int, k: int, to: int) -> (rest: Seq<
    bool,
>)
    requires
        from <= k < to,
    ensures
        strip::ac_bits(g, blocks, from, to) == strip::ac_bits(g, blocks, from, k) + plane_code(
            g,
            blocks[k],
            0,
        ) + plane_code(g, blocks[k], 1) + plane_code(g, blocks[k], 2) + rest,
    decreases to - from,
{
    let b = blocks[to - 1];
    let c0 = plane_code(g, b, 0);
    let c1 = plane_code(g, b, 1);
    let c2 = plane_code(g, b, 2);
    let before = strip::ac_bits(g, blocks, from, to - 1);
    assert(strip::ac_bits(g, blocks, from, to) == before + (c0 + c1 + c2));
    if k == to - 1 {
        assert(before + (c0 + c1 + c2) =~= before + c0 + c1 + c2 + Seq::<bool>::empty());
        Seq::empty()
    } else {
        let inner = lemma_ac_split(g, blocks, from, k, to - 1);
        let head = strip::ac_bits(g, blocks, from, k) + plane_code(g, blocks[k], 0) + plane_code(
            g,
            blocks[k],
            1,
        ) + plane_code(g, blocks[k], 2);
        assert(head + inner + (c0 + c1 + c2) =~= head + (inner + (c0 + c1 + c2)));
        inner + (c0 + c1 + c2)
    }
}

/// Every significant AC coefficient reads back off the packed region of its half at its place,
/// saturated at its plane's ceiling.
pub proof fn law_strip_acs_read_back(
    g: Geometry,
    blocks: Seq<Block>,
    from: int,
    to: int,
    k: int,
    plane: int,
    i: nat,
)
    requires
        from <= k < to,
        0 <= plane <= 2,
        1 <= i <= last_of(blocks[k], plane),
    ensures
        read_escape(
            g.coding,
            bits::unpack(bits::pack(strip::ac_bits(g, blocks, from, to))).skip(
                ac_place(g, blocks, from, k, plane, i) as int,
            ),
            ceiling_of(g, plane),
        ) == (Escape {
            value: saturate(plane_of(blocks[k], plane)[i as int], ceiling_of(g, plane)),
            length: entropy::escape_code(
                g.coding,
                plane_of(blocks[k], plane)[i as int],
                ceiling_of(g, plane),
            ).len(),
        }),
{
    let b = blocks[k];
    let q = plane_of(b, plane);
    let cmax = ceiling_of(g, plane);
    let a = strip::ac_bits(g, blocks, from, k);
    let c0 = plane_code(g, b, 0);
    let c1 = plane_code(g, b, 1);
    let c2 = plane_code(g, b, 2);
    let more = lemma_ac_split(g, blocks, from, k, to);
    let front = entropy::plane_ac_code(g.coding, q, (i - 1) as nat, cmax);
    let code = entropy::escape_code(g.coding, q[i as int], cmax);
    let rest = lemma_plane_split(g.coding, q, i, last_of(b, plane), cmax);
    let none = Seq::<bool>::empty();
    let whole = a + c0 + c1 + c2 + more;
    assert(none + (a + c0 + c1 + c2 + more) =~= whole);
    lemma_pick(none, a, c0, c1, c2, more);
    assert(none + a =~= a);
    let before = if plane == 0 {
        a
    } else if plane == 1 {
        a + c0
    } else {
        a + c0 + c1
    };
    let after = if plane == 0 {
        c1 + c2 + more
    } else if plane == 1 {
        c2 + more
    } else {
        more
    };
    assert(plane_code(g, b, plane) == front + (code + rest));
    assert(whole == before + (plane_code(g, b, plane) + after));
    lemma_regroup(before, front, code, rest, after);
    lemma_read_at(g.coding, whole, before + front, q[i as int], cmax, rest + after);
}

/// Concatenation groups either way.
proof fn lemma_regroup(
    a: Seq<bool>,
    b: Seq<bool>,
    c: Seq<bool>,
    d: Seq<bool>,
    e: Seq<bool>,
)
    ensures
        a + ((b + (c + d)) + e) == (a + b) + (c + (d + e)),
{
    assert(a + ((b + (c + d)) + e) =~= (a + b) + (c + (d + e)));
}

} // verus!
