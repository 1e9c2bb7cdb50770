//! The records that open a stream or a frame and close a frame.

use vstd::prelude::*;

use crate::bytes;
use crate::haar::geometry::Geometry;
use crate::haar::records;
use crate::haar::records::record_header;

verus! {

/// Buffers the interlaced 64-wide docks rotate through.
pub const ELLA_RING_SLOTS: u32 = 3;

/// A frame's closing records, as the bytes that go on the wire.
pub struct FrameTrailer {
    bytes: Vec<u8>,
}

impl View for FrameTrailer {
    type V = Seq<u8>;

    closed spec fn view(&self) -> Seq<u8> {
        self.bytes@
    }
}

impl FrameTrailer {
    /// A frame that ends at its last strip record, with nothing closing it.
    pub fn none() -> (t: Self)
        ensures
            t@ == Seq::<u8>::empty(),
    {
        FrameTrailer { bytes: Vec::new() }
    }

    /// Carry a single closing record, of which at most 96 bytes are kept.
    pub fn one(record: &[u8]) -> (t: Self)
        ensures
            t@ == (if record@.len() <= 96 {
                record@
            } else {
                record@.take(96)
            }),
    {
        let kept: usize = if record.len() <= 96 {
            record.len()
        } else {
            96
        };
        let mut bytes: Vec<u8> = Vec::new();
        bytes::append(&mut bytes, vstd::slice::slice_subrange(record, 0, kept));
        let t = FrameTrailer { bytes };
        assert(t@ =~= record@.take(kept as int));
        assert(record@.len() <= 96 ==> record@.take(kept as int) =~= record@);
        t
    }

    /// The bytes.
    pub fn as_slice(&self) -> (s: &[u8])
        ensures
            s@ == self@,
    {
        self.bytes.as_slice()
    }

    /// How many bytes there are.
    pub fn len(&self) -> (n: usize)
        ensures
            n == self@.len(),
    {
        self.bytes.len()
    }
}

/// The ring slot that frame `seq` writes, named as one of 0, 2 and 4.
pub open spec fn phase_of(seq: int) -> int {
    2 * (seq % 3)
}

/// The slot a frame writes, and the one the next frame writes.
pub fn ring_phase(seq0: u32) -> (r: (u8, u8))
    ensures
        r.0 == phase_of(seq0 as int),
        r.1 == phase_of(seq0 + 1),
{
    let phase: u8 = ((seq0 % 3) as u8) * 2;
    (phase, (phase + 2) % 6)
}

/// A connector's frames cycle through the three slots: any three in a row use each once.
pub proof fn law_ring_cycles_through_three_slots(seq: int)
    ensures
        phase_of(seq + 3) == phase_of(seq),
        phase_of(seq) != phase_of(seq + 1),
        phase_of(seq) != phase_of(seq + 2),
        phase_of(seq + 1) != phase_of(seq + 2),
        phase_of(seq) == 0 || phase_of(seq) == 2 || phase_of(seq) == 4,
{
}

/// The one-based frame number, which occupies a single byte.
pub open spec fn frame_number(seq: int) -> u8 {
    ((seq + 1) % 256) as u8
}

/// The frame number of a frame.
fn frame_byte(seq0: u32) -> (n: u8)
    ensures
        n == frame_number(seq0 as int),
{
    if seq0 % 256 == 255 {
        0
    } else {
        (seq0 % 256) as u8 + 1
    }
}

/// The body of the record that marks a frame present in slot `phase`.
pub open spec fn present_body(seq: int) -> Seq<u8> {
    seq![
        0x08u8,
        0u8,
        0x05u8,
        phase_of(seq) as u8,
        0u8,
        0u8,
        0u8,
        (4 * phase_of(seq)) as u8,
        0u8,
        frame_number(seq),
        0u8,
        0u8,
        0u8,
        0u8,
        0u8,
        0u8,
    ]
}

/// The body of the record that names the next slot and the one before it.
pub open spec fn next_body(seq: int) -> Seq<u8> {
    seq![
        0x0au8,
        0u8,
        0x04u8,
        phase_of(seq + 1) as u8,
        0u8,
        0u8,
        0u8,
        (4 * phase_of(seq + 1)) as u8,
        0u8,
        0u8,
        0u8,
        (4 * phase_of(seq)) as u8,
        0u8,
        0u8,
        0u8,
        0u8,
    ]
}

/// The three closing records of a frame on a raster dock.
pub open spec fn trailer_spec(g: Geometry, connector: u8, seq: int) -> Seq<u8> {
    let h = g.selector(connector);
    records::header_bytes(32, 4, h as int, 6, 0) + present_body(seq) + records::header_bytes(
        32,
        4,
        h as int,
        4,
        0,
    ) + next_body(seq) + records::header_bytes(32, 4, (h | 0x10) as int, 4, 0) + next_body(seq)
}

/// Append a 32-byte record with the given header fields and body.
fn append_record(out: &mut Vec<u8>, sub: u8, aux: u16, body: &[u8])
    requires
        body@.len() == 16,
    ensures
        final(out)@ == old(out)@ + records::header_bytes(32, 4, sub as int, aux as int, 0) + body@,
{
    let mut record: Vec<u8> = Vec::new();
    bytes::append_zeros(&mut record, 16);
    bytes::append(&mut record, body);
    record_header(record.as_mut_slice(), 4, sub as u16, aux, 0);
    let ghost h = records::header_bytes(32, 4, sub as int, aux as int, 0);
    assert((bytes::zero_bytes(16) + body@).skip(16) =~= body@);
    assert(record@ == h + body@);
    let ghost before = out@;
    bytes::append(out, &record);
    assert(before + (h + body@) =~= before + h + body@);
}

/// Build the closing records of a frame: that the frame is present, and twice the next slot,
/// the second time with bit 4 set in the connector's selector.
pub fn frame_trailer(geometry: Geometry, connector: u8, seq0: u32) -> (t: FrameTrailer)
    requires
        geometry.connector_selector_shift < 8,
    ensures
        t@ == trailer_spec(geometry, connector, seq0 as int),
{
    let (phase, next) = ring_phase(seq0);
    let h: u8 = geometry.connector_selector(connector);
    let present: [u8; 16] = [
        0x08,
        0,
        0x05,
        phase,
        0,
        0,
        0,
        4 * phase,
        0,
        frame_byte(seq0),
        0,
        0,
        0,
        0,
        0,
        0,
    ];
    let follow: [u8; 16] = [0x0a, 0, 0x04, next, 0, 0, 0, 4 * next, 0, 0, 0, 4 * phase, 0, 0, 0, 0];
    assert(present@ =~= present_body(seq0 as int));
    assert(follow@ =~= next_body(seq0 as int));
    let mut out: Vec<u8> = Vec::new();
    append_record(&mut out, h, 6, &present);
    assert(out@ =~= records::header_bytes(32, 4, h as int, 6, 0) + present_body(seq0 as int));
    append_record(&mut out, h, 4, &follow);
    append_record(&mut out, h | 0x10, 4, &follow);
    FrameTrailer { bytes: out }
}

/// The dock-side slots of a connector's ring, in the order its frames use them: the id and the
/// ring address of each.
#[derive(Clone, Copy, Debug, PartialEq, Eq)]
pub struct PipeRing {
    /// The slot ids.
    pub slots: [u8; 3],
    /// The ring addresses.
    pub rings: [u16; 3],
}

/// The record that opens a frame, naming its slot, that slot's address and the previous one's.
pub open spec fn opener_spec(g: Geometry, connector: u8, pipe: PipeRing, seq: int) -> Seq<u8> {
    records::header_bytes(32, 4, g.selector(connector) as int, 4, 0) + (seq![
        0x0au8,
        0u8,
        0x04u8,
        pipe.slots@[seq % 3],
        0u8,
        0u8,
    ] + bytes::le16(pipe.rings@[seq % 3] as int) + bytes::zero_bytes(2) + bytes::le16(
        pipe.rings@[(seq + 2) % 3] as int,
    ) + bytes::zero_bytes(4))
}

/// Build the record that opens a non-prologue frame on a dock that names its slots.
pub fn navarro_frame_opener(geometry: Geometry, connector: u8, pipe: &PipeRing, seq0: u32) -> (out:
    [u8; 32])
    requires
        geometry.connector_selector_shift < 8,
    ensures
        out@ == opener_spec(geometry, connector, *pipe, seq0 as int),
{
    let at: usize = (seq0 % 3) as usize;
    let before: usize = (at + 2) % 3;
    let ring: u16 = pipe.rings[at];
    let prev: u16 = pipe.rings[before];
    let mut out: [u8; 32] = [0;32];
    out[16] = 0x0a;
    out[18] = 0x04;
    out[19] = pipe.slots[at];
    out[22] = (ring % 256) as u8;
    out[23] = (ring / 256) as u8;
    out[26] = (prev % 256) as u8;
    out[27] = (prev / 256) as u8;
    let ghost body = seq![0x0au8, 0u8, 0x04u8, pipe.slots@[at as int], 0u8, 0u8] + bytes::le16(
        ring as int,
    ) + bytes::zero_bytes(2) + bytes::le16(prev as int) + bytes::zero_bytes(4);
    assert(out@.skip(16) =~= body);
    record_header(&mut out, 4, geometry.connector_selector(connector) as u16, 4, 0);
    out
}

/// The record that closes a frame on a dock that names its slots.
pub open spec fn navarro_trailer_spec(
    g: Geometry,
    connector: u8,
    pipe: PipeRing,
    seq: int,
) -> Seq<u8> {
    records::header_bytes(32, 4, g.selector(connector) as int, 6, 0) + (seq![
        0x08u8,
        0u8,
        0x05u8,
        pipe.slots@[seq % 3],
        0u8,
        0u8,
    ] + bytes::le16(pipe.rings@[seq % 3] as int) + seq![0u8, frame_number(seq)] + bytes::zero_bytes(
        6,
    ))
}

/// Build the closing record for the ring slot this frame filled.
pub fn navarro_frame_trailer(geometry: Geometry, connector: u8, pipe: &PipeRing, seq0: u32) -> (t:
    FrameTrailer)
    requires
        geometry.connector_selector_shift < 8,
    ensures
        t@ == navarro_trailer_spec(geometry, connector, *pipe, seq0 as int),
{
    let at: usize = (seq0 % 3) as usize;
    let ring: u16 = pipe.rings[at];
    let mut out: [u8; 32] = [0;32];
    out[16] = 0x08;
    out[18] = 0x05;
    out[19] = pipe.slots[at];
    out[22] = (ring % 256) as u8;
    out[23] = (ring / 256) as u8;
    out[25] = frame_byte(seq0);
    let ghost body = seq![0x08u8, 0u8, 0x05u8, pipe.slots@[at as int], 0u8, 0u8] + bytes::le16(
        ring as int,
    ) + seq![0u8, frame_number(seq0 as int)] + bytes::zero_bytes(6);
    assert(out@.skip(16) =~= body);
    record_header(&mut out, 4, geometry.connector_selector(connector) as u16, 6, 0);
    let mut bytes: Vec<u8> = Vec::new();
    bytes::append(&mut bytes, &out);
    let t = FrameTrailer { bytes };
    assert(t@ =~= out@);
    t
}

/// The record that opens a connector's stream on an interlaced 64-wide dock: two ring
/// descriptors naming slot 0, after the last slot.
pub open spec fn ella_open_spec(g: Geometry, connector: u8) -> Seq<u8> {
    records::header_bytes(48, 4, g.selector(connector) as int, 8, 0) + (seq![0x0au8, 0u8, 0x04u8]
        + bytes::zero_bytes(8) + seq![2u8, 0x0au8, 0u8, 0x04u8] + bytes::zero_bytes(17))
}

/// Build the record that opens a connector's stream, sent once before any frame.
pub fn ella_stream_open(geometry: Geometry, connector: u8) -> (out: [u8; 48])
    requires
        geometry.connector_selector_shift < 8,
    ensures
        out@ == ella_open_spec(geometry, connector),
{
    let mut out: [u8; 48] = [0;48];
    out[16] = 10;
    out[18] = 0x04;
    out[27] = (ELLA_RING_SLOTS - 1) as u8;
    out[28] = 10;
    out[30] = 0x04;
    assert(out@.skip(16) =~= seq![0x0au8, 0u8, 0x04u8] + bytes::zero_bytes(8) + seq![
        2u8,
        0x0au8,
        0u8,
        0x04u8,
    ] + bytes::zero_bytes(17));
    ella_record_header(&mut out, geometry, connector, 0x0008);
    out
}

/// The record that closes a frame on an interlaced 64-wide dock: the slot it filled, its frame
/// number, and the slot the next frame will fill.
pub open spec fn ella_close_spec(g: Geometry, connector: u8, seq: int) -> Seq<u8> {
    let cur = (seq % 3) as u8;
    let next = ((seq + 1) % 3) as u8;
    records::header_bytes(48, 4, g.selector(connector) as int, 0x0a, 0) + (seq![
        0x08u8,
        0u8,
        0x05u8,
        cur,
        0u8,
        0u8,
        0u8,
        cur,
        0x01u8,
        frame_number(seq),
        0x0au8,
        0u8,
        0x04u8,
        next,
        0u8,
        0u8,
        0u8,
        next,
        0u8,
        0u8,
        0u8,
        cur,
    ] + bytes::zero_bytes(10))
}

/// Build the record that closes a frame.
pub fn ella_frame_close(geometry: Geometry, connector: u8, seq0: u32) -> (out: [u8; 48])
    requires
        geometry.connector_selector_shift < 8,
        seq0 < u32::MAX,
    ensures
        out@ == ella_close_spec(geometry, connector, seq0 as int),
{
    let cur: u8 = (seq0 % ELLA_RING_SLOTS) as u8;
    let next: u8 = ((seq0 + 1) % ELLA_RING_SLOTS) as u8;
    let mut out: [u8; 48] = [0;48];
    out[16] = 8;
    out[18] = 0x05;
    out[19] = cur;
    out[23] = cur;
    out[24] = 0x01;
    out[25] = frame_byte(seq0);
    out[26] = 10;
    out[28] = 0x04;
    out[29] = next;
    out[33] = next;
    out[37] = cur;
    assert(out@.skip(16) =~= seq![
        0x08u8,
        0u8,
        0x05u8,
        cur,
        0u8,
        0u8,
        0u8,
        cur,
        0x01u8,
        frame_number(seq0 as int),
        0x0au8,
        0u8,
        0x04u8,
        next,
        0u8,
        0u8,
        0u8,
        next,
        0u8,
        0u8,
        0u8,
        cur,
    ] + bytes::zero_bytes(10));
    ella_record_header(&mut out, geometry, connector, 0x000a);
    out
}

/// Write the header that this dock's non-image records share, over a record's first bytes.
pub fn ella_record_header(out: &mut [u8; 48], geometry: Geometry, connector: u8, aux: u16)
    requires
        geometry.connector_selector_shift < 8,
    ensures
        final(out)@ == records::header_bytes(
            48,
            4,
            geometry.selector(connector) as int,
            aux as int,
            0,
        ) + old(out)@.skip(16),
{
    record_header(out, 4, geometry.connector_selector(connector) as u16, aux, 0);
}

/// Consecutive frames agree on the ring of a raster dock. A closing names the slot its frame filled,
/// and its frame number; both of its other records name the slot that the next frame fills, and the
/// one this frame filled; all three name the connector, the last in the odd plane.
pub proof fn law_closings_hand_the_ring_on(g: Geometry, connector: u8, seq: int)
    requires
        0 <= seq,
    ensures
        ({
            let t = trailer_spec(g, connector, seq);
            let u = trailer_spec(g, connector, seq + 1);
            &&& t.len() == 96
            &&& t[8] == g.selector(connector) && t[40] == g.selector(connector) && t[72]
                == g.selector(connector) | 0x10
            &&& t[19] == 2 * (seq % 3) && t[23] == 8 * (seq % 3)
            &&& t[25] == (seq + 1) % 256
            &&& t[51] == u[19] && t[83] == u[19]
            &&& t[55] == u[23] && t[87] == u[23]
            &&& t[59] == t[23] && t[91] == t[23]
        }),
{
    let h = g.selector(connector);
    let t = trailer_spec(g, connector, seq);
    let u = trailer_spec(g, connector, seq + 1);
    let a = records::header_bytes(32, 4, h as int, 6, 0);
    let b = records::header_bytes(32, 4, h as int, 4, 0);
    let c = records::header_bytes(32, 4, (h | 0x10) as int, 4, 0);
    let p = present_body(seq);
    let n = next_body(seq);
    assert(a.len() == 16 && b.len() == 16 && c.len() == 16 && p.len() == 16 && n.len() == 16);
    assert(t == a + p + b + n + c + n);
    assert(t[8] == a[8] && t[40] == b[8] && t[72] == c[8]);
    assert(t[19] == p[3] && t[23] == p[7] && t[25] == p[9]);
    assert(t[51] == n[3] && t[55] == n[7] && t[59] == n[11]);
    assert(t[83] == n[3] && t[87] == n[7] && t[91] == n[11]);
    let q = present_body(seq + 1);
    assert(u == a + q + b + next_body(seq + 1) + c + next_body(seq + 1));
    assert(u[19] == q[3] && u[23] == q[7]);
    let plane = bytes::le16(h as int);
    assert(a[8] == plane[0] && b[8] == plane[0]);
    let odd = bytes::le16((h | 0x10) as int);
    assert(c[8] == odd[0]);
}

/// Consecutive frames agree on the ring of a dock that names its slots. A frame's opener and its
/// closing name the same slot at the same address, and the opener of the next frame names that
/// address as the one before its own.
pub proof fn law_openers_follow_the_ring(g: Geometry, connector: u8, pipe: PipeRing, seq: int)
    requires
        0 <= seq,
    ensures
        ({
            let o = opener_spec(g, connector, pipe, seq);
            let next = opener_spec(g, connector, pipe, seq + 1);
            let t = navarro_trailer_spec(g, connector, pipe, seq);
            &&& o.len() == 32 && t.len() == 32
            &&& o[8] == g.selector(connector) && t[8] == g.selector(connector)
            &&& o[19] == pipe.slots@[seq % 3] && t[19] == o[19]
            &&& bytes::u16_at(o, 22) == pipe.rings@[seq % 3] && bytes::u16_at(t, 22)
                == bytes::u16_at(o, 22)
            &&& bytes::u16_at(next, 26) == bytes::u16_at(o, 22)
            &&& t[25] == (seq + 1) % 256
        }),
{
    let h = records::header_bytes(32, 4, g.selector(connector) as int, 4, 0);
    let k = records::header_bytes(32, 4, g.selector(connector) as int, 6, 0);
    let plane = bytes::le16(g.selector(connector) as int);
    assert(h.len() == 16 && k.len() == 16 && h[8] == plane[0] && k[8] == plane[0]);
    let o = opener_spec(g, connector, pipe, seq);
    let next = opener_spec(g, connector, pipe, seq + 1);
    let t = navarro_trailer_spec(g, connector, pipe, seq);
    let ring = bytes::le16(pipe.rings@[seq % 3] as int);
    assert(o[8] == h[8] && t[8] == k[8]);
    assert(o[22] == ring[0] && o[23] == ring[1]);
    assert(t[22] == ring[0] && t[23] == ring[1]);
    assert((seq + 1 + 2) % 3 == seq % 3);
    assert(next[26] == ring[0] && next[27] == ring[1]);
}

/// Consecutive frames agree on the ring of an interlaced 64-wide dock: the slot that a closing says
/// comes next is the one the next closing says was filled, and the frame number counts on.
pub proof fn law_closings_name_the_next_slot(g: Geometry, connector: u8, seq: int)
    requires
        0 <= seq,
    ensures
        ({
            let t = ella_close_spec(g, connector, seq);
            let u = ella_close_spec(g, connector, seq + 1);
            &&& t.len() == 48
            &&& t[8] == g.selector(connector)
            &&& t[19] == seq % 3 && t[23] == t[19] && t[37] == t[19]
            &&& t[29] == u[19] && t[33] == u[19]
            &&& t[25] == (seq + 1) % 256
        }),
{
    let h = records::header_bytes(48, 4, g.selector(connector) as int, 0x0a, 0);
    let plane = bytes::le16(g.selector(connector) as int);
    assert(h.len() == 16 && h[8] == plane[0]);
    let t = ella_close_spec(g, connector, seq);
    assert(t[8] == h[8]);
}

} // verus!
