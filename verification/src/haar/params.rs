//! The per-strip size map a dock needs before it can parse a frame's strips.

use vstd::prelude::*;

use crate::bytes;
use crate::error::Error;
use crate::haar::geometry::Geometry;
use crate::haar::order;
use crate::haar::records;
use crate::haar::walk;
use crate::haar::walk::{Extent, framed_strip_extents};

verus! {

/// Bands described by one sub-record.
pub const PARAM_BANDS_PER_TLV: usize = 8;

/// Map bytes of one band, whatever its width.
pub const PARAM_BAND_STRIDE: usize = 32;

/// Sub-records in one record.
pub const PARAM_TLVS_PER_RECORD: usize = 15;

/// Bands described by one record.
pub const PARAM_BANDS_PER_RECORD: usize = PARAM_TLVS_PER_RECORD * PARAM_BANDS_PER_TLV;

/// A strip's size class: its length in 512-byte units.
pub open spec fn size_class(len: int) -> u8 {
    ((len / 512) % 256) as u8
}

/// A strip's size class; see [`size_class`].
pub fn strip_size_class(len: usize) -> (c: u8)
    ensures
        c == size_class(len as int),
{
    ((len / 512) % 256) as u8
}

/// A quotient rounded up.
pub open spec fn ceil_div(n: int, d: int) -> int {
    (n + d - 1) / d
}

/// How many bands a surface has.
pub open spec fn band_count(g: Geometry, height: int) -> int {
    ceil_div(height, g.height())
}

/// How many strips of a band the map covers.
pub open spec fn across_count(g: Geometry, width: int) -> int {
    if ceil_div(width, g.width()) < PARAM_BAND_STRIDE {
        ceil_div(width, g.width())
    } else {
        PARAM_BAND_STRIDE as int
    }
}

/// The map with one strip's class noted, where the strip lies on the surface.
pub open spec fn note(g: Geometry, map: Seq<u8>, across: int, bands: int, e: Extent) -> Seq<u8> {
    let bx = e.x as int / g.width();
    let by = e.y as int / g.height();
    if bx < across && by < bands {
        map.update(32 * by + bx, size_class(e.len as int))
    } else {
        map
    }
}

/// The map with the classes of the first `n` strips noted.
pub open spec fn note_all(
    g: Geometry,
    map: Seq<u8>,
    across: int,
    bands: int,
    strips: Seq<Extent>,
    n: nat,
) -> Seq<u8>
    decreases n,
{
    if n == 0 {
        map
    } else {
        note(g, note_all(g, map, across, bands, strips, (n - 1) as nat), across, bands, strips[n - 1])
    }
}

/// The map a frame starts from: the one remembered, or zeroes where its size does not match.
pub open spec fn base_map(remembered: Seq<u8>, bands: int) -> Seq<u8> {
    if remembered.len() == 32 * bands {
        remembered
    } else {
        bytes::zero_bytes((32 * bands) as nat)
    }
}

/// The map of a surface after a frame.
pub open spec fn map_after(
    g: Geometry,
    width: int,
    height: int,
    frames: Seq<Seq<u8>>,
    remembered: Seq<u8>,
) -> Seq<u8> {
    let bands = band_count(g, height);
    let rs = walk::all_records(frames, frames.len());
    let strips = walk::extents_of(rs, rs.len());
    note_all(g, base_map(remembered, bands), across_count(g, width), bands, strips, strips.len())
}

/// One sub-record: the map of `count` bands from `band` on.
pub open spec fn tlv(map: Seq<u8>, band: int, count: int) -> Seq<u8> {
    bytes::le16(6 + 32 * count) + bytes::le16(0x200f) + bytes::le16(band % 0x1_0000) + bytes::le16(
        count,
    ) + map.subrange(32 * band, 32 * (band + count))
}

/// The sub-records of bands `from..to`, eight bands each.
pub open spec fn tlvs(map: Seq<u8>, from: int, to: int) -> Seq<u8>
    decreases to - from,
{
    if from >= to {
        Seq::empty()
    } else {
        let count = if to - from < PARAM_BANDS_PER_TLV {
            to - from
        } else {
            PARAM_BANDS_PER_TLV as int
        };
        tlv(map, from, count) + tlvs(map, from + count, to)
    }
}

/// The end of the record whose first band is `band`.
pub open spec fn param_record_end(band: int, bands: int) -> int {
    if bands - band < PARAM_BANDS_PER_RECORD {
        bands
    } else {
        band + PARAM_BANDS_PER_RECORD
    }
}

/// The body of the record whose first band is `band`; the first record's is padded.
pub open spec fn param_body(map: Seq<u8>, band: int, bands: int) -> Seq<u8> {
    let body = tlvs(map, band, param_record_end(band, bands));
    if band == 0 && body.len() < 3968 {
        body + bytes::zero_bytes((3968 - body.len()) as nat)
    } else {
        body
    }
}

/// The record whose first band is `band`.
pub open spec fn param_record(
    g: Geometry,
    connector: u8,
    map: Seq<u8>,
    band: int,
    bands: int,
) -> Seq<u8> {
    let body = param_body(map, band, bands);
    records::header_bytes(
        (16 + body.len()) as int,
        4,
        g.selector(connector) as int,
        if band == 0 {
            8
        } else {
            0
        },
        0,
    ) + body
}

/// The records of the bands from `band` on.
pub open spec fn param_records(
    g: Geometry,
    connector: u8,
    map: Seq<u8>,
    band: int,
    bands: int,
) -> Seq<u8>
    decreases bands - band,
{
    if band >= bands {
        Seq::empty()
    } else {
        param_record(g, connector, map, band, bands) + param_records(
            g,
            connector,
            map,
            param_record_end(band, bands),
            bands,
        )
    }
}

/// A slot of the map lies in it.
proof fn lemma_slot(by: int, bx: int, bands: int)
    requires
        0 <= by < bands,
        0 <= bx < 32,
    ensures
        0 <= 32 * by + bx < 32 * bands,
{
}

/// Note every strip of a frame in the map.
fn note_strips(g: Geometry, map: &mut Vec<u8>, across: usize, bands: usize, strips: &[Extent])
    requires
        g.wf(),
        across <= 32,
        old(map)@.len() == 32 * bands,
    ensures
        final(map)@ == note_all(
            g,
            old(map)@,
            across as int,
            bands as int,
            strips@,
            strips@.len(),
        ),
        final(map)@.len() == 32 * bands,
{
    let mut i: usize = 0;
    while i < strips.len()
        invariant
            i <= strips@.len(),
            g.wf(),
            across <= 32,
            map@.len() == 32 * bands,
            map@ == note_all(g, old(map)@, across as int, bands as int, strips@, i as nat),
        decreases strips@.len() - i,
    {
        let e: Extent = strips[i];
        let bx: usize = e.x / g.strip_w();
        let by: usize = e.y / g.strip_h();
        if bx < across && by < bands {
            proof {
                lemma_slot(by as int, bx as int, bands as int);
            }
            let size: usize = map.len();
            assert(32 * by + bx < size);
            map.set(32 * by + bx, strip_size_class(e.len));
        }
        i += 1;
    }
}

/// Concatenation groups either way.
proof fn lemma_regroup(a: Seq<u8>, b: Seq<u8>, c: Seq<u8>)
    ensures
        a + (b + c) == a + b + c,
{
    assert(a + (b + c) =~= a + b + c);
}

/// Append one sub-record; see [`tlv`].
fn append_tlv(out: &mut Vec<u8>, map: &[u8], band: usize, count: usize)
    requires
        count <= 8,
        32 * (band + count) <= map@.len(),
    ensures
        final(out)@ == old(out)@ + tlv(map@, band as int, count as int),
{
    let size: usize = map.len();
    assert(32 * (band + count) <= size);
    let mut own: Vec<u8> = Vec::new();
    bytes::append_u16(&mut own, (6 + 32 * count) as u16);
    assert(own@ =~= bytes::le16(6 + 32 * count as int));
    bytes::append_u16(&mut own, 0x200f);
    bytes::append_u16(&mut own, bytes::low_u16(band));
    bytes::append_u16(&mut own, count as u16);
    bytes::append(&mut own, vstd::slice::slice_subrange(map, 32 * band, 32 * (band + count)));
    bytes::append(out, &own);
}

/// Append the sub-records of bands `from..to`.
fn append_tlvs(out: &mut Vec<u8>, map: &[u8], from: usize, to: usize)
    requires
        from <= to,
        32 * to <= map@.len(),
    ensures
        final(out)@ == old(out)@ + tlvs(map@, from as int, to as int),
{
    let ghost start = out@;
    let mut band: usize = from;
    while band < to
        invariant
            from <= band <= to,
            32 * to <= map@.len(),
            start + tlvs(map@, from as int, to as int) == out@ + tlvs(map@, band as int, to as int),
        decreases to - band,
    {
        let count: usize = if to - band < PARAM_BANDS_PER_TLV {
            to - band
        } else {
            PARAM_BANDS_PER_TLV
        };
        let ghost before = out@;
        append_tlv(out, map, band, count);
        proof {
            lemma_regroup(
                before,
                tlv(map@, band as int, count as int),
                tlvs(map@, band + count, to as int),
            );
        }
        band = band + count;
    }
    assert(out@ =~= start + tlvs(map@, from as int, to as int));
}

/// Build the size map of one frame as the records a dock takes it in, and remember it for the
/// next frame.
///
/// The map covers the whole surface while a frame may carry only some of its strips: the slots
/// of the others keep the class remembered for them.
pub fn navarro_strip_params(
    geometry: Geometry,
    connector: u8,
    width: usize,
    height: usize,
    frames: &[Vec<u8>],
    remembered: &mut Vec<u8>,
) -> (r: Result<Vec<u8>, Error>)
    requires
        geometry.wf(),
        32 * band_count(geometry, height as int) <= usize::MAX,
    ensures
        final(remembered)@ == map_after(
            geometry,
            width as int,
            height as int,
            order::contents(frames@),
            old(remembered)@,
        ),
        r matches Ok(out) && out@ == param_records(
            geometry,
            connector,
            final(remembered)@,
            0,
            band_count(geometry, height as int),
        ),
{
    let bands: usize = div_ceil(height, geometry.strip_h());
    let wide: usize = div_ceil(width, geometry.strip_w());
    let across: usize = if wide < PARAM_BAND_STRIDE {
        wide
    } else {
        PARAM_BAND_STRIDE
    };
    if remembered.len() != 32 * bands {
        remembered.clear();
        bytes::append_zeros(remembered, 32 * bands);
    }
    assert(remembered@ =~= base_map(old(remembered)@, bands as int));
    let strips: Vec<Extent> = framed_strip_extents(frames);
    note_strips(geometry, remembered, across, bands, strips.as_slice());
    let map: &Vec<u8> = remembered;
    let mut out: Vec<u8> = Vec::new();
    let mut band: usize = 0;
    assert(out@ + param_records(geometry, connector, map@, 0, bands as int) =~= param_records(
        geometry,
        connector,
        map@,
        0,
        bands as int,
    ));
    while band < bands
        invariant
            geometry.wf(),
            band <= bands,
            map@.len() == 32 * bands,
            param_records(geometry, connector, map@, 0, bands as int) == out@ + param_records(
                geometry,
                connector,
                map@,
                band as int,
                bands as int,
            ),
        decreases bands - band,
    {
        let end: usize = if bands - band < PARAM_BANDS_PER_RECORD {
            bands
        } else {
            band + PARAM_BANDS_PER_RECORD
        };
        let record: Vec<u8> = build_record(geometry, connector, map.as_slice(), band, end, bands);
        let ghost before = out@;
        bytes::append(&mut out, &record);
        proof {
            let rest = param_records(geometry, connector, map@, end as int, bands as int);
            assert(before + (record@ + rest) =~= before + record@ + rest);
        }
        band = end;
    }
    assert(out@ =~= param_records(geometry, connector, map@, 0, bands as int));
    Ok(out)
}

/// Build the record whose first band is `band`; see [`param_record`].
fn build_record(
    g: Geometry,
    connector: u8,
    map: &[u8],
    band: usize,
    end: usize,
    bands: usize,
) -> (record: Vec<u8>)
    requires
        g.wf(),
        band < bands,
        map@.len() == 32 * bands,
        end == param_record_end(band as int, bands as int),
    ensures
        record@ == param_record(g, connector, map@, band as int, bands as int),
{
    let mut record: Vec<u8> = Vec::new();
    bytes::append_zeros(&mut record, 16);
    proof {
        lemma_tlvs_len(map@, band as int, end as int);
    }
    append_tlvs(&mut record, map, band, end);
    let body: usize = record.len() - 16;
    if band == 0 && body < 3968 {
        bytes::append_zeros(&mut record, 3968 - body);
    }
    let ghost payload = param_body(map@, band as int, bands as int);
    assert(record@ =~= bytes::zero_bytes(16) + payload);
    let aux: u16 = if band == 0 {
        8
    } else {
        0
    };
    let sub: u16 = g.connector_selector(connector) as u16;
    records::record_header(record.as_mut_slice(), 4, sub, aux, 0);
    assert((bytes::zero_bytes(16) + payload).skip(16) =~= payload);
    record
}

/// A quotient rounded up.
fn div_ceil(n: usize, d: usize) -> (q: usize)
    requires
        d == 8 || d == 16 || d == 64 || d == 128,
    ensures
        q == ceil_div(n as int, d as int),
{
    let whole: usize = n / d;
    if n % d == 0 {
        whole
    } else {
        whole + 1
    }
}

/// How long the sub-records of a run of bands are.
#[verifier::spinoff_prover]
proof fn lemma_tlvs_len(map: Seq<u8>, from: int, to: int)
    requires
        0 <= from <= to,
        32 * to <= map.len(),
    ensures
        tlvs(map, from, to).len() == 32 * (to - from) + 8 * ceil_div(to - from, 8),
    decreases to - from,
{
    let n = to - from;
    if 8 <= n {
        lemma_tlvs_len(map, from + 8, to);
        assert(tlv(map, from, 8).len() == 8 + 32 * 8);
        assert(ceil_div(n, 8) == 1 + ceil_div(n - 8, 8));
    } else if 0 < n {
        lemma_tlvs_len(map, to, to);
        assert(tlv(map, from, n).len() == 8 + 32 * n);
        assert(from + n == to);
        assert(ceil_div(n, 8) == 1);
    }
}

/// Every parameter record stays within the record ceiling, whatever the surface's height.
pub proof fn law_parameter_records_stay_within_the_ceiling(
    g: Geometry,
    connector: u8,
    map: Seq<u8>,
    band: int,
    bands: int,
)
    requires
        0 <= band < bands,
        map.len() == 32 * bands,
    ensures
        16 < param_record(g, connector, map, band, bands).len() <= 3984,
{
    let end = param_record_end(band, bands);
    lemma_tlvs_len(map, band, end);
    assert(ceil_div(end - band, 8) <= 15);
}

/// A slot that no strip of the frame falls on keeps its class.
pub proof fn law_untouched_slots_keep_their_class(
    g: Geometry,
    map: Seq<u8>,
    across: int,
    bands: int,
    strips: Seq<Extent>,
    n: nat,
    slot: int,
)
    requires
        g.wf(),
        across <= 32,
        map.len() == 32 * bands,
        n <= strips.len(),
        0 <= slot < map.len(),
        forall|i: int|
            0 <= i < n ==> 32 * ((#[trigger] strips[i]).y as int / g.height()) + strips[i].x as int
                / g.width() != slot,
    ensures
        note_all(g, map, across, bands, strips, n).len() == map.len(),
        note_all(g, map, across, bands, strips, n)[slot] == map[slot],
    decreases n,
{
    if n > 0 {
        law_untouched_slots_keep_their_class(
            g,
            map,
            across,
            bands,
            strips,
            (n - 1) as nat,
            slot,
        );
        let e = strips[n - 1];
        let bx = e.x as int / g.width();
        let by = e.y as int / g.height();
        if bx < across && by < bands {
            lemma_slot(by, bx, bands);
        }
    }
}

/// The size class of a strip is noted in its own slot: its length in units of 512 bytes, in the
/// place that its band and its column give it.
pub proof fn law_strips_are_classed_in_their_slot(
    g: Geometry,
    map: Seq<u8>,
    across: int,
    bands: int,
    e: Extent,
)
    requires
        g.shaped(),
        map.len() == 32 * bands,
        across <= 32,
        e.x as int / g.width() < across,
        e.y as int / g.height() < bands,
        e.len < 512 * 256,
    ensures
        ({
            let slot = 32 * (e.y as int / g.height()) + e.x as int / g.width();
            &&& 0 <= slot < map.len()
            &&& 512 * note(g, map, across, bands, e)[slot] <= e.len < 512 * note(
                g,
                map,
                across,
                bands,
                e,
            )[slot] + 512
        }),
{
    let by = e.y as int / g.height();
    let bx = e.x as int / g.width();
    if g.width() == 64 {
        assert(bx == e.x as int / 64 && by == e.y as int / 16);
    } else {
        assert(bx == e.x as int / 128 && by == e.y as int / 8);
    }
    assert(0 <= 32 * by + bx < 32 * bands);
}

/// A strip that is noted and not noted again keeps its class: the map of a frame shows, for each
/// strip, the last one that was sent there.
pub proof fn law_the_last_strip_of_a_slot_counts(
    g: Geometry,
    map: Seq<u8>,
    across: int,
    bands: int,
    strips: Seq<Extent>,
    k: int,
    n: nat,
)
    requires
        g.shaped(),
        map.len() == 32 * bands,
        across <= 32,
        0 <= k < n <= strips.len(),
        strips[k].x as int / g.width() < across,
        strips[k].y as int / g.height() < bands,
        forall|j: int|
            k < j < n ==> (#[trigger] strips[j]).x as int / g.width() != strips[k].x as int
                / g.width() || strips[j].y as int / g.height() != strips[k].y as int / g.height(),
    ensures
        note_all(g, map, across, bands, strips, n).len() == map.len(),
        note_all(g, map, across, bands, strips, n)[32 * (strips[k].y as int / g.height())
            + strips[k].x as int / g.width()] == ((strips[k].len / 512) % 256) as u8,
    decreases n,
{
    let by = strips[k].y as int / g.height();
    let bx = strips[k].x as int / g.width();
    assert(0 <= bx && 0 <= by) by {
        if g.width() == 64 {
        } else {
            assert(g.width() == 128);
        }
    }
    assert(0 <= 32 * by + bx < 32 * bands);
    lemma_note_all_len(g, map, across, bands, strips, (n - 1) as nat);
    if k < n - 1 {
        law_the_last_strip_of_a_slot_counts(g, map, across, bands, strips, k, (n - 1) as nat);
        let e = strips[n - 1];
        let ey = e.y as int / g.height();
        let ex = e.x as int / g.width();
        assert(0 <= ex && 0 <= ey) by {
            if g.width() == 64 {
            } else {
                assert(g.width() == 128);
            }
        }
        if ex < across && ey < bands {
            assert(32 * ey + ex != 32 * by + bx);
            assert(0 <= 32 * ey + ex < 32 * bands);
        }
    }
}

proof fn lemma_note_all_len(
    g: Geometry,
    map: Seq<u8>,
    across: int,
    bands: int,
    strips: Seq<Extent>,
    n: nat,
)
    requires
        g.shaped(),
        map.len() == 32 * bands,
        across <= 32,
    ensures
        note_all(g, map, across, bands, strips, n).len() == map.len(),
    decreases n,
{
    if n > 0 {
        lemma_note_all_len(g, map, across, bands, strips, (n - 1) as nat);
        let e = strips[n - 1];
        let ey = e.y as int / g.height();
        let ex = e.x as int / g.width();
        assert(0 <= ex && 0 <= ey) by {
            if g.width() == 64 {
            } else {
                assert(g.width() == 128);
            }
        }
        if ex < across && ey < bands {
            assert(0 <= 32 * ey + ex < 32 * bands);
        }
    }
}

/// Whether the sub-record at `at` states its bands and holds the slots of one of them.
pub open spec fn carries(t: Seq<u8>, at: int, map: Seq<u8>, first: int, count: int, band: int) -> bool {
    &&& 0 <= at
    &&& at + 8 + 32 * count <= t.len()
    &&& bytes::u16_at(t, at) == 6 + 32 * count
    &&& bytes::u16_at(t, at + 2) == 0x200f
    &&& bytes::u16_at(t, at + 4) == first
    &&& bytes::u16_at(t, at + 6) == count
    &&& first <= band < first + count
    &&& t.subrange(at + 8 + 32 * (band - first), at + 8 + 32 * (band - first) + 32) == map.subrange(
        32 * band,
        32 * band + 32,
    )
}

/// One sub-record states its bands and holds their slots.
proof fn lemma_tlv_carries(map: Seq<u8>, first: int, count: int, band: int)
    requires
        0 <= first <= band < first + count,
        count <= 8,
        32 * (first + count) <= map.len(),
        first <= 0xffff,
    ensures
        tlv(map, first, count).len() == 8 + 32 * count,
        carries(tlv(map, first, count), 0, map, first, count, band),
{
    let t = tlv(map, first, count);
    let a = bytes::le16(6 + 32 * count);
    let b = bytes::le16(0x200f);
    let c = bytes::le16(first % 0x1_0000);
    let d = bytes::le16(count);
    let m = map.subrange(32 * first, 32 * (first + count));
    assert(t == a + b + c + d + m);
    assert(t[0] == a[0] && t[1] == a[1]);
    assert(t[2] == b[0] && t[3] == b[1]);
    assert(t[4] == c[0] && t[5] == c[1]);
    assert(t[6] == d[0] && t[7] == d[1]);
    assert(t.subrange(8 + 32 * (band - first), 8 + 32 * (band - first) + 32) =~= map.subrange(
        32 * band,
        32 * band + 32,
    ));
}

/// A sub-record stays readable wherever it stands.
proof fn lemma_carries_within(
    before: Seq<u8>,
    t: Seq<u8>,
    after: Seq<u8>,
    at: int,
    map: Seq<u8>,
    first: int,
    count: int,
    band: int,
)
    requires
        carries(t, at, map, first, count, band),
    ensures
        carries(before + t + after, before.len() + at, map, first, count, band),
{
    let w = before + t + after;
    let n = before.len() as int;
    assert(w[n + at] == t[at] && w[n + at + 1] == t[at + 1]);
    assert(w[n + at + 2] == t[at + 2] && w[n + at + 3] == t[at + 3]);
    assert(w[n + at + 4] == t[at + 4] && w[n + at + 5] == t[at + 5]);
    assert(w[n + at + 6] == t[at + 6] && w[n + at + 7] == t[at + 7]);
    let p = at + 8 + 32 * (band - first);
    assert(w.subrange(n + p, n + p + 32) =~= t.subrange(p, p + 32));
}

/// The parameter records carry the map: each band of theirs stands in a sub-record of eight, which
/// states its first band and how many it holds, and holds their slots as they are.
pub proof fn law_parameters_carry_the_map(map: Seq<u8>, from: int, to: int, band: int)
    requires
        0 <= from <= band < to,
        32 * to <= map.len(),
        to <= 0xffff,
    ensures
        ({
            let first = from + 8 * ((band - from) / 8);
            let count = if to - first < 8 {
                to - first
            } else {
                8
            };
            carries(tlvs(map, from, to), 264 * ((band - from) / 8), map, first, count, band)
        }),
    decreases to - from,
{
    let t = tlvs(map, from, to);
    let count = if to - from < 8 {
        to - from
    } else {
        8
    };
    let head = tlv(map, from, count);
    let rest = tlvs(map, from + count, to);
    let nothing = Seq::<u8>::empty();
    lemma_tlv_carries(map, from, count, from);
    if band < from + 8 {
        assert((band - from) / 8 == 0);
        lemma_tlv_carries(map, from, count, band);
        lemma_carries_within(nothing, head, rest, 0, map, from, count, band);
        assert(nothing + head + rest =~= t);
    } else {
        let k = (band - from - 8) / 8;
        assert((band - from) / 8 == k + 1);
        law_parameters_carry_the_map(map, from + 8, to, band);
        let first = from + 8 + 8 * k;
        let held = if to - first < 8 {
            to - first
        } else {
            8
        };
        lemma_carries_within(head, rest, nothing, 264 * k, map, first, held, band);
        assert(head + rest + nothing =~= t);
    }
}

/// The map that a frame starts from is the one that is remembered, where it is of the surface's
/// size, and blank otherwise; a surface has a slot for every band, rounded up.
pub proof fn law_maps_are_remembered(g: Geometry, remembered: Seq<u8>, height: int, k: int)
    requires
        g.shaped(),
        0 < height,
        0 <= k < 32 * band_count(g, height),
    ensures
        remembered.len() == 32 * band_count(g, height) ==> base_map(
            remembered,
            band_count(g, height),
        ) == remembered,
        remembered.len() != 32 * band_count(g, height) ==> base_map(
            remembered,
            band_count(g, height),
        )[k] == 0,
        base_map(remembered, band_count(g, height)).len() == 32 * band_count(g, height),
        (band_count(g, height) - 1) * g.height() < height <= band_count(g, height) * g.height(),
{
    if g.height() == 8 {
    } else {
        assert(g.height() == 16);
    }
}

/// A parameter record says what it is: its own length, its kind, its connector, and whether it is
/// the first. The first fills its three thousand nine hundred and eighty-four bytes with zeros, and
/// any other ends with its last sub-record.
pub proof fn law_parameter_records_say_what_they_hold(
    g: Geometry,
    connector: u8,
    map: Seq<u8>,
    band: int,
    bands: int,
)
    requires
        0 <= band < bands,
        map.len() == 32 * bands,
    ensures
        ({
            let r = param_record(g, connector, map, band, bands);
            let held = tlvs(map, band, param_record_end(band, bands));
            &&& bytes::u16_at(r, 0) == 0
            &&& bytes::u16_at(r, 2) + 4 == r.len()
            &&& bytes::u16_at(r, 4) == 4 && bytes::u16_at(r, 6) == 0
            &&& bytes::u16_at(r, 8) == g.selector(connector)
            &&& bytes::u16_at(r, 10) == if band == 0 {
                8int
            } else {
                0
            }
            &&& bytes::u16_at(r, 12) == 0 && bytes::u16_at(r, 14) == 0
            &&& band == 0 ==> r.len() == 3984
            &&& band > 0 ==> r.len() == 16 + held.len()
            &&& r.subrange(16, (16 + held.len()) as int) == held
            &&& forall|k: int| 16 + held.len() <= k < r.len() ==> #[trigger] r[k] == 0
        }),
{
    let r = param_record(g, connector, map, band, bands);
    let end = param_record_end(band, bands);
    let held = tlvs(map, band, end);
    lemma_tlvs_len(map, band, end);
    assert(ceil_div(end - band, 8) <= 15);
    let size = bytes::le16((r.len() - 4) % 0x1_0000);
    let kind = bytes::le32(4);
    let sub = bytes::le16(g.selector(connector) as int);
    let aux = bytes::le16(
        if band == 0 {
            8
        } else {
            0
        },
    );
    let seq = bytes::le32(0);
    assert(r[2] == size[0] && r[3] == size[1]);
    assert(r[4] == kind[0] && r[5] == kind[1] && r[6] == kind[2] && r[7] == kind[3]);
    assert(r[8] == sub[0] && r[9] == sub[1]);
    assert(r[10] == aux[0] && r[11] == aux[1]);
    assert(r[12] == seq[0] && r[13] == seq[1] && r[14] == seq[2] && r[15] == seq[3]);
    assert(r.subrange(16, (16 + held.len()) as int) =~= held);
}

/// The parameter records follow each other, each from the band at which the one before it ends,
/// until every band has been told.
pub proof fn law_parameter_records_follow_each_other(
    g: Geometry,
    connector: u8,
    map: Seq<u8>,
    band: int,
    bands: int,
)
    requires
        0 <= band < bands,
    ensures
        ({
            let r = param_record(g, connector, map, band, bands);
            let all = param_records(g, connector, map, band, bands);
            let end = param_record_end(band, bands);
            &&& band < end <= bands
            &&& r.len() <= all.len()
            &&& all.take(r.len() as int) == r
            &&& all.skip(r.len() as int) == param_records(g, connector, map, end, bands)
            &&& end == bands ==> all == r
        }),
{
    let r = param_record(g, connector, map, band, bands);
    let all = param_records(g, connector, map, band, bands);
    let end = param_record_end(band, bands);
    assert(all.take(r.len() as int) =~= r);
    assert(all.skip(r.len() as int) =~= param_records(g, connector, map, end, bands));
    if end == bands {
        assert(all =~= r);
    }
}

} // verus!
