//! Framing strips into the records a frame is made of.

use vstd::prelude::*;

use crate::bytes;
use crate::error::Error;
use crate::haar::geometry::Geometry;
use crate::haar::order;
use crate::haar::order::{order_strips, strip_y};

verus! {

/// The largest stride a record may have.
pub const STRIDE_CAP: usize = 0x0ff0;

/// How many bytes of records are gathered in one buffer; an allocation boundary only.
pub const CHUNK: usize = 0x4000;

/// The sixteen-byte header of a record `len` bytes long: two zeroes, the stride less four, the
/// type, the plane, the auxiliary field and the sequence number.
pub open spec fn header_bytes(len: int, kind: int, sub: int, aux: int, seq: int) -> Seq<u8> {
    bytes::zero_bytes(2) + bytes::le16((len - 4) % 0x1_0000) + bytes::le32(kind) + bytes::le16(sub)
        + bytes::le16(aux) + bytes::le32(seq)
}

/// Write a record's header over its first sixteen bytes. `out` must be the whole record: its
/// length fixes the size field.
pub fn record_header(out: &mut [u8], kind: u32, sub: u16, aux: u16, seq: u32)
    requires
        old(out)@.len() >= 16,
    ensures
        final(out)@ == header_bytes(
            old(out)@.len() as int,
            kind as int,
            sub as int,
            aux as int,
            seq as int,
        ) + old(out)@.skip(16),
{
    let head: Vec<u8> = header(out.len(), kind, sub, aux, seq);
    let ghost start = out@;
    let mut i: usize = 0;
    while i < 16
        invariant
            i <= 16,
            head@.len() == 16,
            start.len() >= 16,
            out@ =~= head@.take(i as int) + start.skip(i as int),
        decreases 16 - i,
    {
        out[i] = head[i];
        i += 1;
    }
    assert(head@.take(16) =~= head@);
}

/// Build a record's header; see [`header_bytes`].
fn header(len: usize, kind: u32, sub: u16, aux: u16, seq: u32) -> (head: Vec<u8>)
    requires
        len >= 16,
    ensures
        head@ == header_bytes(len as int, kind as int, sub as int, aux as int, seq as int),
        head@.len() == 16,
{
    let mut head: Vec<u8> = Vec::new();
    bytes::append_zeros(&mut head, 2);
    assert(head@ =~= bytes::zero_bytes(2));
    bytes::append_u16(&mut head, bytes::low_u16(len - 4));
    bytes::append_u32(&mut head, kind);
    bytes::append_u16(&mut head, sub);
    bytes::append_u16(&mut head, aux);
    bytes::append_u32(&mut head, seq);
    head
}

/// Zero bytes that bring a length to a multiple of sixteen.
pub open spec fn padding(len: int) -> int {
    (16 - len % 16) % 16
}

/// Whether a producer flushes its record before strip `i` of the frame.
pub open spec fn producer_boundary(ordinary: Option<bool>, i: int) -> bool {
    match ordinary {
        Some(false) => i == 1024 || i == 2048 || i == 2764,
        Some(true) => i == 2032 || i == 2048 || i == 2804,
        None => false,
    }
}

/// Whether strip `i` can join a record that began with strip `start` and is `len` bytes long.
///
/// It cannot where the record carries a band parity and the strip lies in another band, where a
/// producer flushes before it, or where the padded record would pass the stride cap.
pub open spec fn joins(
    g: Geometry,
    list: Seq<Seq<u8>>,
    ordinary: Option<bool>,
    start: int,
    i: int,
    len: int,
) -> bool {
    let grown = len + 2 + list[i].len();
    &&& g.band_parity_bit ==> order::y_of(list[i]) == order::y_of(list[start])
    &&& !(g.interlaced_bands && i > start && producer_boundary(ordinary, i))
    &&& grown + padding(grown) <= STRIDE_CAP
}

/// The strip after the last one of the record that began with strip `start`, of which the
/// strips before `i` take `len` bytes already.
pub open spec fn record_end(
    g: Geometry,
    list: Seq<Seq<u8>>,
    ordinary: Option<bool>,
    start: int,
    i: int,
    len: int,
) -> int
    decreases list.len() - i,
{
    if i < list.len() && joins(g, list, ordinary, start, i, len) {
        record_end(g, list, ordinary, start, i + 1, len + 2 + list[i].len())
    } else {
        i
    }
}

/// The body of a record of strips `from..to`: each strip after its length.
pub open spec fn record_body(list: Seq<Seq<u8>>, from: int, to: int) -> Seq<u8>
    decreases to - from,
{
    if to <= from {
        Seq::empty()
    } else {
        record_body(list, from, to - 1) + (bytes::le16(list[to - 1].len() as int) + list[to - 1])
    }
}

/// The plane of an image record: its connector, the parity of its band where the dock carries
/// it, and the steady-state bits.
pub open spec fn image_sub(g: Geometry, connector: u8, y: int) -> u16 {
    let parity: u16 = if g.band_parity_bit && (y / g.height()) % 2 == 1 {
        0x10
    } else {
        0
    };
    (g.selector(connector) as u16) | parity | (g.steady_sub_bit as u16)
}

/// The record of strips `from..to`, padded to a multiple of sixteen with its padding counted in
/// the auxiliary field.
pub open spec fn record_bytes(
    g: Geometry,
    list: Seq<Seq<u8>>,
    connector: u8,
    from: int,
    to: int,
) -> Seq<u8> {
    let body = record_body(list, from, to);
    let pad = padding((16 + body.len()) as int);
    header_bytes(
        16 + body.len() + pad,
        4,
        image_sub(g, connector, order::y_of(list[from])) as int,
        pad,
        0,
    ) + body + bytes::zero_bytes(pad as nat)
}

/// The records that carry the strips from `i` on, or `None` where a strip is too long for any.
pub open spec fn records_from(
    g: Geometry,
    list: Seq<Seq<u8>>,
    ordinary: Option<bool>,
    connector: u8,
    i: int,
) -> Option<Seq<Seq<u8>>>
    decreases list.len() - i,
{
    if i >= list.len() {
        Some(Seq::empty())
    } else {
        let end = record_end(g, list, ordinary, i, i, 16);
        if i < end && end <= list.len() {
            match records_from(g, list, ordinary, connector, end) {
                None => None,
                Some(rest) => Some(seq![record_bytes(g, list, connector, i, end)] + rest),
            }
        } else {
            None
        }
    }
}

/// Records gathered into buffers: the full ones, and the one being filled.
pub struct Chunks {
    /// The full buffers.
    pub full: Seq<Seq<u8>>,
    /// The buffer being filled.
    pub open: Seq<u8>,
}

/// Gather records, starting a new buffer where the next one would pass [`CHUNK`].
pub open spec fn gather(records: Seq<Seq<u8>>) -> Chunks
    decreases records.len(),
{
    if records.len() == 0 {
        Chunks { full: Seq::empty(), open: Seq::empty() }
    } else {
        let c = gather(records.drop_last());
        let r = records.last();
        if c.open.len() > 0 && c.open.len() + r.len() > CHUNK {
            Chunks { full: c.full.push(c.open), open: r }
        } else {
            Chunks { full: c.full, open: c.open + r }
        }
    }
}

/// The buffers of a gathered record list.
pub open spec fn chunked(records: Seq<Seq<u8>>) -> Seq<Seq<u8>> {
    let c = gather(records);
    if c.open.len() > 0 {
        c.full.push(c.open)
    } else {
        c.full
    }
}

/// The strips of a frame in the order it carries them.
pub open spec fn ordered(strips: Seq<Seq<u8>>, ord: Seq<int>) -> Seq<Seq<u8>> {
    Seq::new(ord.len(), |i: int| strips[ord[i]])
}

/// The records of a frame, or `None` where a strip is too long for a record of its own.
pub open spec fn frame_spec(
    g: Geometry,
    strips: Seq<Seq<u8>>,
    connector: u8,
    ordinary: Option<bool>,
) -> Option<Seq<Seq<u8>>> {
    records_from(
        g,
        ordered(strips, order::strip_order(g, strips, ordinary)),
        ordinary,
        connector,
        0,
    )
}

/// Whether strip `i` joins the record; see [`joins`].
fn strip_joins(
    g: Geometry,
    strips: &[Vec<u8>],
    ord: &[usize],
    ordinary: Option<bool>,
    start: usize,
    i: usize,
    len: usize,
) -> (r: bool)
    requires
        g.wf(),
        order::placed(order::contents(strips@)),
        forall|k: int| 0 <= k < ord@.len() ==> (#[trigger] ord@[k]) < strips@.len(),
        start <= i < ord@.len(),
        len <= STRIDE_CAP,
    ensures
        r == joins(
            g,
            ordered(order::contents(strips@), order::indices(ord@)),
            ordinary,
            start as int,
            i as int,
            len as int,
        ),
{
    let ghost c = order::contents(strips@);
    let at: usize = ord[i];
    let first: usize = ord[start];
    assert(c[at as int].len() >= 6 && c[first as int].len() >= 6);
    let s: &Vec<u8> = &strips[at];
    if g.band_parity_bit && strip_y(s) != strip_y(&strips[first]) {
        return false;
    }
    let boundary: bool = match ordinary {
        Some(false) => i == 1024 || i == 2048 || i == 2764,
        Some(true) => i == 2032 || i == 2048 || i == 2804,
        None => false,
    };
    if g.interlaced_bands && i > start && boundary {
        return false;
    }
    if s.len() > STRIDE_CAP {
        return false;
    }
    let grown: usize = len + 2 + s.len();
    grown + (16 - grown % 16) % 16 <= STRIDE_CAP
}

/// Build the record that begins with strip `start`; its end is that of [`record_end`].
fn fill_record(
    g: Geometry,
    strips: &[Vec<u8>],
    ord: &[usize],
    ordinary: Option<bool>,
    connector: u8,
    start: usize,
) -> (r: (Vec<u8>, usize))
    requires
        g.wf(),
        order::placed(order::contents(strips@)),
        forall|k: int| 0 <= k < ord@.len() ==> (#[trigger] ord@[k]) < strips@.len(),
        start < ord@.len(),
    ensures
        ({
            let list = ordered(order::contents(strips@), order::indices(ord@));
            &&& r.1 == record_end(g, list, ordinary, start as int, start as int, 16)
            &&& start <= r.1 <= ord@.len()
            &&& r.0@ == record_bytes(g, list, connector, start as int, r.1 as int)
        }),
{
    let ghost list = ordered(order::contents(strips@), order::indices(ord@));
    let ghost c = order::contents(strips@);
    let first: usize = ord[start];
    assert(c[first as int].len() >= 6);
    let y: u16 = strip_y(&strips[first]);
    let mut record: Vec<u8> = Vec::new();
    bytes::append_zeros(&mut record, 16);
    let mut i: usize = start;
    assert(record@ =~= bytes::zero_bytes(16) + record_body(list, start as int, i as int));
    let mut open: bool = true;
    while open && i < ord.len()
        invariant
            g.wf(),
            c == order::contents(strips@),
            order::placed(c),
            list == ordered(c, order::indices(ord@)),
            forall|k: int| 0 <= k < ord@.len() ==> (#[trigger] ord@[k]) < strips@.len(),
            start <= i <= ord@.len(),
            start < ord@.len(),
            16 <= record@.len() <= STRIDE_CAP,
            record@ == bytes::zero_bytes(16) + record_body(list, start as int, i as int),
            record_end(g, list, ordinary, start as int, start as int, 16) == record_end(
                g,
                list,
                ordinary,
                start as int,
                i as int,
                record@.len() as int,
            ),
            !open ==> (i < list.len() && !joins(
                g,
                list,
                ordinary,
                start as int,
                i as int,
                record@.len() as int,
            )),
        decreases ord@.len() - i, (if open {
            1int
        } else {
            0int
        }),
    {
        if strip_joins(g, strips, ord, ordinary, start, i, record.len()) {
            let at: usize = ord[i];
            let s: &Vec<u8> = &strips[at];
            assert(list[i as int] == s@);
            bytes::append_u16(&mut record, s.len() as u16);
            bytes::append(&mut record, s);
            i += 1;
            assert(record@ =~= bytes::zero_bytes(16) + record_body(list, start as int, i as int));
        } else {
            open = false;
        }
    }
    let ghost body = record_body(list, start as int, i as int);
    let pad: usize = (16 - record.len() % 16) % 16;
    bytes::append_zeros(&mut record, pad);
    let parity: u16 = if g.band_parity_bit && (y / (g.strip_h() as u16)) % 2 == 1 {
        0x10
    } else {
        0
    };
    let sub: u16 = (g.connector_selector(connector) as u16) | parity | (g.steady_sub_bit as u16);
    record_header(record.as_mut_slice(), 4, sub, pad as u16, 0);
    assert((bytes::zero_bytes(16) + body + bytes::zero_bytes(pad as nat)).skip(16) =~= body
        + bytes::zero_bytes(pad as nat));
    assert(record@ =~= record_bytes(g, list, connector, start as int, i as int));
    (record, i)
}

/// Frame strips into records with the producer order and boundaries the caller asks for.
///
/// A strip too long for a record of its own refuses the whole frame with [`Error::EOVERFLOW`];
/// otherwise the records are those of [`frame_spec`], gathered into buffers.
pub fn frame_records_with_boundary(
    geometry: Geometry,
    strips: &[Vec<u8>],
    connector: u8,
    navarro_ordinary: Option<bool>,
) -> (r: Result<Vec<Vec<u8>>, Error>)
    requires
        geometry.wf(),
        order::placed(order::contents(strips@)),
    ensures
        match frame_spec(geometry, order::contents(strips@), connector, navarro_ordinary) {
            Some(records) => r matches Ok(f) && order::contents(f@) == chunked(records),
            None => r == Err::<Vec<Vec<u8>>, Error>(Error::EOVERFLOW),
        },
{
    let ord: Vec<usize> = order_strips(geometry, strips, navarro_ordinary);
    let ghost c = order::contents(strips@);
    let ghost list = ordered(c, order::indices(ord@));
    proof {
        crate::haar::order_laws::law_strip_order_is_a_permutation(geometry, c, navarro_ordinary);
        assert forall|k: int| 0 <= k < ord@.len() implies (#[trigger] ord@[k]) < strips@.len() by {
            assert(order::indices(ord@)[k] < strips@.len());
        }
    }
    let mut frames: Vec<Vec<u8>> = Vec::new();
    let mut chunk: Vec<u8> = Vec::new();
    let ghost mut done: Seq<Seq<u8>> = Seq::empty();
    let mut i: usize = 0;
    assert(order::contents(frames@) =~= Seq::<Seq<u8>>::empty());
    proof {
        match records_from(geometry, list, navarro_ordinary, connector, 0) {
            Some(rest) => {
                assert(done + rest =~= rest);
            },
            None => {},
        }
    }
    while i < ord.len()
        invariant
            geometry.wf(),
            c == order::contents(strips@),
            order::placed(c),
            list == ordered(c, order::indices(ord@)),
            forall|k: int| 0 <= k < ord@.len() ==> (#[trigger] ord@[k]) < strips@.len(),
            i <= ord@.len(),
            gather(done) == (Chunks { full: order::contents(frames@), open: chunk@ }),
            match records_from(geometry, list, navarro_ordinary, connector, i as int) {
                Some(rest) => records_from(geometry, list, navarro_ordinary, connector, 0) == Some(
                    done + rest,
                ),
                None => records_from(geometry, list, navarro_ordinary, connector, 0) is None,
            },
            frame_spec(geometry, c, connector, navarro_ordinary) == records_from(
                geometry,
                list,
                navarro_ordinary,
                connector,
                0,
            ),
        decreases ord@.len() - i,
    {
        let (record, end) = fill_record(
            geometry,
            strips,
            ord.as_slice(),
            navarro_ordinary,
            connector,
            i,
        );
        if end == i {
            return Err(Error::EOVERFLOW);
        }
        let ghost before = done;
        proof {
            done = done.push(record@);
            assert(done.drop_last() =~= before);
            match records_from(geometry, list, navarro_ordinary, connector, end as int) {
                Some(rest) => {
                    assert(before + (seq![record@] + rest) =~= done + rest);
                },
                None => {},
            }
        }
        if chunk.len() > 0 && (chunk.len() > CHUNK || record.len() > CHUNK || chunk.len()
            + record.len() > CHUNK) {
            let ghost so_far = frames@;
            let ghost opened = chunk@;
            frames.push(chunk);
            assert(order::contents(frames@) =~= order::contents(so_far).push(opened));
            chunk = Vec::new();
            bytes::append(&mut chunk, &record);
            assert(chunk@ =~= record@);
        } else {
            bytes::append(&mut chunk, &record);
        }
        i = end;
    }
    proof {
        let rest = Seq::<Seq<u8>>::empty();
        assert(done + rest =~= done);
    }
    if chunk.len() > 0 {
        let ghost so_far = frames@;
        let ghost opened = chunk@;
        frames.push(chunk);
        assert(order::contents(frames@) =~= order::contents(so_far).push(opened));
    }
    Ok(frames)
}

/// Frame raster-ordered strips with no producer boundaries.
pub fn frame_records(geometry: Geometry, strips: &[Vec<u8>], connector: u8) -> (r: Result<
    Vec<Vec<u8>>,
    Error,
>)
    requires
        geometry.wf(),
        order::placed(order::contents(strips@)),
    ensures
        match frame_spec(geometry, order::contents(strips@), connector, None) {
            Some(records) => r matches Ok(f) && order::contents(f@) == chunked(records),
            None => r == Err::<Vec<Vec<u8>>, Error>(Error::EOVERFLOW),
        },
{
    frame_records_with_boundary(geometry, strips, connector, None)
}

/// Frame a live surface with the ordinary producer order, which is known for exactly 3600
/// strips; any other count falls back to the generic order.
pub fn frame_records_navarro_ordinary(
    geometry: Geometry,
    strips: &[Vec<u8>],
    connector: u8,
) -> (r: Result<Vec<Vec<u8>>, Error>)
    requires
        geometry.wf(),
        order::placed(order::contents(strips@)),
    ensures
        match frame_spec(
            geometry,
            order::contents(strips@),
            connector,
            if strips@.len() == 3600 {
                Some(true)
            } else {
                None
            },
        ) {
            Some(records) => r matches Ok(f) && order::contents(f@) == chunked(records),
            None => r == Err::<Vec<Vec<u8>>, Error>(Error::EOVERFLOW),
        },
{
    let ordinary: Option<bool> = if strips.len() == 3600 {
        Some(true)
    } else {
        None
    };
    frame_records_with_boundary(geometry, strips, connector, ordinary)
}

} // verus!
