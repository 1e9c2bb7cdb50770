//! What holds of every framed frame: its records are aligned and capped, it is refused exactly
//! for an over-long strip, and its strips read back off its bytes.

use vstd::prelude::*;

use crate::bytes;
use crate::haar::frame;
use crate::haar::geometry::Geometry;
use crate::haar::order;
use crate::haar::records;
use crate::haar::records::{CHUNK, STRIDE_CAP};
use crate::haar::sample;
use crate::haar::strip;
use crate::haar::walk;
use crate::haar::walk::Extent;

verus! {

/// Whether a byte sequence is one whole record: sixteen-byte aligned, within the stride cap, and
/// stating its own length.
pub open spec fn is_record(r: Seq<u8>) -> bool {
    &&& 16 <= r.len() <= STRIDE_CAP
    &&& r.len() % 16 == 0
    &&& bytes::u16_at(r, 2) + 4 == r.len()
}

/// The header fields of a record.
proof fn lemma_header(len: int, kind: int, sub: int, aux: int, seq: int)
    requires
        16 <= len <= STRIDE_CAP,
        0 <= aux < 0x1_0000,
    ensures
        ({
            let h = records::header_bytes(len, kind, sub, aux, seq);
            &&& h.len() == 16
            &&& bytes::u16_at(h, 2) == len - 4
            &&& bytes::u16_at(h, 10) == aux
        }),
{
    let h = records::header_bytes(len, kind, sub, aux, seq);
    let size = bytes::le16((len - 4) % 0x1_0000);
    let a = bytes::le16(aux);
    assert(h[2] == size[0] && h[3] == size[1]);
    assert(h[10] == a[0] && h[11] == a[1]);
}

/// A record ends after its start exactly where its first strip fits, and never past the cap.
proof fn lemma_record_end(
    g: Geometry,
    list: Seq<Seq<u8>>,
    ordinary: Option<bool>,
    start: int,
    i: int,
    len: int,
)
    requires
        0 <= start <= i <= list.len(),
        start < list.len(),
        len == 16 + records::record_body(list, start, i).len(),
        len + records::padding(len) <= STRIDE_CAP,
    ensures
        ({
            let end = records::record_end(g, list, ordinary, start, i, len);
            let grown = 16 + records::record_body(list, start, end).len();
            &&& i <= end <= list.len()
            &&& grown + records::padding(grown as int) <= STRIDE_CAP
            &&& i == start ==> (end == start <==> !fits(list[start]))
        }),
    decreases list.len() - i,
{
    if i < list.len() && records::joins(g, list, ordinary, start, i, len) {
        lemma_record_end(g, list, ordinary, start, i + 1, len + 2 + list[i].len());
    }
}

/// Whether a strip fits a record of its own.
pub open spec fn fits(s: Seq<u8>) -> bool {
    s.len() <= STRIDE_CAP - 18
}

/// A record of strips that end within the cap is a whole record.
proof fn lemma_record_bytes(g: Geometry, list: Seq<Seq<u8>>, connector: u8, from: int, to: int)
    requires
        ({
            let len = 16 + records::record_body(list, from, to).len();
            len + records::padding(len as int) <= STRIDE_CAP
        }),
    ensures
        ({
            let r = records::record_bytes(g, list, connector, from, to);
            let body = records::record_body(list, from, to);
            let pad = records::padding((16 + body.len()) as int);
            &&& is_record(r)
            &&& r.len() == 16 + body.len() + pad
            &&& bytes::u16_at(r, 10) == pad
            &&& r.subrange(16, (16 + body.len()) as int) == body
            &&& forall|k: int| 16 + body.len() <= k < r.len() ==> r[k] == 0
        }),
{
    let r = records::record_bytes(g, list, connector, from, to);
    let body = records::record_body(list, from, to);
    let pad = records::padding((16 + body.len()) as int);
    let sub = records::image_sub(g, connector, order::y_of(list[from])) as int;
    let h = records::header_bytes((16 + body.len() + pad) as int, 4, sub, pad, 0);
    lemma_header((16 + body.len() + pad) as int, 4, sub, pad, 0);
    assert(r == h + body + bytes::zero_bytes(pad as nat));
    assert(r[2] == h[2] && r[3] == h[3] && r[10] == h[10] && r[11] == h[11]);
    assert(r.subrange(16, (16 + body.len()) as int) =~= body);
}

/// Every record of a frame is aligned, capped, and states its own length.
pub proof fn law_records_are_aligned_and_capped(
    g: Geometry,
    list: Seq<Seq<u8>>,
    ordinary: Option<bool>,
    connector: u8,
    i: int,
)
    requires
        0 <= i <= list.len(),
    ensures
        records::records_from(g, list, ordinary, connector, i) matches Some(rs) ==> forall|k: int|
            0 <= k < rs.len() ==> is_record(#[trigger] rs[k]),
    decreases list.len() - i,
{
    if i < list.len() {
        let end = records::record_end(g, list, ordinary, i, i, 16);
        lemma_record_end(g, list, ordinary, i, i, 16);
        if i < end {
            law_records_are_aligned_and_capped(g, list, ordinary, connector, end);
            lemma_record_bytes(g, list, connector, i, end);
        }
    }
}

/// A frame is refused exactly where one of its strips does not fit a record of its own.
pub proof fn law_refused_exactly_for_an_over_long_strip(
    g: Geometry,
    list: Seq<Seq<u8>>,
    ordinary: Option<bool>,
    connector: u8,
    i: int,
)
    requires
        0 <= i <= list.len(),
    ensures
        records::records_from(g, list, ordinary, connector, i) is None <==> exists|k: int|
            i <= k < list.len() && !fits(#[trigger] list[k]),
    decreases list.len() - i,
{
    if i < list.len() {
        let end = records::record_end(g, list, ordinary, i, i, 16);
        lemma_record_end(g, list, ordinary, i, i, 16);
        if i < end {
            law_refused_exactly_for_an_over_long_strip(g, list, ordinary, connector, end);
            lemma_taken_strips_fit(list, i, end);
            assert forall|k: int| i <= k < list.len() && !fits(#[trigger] list[k]) implies end
                <= k by {}
        } else {
            assert(!fits(list[i]));
        }
    }
}

/// Strips that share a record within the cap each fit one.
proof fn lemma_taken_strips_fit(list: Seq<Seq<u8>>, from: int, to: int)
    requires
        from <= to,
        ({
            let len = 16 + records::record_body(list, from, to).len();
            len + records::padding(len as int) <= STRIDE_CAP
        }),
    ensures
        forall|k: int| from <= k < to ==> fits(#[trigger] list[k]),
    decreases to - from,
{
    if from < to {
        lemma_taken_strips_fit(list, from, to - 1);
    }
}

/// Records one after another.
pub open spec fn joined(rs: Seq<Seq<u8>>) -> Seq<u8>
    decreases rs.len(),
{
    if rs.len() == 0 {
        Seq::empty()
    } else {
        joined(rs.drop_last()) + rs.last()
    }
}

/// Joined records read back from the end of any of them.
proof fn lemma_joined_reads_back(rs: Seq<Seq<u8>>, k: int)
    requires
        0 <= k <= rs.len(),
        forall|i: int| 0 <= i < rs.len() ==> is_record(#[trigger] rs[i]),
    ensures
        walk::records_in(joined(rs), joined(rs.take(k)).len() as int) == rs.skip(k),
    decreases rs.len() - k,
{
    let all = joined(rs);
    let off = joined(rs.take(k)).len() as int;
    if k == rs.len() {
        assert(rs.take(k) =~= rs);
        assert(walk::records_in(all, off) =~= Seq::<Seq<u8>>::empty());
        assert(rs.skip(k) =~= Seq::<Seq<u8>>::empty());
    } else {
        let r = rs[k];
        assert(is_record(r));
        lemma_joined_place(rs, k);
        assert(rs.take(k + 1).drop_last() =~= rs.take(k));
        assert(joined(rs.take(k + 1)).len() == off + r.len());
        assert(all.subrange(off, off + r.len()) == r);
        assert(all[off + 2] == all.subrange(off, off + r.len())[2]);
        assert(all[off + 3] == all.subrange(off, off + r.len())[3]);
        lemma_joined_reads_back(rs, k + 1);
        assert(rs.skip(k) =~= seq![r] + rs.skip(k + 1));
    }
}

/// Where record `k` lies in the joined records.
proof fn lemma_joined_place(rs: Seq<Seq<u8>>, k: int)
    requires
        0 <= k < rs.len(),
    ensures
        ({
            let off = joined(rs.take(k)).len();
            &&& off + rs[k].len() <= joined(rs).len()
            &&& joined(rs).subrange(off as int, (off + rs[k].len()) as int) == rs[k]
        }),
    decreases rs.len(),
{
    let off = joined(rs.take(k)).len();
    if k == rs.len() - 1 {
        assert(rs.take(k) =~= rs.drop_last());
        assert(joined(rs).subrange(off as int, (off + rs[k].len()) as int) =~= rs[k]);
    } else {
        let front = rs.drop_last();
        assert(front.take(k) =~= rs.take(k));
        lemma_joined_place(front, k);
        assert(joined(rs).subrange(off as int, (off + rs[k].len()) as int) =~= joined(
            front,
        ).subrange(off as int, (off + rs[k].len()) as int));
    }
}

/// The buffers that records are gathered into: the open one joins the records after the `split`
/// first, which the full ones hold, and none passes the chunk size.
proof fn lemma_gather(rs: Seq<Seq<u8>>) -> (split: nat)
    requires
        forall|i: int| 0 <= i < rs.len() ==> is_record(#[trigger] rs[i]),
    ensures
        ({
            let c = records::gather(rs);
            &&& split <= rs.len()
            &&& c.open == joined(rs.skip(split as int))
            &&& (c.open.len() == 0 <==> rs.len() == 0)
            &&& c.open.len() <= CHUNK
            &&& walk::all_records(c.full, c.full.len()) == rs.take(split as int)
            &&& forall|k: int| 0 <= k < c.full.len() ==> (#[trigger] c.full[k]).len() <= CHUNK
        }),
    decreases rs.len(),
{
    if rs.len() == 0 {
        assert(rs.skip(0) =~= Seq::<Seq<u8>>::empty());
        assert(rs.take(0) =~= Seq::<Seq<u8>>::empty());
        0
    } else {
        let front = rs.drop_last();
        let r = rs.last();
        assert(is_record(rs[rs.len() - 1]));
        let before = lemma_gather(front);
        let c = records::gather(front);
        if c.open.len() > 0 && c.open.len() + r.len() > CHUNK {
            let next = records::gather(rs);
            let n = c.full.len();
            let segment = front.skip(before as int);
            assert forall|i: int| 0 <= i < segment.len() implies is_record(
                #[trigger] segment[i],
            ) by {
                assert(segment[i] == rs[before + i]);
            }
            lemma_joined_reads_back(segment, 0);
            assert(segment.take(0) =~= Seq::<Seq<u8>>::empty());
            assert(segment.skip(0) =~= segment);
            lemma_all_records_prefix(c.full, next.full, n);
            assert(next.full[n as int] == c.open);
            assert(walk::all_records(next.full, n + 1) == front.take(before as int) + segment);
            assert(front.take(before as int) + segment =~= rs.take(rs.len() - 1));
            assert(rs.skip(rs.len() - 1) =~= seq![r]);
            assert(seq![r].drop_last() =~= Seq::<Seq<u8>>::empty());
            assert(joined(seq![r]) =~= r);
            (rs.len() - 1) as nat
        } else {
            assert(rs.skip(before as int).drop_last() =~= front.skip(before as int));
            assert(rs.take(before as int) =~= front.take(before as int));
            before
        }
    }
}

/// The records of the first `n` buffers depend on those only.
proof fn lemma_all_records_prefix(a: Seq<Seq<u8>>, b: Seq<Seq<u8>>, n: nat)
    requires
        n <= a.len(),
        n <= b.len(),
        forall|i: int| 0 <= i < n ==> a[i] == b[i],
    ensures
        walk::all_records(a, n) == walk::all_records(b, n),
    decreases n,
{
    if n > 0 {
        lemma_all_records_prefix(a, b, (n - 1) as nat);
    }
}

/// Gathering loses nothing: the records read back off the buffers, each of which is within the
/// chunk size.
pub proof fn law_chunked_records_read_back(rs: Seq<Seq<u8>>)
    requires
        forall|i: int| 0 <= i < rs.len() ==> is_record(#[trigger] rs[i]),
    ensures
        walk::all_records(records::chunked(rs), records::chunked(rs).len()) == rs,
        forall|k: int|
            0 <= k < records::chunked(rs).len() ==> (#[trigger] records::chunked(rs)[k]).len()
                <= CHUNK,
        rs.len() == 0 <==> records::chunked(rs).len() == 0,
{
    let split = lemma_gather(rs);
    let c = records::gather(rs);
    if c.open.len() > 0 {
        let segment = rs.skip(split as int);
        assert forall|i: int| 0 <= i < segment.len() implies is_record(#[trigger] segment[i]) by {
            assert(segment[i] == rs[split + i]);
        }
        lemma_joined_reads_back(segment, 0);
        assert(segment.take(0) =~= Seq::<Seq<u8>>::empty());
        assert(segment.skip(0) =~= segment);
        let chunks = records::chunked(rs);
        lemma_all_records_prefix(c.full, chunks, c.full.len());
        assert(rs.take(split as int) + segment =~= rs);
    } else {
        assert(c.full.len() == 0);
        assert(rs =~= Seq::<Seq<u8>>::empty());
    }
}

/// Whether a byte sequence opens like a strip of the codec.
pub open spec fn is_strip(s: Seq<u8>) -> bool {
    16 <= s.len() < 0x1_0000 && s[0] == 0x01 && s[1] == 0x28
}

/// The place and length of a strip, as the strip states them.
pub open spec fn extent_of(s: Seq<u8>) -> Extent {
    Extent { x: order::x_of(s) as usize, y: order::y_of(s) as usize, len: s.len() as usize }
}

/// The places and lengths of strips `from..to`.
pub open spec fn extents(list: Seq<Seq<u8>>, from: int, to: int) -> Seq<Extent> {
    Seq::new((to - from) as nat, |i: int| extent_of(list[from + i]))
}

/// Where strip `k` of a record of strips `from..to` lies in the record's body.
proof fn lemma_body_place(list: Seq<Seq<u8>>, from: int, k: int, to: int)
    requires
        from <= k < to,
        list[k].len() < 0x1_0000,
    ensures
        ({
            let body = records::record_body(list, from, to);
            let off = records::record_body(list, from, k).len();
            let len = list[k].len();
            &&& records::record_body(list, from, k + 1).len() == off + 2 + len
            &&& off + 2 + len <= body.len()
            &&& bytes::u16_at(body, off as int) == len
            &&& body.subrange((off + 2) as int, (off + 2 + len) as int) == list[k]
        }),
    decreases to - from,
{
    let body = records::record_body(list, from, to);
    let off = records::record_body(list, from, k).len();
    let len = list[k].len();
    let field = bytes::le16(len as int);
    if k == to - 1 {
        let head = records::record_body(list, from, k);
        assert(body == head + (field + list[k]));
        assert(body[off as int] == field[0] && body[off as int + 1] == field[1]);
        assert(body.subrange((off + 2) as int, (off + 2 + len) as int) =~= list[k]);
    } else {
        lemma_body_place(list, from, k, to - 1);
        let inner = records::record_body(list, from, to - 1);
        assert(body[off as int] == inner[off as int] && body[off as int + 1] == inner[off as int + 1]);
        assert(body.subrange((off + 2) as int, (off + 2 + len) as int) =~= inner.subrange(
            (off + 2) as int,
            (off + 2 + len) as int,
        ));
    }
}

/// The strips of a record from strip `k` on read back off its bytes.
#[verifier::spinoff_prover]
#[verifier::rlimit(60)]
proof fn lemma_record_extents(
    g: Geometry,
    list: Seq<Seq<u8>>,
    connector: u8,
    from: int,
    k: int,
    to: int,
)
    requires
        from <= k <= to,
        forall|i: int| from <= i < to ==> is_strip(#[trigger] list[i]),
        ({
            let len = 16 + records::record_body(list, from, to).len();
            len + records::padding(len as int) <= STRIDE_CAP
        }),
    ensures
        ({
            let r = records::record_bytes(g, list, connector, from, to);
            let at = 16 + records::record_body(list, from, k).len();
            &&& walk::extents_in(r, at as int) == extents(list, k, to)
            &&& walk::strip_lengths(r, at as int) == Seq::new(
                (to - k) as nat,
                |i: int| list[k + i].len() as int,
            )
        }),
    decreases to - k,
{
    let r = records::record_bytes(g, list, connector, from, to);
    let body = records::record_body(list, from, to);
    let at = (16 + records::record_body(list, from, k).len()) as int;
    let lens = Seq::new((to - k) as nat, |i: int| list[k + i].len() as int);
    lemma_record_bytes(g, list, connector, from, to);
    if k == to {
        if at + 2 <= r.len() {
            assert(r[at] == 0 && r[at + 1] == 0);
        }
        assert(walk::extents_in(r, at) =~= extents(list, k, to));
        assert(walk::strip_lengths(r, at) =~= lens);
    } else {
        let s = list[k];
        assert(is_strip(list[k]));
        lemma_body_place(list, from, k, to);
        lemma_shifted(r, body, at - 16, s);
        lemma_record_extents(g, list, connector, from, k + 1, to);
        let rest = Seq::new((to - (k + 1)) as nat, |i: int| list[k + 1 + i].len() as int);
        assert(extents(list, k, to) =~= seq![extent_of(s)] + extents(list, k + 1, to));
        assert(lens =~= seq![s.len() as int] + rest);
    }
}

/// A strip in the body of a record lies sixteen bytes further on in the record.
proof fn lemma_shifted(r: Seq<u8>, body: Seq<u8>, off: int, s: Seq<u8>)
    requires
        16 + body.len() <= r.len(),
        r.subrange(16, (16 + body.len()) as int) == body,
        0 <= off,
        off + 2 + s.len() <= body.len(),
        bytes::u16_at(body, off) == s.len(),
        body.subrange(off + 2, (off + 2 + s.len()) as int) == s,
        is_strip(s),
    ensures
        bytes::u16_at(r, 16 + off) == s.len(),
        r[16 + off + 2] == 0x01,
        r[16 + off + 3] == 0x28,
        bytes::u16_at(r, 16 + off + 4) == order::x_of(s),
        bytes::u16_at(r, 16 + off + 6) == order::y_of(s),
{
    assert forall|i: int| 0 <= i < body.len() implies r[16 + i] == #[trigger] body[i] by {
        assert(r.subrange(16, (16 + body.len()) as int)[i] == body[i]);
    }
    assert forall|i: int| 0 <= i < s.len() implies body[off + 2 + i] == #[trigger] s[i] by {
        assert(body.subrange(off + 2, (off + 2 + s.len()) as int)[i] == s[i]);
    }
    assert(r[16 + off] == body[off] && r[16 + (off + 1)] == body[off + 1]);
    assert(r[16 + (off + 2 + 0)] == body[off + 2 + 0] && body[off + 2 + 0] == s[0]);
    assert(r[16 + (off + 2 + 1)] == body[off + 2 + 1] && body[off + 2 + 1] == s[1]);
    assert(r[16 + (off + 2 + 2)] == body[off + 2 + 2] && body[off + 2 + 2] == s[2]);
    assert(r[16 + (off + 2 + 3)] == body[off + 2 + 3] && body[off + 2 + 3] == s[3]);
    assert(r[16 + (off + 2 + 4)] == body[off + 2 + 4] && body[off + 2 + 4] == s[4]);
    assert(r[16 + (off + 2 + 5)] == body[off + 2 + 5] && body[off + 2 + 5] == s[5]);
}

/// The records from strip `i` on hold exactly the strips from `i` on.
proof fn lemma_records_hold_strips(
    g: Geometry,
    list: Seq<Seq<u8>>,
    ordinary: Option<bool>,
    connector: u8,
    i: int,
)
    requires
        0 <= i <= list.len(),
        forall|k: int| 0 <= k < list.len() ==> is_strip(#[trigger] list[k]),
    ensures
        records::records_from(g, list, ordinary, connector, i) matches Some(rs)
            ==> walk::extents_of(rs, rs.len()) == extents(list, i, list.len() as int)
            && walk::largest_strip(rs, rs.len()) == walk::largest(lengths(list, i)),
    decreases list.len() - i,
{
    if i < list.len() {
        let end = records::record_end(g, list, ordinary, i, i, 16);
        lemma_record_end(g, list, ordinary, i, i, 16);
        if i < end {
            lemma_records_hold_strips(g, list, ordinary, connector, end);
            if let Some(rest) = records::records_from(g, list, ordinary, connector, end) {
                let r = records::record_bytes(g, list, connector, i, end);
                lemma_record_extents(g, list, connector, i, i, end);
                lemma_extents_front(r, rest, rest.len());
                assert(extents(list, i, end) + extents(list, end, list.len() as int) =~= extents(
                    list,
                    i,
                    list.len() as int,
                ));
                let own = Seq::new((end - i) as nat, |k: int| list[i + k].len() as int);
                lemma_largest_joined(own, lengths(list, end));
                assert(own + lengths(list, end) =~= lengths(list, i));
            }
        }
    } else {
        assert(extents(list, i, list.len() as int) =~= Seq::<Extent>::empty());
        assert(lengths(list, i) =~= Seq::<int>::empty());
    }
}

/// The lengths of the strips from `i` on.
pub open spec fn lengths(list: Seq<Seq<u8>>, i: int) -> Seq<int> {
    Seq::new((list.len() - i) as nat, |k: int| list[i + k].len() as int)
}

/// A record in front of others adds its strips in front of theirs.
proof fn lemma_extents_front(r: Seq<u8>, rest: Seq<Seq<u8>>, n: nat)
    requires
        n <= rest.len(),
    ensures
        walk::extents_of(seq![r] + rest, n + 1) == walk::extents_in(r, 16) + walk::extents_of(
            rest,
            n,
        ),
        walk::largest_strip(seq![r] + rest, n + 1) == walk::max2(
            walk::largest(walk::strip_lengths(r, 16)),
            walk::largest_strip(rest, n),
        ),
    decreases n,
{
    let all = seq![r] + rest;
    if n == 0 {
        assert(walk::extents_of(all, 0) == Seq::<Extent>::empty());
        assert(all[0] == r);
        assert(walk::extents_of(all, 1) =~= walk::extents_in(r, 16));
        assert(walk::extents_in(r, 16) + walk::extents_of(rest, 0) =~= walk::extents_in(r, 16));
        assert(walk::largest_strip(all, 0) == 0);
        lemma_largest_nonneg(walk::strip_lengths(r, 16));
    } else {
        lemma_extents_front(r, rest, (n - 1) as nat);
        assert(all[n as int] == rest[n - 1]);
        let a = walk::extents_in(r, 16);
        let b = walk::extents_of(rest, (n - 1) as nat);
        let c = walk::extents_in(rest[n - 1], 16);
        assert(a + b + c =~= a + (b + c));
    }
}

/// The largest of a list is never negative.
proof fn lemma_largest_nonneg(s: Seq<int>)
    ensures
        0 <= walk::largest(s),
    decreases s.len(),
{
    if s.len() > 0 {
        lemma_largest_nonneg(s.drop_last());
    }
}

/// The largest of two lists together.
proof fn lemma_largest_joined(a: Seq<int>, b: Seq<int>)
    ensures
        walk::largest(a + b) == walk::max2(walk::largest(a), walk::largest(b)),
    decreases b.len(),
{
    if b.len() == 0 {
        assert(a + b =~= a);
        lemma_largest_nonneg(a);
    } else {
        assert((a + b).drop_last() =~= a + b.drop_last());
        lemma_largest_joined(a, b.drop_last());
    }
}

/// A framed frame reads back as exactly its strips: walking the bytes gives each strip's place
/// and length, in the order the frame carries them, and the largest of them.
pub proof fn law_framed_strips_read_back(
    g: Geometry,
    strips: Seq<Seq<u8>>,
    connector: u8,
    ordinary: Option<bool>,
)
    requires
        forall|k: int| 0 <= k < strips.len() ==> is_strip(#[trigger] strips[k]),
    ensures
        records::frame_spec(g, strips, connector, ordinary) matches Some(rs) ==> ({
            let list = records::ordered(strips, order::strip_order(g, strips, ordinary));
            let read = walk::all_records(records::chunked(rs), records::chunked(rs).len());
            &&& walk::extents_of(read, read.len()) == extents(list, 0, list.len() as int)
            &&& walk::largest_strip(read, read.len()) == walk::largest(lengths(list, 0))
            &&& walk::largest_stride(read, read.len()) <= STRIDE_CAP
        }),
{
    let ord = order::strip_order(g, strips, ordinary);
    let list = records::ordered(strips, ord);
    crate::haar::order_laws::law_strip_order_is_a_permutation(g, strips, ordinary);
    assert forall|k: int| 0 <= k < list.len() implies is_strip(#[trigger] list[k]) by {
        assert(0 <= ord[k] < strips.len());
    }
    lemma_records_hold_strips(g, list, ordinary, connector, 0);
    law_records_are_aligned_and_capped(g, list, ordinary, connector, 0);
    if let Some(rs) = records::frame_spec(g, strips, connector, ordinary) {
        law_chunked_records_read_back(rs);
        lemma_strides_capped(rs, rs.len());
    }
}

/// The largest stride of whole records is within the cap.
proof fn lemma_strides_capped(rs: Seq<Seq<u8>>, n: nat)
    requires
        n <= rs.len(),
        forall|i: int| 0 <= i < rs.len() ==> is_record(#[trigger] rs[i]),
    ensures
        walk::largest_stride(rs, n) <= STRIDE_CAP,
    decreases n,
{
    if n > 0 {
        lemma_strides_capped(rs, (n - 1) as nat);
        assert(is_record(rs[n - 1]));
    }
}

/// Whether every strip of `from..to` may share a record that begins with the first.
proof fn lemma_record_shares(
    g: Geometry,
    list: Seq<Seq<u8>>,
    ordinary: Option<bool>,
    start: int,
    i: int,
    len: int,
    j: int,
)
    requires
        0 <= start <= i <= list.len(),
        i <= j < records::record_end(g, list, ordinary, start, i, len),
    ensures
        g.band_parity_bit ==> order::y_of(list[j]) == order::y_of(list[start]),
        g.interlaced_bands && j > start ==> !records::producer_boundary(ordinary, j),
        j < list.len(),
    decreases list.len() - i,
{
    if i < list.len() && records::joins(g, list, ordinary, start, i, len) {
        if j > i {
            lemma_record_shares(
                g,
                list,
                ordinary,
                start,
                i + 1,
                len + 2 + list[i].len(),
                j,
            );
        }
    }
}

/// What the first of a run of records is, and where the next begins. It says that it is an image,
/// for which connector, and in which parity its band lies, and it holds at least one strip.
pub proof fn law_records_say_what_they_hold(
    g: Geometry,
    list: Seq<Seq<u8>>,
    ordinary: Option<bool>,
    connector: u8,
    i: int,
)
    requires
        0 <= i < list.len(),
        records::records_from(g, list, ordinary, connector, i) is Some,
    ensures
        ({
            let rs = records::records_from(g, list, ordinary, connector, i)->0;
            let end = records::record_end(g, list, ordinary, i, i, 16);
            let r = rs[0];
            let odd = g.band_parity_bit && (order::y_of(list[i]) / g.height()) % 2 == 1;
            &&& rs.len() > 0
            &&& i < end <= list.len()
            &&& r[4] == 4 && r[5] == 0 && r[6] == 0 && r[7] == 0
            &&& bytes::u16_at(r, 8) == (connector << g.connector_selector_shift) as u16 | (if odd {
                0x10u16
            } else {
                0
            }) | g.steady_sub_bit as u16
            &&& records::records_from(g, list, ordinary, connector, end) == Some(rs.skip(1))
        }),
{
    let rs = records::records_from(g, list, ordinary, connector, i)->0;
    let end = records::record_end(g, list, ordinary, i, i, 16);
    lemma_record_end(g, list, ordinary, i, i, 16);
    let r = records::record_bytes(g, list, connector, i, end);
    assert(rs[0] == r);
    assert(rs.skip(1) =~= records::records_from(g, list, ordinary, connector, end)->0);
    let body = records::record_body(list, i, end);
    let pad = records::padding((16 + body.len()) as int);
    let sub = records::image_sub(g, connector, order::y_of(list[i])) as int;
    let h = records::header_bytes((16 + body.len() + pad) as int, 4, sub, pad, 0);
    let kind = bytes::le32(4);
    let plane = bytes::le16(sub);
    assert(h[4] == kind[0] && h[5] == kind[1] && h[6] == kind[2] && h[7] == kind[3]);
    assert(h[8] == plane[0] && h[9] == plane[1]);
    assert(r[4] == h[4] && r[5] == h[5] && r[6] == h[6] && r[7] == h[7] && r[8] == h[8] && r[9]
        == h[9]);
}

/// What may share a record: on a dock that carries the parity of a band its strips all lie in one,
/// and on an interlaced one it stops where a producer flushes: before strips 1024, 2048 and 2764 of
/// a first frame, and 2032, 2048 and 2804 of a later one.
pub proof fn law_records_hold_one_band(
    g: Geometry,
    list: Seq<Seq<u8>>,
    ordinary: Option<bool>,
    i: int,
    j: int,
)
    requires
        0 <= i <= j < records::record_end(g, list, ordinary, i, i, 16),
        i < list.len(),
    ensures
        g.band_parity_bit ==> order::y_of(list[j]) == order::y_of(list[i]),
        g.interlaced_bands && i < j && ordinary == Some(false) ==> j != 1024 && j != 2048 && j
            != 2764,
        g.interlaced_bands && i < j && ordinary == Some(true) ==> j != 2032 && j != 2048 && j
            != 2804,
{
    lemma_record_shares(g, list, ordinary, i, i, 16, j);
}

/// A record ends only where it has to: the strip after it lies in another band, follows a flush, or
/// would take it past the stride cap.
pub proof fn law_records_are_filled(
    g: Geometry,
    list: Seq<Seq<u8>>,
    ordinary: Option<bool>,
    start: int,
)
    requires
        0 <= start < list.len(),
        records::record_end(g, list, ordinary, start, start, 16) < list.len(),
    ensures
        ({
            let end = records::record_end(g, list, ordinary, start, start, 16);
            let taken = 16 + records::record_body(list, start, end).len();
            ||| g.band_parity_bit && order::y_of(list[end]) != order::y_of(list[start])
            ||| g.interlaced_bands && records::producer_boundary(ordinary, end)
            ||| taken + 2 + list[end].len() > 0x0ff0
        }),
{
    lemma_filled(g, list, ordinary, start, start, 16);
}

proof fn lemma_filled(
    g: Geometry,
    list: Seq<Seq<u8>>,
    ordinary: Option<bool>,
    start: int,
    i: int,
    len: int,
)
    requires
        0 <= start <= i <= list.len(),
        len == 16 + records::record_body(list, start, i).len(),
        records::record_end(g, list, ordinary, start, i, len) < list.len(),
    ensures
        ({
            let end = records::record_end(g, list, ordinary, start, i, len);
            let taken = 16 + records::record_body(list, start, end).len();
            &&& i <= end
            &&& (g.band_parity_bit && order::y_of(list[end]) != order::y_of(list[start])) || (
            g.interlaced_bands && records::producer_boundary(ordinary, end)) || taken + 2
                + list[end].len() > 0x0ff0
        }),
    decreases list.len() - i,
{
    if records::joins(g, list, ordinary, start, i, len) {
        lemma_filled(g, list, ordinary, start, i + 1, len + 2 + list[i].len());
    }
}

/// A frame carries the strips of its picture, each with the place it was asked for.
pub proof fn law_frames_carry_their_picture(
    g: Geometry,
    image: spec_fn(int, int) -> (u16, u16, u16),
    list: Seq<(int, int)>,
    i: int,
)
    requires
        g.shaped(),
        0 <= i < list.len(),
        0 <= list[i].0 < 0x1_0000,
        0 <= list[i].1 < 0x1_0000,
    ensures
        frame::strips_of(g, image, list).len() == list.len(),
        frame::strips_of(g, image, list)[i] == sample::strip_at(g, image, list[i].0, list[i].1),
        order::x_of(frame::strips_of(g, image, list)[i]) == list[i].0,
        order::y_of(frame::strips_of(g, image, list)[i]) == list[i].1,
{
    strip::law_strip_states_its_position(
        g,
        sample::blocks_at(g, image, list[i].0, list[i].1),
        list[i].0 % 0x1_0000,
        list[i].1 % 0x1_0000,
    );
}

proof fn lemma_full_chunks(rs: Seq<Seq<u8>>)
    requires
        forall|i: int| 0 <= i < rs.len() ==> is_record(#[trigger] rs[i]),
    ensures
        forall|k: int|
            0 <= k < records::gather(rs).full.len() ==> 0x4000 - 0x0ff0 < (
            #[trigger] records::gather(rs).full[k]).len() <= 0x4000,
        records::gather(rs).open.len() <= 0x4000,
    decreases rs.len(),
{
    if rs.len() > 0 {
        let front = rs.drop_last();
        assert(is_record(rs[rs.len() - 1]));
        assert forall|i: int| 0 <= i < front.len() implies is_record(#[trigger] front[i]) by {
            assert(front[i] == rs[i]);
        }
        lemma_full_chunks(front);
        let c = records::gather(front);
        let d = records::gather(rs);
        assert forall|k: int| 0 <= k < d.full.len() implies 0x4000 - 0x0ff0 < (
        #[trigger] d.full[k]).len() <= 0x4000 by {
            if k < c.full.len() {
                assert(d.full[k] == c.full[k]);
            } else {
                assert(d.full[k] == c.open);
            }
        }
    }
}

/// A buffer of sixteen kibibytes is sent only when the next record does not fit it: all but the
/// last are full to within one record.
pub proof fn law_buffers_are_filled(rs: Seq<Seq<u8>>, k: int)
    requires
        forall|i: int| 0 <= i < rs.len() ==> is_record(#[trigger] rs[i]),
        0 <= k < records::chunked(rs).len(),
    ensures
        records::chunked(rs)[k].len() <= 0x4000,
        k + 1 < records::chunked(rs).len() ==> records::chunked(rs)[k].len() > 0x4000 - 0x0ff0,
{
    lemma_full_chunks(rs);
    let c = records::gather(rs);
    if k < c.full.len() {
        assert(records::chunked(rs)[k] == c.full[k]);
    }
}

} // verus!
