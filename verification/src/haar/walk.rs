//! Reading records and strips back off the bytes of a frame.

use vstd::prelude::*;

use crate::bytes;
use crate::bytes::read_u16;
use crate::haar::order;

verus! {

/// The stride of the record that starts at `off`, as its header states it.
pub open spec fn stride_at(chunk: Seq<u8>, off: int) -> int {
    bytes::u16_at(chunk, off + 2) + 4
}

/// Whether a whole record starts at `off`.
pub open spec fn record_starts(chunk: Seq<u8>, off: int) -> bool {
    &&& off + 16 <= chunk.len()
    &&& stride_at(chunk, off) >= 16
    &&& off + stride_at(chunk, off) <= chunk.len()
}

/// The records of a buffer from `off` on, up to the first thing that is not one.
pub open spec fn records_in(chunk: Seq<u8>, off: int) -> Seq<Seq<u8>>
    decreases chunk.len() - off,
{
    if 0 <= off && record_starts(chunk, off) {
        let next = off + stride_at(chunk, off);
        seq![chunk.subrange(off, next)] + records_in(chunk, next)
    } else {
        Seq::empty()
    }
}

/// The records of the first `n` buffers.
pub open spec fn all_records(chunks: Seq<Seq<u8>>, n: nat) -> Seq<Seq<u8>>
    decreases n,
{
    if n == 0 {
        Seq::empty()
    } else {
        all_records(chunks, (n - 1) as nat) + records_in(chunks[n - 1], 0)
    }
}

/// The lengths of the strips of a record from `at` on, up to its stated padding.
pub open spec fn strip_lengths(record: Seq<u8>, at: int) -> Seq<int>
    decreases record.len() - at,
{
    let payload = record.len() - bytes::u16_at(record, 10);
    if 0 <= at && at + 2 <= payload && bytes::u16_at(record, at) > 0 && at + 2 + bytes::u16_at(
        record,
        at,
    ) <= payload && payload <= record.len() {
        let len = bytes::u16_at(record, at);
        seq![len] + strip_lengths(record, at + 2 + len)
    } else {
        Seq::empty()
    }
}

/// The largest of a list of numbers, or zero.
pub open spec fn largest(s: Seq<int>) -> int
    decreases s.len(),
{
    if s.len() == 0 {
        0
    } else {
        let before = largest(s.drop_last());
        if s.last() > before {
            s.last()
        } else {
            before
        }
    }
}

/// The larger of two numbers.
pub open spec fn max2(a: int, b: int) -> int {
    if a > b {
        a
    } else {
        b
    }
}

/// The largest strip of the first `n` records.
pub open spec fn largest_strip(records: Seq<Seq<u8>>, n: nat) -> int
    decreases n,
{
    if n == 0 {
        0
    } else {
        max2(largest_strip(records, (n - 1) as nat), largest(strip_lengths(records[n - 1], 16)))
    }
}

/// The largest stride of the first `n` records.
pub open spec fn largest_stride(records: Seq<Seq<u8>>, n: nat) -> int
    decreases n,
{
    if n == 0 {
        0
    } else {
        max2(largest_stride(records, (n - 1) as nat), records[n - 1].len() as int)
    }
}

/// The largest strip of one record.
fn record_max_strip(record: &[u8]) -> (m: usize)
    requires
        record@.len() >= 16,
    ensures
        m == largest(strip_lengths(record@, 16)),
{
    let aux: usize = read_u16(record, 10) as usize;
    let ghost all = strip_lengths(record@, 16);
    let ghost mut seen: Seq<int> = Seq::empty();
    if aux > record.len() - 16 {
        return 0;
    }
    let payload: usize = record.len() - aux;
    let mut at: usize = 16;
    let mut max: usize = 0;
    let mut open: bool = true;
    proof {
        assert(all =~= seen + strip_lengths(record@, at as int));
    }
    while open
        invariant
            16 <= at <= payload <= record@.len(),
            payload == record@.len() - bytes::u16_at(record@, 10),
            all == strip_lengths(record@, 16),
            all == seen + strip_lengths(record@, at as int),
            max == largest(seen),
            !open ==> strip_lengths(record@, at as int) == Seq::<int>::empty(),
        decreases payload - at, (if open {
            1int
        } else {
            0int
        }),
    {
        if payload - at < 2 {
            open = false;
            assert(strip_lengths(record@, at as int) =~= Seq::<int>::empty());
        } else {
            let len: usize = read_u16(record, at) as usize;
            if len == 0 || payload - at - 2 < len {
                open = false;
                assert(strip_lengths(record@, at as int) =~= Seq::<int>::empty());
            } else {
                proof {
                    let rest = strip_lengths(record@, at + 2 + len);
                    assert(seen + (seq![len as int] + rest) =~= seen.push(len as int) + rest);
                    assert(seen.push(len as int).drop_last() =~= seen);
                    seen = seen.push(len as int);
                }
                if len > max {
                    max = len;
                }
                at = at + 2 + len;
            }
        }
    }
    assert(all =~= seen);
    max
}

/// The shape of an encoded frame, read back off the records themselves: how many records it
/// has, its largest stride and its largest strip.
pub fn record_stats(chunks: &[Vec<u8>]) -> (r: (usize, usize, usize))
    requires
        all_records(order::contents(chunks@), chunks@.len()).len() <= usize::MAX,
    ensures
        ({
            let records = all_records(order::contents(chunks@), chunks@.len());
            &&& r.0 == records.len()
            &&& r.1 == largest_stride(records, records.len())
            &&& r.2 == largest_strip(records, records.len())
        }),
{
    let ghost c = order::contents(chunks@);
    let mut records: usize = 0;
    let mut max_stride: usize = 0;
    let mut max_strip: usize = 0;
    let ghost mut seen: Seq<Seq<u8>> = Seq::empty();
    let mut k: usize = 0;
    while k < chunks.len()
        invariant
            k <= chunks@.len(),
            c == order::contents(chunks@),
            all_records(c, chunks@.len()).len() <= usize::MAX,
            seen == all_records(c, k as nat),
            records == seen.len(),
            max_stride == largest_stride(seen, seen.len()),
            max_strip == largest_strip(seen, seen.len()),
        decreases chunks@.len() - k,
    {
        let chunk: &Vec<u8> = &chunks[k];
        let ghost before = seen;
        proof {
            lemma_all_records_grow(c, (k + 1) as nat, chunks@.len());
            assert(c[k as int] == chunk@);
            assert(seen + records_in(chunk@, 0) == all_records(c, (k + 1) as nat));
        }
        let mut off: usize = 0;
        let mut open: bool = true;
        while open
            invariant
                off <= chunk@.len(),
                before + records_in(chunk@, 0) == seen + records_in(chunk@, off as int),
                (before + records_in(chunk@, 0)).len() <= usize::MAX,
                records == seen.len(),
                max_stride == largest_stride(seen, seen.len()),
                max_strip == largest_strip(seen, seen.len()),
                !open ==> records_in(chunk@, off as int) == Seq::<Seq<u8>>::empty(),
            decreases chunk@.len() - off, (if open {
                1int
            } else {
                0int
            }),
        {
            let left: usize = chunk.len() - off;
            if left < 16 {
                open = false;
                assert(records_in(chunk@, off as int) =~= Seq::<Seq<u8>>::empty());
            } else {
                let stride: usize = read_u16(chunk, off + 2) as usize + 4;
                if stride < 16 || left < stride {
                    open = false;
                    assert(records_in(chunk@, off as int) =~= Seq::<Seq<u8>>::empty());
                } else {
                    let record: &[u8] = vstd::slice::slice_subrange(
                        chunk.as_slice(),
                        off,
                        off + stride,
                    );
                    let strip: usize = record_max_strip(record);
                    proof {
                        let rest = records_in(chunk@, off + stride);
                        assert(seen + (seq![record@] + rest) =~= seen.push(record@) + rest);
                        lemma_largest_prefix(seen, record@);
                        seen = seen.push(record@);
                    }
                    if strip > max_strip {
                        max_strip = strip;
                    }
                    if stride > max_stride {
                        max_stride = stride;
                    }
                    records += 1;
                    off = off + stride;
                }
            }
        }
        assert(seen =~= before + records_in(chunk@, 0));
        k += 1;
    }
    (records, max_stride, max_strip)
}

/// More buffers hold no fewer records.
proof fn lemma_all_records_grow(chunks: Seq<Seq<u8>>, a: nat, b: nat)
    requires
        a <= b,
    ensures
        all_records(chunks, a).len() <= all_records(chunks, b).len(),
    decreases b,
{
    if a < b {
        lemma_all_records_grow(chunks, a, (b - 1) as nat);
    }
}

/// The maxima of a list with one record more.
proof fn lemma_largest_prefix(seen: Seq<Seq<u8>>, record: Seq<u8>)
    ensures
        largest_stride(seen.push(record), seen.len() + 1) == max2(
            largest_stride(seen, seen.len()),
            record.len() as int,
        ),
        largest_strip(seen.push(record), seen.len() + 1) == max2(
            largest_strip(seen, seen.len()),
            largest(strip_lengths(record, 16)),
        ),
{
    lemma_maxima_agree(seen, seen.push(record), seen.len());
}

/// The maxima over the first `n` records depend on those only.
proof fn lemma_maxima_agree(a: Seq<Seq<u8>>, b: Seq<Seq<u8>>, n: nat)
    requires
        n <= a.len(),
        n <= b.len(),
        forall|i: int| 0 <= i < n ==> a[i] == b[i],
    ensures
        largest_stride(a, n) == largest_stride(b, n),
        largest_strip(a, n) == largest_strip(b, n),
    decreases n,
{
    if n > 0 {
        lemma_maxima_agree(a, b, (n - 1) as nat);
    }
}

/// A strip's place and size on the wire.
#[derive(Clone, Copy, Debug, PartialEq, Eq, Structural)]
pub struct Extent {
    /// Its column.
    pub x: usize,
    /// Its row.
    pub y: usize,
    /// Its length in bytes.
    pub len: usize,
}

/// Whether a strip of the codec starts after the length field at `at` of a record.
pub open spec fn strip_starts(record: Seq<u8>, at: int) -> bool {
    &&& at + 2 <= record.len()
    &&& bytes::u16_at(record, at) >= 16
    &&& at + 2 + bytes::u16_at(record, at) <= record.len()
    &&& record[at + 2] == 0x01
    &&& record[at + 3] == 0x28
}

/// The strips of a record from `at` on, up to the first thing that is not one, such as the
/// record's padding.
pub open spec fn extents_in(record: Seq<u8>, at: int) -> Seq<Extent>
    decreases record.len() - at,
{
    if 0 <= at && strip_starts(record, at) {
        let len = bytes::u16_at(record, at);
        seq![
            Extent {
                x: bytes::u16_at(record, at + 4) as usize,
                y: bytes::u16_at(record, at + 6) as usize,
                len: len as usize,
            },
        ] + extents_in(record, at + 2 + len)
    } else {
        Seq::empty()
    }
}

/// The strips of the first `n` records.
pub open spec fn extents_of(records: Seq<Seq<u8>>, n: nat) -> Seq<Extent>
    decreases n,
{
    if n == 0 {
        Seq::empty()
    } else {
        extents_of(records, (n - 1) as nat) + extents_in(records[n - 1], 16)
    }
}

/// Append the strips of one record.
fn record_extents(record: &[u8], out: &mut Vec<Extent>)
    requires
        record@.len() >= 16,
    ensures
        final(out)@ == old(out)@ + extents_in(record@, 16),
{
    let ghost start = out@;
    let ghost all = extents_in(record@, 16);
    let mut at: usize = 16;
    let mut open: bool = true;
    while open
        invariant
            16 <= at <= record@.len(),
            start + all == out@ + extents_in(record@, at as int),
            !open ==> extents_in(record@, at as int) == Seq::<Extent>::empty(),
        decreases record@.len() - at, (if open {
            1int
        } else {
            0int
        }),
    {
        let left: usize = record.len() - at;
        if left < 2 {
            open = false;
            assert(extents_in(record@, at as int) =~= Seq::<Extent>::empty());
        } else {
            let len: usize = read_u16(record, at) as usize;
            if len < 16 || left - 2 < len || record[at + 2] != 0x01 || record[at + 3] != 0x28 {
                open = false;
                assert(extents_in(record@, at as int) =~= Seq::<Extent>::empty());
            } else {
                let e = Extent {
                    x: read_u16(record, at + 4) as usize,
                    y: read_u16(record, at + 6) as usize,
                    len,
                };
                proof {
                    let rest = extents_in(record@, at + 2 + len);
                    assert(out@ + (seq![e] + rest) =~= out@.push(e) + rest);
                }
                out.push(e);
                at = at + 2 + len;
            }
        }
    }
    assert(out@ =~= start + all);
}

/// Collect the place and length of every strip in an already-framed set of image records.
pub fn framed_strip_extents(frames: &[Vec<u8>]) -> (out: Vec<Extent>)
    ensures
        ({
            let records = all_records(order::contents(frames@), frames@.len());
            out@ == extents_of(records, records.len())
        }),
{
    let ghost c = order::contents(frames@);
    let mut out: Vec<Extent> = Vec::new();
    let ghost mut seen: Seq<Seq<u8>> = Seq::empty();
    let mut k: usize = 0;
    while k < frames.len()
        invariant
            k <= frames@.len(),
            c == order::contents(frames@),
            seen == all_records(c, k as nat),
            out@ == extents_of(seen, seen.len()),
        decreases frames@.len() - k,
    {
        let chunk: &Vec<u8> = &frames[k];
        let ghost before = seen;
        assert(c[k as int] == chunk@);
        let mut off: usize = 0;
        let mut open: bool = true;
        while open
            invariant
                off <= chunk@.len(),
                before + records_in(chunk@, 0) == seen + records_in(chunk@, off as int),
                out@ == extents_of(seen, seen.len()),
                !open ==> records_in(chunk@, off as int) == Seq::<Seq<u8>>::empty(),
            decreases chunk@.len() - off, (if open {
                1int
            } else {
                0int
            }),
        {
            let left: usize = chunk.len() - off;
            if left < 16 {
                open = false;
                assert(records_in(chunk@, off as int) =~= Seq::<Seq<u8>>::empty());
            } else {
                let stride: usize = read_u16(chunk, off + 2) as usize + 4;
                if stride < 16 || left < stride {
                    open = false;
                    assert(records_in(chunk@, off as int) =~= Seq::<Seq<u8>>::empty());
                } else {
                    let record: &[u8] = vstd::slice::slice_subrange(
                        chunk.as_slice(),
                        off,
                        off + stride,
                    );
                    record_extents(record, &mut out);
                    proof {
                        let rest = records_in(chunk@, off + stride);
                        assert(seen + (seq![record@] + rest) =~= seen.push(record@) + rest);
                        lemma_extents_agree(seen, seen.push(record@), seen.len());
                        seen = seen.push(record@);
                    }
                    off = off + stride;
                }
            }
        }
        assert(seen =~= before + records_in(chunk@, 0));
        k += 1;
    }
    out
}

/// The strips of the first `n` records depend on those only.
proof fn lemma_extents_agree(a: Seq<Seq<u8>>, b: Seq<Seq<u8>>, n: nat)
    requires
        n <= a.len(),
        n <= b.len(),
        forall|i: int| 0 <= i < n ==> a[i] == b[i],
    ensures
        extents_of(a, n) == extents_of(b, n),
    decreases n,
{
    if n > 0 {
        lemma_extents_agree(a, b, (n - 1) as nat);
    }
}

/// The bytes that strips of these lengths take in a record, with the length ahead of each.
pub open spec fn taken(lens: Seq<int>) -> int
    decreases lens.len(),
{
    if lens.len() == 0 {
        0
    } else {
        2 + lens[0] + taken(lens.skip(1))
    }
}

/// The strips measured in a record lie one after another from where the measuring starts, each as
/// long as it says, and end ahead of the record's padding.
pub proof fn law_measured_strips_end_ahead_of_the_padding(record: Seq<u8>, at: int)
    requires
        0 <= at,
    ensures
        ({
            let lens = strip_lengths(record, at);
            &&& lens.len() > 0 ==> lens[0] == bytes::u16_at(record, at) && at + taken(lens)
                <= record.len() - bytes::u16_at(record, 10)
            &&& lens.len() > 0 ==> lens.skip(1) == strip_lengths(record, at + 2 + lens[0])
            &&& forall|i: int| 0 <= i < lens.len() ==> #[trigger] lens[i] > 0
        }),
    decreases record.len() - at,
{
    let lens = strip_lengths(record, at);
    if lens.len() > 0 {
        let len = bytes::u16_at(record, at);
        law_measured_strips_end_ahead_of_the_padding(record, at + 2 + len);
        let rest = strip_lengths(record, at + 2 + len);
        assert(lens == seq![len] + rest);
        assert(lens.skip(1) =~= rest);
        assert forall|i: int| 0 <= i < lens.len() implies #[trigger] lens[i] > 0 by {
            if i > 0 {
                assert(lens[i] == rest[i - 1]);
            }
        }
    }
}

} // verus!
