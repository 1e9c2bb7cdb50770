//! Little-endian fields and byte-buffer helpers.

use vstd::prelude::*;

verus! {

/// A 16-bit field, low byte first.
pub open spec fn le16(v: int) -> Seq<u8> {
    seq![(v % 256) as u8, ((v / 256) % 256) as u8]
}

/// A 32-bit field, low byte first.
pub open spec fn le32(v: int) -> Seq<u8> {
    seq![
        (v % 256) as u8,
        ((v / 256) % 256) as u8,
        ((v / 0x1_0000) % 256) as u8,
        ((v / 0x100_0000) % 256) as u8,
    ]
}

/// The 16-bit number at `at`.
pub open spec fn u16_at(s: Seq<u8>, at: int) -> int {
    s[at] + 256 * s[at + 1]
}

/// `n` zero bytes.
pub open spec fn zero_bytes(n: nat) -> Seq<u8> {
    Seq::new(n, |i: int| 0u8)
}

/// The even number at or above `n`.
pub open spec fn even(n: int) -> int {
    n + n % 2
}

/// A byte sequence with a zero appended where its length is odd.
pub open spec fn pad_even(s: Seq<u8>) -> Seq<u8> {
    s + zero_bytes((s.len() % 2) as nat)
}

/// Round a byte count up to an even number.
pub fn round_even(n: usize) -> (r: usize)
    requires
        even(n as int) <= usize::MAX,
    ensures
        r == even(n as int),
{
    n + n % 2
}

/// Append a byte sequence.
pub fn append(out: &mut Vec<u8>, s: &[u8])
    ensures
        final(out)@ == old(out)@ + s@,
{
    let mut i: usize = 0;
    while i < s.len()
        invariant
            i <= s@.len(),
            out@ == old(out)@ + s@.take(i as int),
        decreases s@.len() - i,
    {
        out.push(s[i]);
        i += 1;
        assert(out@ =~= old(out)@ + s@.take(i as int));
    }
    assert(out@ =~= old(out)@ + s@);
}

/// Append `n` zero bytes.
pub fn append_zeros(out: &mut Vec<u8>, n: usize)
    ensures
        final(out)@ == old(out)@ + zero_bytes(n as nat),
{
    let mut i: usize = 0;
    while i < n
        invariant
            i <= n,
            out@ == old(out)@ + zero_bytes(i as nat),
        decreases n - i,
    {
        out.push(0);
        i += 1;
        assert(out@ =~= old(out)@ + zero_bytes(i as nat));
    }
}

/// Append a 16-bit field.
pub fn append_u16(out: &mut Vec<u8>, v: u16)
    ensures
        final(out)@ == old(out)@ + le16(v as int),
{
    out.push((v % 256) as u8);
    out.push((v / 256) as u8);
    assert(out@ =~= old(out)@ + le16(v as int));
}

/// Append a 32-bit field.
pub fn append_u32(out: &mut Vec<u8>, v: u32)
    ensures
        final(out)@ == old(out)@ + le32(v as int),
{
    out.push((v % 256) as u8);
    out.push(((v / 256) % 256) as u8);
    out.push(((v / 0x1_0000) % 256) as u8);
    out.push((v / 0x100_0000) as u8);
    assert(out@ =~= old(out)@ + le32(v as int));
}

/// Read the 16-bit field at `at`.
pub fn read_u16(s: &[u8], at: usize) -> (v: u16)
    requires
        at + 1 < s@.len(),
    ensures
        v == u16_at(s@, at as int),
{
    s[at] as u16 + 256 * s[at + 1] as u16
}

/// The low sixteen bits of a count.
pub fn low_u16(n: usize) -> (v: u16)
    ensures
        v == n % 0x1_0000,
{
    (n % 0x1_0000) as u16
}

/// A number of two bytes is read back from them.
pub proof fn law_words_read_back(v: int)
    requires
        0 <= v < 0x1_0000,
    ensures
        le16(v).len() == 2,
        u16_at(le16(v), 0) == v,
{
}

/// A number of four bytes is read back from them, the lower half first.
pub proof fn law_long_words_read_back(v: int)
    requires
        0 <= v < 0x1_0000_0000,
    ensures
        le32(v).len() == 4,
        u16_at(le32(v), 0) + 0x1_0000 * u16_at(le32(v), 2) == v,
{
}

/// Bytes are padded to the next even length and no further, with zeros, and stand unchanged before
/// them.
pub proof fn law_padding_is_least(s: Seq<u8>)
    ensures
        pad_even(s).len() == even(s.len() as int),
        pad_even(s).len() % 2 == 0,
        s.len() <= pad_even(s).len() <= s.len() + 1,
        pad_even(s).take(s.len() as int) == s,
        forall|i: int| s.len() <= i < pad_even(s).len() ==> #[trigger] pad_even(s)[i] == 0,
{
    assert(pad_even(s).take(s.len() as int) =~= s);
}

} // verus!
