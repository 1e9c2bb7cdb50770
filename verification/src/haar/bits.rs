//! Bit sequences, their byte packing, and the accumulator that builds them.

use vstd::prelude::*;

verus! {

/// One bit as a number.
pub open spec fn bit_value(b: bool) -> int {
    if b {
        1
    } else {
        0
    }
}

/// The bit at `i`, or zero past the end.
pub open spec fn bit_or_zero(bits: Seq<bool>, i: int) -> int {
    if 0 <= i < bits.len() {
        bit_value(bits[i])
    } else {
        0
    }
}

/// The byte that holds `bits[at..at + 8]`, least significant bit first and zero-padded.
pub open spec fn byte_at(bits: Seq<bool>, at: int) -> u8 {
    (bit_or_zero(bits, at) + 2 * bit_or_zero(bits, at + 1) + 4 * bit_or_zero(bits, at + 2) + 8
        * bit_or_zero(bits, at + 3) + 16 * bit_or_zero(bits, at + 4) + 32 * bit_or_zero(
        bits,
        at + 5,
    ) + 64 * bit_or_zero(bits, at + 6) + 128 * bit_or_zero(bits, at + 7)) as u8
}

/// Bits packed into bytes, least significant bit first, the last byte padded with zeroes.
pub open spec fn pack(bits: Seq<bool>) -> Seq<u8> {
    Seq::new(((bits.len() + 7) / 8) as nat, |k: int| byte_at(bits, 8 * k))
}

/// Bit `j` of a byte.
pub open spec fn byte_bit(b: u8, j: int) -> bool {
    (b >> (j as u8)) & 1 == 1
}

/// The bits of a byte sequence, least significant bit of each byte first.
pub open spec fn unpack(bytes: Seq<u8>) -> Seq<bool> {
    Seq::new(8 * bytes.len(), |i: int| byte_bit(bytes[i / 8], i % 8))
}

/// Bit `j` of a 64-bit word.
pub open spec fn word_bit(w: u64, j: int) -> bool {
    (w >> (j as u64)) & 1 == 1
}

/// The low `n` bits of a word, least significant first.
pub open spec fn word_bits(w: u64, n: nat) -> Seq<bool> {
    Seq::new(n, |j: int| word_bit(w, j))
}

/// A byte is the sum of its bits.
proof fn lemma_byte_from_bits(x: u8)
    ensures
        x == bit_value(byte_bit(x, 0)) + 2 * bit_value(byte_bit(x, 1)) + 4 * bit_value(
            byte_bit(x, 2),
        ) + 8 * bit_value(byte_bit(x, 3)) + 16 * bit_value(byte_bit(x, 4)) + 32 * bit_value(
            byte_bit(x, 5),
        ) + 64 * bit_value(byte_bit(x, 6)) + 128 * bit_value(byte_bit(x, 7)),
{
    assert(x == (x & 1) + 2 * ((x >> 1) & 1) + 4 * ((x >> 2) & 1) + 8 * ((x >> 3) & 1) + 16 * ((x
        >> 4) & 1) + 32 * ((x >> 5) & 1) + 64 * ((x >> 6) & 1) + 128 * ((x >> 7) & 1) && (x >> 0)
        == x && (x & 1) <= 1 && ((x >> 1) & 1) <= 1 && ((x >> 2) & 1) <= 1 && ((x >> 3) & 1) <= 1
        && ((x >> 4) & 1) <= 1 && ((x >> 5) & 1) <= 1 && ((x >> 6) & 1) <= 1 && ((x >> 7) & 1)
        <= 1) by (bit_vector);
}

/// The bits of a packed byte are the bits packed, and zero past the end.
proof fn lemma_byte_at_bits(bits: Seq<bool>, at: int, j: int)
    requires
        0 <= at,
        0 <= j < 8,
    ensures
        byte_bit(byte_at(bits, at), j) == (bit_or_zero(bits, at + j) == 1),
{
    let b0 = bit_or_zero(bits, at) as u8;
    let b1 = bit_or_zero(bits, at + 1) as u8;
    let b2 = bit_or_zero(bits, at + 2) as u8;
    let b3 = bit_or_zero(bits, at + 3) as u8;
    let b4 = bit_or_zero(bits, at + 4) as u8;
    let b5 = bit_or_zero(bits, at + 5) as u8;
    let b6 = bit_or_zero(bits, at + 6) as u8;
    let b7 = bit_or_zero(bits, at + 7) as u8;
    let x = byte_at(bits, at);
    assert(x == b0 + 2 * b1 + 4 * b2 + 8 * b3 + 16 * b4 + 32 * b5 + 64 * b6 + 128 * b7);
    assert((x >> 0u8) & 1 == b0 && (x >> 1u8) & 1 == b1 && (x >> 2u8) & 1 == b2 && (x >> 3u8) & 1
        == b3 && (x >> 4u8) & 1 == b4 && (x >> 5u8) & 1 == b5 && (x >> 6u8) & 1 == b6 && (x >> 7u8)
        & 1 == b7) by (bit_vector)
        requires
            b0 <= 1,
            b1 <= 1,
            b2 <= 1,
            b3 <= 1,
            b4 <= 1,
            b5 <= 1,
            b6 <= 1,
            b7 <= 1,
            x == b0 + 2 * b1 + 4 * b2 + 8 * b3 + 16 * b4 + 32 * b5 + 64 * b6 + 128 * b7,
    ;
}

/// Packing loses nothing: unpacking gives the bits back, followed by the zero padding.
pub proof fn law_unpack_inverts_pack(bits: Seq<bool>)
    ensures
        unpack(pack(bits)).len() == 8 * ((bits.len() + 7) / 8),
        unpack(pack(bits)).take(bits.len() as int) == bits,
        forall|i: int|
            bits.len() <= i < unpack(pack(bits)).len() ==> !#[trigger] unpack(pack(bits))[i],
{
    assert forall|i: int| 0 <= i < unpack(pack(bits)).len() implies #[trigger] unpack(
        pack(bits),
    )[i] == (bit_or_zero(bits, i) == 1) by {
        lemma_byte_at_bits(bits, 8 * (i / 8), i % 8);
    }
    assert(unpack(pack(bits)).take(bits.len() as int) =~= bits);
}

/// Bytes whose bits are `bits` followed by zeroes are the packing of `bits`.
proof fn lemma_pack_unique(bits: Seq<bool>, bytes: Seq<u8>)
    requires
        bytes.len() == (bits.len() + 7) / 8,
        forall|i: int|
            0 <= i < 8 * bytes.len() ==> #[trigger] unpack(bytes)[i] == (bit_or_zero(bits, i) == 1),
    ensures
        bytes == pack(bits),
{
    assert forall|k: int| 0 <= k < bytes.len() implies bytes[k] == #[trigger] pack(bits)[k] by {
        lemma_byte_from_bits(bytes[k]);
        assert forall|j: int| 0 <= j < 8 implies bit_value(#[trigger] byte_bit(bytes[k], j))
            == bit_or_zero(bits, 8 * k + j) by {
            assert((8 * k + j) / 8 == k && (8 * k + j) % 8 == j);
            assert(unpack(bytes)[8 * k + j] == byte_bit(bytes[k], j));
        }
    }
    assert(bytes =~= pack(bits));
}

/// Setting a clear bit of a word changes that bit only.
proof fn lemma_set_bit(w: u64, n: u64, b: u64, j: u64)
    requires
        n < 64,
        j < 64,
        b <= 1,
        (w >> n) & 1 == 0,
    ensures
        ((w | (b << n)) >> j) & 1 == (if j == n {
            b
        } else {
            (w >> j) & 1
        }),
{
    assert(((w | (b << n)) >> j) & 1 == (if j == n {
        b
    } else {
        (w >> j) & 1
    })) by (bit_vector)
        requires
            n < 64,
            j < 64,
            b <= 1,
            (w >> n) & 1 == 0,
    ;
}

/// Byte `k` of a word holds its bits from `8 * k`.
proof fn lemma_word_byte(w: u64, k: u64, j: u64)
    requires
        k < 8,
        j < 8,
    ensures
        byte_bit((w >> (8 * k) as u64) as u8, j as int) == word_bit(w, 8 * k + j),
{
    let s: u64 = (8 * k) as u64;
    let t: u64 = (8 * k + j) as u64;
    let jj: u8 = j as u8;
    let byte: u8 = (w >> s) as u8;
    assert((byte >> jj) & 1 == 1 <==> (w >> t) & 1 == 1) by (bit_vector)
        requires
            s <= 56,
            j < 8,
            t == s + j,
            jj == j,
            byte == (w >> s) as u8,
    ;
}

/// LSB-first bit accumulator.
///
/// Bits are gathered in a 64-bit word and moved to the byte buffer eight bytes at a time; the
/// buffer is complete only once the accumulator is finished.
pub struct BitBuffer {
    out: Vec<u8>,
    acc: u64,
    nacc: u32,
}

impl View for BitBuffer {
    type V = Seq<bool>;

    /// The bits appended so far.
    closed spec fn view(&self) -> Seq<bool> {
        unpack(self.out@) + word_bits(self.acc, self.nacc as nat)
    }
}

impl BitBuffer {
    /// The pending word is not full and clear above its valid bits.
    pub closed spec fn wf(&self) -> bool {
        &&& self.nacc < 64
        &&& forall|j: int| self.nacc <= j < 64 ==> !#[trigger] word_bit(self.acc, j)
    }

    /// An empty accumulator.
    pub fn new() -> (r: Self)
        ensures
            r.wf(),
            r@ == Seq::<bool>::empty(),
    {
        assert forall|j: int| 0 <= j < 64 implies !#[trigger] word_bit(0, j) by {
            let t = j as u64;
            assert((0u64 >> t) & 1 == 0) by (bit_vector);
        }
        let r = BitBuffer { out: Vec::new(), acc: 0, nacc: 0 };
        assert(r@ =~= Seq::<bool>::empty());
        r
    }

    /// Append one bit.
    pub fn bit(&mut self, b: bool)
        requires
            old(self).wf(),
        ensures
            final(self).wf(),
            final(self)@ == old(self)@.push(b),
    {
        let v: u64 = if b {
            1
        } else {
            0
        };
        let n: u64 = self.nacc as u64;
        let ghost before = self.acc;
        let ghost seen = self@;
        proof {
            assert(!word_bit(self.acc, n as int));
            assert((self.acc >> n) & 1 == 0) by {
                let a = self.acc;
                assert((a >> n) & 1 == 0 || (a >> n) & 1 == 1) by (bit_vector);
            }
        }
        self.acc = self.acc | (v << n);
        proof {
            assert forall|j: int| 0 <= j < 64 implies #[trigger] word_bit(self.acc, j) == (if j
                == n {
                b
            } else {
                word_bit(before, j)
            }) by {
                lemma_set_bit(before, n, v, j as u64);
            }
        }
        self.nacc = self.nacc + 1;
        assert(unpack(self.out@) + word_bits(self.acc, self.nacc as nat) =~= seen.push(b));
        if self.nacc == 64 {
            self.spill();
        }
    }

    /// Move a full word to the byte buffer.
    fn spill(&mut self)
        requires
            old(self).nacc == 64,
        ensures
            final(self).wf(),
            final(self)@ == unpack(old(self).out@) + word_bits(old(self).acc, 64),
    {
        let ghost start = self.out@;
        let mut k: u32 = 0;
        while k < 8
            invariant
                k <= 8,
                self.acc == old(self).acc,
                self.out@.len() == start.len() + k,
                forall|i: int| 0 <= i < start.len() ==> self.out@[i] == start[i],
                forall|i: int|
                    0 <= i < k ==> #[trigger] self.out@[start.len() + i] == (self.acc >> (8
                        * i) as u64) as u8,
            decreases 8 - k,
        {
            let shift: u64 = 8 * k as u64;
            self.out.push((self.acc >> shift) as u8);
            k += 1;
        }
        proof {
            let w = self.acc;
            let whole = unpack(start) + word_bits(w, 64);
            assert forall|i: int| 0 <= i < whole.len() implies #[trigger] unpack(self.out@)[i]
                == whole[i] by {
                if i >= 8 * start.len() {
                    let d = i - 8 * start.len();
                    lemma_word_byte(w, (d / 8) as u64, (d % 8) as u64);
                    assert(i / 8 == start.len() + d / 8);
                    assert(i % 8 == d % 8);
                    assert(self.out@[start.len() + d / 8] == (w >> (8 * (d / 8)) as u64) as u8);
                }
            }
            assert(unpack(self.out@) =~= whole);
            assert forall|j: int| 0 <= j < 64 implies !#[trigger] word_bit(0, j) by {
                let t = j as u64;
                assert((0u64 >> t) & 1 == 0) by (bit_vector);
            }
        }
        self.acc = 0;
        self.nacc = 0;
        assert(self@ =~= unpack(self.out@));
    }

    /// Flush the accumulator and yield the packed bytes, zero-padding the final byte.
    pub fn finish(self) -> (bytes: Vec<u8>)
        requires
            self.wf(),
        ensures
            bytes@ == pack(self@),
    {
        let nbytes: u32 = (self.nacc + 7) / 8;
        let mut out = self.out;
        let ghost start = self.out@;
        let acc: u64 = self.acc;
        let mut k: u32 = 0;
        while k < nbytes
            invariant
                k <= nbytes <= 8,
                out@.len() == start.len() + k,
                forall|i: int| 0 <= i < start.len() ==> out@[i] == start[i],
                forall|i: int|
                    0 <= i < k ==> #[trigger] out@[start.len() + i] == (acc >> (8 * i) as u64)
                        as u8,
            decreases nbytes - k,
        {
            let shift: u64 = 8 * k as u64;
            out.push((acc >> shift) as u8);
            k += 1;
        }
        proof {
            let bits = self@;
            assert(bits.len() == 8 * start.len() + self.nacc);
            assert forall|i: int| 0 <= i < 8 * out@.len() implies #[trigger] unpack(out@)[i] == (
            bit_or_zero(bits, i) == 1) by {
                if i >= 8 * start.len() {
                    let d = i - 8 * start.len();
                    lemma_word_byte(acc, (d / 8) as u64, (d % 8) as u64);
                    assert(i / 8 == start.len() + d / 8);
                    assert(i % 8 == d % 8);
                    assert(out@[start.len() + d / 8] == (acc >> (8 * (d / 8)) as u64) as u8);
                    assert(word_bit(acc, d) == word_bit(acc, 8 * (d / 8) + d % 8));
                } else {
                    assert(unpack(start)[i] == bits[i]);
                }
            }
            lemma_pack_unique(bits, out@);
        }
        out
    }
}

} // verus!
