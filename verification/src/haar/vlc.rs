//! The luma codebook: a fixed table of symbols, and the magnitude code of a coefficient.

use vstd::prelude::*;

use crate::error::Error;
use crate::haar::bits;
use crate::haar::bits::BitBuffer;
use crate::haar::entropy;
use crate::haar::entropy::mag_category;
use crate::video_arm::CodeTables;

verus! {

/// The codebook, as `(code, bits)` by symbol; a code is emitted least significant bit first.
///
/// Symbol 0 is the one-bit zero, symbol 31 the all-ones escape prefix.
pub const CODEBOOK: [(u32, u8); 32] = [
    (0, 1),
    (1, 3),
    (5, 3),
    (3, 5),
    (19, 5),
    (11, 5),
    (27, 5),
    (7, 7),
    (71, 7),
    (39, 7),
    (103, 7),
    (23, 7),
    (87, 7),
    (55, 7),
    (119, 7),
    (15, 8),
    (143, 8),
    (79, 8),
    (207, 8),
    (47, 8),
    (175, 8),
    (111, 8),
    (239, 8),
    (31, 8),
    (159, 8),
    (95, 8),
    (223, 8),
    (63, 8),
    (191, 8),
    (127, 8),
    (255, 9),
    (511, 9),
];

/// The bits of symbol `sym`.
pub open spec fn symbol_code(sym: int) -> Seq<bool> {
    Seq::new(
        CODEBOOK@[sym].1 as nat,
        |k: int| entropy::payload_bit(CODEBOOK@[sym].0 as nat, k as nat),
    )
}

/// The magnitude code of a coefficient: a unary category and its terminator, the offset in the
/// category most significant bit first, and a sign bit that is zero for a negative value.
pub open spec fn coeff_code(q: int) -> Seq<bool> {
    if q == 0 {
        seq![false]
    } else {
        let c = entropy::bit_length(entropy::magnitude(q));
        entropy::ones(c) + seq![false] + entropy::payload_high_first(
            (entropy::magnitude(q) - entropy::two_to((c - 1) as nat)) as nat,
            (c - 1) as nat,
        ) + seq![q > 0]
    }
}

/// Bits padded to whole bytes with ones.
pub open spec fn pad_ones(b: Seq<bool>) -> Seq<bool> {
    b + entropy::ones(((8 - b.len() % 8) % 8) as nat)
}

/// LSB-first packer of codebook symbols, its final byte padded with ones.
pub struct Vlc {
    buffer: BitBuffer,
    nbits: u32,
}

impl View for Vlc {
    type V = Seq<bool>;

    /// The bits emitted so far.
    closed spec fn view(&self) -> Seq<bool> {
        self.buffer@
    }
}

impl Vlc {
    /// The count of bits in the last byte is right.
    pub closed spec fn wf(&self) -> bool {
        &&& self.buffer.wf()
        &&& self.nbits == self.buffer@.len() % 8
    }

    /// An empty packer.
    pub fn new() -> (r: Self)
        ensures
            r.wf(),
            r@ == Seq::<bool>::empty(),
    {
        Vlc { buffer: BitBuffer::new(), nbits: 0 }
    }

    /// Append one bit.
    fn bit(&mut self, b: bool)
        requires
            old(self).wf(),
        ensures
            final(self).wf(),
            final(self)@ == old(self)@.push(b),
    {
        self.buffer.bit(b);
        self.nbits = (self.nbits + 1) % 8;
    }

    /// Emit the code of symbol `sym`.
    pub fn symbol(&mut self, sym: usize) -> (r: Result<(), Error>)
        requires
            old(self).wf(),
            sym < 32,
        ensures
            r is Ok,
            final(self).wf(),
            final(self)@ == old(self)@ + symbol_code(sym as int),
    {
        let (code, n): (u32, u8) = CODEBOOK[sym];
        let ghost start = self@;
        let mut k: u8 = 0;
        assert(n <= 9);
        while k < n
            invariant
                k <= n <= 9,
                sym < 32,
                code == CODEBOOK@[sym as int].0,
                n == CODEBOOK@[sym as int].1,
                self.wf(),
                self@ == start + symbol_code(sym as int).take(k as int),
            decreases n - k,
        {
            let b: bool = entropy::payload_bit_at(code, k as u32);
            self.bit(b);
            k += 1;
            assert(self@ =~= start + symbol_code(sym as int).take(k as int));
        }
        assert(self@ =~= start + symbol_code(sym as int));
        Ok(())
    }

    /// Emit one coefficient; see [`coeff_code`]. Categories from nine up belong to the escape
    /// grammar and are refused with [`Error::EOVERFLOW`], leaving the packer as it was.
    pub fn coeff(&mut self, q: i32) -> (r: Result<(), Error>)
        requires
            old(self).wf(),
        ensures
            final(self).wf(),
            r == (if entropy::bit_length(entropy::magnitude(q as int)) >= 9 {
                Err::<(), Error>(Error::EOVERFLOW)
            } else {
                Ok(())
            }),
            r is Ok ==> final(self)@ == old(self)@ + coeff_code(q as int),
            r is Err ==> final(self)@ == old(self)@,
    {
        let ghost start = self@;
        if q == 0 {
            assert(entropy::bit_length(0) == 0);
            self.bit(false);
            assert(self@ =~= start + coeff_code(0));
            return Ok(());
        }
        let c: u32 = mag_category(q);
        if c >= 9 {
            return Err(Error::EOVERFLOW);
        }
        let mut i: u32 = 0;
        while i < c
            invariant
                i <= c,
                self.wf(),
                self@ == start + entropy::ones(i as nat),
            decreases c - i,
        {
            self.bit(true);
            i += 1;
            assert(self@ =~= start + entropy::ones(i as nat));
        }
        self.bit(false);
        let ghost mid = start + (entropy::ones(c as nat) + seq![false]);
        assert(self@ =~= mid);
        proof {
            entropy::lemma_bit_length_bounds(entropy::magnitude(q as int));
        }
        let offset: u32 = entropy::abs_u32(q) - entropy::power_of_two(c - 1);
        let ghost field = entropy::payload_high_first(offset as nat, (c - 1) as nat);
        i = 0;
        while i < c - 1
            invariant
                1 <= c < 9,
                i <= c - 1,
                field == entropy::payload_high_first(offset as nat, (c - 1) as nat),
                self.wf(),
                self@ == mid + field.take(i as int),
            decreases c - 1 - i,
        {
            let b: bool = entropy::payload_bit_at(offset, c - 2 - i);
            self.bit(b);
            i += 1;
            assert(self@ =~= mid + field.take(i as int));
        }
        self.bit(q > 0);
        assert(self@ =~= start + coeff_code(q as int));
        Ok(())
    }

    /// Yield the packed bytes, padding the final byte with ones.
    pub fn finish(self) -> (bytes: Result<Vec<u8>, Error>)
        requires
            self.wf(),
        ensures
            bytes matches Ok(b) && b@ == bits::pack(pad_ones(self@)),
    {
        let mut w = self;
        let ghost start = self@;
        while w.nbits > 0
            invariant
                w.wf(),
                start.len() <= w@.len() <= start.len() + (8 - start.len() % 8) % 8,
                w@ == start + entropy::ones((w@.len() - start.len()) as nat),
            decreases 8 - w.nbits + if w.nbits == 0 { -8int } else { 0int },
        {
            w.bit(true);
            assert(w@ =~= start + entropy::ones((w@.len() - start.len()) as nat));
        }
        assert(w@ =~= pad_ones(start));
        Ok(w.buffer.finish())
    }
}

/// Within its nine categories the magnitude code is the grouped dialect's escape.
pub proof fn law_coeff_code_is_the_grouped_escape(q: int)
    requires
        entropy::bit_length(entropy::magnitude(q)) < 9,
    ensures
        coeff_code(q) == entropy::escape_code(CodeTables::Wide, q, 9),
{
    if q != 0 {
        let c = entropy::bit_length(entropy::magnitude(q));
        entropy::lemma_bit_length_bounds(entropy::magnitude(q));
        entropy::lemma_two_to_grows(c, 9);
        let offset = (entropy::magnitude(q) - entropy::two_to((c - 1) as nat)) as nat;
        let sign: nat = if q > 0 {
            1
        } else {
            0
        };
        let payload = 2 * offset + sign;
        let field = entropy::payload_high_first(offset, (c - 1) as nat);
        let whole = entropy::payload_high_first(payload, c);
        assert forall|i: int| 0 <= i < c - 1 implies #[trigger] field[i] == whole[i] by {
            let j = (c - 2 - i) as nat;
            let d = entropy::two_to(j);
            entropy::lemma_two_to_grows(0, j);
            assert(entropy::two_to((j + 1) as nat) == 2 * d);
            vstd::arithmetic::div_mod::lemma_div_denominator(payload as int, 2, d as int);
            assert(payload / 2 == offset);
        }
        assert(whole[c - 1] == (q > 0)) by {
            assert(entropy::two_to(0) == 1);
            assert(payload / 1 == payload);
        }
        assert(whole =~= field + seq![q > 0]);
        assert(coeff_code(q) =~= entropy::escape_code(CodeTables::Wide, q, 9));
    }
}

/// The number whose bits these are, the lowest first.
pub open spec fn number_of(bits: Seq<bool>) -> nat
    decreases bits.len(),
{
    if bits.len() == 0 {
        0
    } else {
        number_of(bits.drop_last()) + if bits.last() {
            entropy::two_to((bits.len() - 1) as nat)
        } else {
            0
        }
    }
}

proof fn lemma_number_reads_back(payload: nat, n: nat)
    ensures
        number_of(Seq::new(n, |k: int| entropy::payload_bit(payload, k as nat))) == payload
            % entropy::two_to(n),
        entropy::two_to(n) > 0,
    decreases n,
{
    let bits = Seq::new(n, |k: int| entropy::payload_bit(payload, k as nat));
    if n > 0 {
        let m = (n - 1) as nat;
        lemma_number_reads_back(payload, m);
        let front = Seq::new(m, |k: int| entropy::payload_bit(payload, k as nat));
        assert(bits.drop_last() =~= front);
        let t = entropy::two_to(m) as int;
        vstd::arithmetic::div_mod::lemma_mod_breakdown(payload as int, t, 2);
        assert(t * 2 == entropy::two_to(n));
        let high = (payload as int / t) % 2;
        assert(high == 0 || high == 1);
        assert(t * 0 == 0 && t * 1 == t);
    } else {
        assert(entropy::two_to(0) == 1);
    }
}

/// A symbol's code is its entry of the codebook, the lowest bit first, and as long as the entry
/// says.
pub proof fn law_symbols_read_back(sym: int)
    requires
        0 <= sym < 32,
    ensures
        symbol_code(sym).len() == CODEBOOK@[sym].1,
        number_of(symbol_code(sym)) == CODEBOOK@[sym].0 as nat % entropy::two_to(
            CODEBOOK@[sym].1 as nat,
        ),
{
    lemma_number_reads_back(CODEBOOK@[sym].0 as nat, CODEBOOK@[sym].1 as nat);
}

/// A stream is filled up to a whole number of bytes, with ones and no further than it must be.
pub proof fn law_streams_are_filled_with_ones(b: Seq<bool>)
    ensures
        pad_ones(b).len() % 8 == 0,
        b.len() <= pad_ones(b).len() < b.len() + 8,
        pad_ones(b).take(b.len() as int) == b,
        forall|i: int| b.len() <= i < pad_ones(b).len() ==> #[trigger] pad_ones(b)[i],
{
    assert(pad_ones(b).take(b.len() as int) =~= b);
}

/// No symbol's code starts another's: of two symbols the later has the longer code or one as long,
/// and differs from the earlier within the bits they share.
#[verifier::rlimit(60)]
pub proof fn law_no_code_starts_another(a: int, b: int)
    requires
        0 <= a < b < 32,
    ensures
        1 <= CODEBOOK@[a].1 <= CODEBOOK@[b].1 <= 9,
        CODEBOOK@[a].0 as nat % entropy::two_to(CODEBOOK@[a].1 as nat) != CODEBOOK@[b].0 as nat
            % entropy::two_to(CODEBOOK@[a].1 as nat),
{
    reveal_with_fuel(entropy::two_to, 10);
    let (p, m) = CODEBOOK@[a];
    let (q, n) = CODEBOOK@[b];
    assert(m == 1 || m == 3 || m == 5 || m == 7 || m == 8 || m == 9);
    assert(entropy::two_to(1) == 2 && entropy::two_to(3) == 8 && entropy::two_to(5) == 32
        && entropy::two_to(7) == 128 && entropy::two_to(8) == 256 && entropy::two_to(9) == 512);
    if m == 1 {
        assert(p % 2 != q % 2);
    } else if m == 3 {
        assert(p % 8 != q % 8);
    } else if m == 5 {
        assert(p % 32 != q % 32);
    } else if m == 7 {
        assert(p % 128 != q % 128);
    } else if m == 8 {
        assert(p % 256 != q % 256);
    } else {
        assert(p % 512 != q % 512);
    }
}

} // verus!
