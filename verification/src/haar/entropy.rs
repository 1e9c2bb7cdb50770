//! The entropy coder: one unary code in two dialects, and the fields of a strip built from it.

use vstd::prelude::*;

use crate::haar::bits::BitBuffer;
use crate::haar::transform;
use crate::video_arm::CodeTables;

verus! {

/// How many bits a magnitude takes: zero for zero, else one more than its base-2 logarithm.
pub open spec fn bit_length(n: nat) -> nat
    decreases n,
{
    if n == 0 {
        0
    } else {
        1 + bit_length(n / 2)
    }
}

/// The magnitude of a value.
pub open spec fn magnitude(v: int) -> nat {
    if v < 0 {
        (-v) as nat
    } else {
        v as nat
    }
}

/// Two to the power `n`.
pub open spec fn two_to(n: nat) -> nat
    decreases n,
{
    if n == 0 {
        1
    } else {
        2 * two_to((n - 1) as nat)
    }
}

/// The first powers of two.
pub proof fn lemma_powers()
    ensures
        two_to(0) == 1,
        two_to(1) == 2,
        two_to(2) == 4,
        two_to(3) == 8,
        two_to(4) == 16,
        two_to(5) == 32,
        two_to(6) == 64,
{
    reveal_with_fuel(two_to, 8);
}

/// A power of two is positive and grows with its exponent.
pub proof fn lemma_two_to_grows(a: nat, b: nat)
    requires
        a <= b,
    ensures
        1 <= two_to(a) <= two_to(b),
        a < b ==> 2 * two_to(a) <= two_to(b),
    decreases b,
{
    if b == 0 {
    } else if a == b {
        lemma_two_to_grows(0, (b - 1) as nat);
    } else {
        lemma_two_to_grows(a, (b - 1) as nat);
    }
}

/// A number lies between the powers of two that its bit length names.
pub proof fn lemma_bit_length_bounds(n: nat)
    ensures
        n < two_to(bit_length(n)),
        n > 0 ==> bit_length(n) >= 1 && two_to((bit_length(n) - 1) as nat) <= n,
    decreases n,
{
    if n > 0 {
        lemma_bit_length_bounds(n / 2);
        if n / 2 == 0 {
            assert(bit_length(0) == 0);
        }
    }
}

/// The powers of two around a number fix its bit length.
pub proof fn lemma_bit_length_unique(n: nat, c: nat)
    requires
        c >= 1,
        two_to((c - 1) as nat) <= n < two_to(c),
    ensures
        bit_length(n) == c,
{
    lemma_bit_length_bounds(n);
    let d = bit_length(n);
    lemma_two_to_grows(0, (c - 1) as nat);
    if d < c {
        lemma_two_to_grows(d, (c - 1) as nat);
    } else if d > c {
        lemma_two_to_grows(c, (d - 1) as nat);
    }
}

/// The magnitude of a value, as an unsigned number.
pub(crate) fn abs_u32(v: i32) -> (n: u32)
    ensures
        n == magnitude(v as int),
{
    if v < 0 {
        (-(v as i64)) as u32
    } else {
        v as u32
    }
}

/// The magnitude category of a coefficient: the bit length of its magnitude.
pub fn mag_category(coeff: i32) -> (c: u32)
    ensures
        c == bit_length(magnitude(coeff as int)),
        c <= 32,
{
    let mut n: u32 = abs_u32(coeff);
    let mut c: u32 = 0;
    proof {
        lemma_two_to_is_pow2(32);
        vstd::arithmetic::power2::lemma2_to64();
    }
    while n > 0
        invariant
            c + bit_length(n as nat) == bit_length(magnitude(coeff as int)),
            n < two_to((32 - c) as nat),
            c <= 32,
        decreases n,
    {
        assert(two_to(0) == 1);
        n = n / 2;
        c = c + 1;
    }
    c
}

/// The powers of two here are the library's.
proof fn lemma_two_to_is_pow2(n: nat)
    ensures
        two_to(n) == vstd::arithmetic::power2::pow2(n),
    decreases n,
{
    if n == 0 {
        vstd::arithmetic::power2::lemma2_to64();
    } else {
        lemma_two_to_is_pow2((n - 1) as nat);
        vstd::arithmetic::power2::lemma_pow2_unfold(n);
    }
}

/// Bit `i` of a payload.
pub open spec fn payload_bit(payload: nat, i: nat) -> bool {
    (payload / two_to(i)) % 2 == 1
}

/// Read bit `i` of a payload.
pub(crate) fn payload_bit_at(payload: u32, i: u32) -> (b: bool)
    requires
        i < 32,
    ensures
        b == payload_bit(payload as nat, i as nat),
{
    proof {
        lemma_two_to_is_pow2(i as nat);
        vstd::bits::lemma_u32_shr_is_div(payload, i);
        let x = payload >> i;
        assert(x & 1 == x % 2) by (bit_vector);
    }
    (payload >> i) & 1 == 1
}

/// Two to the power `c`.
pub(crate) fn power_of_two(c: u32) -> (p: u32)
    requires
        c < 32,
    ensures
        p == two_to(c as nat),
{
    proof {
        lemma_two_to_is_pow2(c as nat);
        lemma_two_to_is_pow2(31);
        lemma_two_to_grows(c as nat, 31);
        vstd::arithmetic::power2::lemma2_to64();
        vstd::bits::lemma_u32_shl_is_mul(1, c);
    }
    1u32 << c
}

/// The base-2 logarithm of a small positive number, rounded down.
fn small_log2(n: usize) -> (k: u32)
    requires
        1 <= n <= 64,
    ensures
        k == floor_log2(n as nat),
        two_to(k as nat) <= n < 2 * two_to(k as nat),
        k <= 6,
{
    let k: u32 = mag_category(n as i32);
    proof {
        lemma_bit_length_bounds(n as nat);
        lemma_powers();
        if k > 7 {
            lemma_two_to_grows(7, (k - 1) as nat);
            assert(two_to(7) == 2 * two_to(6));
        }
        assert(two_to(k as nat) == 2 * two_to((k - 1) as nat));
    }
    k - 1
}

/// `n` one bits.
pub open spec fn ones(n: nat) -> Seq<bool> {
    Seq::new(n, |i: int| true)
}

/// `n` zero bits.
pub open spec fn zeros(n: nat) -> Seq<bool> {
    Seq::new(n, |i: int| false)
}

/// The low `n` bits of a payload, most significant first.
pub open spec fn payload_high_first(payload: nat, n: nat) -> Seq<bool> {
    Seq::new(n, |i: int| payload_bit(payload, (n - 1 - i) as nat))
}

/// The low `n` bits of a payload, least significant first, a one before each.
pub open spec fn payload_interleaved(payload: nat, n: nat) -> Seq<bool> {
    Seq::new(2 * n, |i: int| i % 2 == 0 || payload_bit(payload, (i / 2) as nat))
}

/// The end of a unary category: a zero, unless the category is the codebook maximum.
pub open spec fn terminator(terminate: bool) -> Seq<bool> {
    if terminate {
        seq![false]
    } else {
        Seq::empty()
    }
}

/// The one code every field of a strip is built from: a category of `count` ones, its
/// terminator, and `count` payload bits placed as the dialect asks.
pub open spec fn unary_code(
    coding: CodeTables,
    count: nat,
    terminate: bool,
    payload: nat,
) -> Seq<bool> {
    match coding {
        CodeTables::Wide => ones(count) + terminator(terminate) + payload_high_first(
            payload,
            count,
        ),
        CodeTables::Narrow => payload_interleaved(payload, count) + terminator(terminate),
    }
}

/// The category of `v`, held to `cmax`.
pub open spec fn escape_category(v: int, cmax: nat) -> nat {
    if bit_length(magnitude(v)) <= cmax {
        bit_length(magnitude(v))
    } else {
        cmax
    }
}

/// The magnitude an escape carries: that of `v`, held to the largest its category encodes.
pub open spec fn escape_magnitude(v: int, cmax: nat) -> nat {
    if magnitude(v) < two_to(cmax) {
        magnitude(v)
    } else {
        (two_to(cmax) - 1) as nat
    }
}

/// The payload of an escape: the magnitude's offset in its category, the sign bit below it.
pub open spec fn escape_payload(v: int, cmax: nat) -> nat {
    (2 * (escape_magnitude(v, cmax) - two_to((escape_category(v, cmax) - 1) as nat)) + (if v > 0 {
        1int
    } else {
        0int
    })) as nat
}

/// The escape code of a value in a codebook of categories up to `cmax`.
pub open spec fn escape_code(coding: CodeTables, v: int, cmax: nat) -> Seq<bool> {
    if v == 0 {
        seq![false]
    } else {
        unary_code(
            coding,
            escape_category(v, cmax),
            escape_category(v, cmax) < cmax,
            escape_payload(v, cmax),
        )
    }
}

/// The base-2 logarithm of a positive number, rounded down.
pub open spec fn floor_log2(n: nat) -> nat {
    (bit_length(n) - 1) as nat
}

/// The luma significance of a block whose last significant position is `last`, after the two
/// root branches of which `skip` were taken by chroma planes.
pub open spec fn luma_sync_code(coding: CodeTables, last: nat, skip: nat) -> Seq<bool> {
    let k = floor_log2((64 - last) as nat);
    zeros((2 - skip) as nat) + if last == 0 {
        unary_code(coding, 6, true, 0)
    } else {
        unary_code(coding, k, true, (64 - two_to(k) - last) as nat)
    }
}

/// The last-position node of a present chroma plane.
pub open spec fn chroma_sync_code(coding: CodeTables, last: nat) -> Seq<bool> {
    let c = floor_log2(last + 1);
    unary_code(coding, c, true, (last + 1 - two_to(c)) as nat)
}

/// One block's three-plane significance tree: a chroma node for each plane that has one, in
/// place of the root branch that is zero without it, then the luma code.
pub open spec fn sync_code(coding: CodeTables, lcr: nat, lcb: nat, ly: nat) -> Seq<bool> {
    if lcr == 0 && lcb == 0 {
        luma_sync_code(coding, ly, 0)
    } else if lcb == 0 {
        chroma_sync_code(coding, lcr) + luma_sync_code(coding, ly, 1)
    } else if lcr == 0 {
        seq![false] + chroma_sync_code(coding, lcb) + luma_sync_code(coding, ly, 2)
    } else {
        chroma_sync_code(coding, lcr) + chroma_sync_code(coding, lcb) + luma_sync_code(
            coding,
            ly,
            2,
        )
    }
}

/// The escapes of positions `1..=last` of one plane.
pub open spec fn plane_ac_code(coding: CodeTables, q: Seq<int>, last: nat, cmax: nat) -> Seq<bool>
    decreases last,
{
    if last == 0 {
        Seq::empty()
    } else {
        plane_ac_code(coding, q, (last - 1) as nat, cmax) + escape_code(
            coding,
            q[last as int],
            cmax,
        )
    }
}

/// The largest DC category at 8 bits per channel.
pub const SOLID_DC_CMAX: u32 = 10;

/// The largest luma AC category at 8 bits per channel.
pub const AC_CMAX: u32 = 9;

/// The largest chroma AC category at 8 bits per channel.
pub const CHROMA_AC_CMAX: u32 = 10;

/// The fourcc of the 8-bit surface format, `XR24`.
pub const XRGB8888: u32 = 0x3432_5258;

/// The fourcc of the 10-bit surface format, `XR30`.
pub const XRGB2101010: u32 = 0x3033_5258;

/// The fourcc of the 8-bit format with an alpha channel, `AR24`.
pub const ARGB8888: u32 = 0x3432_5241;

/// Bits per colour channel in the surface being encoded.
#[derive(Clone, Copy, Debug, PartialEq, Eq, Structural)]
pub enum Depth {
    /// 8 bits per channel.
    Eight,
    /// 10 bits per channel.
    Ten,
}

impl Depth {
    /// Bits per channel.
    pub open spec fn bits(self) -> nat {
        match self {
            Depth::Eight => 8,
            Depth::Ten => 10,
        }
    }

    /// Largest escape category of a luma AC coefficient: one more than the sample's bits.
    pub fn ac_cmax(self) -> (c: u32)
        ensures
            c == self.bits() + 1,
    {
        match self {
            Depth::Eight => AC_CMAX,
            Depth::Ten => AC_CMAX + 2,
        }
    }

    /// Largest escape category of a chroma AC coefficient, one above luma's.
    pub fn chroma_ac_cmax(self) -> (c: u32)
        ensures
            c == self.bits() + 2,
    {
        match self {
            Depth::Eight => CHROMA_AC_CMAX,
            Depth::Ten => CHROMA_AC_CMAX + 2,
        }
    }

    /// Largest escape category of a DC: that of four times the largest sample.
    pub fn dc_cmax(self) -> (c: u32)
        ensures
            c == self.bits() + 2,
    {
        match self {
            Depth::Eight => SOLID_DC_CMAX,
            Depth::Ten => SOLID_DC_CMAX + 2,
        }
    }

    /// The depth of a pixel format, or `None` for one that cannot be encoded.
    pub fn from_fourcc(fourcc: u32) -> (depth: Option<Self>)
        ensures
            depth == (if fourcc == XRGB8888 {
                Some(Depth::Eight)
            } else if fourcc == XRGB2101010 {
                Some(Depth::Ten)
            } else {
                None
            }),
    {
        if fourcc == XRGB8888 {
            Some(Depth::Eight)
        } else if fourcc == XRGB2101010 {
            Some(Depth::Ten)
        } else {
            None
        }
    }
}

/// The DC ceiling is the category of the largest luma DC its depth can produce.
pub proof fn law_dc_ceiling_holds_the_largest_sample(depth: Depth)
    ensures
        bit_length((4 * (two_to(depth.bits()) - 1)) as nat) == depth.bits() + 2,
{
    let b = depth.bits();
    lemma_two_to_grows(2, b);
    lemma_powers();
    assert(two_to((b + 2) as nat) == 2 * two_to((b + 1) as nat));
    assert(two_to((b + 1) as nat) == 2 * two_to(b));
    lemma_bit_length_unique((4 * (two_to(b) - 1)) as nat, (b + 2) as nat);
}

/// LSB-first accumulator of a strip's entropy-coded fields in one dialect.
pub struct Bits {
    buffer: BitBuffer,
    coding: CodeTables,
}

impl View for Bits {
    type V = Seq<bool>;

    /// The bits emitted so far.
    closed spec fn view(&self) -> Seq<bool> {
        self.buffer@
    }
}

impl Bits {
    /// The accumulator underneath is well formed.
    pub closed spec fn wf(&self) -> bool {
        self.buffer.wf()
    }

    /// The dialect being emitted.
    pub closed spec fn dialect(&self) -> CodeTables {
        self.coding
    }

    /// An empty coder in the given dialect.
    pub fn new(coding: CodeTables) -> (r: Self)
        ensures
            r.wf(),
            r@ == Seq::<bool>::empty(),
            r.dialect() == coding,
    {
        Bits { buffer: BitBuffer::new(), coding }
    }

    /// Append one bit.
    fn bit(&mut self, b: bool)
        requires
            old(self).wf(),
        ensures
            final(self).wf(),
            final(self).dialect() == old(self).dialect(),
            final(self)@ == old(self)@.push(b),
    {
        self.buffer.bit(b);
    }

    /// Yield the packed bytes, zero-padding the final byte.
    pub fn finish(self) -> (bytes: Vec<u8>)
        requires
            self.wf(),
        ensures
            bytes@ == crate::haar::bits::pack(self@),
    {
        self.buffer.finish()
    }

    /// Emit a unary code; see [`unary_code`].
    fn unary(&mut self, count: u32, terminate: bool, payload: u32)
        requires
            old(self).wf(),
            count <= 32,
        ensures
            final(self).wf(),
            final(self).dialect() == old(self).dialect(),
            final(self)@ == old(self)@ + unary_code(
                old(self).dialect(),
                count as nat,
                terminate,
                payload as nat,
            ),
    {
        let ghost start = self@;
        match self.coding {
            CodeTables::Wide => {
                let mut i: u32 = 0;
                while i < count
                    invariant
                        i <= count,
                        self.wf(),
                        self.dialect() == old(self).dialect(),
                        self@ == start + ones(i as nat),
                    decreases count - i,
                {
                    self.bit(true);
                    i += 1;
                    assert(self@ =~= start + ones(i as nat));
                }
                if terminate {
                    self.bit(false);
                }
                let ghost mid = start + ones(count as nat) + terminator(terminate);
                assert(self@ =~= mid);
                i = 0;
                while i < count
                    invariant
                        i <= count <= 32,
                        self.wf(),
                        self.dialect() == old(self).dialect(),
                        self@ == mid + payload_high_first(payload as nat, count as nat).take(
                            i as int,
                        ),
                    decreases count - i,
                {
                    let b: bool = payload_bit_at(payload, count - 1 - i);
                    self.bit(b);
                    i += 1;
                    assert(self@ =~= mid + payload_high_first(payload as nat, count as nat).take(
                        i as int,
                    ));
                }
                assert(self@ =~= start + unary_code(
                    CodeTables::Wide,
                    count as nat,
                    terminate,
                    payload as nat,
                ));
            },
            CodeTables::Narrow => {
                let mut i: u32 = 0;
                while i < count
                    invariant
                        i <= count <= 32,
                        self.wf(),
                        self.dialect() == old(self).dialect(),
                        self@ == start + payload_interleaved(payload as nat, count as nat).take(
                            2 * i as int,
                        ),
                    decreases count - i,
                {
                    self.bit(true);
                    let b: bool = payload_bit_at(payload, i);
                    self.bit(b);
                    i += 1;
                    assert(self@ =~= start + payload_interleaved(
                        payload as nat,
                        count as nat,
                    ).take(2 * i as int));
                }
                if terminate {
                    self.bit(false);
                }
                assert(self@ =~= start + unary_code(
                    CodeTables::Narrow,
                    count as nat,
                    terminate,
                    payload as nat,
                ));
            },
        }
    }

    /// Emit the escape code of `v`; see [`escape_code`]. A zero takes no category, and any other
    /// value one whose payload fits.
    pub fn esc(&mut self, v: i32, cmax: u32)
        requires
            old(self).wf(),
            v != 0 ==> 1 <= escape_category(v as int, cmax as nat) <= 31,
        ensures
            final(self).wf(),
            final(self).dialect() == old(self).dialect(),
            final(self)@ == old(self)@ + escape_code(old(self).dialect(), v as int, cmax as nat),
    {
        if v == 0 {
            self.bit(false);
            assert(self@ =~= old(self)@ + seq![false]);
            return ;
        }
        let natural: u32 = mag_category(v);
        let c: u32 = if natural < cmax {
            natural
        } else {
            cmax
        };
        let mag: u32 = abs_u32(v);
        proof {
            assert(c == escape_category(v as int, cmax as nat));
            lemma_bit_length_bounds(mag as nat);
            lemma_two_to_grows(0, (c - 1) as nat);
            assert(two_to(c as nat) == 2 * two_to((c - 1) as nat));
            if natural <= cmax {
                lemma_two_to_grows(natural as nat, cmax as nat);
            } else {
                lemma_two_to_grows(cmax as nat, (natural - 1) as nat);
            }
            lemma_two_to_grows(c as nat, 31);
            lemma_two_to_is_pow2(31);
            vstd::arithmetic::power2::lemma2_to64();
        }
        let top: u32 = power_of_two(c) - 1;
        let held: u32 = if mag < top {
            mag
        } else {
            top
        };
        let offset: u32 = held - power_of_two(c - 1);
        let sign: u32 = if v > 0 {
            1
        } else {
            0
        };
        self.unary(c, c < cmax, 2 * offset + sign);
    }

    /// Emit the luma significance after `skip` root branches; see [`luma_sync_code`].
    fn sync_unit_after(&mut self, last: usize, skip: usize)
        requires
            old(self).wf(),
            last < 64,
            skip <= 2,
        ensures
            final(self).wf(),
            final(self).dialect() == old(self).dialect(),
            final(self)@ == old(self)@ + luma_sync_code(
                old(self).dialect(),
                last as nat,
                skip as nat,
            ),
    {
        let ghost start = self@;
        let mut i: usize = skip;
        while i < 2
            invariant
                skip <= i <= 2,
                self.wf(),
                self.dialect() == old(self).dialect(),
                self@ == start + zeros((i - skip) as nat),
            decreases 2 - i,
        {
            self.bit(false);
            i += 1;
            assert(self@ =~= start + zeros((i - skip) as nat));
        }
        let ghost mid = self@;
        if last == 0 {
            self.unary(6, true, 0);
            assert(self@ =~= start + luma_sync_code(self.dialect(), 0, skip as nat));
        } else {
            let k: u32 = small_log2(64 - last);
            let span: usize = power_of_two(k) as usize;
            let payload: u32 = (64 - span - last) as u32;
            self.unary(k, true, payload);
            assert(self@ =~= start + luma_sync_code(self.dialect(), last as nat, skip as nat));
        }
    }

    /// Emit the last-position node of a chroma plane; see [`chroma_sync_code`].
    fn chroma_base(&mut self, last: usize)
        requires
            old(self).wf(),
            0 < last < 64,
        ensures
            final(self).wf(),
            final(self).dialect() == old(self).dialect(),
            final(self)@ == old(self)@ + chroma_sync_code(old(self).dialect(), last as nat),
    {
        let c: u32 = small_log2(last + 1);
        let span: usize = power_of_two(c) as usize;
        let payload: u32 = (last + 1 - span) as u32;
        self.unary(c, true, payload);
    }

    /// Emit one block's significance tree; see [`sync_code`].
    pub fn colour_sync_unit(&mut self, lcr: usize, lcb: usize, ly: usize)
        requires
            old(self).wf(),
            lcr < 64,
            lcb < 64,
            ly < 64,
        ensures
            final(self).wf(),
            final(self).dialect() == old(self).dialect(),
            final(self)@ == old(self)@ + sync_code(
                old(self).dialect(),
                lcr as nat,
                lcb as nat,
                ly as nat,
            ),
    {
        if lcr == 0 && lcb == 0 {
            self.sync_unit_after(ly, 0);
        } else if lcb == 0 {
            self.chroma_base(lcr);
            self.sync_unit_after(ly, 1);
        } else if lcr == 0 {
            self.bit(false);
            self.chroma_base(lcb);
            self.sync_unit_after(ly, 2);
        } else {
            self.chroma_base(lcr);
            self.chroma_base(lcb);
            self.sync_unit_after(ly, 2);
        }
        assert(self@ =~= old(self)@ + sync_code(
            old(self).dialect(),
            lcr as nat,
            lcb as nat,
            ly as nat,
        ));
    }

    /// Emit the escapes of positions `1..=last` of one plane; see [`plane_ac_code`].
    fn plane_ac(&mut self, q: &[i32; 64], last: usize, cmax: u32)
        requires
            old(self).wf(),
            last < 64,
            1 <= cmax <= 31,
        ensures
            final(self).wf(),
            final(self).dialect() == old(self).dialect(),
            final(self)@ == old(self)@ + plane_ac_code(
                old(self).dialect(),
                transform::ints(q@),
                last as nat,
                cmax as nat,
            ),
    {
        let ghost start = self@;
        let ghost coding = self.dialect();
        assert(self@ =~= start + plane_ac_code(coding, transform::ints(q@), 0, cmax as nat));
        let mut i: usize = 0;
        while i < last
            invariant
                i <= last < 64,
                1 <= cmax <= 31,
                self.wf(),
                self.dialect() == coding,
                self@ == start + plane_ac_code(coding, transform::ints(q@), i as nat, cmax as nat),
            decreases last - i,
        {
            i += 1;
            proof {
                lemma_bit_length_bounds(magnitude(q@[i as int] as int));
            }
            self.esc(q[i], cmax);
            assert(self@ =~= start + plane_ac_code(coding, transform::ints(q@), i as nat, cmax as nat));
        }
    }

    /// Emit one block's AC coefficients; see [`block_ac_code`].
    pub fn colour_block_ac(
        &mut self,
        qcr: &[i32; 64],
        qcb: &[i32; 64],
        qy: &[i32; 64],
        lcr: usize,
        lcb: usize,
        ly: usize,
        depth: Depth,
    )
        requires
            old(self).wf(),
            lcr < 64,
            lcb < 64,
            ly < 64,
        ensures
            final(self).wf(),
            final(self).dialect() == old(self).dialect(),
            final(self)@ == old(self)@ + block_ac_code(
                old(self).dialect(),
                depth,
                transform::ints(qcr@),
                transform::ints(qcb@),
                transform::ints(qy@),
                lcr as nat,
                lcb as nat,
                ly as nat,
            ),
    {
        self.plane_ac(qcr, lcr, depth.chroma_ac_cmax());
        self.plane_ac(qcb, lcb, depth.chroma_ac_cmax());
        self.plane_ac(qy, ly, depth.ac_cmax());
        assert(self@ =~= old(self)@ + block_ac_code(
            old(self).dialect(),
            depth,
            transform::ints(qcr@),
            transform::ints(qcb@),
            transform::ints(qy@),
            lcr as nat,
            lcb as nat,
            ly as nat,
        ));
    }
}

/// One block's AC coefficients: the planes in Cr, Cb, Y order, positions `1..=last` of each,
/// chroma in a codebook one category larger than luma's.
pub open spec fn block_ac_code(
    coding: CodeTables,
    depth: Depth,
    qcr: Seq<int>,
    qcb: Seq<int>,
    qy: Seq<int>,
    lcr: nat,
    lcb: nat,
    ly: nat,
) -> Seq<bool> {
    plane_ac_code(coding, qcr, lcr, depth.bits() + 2) + plane_ac_code(
        coding,
        qcb,
        lcb,
        depth.bits() + 2,
    ) + plane_ac_code(coding, qy, ly, depth.bits() + 1)
}

} // verus!
