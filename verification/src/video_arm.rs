//! The stream configuration a dock is armed with, and the code dialects it names.

use vstd::prelude::*;

use crate::bytes;
use crate::error::Error;
use crate::haar::quant;

verus! {

/// Which dialect of the shared unary code a dock's decoder reads.
#[derive(Clone, Copy, Debug, PartialEq, Eq, Structural)]
pub enum CodeTables {
    /// Payload after the terminator, most significant bit first.
    Wide,
    /// One payload bit after each unary one, least significant bit first, terminator last.
    Narrow,
}

/// How long a configuration is.
pub const CONFIG_LEN: usize = 1104;

/// Decoder code table 0.
pub const CODE_TABLE_0: [u32; 47] = [
    0, 6, 0, 28, 0, 120, 0, 496, 0, 2016, 0, 8128, 0, 32640, 0, 130816, 262144, 0, 0, 0, 0, 0, 0,
    0, 0, 3, 0, 21, 0, 105, 0, 465, 0, 1953, 0, 8001, 0, 32385, 0, 130305, 261121, 0, 0, 0, 0, 0,
    0,
];

/// Decoder code table 1.
pub const CODE_TABLE_1: [u32; 47] = [
    0, 6, 0, 28, 0, 120, 0, 496, 0, 2016, 0, 8128, 0, 32640, 0, 130816, 0, 523776, 1048576, 0, 0,
    0, 0, 0, 0, 3, 0, 21, 0, 105, 0, 465, 0, 1953, 0, 8001, 0, 32385, 0, 130305, 0, 522753,
    1046529, 0, 0, 0, 0,
];

/// Decoder code table 2.
pub const CODE_TABLE_2: [u32; 47] = [
    0, 6, 0, 28, 0, 120, 0, 496, 0, 2016, 0, 8128, 0, 32640, 0, 130816, 0, 523776, 1048576, 0, 0,
    0, 0, 0, 0, 3, 0, 21, 0, 105, 0, 465, 0, 1953, 0, 8001, 0, 32385, 0, 130305, 0, 522753,
    1046529, 0, 0, 0, 0,
];

/// Decoder code table 3.
pub const CODE_TABLE_3: [u32; 47] = [
    0, 6, 0, 28, 0, 120, 255, 512, 0, 0, 0, 0, 0, 0, 0, 0, 0, 0, 0, 0, 0, 0, 0, 0, 0, 3, 0, 21, 0,
    105, 225, 480, 0, 0, 0, 0, 0, 0, 0, 0, 0, 0, 0, 0, 0, 0, 0,
];

/// Decoder code table 4.
pub const CODE_TABLE_4: [u32; 47] = [
    0, 6, 0, 28, 0, 120, 0, 496, 0, 2016, 0, 8128, 16383, 32768, 0, 0, 0, 0, 0, 0, 0, 0, 0, 0, 0,
    3, 0, 21, 0, 105, 0, 465, 0, 1953, 0, 8001, 16129, 32512, 0, 0, 0, 0, 0, 0, 0, 0, 0,
];

/// Decoder quantisation parameters: the steps of every band as Cr, Cb, Y triples.
pub const QUANT_TABLE: [u16; 41] = [
    10, 1, 1, 0, 64, 64, 16, 16, 16, 16, 16, 16, 16, 32, 32, 32, 1, 1, 1, 16, 16, 4, 16, 16, 4,
    32, 32, 8, 1, 1, 1, 32, 32, 2, 32, 32, 2, 64, 64, 4, 0,
];

/// The 16-bit words of a table, low byte first.
pub open spec fn words16(table: Seq<u16>, n: nat) -> Seq<u8>
    decreases n,
{
    if n == 0 {
        Seq::empty()
    } else {
        words16(table, (n - 1) as nat) + bytes::le16(table[n - 1] as int)
    }
}

/// The 32-bit words of a table, low byte first.
pub open spec fn words32(table: Seq<u32>, n: nat) -> Seq<u8>
    decreases n,
{
    if n == 0 {
        Seq::empty()
    } else {
        words32(table, (n - 1) as nat) + bytes::le32(table[n - 1] as int)
    }
}

/// A code table record: its length, its index, a version word and its values.
pub open spec fn table_record(index: int, table: Seq<u32>) -> Seq<u8> {
    bytes::le16(194) + bytes::le16(256 * index + 0x0d) + bytes::le32(1) + words32(
        table,
        table.len(),
    )
}

/// The mode header: the surface twice, each with the layout word.
pub open spec fn mode_header(width: u16, height: u16, layout: u16) -> Seq<u8> {
    words16(
        seq![
            0x0018u16,
            0x030bu16,
            0x0204u16,
            0x0002u16,
            0x0002u16,
            width,
            height,
            layout,
            0x0002u16,
            width,
            height,
            layout,
            0u16,
        ],
        13,
    )
}

/// The decoder configuration of a stream: the mode header, five code tables, the quantisation
/// table and the nonce.
pub open spec fn config_spec(width: u16, height: u16, layout: u16, nonce: Seq<u8>) -> Seq<u8> {
    mode_header(width, height, layout) + table_record(0, CODE_TABLE_0@) + table_record(
        1,
        CODE_TABLE_1@,
    ) + table_record(2, CODE_TABLE_2@) + table_record(3, CODE_TABLE_3@) + table_record(
        4,
        CODE_TABLE_4@,
    ) + bytes::le16(82) + words16(QUANT_TABLE@, 41) + nonce
}

/// Append the words of a 16-bit table.
fn append_words16(out: &mut Vec<u8>, table: &[u16])
    ensures
        final(out)@ == old(out)@ + words16(table@, table@.len()),
{
    let ghost start = out@;
    assert(start =~= start + words16(table@, 0));
    let mut i: usize = 0;
    while i < table.len()
        invariant
            i <= table@.len(),
            out@ == start + words16(table@, i as nat),
        decreases table@.len() - i,
    {
        bytes::append_u16(out, table[i]);
        i += 1;
        assert(out@ =~= start + words16(table@, i as nat));
    }
}

/// Append the words of a 32-bit table.
fn append_words32(out: &mut Vec<u8>, table: &[u32])
    ensures
        final(out)@ == old(out)@ + words32(table@, table@.len()),
{
    let ghost start = out@;
    assert(start =~= start + words32(table@, 0));
    let mut i: usize = 0;
    while i < table.len()
        invariant
            i <= table@.len(),
            out@ == start + words32(table@, i as nat),
        decreases table@.len() - i,
    {
        bytes::append_u32(out, table[i]);
        i += 1;
        assert(out@ =~= start + words32(table@, i as nat));
    }
}

/// Append a code table record; see [`table_record`].
fn append_table(out: &mut Vec<u8>, index: u16, table: &[u32])
    requires
        index < 5,
    ensures
        final(out)@ == old(out)@ + table_record(index as int, table@),
{
    let mut own: Vec<u8> = Vec::new();
    bytes::append_u16(&mut own, 194);
    assert(own@ =~= bytes::le16(194));
    bytes::append_u16(&mut own, 256 * index + 0x0d);
    bytes::append_u32(&mut own, 1);
    append_words32(&mut own, table);
    bytes::append(out, &own);
}

/// Build the plaintext decoder configuration for a stream, with the dock's layout word.
pub fn build_with_layout_word(width: u16, height: u16, layout: u16, nonce: &[u8; 14]) -> (r: Result<
    Vec<u8>,
    Error,
>)
    ensures
        r matches Ok(c) && c@ == config_spec(width, height, layout, nonce@),
{
    let header: [u16; 13] = [
        0x0018,
        0x030b,
        0x0204,
        0x0002,
        0x0002,
        width,
        height,
        layout,
        0x0002,
        width,
        height,
        layout,
        0,
    ];
    let mut out: Vec<u8> = Vec::new();
    append_words16(&mut out, &header);
    proof {
        let want = seq![
            0x0018u16,
            0x030bu16,
            0x0204u16,
            0x0002u16,
            0x0002u16,
            width,
            height,
            layout,
            0x0002u16,
            width,
            height,
            layout,
            0u16,
        ];
        assert(header@ =~= want);
        assert(out@ =~= mode_header(width, height, layout));
    }
    append_table(&mut out, 0, &CODE_TABLE_0);
    append_table(&mut out, 1, &CODE_TABLE_1);
    append_table(&mut out, 2, &CODE_TABLE_2);
    append_table(&mut out, 3, &CODE_TABLE_3);
    append_table(&mut out, 4, &CODE_TABLE_4);
    bytes::append_u16(&mut out, 82);
    append_words16(&mut out, &QUANT_TABLE);
    bytes::append(&mut out, nonce);
    Ok(out)
}

/// Build the plaintext decoder configuration for a stream with the common layout word.
pub fn build(width: u16, height: u16, nonce: &[u8; 14]) -> (r: Result<Vec<u8>, Error>)
    ensures
        r matches Ok(c) && c@ == config_spec(width, height, 0x4000, nonce@),
{
    build_with_layout_word(width, height, 0x4000, nonce)
}

/// How long a run of words is.
proof fn lemma_words_len(a: Seq<u16>, b: Seq<u32>, n: nat)
    ensures
        words16(a, n).len() == 2 * n,
        words32(b, n).len() == 4 * n,
    decreases n,
{
    if n > 0 {
        lemma_words_len(a, b, (n - 1) as nat);
    }
}

/// Every configuration is 1104 bytes long and ends in its nonce.
pub proof fn law_configuration_ends_in_its_nonce(
    width: u16,
    height: u16,
    layout: u16,
    nonce: Seq<u8>,
)
    requires
        nonce.len() == 14,
    ensures
        config_spec(width, height, layout, nonce).len() == CONFIG_LEN,
        config_spec(width, height, layout, nonce).skip(1090) == nonce,
{
    let header = seq![
        0x0018u16,
        0x030bu16,
        0x0204u16,
        0x0002u16,
        0x0002u16,
        width,
        height,
        layout,
        0x0002u16,
        width,
        height,
        layout,
        0u16,
    ];
    lemma_words_len(header, CODE_TABLE_0@, 13);
    lemma_words_len(QUANT_TABLE@, CODE_TABLE_0@, 41);
    lemma_words_len(QUANT_TABLE@, CODE_TABLE_0@, 47);
    lemma_words_len(QUANT_TABLE@, CODE_TABLE_1@, 47);
    lemma_words_len(QUANT_TABLE@, CODE_TABLE_2@, 47);
    lemma_words_len(QUANT_TABLE@, CODE_TABLE_3@, 47);
    lemma_words_len(QUANT_TABLE@, CODE_TABLE_4@, 47);
    assert(table_record(0, CODE_TABLE_0@).len() == 196);
    assert(table_record(1, CODE_TABLE_1@).len() == 196);
    assert(table_record(2, CODE_TABLE_2@).len() == 196);
    assert(table_record(3, CODE_TABLE_3@).len() == 196);
    assert(table_record(4, CODE_TABLE_4@).len() == 196);
    assert(config_spec(width, height, layout, nonce).skip(1090) =~= nonce);
}

/// The position of the first coefficient of a band: the DC, then the HL, LH and HH bands of
/// each level from the coarsest.
pub open spec fn band_position(band: int) -> int {
    if band <= 3 {
        band
    } else if band <= 6 {
        4 * (band - 3)
    } else {
        16 * (band - 6)
    }
}

/// Where a band's triple stands in the quantisation table; a triple of ones precedes each of
/// the finer levels.
pub open spec fn band_triple(band: int) -> int {
    4 + 3 * (band + (if band <= 3 {
        0int
    } else if band <= 6 {
        1int
    } else {
        2int
    }))
}

/// The configuration declares exactly the steps the encoder quantises with, on every band.
pub proof fn law_configuration_declares_the_quantisers(band: int)
    requires
        0 <= band <= 9,
    ensures
        ({
            let at = band_triple(band);
            let chroma = if band == 0 {
                quant::dc_step(1)
            } else {
                quant::chroma_step(band_position(band))
            };
            let luma = if band == 0 {
                quant::dc_step(0)
            } else {
                quant::luma_step(band_position(band))
            };
            &&& QUANT_TABLE@[at] == chroma
            &&& QUANT_TABLE@[at + 1] == chroma
            &&& QUANT_TABLE@[at + 2] == luma
        }),
{
}

/// The configuration states the surface, twice, and the layout that goes with it.
pub proof fn law_configuration_states_its_surface(
    width: u16,
    height: u16,
    layout: u16,
    nonce: Seq<u8>,
)
    ensures
        ({
            let c = config_spec(width, height, layout, nonce);
            &&& bytes::u16_at(c, 10) == width && bytes::u16_at(c, 18) == width
            &&& bytes::u16_at(c, 12) == height && bytes::u16_at(c, 20) == height
            &&& bytes::u16_at(c, 14) == layout && bytes::u16_at(c, 22) == layout
        }),
{
    let c = config_spec(width, height, layout, nonce);
    let h = mode_header(width, height, layout);
    let t = seq![
        0x0018u16,
        0x030bu16,
        0x0204u16,
        0x0002u16,
        0x0002u16,
        width,
        height,
        layout,
        0x0002u16,
        width,
        height,
        layout,
        0u16,
    ];
    lemma_word_at(t, 13, 5);
    lemma_word_at(t, 13, 6);
    lemma_word_at(t, 13, 7);
    lemma_word_at(t, 13, 9);
    lemma_word_at(t, 13, 10);
    lemma_word_at(t, 13, 11);
    assert(h == words16(t, 13));
    assert forall|k: int| 0 <= k < 26 implies c[k] == #[trigger] h[k] by {}
    assert(c[10] == h[10] && c[11] == h[11] && c[12] == h[12] && c[13] == h[13] && c[14] == h[14]
        && c[15] == h[15]);
    assert(c[18] == h[18] && c[19] == h[19] && c[20] == h[20] && c[21] == h[21] && c[22] == h[22]
        && c[23] == h[23]);
}

proof fn lemma_word_at(table: Seq<u16>, n: nat, k: int)
    requires
        0 <= k < n <= table.len(),
    ensures
        words16(table, n).len() == 2 * n,
        bytes::u16_at(words16(table, n), 2 * k) == table[k],
    decreases n,
{
    if k < n - 1 {
        lemma_word_at(table, (n - 1) as nat, k);
        let before = words16(table, (n - 1) as nat);
        assert(words16(table, n)[2 * k] == before[2 * k]);
        assert(words16(table, n)[2 * k + 1] == before[2 * k + 1]);
    } else {
        lemma_words_len(table, Seq::empty(), (n - 1) as nat);
        let last = bytes::le16(table[n - 1] as int);
        assert(words16(table, n)[2 * k] == last[0] && words16(table, n)[2 * k + 1] == last[1]);
    }
}

} // verus!
