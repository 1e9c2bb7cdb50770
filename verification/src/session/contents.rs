//! The messages of the setup burst, byte by byte.

use vstd::prelude::*;

use crate::bytes;
use crate::bytes::{append, append_u16, append_u32, append_zeros, low_u16};
use crate::session::program::HeadStep;

verus! {

/// The plaintext marker that arms the cipher: two empty records, tagged `0x24` and `0x45`.
pub const STREAM_OPEN: [u8; 64] = [
    0x00, 0x00, 0x1c, 0x00, 0x02, 0x00, 0x00, 0x00, 0x24, 0x00, 0x00, 0x00, 0x00, 0x00, 0x00, 0x00,
    0x04, 0x00, 0x06, 0x00, 0x00, 0x00, 0x00, 0x00, 0x00, 0x00, 0x00, 0x00, 0x00, 0x00, 0x00, 0x00,
    0x00, 0x00, 0x1c, 0x00, 0x02, 0x00, 0x00, 0x00, 0x45, 0x00, 0x00, 0x00, 0x00, 0x00, 0x00, 0x00,
    0x05, 0x00, 0x0e, 0x00, 0x00, 0x00, 0x00, 0x00, 0x00, 0x00, 0x00, 0x00, 0x00, 0x00, 0x00, 0x00,
];

/// Payload of the transmitter's description of itself.
pub const TRANSMITTER_INFO: [u8; 5] = [0x00, 0x06, 0x02, 0x00, 0x02];

/// Length of the authenticator behind a sealed content.
pub const MAC_LEN: usize = 16;

/// The wire header of the first sealed message.
pub open spec fn hello_header_spec(content_len: int, aux: u16, wseq: u32) -> Seq<u8> {
    seq![0u8, 0u8] + bytes::le16((16 + content_len + MAC_LEN - 4) % 0x1_0000) + bytes::le32(4)
        + bytes::le16(0x24) + bytes::le16(aux as int) + bytes::le32(wseq as int)
}

/// Build the wire header of the first sealed message, whose content is `content_len` bytes.
pub fn hello_header(content_len: usize, aux: u16, wseq: u32) -> (h: Vec<u8>)
    requires
        content_len <= usize::MAX - 32,
    ensures
        h@ == hello_header_spec(content_len as int, aux, wseq),
        h@.len() == 16,
{
    let mut h: Vec<u8> = Vec::new();
    h.push(0);
    h.push(0);
    assert(h@ =~= seq![0u8, 0u8]);
    append_u16(&mut h, low_u16(16 + content_len + MAC_LEN - 4));
    append_u32(&mut h, 4);
    append_u16(&mut h, 0x24);
    append_u16(&mut h, aux);
    append_u32(&mut h, wseq);
    h
}

/// What every sealed message starts with: identifier, kind and inner counter, and zeros up to
/// `until`.
pub open spec fn preamble(id: u16, sub: u16, ctr: u16, until: nat) -> Seq<u8> {
    bytes::le16(id as int) + bytes::le16(sub as int) + bytes::le16(ctr as int) + bytes::zero_bytes(
        (until - 6) as nat,
    )
}

/// Start a message.
fn start(id: u16, sub: u16, ctr: u16, until: usize) -> (c: Vec<u8>)
    requires
        until >= 6,
    ensures
        c@ == preamble(id, sub, ctr, until as nat),
        c@.len() == until,
{
    let mut c: Vec<u8> = Vec::new();
    append_u16(&mut c, id);
    append_u16(&mut c, sub);
    append_u16(&mut c, ctr);
    append_zeros(&mut c, until - 6);
    assert(c@ =~= preamble(id, sub, ctr, until as nat));
    c
}

/// An initialization record: a ten-byte tail of random bytes whose start is overwritten by
/// `prefix`.
pub fn init_content(id: u16, sub: u16, ctr: u16, prefix: &[u8], random: &[u8; 10]) -> (c: Vec<u8>)
    requires
        prefix@.len() <= 10,
    ensures
        c@ == preamble(id, sub, ctr, 22) + prefix@ + random@.skip(prefix@.len() as int),
        c@.len() == 32,
{
    let mut c = start(id, sub, ctr, 22);
    append(&mut c, prefix);
    append(&mut c, vstd::slice::slice_subrange(random.as_slice(), prefix.len(), 10));
    assert(random@.subrange(prefix@.len() as int, 10) =~= random@.skip(prefix@.len() as int));
    c
}

/// The authentication message that message `i` of a connector restates.
pub open spec fn head_tag(i: int) -> u8 {
    if i == 0 {
        0x02
    } else if i == 1 {
        0x13
    } else if i == 2 {
        0x04
    } else if i == 3 {
        0x09
    } else if i == 4 {
        0x0b
    } else {
        0x0f
    }
}

/// Payload bytes of authentication message `i`.
pub open spec fn payload_len(i: int) -> int {
    if i == 0 || i == 3 {
        8
    } else if i == 1 {
        5
    } else if i == 2 {
        128
    } else if i == 4 {
        24
    } else {
        16
    }
}

/// Random bytes behind the payload of authentication message `i`.
pub open spec fn filler_len(i: int) -> int {
    if i == 1 {
        15
    } else if i == 2 || i == 5 {
        4
    } else {
        12
    }
}

/// Payload bytes of authentication message `i`; see [`payload_len`].
pub fn payload_size(i: u8) -> (n: usize)
    ensures
        n == payload_len(i as int),
{
    match i {
        0 => 8,
        1 => 5,
        2 => 128,
        3 => 8,
        4 => 24,
        _ => 16,
    }
}

/// Random bytes behind the payload of authentication message `i`; see [`filler_len`].
pub fn filler_size(i: u8) -> (n: usize)
    ensures
        n == filler_len(i as int),
{
    match i {
        1 => 15,
        2 => 4,
        5 => 4,
        _ => 12,
    }
}

/// One of the six authentication messages: the connector's marker at 23, the message's tag at
/// 27, its payload at 28, then random bytes, then zeros.
pub fn head_content(
    step: &HeadStep,
    i: u8,
    ctr: u16,
    marker: &[u8; 4],
    payload: &[u8],
    random: &[u8],
) -> (c: Vec<u8>)
    requires
        i <= 5,
        payload@.len() == payload_len(i as int),
        random@.len() == filler_len(i as int),
        step.len >= 28 + payload_len(i as int) + filler_len(i as int),
    ensures
        c@ == preamble(step.id, step.sub, ctr, 23) + marker@ + seq![head_tag(i as int)] + payload@
            + random@ + bytes::zero_bytes(
            (step.len - 28 - payload_len(i as int) - filler_len(i as int)) as nat,
        ),
        c@.len() == step.len,
{
    let mut c = start(step.id, step.sub, ctr, 23);
    append(&mut c, marker.as_slice());
    let tag: u8 = match i {
        0 => 0x02,
        1 => 0x13,
        2 => 0x04,
        3 => 0x09,
        4 => 0x0b,
        _ => 0x0f,
    };
    let ghost prior = c@;
    c.push(tag);
    assert(c@ =~= prior + seq![head_tag(i as int)]);
    append(&mut c, payload);
    append(&mut c, random);
    let rest: usize = step.len - c.len();
    append_zeros(&mut c, rest);
    c
}

/// The message that opens a connector's stream: nothing but random bytes from 22 on.
pub fn stream_open_content(step: &HeadStep, ctr: u16, random: &[u8]) -> (c: Vec<u8>)
    requires
        step.len >= 22,
        random@.len() == step.len - 22,
    ensures
        c@ == preamble(step.id, step.sub, ctr, 22) + random@,
        c@.len() == step.len,
{
    let mut c = start(step.id, step.sub, ctr, 22);
    append(&mut c, random);
    c
}

/// The message that binds a connector to its stream: the connector at 22, the platform's marker,
/// the connector's slot and a constant from 24 on, then random bytes.
pub fn stream_bind_content(
    step: &HeadStep,
    ctr: u16,
    connector: u8,
    marker: u8,
    random: &[u8],
) -> (c: Vec<u8>)
    requires
        step.len >= 27,
        random@.len() == step.len - 27,
        connector < 64,
    ensures
        c@ == preamble(step.id, step.sub, ctr, 22) + seq![
            connector,
            0u8,
            marker,
            (4 * connector) as u8,
            0x04u8,
        ] + random@,
        c@.len() == step.len,
{
    let mut c = start(step.id, step.sub, ctr, 22);
    let ghost prior = c@;
    c.push(connector);
    c.push(0);
    c.push(marker);
    c.push(connector * 4);
    c.push(0x04);
    assert(c@ =~= prior + seq![connector, 0u8, marker, (4 * connector) as u8, 0x04u8]);
    append(&mut c, random);
    c
}

/// Any further authentication message: its preamble and zeros.
pub fn bare_content(step: &HeadStep, ctr: u16) -> (c: Vec<u8>)
    requires
        step.len >= 6,
    ensures
        c@ == preamble(step.id, step.sub, ctr, step.len as nat),
        c@.len() == step.len,
{
    start(step.id, step.sub, ctr, step.len)
}

/// The finalization kind that carries a flag.
pub const FINALIZE_FLAGGED: u16 = 0x004c;

/// Random bytes of a finalization step.
pub open spec fn finalize_filler(sub: u16) -> int {
    if sub == FINALIZE_FLAGGED {
        8
    } else {
        9
    }
}

/// Random bytes of a finalization step; see [`finalize_filler`].
pub fn finalize_size(sub: u16) -> (n: usize)
    ensures
        n == finalize_filler(sub),
{
    if sub == FINALIZE_FLAGGED {
        8
    } else {
        9
    }
}

/// A finalization step: the connector at 22, a flag behind it where the kind carries one, then
/// random bytes.
pub fn finalize_content(
    id: u16,
    sub: u16,
    ctr: u16,
    connector: u8,
    random: &[u8],
) -> (c: Vec<u8>)
    requires
        random@.len() == finalize_filler(sub),
    ensures
        c@ == preamble(id, sub, ctr, 22) + (if sub == FINALIZE_FLAGGED {
            seq![connector, 0x01u8]
        } else {
            seq![connector]
        }) + random@,
        c@.len() == 32,
{
    let mut c = start(id, sub, ctr, 22);
    let ghost prior = c@;
    c.push(connector);
    if sub == FINALIZE_FLAGGED {
        c.push(0x01);
        assert(c@ =~= prior + seq![connector, 0x01u8]);
    } else {
        assert(c@ =~= prior + seq![connector]);
    }
    append(&mut c, random);
    c
}

/// Every sealed message names its identifier, its kind and its counter in its first six bytes.
pub proof fn law_preamble_reads_back(id: u16, sub: u16, ctr: u16, until: nat, rest: Seq<u8>)
    requires
        until >= 6,
    ensures
        bytes::u16_at(preamble(id, sub, ctr, until) + rest, 0) == id,
        bytes::u16_at(preamble(id, sub, ctr, until) + rest, 2) == sub,
        bytes::u16_at(preamble(id, sub, ctr, until) + rest, 4) == ctr,
        forall|k: int| 6 <= k < until ==> (preamble(id, sub, ctr, until) + rest)[k] == 0,
{
}

/// The header of the first message states the length of the whole message less four, its type, its
/// kind, its auxiliary field and its cipher block.
pub proof fn law_the_first_header_reads_back(content_len: int, aux: u16, wseq: u32)
    requires
        0 <= content_len < 0xff00,
    ensures
        ({
            let h = hello_header_spec(content_len, aux, wseq);
            &&& h.len() == 16
            &&& bytes::u16_at(h, 0) == 0
            &&& bytes::u16_at(h, 2) + 4 == 16 + content_len + 16
            &&& bytes::u16_at(h, 4) == 4 && bytes::u16_at(h, 6) == 0
            &&& bytes::u16_at(h, 8) == 0x24
            &&& bytes::u16_at(h, 10) == aux
            &&& bytes::u16_at(h, 12) + 0x1_0000 * bytes::u16_at(h, 14) == wseq
        }),
{
    let h = hello_header_spec(content_len, aux, wseq);
    let size = bytes::le16((16 + content_len + MAC_LEN - 4) % 0x1_0000);
    let a = bytes::le16(aux as int);
    let w = bytes::le32(wseq as int);
    let kind = bytes::le32(4);
    let sub = bytes::le16(0x24);
    assert(h[2] == size[0] && h[3] == size[1]);
    assert(h[4] == kind[0] && h[5] == kind[1] && h[6] == kind[2] && h[7] == kind[3]);
    assert(h[8] == sub[0] && h[9] == sub[1]);
    assert(h[10] == a[0] && h[11] == a[1]);
    assert(h[12] == w[0] && h[13] == w[1] && h[14] == w[2] && h[15] == w[3]);
}

/// The six authentication messages restate those of the content-protection protocol, in its order:
/// initialization, the transmitter's information, the encrypted master key, the locality check, the
/// session key and the receiver list's acknowledgment; with the payloads that these carry.
pub proof fn law_authentication_messages_carry_the_protocols(i: int)
    requires
        0 <= i <= 5,
    ensures
        head_tag(i) == seq![2u8, 19, 4, 9, 11, 15][i],
        payload_len(i) == seq![8int, 5, 128, 8, 24, 16][i],
        filler_len(i) == seq![12int, 15, 4, 12, 12, 4][i],
{
}

} // verus!
