//! The tally of one sweep of the dock's reply endpoint.

use vstd::prelude::*;

verus! {

/// Length of a receiver's nonce.
pub const RRX_LEN: usize = 8;

/// Length of the H', L' and M' digests.
pub const DIGEST_LEN: usize = 32;

/// Length of half of V'.
pub const V_PRIME_HALF_LEN: usize = 16;

/// Bytes of list header ahead of V' in a receiver list.
pub const LIST_HEADER_LEN: usize = 9;

/// A downstream authentication message the dock pushed for one connector.
#[derive(Debug)]
pub struct PerheadHdcpPush {
    /// The message.
    pub msg_id: u8,
    /// What it carries.
    pub payload: Vec<u8>,
}

/// A receiver list: its authenticated header and V'.
#[derive(Clone, Copy, Debug)]
pub struct ReceiverList {
    /// RxInfo, sequence number and list header.
    pub header: [u8; 9],
    /// The receiver's half of V.
    pub vprime: [u8; 16],
}

/// Tally of one sweep.
///
/// An acknowledgment is counted only after its inner header decrypts; a tagged frame that does
/// not is counted as a rejection.
#[derive(Clone, Copy, Debug)]
pub struct Ep84Drain {
    /// Frames read.
    pub reads: usize,
    /// Frames that decrypted.
    pub acks: usize,
    /// Tagged frames that did not.
    pub rejects: usize,
    /// Whether any frame reported the downstream read complete.
    pub edid_ready: bool,
    /// The request counter a display-capability reply echoed.
    pub display_cap_ctr: Option<u16>,
    /// The receiver's fresh nonce.
    pub per_connector_rrx: Option<[u8; 8]>,
    /// Bit `m` is set once push `m` has been seen.
    pub per_connector_seen: u32,
    /// Whether the receiver is a repeater.
    pub per_connector_repeater: Option<bool>,
    /// H'.
    pub per_connector_hprime: Option<[u8; 32]>,
    /// L'.
    pub per_connector_lprime: Option<[u8; 32]>,
    /// The receiver list and V'.
    pub per_connector_v: Option<ReceiverList>,
    /// The receiver-authentication status.
    pub per_connector_auth_status: Option<u8>,
    /// M'.
    pub per_connector_mprime: Option<[u8; 32]>,
}

/// The first of two optional values that is there.
pub open spec fn first_of<T>(a: Option<T>, b: Option<T>) -> Option<T> {
    if a is Some {
        a
    } else {
        b
    }
}

/// The bytes of an optional array.
pub open spec fn bytes_of<const N: usize>(a: Option<[u8; N]>) -> Option<Seq<u8>> {
    match a {
        Some(v) => Some(v@),
        None => None,
    }
}

/// The bytes of an optional receiver list: its header and V'.
pub open spec fn list_of(a: Option<ReceiverList>) -> Option<(Seq<u8>, Seq<u8>)> {
    match a {
        Some(v) => Some((v.header@, v.vprime@)),
        None => None,
    }
}

/// What a tally holds.
#[verifier::ext_equal]
pub ghost struct Tally {
    pub reads: int,
    pub acks: int,
    pub rejects: int,
    pub edid_ready: bool,
    pub display_cap_ctr: Option<u16>,
    pub rrx: Option<Seq<u8>>,
    pub seen: u32,
    pub repeater: Option<bool>,
    pub hprime: Option<Seq<u8>>,
    pub lprime: Option<Seq<u8>>,
    pub v: Option<(Seq<u8>, Seq<u8>)>,
    pub auth_status: Option<u8>,
    pub mprime: Option<Seq<u8>>,
}

/// The tally of nothing.
pub open spec fn empty_tally() -> Tally {
    Tally {
        reads: 0,
        acks: 0,
        rejects: 0,
        edid_ready: false,
        display_cap_ctr: None,
        rrx: None,
        seen: 0,
        repeater: None,
        hprime: None,
        lprime: None,
        v: None,
        auth_status: None,
        mprime: None,
    }
}

/// Two tallies together: counts added, flags joined, and of each value the first one found.
pub open spec fn joined(a: Tally, b: Tally) -> Tally {
    Tally {
        reads: a.reads + b.reads,
        acks: a.acks + b.acks,
        rejects: a.rejects + b.rejects,
        edid_ready: a.edid_ready || b.edid_ready,
        display_cap_ctr: first_of(a.display_cap_ctr, b.display_cap_ctr),
        rrx: first_of(a.rrx, b.rrx),
        seen: a.seen | b.seen,
        repeater: first_of(a.repeater, b.repeater),
        hprime: first_of(a.hprime, b.hprime),
        lprime: first_of(a.lprime, b.lprime),
        v: first_of(a.v, b.v),
        auth_status: first_of(a.auth_status, b.auth_status),
        mprime: first_of(a.mprime, b.mprime),
    }
}

/// `seen` with the bit of push `msg_id` set; messages past the word leave no trace.
pub open spec fn mark(seen: u32, msg_id: u8) -> u32 {
    if msg_id < 32 {
        seen | (1u32 << msg_id)
    } else {
        seen
    }
}

/// A tally after a push: the push is marked seen, and where it carries a whole value of its
/// kind that value replaces the one held.
pub open spec fn observed(t: Tally, msg_id: u8, p: Seq<u8>) -> Tally {
    let m = Tally { seen: mark(t.seen, msg_id), ..t };
    if msg_id == 0x03 && p.len() >= 1 {
        Tally { repeater: Some(p[0] != 0), ..m }
    } else if msg_id == 0x06 && p.len() >= RRX_LEN {
        Tally { rrx: Some(p.take(RRX_LEN as int)), ..m }
    } else if msg_id == 0x07 && p.len() >= DIGEST_LEN {
        Tally { hprime: Some(p.take(DIGEST_LEN as int)), ..m }
    } else if msg_id == 0x0a && p.len() >= DIGEST_LEN {
        Tally { lprime: Some(p.take(DIGEST_LEN as int)), ..m }
    } else if msg_id == 0x0c && p.len() >= LIST_HEADER_LEN + V_PRIME_HALF_LEN {
        Tally { v: Some((p.take(9), p.subrange(9, 25))), ..m }
    } else if msg_id == 0x12 && p.len() >= 2 {
        Tally { auth_status: Some(p[1]), ..m }
    } else if msg_id == 0x11 && p.len() >= DIGEST_LEN {
        Tally { mprime: Some(p.take(DIGEST_LEN as int)), ..m }
    } else {
        m
    }
}

/// Whether a tally has seen push `msg_id`.
pub open spec fn saw(t: Tally, msg_id: u8) -> bool {
    msg_id < 32 && t.seen & (1u32 << msg_id) != 0
}

/// Copy `N` bytes from `at`.
fn cut<const N: usize>(s: &[u8], at: usize) -> (out: [u8; N])
    requires
        at + N <= s@.len(),
    ensures
        out@ == s@.subrange(at as int, at + N),
{
    let mut out: [u8; N] = [0;N];
    let len: usize = s.len();
    let mut i: usize = 0;
    while i < N
        invariant
            i <= N,
            len == s@.len(),
            at + N <= s@.len(),
            forall|j: int| 0 <= j < i ==> out@[j] == s@[at + j],
        decreases N - i,
    {
        out[i] = s[at + i];
        i += 1;
    }
    assert(out@ =~= s@.subrange(at as int, at + N));
    out
}

/// The first of two optional values that is there.
fn or<T: Copy>(a: Option<T>, b: Option<T>) -> (r: Option<T>)
    ensures
        r == first_of(a, b),
{
    if a.is_some() {
        a
    } else {
        b
    }
}

impl View for Ep84Drain {
    type V = Tally;

    open spec fn view(&self) -> Tally {
        Tally {
            reads: self.reads as int,
            acks: self.acks as int,
            rejects: self.rejects as int,
            edid_ready: self.edid_ready,
            display_cap_ctr: self.display_cap_ctr,
            rrx: bytes_of(self.per_connector_rrx),
            seen: self.per_connector_seen,
            repeater: self.per_connector_repeater,
            hprime: bytes_of(self.per_connector_hprime),
            lprime: bytes_of(self.per_connector_lprime),
            v: list_of(self.per_connector_v),
            auth_status: self.per_connector_auth_status,
            mprime: bytes_of(self.per_connector_mprime),
        }
    }
}

impl Ep84Drain {
    /// The tally of nothing.
    pub fn new() -> (d: Ep84Drain)
        ensures
            d@ == empty_tally(),
    {
        Ep84Drain {
            reads: 0,
            acks: 0,
            rejects: 0,
            edid_ready: false,
            display_cap_ctr: None,
            per_connector_rrx: None,
            per_connector_seen: 0,
            per_connector_repeater: None,
            per_connector_hprime: None,
            per_connector_lprime: None,
            per_connector_v: None,
            per_connector_auth_status: None,
            per_connector_mprime: None,
        }
    }

    /// Fold another sweep's tally into this one.
    pub fn add(&mut self, o: Ep84Drain)
        requires
            old(self)@.reads + o@.reads <= usize::MAX,
            old(self)@.acks + o@.acks <= usize::MAX,
            old(self)@.rejects + o@.rejects <= usize::MAX,
        ensures
            final(self)@ == joined(old(self)@, o@),
    {
        self.reads = self.reads + o.reads;
        self.acks = self.acks + o.acks;
        self.rejects = self.rejects + o.rejects;
        self.edid_ready = self.edid_ready || o.edid_ready;
        self.display_cap_ctr = or(self.display_cap_ctr, o.display_cap_ctr);
        self.per_connector_rrx = or(self.per_connector_rrx, o.per_connector_rrx);
        self.per_connector_seen = self.per_connector_seen | o.per_connector_seen;
        self.per_connector_repeater = or(self.per_connector_repeater, o.per_connector_repeater);
        self.per_connector_hprime = or(self.per_connector_hprime, o.per_connector_hprime);
        self.per_connector_lprime = or(self.per_connector_lprime, o.per_connector_lprime);
        self.per_connector_v = or(self.per_connector_v, o.per_connector_v);
        self.per_connector_auth_status =
        or(self.per_connector_auth_status, o.per_connector_auth_status);
        self.per_connector_mprime = or(self.per_connector_mprime, o.per_connector_mprime);
    }

    /// Record a downstream authentication push.
    pub fn observe_perhead(&mut self, push: &PerheadHdcpPush)
        ensures
            final(self)@ == observed(old(self)@, push.msg_id, push.payload@),
    {
        let msg_id: u8 = push.msg_id;
        let p = push.payload.as_slice();
        if msg_id < 32 {
            self.per_connector_seen = self.per_connector_seen | (1u32 << msg_id);
        }
        if msg_id == 0x03 && p.len() >= 1 {
            self.per_connector_repeater = Some(p[0] != 0);
        } else if msg_id == 0x06 && p.len() >= RRX_LEN {
            self.per_connector_rrx = Some(cut::<8>(p, 0));
        } else if msg_id == 0x07 && p.len() >= DIGEST_LEN {
            self.per_connector_hprime = Some(cut::<32>(p, 0));
        } else if msg_id == 0x0a && p.len() >= DIGEST_LEN {
            self.per_connector_lprime = Some(cut::<32>(p, 0));
        } else if msg_id == 0x0c && p.len() >= LIST_HEADER_LEN + V_PRIME_HALF_LEN {
            self.per_connector_v =
            Some(ReceiverList { header: cut::<9>(p, 0), vprime: cut::<16>(p, 9) });
        } else if msg_id == 0x12 && p.len() >= 2 {
            self.per_connector_auth_status = Some(p[1]);
        } else if msg_id == 0x11 && p.len() >= DIGEST_LEN {
            self.per_connector_mprime = Some(cut::<32>(p, 0));
        }
    }

    /// Whether push `msg_id` has been seen.
    pub fn saw_perhead(&self, msg_id: u8) -> (seen: bool)
        ensures
            seen == saw(self@, msg_id),
    {
        msg_id < 32 && self.per_connector_seen & (1u32 << msg_id) != 0
    }
}

/// A push is seen once it has been observed, and stays seen through every later push.
pub proof fn law_observed_pushes_stay_seen(t: Tally, msg_id: u8, p: Seq<u8>, other: u8)
    ensures
        msg_id < 32 ==> saw(observed(t, msg_id, p), msg_id),
        saw(t, other) ==> saw(observed(t, msg_id, p), other),
        saw(observed(t, msg_id, p), other) ==> saw(t, other) || other == msg_id,
{
    let seen = t.seen;
    if msg_id < 32 {
        assert((seen | (1u32 << msg_id)) & (1u32 << msg_id) != 0) by (bit_vector)
            requires
                msg_id < 32,
        ;
        if other < 32 {
            assert((seen & (1u32 << other) != 0) ==> (seen | (1u32 << msg_id)) & (1u32 << other)
                != 0) by (bit_vector);
            assert((seen | (1u32 << msg_id)) & (1u32 << other) != 0 ==> (seen & (1u32 << other)
                != 0) || other == msg_id) by (bit_vector)
                requires
                    msg_id < 32,
                    other < 32,
            ;
        }
    }
}

/// Joining tallies is associative, with the tally of nothing neutral on both sides.
pub proof fn law_tallies_form_a_monoid(a: Tally, b: Tally, c: Tally)
    ensures
        joined(a, joined(b, c)) == joined(joined(a, b), c),
        joined(a, empty_tally()) == a,
        joined(empty_tally(), a) == a,
{
    let (x, y, z) = (a.seen, b.seen, c.seen);
    assert(x | (y | z) == (x | y) | z) by (bit_vector);
    assert(x | 0 == x && 0 | x == x) by (bit_vector);
}

/// A push changes no count and nothing that a reply teaches.
pub proof fn law_pushes_leave_the_counts(t: Tally, msg_id: u8, p: Seq<u8>)
    ensures
        ({
            let o = observed(t, msg_id, p);
            &&& o.reads == t.reads
            &&& o.acks == t.acks
            &&& o.rejects == t.rejects
            &&& o.edid_ready == t.edid_ready
            &&& o.display_cap_ctr == t.display_cap_ctr
        }),
{
}

/// Each push carries one value, in the bytes the receiver sends it in; a push that is too short
/// for its value, and every other push, leaves the value that was held.
pub proof fn law_pushes_carry_their_values(t: Tally, msg_id: u8, p: Seq<u8>)
    ensures
        ({
            let o = observed(t, msg_id, p);
            &&& o.repeater == (if msg_id == 3 && p.len() > 0 {
                Some(p[0] != 0)
            } else {
                t.repeater
            })
            &&& o.rrx == (if msg_id == 6 && p.len() >= 8 {
                Some(p.subrange(0, 8))
            } else {
                t.rrx
            })
            &&& o.hprime == (if msg_id == 7 && p.len() >= 32 {
                Some(p.subrange(0, 32))
            } else {
                t.hprime
            })
            &&& o.lprime == (if msg_id == 10 && p.len() >= 32 {
                Some(p.subrange(0, 32))
            } else {
                t.lprime
            })
            &&& o.v == (if msg_id == 12 && p.len() >= 25 {
                Some((p.subrange(0, 9), p.subrange(9, 25)))
            } else {
                t.v
            })
            &&& o.auth_status == (if msg_id == 18 && p.len() >= 2 {
                Some(p[1])
            } else {
                t.auth_status
            })
            &&& o.mprime == (if msg_id == 17 && p.len() >= 32 {
                Some(p.subrange(0, 32))
            } else {
                t.mprime
            })
        }),
{
}

/// Folding sweeps together loses none: every frame, acknowledgment and rejection is counted, what
/// either saw is seen, and a value that only one of them holds is kept, the earlier one of two.
pub proof fn law_folding_loses_nothing(a: Tally, b: Tally, msg_id: u8)
    ensures
        ({
            let j = joined(a, b);
            &&& j.reads == a.reads + b.reads
            &&& j.acks == a.acks + b.acks
            &&& j.rejects == a.rejects + b.rejects
            &&& j.edid_ready <==> a.edid_ready || b.edid_ready
            &&& saw(j, msg_id) <==> saw(a, msg_id) || saw(b, msg_id)
            &&& a.rrx is Some ==> j.rrx == a.rrx
            &&& a.rrx is None ==> j.rrx == b.rrx
            &&& a.hprime is Some ==> j.hprime == a.hprime
            &&& a.hprime is None ==> j.hprime == b.hprime
            &&& a.lprime is Some ==> j.lprime == a.lprime
            &&& a.lprime is None ==> j.lprime == b.lprime
            &&& a.v is Some ==> j.v == a.v
            &&& a.v is None ==> j.v == b.v
            &&& a.mprime is Some ==> j.mprime == a.mprime
            &&& a.mprime is None ==> j.mprime == b.mprime
            &&& a.repeater is Some ==> j.repeater == a.repeater
            &&& a.repeater is None ==> j.repeater == b.repeater
            &&& a.auth_status is Some ==> j.auth_status == a.auth_status
            &&& a.auth_status is None ==> j.auth_status == b.auth_status
            &&& a.display_cap_ctr is Some ==> j.display_cap_ctr == a.display_cap_ctr
            &&& a.display_cap_ctr is None ==> j.display_cap_ctr == b.display_cap_ctr
        }),
{
    let (x, y) = (a.seen, b.seen);
    if msg_id < 32 {
        assert((x | y) & (1u32 << msg_id) != 0 <==> x & (1u32 << msg_id) != 0 || y & (1u32
            << msg_id) != 0) by (bit_vector);
    }
}

} // verus!
