//! Events for the one client that is connected: the channel, its connections, and what is
//! delivered.
//!
//! A connection is named by its generation, so that whoever holds an old one cannot end a newer.

use vstd::prelude::*;

use crate::bytes;
use crate::bytes::{append, append_u32};
use crate::error::Error;

verus! {

/// The header that every event begins with.
#[derive(Clone, Copy, Debug, PartialEq, Eq, Structural)]
pub struct EventHeader {
    /// The event's type.
    pub type_: u32,
    /// The whole event's size in bytes.
    pub length: u32,
}

/// Size of the header in bytes.
pub const HEADER_SIZE: usize = 8;

impl EventHeader {
    /// The header of an event of type `type_` with `body` bytes after it.
    pub fn new(type_: u32, body: usize) -> (h: EventHeader)
        requires
            HEADER_SIZE + body <= u32::MAX,
        ensures
            h.type_ == type_,
            h.length == HEADER_SIZE + body,
    {
        EventHeader { type_, length: (HEADER_SIZE + body) as u32 }
    }
}

/// Marks the types that are laid out as an event.
pub trait EventPayloadSeal {

}

/// What an event carries.
pub trait EventPayload: EventPayloadSeal {
    /// The event's type.
    spec fn type_spec(&self) -> u32;

    /// The bytes after the header.
    spec fn body_spec(&self) -> Seq<u8>;

    /// The event's type.
    fn event_type(&self) -> (t: u32)
        ensures
            t == self.type_spec(),
    ;

    /// The bytes after the header.
    fn body(&self) -> (b: &[u8])
        ensures
            b@ == self.body_spec(),
    ;
}

/// An event of plain bytes.
#[derive(Clone, Debug)]
pub struct RawEvent {
    /// The event's type.
    pub type_: u32,
    /// The bytes after the header.
    pub bytes: Vec<u8>,
}

impl EventPayloadSeal for RawEvent {

}

impl EventPayload for RawEvent {
    open spec fn type_spec(&self) -> u32 {
        self.type_
    }

    open spec fn body_spec(&self) -> Seq<u8> {
        self.bytes@
    }

    fn event_type(&self) -> (t: u32) {
        self.type_
    }

    fn body(&self) -> (b: &[u8]) {
        self.bytes.as_slice()
    }
}

/// The bytes of an event.
pub open spec fn event_bytes(type_: u32, body: Seq<u8>) -> Seq<u8> {
    bytes::le32(type_ as int) + bytes::le32(HEADER_SIZE + body.len()) + body
}

/// A connection: the device and the client's anchor on it.
#[derive(Clone, Copy, Debug, PartialEq, Eq, Structural)]
pub struct Connected {
    /// The device.
    pub dev: u64,
    /// The anchor, which names the client's file for as long as the file is open.
    pub anchor: u64,
    /// Which connection this is.
    pub generation: u64,
}

/// The right to one connection, which ends when it is given back.
#[derive(Debug)]
pub struct EventConnection {
    /// Which connection this is.
    pub generation: u64,
}

/// What became of connecting.
#[derive(Debug)]
pub struct Connecting {
    /// The connection that was replaced, whose anchor is to be cancelled.
    pub replaced: Option<Connected>,
    /// The new connection.
    pub result: Result<EventConnection, Error>,
}

/// A channel of events to one client.
#[derive(Debug)]
pub struct EventChannel {
    /// The connection, if there is one.
    pub connected: Option<Connected>,
    /// The generation of the next connection.
    pub next_generation: u64,
}

/// The generation after `g`: zero is never one.
pub open spec fn following(g: u64) -> u64 {
    if g == u64::MAX {
        1
    } else {
        (g + 1) as u64
    }
}

/// The generation `k` connections after `g`.
pub open spec fn nth_following(g: u64, k: nat) -> u64
    decreases k,
{
    if k == 0 {
        g
    } else {
        following(nth_following(g, (k - 1) as nat))
    }
}

/// Why connecting does not begin: the file is another device's, or there is no anchor.
pub open spec fn refusal(dev: u64, file_device: u64, anchor: Result<u64, Error>) -> Option<Error> {
    if file_device != dev {
        Some(Error::EINVAL)
    } else {
        match anchor {
            Err(e) => Some(e),
            Ok(_) => None,
        }
    }
}

/// What is left when connection `generation` is given back.
pub open spec fn kept(connected: Option<Connected>, generation: u64) -> Option<Connected> {
    match connected {
        Some(c) if c.generation != generation => connected,
        _ => None,
    }
}

/// What ends when connection `generation` is given back.
pub open spec fn ended(connected: Option<Connected>, generation: u64) -> Option<Connected> {
    match connected {
        Some(c) if c.generation == generation => connected,
        _ => None,
    }
}

impl EventChannel {
    /// A channel with no client.
    pub fn new() -> (c: EventChannel)
        ensures
            c.connected is None,
            c.next_generation == 1,
    {
        EventChannel { connected: None, next_generation: 1 }
    }

    /// Connect a client's file, in place of whichever was connected. `anchor` is what became of
    /// making the anchor, and `reserved` of hanging it on the file.
    pub fn connect(
        &mut self,
        dev: u64,
        file_device: u64,
        anchor: Result<u64, Error>,
        reserved: Result<(), Error>,
    ) -> (r: Connecting)
        ensures
            match refusal(dev, file_device, anchor) {
                Some(e) => {
                    &&& r.result == Err::<EventConnection, Error>(e)
                    &&& r.replaced is None
                    &&& *final(self) == *old(self)
                },
                None => {
                    &&& r.replaced == old(self).connected
                    &&& match reserved {
                        Err(e) => {
                            &&& r.result == Err::<EventConnection, Error>(e)
                            &&& final(self).connected is None
                            &&& final(self).next_generation == old(self).next_generation
                        },
                        Ok(()) => {
                            &&& r.result matches Ok(t) && t.generation
                                == old(self).next_generation
                            &&& anchor matches Ok(a) && final(self).connected == Some(
                                (Connected {
                                    dev,
                                    anchor: a,
                                    generation: old(self).next_generation,
                                }),
                            )
                            &&& final(self).next_generation == following(
                                old(self).next_generation,
                            )
                        },
                    }
                },
            },
    {
        if file_device != dev {
            return Connecting { replaced: None, result: Err(Error::EINVAL) };
        }
        let anchor: u64 = match anchor {
            Ok(a) => a,
            Err(e) => {
                return Connecting { replaced: None, result: Err(e) };
            },
        };
        let replaced = self.connected;
        self.connected = None;
        match reserved {
            Err(e) => Connecting { replaced, result: Err(e) },
            Ok(()) => {
                let generation: u64 = self.next_generation;
                self.next_generation = if generation == u64::MAX {
                    1
                } else {
                    generation + 1
                };
                self.connected = Some(Connected { dev, anchor, generation });
                Connecting { replaced, result: Ok(EventConnection { generation }) }
            },
        }
    }

    /// End connection `generation`, unless a newer one has replaced it. Returns the connection
    /// whose anchor is to be cancelled.
    pub fn disconnect_generation(&mut self, generation: u64) -> (r: Option<Connected>)
        ensures
            final(self).next_generation == old(self).next_generation,
            final(self).connected == kept(old(self).connected, generation),
            r == ended(old(self).connected, generation),
    {
        match self.connected {
            Some(c) => {
                if c.generation != generation {
                    return None;
                }
                self.connected = None;
                Some(c)
            },
            None => None,
        }
    }

    /// Whether the client is connected and its file open: `receiver` is the file that the anchor
    /// names, if it still names one.
    pub fn is_connected(&self, receiver: Option<u64>) -> (b: bool)
        ensures
            b == (self.connected is Some && receiver is Some),
    {
        self.connected.is_some() && receiver.is_some()
    }

    /// The connected client's file, if it is among the files open on `dev`.
    pub fn with_connected_file(&self, dev: u64, receiver: Option<u64>, open: &[u64]) -> (r: Result<
        Option<u64>,
        Error,
    >)
        ensures
            match self.connected {
                None => r == Ok::<Option<u64>, Error>(None),
                Some(c) => if c.dev != dev {
                    r == Err::<Option<u64>, Error>(Error::EINVAL)
                } else {
                    r == Ok::<Option<u64>, Error>(
                        match receiver {
                            Some(f) => if open@.contains(f) {
                                Some(f)
                            } else {
                                None
                            },
                            None => None,
                        },
                    )
                },
            },
    {
        let c = match self.connected {
            None => {
                return Ok(None);
            },
            Some(c) => c,
        };
        if c.dev != dev {
            return Err(Error::EINVAL);
        }
        let f: u64 = match receiver {
            None => {
                return Ok(None);
            },
            Some(f) => f,
        };
        let len: usize = open.len();
        let mut i: usize = 0;
        while i < len
            invariant
                i <= len,
                len == open@.len(),
                forall|j: int| 0 <= j < i ==> open@[j] != f,
                receiver == Some(f),
                self.connected == Some(c),
                c.dev == dev,
            decreases len - i,
        {
            if open[i] == f {
                assert(open@.contains(f));
                return Ok(Some(f));
            }
            i += 1;
        }
        assert(!open@.contains(f));
        Ok(None)
    }

    /// The bytes to deliver, or none where the client has gone. `reserved` is what became of
    /// making room for the event on the client's file.
    pub fn send<T: EventPayload>(
        &self,
        payload: &T,
        receiver: Option<u64>,
        reserved: Result<(), Error>,
    ) -> (r: Result<Option<Vec<u8>>, Error>)
        requires
            HEADER_SIZE + payload.body_spec().len() <= u32::MAX,
        ensures
            self.connected is None || receiver is None ==> r == Ok::<Option<Vec<u8>>, Error>(None),
            self.connected is Some && receiver is Some ==> match reserved {
                Err(e) => r == Err::<Option<Vec<u8>>, Error>(e),
                Ok(()) => r matches Ok(Some(out)) && out@ == event_bytes(
                    payload.type_spec(),
                    payload.body_spec(),
                ),
            },
    {
        if !self.is_connected(receiver) {
            return Ok(None);
        }
        match reserved {
            Err(e) => Err(e),
            Ok(()) => {
                let body = payload.body();
                let len: usize = body.len();
                let header = EventHeader::new(payload.event_type(), len);
                let mut out: Vec<u8> = Vec::new();
                append_u32(&mut out, header.type_);
                append_u32(&mut out, header.length);
                append(&mut out, body);
                assert(out@ =~= event_bytes(payload.type_spec(), payload.body_spec()));
                Ok(Some(out))
            },
        }
    }

    /// Close the channel. Returns the connection whose anchor is to be cancelled.
    pub fn close(&mut self) -> (r: Option<Connected>)
        ensures
            r == old(self).connected,
            final(self).connected is None,
            final(self).next_generation == old(self).next_generation,
    {
        let r = self.connected;
        self.connected = None;
        r
    }
}

/// The generation `k` connections after `g`, in the round of all generations.
proof fn lemma_nth_following(g: u64, k: nat)
    requires
        1 <= g,
        k < u64::MAX,
    ensures
        nth_following(g, k) == if g + k <= u64::MAX {
            g + k
        } else {
            g + k - u64::MAX
        },
    decreases k,
{
    if k > 0 {
        lemma_nth_following(g, (k - 1) as nat);
    }
}

/// No generation is zero, and a connection's is not given again before every other has been.
pub proof fn law_generations_are_not_reused(g: u64, k: nat)
    requires
        1 <= g,
        0 < k < u64::MAX,
    ensures
        nth_following(g, k) >= 1,
        nth_following(g, k) != g,
{
    lemma_nth_following(g, k);
}

/// Giving back an old connection leaves the newer one as it is.
pub proof fn law_stale_connections_are_harmless(newer: Connected, g: u64, k: nat)
    requires
        1 <= g,
        0 < k < u64::MAX,
        newer.generation == nth_following(g, k),
    ensures
        kept(Some(newer), g) == Some(newer),
        ended(Some(newer), g) is None,
{
    law_generations_are_not_reused(g, k);
}

/// An event states its own size.
pub proof fn law_events_state_their_size(type_: u32, body: Seq<u8>)
    requires
        HEADER_SIZE + body.len() <= u32::MAX,
    ensures
        event_bytes(type_, body).len() == HEADER_SIZE + body.len(),
        event_bytes(type_, body).subrange(4, 8) == bytes::le32(
            event_bytes(type_, body).len() as int,
        ),
        event_bytes(type_, body).skip(HEADER_SIZE as int) == body,
{
    let out = event_bytes(type_, body);
    assert(out.subrange(4, 8) =~= bytes::le32(HEADER_SIZE + body.len()));
    assert(out.skip(HEADER_SIZE as int) =~= body);
}

/// Giving a connection back ends that connection, and leaves any other as it is: never both.
pub proof fn law_connections_end_or_stay(c: Connected, generation: u64)
    ensures
        c.generation == generation ==> ended(Some(c), generation) == Some(c) && kept(
            Some(c),
            generation,
        ) is None,
        c.generation != generation ==> ended(Some(c), generation) is None && kept(
            Some(c),
            generation,
        ) == Some(c),
        ended(None, generation) is None && kept(None, generation) is None,
{
}

/// An event starts with its type, and events that differ in type or body differ in their bytes.
pub proof fn law_events_are_told_apart(a: u32, x: Seq<u8>, b: u32, y: Seq<u8>)
    requires
        HEADER_SIZE + x.len() <= u32::MAX,
        HEADER_SIZE + y.len() <= u32::MAX,
    ensures
        event_bytes(a, x).take(4) == bytes::le32(a as int),
        event_bytes(a, x) == event_bytes(b, y) ==> a == b && x == y,
{
    assert(event_bytes(a, x).take(4) =~= bytes::le32(a as int));
    assert(event_bytes(b, y).take(4) =~= bytes::le32(b as int));
    bytes::law_long_words_read_back(a as int);
    bytes::law_long_words_read_back(b as int);
    law_events_state_their_size(a, x);
    law_events_state_their_size(b, y);
}

/// Connecting begins with a file of the device itself and an anchor for it, and not otherwise.
pub proof fn law_files_connect_to_their_own_device(
    dev: u64,
    file_device: u64,
    anchor: Result<u64, Error>,
)
    ensures
        refusal(dev, file_device, anchor) is None <==> file_device == dev && anchor is Ok,
        file_device != dev ==> refusal(dev, file_device, anchor) == Some(Error::EINVAL),
        file_device == dev && anchor is Err ==> refusal(dev, file_device, anchor) == Some(
            anchor->Err_0,
        ),
{
}

} // verus!
