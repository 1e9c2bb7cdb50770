//! Two-wire buses: the names by which devices and buses are found, the messages of a transfer, and
//! what a transfer is answered.

use vstd::prelude::*;

use crate::error;
use crate::error::Error;

verus! {

/// The flag of a message that reads.
pub const READ: u16 = 1;

/// The bus takes plain transfers.
pub const FUNC_I2C: u32 = 1;

/// Bytes of a device's name, its terminator included.
pub const NAME_SIZE: usize = 20;

/// Bytes of a bus's name, its terminator included.
pub const ADAPTER_NAME_SIZE: usize = 48;

/// A name in a field of `n` bytes: zeros fill what it leaves.
pub open spec fn padded(name: Seq<u8>, n: nat) -> Seq<u8> {
    Seq::new(
        n,
        |i: int|
            if i < name.len() {
                name[i]
            } else {
                0u8
            },
    )
}

/// The name in a field: what stands before its first zero.
pub open spec fn name_in(field: Seq<u8>) -> Seq<u8>
    decreases field.len(),
{
    if field.len() == 0 || field[0] == 0 {
        seq![]
    } else {
        seq![field[0]] + name_in(field.skip(1))
    }
}

/// Whether a name fits a field of `n` bytes and ends only where it ends.
pub open spec fn is_name(name: Seq<u8>, n: int) -> bool {
    name.len() < n && !name.contains(0u8)
}

fn name_field(name: &[u8]) -> (field: [u8; 20])
    requires
        name@.len() < NAME_SIZE,
    ensures
        field@ == padded(name@, NAME_SIZE as nat),
{
    let mut field: [u8; 20] = [0u8;20];
    let len: usize = name.len();
    let mut i: usize = 0;
    while i < len
        invariant
            i <= len,
            len == name@.len(),
            len < NAME_SIZE,
            forall|j: int|
                0 <= j < NAME_SIZE ==> #[trigger] field@[j] == if j < i {
                    name@[j]
                } else {
                    0u8
                },
        decreases len - i,
    {
        field[i] = name[i];
        i += 1;
    }
    assert(field@ =~= padded(name@, NAME_SIZE as nat));
    field
}

/// A device that a driver is for.
#[derive(Clone, Copy, Debug)]
pub struct DeviceId {
    /// The device's name.
    pub name: [u8; 20],
    /// The index of what the driver keeps of it.
    pub driver_data: usize,
}

impl DeviceId {
    /// A device by its name.
    pub fn new(id: &[u8]) -> (d: DeviceId)
        requires
            is_name(id@, NAME_SIZE as int),
        ensures
            d.name@ == padded(id@, NAME_SIZE as nat),
            d.driver_data == 0,
    {
        DeviceId { name: name_field(id), driver_data: 0 }
    }

    /// The index of what the driver keeps of the device.
    pub fn index(&self) -> (i: usize)
        ensures
            i == self.driver_data,
    {
        self.driver_data
    }
}

/// What a driver keeps of a device: by its own table, else by the firmware's.
pub fn id_info<T: Copy>(own: Option<T>, firmware: Option<T>) -> (info: Option<T>)
    ensures
        info == if own is Some {
            own
        } else {
            firmware
        },
{
    if own.is_some() {
        own
    } else {
        firmware
    }
}

/// A bus, by its number.
#[derive(Clone, Copy, Debug, PartialEq, Eq, Structural)]
pub struct I2cAdapter {
    /// The bus's number.
    pub nr: i32,
}

impl I2cAdapter {
    /// The bus's number.
    pub fn index(&self) -> (nr: i32)
        ensures
            nr == self.nr,
    {
        self.nr
    }

    /// The bus that was found by number, if one was.
    pub fn get(found: Option<I2cAdapter>) -> (r: Result<I2cAdapter, Error>)
        ensures
            r == match found {
                Some(a) => Ok::<I2cAdapter, Error>(a),
                None => Err::<I2cAdapter, Error>(Error::ENODEV),
            },
    {
        match found {
            Some(a) => Ok(a),
            None => Err(Error::ENODEV),
        }
    }
}

/// A device to be added to a bus by hand.
#[derive(Clone, Copy, Debug)]
pub struct I2cBoardInfo {
    /// The device's name.
    pub type_: [u8; 20],
    /// Its address.
    pub addr: u16,
}

impl I2cBoardInfo {
    /// A device by its name and address.
    pub fn new(type_: &[u8], addr: u16) -> (b: I2cBoardInfo)
        requires
            is_name(type_@, NAME_SIZE as int),
        ensures
            b.type_@ == padded(type_@, NAME_SIZE as nat),
            b.addr == addr,
    {
        I2cBoardInfo { type_: name_field(type_), addr }
    }
}

/// A device that was added to a bus.
#[derive(Clone, Copy, Debug, PartialEq, Eq, Structural)]
pub struct Registration {
    /// The device.
    pub client: u64,
}

impl Registration {
    /// The device that was added: an error, or nothing at all, is a failure.
    pub fn new(added: Result<Option<u64>, Error>) -> (r: Result<Registration, Error>)
        ensures
            r == match added {
                Err(e) => Err::<Registration, Error>(e),
                Ok(None) => Err::<Registration, Error>(Error::ENODEV),
                Ok(Some(client)) => Ok::<Registration, Error>((Registration { client })),
            },
    {
        match added {
            Err(e) => Err(e),
            Ok(None) => Err(Error::ENODEV),
            Ok(Some(client)) => Ok(Registration { client }),
        }
    }
}

/// A message of a transfer.
#[derive(Clone, Debug)]
pub struct Msg {
    /// The address it is for.
    pub addr: u16,
    /// Its flags.
    pub flags: u16,
    /// Its bytes: those to write, or room for those to read.
    pub buf: Vec<u8>,
}

/// A message's bytes, by its direction.
#[derive(Debug)]
pub enum MsgBuffer<'a> {
    /// The bytes to write.
    Write(&'a [u8]),
    /// Room for the bytes to read.
    Read(&'a mut [u8]),
}

/// Whether flags are those of a message that reads.
pub open spec fn reads(flags: u16) -> bool {
    flags % 2 == 1
}

impl Msg {
    /// The address the message is for.
    pub fn addr(&self) -> (a: u16)
        ensures
            a == self.addr,
    {
        self.addr
    }

    /// The message's flags.
    pub fn flags(&self) -> (f: u16)
        ensures
            f == self.flags,
    {
        self.flags
    }

    /// Whether the message reads.
    pub fn is_read(&self) -> (b: bool)
        ensures
            b == reads(self.flags),
    {
        let flags: u16 = self.flags;
        assert((flags & 1u16 != 0) == (flags % 2 == 1)) by (bit_vector);
        flags & READ != 0
    }

    /// The message's length in bytes.
    pub fn len(&self) -> (n: usize)
        ensures
            n == self.buf@.len(),
    {
        self.buf.len()
    }

    /// Whether the message has no bytes.
    pub fn is_empty(&self) -> (b: bool)
        ensures
            b == (self.buf@.len() == 0),
    {
        self.buf.len() == 0
    }

    /// The message's bytes: only a message that reads can be filled.
    pub fn buffer(&mut self) -> (b: MsgBuffer<'_>)
        ensures
            reads(old(self).flags) <==> b is Read,
            final(self).addr == old(self).addr,
            final(self).flags == old(self).flags,
            match b {
                MsgBuffer::Write(s) => s@ == old(self).buf@ && final(self).buf@ == old(self).buf@,
                MsgBuffer::Read(s) => (*s)@ == old(self).buf@ && final(self).buf@ == (*final(s))@,
            },
    {
        if self.is_read() {
            MsgBuffer::Read(self.buf.as_mut_slice())
        } else {
            MsgBuffer::Write(self.buf.as_slice())
        }
    }
}

/// What a bus does.
pub trait BusController {
    /// What the bus keeps.
    type Context;

    /// Transfer messages, and count those that were transferred.
    fn master_xfer(ctx: &Self::Context, msgs: &mut Vec<Msg>) -> Result<usize, Error>;

    /// The functions of the bus.
    fn functionality(ctx: &Self::Context) -> u32;
}

/// What a transfer of `num` messages is answered: a count within it, else an error.
pub open spec fn transfer_answer(num: int, r: Result<usize, Error>) -> int {
    if num < 0 {
        error::errno_of(Error::EINVAL)
    } else {
        match r {
            Ok(n) => if n <= num {
                n as int
            } else {
                error::errno_of(Error::EINVAL)
            },
            Err(e) => error::errno_of(e),
        }
    }
}

/// What a transfer is answered.
pub fn transfer_result(num: i32, r: Result<usize, Error>) -> (ret: i32)
    ensures
        ret == transfer_answer(num as int, r),
{
    if num < 0 {
        return Error::EINVAL.to_errno();
    }
    match r {
        Ok(n) => if n <= num as usize {
            n as i32
        } else {
            Error::EINVAL.to_errno()
        },
        Err(e) => e.to_errno(),
    }
}

/// A bus that others may use.
pub struct BusAdapter<T: BusController> {
    /// The bus's name.
    pub name: [u8; 48],
    /// What the bus keeps.
    pub ctx: T::Context,
}

/// A bus's name: what does not fit is left out.
pub open spec fn adapter_name(name: Seq<u8>) -> Seq<u8> {
    padded(
        if name.len() < ADAPTER_NAME_SIZE {
            name
        } else {
            name.take(ADAPTER_NAME_SIZE - 1)
        },
        ADAPTER_NAME_SIZE as nat,
    )
}

fn adapter_name_field(name: &[u8]) -> (field: [u8; 48])
    ensures
        field@ == adapter_name(name@),
{
    let mut field: [u8; 48] = [0u8;48];
    let len: usize = if name.len() < ADAPTER_NAME_SIZE {
        name.len()
    } else {
        ADAPTER_NAME_SIZE - 1
    };
    let mut i: usize = 0;
    while i < len
        invariant
            i <= len,
            len <= name@.len(),
            len < ADAPTER_NAME_SIZE,
            forall|j: int|
                0 <= j < ADAPTER_NAME_SIZE ==> #[trigger] field@[j] == if j < i {
                    name@[j]
                } else {
                    0u8
                },
        decreases len - i,
    {
        field[i] = name[i];
        i += 1;
    }
    assert(field@ =~= adapter_name(name@));
    field
}

impl<T: BusController> BusAdapter<T> {
    /// A bus that was offered: `added` is what became of it.
    pub fn new(name: &[u8], ctx: T::Context, added: Result<(), Error>) -> (r: Result<
        BusAdapter<T>,
        Error,
    >)
        ensures
            match added {
                Ok(()) => r matches Ok(a) && a.name@ == adapter_name(name@) && a.ctx == ctx,
                Err(e) => r == Err::<BusAdapter<T>, Error>(e),
            },
    {
        match added {
            Ok(()) => Ok(BusAdapter { name: adapter_name_field(name), ctx }),
            Err(e) => Err(e),
        }
    }

    /// Transfer `num` messages on the bus: the controller is handed them, and its answer is held
    /// to their number.
    pub fn xfer(ctx: &T::Context, msgs: &mut Vec<Msg>, num: i32) -> (ret: i32)
        requires
            num >= 0 ==> old(msgs)@.len() == num,
        ensures
            num < 0 ==> ret == error::errno_of(Error::EINVAL) && final(msgs)@ == old(msgs)@,
            num >= 0 ==> exists|m: &mut Vec<Msg>, r: Result<usize, Error>| #[trigger]
                call_ensures(T::master_xfer, (ctx, m), r) && *m == *old(msgs) && *final(m)
                    == *final(msgs) && ret == transfer_answer(num as int, r),
    {
        if num < 0 {
            return Error::EINVAL.to_errno();
        }
        let r = T::master_xfer(ctx, msgs);
        transfer_result(num, r)
    }
}

/// A name reads back from its field.
pub proof fn law_names_read_back(name: Seq<u8>, n: nat)
    requires
        is_name(name, n as int),
    ensures
        name_in(padded(name, n)) == name,
        padded(name, n)[name.len() as int] == 0,
    decreases name.len(),
{
    let field = padded(name, n);
    if name.len() > 0 {
        assert(name.contains(name[0]));
        assert(field.skip(1) =~= padded(name.skip(1), (n - 1) as nat));
        assert forall|b: u8| #[trigger] name.skip(1).contains(b) implies name.contains(b) by {
            let i = choose|i: int| 0 <= i < name.skip(1).len() && name.skip(1)[i] == b;
            assert(name[i + 1] == b);
        }
        law_names_read_back(name.skip(1), (n - 1) as nat);
        assert(seq![name[0]] + name.skip(1) =~= name);
    } else {
        assert(name_in(field) =~= name);
    }
}

/// However long a bus's name, its field ends it.
pub proof fn law_bus_names_are_terminated(name: Seq<u8>)
    ensures
        adapter_name(name).len() == ADAPTER_NAME_SIZE,
        adapter_name(name)[ADAPTER_NAME_SIZE - 1] == 0,
{
}

/// No transfer is answered with more messages than it had.
pub proof fn law_transfers_are_not_overcounted(num: int, n: usize)
    ensures
        transfer_answer(num, Ok(n)) <= num || transfer_answer(num, Ok(n)) < 0,
        0 <= n <= num ==> transfer_answer(num, Ok(n)) == n,
        n > num ==> transfer_answer(num, Ok(n)) == error::errno_of(Error::EINVAL),
{
}

/// A transfer answers with the messages it made, and with its error otherwise; a negative number
/// of messages is invalid.
pub proof fn law_failed_transfers_keep_their_error(num: int, n: usize, e: Error)
    ensures
        num < 0 ==> transfer_answer(num, Ok(n)) == -22 && transfer_answer(num, Err(e)) == -22,
        num >= 0 ==> transfer_answer(num, Err(e)) == error::errno_of(e),
        num >= 0 && n > num ==> transfer_answer(num, Ok(n)) == -22,
{
}

/// A bus keeps its name, as far as forty-seven bytes hold it.
pub proof fn law_bus_names_are_kept(name: Seq<u8>, i: int)
    requires
        0 <= i < name.len(),
    ensures
        i < 47 ==> adapter_name(name)[i] == name[i],
        adapter_name(name).len() == 48,
        forall|j: int| name.len() <= j < 48 ==> #[trigger] adapter_name(name)[j] == 0,
{
}

} // verus!
