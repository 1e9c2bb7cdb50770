//! Numbered requests: how a number is made up, which handler a number selects, and what a caller
//! is answered.

use vstd::prelude::*;

use crate::error;
use crate::error::Error;

verus! {

/// The letter that marks a display request.
pub const BASE: u32 = 0x64;

/// The first number that is a driver's own.
pub const COMMAND_BASE: u32 = 0x40;

/// The request carries no argument.
pub const DIR_NONE: u32 = 0;

/// The caller's argument is read.
pub const DIR_WRITE: u32 = 1;

/// The caller's argument is written.
pub const DIR_READ: u32 = 2;

/// The caller's argument is read and written.
pub const DIR_READ_WRITE: u32 = 3;

/// The caller must be authenticated, unless it uses a render node.
pub const AUTH: u32 = 1;

/// The caller must be the active master.
pub const MASTER: u32 = 2;

/// The caller must be an administrator.
pub const ROOT_ONLY: u32 = 4;

/// The request may be made on a render node.
pub const RENDER_ALLOW: u32 = 32;

/// Whether a number and an argument's size fit their fields.
pub open spec fn encodable(size: int, nr: int) -> bool {
    0 <= size < 0x4000 && 0 <= nr < 0x100
}

/// A request's number: two bits of direction, fourteen of the argument's size, eight of the
/// letter and eight of the number.
pub open spec fn command(dir: int, size: int, nr: int) -> int {
    dir * 0x4000_0000 + size * 0x1_0000 + BASE * 0x100 + nr
}

fn encode(dir: u32, size: usize, nr: u32) -> (cmd: u32)
    requires
        dir <= 3,
        encodable(size as int, nr as int),
    ensures
        cmd == command(dir as int, size as int, nr as int),
{
    dir * 0x4000_0000 + size as u32 * 0x1_0000 + BASE * 0x100 + nr
}

/// The number of a request with no argument.
#[allow(non_snake_case)]
pub fn IO(nr: u32) -> (cmd: u32)
    requires
        encodable(0, nr as int),
    ensures
        cmd == command(DIR_NONE as int, 0, nr as int),
{
    encode(DIR_NONE, 0, nr)
}

/// The number of a request that fills in its argument.
#[allow(non_snake_case)]
pub fn IOR<T>(nr: u32) -> (cmd: u32)
    requires
        encodable(vstd::layout::size_of::<T>() as int, nr as int),
    ensures
        cmd == command(DIR_READ as int, vstd::layout::size_of::<T>() as int, nr as int),
{
    encode(DIR_READ, core::mem::size_of::<T>(), nr)
}

/// The number of a request that reads its argument.
#[allow(non_snake_case)]
pub fn IOW<T>(nr: u32) -> (cmd: u32)
    requires
        encodable(vstd::layout::size_of::<T>() as int, nr as int),
    ensures
        cmd == command(DIR_WRITE as int, vstd::layout::size_of::<T>() as int, nr as int),
{
    encode(DIR_WRITE, core::mem::size_of::<T>(), nr)
}

/// The number of a request that reads its argument and fills it in.
#[allow(non_snake_case)]
pub fn IOWR<T>(nr: u32) -> (cmd: u32)
    requires
        encodable(vstd::layout::size_of::<T>() as int, nr as int),
    ensures
        cmd == command(DIR_READ_WRITE as int, vstd::layout::size_of::<T>() as int, nr as int),
{
    encode(DIR_READ_WRITE, core::mem::size_of::<T>(), nr)
}

/// The number field of a request.
pub open spec fn nr_of(cmd: int) -> int {
    cmd % 0x100
}

/// The size field of a request.
pub open spec fn size_of_argument(cmd: int) -> int {
    (cmd / 0x1_0000) % 0x4000
}

/// The direction field of a request.
pub open spec fn direction_of(cmd: int) -> int {
    cmd / 0x4000_0000
}

/// A driver's request, and the size of the argument its handler takes.
#[derive(Clone, Copy, Debug, PartialEq, Eq, Structural)]
pub struct DrmIoctlDescriptor {
    /// The request.
    pub cmd: u32,
    /// The size of the handler's argument.
    pub size: usize,
    /// Who may make it.
    pub flags: u32,
}

/// Whether a driver's requests follow one another from its first number, each with the size that
/// its handler takes.
pub open spec fn in_order(table: Seq<DrmIoctlDescriptor>) -> bool {
    forall|i: int|
        0 <= i < table.len() ==> nr_of(#[trigger] table[i].cmd as int) == COMMAND_BASE + i
            && size_of_argument(table[i].cmd as int) == table[i].size
}

/// Check that a driver's requests are in order.
pub fn is_in_order(table: &[DrmIoctlDescriptor]) -> (b: bool)
    ensures
        b == in_order(table@),
{
    let len: usize = table.len();
    let mut i: usize = 0;
    while i < len
        invariant
            i <= len,
            len == table@.len(),
            i <= 0x100,
            forall|j: int|
                0 <= j < i ==> nr_of(#[trigger] table@[j].cmd as int) == COMMAND_BASE + j
                    && size_of_argument(table@[j].cmd as int) == table@[j].size,
        decreases len - i,
    {
        let d = table[i];
        assert(d == table@[i as int]);
        if d.cmd % 0x100 != COMMAND_BASE + i as u32 || ((d.cmd / 0x1_0000) % 0x4000) as usize
            != d.size {
            assert(!(nr_of(table@[i as int].cmd as int) == COMMAND_BASE + i && size_of_argument(
                table@[i as int].cmd as int,
            ) == table@[i as int].size));
            return false;
        }
        i += 1;
    }
    true
}

/// A request of a 32-bit caller, and the handler that takes it.
#[derive(Clone, Copy, Debug, PartialEq, Eq, Structural)]
pub struct DrmCompatIoctlDescriptor {
    /// The request, in its 32-bit form.
    pub cmd: u32,
    /// The handler, by its index among the driver's.
    pub handler: usize,
}

impl DrmCompatIoctlDescriptor {
    /// A request and its handler.
    pub fn new(cmd: u32, handler: usize) -> (d: DrmCompatIoctlDescriptor)
        ensures
            d.cmd == cmd,
            d.handler == handler,
    {
        DrmCompatIoctlDescriptor { cmd, handler }
    }
}

/// The handler of a 32-bit caller's request: the first declared for the whole number. The common
/// handling takes what none is declared for.
pub open spec fn selected(table: Seq<DrmCompatIoctlDescriptor>, cmd: u32) -> Option<usize>
    decreases table.len(),
{
    if table.len() == 0 {
        None
    } else if table[0].cmd == cmd {
        Some(table[0].handler)
    } else {
        selected(table.skip(1), cmd)
    }
}

/// The handler of a 32-bit caller's request.
pub fn compat_ioctl(table: &[DrmCompatIoctlDescriptor], cmd: u32) -> (r: Option<usize>)
    ensures
        r == selected(table@, cmd),
{
    let len: usize = table.len();
    let mut i: usize = 0;
    assert(table@.skip(0) =~= table@);
    while i < len
        invariant
            i <= len,
            len == table@.len(),
            selected(table@, cmd) == selected(table@.skip(i as int), cmd),
        decreases len - i,
    {
        assert(table@.skip(i as int)[0] == table@[i as int]);
        assert(table@.skip(i as int).skip(1) =~= table@.skip(i + 1));
        if table[i].cmd == cmd {
            return Some(table[i].handler);
        }
        i += 1;
    }
    None
}

/// The argument of a 32-bit caller, where it differs from the native one.
pub trait CompatIoctl: Sized {
    /// The native argument.
    type Native;

    /// Read the argument at a caller's address.
    fn read_from_user(ptr: usize) -> Result<Self, Error>;

    /// The native argument of the same meaning.
    fn into_native(&self) -> Self::Native;

    /// Hand back what the handler filled in.
    fn write_back(&mut self, _native: &Self::Native, _ptr: usize) -> (r: Result<(), Error>)
        default_ensures
            r is Ok,
            *final(self) == *old(self),
    {
        Ok(())
    }
}

/// What a handler's caller is answered: `ENODEV` once the device has gone, and `ERANGE` where the
/// handler's number is no valid answer.
pub open spec fn handler_answer(registered: bool, r: Result<u32, Error>) -> int {
    if !registered {
        error::errno_of(Error::ENODEV)
    } else {
        match r {
            Err(e) => error::errno_of(e),
            Ok(v) => if v <= i32::MAX {
                v as int
            } else {
                error::errno_of(Error::ERANGE)
            },
        }
    }
}

/// What a handler's caller is answered.
pub fn handler_result(registered: bool, r: Result<u32, Error>) -> (ret: i32)
    ensures
        ret == handler_answer(registered, r),
{
    if !registered {
        return Error::ENODEV.to_errno();
    }
    match r {
        Err(e) => e.to_errno(),
        Ok(v) => if v <= i32::MAX as u32 {
            v as i32
        } else {
            Error::ERANGE.to_errno()
        },
    }
}

/// Read a 32-bit caller's argument at its address, with the native form it converts to, or the
/// error that reading it failed with.
pub fn compat_begin<C: CompatIoctl>(user: usize) -> (r: Result<(C, C::Native), isize>)
    ensures
        match r {
            Ok(p) => call_ensures(C::read_from_user, (user,), Ok::<C, Error>(p.0)) && call_ensures(
                C::into_native,
                (&p.0,),
                p.1,
            ),
            Err(ret) => exists|e: Error| #[trigger]
                call_ensures(C::read_from_user, (user,), Err::<C, Error>(e)) && ret
                    == error::errno_of(e),
        },
{
    match C::read_from_user(user) {
        Ok(compat) => {
            let native = compat.into_native();
            Ok((compat, native))
        },
        Err(e) => Err(e.to_errno() as isize),
    }
}

/// Hand back a 32-bit caller's results at its address, where the handler succeeded. The answer is
/// the handler's, unless handing them back failed.
pub fn compat_end<C: CompatIoctl>(
    compat: &mut C,
    native: &C::Native,
    user: usize,
    ret: isize,
) -> (answer: isize)
    ensures
        ret < 0 ==> answer == ret && *final(compat) == *old(compat),
        ret >= 0 ==> exists|m: &mut C, done: Result<(), Error>| #[trigger]
            call_ensures(C::write_back, (m, native, user), done) && *m == *old(compat) && *final(m)
                == *final(compat) && match done {
                Ok(()) => answer == ret,
                Err(e) => answer == error::errno_of(e),
            },
{
    if ret >= 0 {
        match compat.write_back(native, user) {
            Err(e) => {
                return e.to_errno() as isize;
            },
            Ok(()) => {},
        }
    }
    ret
}

/// The fields of a request read back, so that two requests that differ in any of them differ.
pub proof fn law_requests_read_back(dir: int, size: int, nr: int)
    requires
        0 <= dir <= 3,
        encodable(size, nr),
    ensures
        direction_of(command(dir, size, nr)) == dir,
        size_of_argument(command(dir, size, nr)) == size,
        nr_of(command(dir, size, nr)) == nr,
        (command(dir, size, nr) / 0x100) % 0x100 == BASE,
        command(dir, size, nr) <= u32::MAX,
{
}

/// Where no two handlers are declared for one request, the order of the declarations does not
/// matter: each request selects the handler declared for it.
pub proof fn law_declared_handlers_are_selected(table: Seq<DrmCompatIoctlDescriptor>, i: int)
    requires
        0 <= i < table.len(),
        forall|j: int, k: int|
            0 <= j < k < table.len() ==> (#[trigger] table[j]).cmd != (#[trigger] table[k]).cmd,
    ensures
        selected(table, table[i].cmd) == Some(table[i].handler),
    decreases table.len(),
{
    if i > 0 {
        assert(table[0].cmd != table[i].cmd);
        assert(table.skip(1)[i - 1] == table[i]);
        assert forall|j: int, k: int| 0 <= j < k < table.skip(1).len() implies (
        #[trigger] table.skip(1)[j]).cmd != (#[trigger] table.skip(1)[k]).cmd by {
            assert(table[j + 1].cmd != table[k + 1].cmd);
        }
        law_declared_handlers_are_selected(table.skip(1), i - 1);
    }
}

/// A request that no handler is declared for is left to the common handling.
pub proof fn law_other_requests_are_left(table: Seq<DrmCompatIoctlDescriptor>, cmd: u32)
    requires
        forall|j: int| 0 <= j < table.len() ==> (#[trigger] table[j]).cmd != cmd,
    ensures
        selected(table, cmd) is None,
    decreases table.len(),
{
    if table.len() > 0 {
        assert forall|j: int| 0 <= j < table.skip(1).len() implies (
        #[trigger] table.skip(1)[j]).cmd != cmd by {
            assert(table[j + 1].cmd != cmd);
        }
        law_other_requests_are_left(table.skip(1), cmd);
    }
}

/// A handler answers with its own number where that fits, and with a negative error otherwise: its
/// own, that there is no device, or that the number is out of range.
pub proof fn law_answers_are_numbers_or_errors(v: u32, e: Error)
    requires
        !(e is Status),
    ensures
        v < 0x8000_0000 ==> handler_answer(true, Ok(v)) == v,
        v >= 0x8000_0000 ==> handler_answer(true, Ok(v)) == -34,
        handler_answer(true, Err(e)) == error::errno_of(e) && handler_answer(true, Err(e)) < 0,
        handler_answer(false, Ok(v)) == -19 && handler_answer(false, Err(e)) == -19,
{
}

/// Requests that differ in direction, size or number differ.
pub proof fn law_requests_are_told_apart(a: (int, int, int), b: (int, int, int))
    requires
        0 <= a.0 <= 3,
        0 <= b.0 <= 3,
        encodable(a.1, a.2),
        encodable(b.1, b.2),
        command(a.0, a.1, a.2) == command(b.0, b.1, b.2),
    ensures
        a == b,
{
    law_requests_read_back(a.0, a.1, a.2);
    law_requests_read_back(b.0, b.1, b.2);
}

/// A table is in order exactly where each entry's request carries its place and its size.
pub proof fn law_tables_are_in_place(table: Seq<DrmIoctlDescriptor>, i: int)
    requires
        in_order(table),
        0 <= i < table.len(),
    ensures
        table[i].cmd % 0x100 == 0x40 + i,
        (table[i].cmd / 0x1_0000) % 0x4000 == table[i].size,
{
}

} // verus!
