//! Attribute files of a device: what a read may write, what a write is answered, and how a group
//! of them is published and withdrawn.

use vstd::prelude::*;

use vstd::string::*;

use crate::bytes::append;
use crate::error;
use crate::error::Error;

verus! {

/// Size of the page a read is answered on.
pub const PAGE_SIZE: usize = 4096;

/// The answer to a read, written piece by piece: only what was written counts.
#[derive(Debug)]
pub struct Writer {
    buf: Vec<u8>,
}

impl View for Writer {
    type V = Seq<u8>;

    closed spec fn view(&self) -> Seq<u8> {
        self.buf@
    }
}

/// Whether an answer of `len` bytes takes `more` bytes.
pub open spec fn fits(len: int, more: int) -> bool {
    len + more <= PAGE_SIZE
}

impl Writer {
    #[verifier::type_invariant]
    spec fn within_the_page(self) -> bool {
        self.buf@.len() <= PAGE_SIZE
    }

    /// An empty answer.
    pub fn new() -> (w: Writer)
        ensures
            w@ == Seq::<u8>::empty(),
    {
        Writer { buf: Vec::new() }
    }

    /// Append bytes: `ENOSPC` past the page, `EOVERFLOW` past what can be counted.
    pub fn write(&mut self, bytes: &[u8]) -> (r: Result<(), Error>)
        ensures
            r is Ok <==> fits(old(self)@.len() as int, bytes@.len() as int),
            match r {
                Ok(()) => final(self)@ == old(self)@ + bytes@,
                Err(e) => final(self)@ == old(self)@ && e == (if old(self)@.len() + bytes@.len()
                    > usize::MAX {
                    Error::EOVERFLOW
                } else {
                    Error::ENOSPC
                }),
            },
    {
        proof {
            use_type_invariant(&*self);
        }
        let len: usize = self.buf.len();
        let more: usize = bytes.len();
        if more > usize::MAX - len {
            return Err(Error::EOVERFLOW);
        }
        if len + more > PAGE_SIZE {
            return Err(Error::ENOSPC);
        }
        let mut buf: Vec<u8> = Vec::new();
        append(&mut buf, self.buf.as_slice());
        append(&mut buf, bytes);
        assert(buf@ =~= self.buf@ + bytes@);
        self.buf = buf;
        Ok(())
    }

    /// Append a string.
    pub fn write_str(&mut self, value: &str) -> (r: Result<(), Error>)
        ensures
            r is Ok <==> fits(old(self)@.len() as int, value.spec_bytes().len() as int),
            match r {
                Ok(()) => final(self)@ == old(self)@ + value.spec_bytes(),
                Err(e) => final(self)@ == old(self)@ && e == (if old(self)@.len()
                    + value.spec_bytes().len() > usize::MAX {
                    Error::EOVERFLOW
                } else {
                    Error::ENOSPC
                }),
            },
    {
        self.write(value.as_bytes())
    }

    /// Bytes written so far.
    pub fn len(&self) -> (n: usize)
        ensures
            n == self@.len(),
            n <= PAGE_SIZE,
    {
        proof {
            use_type_invariant(self);
        }
        self.buf.len()
    }

    /// Whether nothing has been written.
    pub fn is_empty(&self) -> (b: bool)
        ensures
            b == (self@.len() == 0),
    {
        self.buf.len() == 0
    }

    /// What has been written.
    pub fn as_slice(&self) -> (s: &[u8])
        ensures
            s@ == self@,
    {
        self.buf.as_slice()
    }
}

/// An attribute file: its name and who may read and write it.
#[derive(Clone, Copy, Debug)]
pub struct Attr {
    /// The file's name.
    pub name: &'static str,
    /// Its permission bits.
    pub mode: u16,
}

impl Attr {
    /// A file that can be read.
    pub fn ro(name: &'static str) -> (a: Attr)
        ensures
            a.name@ == name@,
            a.mode == 0o444,
    {
        Attr { name, mode: 0o444 }
    }

    /// A file that can be written.
    pub fn wo(name: &'static str) -> (a: Attr)
        ensures
            a.name@ == name@,
            a.mode == 0o200,
    {
        Attr { name, mode: 0o200 }
    }

    /// A file that can be read and written.
    pub fn rw(name: &'static str) -> (a: Attr)
        ensures
            a.name@ == name@,
            a.mode == 0o644,
    {
        Attr { name, mode: 0o644 }
    }
}

/// What the files of a group do. A group answers only what it is made to answer.
pub trait DeviceAttributes {
    /// Answer a read of file `name`.
    fn show(&self, name: &str, out: &mut Writer) -> (r: Result<(), Error>)
        default_ensures
            r == Err::<(), Error>(Error::EINVAL),
            final(out)@ == old(out)@,
    {
        Err(Error::EINVAL)
    }

    /// Take a write of file `name`.
    fn store(&self, name: &str, buf: &[u8]) -> (r: Result<(), Error>)
        default_ensures
            r == Err::<(), Error>(Error::EINVAL),
    {
        Err(Error::EINVAL)
    }
}

/// What is answered: the count where nothing failed, else the error.
pub open spec fn answered(failed: Option<Error>, count: int) -> int {
    match failed {
        Some(e) => error::errno_of(e),
        None => count,
    }
}

/// Why an operation failed, if it did.
pub open spec fn failure(r: Result<(), Error>) -> Option<Error> {
    match r {
        Ok(()) => None,
        Err(e) => Some(e),
    }
}

/// What a read is answered: the bytes written, or the error.
pub fn show_result(r: Result<(), Error>, out: &Writer) -> (ret: isize)
    ensures
        ret == answered(failure(r), out@.len() as int),
{
    match r {
        Ok(()) => out.len() as isize,
        Err(e) => e.to_errno() as isize,
    }
}

/// What a write is answered: that it was taken whole, or the error.
pub fn store_result(r: Result<(), Error>, count: usize) -> (ret: isize)
    requires
        count <= isize::MAX,
    ensures
        ret == answered(failure(r), count as int),
{
    match r {
        Ok(()) => count as isize,
        Err(e) => e.to_errno() as isize,
    }
}

/// Answer a read of file `name`: the group is asked with an empty answer, and what it wrote and
/// returned is what is answered.
pub fn show<T: DeviceAttributes>(ctx: &T, name: &str) -> (r: (isize, Writer))
    ensures
        exists|m: &mut Writer, done: Result<(), Error>| #[trigger]
            call_ensures(T::show, (ctx, name, m), done) && m@.len() == 0 && *final(m) == r.1 && r.0
                == answered(failure(done), r.1@.len() as int),
        r.1@.len() <= PAGE_SIZE,
{
    let mut out = Writer::new();
    let done = ctx.show(name, &mut out);
    let ret: isize = show_result(done, &out);
    let len: usize = out.len();
    let r = (ret, out);
    assert(r.1@.len() == len);
    assert(r.0 == answered(failure(done), r.1@.len() as int));
    r
}

/// Take a write of file `name`: the group is handed the bytes, and what it returned is what is
/// answered.
pub fn store<T: DeviceAttributes>(ctx: &T, name: &str, buf: &[u8]) -> (ret: isize)
    requires
        buf@.len() <= isize::MAX,
    ensures
        exists|done: Result<(), Error>| #[trigger] call_ensures(T::store, (ctx, name, buf), done)
            && ret == answered(failure(done), buf@.len() as int),
{
    let done = ctx.store(name, buf);
    store_result(done, buf.len())
}

/// A step of withdrawing a group.
#[derive(Clone, Copy, Debug, PartialEq, Eq, Structural)]
pub enum Withdrawal {
    /// Remove the files, waiting for whoever is inside one.
    RemoveFiles,
    /// Take the context away from the root device.
    ClearContext,
    /// Unregister the root device.
    UnregisterRoot,
}

/// A group of files on a root device of its own, and what answers them.
#[derive(Debug)]
pub struct AttributeGroup<T: DeviceAttributes> {
    /// The root device, once it is registered.
    pub root: Option<u64>,
    /// The files.
    pub attrs: Vec<Attr>,
    /// Whether the files are published.
    pub registered: bool,
    /// What answers them.
    pub ctx: T,
}

/// A group that could not be published, and why. It is to be withdrawn before it is dropped.
#[derive(Debug)]
pub struct Unpublished<T: DeviceAttributes> {
    /// Why.
    pub error: Error,
    /// The group.
    pub group: AttributeGroup<T>,
}

/// The steps that withdraw a group: nothing without a root device; else the files go first, and
/// the context is taken away before the root device goes.
pub open spec fn withdrawal_of(root: bool, registered: bool) -> Seq<Withdrawal> {
    if !root {
        seq![]
    } else if registered {
        seq![Withdrawal::RemoveFiles, Withdrawal::ClearContext, Withdrawal::UnregisterRoot]
    } else {
        seq![Withdrawal::ClearContext, Withdrawal::UnregisterRoot]
    }
}

/// Why a group is not published: the root device's error, else the files'.
pub open spec fn publishing_error(root: Result<u64, Error>, added: Result<(), Error>) -> Option<
    Error,
> {
    match root {
        Err(e) => Some(e),
        Ok(_) => match added {
            Err(e) => Some(e),
            Ok(()) => None,
        },
    }
}

impl<T: DeviceAttributes> AttributeGroup<T> {
    /// Publish a group: `root` is what became of registering its root device, and `added` of
    /// adding its files. The context is owned throughout, so that it outlives whatever was
    /// published.
    pub fn register_root(
        ctx: T,
        attrs: Vec<Attr>,
        root: Result<u64, Error>,
        added: Result<(), Error>,
    ) -> (r: Result<AttributeGroup<T>, Unpublished<T>>)
        ensures
            r is Ok <==> publishing_error(root, added) is None,
            match r {
                Ok(g) => g.ctx == ctx && g.attrs == attrs && g.registered && root == Ok::<
                    u64,
                    Error,
                >(g.root->0) && g.root is Some,
                Err(u) => u.group.ctx == ctx && u.group.attrs == attrs && !u.group.registered
                    && Some(u.error) == publishing_error(root, added) && u.group.root == (
                match root {
                    Ok(id) => Some(id),
                    Err(_) => None,
                }),
            },
    {
        let id: u64 = match root {
            Ok(id) => id,
            Err(error) => {
                return Err(
                    Unpublished {
                        error,
                        group: AttributeGroup { root: None, attrs, registered: false, ctx },
                    },
                );
            },
        };
        match added {
            Ok(()) => Ok(AttributeGroup { root: Some(id), attrs, registered: true, ctx }),
            Err(error) => Err(
                Unpublished {
                    error,
                    group: AttributeGroup { root: Some(id), attrs, registered: false, ctx },
                },
            ),
        }
    }

    /// The steps that withdraw the group; its context is dropped after them.
    pub fn withdrawal(&self) -> (steps: Vec<Withdrawal>)
        ensures
            steps@ == withdrawal_of(self.root is Some, self.registered),
    {
        let mut steps: Vec<Withdrawal> = Vec::new();
        if self.root.is_none() {
            return steps;
        }
        if self.registered {
            steps.push(Withdrawal::RemoveFiles);
        }
        steps.push(Withdrawal::ClearContext);
        steps.push(Withdrawal::UnregisterRoot);
        assert(steps@ =~= withdrawal_of(true, self.registered));
        steps
    }
}

/// No file is left when its context is taken away, and no root device is left without the
/// context having been taken away first.
pub proof fn law_contexts_outlive_their_files(root: bool, registered: bool)
    ensures
        root ==> withdrawal_of(root, registered).last() == Withdrawal::UnregisterRoot,
        root && registered ==> withdrawal_of(root, registered)[0] == Withdrawal::RemoveFiles,
        !registered ==> !withdrawal_of(root, registered).contains(Withdrawal::RemoveFiles),
{
}

/// An answer after a run of pieces, each taken only where it fits.
pub open spec fn answer(pieces: Seq<Seq<u8>>) -> Seq<u8>
    decreases pieces.len(),
{
    if pieces.len() == 0 {
        seq![]
    } else {
        let so_far = answer(pieces.drop_last());
        if fits(so_far.len() as int, pieces.last().len() as int) {
            so_far + pieces.last()
        } else {
            so_far
        }
    }
}

/// However much is written, an answer never exceeds its page, and what was written stays.
pub proof fn law_answers_stay_within_their_page(pieces: Seq<Seq<u8>>)
    ensures
        answer(pieces).len() <= PAGE_SIZE,
        pieces.len() > 0 ==> answer(pieces).take(answer(pieces.drop_last()).len() as int)
            == answer(pieces.drop_last()),
    decreases pieces.len(),
{
    if pieces.len() > 0 {
        law_answers_stay_within_their_page(pieces.drop_last());
        let so_far = answer(pieces.drop_last());
        assert(answer(pieces).take(so_far.len() as int) =~= so_far);
    }
}

/// An answer is the number of bytes, or the error where there was one.
pub proof fn law_answers_count_their_bytes(count: int, e: Error)
    ensures
        answered(failure(Ok(())), count) == count,
        answered(failure(Err(e)), count) == error::errno_of(e),
{
}

/// An attribute group is published where its root was made and its files were added; the first
/// failure is reported.
pub proof fn law_the_first_failure_is_reported(root: Result<u64, Error>, added: Result<(), Error>)
    ensures
        publishing_error(root, added) is None <==> root is Ok && added is Ok,
        root is Err ==> publishing_error(root, added) == Some(root->Err_0),
        root is Ok && added is Err ==> publishing_error(root, added) == Some(added->Err_0),
{
}

/// What was published is withdrawn once: the files first, then the context, the root last.
pub proof fn law_withdrawing_undoes_publishing(root: bool, registered: bool, i: int, j: int)
    requires
        0 <= i < j < withdrawal_of(root, registered).len(),
    ensures
        withdrawal_of(root, registered)[i] != withdrawal_of(root, registered)[j],
        withdrawal_of(root, registered)[j] != Withdrawal::RemoveFiles,
        withdrawal_of(root, registered)[i] != Withdrawal::UnregisterRoot,
        root,
{
}

/// A piece that fits its page of four thousand and ninety-six bytes is kept whole.
pub proof fn law_pieces_that_fit_are_kept(pieces: Seq<Seq<u8>>, piece: Seq<u8>)
    ensures
        answer(pieces).len() + piece.len() <= 4096 ==> answer(pieces.push(piece)) == answer(pieces)
            + piece,
        answer(pieces).len() + piece.len() > 4096 ==> answer(pieces.push(piece)) == answer(pieces),
{
    assert(pieces.push(piece).drop_last() =~= pieces);
}

} // verus!
