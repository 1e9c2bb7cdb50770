//! The errors the library reports, named after the kernel's error codes.

use vstd::prelude::*;

verus! {

/// A kernel error code.
#[derive(Clone, Copy, Debug, PartialEq, Eq, Structural)]
pub enum Error {
    /// No such entry.
    ENOENT,
    /// Input or output failed.
    EIO,
    /// Resource temporarily unavailable.
    EAGAIN,
    /// Out of memory.
    ENOMEM,
    /// The object is in use.
    EBUSY,
    /// No such device.
    ENODEV,
    /// Invalid argument.
    EINVAL,
    /// No space left.
    ENOSPC,
    /// Broken pipe: the endpoint is stalled.
    EPIPE,
    /// A number is out of range.
    ERANGE,
    /// A protocol violation.
    EPROTO,
    /// A value does not fit its type.
    EOVERFLOW,
    /// A message is too long.
    EMSGSIZE,
    /// The operation is not supported.
    EOPNOTSUPP,
    /// The transport endpoint has been shut down.
    ESHUTDOWN,
    /// The operation timed out.
    ETIMEDOUT,
    /// The operation was cancelled.
    ECANCELED,
    /// Any other code, as the negative number a transfer reported.
    Status(i32),
}

/// The largest error number.
pub const MAX_ERRNO: i32 = 4095;

/// The number of an error.
pub open spec fn errno_of(e: Error) -> int {
    match e {
        Error::ENOENT => -2,
        Error::EIO => -5,
        Error::EAGAIN => -11,
        Error::ENOMEM => -12,
        Error::EBUSY => -16,
        Error::ENODEV => -19,
        Error::EINVAL => -22,
        Error::ENOSPC => -28,
        Error::EPIPE => -32,
        Error::ERANGE => -34,
        Error::EPROTO => -71,
        Error::EOVERFLOW => -75,
        Error::EMSGSIZE => -90,
        Error::EOPNOTSUPP => -95,
        Error::ESHUTDOWN => -108,
        Error::ETIMEDOUT => -110,
        Error::ECANCELED => -125,
        Error::Status(n) => n as int,
    }
}

/// The error a number stands for; a number that is none stands for an invalid argument.
pub open spec fn error_of(errno: i32) -> Error {
    if errno < -MAX_ERRNO || errno >= 0 {
        Error::EINVAL
    } else if errno == -2 {
        Error::ENOENT
    } else if errno == -5 {
        Error::EIO
    } else if errno == -11 {
        Error::EAGAIN
    } else if errno == -12 {
        Error::ENOMEM
    } else if errno == -16 {
        Error::EBUSY
    } else if errno == -19 {
        Error::ENODEV
    } else if errno == -22 {
        Error::EINVAL
    } else if errno == -28 {
        Error::ENOSPC
    } else if errno == -32 {
        Error::EPIPE
    } else if errno == -34 {
        Error::ERANGE
    } else if errno == -71 {
        Error::EPROTO
    } else if errno == -75 {
        Error::EOVERFLOW
    } else if errno == -90 {
        Error::EMSGSIZE
    } else if errno == -95 {
        Error::EOPNOTSUPP
    } else if errno == -108 {
        Error::ESHUTDOWN
    } else if errno == -110 {
        Error::ETIMEDOUT
    } else if errno == -125 {
        Error::ECANCELED
    } else {
        Error::Status(errno)
    }
}

impl Error {
    /// The error a number stands for.
    pub fn from_errno(errno: i32) -> (e: Error)
        ensures
            e == error_of(errno),
    {
        if errno < -MAX_ERRNO || errno >= 0 {
            return Error::EINVAL;
        }
        match -errno {
            2 => Error::ENOENT,
            5 => Error::EIO,
            11 => Error::EAGAIN,
            12 => Error::ENOMEM,
            16 => Error::EBUSY,
            19 => Error::ENODEV,
            22 => Error::EINVAL,
            28 => Error::ENOSPC,
            32 => Error::EPIPE,
            34 => Error::ERANGE,
            71 => Error::EPROTO,
            75 => Error::EOVERFLOW,
            90 => Error::EMSGSIZE,
            95 => Error::EOPNOTSUPP,
            108 => Error::ESHUTDOWN,
            110 => Error::ETIMEDOUT,
            125 => Error::ECANCELED,
            _ => Error::Status(errno),
        }
    }

    /// The number of the error.
    pub fn to_errno(self) -> (errno: i32)
        ensures
            errno == errno_of(self),
    {
        match self {
            Error::ENOENT => -2,
            Error::EIO => -5,
            Error::EAGAIN => -11,
            Error::ENOMEM => -12,
            Error::EBUSY => -16,
            Error::ENODEV => -19,
            Error::EINVAL => -22,
            Error::ENOSPC => -28,
            Error::EPIPE => -32,
            Error::ERANGE => -34,
            Error::EPROTO => -71,
            Error::EOVERFLOW => -75,
            Error::EMSGSIZE => -90,
            Error::EOPNOTSUPP => -95,
            Error::ESHUTDOWN => -108,
            Error::ETIMEDOUT => -110,
            Error::ECANCELED => -125,
            Error::Status(n) => n,
        }
    }
}

/// Every error number reads back as itself.
pub proof fn law_error_numbers_read_back(errno: i32)
    requires
        -MAX_ERRNO <= errno < 0,
    ensures
        errno_of(error_of(errno)) == errno,
{
}

/// An error that has a name is found again by its number, and no two share one.
pub proof fn law_named_errors_read_back(e: Error)
    requires
        !(e is Status),
    ensures
        -4095 <= errno_of(e) < 0,
        error_of(errno_of(e) as i32) == e,
{
}

/// A number that is no error's is invalid.
pub proof fn law_other_numbers_are_invalid(errno: i32)
    requires
        errno < -4095 || errno >= 0,
    ensures
        error_of(errno) == Error::EINVAL,
{
}

/// The errors keep the system's numbers.
pub proof fn law_errors_keep_their_numbers(errno: i32)
    requires
        -4095 <= errno < 0,
    ensures
        error_of(errno) is ENOENT <==> errno == -2,
        error_of(errno) is EIO <==> errno == -5,
        error_of(errno) is EAGAIN <==> errno == -11,
        error_of(errno) is ENOMEM <==> errno == -12,
        error_of(errno) is EBUSY <==> errno == -16,
        error_of(errno) is ENODEV <==> errno == -19,
        error_of(errno) is EINVAL <==> errno == -22,
        error_of(errno) is ENOSPC <==> errno == -28,
        error_of(errno) is EPIPE <==> errno == -32,
        error_of(errno) is ERANGE <==> errno == -34,
        error_of(errno) is EPROTO <==> errno == -71,
        error_of(errno) is EOVERFLOW <==> errno == -75,
        error_of(errno) is EMSGSIZE <==> errno == -90,
        error_of(errno) is EOPNOTSUPP <==> errno == -95,
        error_of(errno) is ESHUTDOWN <==> errno == -108,
        error_of(errno) is ETIMEDOUT <==> errno == -110,
        error_of(errno) is ECANCELED <==> errno == -125,
{
}

} // verus!
