//! Error numbers returned by the kernel's fallible operations.
//!
//! Every fallible operation returns `Result<T, Errno>`; the top of a system
//! call translates the error into the negative-errno convention of the
//! userspace ABI.

use vstd::prelude::*;

verus! {

/// An error number.
pub type Errno = i32;

/// Operation not permitted.
pub const EPERM: Errno = 1;
/// No such file or directory.
pub const ENOENT: Errno = 2;
/// Input/output error.
pub const EIO: Errno = 5;
/// Bad file descriptor.
pub const EBADF: Errno = 9;
/// Out of memory.
pub const ENOMEM: Errno = 12;
/// Permission denied.
pub const EACCES: Errno = 13;
/// Bad address.
pub const EFAULT: Errno = 14;
/// Device or resource busy.
pub const EBUSY: Errno = 16;
/// File exists.
pub const EEXIST: Errno = 17;
/// Invalid cross-device link.
pub const EXDEV: Errno = 18;
/// No such device.
pub const ENODEV: Errno = 19;
/// Not a directory.
pub const ENOTDIR: Errno = 20;
/// Is a directory.
pub const EISDIR: Errno = 21;
/// Invalid argument.
pub const EINVAL: Errno = 22;
/// No space left on device.
pub const ENOSPC: Errno = 28;
/// File name too long.
pub const ENAMETOOLONG: Errno = 36;
/// Directory not empty.
pub const ENOTEMPTY: Errno = 39;
/// Too many levels of symbolic links.
pub const ELOOP: Errno = 40;
/// Not a socket.
pub const ENOTSOCK: Errno = 88;
/// Operation not supported.
pub const ENOTSUP: Errno = 95;

} // verus!
