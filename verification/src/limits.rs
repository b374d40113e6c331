//! System limits.

use vstd::prelude::*;

verus! {

/// The maximum length of a path in bytes.
pub const PATH_MAX: usize = 4096;
/// The maximum length of a file name in bytes.
pub const NAME_MAX: usize = 255;
/// The maximum length of a symbolic link's target in bytes.
pub const SYMLINK_MAX: usize = 4096;
/// The maximum number of symbolic links resolution may traverse.
pub const SYMLOOP_MAX: usize = 40;
/// The maximum length of the hostname.
pub const HOST_NAME_MAX: usize = 64;

} // verus!
