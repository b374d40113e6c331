//! Module version numbers.

use vstd::prelude::*;

verus! {

/// A `major.minor.patch` version.
#[derive(Clone, Copy, Debug, PartialEq, Eq, Structural)]
pub struct Version {
    /// The major part.
    pub major: u16,
    /// The minor part.
    pub minor: u16,
    /// The patch part.
    pub patch: u16,
}

/// Lexicographic order on versions: `a` before `b`.
pub open spec fn version_lt(a: Version, b: Version) -> bool {
    ||| a.major < b.major
    ||| (a.major == b.major && a.minor < b.minor)
    ||| (a.major == b.major && a.minor == b.minor && a.patch < b.patch)
}

impl Version {
    /// Compares with another version, major part first.
    ///
    /// Returns a negative value when `self` comes before `other`, zero when
    /// they are equal, a positive value when `self` comes after `other`.
    pub fn cmp(&self, other: &Self) -> (r: i32)
        ensures
            r < 0 <==> version_lt(*self, *other),
            r == 0 <==> *self == *other,
            r > 0 <==> version_lt(*other, *self),
    {
        if self.major != other.major {
            if self.major < other.major { -1 } else { 1 }
        } else if self.minor != other.minor {
            if self.minor < other.minor { -1 } else { 1 }
        } else if self.patch != other.patch {
            if self.patch < other.patch { -1 } else { 1 }
        } else {
            0
        }
    }
}

} // verus!
