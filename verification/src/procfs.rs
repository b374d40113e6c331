//! The process filesystem's kernel-built nodes.
//!
//! These nodes are generated rather than stored: the root lists the
//! mounted tables, the `self` link names the process reading it, and the
//! kernel directory exposes the build information.

use vstd::prelude::*;

use crate::pid::Pid;

verus! {

/// The decimal digits of a number, most significant first.
pub open spec fn spec_decimal(n: int) -> Seq<u8>
    decreases n,
{
    if n < 0 {
        Seq::empty()
    } else if n < 10 {
        seq![(48 + n) as u8]
    } else {
        spec_decimal(n / 10).push((48 + n % 10) as u8)
    }
}

/// Writes a number as its decimal digits.
pub fn decimal(n: u16) -> (r: Vec<u8>)
    ensures
        r@ == spec_decimal(n as int),
    decreases n,
{
    if n < 10 {
        let mut v: Vec<u8> = Vec::new();
        v.push(48 + n as u8);
        proof {
            assert(v@ =~= spec_decimal(n as int));
        }
        v
    } else {
        let mut v = decimal(n / 10);
        v.push(48 + (n % 10) as u8);
        v
    }
}

/// The root of the process filesystem.
pub struct ProcFSRoot {
    /// The generated entries: each name with its node id.
    entries: Vec<(Vec<u8>, u32)>,
}

impl ProcFSRoot {
    /// The generated entries.
    pub closed spec fn spec_entries(&self) -> Seq<(Vec<u8>, u32)> {
        self.entries@
    }

    /// Creates the root, holding the mounted-tables entry.
    pub fn new(mount_node: u32) -> (r: Self)
        ensures
            r.spec_entries().len() == 1,
            r.spec_entries()[0].0@ == seq![109u8, 111u8, 117u8, 110u8, 116u8],
            r.spec_entries()[0].1 == mount_node,
    {
        let mut name: Vec<u8> = Vec::new();
        name.push(109);
        name.push(111);
        name.push(117);
        name.push(110);
        name.push(116);
        proof {
            assert(name@ =~= seq![109u8, 111u8, 117u8, 110u8, 116u8]);
        }
        let mut entries: Vec<(Vec<u8>, u32)> = Vec::new();
        entries.push((name, mount_node));
        ProcFSRoot { entries }
    }

    /// Returns the generated entries.
    pub fn get_entries(&self) -> (r: &Vec<(Vec<u8>, u32)>)
        ensures
            r@ == self.spec_entries(),
    {
        &self.entries
    }

    /// The root's permission bits: read and search for everyone.
    pub fn get_mode(&self) -> (r: u16)
        ensures
            r == 0o555,
    {
        0o555
    }
}

/// The `self` link: its content names the process reading it.
pub struct SelfNode {}

impl SelfNode {
    /// Returns the link's target: the reading process's id in decimal.
    pub fn get_content(&self, pid: Pid) -> (r: Vec<u8>)
        ensures
            r@ == spec_decimal(pid as int),
    {
        decimal(pid)
    }

    /// The link's permission bits.
    pub fn get_mode(&self) -> (r: u16)
        ensures
            r == 0o777,
    {
        0o777
    }
}

/// The kernel directory under the system tree: the build information
/// entries.
pub struct KernelDir {
    /// The generated entries: each name with its node id.
    entries: Vec<(Vec<u8>, u32)>,
}

impl KernelDir {
    /// The generated entries.
    pub closed spec fn spec_entries(&self) -> Seq<(Vec<u8>, u32)> {
        self.entries@
    }

    /// Creates the directory, holding the release entry.
    pub fn new(osrelease_node: u32) -> (r: Self)
        ensures
            r.spec_entries().len() == 1,
            r.spec_entries()[0].1 == osrelease_node,
    {
        let mut name: Vec<u8> = Vec::new();
        name.push(111);
        name.push(115);
        name.push(114);
        name.push(101);
        name.push(108);
        name.push(101);
        name.push(97);
        name.push(115);
        name.push(101);
        let mut entries: Vec<(Vec<u8>, u32)> = Vec::new();
        entries.push((name, osrelease_node));
        KernelDir { entries }
    }

    /// Returns the generated entries.
    pub fn get_entries(&self) -> (r: &Vec<(Vec<u8>, u32)>)
        ensures
            r@ == self.spec_entries(),
    {
        &self.entries
    }
}

} // verus!
