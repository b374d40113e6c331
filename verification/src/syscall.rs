//! System call leaves: thin adapters onto the kernel's subsystems.
//!
//! Each call returns a signed 32-bit status: a negative value's magnitude
//! is the error number, a non-negative value the result.

use vstd::prelude::*;

use crate::errno::{Errno, EBADF, EINVAL, EPERM};
use crate::ext2::FileType;
use crate::limits::HOST_NAME_MAX;
use crate::vfs::{AccessProfile, Vfs};

verus! {

/// An open file description held by a file descriptor.
#[derive(Clone, Copy, Debug, PartialEq, Eq, Structural)]
pub struct OpenFile {
    /// The id of the open node.
    pub node: u32,
    /// The description's flags.
    pub flags: u32,
}

/// A process, as the system call layer sees it.
pub struct Proc {
    /// The process id.
    pub pid: u16,
    /// The parent's process id.
    pub ppid: u16,
    /// The effective credentials.
    pub ap: AccessProfile,
    /// The file creation mask.
    pub umask: u16,
    /// The id of the working directory's node.
    pub cwd: u32,
    /// The file descriptor table; an empty slot is `None`.
    pub fds: Vec<Option<OpenFile>>,
    /// The system's hostname.
    pub hostname: Vec<u8>,
}

/// The negative-errno form of a result.
pub open spec fn spec_neg(e: Errno) -> i32 {
    (0 - e) as i32
}

/// Closes the file descriptor `fd`.
///
/// Returns zero on success and `-EBADF` exactly when the descriptor is out
/// of range or empty.
pub fn close(proc: &mut Proc, fd: u32) -> (r: i32)
    ensures
        final(proc).fds@.len() == old(proc).fds@.len(),
        r == 0 <==> fd < old(proc).fds@.len() && old(proc).fds@[fd as int] is Some,
        r == 0 ==> final(proc).fds@ == old(proc).fds@.update(fd as int, Option::<OpenFile>::None),
        r != 0 ==> r == spec_neg(EBADF) && final(proc).fds@ == old(proc).fds@,
{
    if fd as usize >= proc.fds.len() {
        return -EBADF;
    }
    if proc.fds[fd as usize].is_none() {
        return -EBADF;
    }
    proc.fds.set(fd as usize, None);
    0
}

/// Returns the parent's process id.
pub fn getppid(proc: &Proc) -> (r: i32)
    ensures
        r == proc.ppid,
{
    proc.ppid as i32
}

/// Duplicates `oldfd` onto `newfd`, closing what `newfd` held.
///
/// Returns `newfd` on success and `-EBADF` exactly when `oldfd` is out of
/// range or empty, or `newfd` is out of range.
pub fn dup2(proc: &mut Proc, oldfd: u32, newfd: u32) -> (r: i32)
    ensures
        final(proc).fds@.len() == old(proc).fds@.len(),
        r >= 0 <==> oldfd < old(proc).fds@.len() && old(proc).fds@[oldfd as int] is Some && newfd
            < old(proc).fds@.len() && newfd <= i32::MAX,
        r >= 0 ==> r == newfd && final(proc).fds@ == old(proc).fds@.update(
            newfd as int,
            old(proc).fds@[oldfd as int],
        ),
        r < 0 ==> r == spec_neg(EBADF) && final(proc).fds@ == old(proc).fds@,
{
    if oldfd as usize >= proc.fds.len() || newfd as usize >= proc.fds.len() {
        return -EBADF;
    }
    let entry = proc.fds[oldfd as usize];
    if entry.is_none() {
        return -EBADF;
    }
    if newfd > i32::MAX as u32 {
        return -EBADF;
    }
    proc.fds.set(newfd as usize, entry);
    newfd as i32
}

/// Creates a pipe: two fresh descriptors, the read end and the write end,
/// both pointing at the same channel node id.
///
/// Succeeds exactly when the flags stay within the accepted set
/// (close-on-exec, direct, non-blocking); anything else fails with
/// `-EINVAL`.
pub fn pipe2(proc: &mut Proc, channel: u32, flags: u32) -> (r: Result<(u32, u32), i32>)
    requires
        old(proc).fds@.len() < 0x10000,
    ensures
        r is Ok <==> flags & !0b10110u32 == 0,
        match r {
            Ok(p) => {
                &&& final(proc).fds@.len() == old(proc).fds@.len() + 2
                &&& p.0 == old(proc).fds@.len()
                &&& p.1 == old(proc).fds@.len() + 1
                &&& final(proc).fds@[p.0 as int] == Some(OpenFile { node: channel, flags })
                &&& final(proc).fds@[p.1 as int] == Some(OpenFile { node: channel, flags })
                &&& forall|k: int|
                    0 <= k < old(proc).fds@.len() ==> final(proc).fds@[k] == old(proc).fds@[k]
            },
            Err(e) => e == spec_neg(EINVAL) && final(proc).fds@ == old(proc).fds@,
        },
    {
    // accepted: close-on-exec, direct, non-blocking
    if flags & !0b10110u32 != 0 {
        return Err(-EINVAL);
    }
    let fd0 = proc.fds.len() as u32;
    proc.fds.push(Some(OpenFile { node: channel, flags }));
    let fd1 = proc.fds.len() as u32;
    proc.fds.push(Some(OpenFile { node: channel, flags }));
    Ok((fd0, fd1))
}

/// Creates a connected pair of sockets: two fresh descriptors pointing at
/// the two sides of the same channel.
///
/// Succeeds exactly for the local and internet domains; any other domain
/// fails with `-EINVAL`.
pub fn socketpair(proc: &mut Proc, channel: u32, domain: u32, type_: u32, protocol: u32) -> (r:
    Result<(u32, u32), i32>)
    requires
        old(proc).fds@.len() < 0x10000,
    ensures
        r is Ok <==> domain == crate::net::AF_INET || domain == 1,
        match r {
            Ok(p) => {
                &&& final(proc).fds@.len() == old(proc).fds@.len() + 2
                &&& p.0 == old(proc).fds@.len()
                &&& p.1 == old(proc).fds@.len() + 1
                &&& final(proc).fds@[p.0 as int] == Some(OpenFile { node: channel, flags: 0 })
                &&& final(proc).fds@[p.1 as int] == Some(OpenFile { node: channel, flags: 0 })
                &&& forall|k: int|
                    0 <= k < old(proc).fds@.len() ==> final(proc).fds@[k] == old(proc).fds@[k]
            },
            Err(e) => e == spec_neg(EINVAL) && final(proc).fds@ == old(proc).fds@,
        },
{
    if domain != crate::net::AF_INET && domain != 1 {
        return Err(-EINVAL);
    }
    let fd0 = proc.fds.len() as u32;
    proc.fds.push(Some(OpenFile { node: channel, flags: 0 }));
    let fd1 = proc.fds.len() as u32;
    proc.fds.push(Some(OpenFile { node: channel, flags: 0 }));
    Ok((fd0, fd1))
}

/// Sets the system's hostname.
///
/// A privileged caller and a name within the bound succeed; a longer name
/// fails with `-EINVAL`, an unprivileged caller with `-EPERM`, exactly.
pub fn sethostname(proc: &mut Proc, name: &[u8]) -> (r: i32)
    ensures
        name@.len() > HOST_NAME_MAX ==> r == spec_neg(EINVAL) && final(proc).hostname@ == old(proc).hostname@,
        name@.len() <= HOST_NAME_MAX && !old(proc).ap.privileged ==> r == spec_neg(EPERM) && final(proc).hostname@ == old(proc).hostname@,
        name@.len() <= HOST_NAME_MAX && old(proc).ap.privileged ==> r == 0 && final(proc).hostname@
            == name@,
{
    if name.len() > HOST_NAME_MAX {
        return -EINVAL;
    }
    if !proc.ap.privileged {
        return -EPERM;
    }
    let mut h: Vec<u8> = Vec::new();
    let mut i: usize = 0;
    while i < name.len()
        invariant
            i <= name@.len(),
            h@ == name@.take(i as int),
            proc.ap == old(proc).ap,
        decreases name@.len() - i,
    {
        h.push(name[i]);
        proof {
            assert(h@ =~= name@.take(i + 1));
        }
        i += 1;
    }
    proof {
        assert(name@.take(name@.len() as int) =~= name@);
    }
    proc.hostname = h;
    0
}

/// Creates a directory at `pathname` with the given mode, masked by the
/// process's creation mask.
///
/// Returns zero exactly when the parent resolves to a writable directory
/// with the name free; otherwise the negative of the operation's error,
/// the tree untouched.
pub fn mkdir(vfs: &mut Vfs, proc: &Proc, pathname: &[u8], mode: u16) -> (r: i32)
    requires
        old(vfs).wf(),
        old(vfs).next_id < u32::MAX,
    ensures
        final(vfs).wf(),
        r <= 0,
        r < 0 ==> *final(vfs) == *old(vfs),
        ({
            let err = crate::vfs::spec_create_op_err(
                old(vfs).nodes@,
                old(vfs).root,
                pathname@,
                proc.cwd,
                proc.ap,
            );
            &&& (r == 0 <==> err is None)
            &&& (r < 0 ==> r == spec_neg(err->Some_0))
        }),
        r == 0 ==> final(vfs).nodes@.len() == old(vfs).nodes@.len() + 1 && final(vfs).next_id
            == old(vfs).next_id + 1,
{
    let ghost err0 = crate::vfs::spec_create_op_err(
        old(vfs).nodes@,
        old(vfs).root,
        pathname@,
        proc.cwd,
        proc.ap,
    );
    match vfs.mkdir(pathname, mode, proc.umask, &proc.ap, proc.cwd) {
        Ok(_) => 0,
        Err(e) => {
            proof {
                crate::vfs::lemma_locate_parent_err(
                    old(vfs).nodes@,
                    old(vfs).root,
                    pathname@,
                    proc.cwd,
                );
                assert(err0 == Option::Some(e) && e > 0);
            }
            neg(e)
        }
    }
}

/// Removes the directory at `pathname`.
///
/// Returns zero exactly when the parent resolves to a writable directory
/// holding the name of an empty directory; otherwise the negative of the
/// operation's error, the tree untouched.
pub fn rmdir(vfs: &mut Vfs, proc: &Proc, pathname: &[u8]) -> (r: i32)
    requires
        old(vfs).wf(),
    ensures
        final(vfs).wf(),
        r <= 0,
        r < 0 ==> *final(vfs) == *old(vfs),
        ({
            let err = crate::vfs::spec_rmdir_err(
                old(vfs).nodes@,
                old(vfs).root,
                pathname@,
                proc.cwd,
                proc.ap,
            );
            &&& (r == 0 <==> err is None)
            &&& (r < 0 ==> r == spec_neg(err->Some_0))
        }),
        r == 0 ==> final(vfs).nodes@.len() == old(vfs).nodes@.len() - 1,
{
    let ghost err0 = crate::vfs::spec_rmdir_err(
        old(vfs).nodes@,
        old(vfs).root,
        pathname@,
        proc.cwd,
        proc.ap,
    );
    match vfs.rmdir(pathname, &proc.ap, proc.cwd) {
        Ok(_) => 0,
        Err(e) => {
            proof {
                crate::vfs::lemma_locate_parent_err(
                    old(vfs).nodes@,
                    old(vfs).root,
                    pathname@,
                    proc.cwd,
                );
                assert(err0 == Option::Some(e) && e > 0);
            }
            neg(e)
        }
    }
}

/// Reads the target of the symbolic link at `pathname`, up to `bufsiz`
/// bytes, no terminator appended.
///
/// Succeeds exactly when the path resolves, the final link itself not
/// followed, to a symbolic link; the bytes are the truncated target of
/// that very node.
pub fn readlink(vfs: &Vfs, proc: &Proc, pathname: &[u8], bufsiz: usize) -> (r: Result<Vec<u8>, i32>)
    requires
        vfs.wf(),
    ensures
        ({
            let err = crate::vfs::spec_readlink_err(vfs.nodes@, vfs.root, pathname@, proc.cwd);
            match r {
                Ok(v) => err is None && match crate::vfs::spec_resolve(
                    vfs.nodes@,
                    vfs.root,
                    pathname@,
                    proc.cwd,
                    false,
                ) {
                    Result::Err(_) => false,
                    Result::Ok(id) => match crate::vfs::spec_node_idx(vfs.nodes@, id) {
                        Option::None => false,
                        Option::Some(i) => ({
                            let target = vfs.nodes@[i].link_target@;
                            v@ == target.take(
                                if bufsiz < target.len() {
                                    bufsiz as int
                                } else {
                                    target.len() as int
                                },
                            )
                        }),
                    },
                },
                Err(e) => err matches Some(oe) && e == spec_neg(oe),
            }
        }),
{
    let ghost err0 = crate::vfs::spec_readlink_err(vfs.nodes@, vfs.root, pathname@, proc.cwd);
    match vfs.readlink(pathname, bufsiz, proc.cwd) {
        Ok(v) => Ok(v),
        Err(e) => {
            proof {
                crate::vfs::lemma_resolve_err(vfs.nodes@, vfs.root, pathname@, proc.cwd, false);
                assert(err0 == Option::Some(e) && e > 0);
            }
            Err(neg(e))
        }
    }
}

/// Changes the owner and group of the file at `pathname`; minus one
/// leaves the respective field alone.
///
/// Changing the owner requires privilege, even to the same owner: once
/// the file resolves, an unprivileged caller gets exactly the negative
/// `EPERM` and nothing changes.
pub fn chown(vfs: &mut Vfs, proc: &Proc, pathname: &[u8], owner: i64, group: i64) -> (r: i32)
    requires
        old(vfs).wf(),
    ensures
        final(vfs).wf(),
        r <= 0,
        r < 0 ==> *final(vfs) == *old(vfs),
        !proc.ap.privileged ==> r < 0,
        !proc.ap.privileged && -1 <= owner <= u32::MAX && -1 <= group <= u32::MAX
            && crate::vfs::spec_resolve(
            old(vfs).nodes@,
            old(vfs).root,
            pathname@,
            proc.cwd,
            true,
        ) is Ok ==> r == spec_neg(EPERM),
        r == 0 ==> proc.ap.privileged,
{
    match vfs.chown(pathname, owner, group, &proc.ap, proc.cwd) {
        Ok(_) => 0,
        Err(e) => {
            proof {
                crate::vfs::lemma_resolve_err(
                    old(vfs).nodes@,
                    old(vfs).root,
                    pathname@,
                    proc.cwd,
                    true,
                );
                assert(e > 0);
            }
            neg(e)
        }
    }
}

/// Changes the permissions of the file at `pathname`, masked to twelve
/// bits.
///
/// Returns zero exactly when the path resolves and the caller owns the
/// file or is privileged; the resolved node then carries the new bits.
pub fn chmod(vfs: &mut Vfs, proc: &Proc, pathname: &[u8], mode: u16) -> (r: i32)
    requires
        old(vfs).wf(),
    ensures
        final(vfs).wf(),
        r <= 0,
        r < 0 ==> *final(vfs) == *old(vfs),
        ({
            let res = crate::vfs::spec_resolve(
                old(vfs).nodes@,
                old(vfs).root,
                pathname@,
                proc.cwd,
                true,
            );
            match res {
                Result::Err(re) => r == spec_neg(re),
                Result::Ok(id) => match crate::vfs::spec_node_idx(old(vfs).nodes@, id) {
                    Option::None => true,
                    Option::Some(i) => if proc.ap.privileged || proc.ap.uid == old(
                        vfs,
                    ).nodes@[i].uid {
                        r == 0 && final(vfs).nodes@[i].mode == mode & 0xfff
                    } else {
                        r == spec_neg(EPERM)
                    },
                },
            }
        }),
{
    match vfs.chmod(pathname, mode, &proc.ap, proc.cwd) {
        Ok(_) => 0,
        Err(e) => {
            proof {
                crate::vfs::lemma_resolve_err(
                    old(vfs).nodes@,
                    old(vfs).root,
                    pathname@,
                    proc.cwd,
                    true,
                );
                assert(e > 0);
            }
            neg(e)
        }
    }
}

/// Creates a symbolic link at `linkpath` carrying `target`.
///
/// A target past `SYMLINK_MAX` yields the negative `ENAMETOOLONG`;
/// otherwise the call returns zero exactly when the parent resolves to a
/// writable directory with the name free.
pub fn symlink(vfs: &mut Vfs, proc: &Proc, target: &[u8], linkpath: &[u8]) -> (r: i32)
    requires
        old(vfs).wf(),
        old(vfs).next_id < u32::MAX,
    ensures
        final(vfs).wf(),
        r <= 0,
        r < 0 ==> *final(vfs) == *old(vfs),
        ({
            let err = crate::vfs::spec_create_op_err(
                old(vfs).nodes@,
                old(vfs).root,
                linkpath@,
                proc.cwd,
                proc.ap,
            );
            if target@.len() > crate::limits::SYMLINK_MAX {
                r == spec_neg(crate::errno::ENAMETOOLONG)
            } else {
                &&& (r == 0 <==> err is None)
                &&& (r < 0 ==> r == spec_neg(err->Some_0))
            }
        }),
        r == 0 ==> final(vfs).nodes@.len() == old(vfs).nodes@.len() + 1 && final(vfs).nodes@.last().link_target@ == target@,
{
    let ghost err0 = crate::vfs::spec_create_op_err(
        old(vfs).nodes@,
        old(vfs).root,
        linkpath@,
        proc.cwd,
        proc.ap,
    );
    match vfs.symlink(target, linkpath, &proc.ap, proc.cwd) {
        Ok(_) => 0,
        Err(e) => {
            proof {
                crate::vfs::lemma_locate_parent_err(
                    old(vfs).nodes@,
                    old(vfs).root,
                    linkpath@,
                    proc.cwd,
                );
                if target@.len() <= crate::limits::SYMLINK_MAX {
                    assert(err0 == Option::Some(e));
                }
                assert(e > 0);
            }
            neg(e)
        }
    }
}

/// Adds a hard link at `newpath` to the file at `oldpath`.
///
/// Returns zero exactly when the old path resolves to a non-directory on
/// the new parent's mountpoint, the parent is writable and the name
/// free; the file's link count then rises by one.
pub fn link(vfs: &mut Vfs, proc: &Proc, oldpath: &[u8], newpath: &[u8]) -> (r: i32)
    requires
        old(vfs).wf(),
    ensures
        final(vfs).wf(),
        r <= 0,
        r < 0 ==> *final(vfs) == *old(vfs),
        r == 0 ==> crate::vfs::spec_resolve(
            old(vfs).nodes@,
            old(vfs).root,
            oldpath@,
            proc.cwd,
            true,
        ) is Ok && crate::vfs::spec_locate_parent(
            old(vfs).nodes@,
            old(vfs).root,
            newpath@,
            proc.cwd,
        ) is Ok && final(vfs).nodes@.len() == old(vfs).nodes@.len(),
        r < 0 ==> ({
            let res = crate::vfs::spec_resolve(
                old(vfs).nodes@,
                old(vfs).root,
                oldpath@,
                proc.cwd,
                true,
            );
            res matches Result::Err(re) ==> r == spec_neg(re)
        }),
{
    match vfs.link(oldpath, newpath, &proc.ap, proc.cwd) {
        Ok(_) => 0,
        Err(e) => {
            proof {
                crate::vfs::lemma_resolve_err(
                    old(vfs).nodes@,
                    old(vfs).root,
                    oldpath@,
                    proc.cwd,
                    true,
                );
                crate::vfs::lemma_locate_parent_err(
                    old(vfs).nodes@,
                    old(vfs).root,
                    newpath@,
                    proc.cwd,
                );
                assert(e > 0);
            }
            neg(e)
        }
    }
}

/// Removes the name at `pathname`; the file's link count drops, and its
/// record is freed at zero.
///
/// Returns zero exactly when the parent resolves to a writable directory
/// holding the name of a non-directory.
pub fn unlink(vfs: &mut Vfs, proc: &Proc, pathname: &[u8]) -> (r: i32)
    requires
        old(vfs).wf(),
    ensures
        final(vfs).wf(),
        r <= 0,
        r < 0 ==> *final(vfs) == *old(vfs),
        ({
            let err = crate::vfs::spec_unlink_err(
                old(vfs).nodes@,
                old(vfs).root,
                pathname@,
                proc.cwd,
                proc.ap,
            );
            &&& (r == 0 <==> err is None)
            &&& (r < 0 ==> r == spec_neg(err->Some_0))
        }),
{
    let ghost err0 = crate::vfs::spec_unlink_err(
        old(vfs).nodes@,
        old(vfs).root,
        pathname@,
        proc.cwd,
        proc.ap,
    );
    match vfs.unlink(pathname, &proc.ap, proc.cwd) {
        Ok(_) => 0,
        Err(e) => {
            proof {
                crate::vfs::lemma_locate_parent_err(
                    old(vfs).nodes@,
                    old(vfs).root,
                    pathname@,
                    proc.cwd,
                );
                assert(err0 == Option::Some(e) && e > 0);
            }
            neg(e)
        }
    }
}

/// Creates a node at `pathname`; returns zero or the negative error. The
/// device number splits classically into major and minor.
pub fn mknod(vfs: &mut Vfs, proc: &Proc, pathname: &[u8], file_type: FileType, mode: u16, dev: u64) -> (r: i32)
    requires
        old(vfs).wf(),
        old(vfs).next_id < u32::MAX,
    ensures
        final(vfs).wf(),
        r <= 0,
        file_type == FileType::Directory || file_type == FileType::Link ==> r == spec_neg(EPERM),
{
    match vfs.mknod(pathname, file_type, mode, proc.umask, dev, &proc.ap, proc.cwd) {
        Ok(_) => 0,
        Err(e) => neg(e),
    }
}

/// The negative form of an error number; errors are positive values.
fn neg(e: Errno) -> (r: i32)
    ensures
        e > 0 ==> r == spec_neg(e),
        r < 0,
{
    if e <= 0 {
        return -EINVAL;
    }
    0 - e
}


/// Data can be read.
pub const PROT_READ: i32 = 0b001;
/// Data can be written.
pub const PROT_WRITE: i32 = 0b010;
/// Data can be executed.
pub const PROT_EXEC: i32 = 0b100;
/// Changes are shared.
pub const MAP_SHARED: i32 = 0b001;
/// The address is exact.
pub const MAP_FIXED: i32 = 0b010;

/// Converts the mapping flags and protection of `mmap` into the address
/// space's mapping flags.
pub fn get_flags(flags: i32, prot: i32) -> (r: u8)
    ensures
        r == crate::mem_space::MAPPING_FLAG_USER
            | (if flags & MAP_SHARED != 0 { crate::mem_space::MAPPING_FLAG_SHARED } else { 0 })
            | (if prot & PROT_WRITE != 0 { crate::mem_space::MAPPING_FLAG_WRITE } else { 0 })
            | (if prot & PROT_EXEC != 0 { crate::mem_space::MAPPING_FLAG_EXEC } else { 0 }),
{
    let shared: u8 = if flags & MAP_SHARED != 0 {
        crate::mem_space::MAPPING_FLAG_SHARED
    } else {
        0
    };
    let write: u8 = if prot & PROT_WRITE != 0 {
        crate::mem_space::MAPPING_FLAG_WRITE
    } else {
        0
    };
    let exec: u8 = if prot & PROT_EXEC != 0 {
        crate::mem_space::MAPPING_FLAG_EXEC
    } else {
        0
    };
    crate::mem_space::MAPPING_FLAG_USER | shared | write | exec
}

/// Maps memory into the process's address space.
///
/// The address and the length must be page-aligned and non-empty, the file
/// offset page-aligned, else `-EINVAL`. A usable address inside the user
/// range serves as a hint: the gap containing it is tried first, and on
/// failure the call falls back to any gap; with no room at all the call
/// fails with the negative of the allocator's error. The page number of
/// the placed mapping, scaled to an address, comes back on success.
#[verifier::rlimit(100)]
pub fn do_mmap(
    space: &mut crate::mem_space::MemSpace,
    addr: usize,
    length: usize,
    prot: i32,
    flags: i32,
    file: Option<crate::mem_space::FileBacking>,
    offset: u64,
) -> (r: Result<usize, i32>)
    requires
        old(space).wf(),
        file matches Some(fb) ==> fb.offset + crate::mem_space::PROCESS_END <= u64::MAX,
    ensures
        final(space).wf(),
        length % crate::PAGE_SIZE != 0 || addr % crate::PAGE_SIZE != 0 || length == 0 ==> (r
            matches Err(e) && e == spec_neg(EINVAL)),
        r is Err ==> *final(space) == *old(space),
        ({
            let pages = length as int / crate::PAGE_SIZE as int;
            let mem_flags = crate::mem_space::MAPPING_FLAG_USER | (if flags & MAP_SHARED != 0 {
                crate::mem_space::MAPPING_FLAG_SHARED
            } else {
                0
            }) | (if prot & PROT_WRITE != 0 {
                crate::mem_space::MAPPING_FLAG_WRITE
            } else {
                0
            }) | (if prot & PROT_EXEC != 0 {
                crate::mem_space::MAPPING_FLAG_EXEC
            } else {
                0
            });
            match r {
                Ok(a) => {
                    let page = a as int / crate::PAGE_SIZE as int;
                    // the pages are freshly mapped with the requested
                    // flags, read as zeros, and nothing else moved
                    &&& a % crate::PAGE_SIZE == 0
                    &&& a == page * crate::PAGE_SIZE
                    &&& page + pages <= crate::mem_space::PROCESS_END_PAGES
                    &&& forall|p: int|
                        page <= p < page + pages ==> final(space).page(p)
                            == crate::mem_space::spec_fresh_page(mem_flags, file, p - page)
                    &&& forall|p: int|
                        !(page <= p < page + pages) ==> final(space).page(p) == old(space).page(p)
                    &&& forall|p: int| page <= p < page + pages ==> old(space).page(p) is Free
                },
                Err(e) => {
                    &&& e < 0
                    &&& (addr % crate::PAGE_SIZE == 0 && length != 0 && length % crate::PAGE_SIZE
                        == 0 && offset % (crate::PAGE_SIZE as u64) == 0 && pages
                        <= crate::mem_space::PROCESS_END_PAGES) ==> e == spec_neg(
                        crate::errno::ENOMEM,
                    ) && (if addr != 0 && addr as int / crate::PAGE_SIZE as int + pages
                        <= crate::mem_space::PROCESS_END_PAGES && flags & MAP_FIXED != 0 {
                        !crate::mem_space::spec_can_map(
                            old(space).slots_view(),
                            crate::mem_space::MapConstraint::Fixed(
                                (addr / crate::PAGE_SIZE) as usize,
                            ),
                            pages,
                        )
                    } else {
                        !crate::mem_space::spec_can_map(
                            old(space).slots_view(),
                            crate::mem_space::MapConstraint::NoConstraint,
                            pages,
                        )
                    })
                },
            }
        }),
{
    if addr % crate::PAGE_SIZE != 0 || length == 0 || length % crate::PAGE_SIZE != 0 {
        return Err(-EINVAL);
    }
    if offset % (crate::PAGE_SIZE as u64) != 0 {
        return Err(-EINVAL);
    }
    let pages = length / crate::PAGE_SIZE;
    // reject a range that cannot fit the user address space
    if pages > crate::mem_space::PROCESS_END_PAGES {
        return Err(-EINVAL);
    }
    let addr_page = addr / crate::PAGE_SIZE;
    let mem_flags = get_flags(flags, prot);
    let constraint = if addr != 0 && addr_page + pages <= crate::mem_space::PROCESS_END_PAGES {
        if flags & MAP_FIXED != 0 {
            crate::mem_space::MapConstraint::Fixed(addr_page)
        } else {
            crate::mem_space::MapConstraint::Hint(addr_page)
        }
    } else {
        crate::mem_space::MapConstraint::NoConstraint
    };
    proof {
        if file is Some {
            let fb = file->Some_0;
            crate::mem_space::lemma_offset_bound(pages as int);
        }
    }
    let first = space.map(constraint, pages, mem_flags, file);
    let page = match first {
        Ok(p) => p,
        Err(e) => {
            // a hint is advisory: fall back to any gap
            let retry = if matches!(constraint, crate::mem_space::MapConstraint::Hint(_)) {
                space.map(crate::mem_space::MapConstraint::NoConstraint, pages, mem_flags, file)
            } else {
                Err(e)
            };
            match retry {
                Ok(p) => p,
                Err(e2) => {
                    proof {
                        assert(e2 == crate::errno::ENOMEM);
                        if matches!(constraint, crate::mem_space::MapConstraint::NoConstraint) {
                        }
                    }
                    return Err(neg(e2));
                }
            }
        }
    };
    proof {
        crate::mem_space::lemma_page_addr_aligned(page as int);
        vstd::arithmetic::div_mod::lemma_fundamental_div_mod(
            (page * crate::PAGE_SIZE) as int,
            crate::PAGE_SIZE as int,
        );
        assert((page * crate::PAGE_SIZE) as int / (crate::PAGE_SIZE as int) == page as int)
            by (nonlinear_arith)
            requires page >= 0, crate::PAGE_SIZE > 0;
    }
    Ok(page * crate::PAGE_SIZE)
}

/// The file metadata a stat call returns to userspace/// The file metadata a stat call returns to userspace, sizes in sixty-four
/// bits.
#[derive(Clone, Copy, Debug, PartialEq, Eq, Structural)]
pub struct Stat {
    /// The containing device's number.
    pub st_dev: u64,
    /// The file's inode number.
    pub st_ino: u32,
    /// The file's mode: type and permissions.
    pub st_mode: u16,
    /// The number of hard links.
    pub st_nlink: u32,
    /// The owner's user id.
    pub st_uid: u32,
    /// The owning group's id.
    pub st_gid: u32,
    /// The device number of a device file.
    pub st_rdev: u64,
    /// The file's size in bytes.
    pub st_size: u64,
    /// The preferred block size for input and output.
    pub st_blksize: u32,
}

/// Returns the metadata of the file an open descriptor names.
///
/// A bad descriptor fails with `-EBADF`; sizes come back in sixty-four
/// bits.
#[verifier::rlimit(60)]
pub fn fstat64(vfs: &Vfs, proc: &Proc, fd: u32) -> (r: Result<Stat, i32>)
    requires
        vfs.wf(),
    ensures
        ({
            let bad = fd >= proc.fds@.len() || proc.fds@[fd as int] is None;
            match r {
                Err(e) => e == spec_neg(EBADF) && (bad || crate::vfs::spec_node_idx(
                    vfs.nodes@,
                    proc.fds@[fd as int]->Some_0.node,
                ) is None),
                Ok(st) => !bad && match crate::vfs::spec_node_idx(
                    vfs.nodes@,
                    proc.fds@[fd as int]->Some_0.node,
                ) {
                    Option::None => false,
                    Option::Some(i) => spec_stat_of(st, vfs.nodes@[i]),
                },
            }
        }),
{
    if fd as usize >= proc.fds.len() {
        return Err(-EBADF);
    }
    let of = match proc.fds[fd as usize] {
        Some(of) => of,
        None => {
            return Err(-EBADF);
        }
    };
    let idx = match vfs.node_idx(of.node) {
        Some(i) => i,
        None => {
            return Err(-EBADF);
        }
    };
    let node = &vfs.nodes[idx];
    let size: u64 = if matches!(node.file_type, FileType::Link) {
        node.link_target.len() as u64
    } else {
        node.content.len() as u64
    };
    Ok(Stat {
        st_dev: 0,
        st_ino: node.id,
        st_mode: (crate::ext2::Ext2INode::get_file_mode(node.file_type, node.mode)),
        st_nlink: node.nlink,
        st_uid: node.uid,
        st_gid: node.gid,
        st_rdev: crate::device::makedev(node.major, node.minor),
        st_size: size,
        st_blksize: 512,
    })
}

/// Whether a stat snapshot carries the given node's metadata: the inode
/// number, the combined type and permission mode, the counts and owners,
/// the device number and the sixty-four bit size.
pub open spec fn spec_stat_of(st: Stat, n: crate::vfs::FsNode) -> bool {
    &&& st.st_ino == n.id
    &&& st.st_mode == (n.mode | crate::ext2::spec_type_bits(n.file_type))
    &&& st.st_nlink == n.nlink
    &&& st.st_uid == n.uid
    &&& st.st_gid == n.gid
    &&& st.st_rdev == crate::device::spec_makedev(n.major, n.minor)
    &&& st.st_size == (if n.file_type == FileType::Link {
        n.link_target@.len()
    } else {
        n.content@.len()
    })
}

/// Returns the metadata of the file at `pathname`, following links when/// Returns the metadata of the file at `pathname`, following links when
/// asked to; the richer form of the stat family.
#[verifier::rlimit(60)]
pub fn statx(vfs: &Vfs, proc: &Proc, pathname: &[u8], follow_links: bool) -> (r: Result<Stat, i32>)
    requires
        vfs.wf(),
    ensures
        ({
            let res = crate::vfs::spec_resolve(
                vfs.nodes@,
                vfs.root,
                pathname@,
                proc.cwd,
                follow_links,
            );
            match r {
                Err(e) => match res {
                    Result::Err(re) => e == spec_neg(re),
                    Result::Ok(_) => false,
                },
                Ok(st) => match res {
                    Result::Err(_) => false,
                    Result::Ok(id) => match crate::vfs::spec_node_idx(vfs.nodes@, id) {
                        Option::None => false,
                        Option::Some(i) => spec_stat_of(st, vfs.nodes@[i]),
                    },
                },
            }
        }),
{
    let id = match vfs.resolve(pathname, proc.cwd, follow_links) {
        Ok(id) => id,
        Err(e) => {
            proof {
                crate::vfs::lemma_resolve_err(
                    vfs.nodes@,
                    vfs.root,
                    pathname@,
                    proc.cwd,
                    follow_links,
                );
            }
            return Err(neg(e));
        }
    };
    let idx = match vfs.node_idx(id) {
        Some(i) => i,
        None => {
            return Err(-EBADF);
        }
    };
    let node = &vfs.nodes[idx];
    let size: u64 = if matches!(node.file_type, FileType::Link) {
        node.link_target.len() as u64
    } else {
        node.content.len() as u64
    };
    Ok(Stat {
        st_dev: 0,
        st_ino: node.id,
        st_mode: (crate::ext2::Ext2INode::get_file_mode(node.file_type, node.mode)),
        st_nlink: node.nlink,
        st_uid: node.uid,
        st_gid: node.gid,
        st_rdev: crate::device::makedev(node.major, node.minor),
        st_size: size,
        st_blksize: 512,
    })
}

} // verus!
