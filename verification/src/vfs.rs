//! The virtual filesystem: the filesystem-agnostic namespace.
//!
//! Files are reference-counted inode records keyed by their id; directory
//! entries hold the id by value. Path resolution walks components from the
//! root or the working directory, follows symbolic links up to a fixed
//! bound, and the operations check permissions with the classical owner,
//! group, other selection.

use vstd::prelude::*;

use crate::errno::{
    Errno, EACCES, EBUSY, EEXIST, EINVAL, EISDIR, ELOOP, ENAMETOOLONG, ENOENT, ENOTDIR, ENOTEMPTY,
    EPERM, EXDEV,
};
use crate::ext2::FileType;
use crate::limits::{PATH_MAX, SYMLINK_MAX, SYMLOOP_MAX};
use crate::path::{parse_path, Component};

verus! {

/// The effective credentials an operation runs under.
#[derive(Clone, Copy, Debug, PartialEq, Eq, Structural)]
pub struct AccessProfile {
    /// The effective user id.
    pub uid: u32,
    /// The effective group id.
    pub gid: u32,
    /// Whether the caller is privileged.
    pub privileged: bool,
}

/// One inode record of the namespace.
#[derive(Clone, Debug)]
pub struct FsNode {
    /// The node's id; unique in the namespace.
    pub id: u32,
    /// The mountpoint the node belongs to.
    pub mount: u32,
    /// The node's type.
    pub file_type: FileType,
    /// The permission bits, twelve of them.
    pub mode: u16,
    /// The owner's user id.
    pub uid: u32,
    /// The owning group's id.
    pub gid: u32,
    /// The number of hard links to the node.
    pub nlink: u32,
    /// For a directory: its entries, the two standard ones included.
    pub entries: Vec<(Vec<u8>, u32)>,
    /// For a symbolic link: the target bytes.
    pub link_target: Vec<u8>,
    /// For a device file: the major number.
    pub major: u32,
    /// For a device file: the minor number.
    pub minor: u32,
    /// For a regular file: its bytes.
    pub content: Vec<u8>,
}

/// The namespace: the inode records and the id the next node gets.
pub struct Vfs {
    /// The inode records.
    pub nodes: Vec<FsNode>,
    /// The id handed to the next created node.
    pub next_id: u32,
    /// The id of the root directory.
    pub root: u32,
}

/// The index of the node with the given id.
pub open spec fn spec_node_idx(nodes: Seq<FsNode>, id: u32) -> Option<int>
    decreases nodes.len(),
{
    if nodes.len() == 0 {
        Option::None
    } else if nodes[0].id == id {
        Option::Some(0)
    } else {
        match spec_node_idx(nodes.skip(1), id) {
            Option::Some(i) => Option::Some(i + 1),
            Option::None => Option::None,
        }
    }
}

/// The id bound to `name` in a directory's entries.
pub open spec fn spec_entry_lookup(entries: Seq<(Vec<u8>, u32)>, name: Seq<u8>) -> Option<u32>
    decreases entries.len(),
{
    if entries.len() == 0 {
        Option::None
    } else if entries[0].0@ == name {
        Option::Some(entries[0].1)
    } else {
        spec_entry_lookup(entries.skip(1), name)
    }
}

/// Whether the profile may access a node the given way, by the classical
/// bit selection: the owner's bits for the owner, the group's for the
/// group, the other bits otherwise; a privileged caller always may.
pub open spec fn spec_can_access(node: FsNode, ap: AccessProfile, bit: u16) -> bool {
    if ap.privileged {
        true
    } else if ap.uid == node.uid {
        node.mode & ((bit * 0x40) as u16) != 0
    } else if ap.gid == node.gid {
        node.mode & ((bit * 0x8) as u16) != 0
    } else {
        node.mode & bit != 0
    }
}

/// One resolution walk, one component at a time.
///
/// The root component resets to the root; the current directory stands
/// still; the parent component follows the directory's own parent entry,
/// so the root, whose parent entry names itself, is its own parent. A
/// normal name is looked up in the current directory; when it names a
/// symbolic link met before the last component, or met last while links
/// are followed, the link's target replaces the rest of the walk, an
/// absolute target restarting from the root. The `links` counter caps the
/// traversals at `SYMLOOP_MAX`; one more yields `ELOOP`.
pub open spec fn spec_resolve_loop(
    nodes: Seq<FsNode>,
    root: u32,
    comps: Seq<crate::path::CompView>,
    cur: u32,
    links: int,
    follow: bool,
) -> Result<u32, Errno>
    decreases SYMLOOP_MAX - links, comps.len(),
    when 0 <= links <= SYMLOOP_MAX
{
    if comps.len() == 0 {
        if spec_node_idx(nodes, cur) is Some {
            Result::Ok(cur)
        } else {
            Result::Err(ENOENT)
        }
    } else {
        let rest = comps.skip(1);
        match comps[0] {
            crate::path::CompView::RootDir => spec_resolve_loop(
                nodes,
                root,
                rest,
                root,
                links,
                follow,
            ),
            crate::path::CompView::CurDir => spec_resolve_loop(nodes, root, rest, cur, links, follow),
            crate::path::CompView::ParentDir => match spec_node_idx(nodes, cur) {
                Option::None => Result::Err(ENOENT),
                Option::Some(i) => if nodes[i].file_type != FileType::Directory {
                    Result::Err(ENOTDIR)
                } else {
                    match spec_entry_lookup(nodes[i].entries@, crate::path::spec_dotdot()) {
                        Option::None => Result::Err(ENOENT),
                        Option::Some(p) => spec_resolve_loop(nodes, root, rest, p, links, follow),
                    }
                },
            },
            crate::path::CompView::Normal(name) => match spec_node_idx(nodes, cur) {
                Option::None => Result::Err(ENOENT),
                Option::Some(i) => if nodes[i].file_type != FileType::Directory {
                    Result::Err(ENOTDIR)
                } else {
                    match spec_entry_lookup(nodes[i].entries@, name) {
                        Option::None => Result::Err(ENOENT),
                        Option::Some(next) => match spec_node_idx(nodes, next) {
                            Option::None => Result::Err(ENOENT),
                            Option::Some(ni) => if nodes[ni].file_type == FileType::Link && (
                            rest.len() > 0 || follow) {
                                if links >= SYMLOOP_MAX {
                                    Result::Err(ELOOP)
                                } else {
                                    let t = nodes[ni].link_target@;
                                    spec_resolve_loop(
                                        nodes,
                                        root,
                                        crate::path::spec_components(t) + rest,
                                        if crate::path::spec_is_absolute(t) {
                                            root
                                        } else {
                                            cur
                                        },
                                        links + 1,
                                        follow,
                                    )
                                }
                            } else {
                                spec_resolve_loop(nodes, root, rest, next, links, follow)
                            },
                        },
                    }
                },
            },
        }
    }
}

/// What resolving a path yields: too long is rejected, then the walk runs
/// from the root for an absolute path, from the working directory
/// otherwise.
pub open spec fn spec_resolve(
    nodes: Seq<FsNode>,
    root: u32,
    path: Seq<u8>,
    cwd: u32,
    follow: bool,
) -> Result<u32, Errno> {
    if path.len() > PATH_MAX {
        Result::Err(ENAMETOOLONG)
    } else {
        spec_resolve_loop(
            nodes,
            root,
            crate::path::spec_components(path),
            if crate::path::spec_is_absolute(path) {
                root
            } else {
                cwd
            },
            0,
            follow,
        )
    }
}

/// Where a creating or removing operation lands: the index of the
/// resolved parent directory's node and the final name. A path naming
/// the root has no final name and yields `EEXIST`.
pub open spec fn spec_locate_parent(
    nodes: Seq<FsNode>,
    root: u32,
    path: Seq<u8>,
    cwd: u32,
) -> Result<(int, Seq<u8>), Errno> {
    if path.len() > PATH_MAX {
        Result::Err(ENAMETOOLONG)
    } else {
        let comps = crate::path::spec_components(path);
        if comps.len() == 0 || comps.last() is RootDir {
            Result::Err(EEXIST)
        } else {
            match spec_resolve_loop(
                nodes,
                root,
                comps.drop_last(),
                if crate::path::spec_is_absolute(path) {
                    root
                } else {
                    cwd
                },
                0,
                true,
            ) {
                Result::Err(e) => Result::Err(e),
                Result::Ok(id) => match spec_node_idx(nodes, id) {
                    Option::None => Result::Err(ENOENT),
                    Option::Some(i) => Result::Ok((i, crate::path::comp_bytes(comps.last()))),
                },
            }
        }
    }
}

impl Vfs {
    /// Whether the namespace is sound: ids are unique, the root exists and
    /// is a directory.
    pub open spec fn wf(&self) -> bool {
        &&& spec_node_idx(self.nodes@, self.root) is Some
        &&& forall|i: int, j: int|
            0 <= i < j < self.nodes@.len() ==> (#[trigger] self.nodes@[i]).id != (
            #[trigger] self.nodes@[j]).id
        &&& forall|i: int| 0 <= i < self.nodes@.len() ==> (#[trigger] self.nodes@[i]).id < self.next_id
    }

    /// Creates a namespace holding one root directory owned by the
    /// privileged user.
    pub fn new() -> (r: Vfs)
        ensures
            r.wf(),
            r.nodes@.len() == 1,
            r.nodes@[0].file_type == FileType::Directory,
            r.nodes@[0].id == r.root,
    {
        let mut entries: Vec<(Vec<u8>, u32)> = Vec::new();
        let mut dot: Vec<u8> = Vec::new();
        dot.push(46);
        entries.push((dot, 0));
        let mut dotdot: Vec<u8> = Vec::new();
        dotdot.push(46);
        dotdot.push(46);
        entries.push((dotdot, 0));
        let root = FsNode {
            id: 0,
            mount: 0,
            file_type: FileType::Directory,
            mode: 0o755,
            uid: 0,
            gid: 0,
            nlink: 2,
            entries,
            link_target: Vec::new(),
            major: 0,
            minor: 0,
            content: Vec::new(),
        };
        let mut nodes: Vec<FsNode> = Vec::new();
        nodes.push(root);
        Vfs { nodes, next_id: 1, root: 0 }
    }

    /// Returns the index of the node with the given id.
    pub fn node_idx(&self, id: u32) -> (r: Option<usize>)
        ensures
            match r {
                Some(i) => spec_node_idx(self.nodes@, id) == Option::Some(i as int) && i
                    < self.nodes@.len() && self.nodes@[i as int].id == id,
                None => spec_node_idx(self.nodes@, id) is None,
            },
    {
        let n = self.nodes.len();
        let mut i: usize = 0;
        proof {
            assert(self.nodes@.skip(0) =~= self.nodes@);
        }
        while i < n
            invariant
                i <= n,
                n == self.nodes@.len(),
                forall|j: int| 0 <= j < i ==> (#[trigger] self.nodes@[j]).id != id,
            decreases n - i,
        {
            if self.nodes[i].id == id {
                proof {
                    lemma_node_idx_found(self.nodes@, id, i as int);
                }
                return Some(i);
            }
            i += 1;
        }
        proof {
            lemma_node_idx_none(self.nodes@, id);
        }
        None
    }

    /// Looks `name` up in the entries of the directory node at index
    /// `idx`.
    pub fn dir_lookup(&self, idx: usize, name: &[u8]) -> (r: Option<u32>)
        requires
            idx < self.nodes@.len(),
        ensures
            r == spec_entry_lookup(self.nodes@[idx as int].entries@, name@),
    {
        let entries = &self.nodes[idx].entries;
        let n = entries.len();
        let mut i: usize = 0;
        proof {
            assert(entries@.skip(0) =~= entries@);
        }
        while i < n
            invariant
                i <= n,
                n == entries@.len(),
                spec_entry_lookup(entries@.skip(i as int), name@) == spec_entry_lookup(
                    entries@,
                    name@,
                ),
            decreases n - i,
        {
            proof {
                assert(entries@.skip(i as int)[0] == entries@[i as int]);
                assert(entries@.skip(i as int).skip(1) =~= entries@.skip(i + 1));
            }
            if crate::vfs::bytes_same(entries[i].0.as_slice(), name) {
                return Some(entries[i].1);
            }
            i += 1;
        }
        None
    }

    /// Tells whether the profile may access the node the given way;
    /// `bit` is the other-class permission bit: four to read, two to
    /// write, one to execute or search.
    pub fn can_access(&self, idx: usize, ap: &AccessProfile, bit: u16) -> (r: bool)
        requires
            idx < self.nodes@.len(),
            bit == 1 || bit == 2 || bit == 4,
        ensures
            r == spec_can_access(self.nodes@[idx as int], *ap, bit),
    {
        let node = &self.nodes[idx];
        if ap.privileged {
            true
        } else if ap.uid == node.uid {
            node.mode & (bit * 0x40) != 0
        } else if ap.gid == node.gid {
            node.mode & (bit * 0x8) != 0
        } else {
            node.mode & bit != 0
        }
    }

    /// Walks the given components from `start`, following links.
    ///
    /// The result is exactly the specification walk over the same
    /// components.
    fn resolve_comps(&self, comps: Vec<Component>, start: u32, follow: bool) -> (r: Result<
        u32,
        Errno,
    >)
        requires
            self.wf(),
        ensures
            r == spec_resolve_loop(
                self.nodes@,
                self.root,
                crate::path::views_of(comps@),
                start,
                0,
                follow,
            ),
            r matches Ok(id) ==> spec_node_idx(self.nodes@, id) is Some,
    {
        let ghost target = spec_resolve_loop(
            self.nodes@,
            self.root,
            crate::path::views_of(comps@),
            start,
            0,
            follow,
        );
        let mut comps = comps;
        let mut cur: u32 = start;
        let mut links: usize = 0;
        loop
            invariant
                self.wf(),
                links <= SYMLOOP_MAX,
                spec_resolve_loop(
                    self.nodes@,
                    self.root,
                    crate::path::views_of(comps@),
                    cur,
                    links as int,
                    follow,
                ) == target,
            decreases SYMLOOP_MAX - links, comps@.len(),
        {
            let ghost views = crate::path::views_of(comps@);
            if comps.len() == 0 {
                match self.node_idx(cur) {
                    Some(_) => {
                        return Ok(cur);
                    }
                    None => {
                        return Err(ENOENT);
                    }
                }
            }
            let comp = comps.remove(0);
            proof {
                assert(crate::path::views_of(comps@) =~= views.skip(1));
                assert(comp@ == views[0]);
            }
            match comp {
                Component::RootDir => {
                    cur = self.root;
                }
                Component::CurDir => {}
                Component::ParentDir => {
                    let idx = match self.node_idx(cur) {
                        Some(i) => i,
                        None => {
                            return Err(ENOENT);
                        }
                    };
                    if !matches!(self.nodes[idx].file_type, FileType::Directory) {
                        return Err(ENOTDIR);
                    }
                    let dotdot: [u8; 2] = [46, 46];
                    proof {
                        assert(dotdot@ =~= crate::path::spec_dotdot());
                    }
                    let parent = match self.dir_lookup(idx, dotdot.as_slice()) {
                        Some(p) => p,
                        None => {
                            return Err(ENOENT);
                        }
                    };
                    cur = parent;
                }
                Component::Normal(name) => {
                    let idx = match self.node_idx(cur) {
                        Some(i) => i,
                        None => {
                            return Err(ENOENT);
                        }
                    };
                    if !matches!(self.nodes[idx].file_type, FileType::Directory) {
                        return Err(ENOTDIR);
                    }
                    let next = match self.dir_lookup(idx, name.as_slice()) {
                        Some(id) => id,
                        None => {
                            return Err(ENOENT);
                        }
                    };
                    let nidx = match self.node_idx(next) {
                        Some(i) => i,
                        None => {
                            return Err(ENOENT);
                        }
                    };
                    let is_link = matches!(self.nodes[nidx].file_type, FileType::Link);
                    if is_link && (comps.len() > 0 || follow) {
                        if links >= SYMLOOP_MAX {
                            return Err(ELOOP);
                        }
                        links += 1;
                        // the link's target replaces the remaining path
                        let mut target_comps = parse_path(self.nodes[nidx].link_target.as_slice());
                        let target_abs = self.nodes[nidx].link_target.len() == 0
                            || self.nodes[nidx].link_target[0] == 47;
                        let ghost tviews = crate::path::views_of(target_comps@);
                        let ghost restviews = crate::path::views_of(comps@);
                        let mut rest = comps;
                        let mut k: usize = 0;
                        let tn = target_comps.len();
                        while k < tn
                            invariant
                                k <= tn,
                                tn == target_comps@.len() + k,
                                rest@.len() == restviews.len() + k,
                                tn == tviews.len(),
                                crate::path::views_of(target_comps@) == tviews.skip(k as int),
                                crate::path::views_of(rest@) == tviews.take(k as int) + restviews,
                            decreases tn - k,
                        {
                            let ghost prerest = rest@;
                            let ghost pretarget = target_comps@;
                            let c = target_comps.remove(0);
                            proof {
                                assert(crate::path::views_of(pretarget)[0] == pretarget[0]@);
                                assert(crate::path::views_of(pretarget)[0] == tviews.skip(
                                    k as int,
                                )[0]);
                                assert(c@ == tviews[k as int]);
                                assert(target_comps@ =~= pretarget.skip(1));
                                assert forall|j: int|
                                    0 <= j < target_comps@.len() implies #[trigger] crate::path::views_of(
                                    target_comps@,
                                )[j] == tviews.skip(k + 1)[j] by {
                                    assert(crate::path::views_of(target_comps@)[j]
                                        == target_comps@[j]@);
                                    assert(target_comps@[j] == pretarget[j + 1]);
                                    assert(crate::path::views_of(pretarget)[j + 1] == pretarget[j
                                        + 1]@);
                                    assert(tviews.skip(k as int)[j + 1] == tviews[k + 1 + j]);
                                }
                                assert(crate::path::views_of(target_comps@) =~= tviews.skip(
                                    k + 1,
                                ));
                            }
                            rest.insert(k, c);
                            proof {
                                assert(rest@ =~= prerest.insert(k as int, c));
                                assert forall|j: int|
                                    0 <= j < rest@.len() implies #[trigger] crate::path::views_of(
                                    rest@,
                                )[j] == (tviews.take(k + 1) + restviews)[j] by {
                                    assert(crate::path::views_of(rest@)[j] == rest@[j]@);
                                    if j < k {
                                        assert(rest@[j] == prerest[j]);
                                        assert(crate::path::views_of(prerest)[j] == prerest[j]@);
                                    } else if j == k {
                                        assert(rest@[j] == c);
                                    } else {
                                        assert(rest@[j] == prerest[j - 1]);
                                        assert(crate::path::views_of(prerest)[j - 1] == prerest[j
                                            - 1]@);
                                    }
                                }
                                assert(crate::path::views_of(rest@) =~= tviews.take(k + 1)
                                    + restviews);
                            }
                            k += 1;
                        }
                        comps = rest;
                        proof {
                            assert(tviews.take(tn as int) =~= tviews);
                            assert(crate::path::views_of(comps@) == tviews + restviews);
                        }
                        if target_abs {
                            cur = self.root;
                        }
                    } else {
                        cur = next;
                    }
                }
            }
        }
    }

    /// Resolves a path to a node id.
    ///
    /// The walk starts at the root for an absolute path, at `cwd`
    /// otherwise, and the result is exactly the specification walk:
    /// `ELOOP` past `SYMLOOP_MAX` link traversals, `ENOENT` for a missing
    /// name, `ENOTDIR` for a walk through a non-directory,
    /// `ENAMETOOLONG` past `PATH_MAX`.
    pub fn resolve(&self, path: &[u8], cwd: u32, follow_links: bool) -> (r: Result<u32, Errno>)
        requires
            self.wf(),
        ensures
            r == spec_resolve(self.nodes@, self.root, path@, cwd, follow_links),
            r matches Ok(id) ==> spec_node_idx(self.nodes@, id) is Some,
    {
        if path.len() > PATH_MAX {
            return Err(ENAMETOOLONG);
        }
        let comps = parse_path(path);
        let is_abs = path.len() == 0 || path[0] == 47;
        let start: u32 = if is_abs {
            self.root
        } else {
            cwd
        };
        self.resolve_comps(comps, start, follow_links)
    }
}

/// Whether two byte strings hold the same bytes.
pub fn bytes_same(a: &[u8], b: &[u8]) -> (r: bool)
    ensures
        r == (a@ == b@),
{
    if a.len() != b.len() {
        proof {
            assert(a@.len() != b@.len());
        }
        return false;
    }
    let mut i: usize = 0;
    while i < a.len()
        invariant
            i <= a@.len(),
            a@.len() == b@.len(),
            forall|j: int| 0 <= j < i ==> a@[j] == b@[j],
        decreases a@.len() - i,
    {
        if a[i] != b[i] {
            return false;
        }
        i += 1;
    }
    proof {
        assert(a@ =~= b@);
    }
    true
}

/// The first matching node's index is the lookup's result.
proof fn lemma_node_idx_found(nodes: Seq<FsNode>, id: u32, i: int)
    requires
        0 <= i < nodes.len(),
        nodes[i].id == id,
        forall|j: int| 0 <= j < i ==> (#[trigger] nodes[j]).id != id,
    ensures
        spec_node_idx(nodes, id) == Option::Some(i),
    decreases i,
{
    if i > 0 {
        assert forall|j: int| 0 <= j < i - 1 implies (#[trigger] nodes.skip(1)[j]).id != id by {
            assert(nodes.skip(1)[j] == nodes[j + 1]);
        }
        assert(nodes.skip(1)[i - 1] == nodes[i]);
        lemma_node_idx_found(nodes.skip(1), id, i - 1);
    }
}

/// Without a matching node the lookup yields nothing.
proof fn lemma_node_idx_none(nodes: Seq<FsNode>, id: u32)
    requires
        forall|j: int| 0 <= j < nodes.len() ==> (#[trigger] nodes[j]).id != id,
    ensures
        spec_node_idx(nodes, id) is None,
    decreases nodes.len(),
{
    if nodes.len() > 0 {
        assert forall|j: int|
            0 <= j < nodes.skip(1).len() implies (#[trigger] nodes.skip(1)[j]).id != id by {
            assert(nodes.skip(1)[j] == nodes[j + 1]);
        }
        lemma_node_idx_none(nodes.skip(1), id);
    }
}


/// A file's metadata, as `stat` returns it.
#[derive(Clone, Copy, Debug, PartialEq, Eq, Structural)]
pub struct FileStat {
    /// The node's id.
    pub inode: u32,
    /// The node's type.
    pub file_type: FileType,
    /// The permission bits.
    pub mode: u16,
    /// The owner's user id.
    pub uid: u32,
    /// The owning group's id.
    pub gid: u32,
    /// The number of hard links.
    pub nlink: u32,
    /// The file's size in bytes: content for a regular file, target for a
    /// link.
    pub size: u64,
    /// The device major number.
    pub major: u32,
    /// The device minor number.
    pub minor: u32,
}

/// The entries of a directory as plain values: each name's bytes with its
/// target id.
pub open spec fn entry_views(entries: Seq<(Vec<u8>, u32)>) -> Seq<(Seq<u8>, u32)> {
    entries.map_values(|e: (Vec<u8>, u32)| (e.0@, e.1))
}

/// Whether two nodes agree on everything but their entries and link
/// count.
pub open spec fn node_eq_except_entries_nlink(a: FsNode, b: FsNode) -> bool {
    &&& a.id == b.id
    &&& a.mount == b.mount
    &&& a.file_type == b.file_type
    &&& a.mode == b.mode
    &&& a.uid == b.uid
    &&& a.gid == b.gid
    &&& a.link_target@ == b.link_target@
    &&& a.major == b.major
    &&& a.minor == b.minor
    &&& a.content@ == b.content@
}

/// Whether two nodes agree on everything but their owner and group.
pub open spec fn node_eq_except_owner(a: FsNode, b: FsNode) -> bool {
    &&& a.id == b.id
    &&& a.mount == b.mount
    &&& a.file_type == b.file_type
    &&& a.mode == b.mode
    &&& a.nlink == b.nlink
    &&& entry_views(a.entries@) == entry_views(b.entries@)
    &&& a.link_target@ == b.link_target@
    &&& a.major == b.major
    &&& a.minor == b.minor
    &&& a.content@ == b.content@
}

/// Whether two nodes agree on everything but their permission bits.
pub open spec fn node_eq_except_mode(a: FsNode, b: FsNode) -> bool {
    &&& a.id == b.id
    &&& a.mount == b.mount
    &&& a.file_type == b.file_type
    &&& a.uid == b.uid
    &&& a.gid == b.gid
    &&& a.nlink == b.nlink
    &&& entry_views(a.entries@) == entry_views(b.entries@)
    &&& a.link_target@ == b.link_target@
    &&& a.major == b.major
    &&& a.minor == b.minor
    &&& a.content@ == b.content@
}

/// Whether a fresh node carries the given shape.
pub open spec fn spec_new_node(
    n: FsNode,
    id: u32,
    mount: u32,
    file_type: FileType,
    mode: u16,
    ap: AccessProfile,
    nlink: u32,
    entries: Seq<(Seq<u8>, u32)>,
    link_target: Seq<u8>,
    major: u32,
    minor: u32,
) -> bool {
    &&& n.id == id
    &&& n.mount == mount
    &&& n.file_type == file_type
    &&& n.mode == mode
    &&& n.uid == ap.uid
    &&& n.gid == ap.gid
    &&& n.nlink == nlink
    &&& entry_views(n.entries@) == entries
    &&& n.link_target@ == link_target
    &&& n.major == major
    &&& n.minor == minor
}

/// How a failed creation names its cause: not a directory first, then
/// missing write permission, then a taken name; the three cases are
/// decided in that order, so each error pins its condition.
pub open spec fn spec_create_err(nodes: Seq<FsNode>, pi: int, name: Seq<u8>, ap: AccessProfile, e: Errno) -> bool {
    &&& (e == ENOTDIR <==> nodes[pi].file_type != FileType::Directory)
    &&& (nodes[pi].file_type == FileType::Directory ==> (e == EACCES <==> !spec_can_access(
        nodes[pi],
        ap,
        2,
    )))
    &&& (nodes[pi].file_type == FileType::Directory && spec_can_access(nodes[pi], ap, 2) ==> e
        == EEXIST && spec_entry_lookup(nodes[pi].entries@, name) is Some)
}

/// Whether two node lists agree everywhere but at one index.
pub open spec fn nodes_unchanged_except(a: Seq<FsNode>, b: Seq<FsNode>, i: int) -> bool {
    a.len() == b.len() && forall|k: int| 0 <= k < a.len() && k != i ==> a[k] == b[k]
}

/// Whether two node lists agree everywhere but at two indices.
pub open spec fn nodes_unchanged_except2(a: Seq<FsNode>, b: Seq<FsNode>, i: int, j: int) -> bool {
    a.len() == b.len() && forall|k: int| 0 <= k < a.len() && k != i && k != j ==> a[k] == b[k]
}

/// The index of the first entry bound to `name`, or the list's length
/// when none is.
pub open spec fn spec_entry_index(entries: Seq<(Vec<u8>, u32)>, name: Seq<u8>) -> int
    decreases entries.len(),
{
    if entries.len() == 0 {
        0
    } else if entries[0].0@ == name {
        0
    } else {
        1 + spec_entry_index(entries.skip(1), name)
    }
}

/// The first bound entry is where the index points, and the lookup's
/// result is its target.
pub proof fn lemma_entry_index(entries: Seq<(Vec<u8>, u32)>, name: Seq<u8>)
    ensures
        0 <= spec_entry_index(entries, name) <= entries.len(),
        spec_entry_index(entries, name) < entries.len() ==> entries[spec_entry_index(
            entries,
            name,
        )].0@ == name && spec_entry_lookup(entries, name) == Option::Some(
            entries[spec_entry_index(entries, name)].1,
        ),
        spec_entry_index(entries, name) == entries.len() <==> spec_entry_lookup(
            entries,
            name,
        ) is None,
        forall|j: int| 0 <= j < spec_entry_index(entries, name) ==> (#[trigger] entries[j]).0@ != name,
    decreases entries.len(),
{
    if entries.len() > 0 && entries[0].0@ != name {
        lemma_entry_index(entries.skip(1), name);
        assert forall|j: int|
            0 <= j < spec_entry_index(entries, name) implies (#[trigger] entries[j]).0@ != name by {
            if j > 0 {
                assert(entries.skip(1)[j - 1] == entries[j]);
            }
        }
    }
}

impl Vfs {
    /// Splits a path into its parent's id and the final name, resolving
    /// the parent.
    ///
    /// Fails with `ENAMETOOLONG` past `PATH_MAX`, with the resolution's
    /// error when the parent cannot be reached, and with `EEXIST` when the
    /// path has no final name (it names the root).
    fn resolve_parent(&self, path: &[u8], cwd: u32) -> (r: Result<(usize, Vec<u8>), Errno>)
        requires
            self.wf(),
        ensures
            match r {
                Ok(p) => spec_locate_parent(self.nodes@, self.root, path@, cwd) == Result::<
                    (int, Seq<u8>),
                    Errno,
                >::Ok((p.0 as int, p.1@)) && p.0 < self.nodes@.len(),
                Err(e) => spec_locate_parent(self.nodes@, self.root, path@, cwd) == Result::<
                    (int, Seq<u8>),
                    Errno,
                >::Err(e),
            },
    {
        if path.len() > PATH_MAX {
            return Err(ENAMETOOLONG);
        }
        let mut comps = parse_path(path);
        let ghost views = crate::path::views_of(comps@);
        let last = match comps.pop() {
            Some(c) => c,
            None => {
                return Err(EEXIST);
            }
        };
        proof {
            assert(last@ == views.last());
            assert(crate::path::views_of(comps@) =~= views.drop_last());
        }
        let name: Vec<u8> = match last {
            Component::RootDir => {
                return Err(EEXIST);
            }
            Component::CurDir => {
                let mut v: Vec<u8> = Vec::new();
                v.push(46);
                proof {
                    assert(v@ =~= crate::path::comp_bytes(views.last()));
                }
                v
            }
            Component::ParentDir => {
                let mut v: Vec<u8> = Vec::new();
                v.push(46);
                v.push(46);
                proof {
                    assert(v@ =~= crate::path::comp_bytes(views.last()));
                }
                v
            }
            Component::Normal(n) => n,
        };
        let is_abs = path.len() == 0 || path[0] == 47;
        let start: u32 = if is_abs {
            self.root
        } else {
            cwd
        };
        let parent_id = match self.resolve_comps(comps, start, true) {
            Ok(id) => id,
            Err(e) => {
                return Err(e);
            }
        };
        let idx = match self.node_idx(parent_id) {
            Some(i) => i,
            None => {
                return Err(ENOENT);
            }
        };
        Ok((idx, name))
    }

    /// Creates a node under the resolved parent, binding `name` to it.
    ///
    /// The parent must be a writable directory and the name free; the new
    /// node's id is fresh.
    fn create_node(
        &mut self,
        pidx: usize,
        name: Vec<u8>,
        ap: &AccessProfile,
        node_template: FsNode,
    ) -> (r: Result<u32, Errno>)
        requires
            old(self).wf(),
            pidx < old(self).nodes@.len(),
            old(self).next_id < u32::MAX,
        ensures
            final(self).wf(),
            match r {
                Ok(id) => {
                    &&& old(self).nodes@[pidx as int].file_type == FileType::Directory
                    &&& spec_can_access(old(self).nodes@[pidx as int], *ap, 2)
                    &&& spec_entry_lookup(old(self).nodes@[pidx as int].entries@, name@) is None
                    &&& id == old(self).next_id
                    &&& final(self).next_id == old(self).next_id + 1
                    &&& final(self).root == old(self).root
                    &&& final(self).nodes@.len() == old(self).nodes@.len() + 1
                    &&& forall|k: int|
                        0 <= k < old(self).nodes@.len() && k != pidx ==> final(self).nodes@[k]
                            == old(self).nodes@[k]
                    &&& node_eq_except_entries_nlink(
                        final(self).nodes@[pidx as int],
                        old(self).nodes@[pidx as int],
                    )
                    &&& final(self).nodes@[pidx as int].nlink == old(self).nodes@[pidx as int].nlink
                    &&& entry_views(final(self).nodes@[pidx as int].entries@) == entry_views(
                        old(self).nodes@[pidx as int].entries@,
                    ).push((name@, id))
                    &&& ({
                        let n = final(self).nodes@.last();
                        &&& n.id == id
                        &&& n.mount == node_template.mount
                        &&& n.file_type == node_template.file_type
                        &&& n.mode == node_template.mode
                        &&& n.uid == node_template.uid
                        &&& n.gid == node_template.gid
                        &&& n.nlink == node_template.nlink
                        &&& entry_views(n.entries@) == entry_views(node_template.entries@)
                        &&& n.link_target@ == node_template.link_target@
                        &&& n.major == node_template.major
                        &&& n.minor == node_template.minor
                    })
                },
                Err(e) => {
                    &&& *final(self) == *old(self)
                    &&& spec_create_err(old(self).nodes@, pidx as int, name@, *ap, e)
                },
            },
    {
        if !matches!(self.nodes[pidx].file_type, FileType::Directory) {
            return Err(ENOTDIR);
        }
        if !self.can_access(pidx, ap, 2) {
            return Err(EACCES);
        }
        if self.dir_lookup(pidx, name.as_slice()).is_some() {
            return Err(EEXIST);
        }
        let id = self.next_id;
        self.next_id = self.next_id + 1;
        let node = FsNode { id, ..node_template };
        self.nodes.push(node);
        let ghost gname = name@;
        let mut parent = self.nodes.remove(pidx);
        let ghost prev_entries = parent.entries@;
        parent.entries.push((name, id));
        self.nodes.insert(pidx, parent);
        proof {
            lemma_wf_after_insert(old(self).nodes@, self.nodes@, pidx as int, id, old(self).next_id);
            assert(spec_node_idx(self.nodes@, self.root) is Some) by {
                let pre = self.nodes@.take(old(self).nodes@.len() as int);
                assert forall|k: int|
                    0 <= k < old(self).nodes@.len() implies (#[trigger] pre[k]).id == old(self).nodes@[k].id by {
                    assert(pre[k] == self.nodes@[k]);
                }
                lemma_same_id_found(old(self).nodes@, pre, self.root);
                lemma_found_in_extension(pre, self.nodes@[self.nodes@.len() - 1], self.root);
                assert(pre.push(self.nodes@[self.nodes@.len() - 1]) =~= self.nodes@);
            }
            assert(entry_views(self.nodes@[pidx as int].entries@) =~= entry_views(
                old(self).nodes@[pidx as int].entries@,
            ).push((gname, id)));
            assert(entry_views(self.nodes@.last().entries@) =~= entry_views(
                node_template.entries@,
            ));
        }
        Ok(id)
    }

    /// Creates a directory at `path` with mode `mode & !umask`, its two
    /// standard entries included; the parent gains one link from the new
    /// directory's parent entry.
    ///
    /// Succeeds exactly when the parent resolves to a writable directory
    /// and the final name is free there; the tree is unchanged on every
    /// failure, with `EEXIST` for a taken name, `EACCES` for a read-only
    /// parent, `ENOTDIR` for a non-directory parent, and the resolution's
    /// own error otherwise.
    pub fn mkdir(
        &mut self,
        path: &[u8],
        mode: u16,
        umask: u16,
        ap: &AccessProfile,
        cwd: u32,
    ) -> (r: Result<u32, Errno>)
        requires
            old(self).wf(),
            old(self).next_id < u32::MAX,
        ensures
            final(self).wf(),
            r is Err ==> *final(self) == *old(self),
            ({
                let loc = spec_locate_parent(old(self).nodes@, old(self).root, path@, cwd);
                match r {
                    Err(e) => match loc {
                        Result::Err(le) => e == le,
                        Result::Ok(p) => spec_create_err(old(self).nodes@, p.0, p.1, *ap, e),
                    },
                    Ok(id) => match loc {
                        Result::Err(_) => false,
                        Result::Ok(p) => {
                            let pi = p.0;
                            let name = p.1;
                            &&& old(self).nodes@[pi].file_type == FileType::Directory
                            &&& spec_can_access(old(self).nodes@[pi], *ap, 2)
                            &&& spec_entry_lookup(old(self).nodes@[pi].entries@, name) is None
                            &&& id == old(self).next_id
                            &&& final(self).next_id == old(self).next_id + 1
                            &&& final(self).nodes@.len() == old(self).nodes@.len() + 1
                            &&& forall|k: int|
                                0 <= k < old(self).nodes@.len() && k != pi ==> final(self).nodes@[k] == old(self).nodes@[k]
                            &&& node_eq_except_entries_nlink(
                                final(self).nodes@[pi],
                                old(self).nodes@[pi],
                            )
                            &&& entry_views(final(self).nodes@[pi].entries@) == entry_views(
                                old(self).nodes@[pi].entries@,
                            ).push((name, id))
                            &&& final(self).nodes@[pi].nlink == (
                            if old(self).nodes@[pi].nlink < u32::MAX {
                                (old(self).nodes@[pi].nlink + 1) as u32
                            } else {
                                old(self).nodes@[pi].nlink
                            })
                            &&& spec_new_node(
                                final(self).nodes@.last(),
                                id,
                                old(self).nodes@[pi].mount,
                                FileType::Directory,
                                mode & !umask & 0xfff,
                                *ap,
                                2,
                                seq![
                                    (crate::path::spec_dot(), id),
                                    (crate::path::spec_dotdot(), old(self).nodes@[pi].id),
                                ],
                                Seq::empty(),
                                0,
                                0,
                            )
                        },
                    },
                }
            }),
    {
        let (pidx, name) = match self.resolve_parent(path, cwd) {
            Ok(x) => x,
            Err(e) => {
                return Err(e);
            }
        };
        let parent_id = self.nodes[pidx].id;
        let new_id = self.next_id;
        let mut entries: Vec<(Vec<u8>, u32)> = Vec::new();
        let mut dot: Vec<u8> = Vec::new();
        dot.push(46);
        entries.push((dot, new_id));
        let mut dotdot: Vec<u8> = Vec::new();
        dotdot.push(46);
        dotdot.push(46);
        entries.push((dotdot, parent_id));
        proof {
            assert(dot@ =~= crate::path::spec_dot());
            assert(dotdot@ =~= crate::path::spec_dotdot());
            assert(entry_views(entries@) =~~= seq![
                (crate::path::spec_dot(), new_id),
                (crate::path::spec_dotdot(), parent_id),
            ]);
        }
        let template = FsNode {
            id: 0,
            mount: self.nodes[pidx].mount,
            file_type: FileType::Directory,
            mode: mode & !umask & 0xfff,
            uid: ap.uid,
            gid: ap.gid,
            nlink: 2,
            entries,
            link_target: Vec::new(),
            major: 0,
            minor: 0,
            content: Vec::new(),
        };
        let id = self.create_node(pidx, name, ap, template)?;
        // the new directory's parent entry links the parent once more
        let ghost before = self.nodes@;
        let mut parent = self.nodes.remove(pidx);
        if parent.nlink < u32::MAX {
            parent.nlink = parent.nlink + 1;
        }
        self.nodes.insert(pidx, parent);
        proof {
            assert(self.nodes@ =~= before.update(pidx as int, self.nodes@[pidx as int]));
            lemma_wf_same_ids(before, self.nodes@, self.next_id as int);
            lemma_same_id_found(before, self.nodes@, self.root);
            assert(self.nodes@.last() == before.last());
        }
        Ok(id)
    }
}

/// A list whose nodes keep their ids keeps its id-indexed shape.
proof fn lemma_wf_same_ids(before: Seq<FsNode>, after: Seq<FsNode>, bound: int)
    requires
        before.len() == after.len(),
        forall|k: int| 0 <= k < before.len() ==> (#[trigger] after[k]).id == before[k].id,
        forall|i: int, j: int|
            0 <= i < j < before.len() ==> (#[trigger] before[i]).id != (#[trigger] before[j]).id,
        forall|i: int| 0 <= i < before.len() ==> (#[trigger] before[i]).id < bound,
    ensures
        forall|i: int, j: int|
            0 <= i < j < after.len() ==> (#[trigger] after[i]).id != (#[trigger] after[j]).id,
        forall|i: int| 0 <= i < after.len() ==> (#[trigger] after[i]).id < bound,
{
}

/// A node with the looked-up id stays findable when ids are unchanged.
proof fn lemma_same_id_found(before: Seq<FsNode>, after: Seq<FsNode>, id: u32)
    requires
        before.len() == after.len(),
        forall|k: int| 0 <= k < before.len() ==> (#[trigger] after[k]).id == before[k].id,
        spec_node_idx(before, id) is Some,
    ensures
        spec_node_idx(after, id) is Some,
    decreases before.len(),
{
    if before.len() > 0 {
        if before[0].id == id {
        } else {
            assert forall|k: int|
                0 <= k < before.skip(1).len() implies (#[trigger] after.skip(1)[k]).id
                == before.skip(1)[k].id by {
                assert(after.skip(1)[k] == after[k + 1]);
                assert(before.skip(1)[k] == before[k + 1]);
            }
            lemma_same_id_found(before.skip(1), after.skip(1), id);
        }
    }
}

/// Pushing a fresh node and rebinding one directory keeps the namespace
/// sound: the ids stay unique and below the next id.
proof fn lemma_wf_after_insert(
    before: Seq<FsNode>,
    after: Seq<FsNode>,
    pidx: int,
    newid: u32,
    oldnext: u32,
)
    requires
        0 <= pidx < before.len(),
        after.len() == before.len() + 1,
        forall|k: int| 0 <= k < before.len() ==> (#[trigger] after[k]).id == before[k].id,
        after[after.len() - 1].id == newid,
        newid == oldnext,
        forall|i: int, j: int|
            0 <= i < j < before.len() ==> (#[trigger] before[i]).id != (#[trigger] before[j]).id,
        forall|i: int| 0 <= i < before.len() ==> (#[trigger] before[i]).id < oldnext,
    ensures
        forall|i: int, j: int|
            0 <= i < j < after.len() ==> (#[trigger] after[i]).id != (#[trigger] after[j]).id,
        forall|i: int| 0 <= i < after.len() ==> (#[trigger] after[i]).id < oldnext + 1,
{
    assert forall|i: int, j: int|
        0 <= i < j < after.len() implies (#[trigger] after[i]).id != (#[trigger] after[j]).id by {
        if j < after.len() - 1 {
        } else {
            assert(after[i].id == before[i].id);
            assert(before[i].id < oldnext);
        }
    }
}


/// A found id stays found when a node is appended.
proof fn lemma_found_in_extension(nodes: Seq<FsNode>, extra: FsNode, id: u32)
    requires
        spec_node_idx(nodes, id) is Some,
    ensures
        spec_node_idx(nodes.push(extra), id) is Some,
    decreases nodes.len(),
{
    if nodes.len() > 0 {
        if nodes[0].id == id {
            assert(nodes.push(extra)[0] == nodes[0]);
        } else {
            lemma_found_in_extension(nodes.skip(1), extra, id);
            assert(nodes.push(extra).skip(1) =~= nodes.skip(1).push(extra));
        }
    }
}


impl Vfs {
    /// Removes the directory at `path` and frees its record.
    ///
    /// Succeeds exactly when the parent resolves to a writable directory
    /// holding the name, the named node is a directory with no entry
    /// beyond the two standard ones, and it is neither the root nor the
    /// parent itself. The parent loses the entry and the link the removed
    /// directory's parent entry held on it; the record is gone afterwards.
    /// The tree is unchanged on every failure.
    #[verifier::rlimit(100)]
    pub fn rmdir(&mut self, path: &[u8], ap: &AccessProfile, cwd: u32) -> (r: Result<(), Errno>)
        requires
            old(self).wf(),
        ensures
            final(self).wf(),
            r is Err ==> *final(self) == *old(self),
            ({
                let loc = spec_locate_parent(old(self).nodes@, old(self).root, path@, cwd);
                match r {
                    Err(e) => match loc {
                        Result::Err(le) => e == le,
                        Result::Ok(p) => ({
                            let pi = p.0;
                            let name = p.1;
                            let pn = old(self).nodes@[pi];
                            if pn.file_type != FileType::Directory {
                                e == ENOTDIR
                            } else {
                                match spec_entry_lookup(pn.entries@, name) {
                                    Option::None => e == ENOENT,
                                    Option::Some(tid) => match spec_node_idx(
                                        old(self).nodes@,
                                        tid,
                                    ) {
                                        Option::None => e == ENOENT,
                                        Option::Some(ti) => if tid == old(self).root {
                                            e == EBUSY
                                        } else if ti == pi {
                                            e == EINVAL
                                        } else if old(self).nodes@[ti].file_type
                                            != FileType::Directory {
                                            e == ENOTDIR
                                        } else if old(self).nodes@[ti].entries@.len() > 2 {
                                            e == ENOTEMPTY
                                        } else {
                                            e == EACCES && !spec_can_access(pn, *ap, 2)
                                        },
                                    },
                                }
                            }
                        }),
                    },
                    Ok(()) => match loc {
                        Result::Err(_) => false,
                        Result::Ok(p) => ({
                            let pi = p.0;
                            let name = p.1;
                            let pn = old(self).nodes@[pi];
                            match spec_entry_lookup(pn.entries@, name) {
                                Option::None => false,
                                Option::Some(tid) => match spec_node_idx(old(self).nodes@, tid) {
                                    Option::None => false,
                                    Option::Some(ti) => {
                                        let pj = if pi < ti {
                                            pi
                                        } else {
                                            pi - 1
                                        };
                                        &&& pn.file_type == FileType::Directory
                                        &&& old(self).nodes@[ti].file_type == FileType::Directory
                                        &&& old(self).nodes@[ti].entries@.len() <= 2
                                        &&& spec_can_access(pn, *ap, 2)
                                        &&& tid != old(self).root
                                        &&& ti != pi
                                        &&& final(self).nodes@.len() == old(self).nodes@.len() - 1
                                        &&& final(self).root == old(self).root
                                        &&& final(self).next_id == old(self).next_id
                                        // the record is freed
                                        &&& spec_node_idx(final(self).nodes@, tid) is None
                                        // every other node is kept in place
                                        &&& forall|j: int|
                                            0 <= j < old(self).nodes@.len() && j != pi && j != ti
                                                ==> final(self).nodes@[if j < ti {
                                                j
                                            } else {
                                                j - 1
                                            }] == old(self).nodes@[j]
                                        // the parent lost the entry and one link
                                        &&& node_eq_except_entries_nlink(
                                            final(self).nodes@[pj],
                                            pn,
                                        )
                                        &&& entry_views(final(self).nodes@[pj].entries@)
                                            == entry_views(pn.entries@).remove(
                                            spec_entry_index(pn.entries@, name),
                                        )
                                        &&& final(self).nodes@[pj].nlink == (if pn.nlink > 0 {
                                            (pn.nlink - 1) as u32
                                        } else {
                                            0u32
                                        })
                                    },
                                },
                            }
                        }),
                    },
                }
            }),
    {
        let (pidx, name) = match self.resolve_parent(path, cwd) {
            Ok(x) => x,
            Err(e) => {
                return Err(e);
            }
        };
        if !matches!(self.nodes[pidx].file_type, FileType::Directory) {
            return Err(ENOTDIR);
        }
        let target_id = match self.dir_lookup(pidx, name.as_slice()) {
            Some(id) => id,
            None => {
                return Err(ENOENT);
            }
        };
        let tidx = match self.node_idx(target_id) {
            Some(i) => i,
            None => {
                return Err(ENOENT);
            }
        };
        if target_id == self.root {
            return Err(EBUSY);
        }
        if tidx == pidx {
            return Err(EINVAL);
        }
        if !matches!(self.nodes[tidx].file_type, FileType::Directory) {
            return Err(ENOTDIR);
        }
        if self.nodes[tidx].entries.len() > 2 {
            return Err(ENOTEMPTY);
        }
        if !self.can_access(pidx, ap, 2) {
            return Err(EACCES);
        }
        let ghost before = self.nodes@;
        let mut parent = self.nodes.remove(pidx);
        let ghost pentries = parent.entries@;
        remove_entry(&mut parent.entries, name.as_slice());
        if parent.nlink > 0 {
            parent.nlink = parent.nlink - 1;
        }
        self.nodes.insert(pidx, parent);
        proof {
            assert(self.nodes@ =~= before.update(pidx as int, self.nodes@[pidx as int]));
            lemma_wf_same_ids(before, self.nodes@, self.next_id as int);
            lemma_same_id_found(before, self.nodes@, self.root);
            lemma_entry_index(pentries, name@);
        }
        // the directory's record is freed: its two standard entries die
        // with it
        let ghost mid = self.nodes@;
        self.nodes.remove(tidx);
        proof {
            assert(self.nodes@ =~= mid.remove(tidx as int));
            lemma_wf_after_remove(mid, self.nodes@, tidx as int, self.next_id as int);
            assert(spec_node_idx(self.nodes@, self.root) is Some) by {
                lemma_found_not_at(mid, self.nodes@, tidx as int, self.root);
            }
            lemma_removed_id_gone(mid, self.nodes@, tidx as int);
        }
        Ok(())
    }

    /// Copies up to `bufsiz` bytes of the resolved symbolic link's
    /// target, without a trailing terminator, and returns them.
    ///
    /// Succeeds exactly when the path resolves (links along the way
    /// followed, the final one not) to a symbolic link; a resolved
    /// non-link fails with `EINVAL`, and a failed resolution with its own
    /// error.
    pub fn readlink(&self, path: &[u8], bufsiz: usize, cwd: u32) -> (r: Result<Vec<u8>, Errno>)
        requires
            self.wf(),
        ensures
            ({
                let res = spec_resolve(self.nodes@, self.root, path@, cwd, false);
                match r {
                    Ok(v) => match res {
                        Result::Ok(id) => match spec_node_idx(self.nodes@, id) {
                            Option::None => false,
                            Option::Some(i) => {
                                let target = self.nodes@[i].link_target@;
                                &&& self.nodes@[i].file_type == FileType::Link
                                &&& v@ == target.take(
                                    if bufsiz < target.len() {
                                        bufsiz as int
                                    } else {
                                        target.len() as int
                                    },
                                )
                            },
                        },
                        Result::Err(_) => false,
                    },
                    Err(e) => match res {
                        Result::Ok(id) => match spec_node_idx(self.nodes@, id) {
                            Option::None => false,
                            Option::Some(i) => e == EINVAL && self.nodes@[i].file_type
                                != FileType::Link,
                        },
                        Result::Err(re) => e == re,
                    },
                }
            }),
    {
        let id = self.resolve(path, cwd, false)?;
        let idx = match self.node_idx(id) {
            Some(i) => i,
            None => {
                return Err(ENOENT);
            }
        };
        if !matches!(self.nodes[idx].file_type, FileType::Link) {
            return Err(EINVAL);
        }
        let target = &self.nodes[idx].link_target;
        let n = if bufsiz < target.len() {
            bufsiz
        } else {
            target.len()
        };
        let mut out: Vec<u8> = Vec::new();
        let mut i: usize = 0;
        while i < n
            invariant
                i <= n,
                idx < self.nodes@.len(),
                n <= self.nodes@[idx as int].link_target@.len(),
                out@ == self.nodes@[idx as int].link_target@.take(i as int),
            decreases n - i,
        {
            out.push(self.nodes[idx].link_target[i]);
            proof {
                assert(out@ =~= self.nodes@[idx as int].link_target@.take(i + 1));
            }
            i += 1;
        }
        Ok(out)
    }

    /// Changes the owner and group of the file at `path`; minus one
    /// leaves the respective field alone.
    ///
    /// Out-of-range ids fail with `EINVAL`. Changing the owner requires
    /// privilege, even to the same owner: an unprivileged caller fails
    /// with `EPERM` once the file resolves. Nothing changes on failure.
    pub fn chown(&mut self, path: &[u8], owner: i64, group: i64, ap: &AccessProfile, cwd: u32) -> (r:
        Result<(), Errno>)
        requires
            old(self).wf(),
        ensures
            final(self).wf(),
            r is Err ==> *final(self) == *old(self),
            ({
                let res = spec_resolve(old(self).nodes@, old(self).root, path@, cwd, true);
                let bad = owner < -1 || group < -1 || owner > u32::MAX || group > u32::MAX;
                match r {
                    Err(e) => if bad {
                        e == EINVAL
                    } else {
                        match res {
                            Result::Err(re) => e == re,
                            Result::Ok(_) => e == EPERM && !ap.privileged,
                        }
                    },
                    Ok(()) => !bad && ap.privileged && match res {
                        Result::Err(_) => false,
                        Result::Ok(id) => match spec_node_idx(old(self).nodes@, id) {
                            Option::None => false,
                            Option::Some(i) => {
                                &&& nodes_unchanged_except(
                                    final(self).nodes@,
                                    old(self).nodes@,
                                    i,
                                )
                                &&& node_eq_except_owner(
                                    final(self).nodes@[i],
                                    old(self).nodes@[i],
                                )
                                &&& final(self).nodes@[i].uid == (if owner == -1 {
                                    old(self).nodes@[i].uid
                                } else {
                                    owner as u32
                                })
                                &&& final(self).nodes@[i].gid == (if group == -1 {
                                    old(self).nodes@[i].gid
                                } else {
                                    group as u32
                                })
                            },
                        },
                    },
                }
            }),
    {
        if owner < -1 || group < -1 || owner > u32::MAX as i64 || group > u32::MAX as i64 {
            return Err(EINVAL);
        }
        let id = self.resolve(path, cwd, true)?;
        let idx = match self.node_idx(id) {
            Some(i) => i,
            None => {
                return Err(ENOENT);
            }
        };
        if !ap.privileged {
            return Err(EPERM);
        }
        let ghost before = self.nodes@;
        let mut node = self.nodes.remove(idx);
        if owner != -1 {
            node.uid = owner as u32;
        }
        if group != -1 {
            node.gid = group as u32;
        }
        self.nodes.insert(idx, node);
        proof {
            assert(self.nodes@ =~= before.update(idx as int, self.nodes@[idx as int]));
            lemma_wf_same_ids(before, self.nodes@, self.next_id as int);
            lemma_same_id_found(before, self.nodes@, self.root);
        }
        Ok(())
    }

    /// Changes the permission bits of the file at `path`, masked to
    /// twelve bits.
    ///
    /// Succeeds exactly when the path resolves and the caller owns the
    /// file or is privileged; anyone else fails with `EPERM`. Nothing
    /// changes on failure.
    pub fn chmod(&mut self, path: &[u8], mode: u16, ap: &AccessProfile, cwd: u32) -> (r: Result<
        (),
        Errno,
    >)
        requires
            old(self).wf(),
        ensures
            final(self).wf(),
            r is Err ==> *final(self) == *old(self),
            ({
                let res = spec_resolve(old(self).nodes@, old(self).root, path@, cwd, true);
                match r {
                    Err(e) => match res {
                        Result::Err(re) => e == re,
                        Result::Ok(id) => match spec_node_idx(old(self).nodes@, id) {
                            Option::None => false,
                            Option::Some(i) => e == EPERM && !ap.privileged && ap.uid != old(self).nodes@[i].uid,
                        },
                    },
                    Ok(()) => match res {
                        Result::Err(_) => false,
                        Result::Ok(id) => match spec_node_idx(old(self).nodes@, id) {
                            Option::None => false,
                            Option::Some(i) => {
                                &&& (ap.privileged || ap.uid == old(self).nodes@[i].uid)
                                &&& nodes_unchanged_except(
                                    final(self).nodes@,
                                    old(self).nodes@,
                                    i,
                                )
                                &&& node_eq_except_mode(final(self).nodes@[i], old(self).nodes@[i])
                                &&& final(self).nodes@[i].mode == mode & 0xfff
                            },
                        },
                    },
                }
            }),
    {
        let id = self.resolve(path, cwd, true)?;
        let idx = match self.node_idx(id) {
            Some(i) => i,
            None => {
                return Err(ENOENT);
            }
        };
        if !ap.privileged && ap.uid != self.nodes[idx].uid {
            return Err(EPERM);
        }
        let ghost before = self.nodes@;
        let mut node = self.nodes.remove(idx);
        node.mode = mode & 0xfff;
        self.nodes.insert(idx, node);
        proof {
            assert(self.nodes@ =~= before.update(idx as int, self.nodes@[idx as int]));
            lemma_wf_same_ids(before, self.nodes@, self.next_id as int);
            lemma_same_id_found(before, self.nodes@, self.root);
        }
        Ok(())
    }

    /// Creates a symbolic link at `path` carrying the given target bytes.
    ///
    /// A target longer than `SYMLINK_MAX` fails with `ENAMETOOLONG`;
    /// otherwise the call succeeds exactly when the parent resolves to a
    /// writable directory with the name free, and the fresh node carries
    /// the target. Nothing changes on failure.
    pub fn symlink(&mut self, target: &[u8], path: &[u8], ap: &AccessProfile, cwd: u32) -> (r:
        Result<u32, Errno>)
        requires
            old(self).wf(),
            old(self).next_id < u32::MAX,
        ensures
            final(self).wf(),
            r is Err ==> *final(self) == *old(self),
            ({
                let loc = spec_locate_parent(old(self).nodes@, old(self).root, path@, cwd);
                match r {
                    Err(e) => if target@.len() > SYMLINK_MAX {
                        e == ENAMETOOLONG
                    } else {
                        match loc {
                            Result::Err(le) => e == le,
                            Result::Ok(p) => spec_create_err(old(self).nodes@, p.0, p.1, *ap, e),
                        }
                    },
                    Ok(id) => target@.len() <= SYMLINK_MAX && match loc {
                        Result::Err(_) => false,
                        Result::Ok(p) => {
                            let pi = p.0;
                            let name = p.1;
                            &&& old(self).nodes@[pi].file_type == FileType::Directory
                            &&& spec_can_access(old(self).nodes@[pi], *ap, 2)
                            &&& spec_entry_lookup(old(self).nodes@[pi].entries@, name) is None
                            &&& id == old(self).next_id
                            &&& final(self).next_id == old(self).next_id + 1
                            &&& final(self).nodes@.len() == old(self).nodes@.len() + 1
                            &&& forall|k: int|
                                0 <= k < old(self).nodes@.len() && k != pi ==> final(self).nodes@[k] == old(self).nodes@[k]
                            &&& node_eq_except_entries_nlink(
                                final(self).nodes@[pi],
                                old(self).nodes@[pi],
                            )
                            &&& final(self).nodes@[pi].nlink == old(self).nodes@[pi].nlink
                            &&& entry_views(final(self).nodes@[pi].entries@) == entry_views(
                                old(self).nodes@[pi].entries@,
                            ).push((name, id))
                            &&& spec_new_node(
                                final(self).nodes@.last(),
                                id,
                                old(self).nodes@[pi].mount,
                                FileType::Link,
                                0o777,
                                *ap,
                                1,
                                Seq::empty(),
                                target@,
                                0,
                                0,
                            )
                        },
                    },
                }
            }),
    {
        if target.len() > SYMLINK_MAX {
            return Err(ENAMETOOLONG);
        }
        let (pidx, name) = match self.resolve_parent(path, cwd) {
            Ok(x) => x,
            Err(e) => {
                return Err(e);
            }
        };
        let mut tv: Vec<u8> = Vec::new();
        let mut i: usize = 0;
        while i < target.len()
            invariant
                i <= target@.len(),
                tv@ == target@.take(i as int),
            decreases target@.len() - i,
        {
            tv.push(target[i]);
            proof {
                assert(tv@ =~= target@.take(i + 1));
            }
            i += 1;
        }
        proof {
            assert(target@.take(target@.len() as int) =~= target@);
            assert(entry_views(Seq::<(Vec<u8>, u32)>::empty()) =~= Seq::<(Seq<u8>, u32)>::empty());
        }
        let template = FsNode {
            id: 0,
            mount: self.nodes[pidx].mount,
            file_type: FileType::Link,
            mode: 0o777,
            uid: ap.uid,
            gid: ap.gid,
            nlink: 1,
            entries: Vec::new(),
            link_target: tv,
            major: 0,
            minor: 0,
            content: Vec::new(),
        };
        self.create_node(pidx, name, ap, template)
    }

    /// Creates a regular file at `path` with mode `mode & !umask`.
    ///
    /// Succeeds exactly when the parent resolves to a writable directory
    /// with the name free; the fresh node is an empty regular file owned
    /// by the caller. Nothing changes on failure.
    pub fn create(&mut self, path: &[u8], mode: u16, umask: u16, ap: &AccessProfile, cwd: u32) -> (r:
        Result<u32, Errno>)
        requires
            old(self).wf(),
            old(self).next_id < u32::MAX,
        ensures
            final(self).wf(),
            r is Err ==> *final(self) == *old(self),
            ({
                let loc = spec_locate_parent(old(self).nodes@, old(self).root, path@, cwd);
                match r {
                    Err(e) => match loc {
                        Result::Err(le) => e == le,
                        Result::Ok(p) => spec_create_err(old(self).nodes@, p.0, p.1, *ap, e),
                    },
                    Ok(id) => match loc {
                        Result::Err(_) => false,
                        Result::Ok(p) => {
                            let pi = p.0;
                            let name = p.1;
                            &&& old(self).nodes@[pi].file_type == FileType::Directory
                            &&& spec_can_access(old(self).nodes@[pi], *ap, 2)
                            &&& spec_entry_lookup(old(self).nodes@[pi].entries@, name) is None
                            &&& id == old(self).next_id
                            &&& final(self).next_id == old(self).next_id + 1
                            &&& final(self).nodes@.len() == old(self).nodes@.len() + 1
                            &&& forall|k: int|
                                0 <= k < old(self).nodes@.len() && k != pi ==> final(self).nodes@[k] == old(self).nodes@[k]
                            &&& node_eq_except_entries_nlink(
                                final(self).nodes@[pi],
                                old(self).nodes@[pi],
                            )
                            &&& final(self).nodes@[pi].nlink == old(self).nodes@[pi].nlink
                            &&& entry_views(final(self).nodes@[pi].entries@) == entry_views(
                                old(self).nodes@[pi].entries@,
                            ).push((name, id))
                            &&& spec_new_node(
                                final(self).nodes@.last(),
                                id,
                                old(self).nodes@[pi].mount,
                                FileType::Regular,
                                mode & !umask & 0xfff,
                                *ap,
                                1,
                                Seq::empty(),
                                Seq::empty(),
                                0,
                                0,
                            )
                        },
                    },
                }
            }),
    {
        let (pidx, name) = match self.resolve_parent(path, cwd) {
            Ok(x) => x,
            Err(e) => {
                return Err(e);
            }
        };
        proof {
            assert(entry_views(Seq::<(Vec<u8>, u32)>::empty()) =~= Seq::<(Seq<u8>, u32)>::empty());
        }
        let template = FsNode {
            id: 0,
            mount: self.nodes[pidx].mount,
            file_type: FileType::Regular,
            mode: mode & !umask & 0xfff,
            uid: ap.uid,
            gid: ap.gid,
            nlink: 1,
            entries: Vec::new(),
            link_target: Vec::new(),
            major: 0,
            minor: 0,
            content: Vec::new(),
        };
        self.create_node(pidx, name, ap, template)
    }

    /// Creates a device or special file at `path`.
    ///
    /// The device number splits classically: the major is the high byte,
    /// the minor the low one. A directory or link type fails with
    /// `EPERM`, as does an unprivileged caller creating a device file;
    /// otherwise the call succeeds exactly when the parent resolves to a
    /// writable directory with the name free. Nothing changes on failure.
    pub fn mknod(
        &mut self,
        path: &[u8],
        file_type: FileType,
        mode: u16,
        umask: u16,
        dev: u64,
        ap: &AccessProfile,
        cwd: u32,
    ) -> (r: Result<u32, Errno>)
        requires
            old(self).wf(),
            old(self).next_id < u32::MAX,
        ensures
            final(self).wf(),
            r is Err ==> *final(self) == *old(self),
            ({
                let loc = spec_locate_parent(old(self).nodes@, old(self).root, path@, cwd);
                let forbidden = file_type == FileType::Directory || file_type == FileType::Link;
                let is_dev = file_type == FileType::BlockDevice || file_type
                    == FileType::CharDevice;
                match r {
                    Err(e) => if forbidden || (is_dev && !ap.privileged) {
                        e == EPERM
                    } else {
                        match loc {
                            Result::Err(le) => e == le,
                            Result::Ok(p) => spec_create_err(old(self).nodes@, p.0, p.1, *ap, e),
                        }
                    },
                    Ok(id) => !forbidden && (is_dev ==> ap.privileged) && match loc {
                        Result::Err(_) => false,
                        Result::Ok(p) => {
                            let pi = p.0;
                            let name = p.1;
                            &&& old(self).nodes@[pi].file_type == FileType::Directory
                            &&& spec_can_access(old(self).nodes@[pi], *ap, 2)
                            &&& spec_entry_lookup(old(self).nodes@[pi].entries@, name) is None
                            &&& id == old(self).next_id
                            &&& final(self).next_id == old(self).next_id + 1
                            &&& final(self).nodes@.len() == old(self).nodes@.len() + 1
                            &&& forall|k: int|
                                0 <= k < old(self).nodes@.len() && k != pi ==> final(self).nodes@[k] == old(self).nodes@[k]
                            &&& node_eq_except_entries_nlink(
                                final(self).nodes@[pi],
                                old(self).nodes@[pi],
                            )
                            &&& final(self).nodes@[pi].nlink == old(self).nodes@[pi].nlink
                            &&& entry_views(final(self).nodes@[pi].entries@) == entry_views(
                                old(self).nodes@[pi].entries@,
                            ).push((name, id))
                            &&& spec_new_node(
                                final(self).nodes@.last(),
                                id,
                                old(self).nodes@[pi].mount,
                                file_type,
                                mode & !umask & 0xfff,
                                *ap,
                                1,
                                Seq::empty(),
                                Seq::empty(),
                                ((dev / 0x100) % 0x100000000) as u32,
                                (dev % 0x100) as u32,
                            )
                        },
                    },
                }
            }),
    {
        if matches!(file_type, FileType::Directory) || matches!(file_type, FileType::Link) {
            return Err(EPERM);
        }
        let is_dev = matches!(file_type, FileType::BlockDevice) || matches!(
            file_type,
            FileType::CharDevice,
        );
        if is_dev && !ap.privileged {
            return Err(EPERM);
        }
        let (pidx, name) = match self.resolve_parent(path, cwd) {
            Ok(x) => x,
            Err(e) => {
                return Err(e);
            }
        };
        let major = ((dev / 0x100) % 0x100000000) as u32;
        let minor = (dev % 0x100) as u32;
        proof {
            assert(entry_views(Seq::<(Vec<u8>, u32)>::empty()) =~= Seq::<(Seq<u8>, u32)>::empty());
        }
        let template = FsNode {
            id: 0,
            mount: self.nodes[pidx].mount,
            file_type,
            mode: mode & !umask & 0xfff,
            uid: ap.uid,
            gid: ap.gid,
            nlink: 1,
            entries: Vec::new(),
            link_target: Vec::new(),
            major,
            minor,
            content: Vec::new(),
        };
        self.create_node(pidx, name, ap, template)
    }

    /// Adds a hard link at `new_path` to the file at `old_path`.
    ///
    /// Succeeds exactly when the old path resolves to a non-directory on
    /// the same mountpoint as the new path's parent, the parent is a
    /// writable directory, and the new name is free; the parent gains the
    /// entry and the file one link. Linking a directory fails with
    /// `EPERM`, crossing mountpoints with `EXDEV`, a taken name with
    /// `EEXIST`. The tree is unchanged on every failure.
    #[verifier::rlimit(100)]
    pub fn link(&mut self, old_path: &[u8], new_path: &[u8], ap: &AccessProfile, cwd: u32) -> (r:
        Result<(), Errno>)
        requires
            old(self).wf(),
        ensures
            final(self).wf(),
            r is Err ==> *final(self) == *old(self),
            ({
                let res = spec_resolve(old(self).nodes@, old(self).root, old_path@, cwd, true);
                let loc = spec_locate_parent(old(self).nodes@, old(self).root, new_path@, cwd);
                match r {
                    Err(e) => match res {
                        Result::Err(re) => e == re,
                        Result::Ok(tid) => match spec_node_idx(old(self).nodes@, tid) {
                            Option::None => e == ENOENT,
                            Option::Some(ti) => if old(self).nodes@[ti].file_type
                                == FileType::Directory {
                                e == EPERM
                            } else {
                                match loc {
                                    Result::Err(le) => e == le,
                                    Result::Ok(p) => if old(self).nodes@[p.0].mount != old(self).nodes@[ti].mount {
                                        e == EXDEV
                                    } else {
                                        spec_create_err(old(self).nodes@, p.0, p.1, *ap, e)
                                    },
                                }
                            },
                        },
                    },
                    Ok(()) => match (res, loc) {
                        (Result::Ok(tid), Result::Ok(p)) => ({
                            let pi = p.0;
                            let name = p.1;
                            match spec_node_idx(old(self).nodes@, tid) {
                                Option::None => false,
                                Option::Some(ti) => {
                                    let pn = old(self).nodes@[pi];
                                    let tn = old(self).nodes@[ti];
                                    &&& tn.file_type != FileType::Directory
                                    &&& pn.file_type == FileType::Directory
                                    &&& pn.mount == tn.mount
                                    &&& spec_can_access(pn, *ap, 2)
                                    &&& spec_entry_lookup(pn.entries@, name) is None
                                    &&& ti != pi
                                    &&& nodes_unchanged_except2(
                                        final(self).nodes@,
                                        old(self).nodes@,
                                        pi,
                                        ti,
                                    )
                                    &&& node_eq_except_entries_nlink(final(self).nodes@[pi], pn)
                                    &&& final(self).nodes@[pi].nlink == pn.nlink
                                    &&& entry_views(final(self).nodes@[pi].entries@)
                                        == entry_views(pn.entries@).push((name, tid))
                                    &&& node_eq_except_entries_nlink(final(self).nodes@[ti], tn)
                                    &&& entry_views(final(self).nodes@[ti].entries@)
                                        == entry_views(tn.entries@)
                                    &&& final(self).nodes@[ti].nlink == (if tn.nlink < u32::MAX {
                                        (tn.nlink + 1) as u32
                                    } else {
                                        tn.nlink
                                    })
                                },
                            }
                        }),
                        _ => false,
                    },
                }
            }),
    {
        let target_id = match self.resolve(old_path, cwd, true) {
            Ok(id) => id,
            Err(e) => {
                return Err(e);
            }
        };
        let tidx = match self.node_idx(target_id) {
            Some(i) => i,
            None => {
                return Err(ENOENT);
            }
        };
        if matches!(self.nodes[tidx].file_type, FileType::Directory) {
            return Err(EPERM);
        }
        let target_mount = self.nodes[tidx].mount;
        let (pidx, name) = match self.resolve_parent(new_path, cwd) {
            Ok(x) => x,
            Err(e) => {
                return Err(e);
            }
        };
        if self.nodes[pidx].mount != target_mount {
            return Err(EXDEV);
        }
        if !matches!(self.nodes[pidx].file_type, FileType::Directory) {
            return Err(ENOTDIR);
        }
        if !self.can_access(pidx, ap, 2) {
            return Err(EACCES);
        }
        if self.dir_lookup(pidx, name.as_slice()).is_some() {
            return Err(EEXIST);
        }
        proof {
            // the parent is a directory, the target is not: two nodes
            assert(tidx != pidx);
        }
        let ghost gname = name@;
        let ghost before = self.nodes@;
        let mut parent = self.nodes.remove(pidx);
        parent.entries.push((name, target_id));
        self.nodes.insert(pidx, parent);
        proof {
            assert(self.nodes@ =~= before.update(pidx as int, self.nodes@[pidx as int]));
            lemma_wf_same_ids(before, self.nodes@, self.next_id as int);
            lemma_same_id_found(before, self.nodes@, self.root);
            assert(entry_views(self.nodes@[pidx as int].entries@) =~= entry_views(
                before[pidx as int].entries@,
            ).push((gname, target_id)));
        }
        let ghost mid = self.nodes@;
        let mut node = self.nodes.remove(tidx);
        if node.nlink < u32::MAX {
            node.nlink = node.nlink + 1;
        }
        self.nodes.insert(tidx, node);
        proof {
            assert(self.nodes@ =~= mid.update(tidx as int, self.nodes@[tidx as int]));
            lemma_wf_same_ids(mid, self.nodes@, self.next_id as int);
            lemma_same_id_found(mid, self.nodes@, self.root);
        }
        Ok(())
    }

    /// Removes the name at `path`; the file's link count drops by one,
    /// and its record is freed when the count reaches zero.
    ///
    /// Succeeds exactly when the parent resolves to a writable directory
    /// holding the name and the named node is not a directory; a
    /// directory fails with `EISDIR`. The tree is unchanged on every
    /// failure.
    #[verifier::rlimit(100)]
    pub fn unlink(&mut self, path: &[u8], ap: &AccessProfile, cwd: u32) -> (r: Result<(), Errno>)
        requires
            old(self).wf(),
        ensures
            final(self).wf(),
            r is Err ==> *final(self) == *old(self),
            ({
                let loc = spec_locate_parent(old(self).nodes@, old(self).root, path@, cwd);
                match r {
                    Err(e) => match loc {
                        Result::Err(le) => e == le,
                        Result::Ok(p) => ({
                            let pi = p.0;
                            let name = p.1;
                            let pn = old(self).nodes@[pi];
                            if pn.file_type != FileType::Directory {
                                e == ENOTDIR
                            } else {
                                match spec_entry_lookup(pn.entries@, name) {
                                    Option::None => e == ENOENT,
                                    Option::Some(tid) => match spec_node_idx(
                                        old(self).nodes@,
                                        tid,
                                    ) {
                                        Option::None => e == ENOENT,
                                        Option::Some(ti) => if tid == old(self).root {
                                            e == EBUSY
                                        } else if old(self).nodes@[ti].file_type
                                            == FileType::Directory {
                                            e == EISDIR
                                        } else {
                                            e == EACCES && !spec_can_access(pn, *ap, 2)
                                        },
                                    },
                                }
                            }
                        }),
                    },
                    Ok(()) => match loc {
                        Result::Err(_) => false,
                        Result::Ok(p) => ({
                            let pi = p.0;
                            let name = p.1;
                            let pn = old(self).nodes@[pi];
                            match spec_entry_lookup(pn.entries@, name) {
                                Option::None => false,
                                Option::Some(tid) => match spec_node_idx(old(self).nodes@, tid) {
                                    Option::None => false,
                                    Option::Some(ti) => {
                                        let tn = old(self).nodes@[ti];
                                        &&& pn.file_type == FileType::Directory
                                        &&& tn.file_type != FileType::Directory
                                        &&& spec_can_access(pn, *ap, 2)
                                        &&& tid != old(self).root
                                        &&& ti != pi
                                        &&& final(self).root == old(self).root
                                        &&& final(self).next_id == old(self).next_id
                                        &&& if tn.nlink <= 1 {
                                            // the last name went: the record is freed
                                            let pj = if pi < ti {
                                                pi
                                            } else {
                                                pi - 1
                                            };
                                            &&& final(self).nodes@.len() == old(self).nodes@.len() - 1
                                            &&& spec_node_idx(final(self).nodes@, tid) is None
                                            &&& forall|j: int|
                                                0 <= j < old(self).nodes@.len() && j != pi && j
                                                    != ti ==> final(self).nodes@[if j < ti {
                                                    j
                                                } else {
                                                    j - 1
                                                }] == old(self).nodes@[j]
                                            &&& node_eq_except_entries_nlink(
                                                final(self).nodes@[pj],
                                                pn,
                                            )
                                            &&& final(self).nodes@[pj].nlink == pn.nlink
                                            &&& entry_views(final(self).nodes@[pj].entries@)
                                                == entry_views(pn.entries@).remove(
                                                spec_entry_index(pn.entries@, name),
                                            )
                                        } else {
                                            // one name of several went
                                            &&& nodes_unchanged_except2(
                                                final(self).nodes@,
                                                old(self).nodes@,
                                                pi,
                                                ti,
                                            )
                                            &&& node_eq_except_entries_nlink(
                                                final(self).nodes@[pi],
                                                pn,
                                            )
                                            &&& final(self).nodes@[pi].nlink == pn.nlink
                                            &&& entry_views(final(self).nodes@[pi].entries@)
                                                == entry_views(pn.entries@).remove(
                                                spec_entry_index(pn.entries@, name),
                                            )
                                            &&& node_eq_except_entries_nlink(
                                                final(self).nodes@[ti],
                                                tn,
                                            )
                                            &&& entry_views(final(self).nodes@[ti].entries@)
                                                == entry_views(tn.entries@)
                                            &&& final(self).nodes@[ti].nlink == tn.nlink - 1
                                        }
                                    },
                                },
                            }
                        }),
                    },
                }
            }),
    {
        let (pidx, name) = match self.resolve_parent(path, cwd) {
            Ok(x) => x,
            Err(e) => {
                return Err(e);
            }
        };
        if !matches!(self.nodes[pidx].file_type, FileType::Directory) {
            return Err(ENOTDIR);
        }
        let target_id = match self.dir_lookup(pidx, name.as_slice()) {
            Some(id) => id,
            None => {
                return Err(ENOENT);
            }
        };
        let tidx = match self.node_idx(target_id) {
            Some(i) => i,
            None => {
                return Err(ENOENT);
            }
        };
        if target_id == self.root {
            return Err(EBUSY);
        }
        if matches!(self.nodes[tidx].file_type, FileType::Directory) {
            return Err(EISDIR);
        }
        if !self.can_access(pidx, ap, 2) {
            return Err(EACCES);
        }
        proof {
            // the parent is a directory, the target is not: two nodes
            assert(tidx != pidx);
        }
        let ghost before = self.nodes@;
        let mut parent = self.nodes.remove(pidx);
        let ghost pentries = parent.entries@;
        remove_entry(&mut parent.entries, name.as_slice());
        self.nodes.insert(pidx, parent);
        proof {
            assert(self.nodes@ =~= before.update(pidx as int, self.nodes@[pidx as int]));
            lemma_wf_same_ids(before, self.nodes@, self.next_id as int);
            lemma_same_id_found(before, self.nodes@, self.root);
            lemma_entry_index(pentries, name@);
        }
        let ghost mid = self.nodes@;
        let nlink = self.nodes[tidx].nlink;
        if nlink <= 1 {
            // the record is freed with its last name
            self.nodes.remove(tidx);
            proof {
                assert(self.nodes@ =~= mid.remove(tidx as int));
                lemma_wf_after_remove(mid, self.nodes@, tidx as int, self.next_id as int);
                assert(spec_node_idx(self.nodes@, self.root) is Some) by {
                    lemma_found_not_at(mid, self.nodes@, tidx as int, self.root);
                }
                lemma_removed_id_gone(mid, self.nodes@, tidx as int);
            }
        } else {
            let mut node = self.nodes.remove(tidx);
            node.nlink = node.nlink - 1;
            self.nodes.insert(tidx, node);
            proof {
                assert(self.nodes@ =~= mid.update(tidx as int, self.nodes@[tidx as int]));
                lemma_wf_same_ids(mid, self.nodes@, self.next_id as int);
                lemma_same_id_found(mid, self.nodes@, self.root);
            }
        }
        Ok(())
    }

    /// Returns the metadata of the file at `path`, links followed.
    ///
    /// Succeeds exactly when the path resolves; the snapshot carries the
    /// resolved node's fields, the size being the target's length for a
    /// link and the content's length otherwise.
    pub fn stat(&self, path: &[u8], cwd: u32) -> (r: Result<FileStat, Errno>)
        requires
            self.wf(),
        ensures
            ({
                let res = spec_resolve(self.nodes@, self.root, path@, cwd, true);
                match r {
                    Ok(st) => match res {
                        Result::Err(_) => false,
                        Result::Ok(id) => match spec_node_idx(self.nodes@, id) {
                            Option::None => false,
                            Option::Some(i) => {
                                let n = self.nodes@[i];
                                &&& st.inode == n.id
                                &&& st.file_type == n.file_type
                                &&& st.mode == n.mode
                                &&& st.uid == n.uid
                                &&& st.gid == n.gid
                                &&& st.nlink == n.nlink
                                &&& st.major == n.major
                                &&& st.minor == n.minor
                                &&& st.size == (if n.file_type == FileType::Link {
                                    n.link_target@.len()
                                } else {
                                    n.content@.len()
                                })
                            },
                        },
                    },
                    Err(e) => res == Result::<u32, Errno>::Err(e),
                }
            }),
    {
        let id = self.resolve(path, cwd, true)?;
        let idx = match self.node_idx(id) {
            Some(i) => i,
            None => {
                return Err(ENOENT);
            }
        };
        let node = &self.nodes[idx];
        let size: u64 = if matches!(node.file_type, FileType::Link) {
            node.link_target.len() as u64
        } else {
            node.content.len() as u64
        };
        Ok(FileStat {
            inode: node.id,
            file_type: node.file_type,
            mode: node.mode,
            uid: node.uid,
            gid: node.gid,
            nlink: node.nlink,
            size,
            major: node.major,
            minor: node.minor,
        })
    }
}

/// Removes the first entry bound to `name`; a missing name changes/// Removes the first entry bound to `name`; a missing name changes
/// nothing.
fn remove_entry(entries: &mut Vec<(Vec<u8>, u32)>, name: &[u8])
    ensures
        ({
            let k = spec_entry_index(old(entries)@, name@);
            if k < old(entries)@.len() {
                final(entries)@ == old(entries)@.remove(k)
            } else {
                final(entries)@ == old(entries)@
            }
        }),
{
    let n = entries.len();
    let mut i: usize = 0;
    proof {
        lemma_entry_index(entries@, name@);
    }
    while i < n
        invariant
            i <= n,
            n == entries@.len(),
            entries@ == old(entries)@,
            forall|j: int| 0 <= j < i ==> (#[trigger] entries@[j]).0@ != name@,
        decreases n - i,
    {
        if bytes_same(entries[i].0.as_slice(), name) {
            proof {
                let k = spec_entry_index(entries@, name@);
                lemma_entry_index(entries@, name@);
                if k < i {
                    assert(entries@[k].0@ != name@);
                }
                if k > i {
                    assert(entries@[i as int].0@ != name@);
                }
                assert(k == i);
            }
            entries.remove(i);
            return;
        }
        i += 1;
    }
    proof {
        let k = spec_entry_index(entries@, name@);
        lemma_entry_index(entries@, name@);
        if k < entries@.len() {
            assert(entries@[k].0@ != name@);
        }
    }
}

/// Removing one node keeps the ids unique and bounded.
proof fn lemma_wf_after_remove(before: Seq<FsNode>, after: Seq<FsNode>, t: int, bound: int)
    requires
        0 <= t < before.len(),
        after == before.remove(t),
        forall|i: int, j: int|
            0 <= i < j < before.len() ==> (#[trigger] before[i]).id != (#[trigger] before[j]).id,
        forall|i: int| 0 <= i < before.len() ==> (#[trigger] before[i]).id < bound,
    ensures
        forall|i: int, j: int|
            0 <= i < j < after.len() ==> (#[trigger] after[i]).id != (#[trigger] after[j]).id,
        forall|i: int| 0 <= i < after.len() ==> (#[trigger] after[i]).id < bound,
{
    assert forall|i: int, j: int|
        0 <= i < j < after.len() implies (#[trigger] after[i]).id != (#[trigger] after[j]).id by {
        let bi = if i < t {
            i
        } else {
            i + 1
        };
        let bj = if j < t {
            j
        } else {
            j + 1
        };
        assert(after[i] == before[bi]);
        assert(after[j] == before[bj]);
    }
    assert forall|i: int| 0 <= i < after.len() implies (#[trigger] after[i]).id < bound by {
        let bi = if i < t {
            i
        } else {
            i + 1
        };
        assert(after[i] == before[bi]);
    }
}

/// A found id not at the removed index stays found.
proof fn lemma_found_not_at(before: Seq<FsNode>, after: Seq<FsNode>, t: int, id: u32)
    requires
        0 <= t < before.len(),
        after == before.remove(t),
        spec_node_idx(before, id) is Some,
        before[t].id != id,
    ensures
        spec_node_idx(after, id) is Some,
    decreases before.len(),
{
    if before[0].id == id {
        assert(t != 0);
        assert(after[0] == before[0]);
    } else {
        assert(before.len() > 1);
        if t == 0 {
            assert(after =~= before.skip(1));
        } else {
            assert(after.skip(1) =~= before.skip(1).remove(t - 1));
            lemma_found_not_at(before.skip(1), after.skip(1), t - 1, id);
            assert(after[0] == before[0]);
        }
    }
}

/// The removed node's id is gone when ids are unique.
proof fn lemma_removed_id_gone(before: Seq<FsNode>, after: Seq<FsNode>, t: int)
    requires
        0 <= t < before.len(),
        after == before.remove(t),
        forall|i: int, j: int|
            0 <= i < j < before.len() ==> (#[trigger] before[i]).id != (#[trigger] before[j]).id,
    ensures
        spec_node_idx(after, before[t].id) is None,
{
    assert forall|i: int| 0 <= i < after.len() implies (#[trigger] after[i]).id != before[t].id by {
        let bi = if i < t {
            i
        } else {
            i + 1
        };
        assert(after[i] == before[bi]);
        if bi < t {
            assert(before[bi].id != before[t].id);
        } else {
            assert(before[t].id != before[bi].id);
        }
    }
    lemma_node_idx_none(after, before[t].id);
}

/// The number of entries of one directory naming `id`./// The number of entries of one directory naming `id`.
pub open spec fn spec_count_in(entries: Seq<(Vec<u8>, u32)>, id: u32) -> int
    decreases entries.len(),
{
    if entries.len() == 0 {
        0
    } else {
        (if entries[0].1 == id {
            1int
        } else {
            0
        }) + spec_count_in(entries.skip(1), id)
    }
}

/// The number of live hard-link references to `id`: the entries naming it
/// across every directory of the namespace.
pub open spec fn spec_total_refs(nodes: Seq<FsNode>, id: u32) -> int
    decreases nodes.len(),
{
    if nodes.len() == 0 {
        0
    } else {
        spec_count_in(nodes[0].entries@, id) + spec_total_refs(nodes.skip(1), id)
    }
}

/// The hard-link invariant: every inode's link count equals the number of
/// live references to it.
pub open spec fn spec_links_consistent(nodes: Seq<FsNode>) -> bool {
    forall|i: int|
        0 <= i < nodes.len() ==> (#[trigger] nodes[i]).nlink == spec_total_refs(
            nodes,
            nodes[i].id,
        )
}

/// Appending an entry raises the count of its target by one and no other.
proof fn lemma_count_in_push(entries: Seq<(Vec<u8>, u32)>, e: (Vec<u8>, u32), id: u32)
    ensures
        spec_count_in(entries.push(e), id) == spec_count_in(entries, id) + (if e.1 == id {
            1int
        } else {
            0
        }),
    decreases entries.len(),
{
    if entries.len() == 0 {
        assert(entries.push(e)[0] == e);
        assert(entries.push(e).skip(1) =~= Seq::<(Vec<u8>, u32)>::empty());
        assert(spec_count_in(entries.push(e).skip(1), id) == 0);
    } else {
        lemma_count_in_push(entries.skip(1), e, id);
        assert(entries.push(e)[0] == entries[0]);
        assert(entries.push(e).skip(1) =~= entries.skip(1).push(e));
        assert(spec_count_in(entries.push(e), id) == (if entries[0].1 == id {
            1int
        } else {
            0
        }) + spec_count_in(entries.skip(1).push(e), id));
    }
}

/// Removing an entry lowers the count of its target by one and no other.
proof fn lemma_count_in_remove(entries: Seq<(Vec<u8>, u32)>, k: int, id: u32)
    requires
        0 <= k < entries.len(),
    ensures
        spec_count_in(entries.remove(k), id) == spec_count_in(entries, id) - (
        if entries[k].1 == id {
            1int
        } else {
            0
        }),
    decreases entries.len(),
{
    if k == 0 {
        assert(entries.remove(0) =~= entries.skip(1));
    } else {
        lemma_count_in_remove(entries.skip(1), k - 1, id);
        assert(entries.remove(k).skip(1) =~= entries.skip(1).remove(k - 1));
        assert(entries.remove(k)[0] == entries[0]);
    }
}

/// Replacing one node changes the total references by the difference of
/// its directory's counts.
proof fn lemma_total_refs_update(nodes: Seq<FsNode>, k: int, n2: FsNode, id: u32)
    requires
        0 <= k < nodes.len(),
    ensures
        spec_total_refs(nodes.update(k, n2), id) == spec_total_refs(nodes, id) - spec_count_in(
            nodes[k].entries@,
            id,
        ) + spec_count_in(n2.entries@, id),
    decreases nodes.len(),
{
    if k == 0 {
        assert(nodes.update(0, n2).skip(1) =~= nodes.skip(1));
    } else {
        lemma_total_refs_update(nodes.skip(1), k - 1, n2, id);
        assert(nodes.update(k, n2).skip(1) =~= nodes.skip(1).update(k - 1, n2));
        assert(nodes.update(k, n2)[0] == nodes[0]);
    }
}

/// Adding a hard link keeps the link counts consistent: the new name
/// raises the target's reference count, and the target's link count rises
/// with it, so every inode's count still equals its live references.
pub proof fn lemma_link_keeps_counts(
    before: Seq<FsNode>,
    after: Seq<FsNode>,
    pidx: int,
    tidx: int,
    name: Vec<u8>,
    target: u32,
)
    requires
        spec_links_consistent(before),
        0 <= pidx < before.len(),
        0 <= tidx < before.len(),
        pidx != tidx,
        before[tidx].id == target,
        before[tidx].nlink < u32::MAX,
        // ids are unique
        forall|i: int, j: int|
            0 <= i < j < before.len() ==> (#[trigger] before[i]).id != (#[trigger] before[j]).id,
        // the parent does not name itself
        before[pidx].id != target,
        // the transition: the parent gains the entry, the target one link
        after.len() == before.len(),
        forall|j: int| 0 <= j < before.len() && j != pidx && j != tidx ==> #[trigger] after[j]
            == before[j],
        after[pidx].id == before[pidx].id,
        after[pidx].nlink == before[pidx].nlink,
        after[pidx].entries@ == before[pidx].entries@.push((name, target)),
        after[tidx].id == before[tidx].id,
        after[tidx].nlink == before[tidx].nlink + 1,
        after[tidx].entries@ == before[tidx].entries@,
    ensures
        spec_links_consistent(after),
{
    let mid = before.update(pidx, after[pidx]);
    assert(after =~= mid.update(tidx, after[tidx]));
    assert forall|i: int| 0 <= i < after.len() implies (#[trigger] after[i]).nlink
        == spec_total_refs(after, after[i].id) by {
        let id = after[i].id;
        lemma_total_refs_update(before, pidx, mid[pidx], id);
        lemma_count_in_push(before[pidx].entries@, (name, target), id);
        lemma_total_refs_update(mid, tidx, after[tidx], id);
        assert(mid[tidx].entries@ == before[tidx].entries@);
        assert(after[tidx].entries@ == before[tidx].entries@);
        assert(spec_total_refs(after, id) == spec_total_refs(mid.update(tidx, after[tidx]), id));
        assert(spec_total_refs(after, id) == spec_total_refs(before, id) + (if id == target {
            1int
        } else {
            0
        }));
        if i == tidx {
            assert(after[i].nlink == before[tidx].nlink + 1);
            assert(id == target);
        } else {
            assert(after[i].id == before[i].id);
            assert(after[i].nlink == before[i].nlink);
            if id == target {
                assert(before[i].id == before[tidx].id);
                if i < tidx {
                    assert(before[i].id != before[tidx].id);
                } else {
                    assert(before[tidx].id != before[i].id);
                }
                assert(false);
            }
        }
    }
}

/// Dropping a name keeps the link counts consistent: the removed entry
/// lowers the target's reference count, and the target's link count drops
/// with it.
pub proof fn lemma_unlink_keeps_counts(
    before: Seq<FsNode>,
    after: Seq<FsNode>,
    pidx: int,
    tidx: int,
    k: int,
    target: u32,
)
    requires
        spec_links_consistent(before),
        0 <= pidx < before.len(),
        0 <= tidx < before.len(),
        pidx != tidx,
        before[tidx].id == target,
        before[tidx].nlink > 0,
        forall|i: int, j: int|
            0 <= i < j < before.len() ==> (#[trigger] before[i]).id != (#[trigger] before[j]).id,
        before[pidx].id != target,
        // the removed entry names the target
        0 <= k < before[pidx].entries@.len(),
        before[pidx].entries@[k].1 == target,
        after.len() == before.len(),
        forall|j: int| 0 <= j < before.len() && j != pidx && j != tidx ==> #[trigger] after[j]
            == before[j],
        after[pidx].id == before[pidx].id,
        after[pidx].nlink == before[pidx].nlink,
        after[pidx].entries@ == before[pidx].entries@.remove(k),
        after[tidx].id == before[tidx].id,
        after[tidx].nlink == before[tidx].nlink - 1,
        after[tidx].entries@ == before[tidx].entries@,
    ensures
        spec_links_consistent(after),
{
    let mid = before.update(pidx, after[pidx]);
    assert(after =~= mid.update(tidx, after[tidx]));
    assert forall|i: int| 0 <= i < after.len() implies (#[trigger] after[i]).nlink
        == spec_total_refs(after, after[i].id) by {
        let id = after[i].id;
        lemma_total_refs_update(before, pidx, mid[pidx], id);
        lemma_count_in_remove(before[pidx].entries@, k, id);
        lemma_total_refs_update(mid, tidx, after[tidx], id);
        assert(spec_total_refs(after, id) == spec_total_refs(mid.update(tidx, after[tidx]), id));
        assert(mid[tidx].entries@ == before[tidx].entries@);
        assert(after[tidx].entries@ == before[tidx].entries@);
        assert(spec_total_refs(after, id) == spec_total_refs(before, id) - (if id == target {
            1int
        } else {
            0
        }));
        if i == tidx {
            assert(id == target);
        } else {
            assert(after[i].id == before[i].id);
            if id == target {
                if i < tidx {
                    assert(before[i].id != before[tidx].id);
                } else {
                    assert(before[tidx].id != before[i].id);
                }
                assert(false);
            }
        }
    }
}


/// The error a creating operation yields on the given state, or nothing
/// when it succeeds: the parent must resolve to a writable directory with
/// the final name free.
pub open spec fn spec_create_op_err(
    nodes: Seq<FsNode>,
    root: u32,
    path: Seq<u8>,
    cwd: u32,
    ap: AccessProfile,
) -> Option<Errno> {
    match spec_locate_parent(nodes, root, path, cwd) {
        Result::Err(le) => Option::Some(le),
        Result::Ok(p) => if nodes[p.0].file_type != FileType::Directory {
            Option::Some(ENOTDIR)
        } else if !spec_can_access(nodes[p.0], ap, 2) {
            Option::Some(EACCES)
        } else if spec_entry_lookup(nodes[p.0].entries@, p.1) is Some {
            Option::Some(EEXIST)
        } else {
            Option::None
        },
    }
}

/// The error removing the directory at `path` yields, or nothing.
pub open spec fn spec_rmdir_err(
    nodes: Seq<FsNode>,
    root: u32,
    path: Seq<u8>,
    cwd: u32,
    ap: AccessProfile,
) -> Option<Errno> {
    match spec_locate_parent(nodes, root, path, cwd) {
        Result::Err(le) => Option::Some(le),
        Result::Ok(p) => {
            let pn = nodes[p.0];
            if pn.file_type != FileType::Directory {
                Option::Some(ENOTDIR)
            } else {
                match spec_entry_lookup(pn.entries@, p.1) {
                    Option::None => Option::Some(ENOENT),
                    Option::Some(tid) => match spec_node_idx(nodes, tid) {
                        Option::None => Option::Some(ENOENT),
                        Option::Some(ti) => if tid == root {
                            Option::Some(EBUSY)
                        } else if ti == p.0 {
                            Option::Some(EINVAL)
                        } else if nodes[ti].file_type != FileType::Directory {
                            Option::Some(ENOTDIR)
                        } else if nodes[ti].entries@.len() > 2 {
                            Option::Some(ENOTEMPTY)
                        } else if !spec_can_access(pn, ap, 2) {
                            Option::Some(EACCES)
                        } else {
                            Option::None
                        },
                    },
                }
            }
        },
    }
}

/// The error removing the name at `path` yields, or nothing.
pub open spec fn spec_unlink_err(
    nodes: Seq<FsNode>,
    root: u32,
    path: Seq<u8>,
    cwd: u32,
    ap: AccessProfile,
) -> Option<Errno> {
    match spec_locate_parent(nodes, root, path, cwd) {
        Result::Err(le) => Option::Some(le),
        Result::Ok(p) => {
            let pn = nodes[p.0];
            if pn.file_type != FileType::Directory {
                Option::Some(ENOTDIR)
            } else {
                match spec_entry_lookup(pn.entries@, p.1) {
                    Option::None => Option::Some(ENOENT),
                    Option::Some(tid) => match spec_node_idx(nodes, tid) {
                        Option::None => Option::Some(ENOENT),
                        Option::Some(ti) => if tid == root {
                            Option::Some(EBUSY)
                        } else if nodes[ti].file_type == FileType::Directory {
                            Option::Some(EISDIR)
                        } else if !spec_can_access(pn, ap, 2) {
                            Option::Some(EACCES)
                        } else {
                            Option::None
                        },
                    },
                }
            }
        },
    }
}

/// The error reading the link at `path` yields, or nothing.
pub open spec fn spec_readlink_err(
    nodes: Seq<FsNode>,
    root: u32,
    path: Seq<u8>,
    cwd: u32,
) -> Option<Errno> {
    match spec_resolve(nodes, root, path, cwd, false) {
        Result::Err(re) => Option::Some(re),
        Result::Ok(id) => match spec_node_idx(nodes, id) {
            Option::None => Option::Some(ENOENT),
            Option::Some(i) => if nodes[i].file_type != FileType::Link {
                Option::Some(EINVAL)
            } else {
                Option::None
            },
        },
    }
}


/// A failed walk names one of three errors, all positive.
pub proof fn lemma_resolve_loop_err(
    nodes: Seq<FsNode>,
    root: u32,
    comps: Seq<crate::path::CompView>,
    cur: u32,
    links: int,
    follow: bool,
)
    requires
        0 <= links <= SYMLOOP_MAX,
    ensures
        spec_resolve_loop(nodes, root, comps, cur, links, follow) matches Result::Err(e) ==> e
            == ENOENT || e == ENOTDIR || e == ELOOP,
    decreases SYMLOOP_MAX - links, comps.len(),
{
    if comps.len() == 0 {
    } else {
        let rest = comps.skip(1);
        match comps[0] {
            crate::path::CompView::RootDir => {
                lemma_resolve_loop_err(nodes, root, rest, root, links, follow);
            }
            crate::path::CompView::CurDir => {
                lemma_resolve_loop_err(nodes, root, rest, cur, links, follow);
            }
            crate::path::CompView::ParentDir => {
                match spec_node_idx(nodes, cur) {
                    Option::None => {}
                    Option::Some(i) => {
                        if nodes[i].file_type == FileType::Directory {
                            match spec_entry_lookup(nodes[i].entries@, crate::path::spec_dotdot()) {
                                Option::None => {}
                                Option::Some(p) => {
                                    lemma_resolve_loop_err(nodes, root, rest, p, links, follow);
                                }
                            }
                        }
                    }
                }
            }
            crate::path::CompView::Normal(name) => {
                match spec_node_idx(nodes, cur) {
                    Option::None => {}
                    Option::Some(i) => {
                        if nodes[i].file_type == FileType::Directory {
                            match spec_entry_lookup(nodes[i].entries@, name) {
                                Option::None => {}
                                Option::Some(next) => {
                                    match spec_node_idx(nodes, next) {
                                        Option::None => {}
                                        Option::Some(ni) => {
                                            if nodes[ni].file_type == FileType::Link && (rest.len()
                                                > 0 || follow) {
                                                if links < SYMLOOP_MAX {
                                                    let t = nodes[ni].link_target@;
                                                    lemma_resolve_loop_err(
                                                        nodes,
                                                        root,
                                                        crate::path::spec_components(t) + rest,
                                                        if crate::path::spec_is_absolute(t) {
                                                            root
                                                        } else {
                                                            cur
                                                        },
                                                        links + 1,
                                                        follow,
                                                    );
                                                }
                                            } else {
                                                lemma_resolve_loop_err(
                                                    nodes,
                                                    root,
                                                    rest,
                                                    next,
                                                    links,
                                                    follow,
                                                );
                                            }
                                        }
                                    }
                                }
                            }
                        }
                    }
                }
            }
        }
    }
}

/// A failed resolution's error is positive.
pub proof fn lemma_resolve_err(nodes: Seq<FsNode>, root: u32, path: Seq<u8>, cwd: u32, follow: bool)
    ensures
        spec_resolve(nodes, root, path, cwd, follow) matches Result::Err(e) ==> 0 < e,
{
    if path.len() <= PATH_MAX {
        lemma_resolve_loop_err(
            nodes,
            root,
            crate::path::spec_components(path),
            if crate::path::spec_is_absolute(path) {
                root
            } else {
                cwd
            },
            0,
            follow,
        );
    }
}

/// A failed parent location's error is positive.
pub proof fn lemma_locate_parent_err(nodes: Seq<FsNode>, root: u32, path: Seq<u8>, cwd: u32)
    ensures
        spec_locate_parent(nodes, root, path, cwd) matches Result::Err(e) ==> 0 < e,
{
    if path.len() <= PATH_MAX {
        let comps = crate::path::spec_components(path);
        if !(comps.len() == 0 || comps.last() is RootDir) {
            lemma_resolve_loop_err(
                nodes,
                root,
                comps.drop_last(),
                if crate::path::spec_is_absolute(path) {
                    root
                } else {
                    cwd
                },
                0,
                true,
            );
        }
    }
}

} // verus!
