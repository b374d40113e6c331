use kernel_core::errno::{EEXIST, ELOOP, ENAMETOOLONG, EPERM};
use kernel_core::ext2::{Ext2FsType, Ext2INode, FileType, Superblock, EXT2_SIGNATURE};
use kernel_core::limits::PATH_MAX;
use kernel_core::mem_space::{MapConstraint, MemSpace, MAPPING_FLAG_USER, MAPPING_FLAG_WRITE};
use kernel_core::path::{Component, Path, PathBuf};
use kernel_core::storage::{read_bytes, write_bytes, Partition, RamDisk, StorageInterface};
use kernel_core::syscall::{close, dup2, getppid, sethostname, OpenFile, Proc};
use kernel_core::vfs::{AccessProfile, Vfs};
use kernel_core::PAGE_SIZE;
use kernel_core::madt::{Madt, ENTRIES_OFF, ENTRY_PROCESSOR_LOCAL_APIC};
use kernel_core::pci::{PCIDevice, PCIManager, PciConfigSpace, PciFunction};
use kernel_core::device::{makedev, major, minor, Device, DeviceRegistry, DeviceType};
use kernel_core::mem_space::FaultOutcome;
use kernel_core::syscall::{do_mmap, fstat64, get_flags, statx, PROT_READ, PROT_WRITE};
use kernel_core::ext2::DirectoryEntry;

fn root_proc() -> Proc {
    Proc {
        pid: 1,
        ppid: 0,
        ap: AccessProfile { uid: 0, gid: 0, privileged: true },
        umask: 0,
        cwd: 0,
        fds: Vec::new(),
        hostname: Vec::new(),
    }
}

#[test]
fn path_length_bounds() {
    // exactly PATH_MAX bytes succeed; one more fails with ENAMETOOLONG
    let ok = vec![b'a'; PATH_MAX];
    assert!(PathBuf::try_from(ok.as_slice()).is_ok());
    let long = vec![b'a'; PATH_MAX + 1];
    match PathBuf::try_from(long.as_slice()) {
        Ok(_) => panic!("a path one byte past the bound must be rejected"),
        Err(e) => assert_eq!(e, ENAMETOOLONG),
    }
}

#[test]
fn path_components_roundtrip() {
    let p = Path::new(b"/etc//./passwd").unwrap();
    let mut comps = p.components();
    assert!(matches!(comps.next(), Some(Component::RootDir)));
    match comps.next() {
        Some(Component::Normal(n)) => assert_eq!(n, b"etc"),
        _ => panic!("expected a normal component"),
    }
    assert!(matches!(comps.next(), Some(Component::CurDir)));
    match comps.next() {
        Some(Component::Normal(n)) => assert_eq!(n, b"passwd"),
        _ => panic!("expected a normal component"),
    }
    assert!(comps.next().is_none());
    // rejoining canonicalizes: the doubled separator and the current
    // directory marker keep their meaning
    let joined = Path::new(b"/etc").unwrap().join(&Path::new(b"passwd").unwrap());
    assert_eq!(joined.as_bytes(), b"/etc/passwd");
}

#[test]
fn path_queries() {
    let p = Path::new(b"/a/b/c").unwrap();
    assert!(p.is_absolute());
    assert!(!Path::new(b"a/b").unwrap().is_absolute());
    assert_eq!(p.file_name().unwrap(), b"c");
    let parent = p.parent().unwrap();
    assert_eq!(parent.as_bytes(), b"/a/b");
    assert!(p.starts_with(&Path::new(b"/a").unwrap()));
    let rest = p.strip_prefix(&Path::new(b"/a").unwrap()).unwrap();
    assert_eq!(rest.as_bytes(), b"/b/c");
}

#[test]
fn mkdir_existing_fails() {
    // an existing directory makes mkdir return the negative EEXIST and
    // leaves the tree alone
    let mut vfs = Vfs::new();
    let proc = root_proc();
    assert_eq!(kernel_core::syscall::mkdir(&mut vfs, &proc, b"/a", 0o755), 0);
    let before = vfs.nodes.len();
    assert_eq!(kernel_core::syscall::mkdir(&mut vfs, &proc, b"/a", 0o755), -EEXIST);
    assert_eq!(vfs.nodes.len(), before);
}

#[test]
fn readlink_short_buffer() {
    // a three-byte buffer takes the first three target bytes, no
    // terminator appended
    let mut vfs = Vfs::new();
    let proc = root_proc();
    assert_eq!(kernel_core::syscall::symlink(&mut vfs, &proc, b"target", b"/l"), 0);
    let out = kernel_core::syscall::readlink(&vfs, &proc, b"/l", 3).unwrap();
    assert_eq!(out.as_slice(), b"tar");
    assert_eq!(out.len(), 3);
}

#[test]
fn chown_needs_privilege_even_to_self() {
    let mut vfs = Vfs::new();
    let root = root_proc();
    assert_eq!(kernel_core::syscall::mkdir(&mut vfs, &root, b"/x", 0o777), 0);
    // hand the file to user 1000 first
    assert_eq!(kernel_core::syscall::chown(&mut vfs, &root, b"/x", 1000, 1000), 0);
    let mut user = root_proc();
    user.ap = AccessProfile { uid: 1000, gid: 1000, privileged: false };
    assert_eq!(kernel_core::syscall::chown(&mut vfs, &user, b"/x", 1000, -1), -EPERM);
}

#[test]
fn symlink_chain_bounds() {
    // a chain of forty links resolves; one more fails with ELOOP
    let mut vfs = Vfs::new();
    let proc = root_proc();
    assert_eq!(kernel_core::syscall::mkdir(&mut vfs, &proc, b"/end", 0o755), 0);
    let mut prev: Vec<u8> = b"/end".to_vec();
    for i in 0..41 {
        let name = format!("/l{}", i).into_bytes();
        assert_eq!(kernel_core::syscall::symlink(&mut vfs, &proc, &prev, &name), 0);
        prev = name;
    }
    // /l39 goes through forty links
    assert!(vfs.resolve(b"/l39", 0, true).is_ok());
    // /l40 needs a forty-first traversal
    assert_eq!(vfs.resolve(b"/l40", 0, true).unwrap_err(), ELOOP);
}

#[test]
fn link_and_unlink_track_reference_counts() {
    // the hard-link count of a file always matches the number of
    // directory entries naming it
    let mut vfs = Vfs::new();
    let proc = root_proc();
    assert_eq!(kernel_core::syscall::mkdir(&mut vfs, &proc, b"/d", 0o755), 0);
    let id = vfs.create(b"/f", 0o644, 0, &proc.ap, 0).unwrap();
    assert_eq!(count_refs(&vfs, id), 1);
    assert_eq!(stat_nlink(&vfs, b"/f"), 1);
    assert_eq!(kernel_core::syscall::link(&mut vfs, &proc, b"/f", b"/d/f2"), 0);
    assert_eq!(count_refs(&vfs, id), 2);
    assert_eq!(stat_nlink(&vfs, b"/f"), 2);
    assert_eq!(kernel_core::syscall::unlink(&mut vfs, &proc, b"/f"), 0);
    assert_eq!(count_refs(&vfs, id), 1);
    assert_eq!(stat_nlink(&vfs, b"/d/f2"), 1);
}

fn count_refs(vfs: &Vfs, id: u32) -> usize {
    vfs.nodes
        .iter()
        .map(|n| n.entries.iter().filter(|(_, t)| *t == id).count())
        .sum()
}

fn stat_nlink(vfs: &Vfs, path: &[u8]) -> u32 {
    vfs.stat(path, 0).unwrap().nlink
}

#[test]
fn create_then_lookup_finds_inode() {
    // creating a name and looking it up yields the created inode
    let mut vfs = Vfs::new();
    let proc = root_proc();
    let id = vfs.create(b"/hello", 0o644, 0, &proc.ap, 0).unwrap();
    assert_eq!(vfs.resolve(b"/hello", 0, true).unwrap(), id);
    assert_eq!(vfs.stat(b"/hello", 0).unwrap().inode, id);
}

#[test]
fn mmap_write_protect_read() {
    // map two pages read-write, write bytes, drop the write permission,
    // and read the bytes back
    let mut space = MemSpace::new();
    let flags = MAPPING_FLAG_USER | MAPPING_FLAG_WRITE;
    let page = space.map(MapConstraint::NoConstraint, 2, flags, None).unwrap();
    let addr = page * PAGE_SIZE;
    let data = vec![7u8, 8, 9, 10];
    space.write_bytes(addr + 5, data.as_slice()).unwrap();
    space.mprotect(page, 2, MAPPING_FLAG_USER).unwrap();
    let back = space.read_bytes(addr + 5, 4).unwrap();
    assert_eq!(back, data);
    // the write permission is gone
    assert!(space.write_bytes(addr + 5, data.as_slice()).is_err());
    space.unmap(page, 2);
    assert!(space.read_bytes(addr + 5, 4).is_err());
}

#[test]
fn mmap_fixed_and_hint() {
    let mut space = MemSpace::new();
    let flags = MAPPING_FLAG_USER;
    let at = space.map(MapConstraint::Fixed(100), 1, flags, None).unwrap();
    assert_eq!(at, 100);
    let hinted = space.map(MapConstraint::Hint(200), 1, flags, None).unwrap();
    assert_eq!(hinted, 200);
    // the fixed page is taken now
    assert!(space.map(MapConstraint::Fixed(100), 1, flags, None).is_err());
}

#[test]
fn storage_round_trip() {
    let mut disk = RamDisk::new(512, 8);
    assert_eq!(disk.get_block_size(), 512);
    assert_eq!(disk.get_blocks_count(), 8);
    let data: Vec<u8> = (0..600).map(|i| (i % 251) as u8).collect();
    // an unaligned byte write crossing a block boundary reads back
    write_bytes(&mut disk, data.as_slice(), 100).unwrap();
    let back = read_bytes(&mut disk, 100, 600).unwrap();
    assert_eq!(back, data);
    assert!(read_bytes(&mut disk, 4000, 200).is_err());
    let p = Partition::new(3, 5);
    assert_eq!(p.get_start(), 3);
    assert_eq!(p.get_size(), 5);
}

#[test]
fn ext2_superblock_round_trip() {
    let mut disk = RamDisk::new(1024, 64);
    let t = Ext2FsType {};
    assert!(!t.detect(&mut disk));
    let sb = t.create_filesystem(&mut disk, 1000).unwrap();
    assert_eq!(sb.signature, EXT2_SIGNATURE);
    assert!(t.detect(&mut disk));
    let read = Superblock::read(&mut disk).unwrap();
    assert!(read.is_valid());
    assert_eq!(read.get_block_size(), 1024);
    assert_eq!(read.total_blocks, 64);
    assert_eq!(read.mount_count_since_fsck, 0);
}

#[test]
fn ext2_mount_counts() {
    let mut disk = RamDisk::new(1024, 64);
    let t = Ext2FsType {};
    t.create_filesystem(&mut disk, 1000).unwrap();
    let fs = t.load_filesystem(&mut disk, 2000).unwrap();
    assert_eq!(fs.superblock.mount_count_since_fsck, 1);
    assert_eq!(fs.superblock.last_fsck_timestamp, 2000);
    // a device without the signature does not mount
    let mut blank = RamDisk::new(1024, 64);
    assert!(t.load_filesystem(&mut blank, 2000).is_err());
}

#[test]
fn ext2_indirect_resolution() {
    // block pointers resolve through the single and double indirections:
    // content block 12 goes through the singly indirect table, block
    // 12 + N through the doubly indirect one
    let mut disk = RamDisk::new(1024, 64);
    let t = Ext2FsType {};
    let sb = t.create_filesystem(&mut disk, 1000).unwrap();
    let mut inode = Ext2INode::read(2, &sb, &mut disk).unwrap();
    inode.singly_indirect_block_ptr = 30;
    inode.doubly_indirect_block_ptr = 31;
    // the singly indirect table's first pointer
    write_le32(&mut disk, 30 * 1024, 41);
    // the doubly indirect table points at block 32, whose first pointer
    // is block 42
    write_le32(&mut disk, 31 * 1024, 32);
    write_le32(&mut disk, 32 * 1024, 42);
    let direct = inode.get_content_block_off(0, &sb, &mut disk).unwrap();
    assert_eq!(direct, None); // a hole: no direct pointer set
    let single = inode.get_content_block_off(12, &sb, &mut disk).unwrap();
    assert_eq!(single, Some(41));
    let n = 1024 / 4;
    let double = inode.get_content_block_off(12 + n, &sb, &mut disk).unwrap();
    assert_eq!(double, Some(42));
}

fn write_le32(disk: &mut RamDisk, off: u64, v: u32) {
    kernel_core::device::DeviceHandle::write(disk, off, &v.to_le_bytes()).unwrap();
}

#[test]
fn ext2_inode_modes() {
    let inode = Ext2INode {
        mode: 0x41ed,
        uid: 0,
        size_low: 7,
        ctime: 0,
        mtime: 0,
        atime: 0,
        dtime: 0,
        gid: 0,
        hard_links_count: 1,
        used_sectors: 0,
        flags: 0,
        direct_block_ptrs: vec![0; 12],
        singly_indirect_block_ptr: 0,
        doubly_indirect_block_ptr: 0,
        triply_indirect_block_ptr: 0,
        size_high: 0,
    };
    assert!(matches!(inode.get_type(), FileType::Directory));
    assert_eq!(inode.get_permissions(), 0o755);
}

#[test]
fn syscall_fd_table() {
    let mut proc = root_proc();
    proc.fds.push(Some(OpenFile { node: 1, flags: 0 }));
    proc.fds.push(None);
    assert_eq!(getppid(&proc), 0);
    assert_eq!(dup2(&mut proc, 0, 1), 1);
    assert_eq!(close(&mut proc, 1), 0);
    assert_eq!(close(&mut proc, 1), -kernel_core::errno::EBADF);
    assert_eq!(close(&mut proc, 9), -kernel_core::errno::EBADF);
}

#[test]
fn sethostname_rules() {
    let mut proc = root_proc();
    assert_eq!(sethostname(&mut proc, b"box"), 0);
    assert_eq!(proc.hostname.as_slice(), b"box");
    let long = vec![b'h'; 100];
    assert_eq!(sethostname(&mut proc, &long), -kernel_core::errno::EINVAL);
    proc.ap.privileged = false;
    assert_eq!(sethostname(&mut proc, b"nope"), -EPERM);
    assert_eq!(proc.hostname.as_slice(), b"box");
}

#[test]
fn madt_entries() {
    let mut bytes = vec![0u8; ENTRIES_OFF];
    bytes[0x24..0x28].copy_from_slice(&0xfee00000u32.to_le_bytes());
    bytes[0x28..0x2c].copy_from_slice(&1u32.to_le_bytes());
    // one processor entry: type, length, processor id, APIC id, flags
    bytes.extend_from_slice(&[ENTRY_PROCESSOR_LOCAL_APIC, 8, 1, 2, 1, 0, 0, 0]);
    let madt = Madt::parse(&bytes).unwrap();
    assert_eq!(madt.local_apic_addr, 0xfee00000);
    let entries = madt.entries();
    assert_eq!(entries.len(), 1);
    let (off, h) = entries[0];
    assert_eq!(h.get_type(), ENTRY_PROCESSOR_LOCAL_APIC);
    let cpu = madt.processor_entry_at(off).unwrap();
    assert_eq!(cpu.apic_id, 2);
    assert_eq!(cpu.flags, 1);
}

#[test]
fn pci_scan_and_decode() {
    let mut regs = vec![0u32; 16];
    regs[0] = 0x12348086;
    regs[2] = 0x01020300;
    regs[3] = 0x00000000;
    regs[15] = 0x00000100;
    let func = PciFunction { bus: 0, device: 3, function: 0, regs, bar_masks: vec![0xfffff000; 6] };
    let space = PciConfigSpace { funcs: vec![func] };
    let mut mgr = PCIManager::new();
    mgr.scan(&space);
    let devices = mgr.get_devices();
    assert_eq!(devices.len(), 1);
    let d = &devices[0];
    assert_eq!(d.vendor_id, 0x8086);
    assert_eq!(d.device_id, 0x1234);
    assert_eq!(d.class, 0x01);
    assert_eq!(d.get_header_type(), 0);
    assert_eq!(d.get_bar_size(0, false, &space), Some(0x1000));
    assert_eq!(d.get_interrupt_pin(&space), Some(1));
    let decoded = PCIDevice::new(0, 3, 0, &[0x12348086, 0, 0x01020300, 0]);
    assert_eq!(decoded.get_bus(), 0);
    assert_eq!(decoded.get_device(), 3);
    assert_eq!(decoded.get_function(), 0);
}

#[test]
fn device_registry_ordering() {
    assert_eq!(makedev(8, 1), 0x801);
    assert_eq!(major(0x801), 8);
    assert_eq!(minor(0x801), 1);
    let mut reg: DeviceRegistry<RamDisk> = DeviceRegistry::new();
    let mk = |maj: u32, min: u32| {
        Device::new(
            maj,
            min,
            PathBuf::root(),
            0o660,
            DeviceType::Block,
            RamDisk::new(512, 1),
        )
    };
    reg.register_device(mk(8, 2));
    reg.register_device(mk(8, 0));
    reg.register_device(mk(8, 1));
    assert_eq!(reg.len(), 3);
}

#[test]
fn memspace_fault_handling() {
    let mut space = MemSpace::new();
    // a fault in a gap is a segmentation fault
    assert!(matches!(space.handle_fault(5, true), FaultOutcome::Segv));
    let flags = MAPPING_FLAG_USER | MAPPING_FLAG_WRITE;
    let page = space.map(MapConstraint::NoConstraint, 1, flags, None).unwrap();
    // a fork marks the writable private page copy-on-write
    let child = space.fork();
    assert!(matches!(space.handle_fault(page, true), FaultOutcome::Unshared));
    // after unsharing, the write goes through again
    space.write_bytes(page * PAGE_SIZE, &[1, 2, 3]).unwrap();
    drop(child);
}

#[test]
fn mmap_syscall_alignment_and_hint() {
    let mut space = MemSpace::new();
    // unaligned length
    assert!(do_mmap(&mut space, 0, 100, PROT_READ, 0, None, 0).is_err());
    let flags = get_flags(0, PROT_READ | PROT_WRITE);
    assert_eq!(flags, MAPPING_FLAG_USER | MAPPING_FLAG_WRITE);
    let a = do_mmap(&mut space, 0, 2 * PAGE_SIZE, PROT_READ | PROT_WRITE, 0, None, 0).unwrap();
    assert_eq!(a % PAGE_SIZE, 0);
    // a hint inside the fresh mapping falls back to another gap
    let b = do_mmap(&mut space, a, PAGE_SIZE, PROT_READ, 0, None, 0).unwrap();
    assert_ne!(a, b);
}

#[test]
fn stat_calls_report_metadata() {
    let mut vfs = Vfs::new();
    let mut proc = root_proc();
    let id = vfs.create(b"/f", 0o640, 0, &proc.ap, 0).unwrap();
    proc.fds.push(Some(OpenFile { node: id, flags: 0 }));
    let st = fstat64(&vfs, &proc, 0).unwrap();
    assert_eq!(st.st_ino, id);
    assert_eq!(st.st_nlink, 1);
    assert_eq!(st.st_mode & 0xfff, 0o640);
    assert_eq!(st.st_mode & 0xf000, 0x8000);
    let st2 = statx(&vfs, &proc, b"/f", true).unwrap();
    assert_eq!(st2.st_ino, id);
    assert!(fstat64(&vfs, &proc, 9).is_err());
}

#[test]
fn ext2_dirent_name_length_rules() {
    let mut disk = RamDisk::new(1024, 64);
    let t = Ext2FsType {};
    let sb = t.create_filesystem(&mut disk, 1000).unwrap();
    let e = DirectoryEntry {
        inode: 0,
        total_size: 16,
        name_length_lo: 5,
        name_length_hi: 1,
        name: Vec::new(),
    };
    // without the type-field feature both length bytes count
    assert_eq!(e.get_name_length(&sb), 256 + 5);
    assert!(e.is_free());
}

#[test]
fn unlink_frees_last_record() {
    // dropping the last name of a file removes its record from the table
    let mut vfs = Vfs::new();
    let proc = root_proc();
    let id = vfs.create(b"/gone", 0o644, 0, &proc.ap, 0).unwrap();
    let before = vfs.nodes.len();
    assert_eq!(kernel_core::syscall::unlink(&mut vfs, &proc, b"/gone"), 0);
    assert_eq!(vfs.nodes.len(), before - 1);
    assert!(vfs.nodes.iter().all(|n| n.id != id));
    assert!(vfs.resolve(b"/gone", 0, true).is_err());
}

#[test]
fn rmdir_frees_record() {
    // removing an empty directory frees its record and the parent's entry
    let mut vfs = Vfs::new();
    let proc = root_proc();
    assert_eq!(kernel_core::syscall::mkdir(&mut vfs, &proc, b"/sub", 0o755), 0);
    let before = vfs.nodes.len();
    assert_eq!(kernel_core::syscall::rmdir(&mut vfs, &proc, b"/sub"), 0);
    assert_eq!(vfs.nodes.len(), before - 1);
    assert!(vfs.resolve(b"/sub", 0, true).is_err());
}

#[test]
fn dotdot_of_root_is_root() {
    // a leading parent step in an absolute path stays at the root
    let mut vfs = Vfs::new();
    let proc = root_proc();
    assert_eq!(kernel_core::syscall::mkdir(&mut vfs, &proc, b"/top", 0o755), 0);
    let direct = vfs.resolve(b"/top", 0, true).unwrap();
    let via_dots = vfs.resolve(b"/../top", 0, true).unwrap();
    assert_eq!(direct, via_dots);
}

#[test]
fn relative_dotdot_resolves_to_parent() {
    // from a subdirectory, a parent step lands in the directory above it
    let mut vfs = Vfs::new();
    let proc = root_proc();
    assert_eq!(kernel_core::syscall::mkdir(&mut vfs, &proc, b"/a", 0o755), 0);
    assert_eq!(kernel_core::syscall::mkdir(&mut vfs, &proc, b"/a/b", 0o755), 0);
    assert_eq!(kernel_core::syscall::mkdir(&mut vfs, &proc, b"/peer", 0o755), 0);
    let cwd = vfs.resolve(b"/a/b", 0, true).unwrap();
    let via = vfs.resolve(b"../../peer", cwd, true).unwrap();
    let direct = vfs.resolve(b"/peer", 0, true).unwrap();
    assert_eq!(via, direct);
}

#[test]
fn ext2_long_name_without_type_feature() {
    // without the directory-type feature both header bytes carry the
    // name's length, so a 300-byte name in a one-kibibyte block is stored
    // and found again
    let mut disk = RamDisk::new(1024, 2048);
    let t = Ext2FsType {};
    let sb = t.create_filesystem(&mut disk, 1000).unwrap();
    assert_eq!(sb.required_features & 0x2, 0);
    let mut dir = Ext2INode::read(2, &sb, &mut disk).unwrap();
    // give the directory one data block holding a single free slot
    dir.size_low = 1024;
    dir.direct_block_ptrs[0] = 20;
    write_le32(&mut disk, 20 * 1024, 0);
    write_le32(&mut disk, 20 * 1024 + 4, 1024);
    let long_name = vec![b'n'; 300];
    dir.add_dirent(&sb, &mut disk, 12, &long_name, FileType::Regular).unwrap();
    let hit = dir.get_directory_entry(&long_name, &sb, &mut disk).unwrap().unwrap();
    assert_eq!(hit.1.inode, 12);
    assert_eq!(hit.1.name.as_slice(), long_name.as_slice());
    // a name too large for one block is refused
    let huge = vec![b'x'; 1020];
    assert_eq!(
        dir.add_dirent(&sb, &mut disk, 13, &huge, FileType::Regular).unwrap_err(),
        kernel_core::errno::ENAMETOOLONG
    );
}

#[test]
fn create_filesystem_small_device() {
    // a device holding the superblock but no full block group still
    // formats; one under two kibibytes cannot
    let mut small = RamDisk::new(1024, 16);
    let t = Ext2FsType {};
    let sb = t.create_filesystem(&mut small, 7).unwrap();
    assert_eq!(sb.total_blocks, 16);
    assert_eq!(sb.total_inodes, 0);
    let mut tiny = RamDisk::new(512, 2);
    assert!(t.create_filesystem(&mut tiny, 7).is_err());
}
