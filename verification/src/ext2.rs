//! The ext2 on-disk engine.
//!
//! The filesystem's structures are read and written bit-exactly, every
//! multi-byte value little-endian: the superblock at its fixed offset, the
//! block group descriptor table, the inodes with their direct and indirect
//! block pointers, and the directory entries packed into blocks.

use vstd::prelude::*;

use crate::device::DeviceHandle;
use crate::errno::{Errno, EINVAL, ENAMETOOLONG, ENOSPC};
use crate::madt::{spec_u16_at, spec_u32_at};

verus! {

/// The byte offset of the superblock on the device.
pub const SUPERBLOCK_OFFSET: u64 = 1024;
/// The filesystem's signature.
pub const EXT2_SIGNATURE: u16 = 0xef53;
/// The number of direct block pointers of an inode.
pub const DIRECT_BLOCKS_COUNT: usize = 12;
/// The inode of the root directory.
pub const ROOT_DIRECTORY_INODE: u32 = 2;

/// Default filesystem major version.
pub const DEFAULT_MAJOR: u32 = 1;
/// Default filesystem minor version.
pub const DEFAULT_MINOR: u16 = 1;
/// Default block size in bytes.
pub const DEFAULT_BLOCK_SIZE: u64 = 1024;
/// Default inode size in bytes.
pub const DEFAULT_INODE_SIZE: u16 = 128;
/// Default number of inodes per block group.
pub const DEFAULT_INODES_PER_GROUP: u32 = 1024;
/// Default number of blocks per block group.
pub const DEFAULT_BLOCKS_PER_GROUP: u32 = 1024;
/// Default number of mounts between consistency checks.
pub const DEFAULT_MOUNT_COUNT_BEFORE_FSCK: u16 = 1000;
/// Default interval between consistency checks, in seconds.
pub const DEFAULT_FSCK_INTERVAL: u32 = 16070400;

/// Write-required feature: 64-bit file sizes.
pub const WRITE_REQUIRED_64_BITS: u32 = 0x2;
/// Required feature: directory entries carry a type field.
pub const REQUIRED_FEATURE_DIRECTORY_TYPE: u32 = 0x2;

/// Inode type bits: first-in, first-out pipe.
pub const INODE_TYPE_FIFO: u16 = 0x1000;
/// Inode type bits: character device.
pub const INODE_TYPE_CHAR_DEVICE: u16 = 0x2000;
/// Inode type bits: directory.
pub const INODE_TYPE_DIRECTORY: u16 = 0x4000;
/// Inode type bits: block device.
pub const INODE_TYPE_BLOCK_DEVICE: u16 = 0x6000;
/// Inode type bits: regular file.
pub const INODE_TYPE_REGULAR: u16 = 0x8000;
/// Inode type bits: symbolic link.
pub const INODE_TYPE_SYMLINK: u16 = 0xa000;
/// Inode type bits: socket.
pub const INODE_TYPE_SOCKET: u16 = 0xc000;

/// The type of a file.
#[derive(Clone, Copy, Debug, PartialEq, Eq, Structural)]
pub enum FileType {
    /// A regular file.
    Regular,
    /// A directory.
    Directory,
    /// A named pipe.
    Fifo,
    /// A socket.
    Socket,
    /// A block device.
    BlockDevice,
    /// A character device.
    CharDevice,
    /// A symbolic link.
    Link,
}

/// Reads the little-endian 16-bit word at byte `off` of the device.
fn read_u16<D: DeviceHandle>(io: &mut D, off: u64) -> (r: Result<u16, Errno>)
    ensures
        final(io).spec_data() == old(io).spec_data(),
        match r {
            Ok(v) => off + 2 <= old(io).spec_data().len() && v == spec_u16_at(
                old(io).spec_data(),
                off as int,
            ),
            Err(_) => off + 2 > old(io).spec_data().len(),
        },
{
    let bytes = io.read(off, 2)?;
    Ok((bytes[0] as u16) + (bytes[1] as u16) * 0x100)
}

/// Reads the little-endian 32-bit word at byte `off` of the device.
fn read_u32<D: DeviceHandle>(io: &mut D, off: u64) -> (r: Result<u32, Errno>)
    ensures
        final(io).spec_data() == old(io).spec_data(),
        match r {
            Ok(v) => off + 4 <= old(io).spec_data().len() && v == spec_u32_at(
                old(io).spec_data(),
                off as int,
            ),
            Err(_) => off + 4 > old(io).spec_data().len(),
        },
{
    let bytes = io.read(off, 4)?;
    Ok((bytes[0] as u32) + (bytes[1] as u32) * 0x100 + (bytes[2] as u32) * 0x10000 + (
    bytes[3] as u32) * 0x1000000)
}

/// Writes a little-endian 16-bit word at byte `off` of the device.
fn write_u16<D: DeviceHandle>(io: &mut D, off: u64, v: u16) -> (r: Result<(), Errno>)
    ensures
        match r {
            Ok(()) => {
                &&& off + 2 <= old(io).spec_data().len()
                &&& final(io).spec_data().len() == old(io).spec_data().len()
                &&& spec_u16_at(final(io).spec_data(), off as int) == v
                &&& forall|k: int|
                    0 <= k < old(io).spec_data().len() && !(off <= k < off + 2) ==> final(io).spec_data()[k] == old(io).spec_data()[k]
            },
            Err(_) => off + 2 > old(io).spec_data().len() && final(io).spec_data() == old(io).spec_data(),
        },
{
    let mut buf: Vec<u8> = Vec::new();
    buf.push((v % 256) as u8);
    buf.push((v / 256) as u8);
    let r = io.write(off, buf.as_slice());
    match r {
        Ok(()) => {
            proof {
                assert(final(io).spec_data()[off as int] == v % 256);
                assert(final(io).spec_data()[off + 1] == v / 256);
            }
            Ok(())
        }
        Err(e) => Err(e),
    }
}

/// Writes a little-endian 32-bit word at byte `off` of the device.
fn write_u32<D: DeviceHandle>(io: &mut D, off: u64, v: u32) -> (r: Result<(), Errno>)
    ensures
        match r {
            Ok(()) => {
                &&& off + 4 <= old(io).spec_data().len()
                &&& final(io).spec_data().len() == old(io).spec_data().len()
                &&& spec_u32_at(final(io).spec_data(), off as int) == v
                &&& forall|k: int|
                    0 <= k < old(io).spec_data().len() && !(off <= k < off + 4) ==> final(io).spec_data()[k] == old(io).spec_data()[k]
            },
            Err(_) => off + 4 > old(io).spec_data().len() && final(io).spec_data() == old(io).spec_data(),
        },
{
    let mut buf: Vec<u8> = Vec::new();
    buf.push((v % 256) as u8);
    buf.push((v / 256 % 256) as u8);
    buf.push((v / 65536 % 256) as u8);
    buf.push((v / 16777216) as u8);
    let r = io.write(off, buf.as_slice());
    match r {
        Ok(()) => {
            proof {
                assert(final(io).spec_data()[off as int] == v % 256);
                assert(final(io).spec_data()[off + 1] == v / 256 % 256);
                assert(final(io).spec_data()[off + 2] == v / 65536 % 256);
                assert(final(io).spec_data()[off + 3] == v / 16777216);
                assert(spec_u32_at(final(io).spec_data(), off as int) == v) by {
                    assert(v == v % 256 + (v / 256 % 256) * 0x100 + (v / 65536 % 256) * 0x10000 + (
                    v / 16777216) * 0x1000000) by (nonlinear_arith);
                }
            }
            Ok(())
        }
        Err(e) => Err(e),
    }
}

/// The ext2 superblock: the fields the engine reads and writes, each at
/// its fixed offset from the superblock's start.
pub struct Superblock {
    /// Total number of inodes.
    pub total_inodes: u32,
    /// Total number of blocks.
    pub total_blocks: u32,
    /// Total number of unallocated blocks.
    pub total_unallocated_blocks: u32,
    /// Total number of unallocated inodes.
    pub total_unallocated_inodes: u32,
    /// The block holding the superblock.
    pub superblock_block_number: u32,
    /// log2 of the block size, minus ten.
    pub block_size_log: u32,
    /// log2 of the fragment size, minus ten.
    pub fragment_size_log: u32,
    /// The number of blocks per block group.
    pub blocks_per_group: u32,
    /// The number of inodes per block group.
    pub inodes_per_group: u32,
    /// The number of mounts since the last consistency check.
    pub mount_count_since_fsck: u16,
    /// The number of mounts allowed between consistency checks.
    pub mount_count_before_fsck: u16,
    /// The filesystem's signature.
    pub signature: u16,
    /// The minor version.
    pub minor_version: u16,
    /// The timestamp of the last consistency check.
    pub last_fsck_timestamp: u32,
    /// The interval between mandatory consistency checks.
    pub fsck_interval: u32,
    /// The major version.
    pub major_version: u32,
    /// The first non-reserved inode.
    pub first_non_reserved_inode: u32,
    /// The size of an inode structure, under revision one and later.
    pub inode_size: u16,
    /// The features required to read the filesystem.
    pub required_features: u32,
    /// The features required to write the filesystem.
    pub write_required_features: u32,
}

impl Superblock {
    /// The shape the engine works with: a block size of at most 64 KiB and
    /// a non-degenerate geometry.
    pub open spec fn wf(&self) -> bool {
        &&& self.block_size_log <= 6
        &&& self.inodes_per_group > 0
        &&& self.blocks_per_group > 0
        &&& self.inode_size >= 128
    }

    /// Reads the superblock from the device.
    pub fn read<D: DeviceHandle>(io: &mut D) -> (r: Result<Superblock, Errno>)
        ensures
            final(io).spec_data() == old(io).spec_data(),
            match r {
                Ok(sb) => {
                    let d = old(io).spec_data();
                    &&& d.len() >= 2048
                    &&& sb.total_inodes == spec_u32_at(d, 1024)
                    &&& sb.total_blocks == spec_u32_at(d, 1028)
                    &&& sb.total_unallocated_blocks == spec_u32_at(d, 1036)
                    &&& sb.total_unallocated_inodes == spec_u32_at(d, 1040)
                    &&& sb.superblock_block_number == spec_u32_at(d, 1044)
                    &&& sb.block_size_log == spec_u32_at(d, 1048)
                    &&& sb.fragment_size_log == spec_u32_at(d, 1052)
                    &&& sb.blocks_per_group == spec_u32_at(d, 1056)
                    &&& sb.inodes_per_group == spec_u32_at(d, 1064)
                    &&& sb.mount_count_since_fsck == spec_u16_at(d, 1076)
                    &&& sb.mount_count_before_fsck == spec_u16_at(d, 1078)
                    &&& sb.signature == spec_u16_at(d, 1080)
                    &&& sb.minor_version == spec_u16_at(d, 1086)
                    &&& sb.last_fsck_timestamp == spec_u32_at(d, 1088)
                    &&& sb.fsck_interval == spec_u32_at(d, 1092)
                    &&& sb.major_version == spec_u32_at(d, 1100)
                    &&& sb.first_non_reserved_inode == spec_u32_at(d, 1108)
                    &&& sb.inode_size == spec_u16_at(d, 1112)
                    &&& sb.required_features == spec_u32_at(d, 1120)
                    &&& sb.write_required_features == spec_u32_at(d, 1124)
                },
                Err(_) => old(io).spec_data().len() < 2048,
            },
    {
        let size = io.get_size();
        if size < 2048 {
            return Err(EINVAL);
        }
        let total_inodes = read_u32(io, 1024)?;
        let total_blocks = read_u32(io, 1028)?;
        let total_unallocated_blocks = read_u32(io, 1036)?;
        let total_unallocated_inodes = read_u32(io, 1040)?;
        let superblock_block_number = read_u32(io, 1044)?;
        let block_size_log = read_u32(io, 1048)?;
        let fragment_size_log = read_u32(io, 1052)?;
        let blocks_per_group = read_u32(io, 1056)?;
        let inodes_per_group = read_u32(io, 1064)?;
        let mount_count_since_fsck = read_u16(io, 1076)?;
        let mount_count_before_fsck = read_u16(io, 1078)?;
        let signature = read_u16(io, 1080)?;
        let minor_version = read_u16(io, 1086)?;
        let last_fsck_timestamp = read_u32(io, 1088)?;
        let fsck_interval = read_u32(io, 1092)?;
        let major_version = read_u32(io, 1100)?;
        let first_non_reserved_inode = read_u32(io, 1108)?;
        let inode_size = read_u16(io, 1112)?;
        let required_features = read_u32(io, 1120)?;
        let write_required_features = read_u32(io, 1124)?;
        Ok(Superblock {
            total_inodes,
            total_blocks,
            total_unallocated_blocks,
            total_unallocated_inodes,
            superblock_block_number,
            block_size_log,
            fragment_size_log,
            blocks_per_group,
            inodes_per_group,
            mount_count_since_fsck,
            mount_count_before_fsck,
            signature,
            minor_version,
            last_fsck_timestamp,
            fsck_interval,
            major_version,
            first_non_reserved_inode,
            inode_size,
            required_features,
            write_required_features,
        })
    }

    /// Tells whether the superblock is valid: it carries the signature.
    pub fn is_valid(&self) -> (r: bool)
        ensures
            r == (self.signature == EXT2_SIGNATURE),
    {
        self.signature == EXT2_SIGNATURE
    }

    /// Returns the size of a block in bytes: two to the power of the
    /// stored logarithm plus ten.
    pub fn get_block_size(&self) -> (r: u64)
        requires
            self.wf(),
        ensures
            r == spec_block_size(*self),
            1024 <= r <= 65536,
    {
        let mut r: u64 = 1024;
        let mut k: u32 = 0;
        proof {
            vstd::arithmetic::power2::lemma2_to64();
        }
        while k < self.block_size_log
            invariant
                k <= self.block_size_log,
                self.block_size_log <= 6,
                r == 1024 * vstd::arithmetic::power2::pow2(k as nat),
                r <= 65536,
            decreases self.block_size_log - k,
        {
            proof {
                vstd::arithmetic::power2::lemma_pow2_unfold((k + 1) as nat);
                vstd::arithmetic::power2::lemma2_to64();
                vstd::arithmetic::power2::lemma_pow2_strictly_increases(k as nat, 6);
                assert(r * 2 == 1024 * (2 * vstd::arithmetic::power2::pow2(k as nat)))
                    by (nonlinear_arith)
                    requires r == 1024 * vstd::arithmetic::power2::pow2(k as nat);
                assert(vstd::arithmetic::power2::pow2((k + 1) as nat) <= 64)
                    by {
                    if k + 1 < 6 {
                        vstd::arithmetic::power2::lemma_pow2_strictly_increases((k + 1) as nat, 6);
                    }
                }
                assert(1024 * vstd::arithmetic::power2::pow2((k + 1) as nat) <= 65536)
                    by (nonlinear_arith)
                    requires vstd::arithmetic::power2::pow2((k + 1) as nat) <= 64;
            }
            r = r * 2;
            k += 1;
        }
        proof {
            vstd::arithmetic::power2::lemma2_to64();
        }
        r
    }

    /// Returns the size of a fragment in bytes.
    pub fn get_fragment_size(&self) -> (r: u64)
        requires
            self.fragment_size_log <= 6,
        ensures
            1024 <= r <= 65536,
    {
        let mut r: u64 = 1024;
        let mut k: u32 = 0;
        proof {
            vstd::arithmetic::power2::lemma2_to64();
        }
        while k < self.fragment_size_log
            invariant
                k <= self.fragment_size_log,
                self.fragment_size_log <= 6,
                1024 <= r,
                r <= 1024 * vstd::arithmetic::power2::pow2(k as nat),
                r <= 65536,
            decreases self.fragment_size_log - k,
        {
            proof {
                vstd::arithmetic::power2::lemma_pow2_unfold((k + 1) as nat);
                vstd::arithmetic::power2::lemma2_to64();
                assert(r * 2 <= 1024 * (2 * vstd::arithmetic::power2::pow2(k as nat)))
                    by (nonlinear_arith)
                    requires r <= 1024 * vstd::arithmetic::power2::pow2(k as nat);
                assert(vstd::arithmetic::power2::pow2((k + 1) as nat) <= 64) by {
                    if k + 1 < 6 {
                        vstd::arithmetic::power2::lemma_pow2_strictly_increases((k + 1) as nat, 6);
                    }
                }
                assert(1024 * vstd::arithmetic::power2::pow2((k + 1) as nat) <= 65536)
                    by (nonlinear_arith)
                    requires vstd::arithmetic::power2::pow2((k + 1) as nat) <= 64;
            }
            r = r * 2;
            k += 1;
        }
        r
    }

    /// Writes the superblock's fields back at their offsets; every other
    /// device byte is untouched.
    pub fn write<D: DeviceHandle>(&self, io: &mut D) -> (r: Result<(), Errno>)
        ensures
            match r {
                Ok(()) => {
                    let d = final(io).spec_data();
                    &&& d.len() == old(io).spec_data().len()
                    &&& old(io).spec_data().len() >= 2048
                    &&& spec_u32_at(d, 1024) == self.total_inodes
                    &&& spec_u32_at(d, 1028) == self.total_blocks
                    &&& spec_u32_at(d, 1036) == self.total_unallocated_blocks
                    &&& spec_u32_at(d, 1040) == self.total_unallocated_inodes
                    &&& spec_u32_at(d, 1044) == self.superblock_block_number
                    &&& spec_u32_at(d, 1048) == self.block_size_log
                    &&& spec_u32_at(d, 1052) == self.fragment_size_log
                    &&& spec_u32_at(d, 1056) == self.blocks_per_group
                    &&& spec_u32_at(d, 1064) == self.inodes_per_group
                    &&& spec_u16_at(d, 1076) == self.mount_count_since_fsck
                    &&& spec_u16_at(d, 1078) == self.mount_count_before_fsck
                    &&& spec_u16_at(d, 1080) == self.signature
                    &&& spec_u16_at(d, 1086) == self.minor_version
                    &&& spec_u32_at(d, 1088) == self.last_fsck_timestamp
                    &&& spec_u32_at(d, 1092) == self.fsck_interval
                    &&& spec_u32_at(d, 1100) == self.major_version
                    &&& spec_u32_at(d, 1108) == self.first_non_reserved_inode
                    &&& spec_u16_at(d, 1112) == self.inode_size
                    &&& spec_u32_at(d, 1120) == self.required_features
                    &&& spec_u32_at(d, 1124) == self.write_required_features
                    &&& forall|k: int|
                        0 <= k < old(io).spec_data().len() && !spec_sb_byte(k) ==> d[k] == old(
                            io,
                        ).spec_data()[k]
                },
                Err(_) => old(io).spec_data().len() < 2048 && final(io).spec_data() == old(
                    io,
                ).spec_data(),
            },
    {
        let size = io.get_size();
        if size < 2048 {
            return Err(EINVAL);
        }
        write_u32(io, 1024, self.total_inodes)?;
        write_u32(io, 1028, self.total_blocks)?;
        write_u32(io, 1036, self.total_unallocated_blocks)?;
        write_u32(io, 1040, self.total_unallocated_inodes)?;
        write_u32(io, 1044, self.superblock_block_number)?;
        write_u32(io, 1048, self.block_size_log)?;
        write_u32(io, 1052, self.fragment_size_log)?;
        write_u32(io, 1056, self.blocks_per_group)?;
        write_u32(io, 1064, self.inodes_per_group)?;
        write_u16(io, 1076, self.mount_count_since_fsck)?;
        write_u16(io, 1078, self.mount_count_before_fsck)?;
        write_u16(io, 1080, self.signature)?;
        write_u16(io, 1086, self.minor_version)?;
        write_u32(io, 1088, self.last_fsck_timestamp)?;
        write_u32(io, 1092, self.fsck_interval)?;
        write_u32(io, 1100, self.major_version)?;
        write_u32(io, 1108, self.first_non_reserved_inode)?;
        write_u16(io, 1112, self.inode_size)?;
        write_u32(io, 1120, self.required_features)?;
        write_u32(io, 1124, self.write_required_features)?;
        Ok(())
    }
}

/// The device offset of inode slot `i`: the group's inode table start,
/// read from the descriptor table, plus the slot's place in the group.
pub open spec fn spec_inode_disk_off(i: u32, sb: Superblock, d: Seq<u8>) -> int {
    let grp = (i - 1) as int / sb.inodes_per_group as int;
    let slot = (i - 1) as int % sb.inodes_per_group as int;
    let table_off = spec_bgdt_block(sb) * spec_block_size(sb) + grp * 32 + 8;
    spec_u32_at(d, table_off) * spec_block_size(sb) + slot * spec_inode_size(sb)
}

/// Whether byte `k` of the device belongs to a stored field of the inode
/// slot starting at `off`.
pub open spec fn spec_inode_byte(k: int, off: int) -> bool {
    ||| off <= k < off + 36
    ||| off + 40 <= k < off + 100
    ||| off + 108 <= k < off + 112
}

/// Whether byte `k` of the device belongs to a superblock field that
/// writing the superblock stores.
pub open spec fn spec_sb_byte(k: int) -> bool {
    ||| 1024 <= k < 1032
    ||| 1036 <= k < 1060
    ||| 1064 <= k < 1068
    ||| 1076 <= k < 1082
    ||| 1086 <= k < 1096
    ||| 1100 <= k < 1104
    ||| 1108 <= k < 1114
    ||| 1120 <= k < 1128
}

/// The block size a superblock declares.
pub open spec fn spec_block_size(sb: Superblock) -> int {
    1024 * (vstd::arithmetic::power2::pow2(sb.block_size_log as nat) as int)
}


/// The block at which the block group descriptor table starts: block two
/// for one-kibibyte blocks, block one otherwise.
pub open spec fn spec_bgdt_block(sb: Superblock) -> int {
    if spec_block_size(sb) == 1024 {
        2
    } else {
        1
    }
}

/// A block group descriptor.
#[derive(Clone, Copy, Debug, PartialEq, Eq, Structural)]
pub struct BlockGroupDescriptor {
    /// The block of the block usage bitmap.
    pub block_usage_bitmap_addr: u32,
    /// The block of the inode usage bitmap.
    pub inode_usage_bitmap_addr: u32,
    /// The first block of the inode table.
    pub inode_table_start_addr: u32,
    /// The number of unallocated blocks in the group.
    pub unallocated_blocks_number: u16,
    /// The number of unallocated inodes in the group.
    pub unallocated_inodes_number: u16,
    /// The number of directories in the group.
    pub directories_number: u16,
}

impl BlockGroupDescriptor {
    /// Reads the `i`th block group descriptor: thirty-two bytes at its
    /// slot in the descriptor table.
    pub fn read<D: DeviceHandle>(i: u32, superblock: &Superblock, io: &mut D) -> (r: Result<
        BlockGroupDescriptor,
        Errno,
    >)
        requires
            superblock.wf(),
        ensures
            final(io).spec_data() == old(io).spec_data(),
            match r {
                Ok(bgd) => {
                    let off = spec_bgdt_block(*superblock) * spec_block_size(*superblock) + i * 32;
                    &&& off + 18 <= old(io).spec_data().len()
                    &&& bgd.block_usage_bitmap_addr == spec_u32_at(old(io).spec_data(), off)
                    &&& bgd.inode_usage_bitmap_addr == spec_u32_at(old(io).spec_data(), off + 4)
                    &&& bgd.inode_table_start_addr == spec_u32_at(old(io).spec_data(), off + 8)
                    &&& bgd.unallocated_blocks_number == spec_u16_at(old(io).spec_data(), off + 12)
                    &&& bgd.unallocated_inodes_number == spec_u16_at(old(io).spec_data(), off + 14)
                    &&& bgd.directories_number == spec_u16_at(old(io).spec_data(), off + 16)
                },
                Err(_) => true,
            },
    {
        let bs = superblock.get_block_size();
        let bgdt_block: u64 = if bs == 1024 {
            2
        } else {
            1
        };
        let off = bgdt_block * bs + (i as u64) * 32;
        proof {
            assert(bgdt_block * bs == spec_bgdt_block(*superblock) * spec_block_size(
                *superblock,
            ));
        }
        let block_usage_bitmap_addr = read_u32(io, off)?;
        let inode_usage_bitmap_addr = read_u32(io, off + 4)?;
        let inode_table_start_addr = read_u32(io, off + 8)?;
        let unallocated_blocks_number = read_u16(io, off + 12)?;
        let unallocated_inodes_number = read_u16(io, off + 14)?;
        let directories_number = read_u16(io, off + 16)?;
        Ok(BlockGroupDescriptor {
            block_usage_bitmap_addr,
            inode_usage_bitmap_addr,
            inode_table_start_addr,
            unallocated_blocks_number,
            unallocated_inodes_number,
            directories_number,
        })
    }
}

/// An ext2 inode, as stored on disk.
#[derive(Clone, Debug)]
pub struct Ext2INode {
    /// Type and permissions.
    pub mode: u16,
    /// The owner's user id.
    pub uid: u16,
    /// The low word of the size in bytes.
    pub size_low: u32,
    /// The timestamp of the last metadata change.
    pub ctime: u32,
    /// The timestamp of the last content change.
    pub mtime: u32,
    /// The timestamp of the last access.
    pub atime: u32,
    /// The timestamp of the deletion.
    pub dtime: u32,
    /// The owner's group id.
    pub gid: u16,
    /// The number of hard links to the inode.
    pub hard_links_count: u16,
    /// The number of sectors the inode uses.
    pub used_sectors: u32,
    /// The inode's flags.
    pub flags: u32,
    /// The direct block pointers.
    pub direct_block_ptrs: Vec<u32>,
    /// The singly indirect block pointer.
    pub singly_indirect_block_ptr: u32,
    /// The doubly indirect block pointer.
    pub doubly_indirect_block_ptr: u32,
    /// The triply indirect block pointer.
    pub triply_indirect_block_ptr: u32,
    /// The high word of the size in bytes.
    pub size_high: u32,
}

impl Ext2INode {
    /// Returns the size of an inode structure: the superblock's declared
    /// size from revision one on, 128 bytes before.
    pub fn get_inode_size(superblock: &Superblock) -> (r: u16)
        ensures
            r == spec_inode_size(*superblock),
    {
        if superblock.major_version >= 1 {
            superblock.inode_size
        } else {
            128
        }
    }

    /// Returns the byte offset of inode `i` on the device: the inode lives
    /// in group `(i-1) / inodes_per_group`, at slot `(i-1) %
    /// inodes_per_group` of that group's inode table.
    pub fn get_disk_offset<D: DeviceHandle>(i: u32, superblock: &Superblock, io: &mut D) -> (r:
        Result<u64, Errno>)
        requires
            superblock.wf(),
            i >= 1,
        ensures
            final(io).spec_data() == old(io).spec_data(),
            match r {
                Ok(off) => ({
                    let grp = (i - 1) as int / superblock.inodes_per_group as int;
                    let slot = (i - 1) as int % superblock.inodes_per_group as int;
                    let table_off = spec_bgdt_block(*superblock) * spec_block_size(*superblock)
                        + grp * 32 + 8;
                    &&& off == spec_u32_at(old(io).spec_data(), table_off) * spec_block_size(
                        *superblock,
                    ) + slot * spec_inode_size(*superblock)
                    &&& off < 0x2000000000000
                }),
                Err(_) => true,
            },
    {
        let blk_size = superblock.get_block_size();
        let blk_grp = (i - 1) / superblock.inodes_per_group;
        let inode_off = (i - 1) % superblock.inodes_per_group;
        let inode_size = Ext2INode::get_inode_size(superblock);
        let bgd = BlockGroupDescriptor::read(blk_grp, superblock, io)?;
        proof {
            assert((bgd.inode_table_start_addr as int) * (blk_size as int) <= 0xffffffff
                * 0x10000) by (nonlinear_arith)
                requires bgd.inode_table_start_addr <= 0xffffffff, blk_size <= 0x10000;
            assert((inode_off as int) * (inode_size as int) <= 0xffffffff * 0x10000)
                by (nonlinear_arith)
                requires inode_off <= 0xffffffff, inode_size <= 0x10000;
        }
        Ok(
            (bgd.inode_table_start_addr as u64) * blk_size + (inode_off as u64) * (
            inode_size as u64),
        )
    }

    /// Reads inode `i` from the device; indexes start at one.
    pub fn read<D: DeviceHandle>(i: u32, superblock: &Superblock, io: &mut D) -> (r: Result<
        Ext2INode,
        Errno,
    >)
        requires
            superblock.wf(),
            i >= 1,
        ensures
            final(io).spec_data() == old(io).spec_data(),
            r matches Ok(inode) ==> inode.direct_block_ptrs@.len() == DIRECT_BLOCKS_COUNT,
    {
        let off = Ext2INode::get_disk_offset(i, superblock, io)?;
        let mode = read_u16(io, off)?;
        let uid = read_u16(io, off + 2)?;
        let size_low = read_u32(io, off + 4)?;
        let ctime = read_u32(io, off + 8)?;
        let mtime = read_u32(io, off + 12)?;
        let atime = read_u32(io, off + 16)?;
        let dtime = read_u32(io, off + 20)?;
        let gid = read_u16(io, off + 24)?;
        let hard_links_count = read_u16(io, off + 26)?;
        let used_sectors = read_u32(io, off + 28)?;
        let flags = read_u32(io, off + 32)?;
        let mut direct_block_ptrs: Vec<u32> = Vec::new();
        let mut k: usize = 0;
        while k < DIRECT_BLOCKS_COUNT
            invariant
                k <= DIRECT_BLOCKS_COUNT,
                direct_block_ptrs@.len() == k,
                off < 0x2000000000000,
                io.spec_data() == old(io).spec_data(),
            decreases DIRECT_BLOCKS_COUNT - k,
        {
            let p = read_u32(io, off + 40 + 4 * (k as u64))?;
            direct_block_ptrs.push(p);
            k += 1;
        }
        let singly_indirect_block_ptr = read_u32(io, off + 88)?;
        let doubly_indirect_block_ptr = read_u32(io, off + 92)?;
        let triply_indirect_block_ptr = read_u32(io, off + 96)?;
        let size_high = read_u32(io, off + 108)?;
        Ok(Ext2INode {
            mode,
            uid,
            size_low,
            ctime,
            mtime,
            atime,
            dtime,
            gid,
            hard_links_count,
            used_sectors,
            flags,
            direct_block_ptrs,
            singly_indirect_block_ptr,
            doubly_indirect_block_ptr,
            triply_indirect_block_ptr,
            size_high,
        })
    }

    /// Writes the inode at slot `i`; indexes start at one.
    ///
    /// On success every stored field sits at its offset from the slot's
    /// start and every byte outside the slot's field ranges is untouched.
    pub fn write<D: DeviceHandle>(&self, i: u32, superblock: &Superblock, io: &mut D) -> (r:
        Result<(), Errno>)
        requires
            superblock.wf(),
            i >= 1,
            self.direct_block_ptrs@.len() == DIRECT_BLOCKS_COUNT,
        ensures
            final(io).spec_data().len() == old(io).spec_data().len(),
            r is Ok ==> ({
                let off = spec_inode_disk_off(i, *superblock, old(io).spec_data());
                let d = final(io).spec_data();
                &&& spec_u16_at(d, off) == self.mode
                &&& spec_u16_at(d, off + 2) == self.uid
                &&& spec_u32_at(d, off + 4) == self.size_low
                &&& spec_u32_at(d, off + 8) == self.ctime
                &&& spec_u32_at(d, off + 12) == self.mtime
                &&& spec_u32_at(d, off + 16) == self.atime
                &&& spec_u32_at(d, off + 20) == self.dtime
                &&& spec_u16_at(d, off + 24) == self.gid
                &&& spec_u16_at(d, off + 26) == self.hard_links_count
                &&& spec_u32_at(d, off + 28) == self.used_sectors
                &&& spec_u32_at(d, off + 32) == self.flags
                &&& forall|k: int|
                    0 <= k < DIRECT_BLOCKS_COUNT ==> spec_u32_at(d, off + 40 + 4 * k)
                        == self.direct_block_ptrs@[k]
                &&& spec_u32_at(d, off + 88) == self.singly_indirect_block_ptr
                &&& spec_u32_at(d, off + 92) == self.doubly_indirect_block_ptr
                &&& spec_u32_at(d, off + 96) == self.triply_indirect_block_ptr
                &&& spec_u32_at(d, off + 108) == self.size_high
                &&& forall|k: int|
                    0 <= k < old(io).spec_data().len() && !spec_inode_byte(k, off) ==> d[k] == old(
                        io,
                    ).spec_data()[k]
            }),
    {
        let off = Ext2INode::get_disk_offset(i, superblock, io)?;
        let ghost off0 = off as int;
        let ghost d0 = io.spec_data();
        write_u16(io, off, self.mode)?;
        write_u16(io, off + 2, self.uid)?;
        write_u32(io, off + 4, self.size_low)?;
        write_u32(io, off + 8, self.ctime)?;
        write_u32(io, off + 12, self.mtime)?;
        write_u32(io, off + 16, self.atime)?;
        write_u32(io, off + 20, self.dtime)?;
        write_u16(io, off + 24, self.gid)?;
        write_u16(io, off + 26, self.hard_links_count)?;
        write_u32(io, off + 28, self.used_sectors)?;
        write_u32(io, off + 32, self.flags)?;
        let mut k: usize = 0;
        while k < DIRECT_BLOCKS_COUNT
            invariant
                k <= DIRECT_BLOCKS_COUNT,
                self.direct_block_ptrs@.len() == DIRECT_BLOCKS_COUNT,
                off == off0,
                off < 0x2000000000000,
                io.spec_data().len() == d0.len(),
                spec_u16_at(io.spec_data(), off0) == self.mode,
                spec_u16_at(io.spec_data(), off0 + 2) == self.uid,
                spec_u32_at(io.spec_data(), off0 + 4) == self.size_low,
                spec_u32_at(io.spec_data(), off0 + 8) == self.ctime,
                spec_u32_at(io.spec_data(), off0 + 12) == self.mtime,
                spec_u32_at(io.spec_data(), off0 + 16) == self.atime,
                spec_u32_at(io.spec_data(), off0 + 20) == self.dtime,
                spec_u16_at(io.spec_data(), off0 + 24) == self.gid,
                spec_u16_at(io.spec_data(), off0 + 26) == self.hard_links_count,
                spec_u32_at(io.spec_data(), off0 + 28) == self.used_sectors,
                spec_u32_at(io.spec_data(), off0 + 32) == self.flags,
                forall|j: int|
                    0 <= j < k ==> spec_u32_at(io.spec_data(), off0 + 40 + 4 * j)
                        == self.direct_block_ptrs@[j],
                forall|j: int|
                    0 <= j < d0.len() && !(off0 <= j < off0 + 36) && !(off0 + 40 <= j < off0 + 40
                        + 4 * k) ==> io.spec_data()[j] == d0[j],
            decreases DIRECT_BLOCKS_COUNT - k,
        {
            write_u32(io, off + 40 + 4 * (k as u64), self.direct_block_ptrs[k])?;
            k += 1;
        }
        write_u32(io, off + 88, self.singly_indirect_block_ptr)?;
        write_u32(io, off + 92, self.doubly_indirect_block_ptr)?;
        write_u32(io, off + 96, self.triply_indirect_block_ptr)?;
        write_u32(io, off + 108, self.size_high)?;
        Ok(())
    }

    /// Returns the mode an inode carries for the given file type and
    /// permissions.
    pub fn get_file_mode(file_type: FileType, perms: u16) -> (r: u16)
        ensures
            r == (perms | spec_type_bits(file_type)),
    {
        let t: u16 = match file_type {
            FileType::Fifo => INODE_TYPE_FIFO,
            FileType::CharDevice => INODE_TYPE_CHAR_DEVICE,
            FileType::Directory => INODE_TYPE_DIRECTORY,
            FileType::BlockDevice => INODE_TYPE_BLOCK_DEVICE,
            FileType::Regular => INODE_TYPE_REGULAR,
            FileType::Link => INODE_TYPE_SYMLINK,
            FileType::Socket => INODE_TYPE_SOCKET,
        };
        perms | t
    }

    /// Returns the type of the file: the high four bits of the mode, an
    /// unknown pattern reading as a regular file.
    pub fn get_type(&self) -> (r: FileType)
        ensures
            r == spec_inode_type(self.mode),
    {
        let file_type = self.mode & 0xf000;
        if file_type == INODE_TYPE_FIFO {
            FileType::Fifo
        } else if file_type == INODE_TYPE_CHAR_DEVICE {
            FileType::CharDevice
        } else if file_type == INODE_TYPE_DIRECTORY {
            FileType::Directory
        } else if file_type == INODE_TYPE_BLOCK_DEVICE {
            FileType::BlockDevice
        } else if file_type == INODE_TYPE_REGULAR {
            FileType::Regular
        } else if file_type == INODE_TYPE_SYMLINK {
            FileType::Link
        } else if file_type == INODE_TYPE_SOCKET {
            FileType::Socket
        } else {
            FileType::Regular
        }
    }

    /// Returns the permissions of the file: the low twelve bits of the
    /// mode.
    pub fn get_permissions(&self) -> (r: u16)
        ensures
            r == self.mode & 0xfff,
    {
        self.mode & 0xfff
    }

    /// Returns the size of the file: sixty-four bits from revision one on
    /// when the feature is set, the low word alone otherwise.
    pub fn get_size(&self, superblock: &Superblock) -> (r: u64)
        ensures
            r == spec_inode_file_size(*self, *superblock),
    {
        let has_version = superblock.major_version >= 1;
        let has_feature = superblock.write_required_features & WRITE_REQUIRED_64_BITS != 0;
        if has_version && has_feature {
            (self.size_high as u64) * 0x100000000 + (self.size_low as u64)
        } else {
            self.size_low as u64
        }
    }
}

/// The inode structure size a superblock declares.
pub open spec fn spec_inode_size(sb: Superblock) -> u16 {
    if sb.major_version >= 1 {
        sb.inode_size
    } else {
        128
    }
}

/// The type bits an inode carries for a file type.
pub open spec fn spec_type_bits(t: FileType) -> u16 {
    match t {
        FileType::Fifo => INODE_TYPE_FIFO,
        FileType::CharDevice => INODE_TYPE_CHAR_DEVICE,
        FileType::Directory => INODE_TYPE_DIRECTORY,
        FileType::BlockDevice => INODE_TYPE_BLOCK_DEVICE,
        FileType::Regular => INODE_TYPE_REGULAR,
        FileType::Link => INODE_TYPE_SYMLINK,
        FileType::Socket => INODE_TYPE_SOCKET,
    }
}

/// The file type a mode's high bits stand for.
pub open spec fn spec_inode_type(mode: u16) -> FileType {
    let bits = mode & 0xf000;
    if bits == INODE_TYPE_FIFO {
        FileType::Fifo
    } else if bits == INODE_TYPE_CHAR_DEVICE {
        FileType::CharDevice
    } else if bits == INODE_TYPE_DIRECTORY {
        FileType::Directory
    } else if bits == INODE_TYPE_BLOCK_DEVICE {
        FileType::BlockDevice
    } else if bits == INODE_TYPE_REGULAR {
        FileType::Regular
    } else if bits == INODE_TYPE_SYMLINK {
        FileType::Link
    } else if bits == INODE_TYPE_SOCKET {
        FileType::Socket
    } else {
        FileType::Regular
    }
}

/// The byte size an inode declares for its file.
pub open spec fn spec_inode_file_size(inode: Ext2INode, sb: Superblock) -> u64 {
    if sb.major_version >= 1 && sb.write_required_features & WRITE_REQUIRED_64_BITS != 0 {
        (inode.size_high * 0x100000000 + inode.size_low) as u64
    } else {
        inode.size_low as u64
    }
}


/// One step of indirect resolution: the `idx`th pointer stored in block
/// `blk`, a zero block standing for a hole and resolving to zero.
pub open spec fn spec_resolve1(d: Seq<u8>, bs: int, blk: u32, idx: int) -> u32 {
    if blk == 0 {
        0
    } else {
        spec_u32_at(d, blk * bs + idx * 4)
    }
}

/// The block holding content block `i` of an inode: one of the twelve
/// direct pointers, or one, two or three levels of indirection, each level
/// fanning out over `bs / 4` pointers per block. Zero stands for a hole.
pub open spec fn spec_content_block(d: Seq<u8>, bs: int, inode: Ext2INode, i: int) -> u32 {
    let n = bs / 4;
    if i < 12 {
        inode.direct_block_ptrs@[i]
    } else if i < 12 + n {
        spec_resolve1(d, bs, inode.singly_indirect_block_ptr, i - 12)
    } else if i < 12 + n + n * n {
        spec_resolve1(
            d,
            bs,
            spec_resolve1(d, bs, inode.doubly_indirect_block_ptr, (i - 12 - n) / n),
            (i - 12 - n) % n,
        )
    } else {
        spec_resolve1(
            d,
            bs,
            spec_resolve1(
                d,
                bs,
                spec_resolve1(d, bs, inode.triply_indirect_block_ptr, (i - 12 - n - n * n) / (n
                    * n)),
                (i - 12 - n - n * n) / n % n,
            ),
            (i - 12 - n - n * n) % n,
        )
    }
}

/// The byte at position `pos` of an inode's content: the byte of its
/// resolved content block, or zero over a hole.
pub open spec fn spec_content_byte(d: Seq<u8>, bs: int, inode: Ext2INode, pos: int) -> u8 {
    let b = spec_content_block(d, bs, inode, pos / bs);
    if b == 0 {
        0
    } else {
        d[b * bs + pos % bs]
    }
}

impl Ext2INode {
    /// Resolves one level of indirection: reads the `idx`th pointer of
    /// block `blk`.
    fn resolve1<D: DeviceHandle>(
        blk: u32,
        idx: u64,
        superblock: &Superblock,
        io: &mut D,
    ) -> (r: Result<u32, Errno>)
        requires
            superblock.wf(),
            idx < spec_block_size(*superblock) / 4,
        ensures
            final(io).spec_data() == old(io).spec_data(),
            r matches Ok(v) ==> v == spec_resolve1(
                old(io).spec_data(),
                spec_block_size(*superblock),
                blk,
                idx as int,
            ),
    {
        if blk == 0 {
            return Ok(0);
        }
        let bs = superblock.get_block_size();
        proof {
            assert((blk as int) * (bs as int) <= 0xffffffff * 0x10000) by (nonlinear_arith)
                requires blk <= 0xffffffff, bs <= 0x10000;
            assert((idx as int) * 4 < bs) by (nonlinear_arith)
                requires idx < (bs as int) / 4, bs >= 0;
        }
        read_u32(io, (blk as u64) * bs + idx * 4)
    }

    /// Returns the block holding content block `i` of the inode, or `None`
    /// over a hole.
    pub fn get_content_block_off<D: DeviceHandle>(
        &self,
        i: u64,
        superblock: &Superblock,
        io: &mut D,
    ) -> (r: Result<Option<u32>, Errno>)
        requires
            superblock.wf(),
            self.direct_block_ptrs@.len() == DIRECT_BLOCKS_COUNT,
            ({
                let n = spec_block_size(*superblock) / 4;
                i < 12 + n + n * n + n * n * n
            }),
        ensures
            final(io).spec_data() == old(io).spec_data(),
            r matches Ok(v) ==> ({
                let b = spec_content_block(
                    old(io).spec_data(),
                    spec_block_size(*superblock),
                    *self,
                    i as int,
                );
                v == if b == 0 {
                    Option::<u32>::None
                } else {
                    Option::<u32>::Some(b)
                }
            }),
    {
        let bs = superblock.get_block_size();
        let n = bs / 4;
        proof {
            assert(256 <= n <= 16384);
            assert(n * n <= 16384 * 16384) by (nonlinear_arith)
                requires n <= 16384;
            assert(n * n >= 256 * 256) by (nonlinear_arith)
                requires n >= 256;
        }
        let b: u32 = if i < 12 {
            self.direct_block_ptrs[i as usize]
        } else if i < 12 + n {
            Ext2INode::resolve1(self.singly_indirect_block_ptr, i - 12, superblock, io)?
        } else if i < 12 + n + n * n {
            let idx = i - 12 - n;
            proof {
                let ii = idx as int;
                let nn = n as int;
                assert(ii / nn < nn) by (nonlinear_arith)
                    requires ii < nn * nn, nn > 0;
            }
            let first = Ext2INode::resolve1(
                self.doubly_indirect_block_ptr,
                idx / n,
                superblock,
                io,
            )?;
            Ext2INode::resolve1(first, idx % n, superblock, io)?
        } else {
            let idx = i - 12 - n - n * n;
            proof {
                let ii = idx as int;
                let nn = n as int;
                assert(ii / (nn * nn) < nn) by (nonlinear_arith)
                    requires ii < nn * nn * nn, nn > 0;
                assert(ii / nn % nn < nn) by (nonlinear_arith)
                    requires nn > 0, ii >= 0;
            }
            let first = Ext2INode::resolve1(
                self.triply_indirect_block_ptr,
                idx / (n * n),
                superblock,
                io,
            )?;
            let second = Ext2INode::resolve1(first, idx / n % n, superblock, io)?;
            Ext2INode::resolve1(second, idx % n, superblock, io)?
        };
        if b != 0 {
            Ok(Some(b))
        } else {
            Ok(None)
        }
    }

    /// Reads the inode's content at byte offset `off` into a fresh buffer
    /// of `len` bytes; holes read as zeros.
    ///
    /// Fails with `EINVAL` exactly when the range runs past the file's
    /// size.
    pub fn read_content<D: DeviceHandle>(
        &self,
        off: u64,
        len: usize,
        superblock: &Superblock,
        io: &mut D,
    ) -> (r: Result<Vec<u8>, Errno>)
        requires
            superblock.wf(),
            self.direct_block_ptrs@.len() == DIRECT_BLOCKS_COUNT,
            off + len <= 0x400000000,
        ensures
            final(io).spec_data() == old(io).spec_data(),
            match r {
                Ok(v) => {
                    &&& off + len <= spec_inode_file_size(*self, *superblock)
                    &&& v@.len() == len
                    &&& forall|k: int|
                        0 <= k < len ==> v@[k] == spec_content_byte(
                            old(io).spec_data(),
                            spec_block_size(*superblock),
                            *self,
                            off + k,
                        )
                },
                Err(e) => off + len > spec_inode_file_size(*self, *superblock) ==> e
                    == EINVAL,
            },
    {
        let size = self.get_size(superblock);
        if off > size || len as u64 > size - off {
            return Err(EINVAL);
        }
        let bs = superblock.get_block_size();
        proof {
            let n = spec_block_size(*superblock) / 4;
            assert(n >= 256);
            assert(n * n >= 256 * 256 && n * n * n >= 256 * 256 * 256) by (nonlinear_arith)
                requires n >= 256;
        }
        let mut out: Vec<u8> = Vec::new();
        let mut k: usize = 0;
        while k < len
            invariant
                k <= len,
                off + len <= 0x400000000,
                superblock.wf(),
                self.direct_block_ptrs@.len() == DIRECT_BLOCKS_COUNT,
                bs == spec_block_size(*superblock),
                io.spec_data() == old(io).spec_data(),
                out@.len() == k,
                forall|j: int|
                    0 <= j < k ==> out@[j] == spec_content_byte(
                        old(io).spec_data(),
                        spec_block_size(*superblock),
                        *self,
                        off + j,
                    ),
            decreases len - k,
        {
            let pos = off + k as u64;
            let blk_i = pos / bs;
            let inner = pos % bs;
            proof {
                let n = (bs as int) / 4;
                vstd::arithmetic::div_mod::lemma_fundamental_div_mod(pos as int, bs as int);
                assert(blk_i < 12 + n + n * n + n * n * n) by (nonlinear_arith)
                    requires
                        (bs as int) * (blk_i as int) <= pos,
                        bs >= 1024,
                        pos < 0x400000000,
                        n >= 256,
                        n * n >= 256 * 256,
                        n * n * n >= 256 * 256 * 256,
                        blk_i >= 0,
                ;
            }
            let blk = self.get_content_block_off(blk_i, superblock, io)?;
            let byte: u8 = match blk {
                Some(b) => {
                    proof {
                        assert((b as int) * (bs as int) <= 0xffffffff * 0x10000)
                            by (nonlinear_arith)
                            requires b <= 0xffffffff, bs <= 0x10000;
                    }
                    let data = io.read((b as u64) * bs + inner, 1)?;
                    data[0]
                }
                None => 0,
            };
            out.push(byte);
            k += 1;
        }
        Ok(out)
    }

    /// Writes the inode's content at byte offset `off` from the given
    /// buffer. Only already-backed blocks take writes: a hole fails with
    /// `ENOSPC`, a range past the file's size with `EINVAL`.
    pub fn write_content<D: DeviceHandle>(
        &self,
        off: u64,
        buf: &[u8],
        superblock: &Superblock,
        io: &mut D,
    ) -> (r: Result<(), Errno>)
        requires
            superblock.wf(),
            self.direct_block_ptrs@.len() == DIRECT_BLOCKS_COUNT,
            off + buf@.len() <= 0x400000000,
        ensures
            final(io).spec_data().len() == old(io).spec_data().len(),
            r is Ok ==> off + buf@.len() <= spec_inode_file_size(*self, *superblock),
            off + buf@.len() > spec_inode_file_size(*self, *superblock) ==> (r matches Err(e)
                && e == EINVAL && final(io).spec_data() == old(io).spec_data()),
            // every byte the call changes carries one of the written bytes
            forall|j: int|
                0 <= j < old(io).spec_data().len() && final(io).spec_data()[j] != old(
                    io,
                ).spec_data()[j] ==> exists|k: int|
                    0 <= k < buf@.len() && final(io).spec_data()[j] == buf@[k],
    {
        let size = self.get_size(superblock);
        let len = buf.len();
        if off > size || len as u64 > size - off {
            return Err(EINVAL);
        }
        let bs = superblock.get_block_size();
        proof {
            let n = spec_block_size(*superblock) / 4;
            assert(n >= 256);
            assert(n * n >= 256 * 256 && n * n * n >= 256 * 256 * 256) by (nonlinear_arith)
                requires n >= 256;
        }
        let mut k: usize = 0;
        while k < len
            invariant
                k <= len,
                len == buf@.len(),
                off + len <= 0x400000000,
                superblock.wf(),
                self.direct_block_ptrs@.len() == DIRECT_BLOCKS_COUNT,
                bs == spec_block_size(*superblock),
                io.spec_data().len() == old(io).spec_data().len(),
                forall|j: int|
                    0 <= j < old(io).spec_data().len() && io.spec_data()[j] != old(
                        io,
                    ).spec_data()[j] ==> exists|kk: int|
                        0 <= kk < buf@.len() && io.spec_data()[j] == buf@[kk],
            decreases len - k,
        {
            let pos = off + k as u64;
            let blk_i = pos / bs;
            let inner = pos % bs;
            proof {
                let n = (bs as int) / 4;
                vstd::arithmetic::div_mod::lemma_fundamental_div_mod(pos as int, bs as int);
                assert(blk_i < 12 + n + n * n + n * n * n) by (nonlinear_arith)
                    requires
                        (bs as int) * (blk_i as int) <= pos,
                        bs >= 1024,
                        pos < 0x400000000,
                        n >= 256,
                        n * n >= 256 * 256,
                        n * n * n >= 256 * 256 * 256,
                        blk_i >= 0,
                ;
            }
            let blk = self.get_content_block_off(blk_i, superblock, io)?;
            match blk {
                Some(b) => {
                    proof {
                        assert((b as int) * (bs as int) <= 0xffffffff * 0x10000)
                            by (nonlinear_arith)
                            requires b <= 0xffffffff, bs <= 0x10000;
                    }
                    let mut one: Vec<u8> = Vec::new();
                    one.push(buf[k]);
                    let ghost before = io.spec_data();
                    io.write((b as u64) * bs + inner, one.as_slice())?;
                    proof {
                        let ghost target = (b as int) * (bs as int) + (inner as int);
                        assert forall|j: int|
                            0 <= j < old(io).spec_data().len() && io.spec_data()[j] != old(
                            io,
                        ).spec_data()[j] implies exists|kk: int|
                            0 <= kk < buf@.len() && io.spec_data()[j] == buf@[kk] by {
                            if j == target {
                                assert(io.spec_data()[j] == buf@[k as int]);
                            } else {
                                assert(io.spec_data()[j] == before[j]);
                            }
                        }
                    }
                }
                None => {
                    return Err(ENOSPC);
                }
            }
            k += 1;
        }
        Ok(())
    }
}

/// A directory entry, as unpacked from a directory's content.
#[derive(Clone, Debug)]
pub struct DirectoryEntry {
    /// The inode the entry points at; zero marks a free slot.
    pub inode: u32,
    /// The total size of the slot in bytes.
    pub total_size: u16,
    /// The low bits of the name's length.
    pub name_length_lo: u8,
    /// The high bits of the name's length, or the type indicator when the
    /// feature is on.
    pub name_length_hi: u8,
    /// The entry's name bytes.
    pub name: Vec<u8>,
}

impl DirectoryEntry {
    /// Returns the length of the entry's name: both bytes when entries
    /// carry no type field, the low byte alone otherwise.
    pub fn get_name_length(&self, superblock: &Superblock) -> (r: usize)
        ensures
            r == spec_name_length(
                self.name_length_lo,
                self.name_length_hi,
                superblock.required_features,
            ),
    {
        if superblock.required_features & REQUIRED_FEATURE_DIRECTORY_TYPE == 0 {
            (self.name_length_hi as usize) * 256 + (self.name_length_lo as usize)
        } else {
            self.name_length_lo as usize
        }
    }

    /// Returns the entry's name bytes.
    pub fn get_name(&self) -> (r: &Vec<u8>)
        ensures
            r@ == self.name@,
    {
        &self.name
    }

    /// Tells whether the entry is a free slot.
    pub fn is_free(&self) -> (r: bool)
        ensures
            r == (self.inode == 0),
    {
        self.inode == 0
    }
}

/// The length of a directory entry's name, from its two length bytes and
/// the directory-type feature bit.
pub open spec fn spec_name_length(lo: u8, hi: u8, required_features: u32) -> int {
    if required_features & REQUIRED_FEATURE_DIRECTORY_TYPE == 0 {
        hi * 256 + lo
    } else {
        lo as int
    }
}


/// Whether `e` carries exactly the directory entry stored at content
/// offset `off` of the directory inode `node` on the device bytes `d`:
/// each header field read little-endian from its place, and the name
/// bytes following the header.
pub open spec fn spec_dirent_matches(
    d: Seq<u8>,
    sb: Superblock,
    node: Ext2INode,
    off: int,
    e: DirectoryEntry,
) -> bool {
    let bs = spec_block_size(sb);
    &&& e.inode == spec_content_byte(d, bs, node, off) + spec_content_byte(d, bs, node, off + 1)
        * 0x100 + spec_content_byte(d, bs, node, off + 2) * 0x10000 + spec_content_byte(
        d,
        bs,
        node,
        off + 3,
    ) * 0x1000000
    &&& e.total_size == spec_content_byte(d, bs, node, off + 4) + spec_content_byte(
        d,
        bs,
        node,
        off + 5,
    ) * 0x100
    &&& e.name_length_lo == spec_content_byte(d, bs, node, off + 6)
    &&& e.name_length_hi == spec_content_byte(d, bs, node, off + 7)
    &&& e.name@.len() == spec_name_length(
        e.name_length_lo,
        e.name_length_hi,
        sb.required_features,
    )
    &&& forall|k: int|
        0 <= k < e.name@.len() ==> e.name@[k] == spec_content_byte(d, bs, node, off + 8 + k)
}

impl Ext2INode {
    /// Reads the directory entry at byte offset `off` of the inode's
    /// content.
    ///
    /// Returns the entry and the offset of the next slot. A slot whose
    /// length is shorter than its fixed header is refused with `EINVAL`.
    pub fn read_dirent<D: DeviceHandle>(
        &self,
        off: u64,
        superblock: &Superblock,
        io: &mut D,
    ) -> (r: Result<(DirectoryEntry, u64), Errno>)
        requires
            superblock.wf(),
            self.direct_block_ptrs@.len() == DIRECT_BLOCKS_COUNT,
            off < 0x3FFFF0000,
        ensures
            final(io).spec_data() == old(io).spec_data(),
            match r {
                Ok(p) => p.1 == off + p.0.total_size && p.0.total_size >= 8
                    && spec_dirent_matches(
                    old(io).spec_data(),
                    *superblock,
                    *self,
                    off as int,
                    p.0,
                ),
                Err(_) => true,
            },
    {
        let head = self.read_content(off, 8, superblock, io)?;
        let inode = (head[0] as u32) + (head[1] as u32) * 0x100 + (head[2] as u32) * 0x10000 + (
        head[3] as u32) * 0x1000000;
        let total_size = (head[4] as u16) + (head[5] as u16) * 0x100;
        let name_length_lo = head[6];
        let name_length_hi = head[7];
        if total_size < 8 {
            return Err(EINVAL);
        }
        let entry = DirectoryEntry {
            inode,
            total_size,
            name_length_lo,
            name_length_hi,
            name: Vec::new(),
        };
        let name_len = entry.get_name_length(superblock);
        if name_len as u64 > (total_size as u64) - 8 {
            return Err(EINVAL);
        }
        let name = self.read_content(off + 8, name_len, superblock, io)?;
        let entry = DirectoryEntry { name, ..entry };
        Ok((entry, off + total_size as u64))
    }

    /// Returns the directory entry carrying the given name, with its byte
    /// offset in the directory.
    ///
    /// The walk visits the packed slots in order, skipping free ones, and
    /// stops at the directory's size. `None` means the walk found no used
    /// entry with the name.
    pub fn get_directory_entry<D: DeviceHandle>(
        &self,
        name: &[u8],
        superblock: &Superblock,
        io: &mut D,
    ) -> (r: Result<Option<(u64, DirectoryEntry)>, Errno>)
        requires
            superblock.wf(),
            self.direct_block_ptrs@.len() == DIRECT_BLOCKS_COUNT,
            spec_inode_file_size(*self, *superblock) <= 0x3FFFF0000,
        ensures
            final(io).spec_data() == old(io).spec_data(),
            match r {
                Ok(Some(p)) => {
                    &&& p.1.inode != 0
                    &&& p.1.name@ == name@
                    &&& p.0 < spec_inode_file_size(*self, *superblock)
                    &&& spec_dirent_matches(
                        old(io).spec_data(),
                        *superblock,
                        *self,
                        p.0 as int,
                        p.1,
                    )
                },
                _ => true,
            },
    {
        let size = self.get_size(superblock);
        let mut off: u64 = 0;
        while off < size
            invariant
                superblock.wf(),
                self.direct_block_ptrs@.len() == DIRECT_BLOCKS_COUNT,
                size == spec_inode_file_size(*self, *superblock),
                size <= 0x3FFFF0000,
                io.spec_data() == old(io).spec_data(),
            decreases size - off,
        {
            let (entry, next) = self.read_dirent(off, superblock, io)?;
            if !entry.is_free() {
                if bytes_equal(entry.get_name().as_slice(), name) {
                    return Ok(Some((off, entry)));
                }
            }
            off = if next > size {
                size
            } else {
                next
            };
        }
        Ok(None)
    }

    /// Returns the byte offset of a free slot of at least `min_size`
    /// bytes, walking the packed slots in order.
    pub fn get_free_entry<D: DeviceHandle>(
        &self,
        superblock: &Superblock,
        io: &mut D,
        min_size: usize,
    ) -> (r: Result<Option<(u64, u16)>, Errno>)
        requires
            superblock.wf(),
            self.direct_block_ptrs@.len() == DIRECT_BLOCKS_COUNT,
            spec_inode_file_size(*self, *superblock) <= 0x3FFFF0000,
        ensures
            final(io).spec_data() == old(io).spec_data(),
            match r {
                Ok(Some(p)) => p.1 >= min_size && p.1 >= 8 && p.0 < spec_inode_file_size(
                    *self,
                    *superblock,
                ),
                _ => true,
            },
    {
        let size = self.get_size(superblock);
        let mut off: u64 = 0;
        while off < size
            invariant
                superblock.wf(),
                self.direct_block_ptrs@.len() == DIRECT_BLOCKS_COUNT,
                size == spec_inode_file_size(*self, *superblock),
                size <= 0x3FFFF0000,
                io.spec_data() == old(io).spec_data(),
            decreases size - off,
        {
            let (entry, next) = self.read_dirent(off, superblock, io)?;
            if entry.is_free() && entry.total_size as usize >= min_size {
                return Ok(Some((off, entry.total_size)));
            }
            off = if next > size {
                size
            } else {
                next
            };
        }
        Ok(None)
    }

    /// Adds the entry `(name, inode, type)` to the directory.
    ///
    /// The needed room is the fixed header plus the name, rounded up to
    /// eight bytes. A name fails with `ENAMETOOLONG` exactly when the
    /// header plus the name exceed the block size, or when the entries
    /// carry a type byte (the directory-type feature) and the name exceeds
    /// the single length byte left. Without the feature both header bytes
    /// hold the length. The entry lands in the first free slot with room;
    /// without one, extending the directory is left to the allocator and
    /// the call fails with `ENOSPC`.
    pub fn add_dirent<D: DeviceHandle>(
        &self,
        superblock: &Superblock,
        io: &mut D,
        entry_inode: u32,
        name: &[u8],
        _file_type: FileType,
    ) -> (r: Result<(), Errno>)
        requires
            superblock.wf(),
            self.direct_block_ptrs@.len() == DIRECT_BLOCKS_COUNT,
            spec_inode_file_size(*self, *superblock) <= 0x3FFFF0000,
        ensures
            final(io).spec_data().len() == old(io).spec_data().len(),
            8 + name@.len() > spec_block_size(*superblock) || (superblock.required_features
                & REQUIRED_FEATURE_DIRECTORY_TYPE != 0 && name@.len() > 255) ==> (r matches Err(e)
                && e == ENAMETOOLONG),
            r is Ok ==> 8 + name@.len() <= spec_block_size(*superblock) && (
            superblock.required_features & REQUIRED_FEATURE_DIRECTORY_TYPE == 0 || name@.len()
                <= 255),
    {
        let blk_size = superblock.get_block_size();
        if name.len() >= blk_size as usize {
            return Err(ENAMETOOLONG);
        }
        let entry_size = 8 + name.len();
        if entry_size as u64 > blk_size {
            return Err(ENAMETOOLONG);
        }
        let typed = superblock.required_features & REQUIRED_FEATURE_DIRECTORY_TYPE != 0;
        if typed && name.len() > 255 {
            return Err(ENAMETOOLONG);
        }
        let need = (entry_size + 7) / 8 * 8;
        let slot = self.get_free_entry(superblock, io, need)?;
        match slot {
            Some((off, rec_len)) => {
                // write the entry into the free slot, keeping its length
                let mut head: Vec<u8> = Vec::new();
                head.push((entry_inode % 256) as u8);
                head.push((entry_inode / 256 % 256) as u8);
                head.push((entry_inode / 65536 % 256) as u8);
                head.push((entry_inode / 16777216) as u8);
                head.push((rec_len % 256) as u8);
                head.push((rec_len / 256) as u8);
                head.push((name.len() % 256) as u8);
                if typed {
                    head.push(0);
                } else {
                    head.push((name.len() / 256) as u8);
                }
                self.write_content(off, head.as_slice(), superblock, io)?;
                let mut k: usize = 0;
                while k < name.len()
                    invariant
                        k <= name@.len(),
                        name@.len() + 8 <= spec_block_size(*superblock),
                        spec_block_size(*superblock) <= 65536,
                        off < 0x3FFFF0000,
                        superblock.wf(),
                        self.direct_block_ptrs@.len() == DIRECT_BLOCKS_COUNT,
                        io.spec_data().len() == old(io).spec_data().len(),
                    decreases name@.len() - k,
                {
                    let mut one: Vec<u8> = Vec::new();
                    one.push(name[k]);
                    self.write_content(off + 8 + k as u64, one.as_slice(), superblock, io)?;
                    k += 1;
                }
                Ok(())
            }
            None => Err(ENOSPC),
        }
    }
}

/// Whether two byte strings hold the same bytes.
fn bytes_equal(a: &[u8], b: &[u8]) -> (r: bool)
    ensures
        r == (a@ == b@),
{
    if a.len() != b.len() {
        proof {
            assert(a@.len() != b@.len());
        }
        return false;
    }
    let mut i: usize = 0;
    while i < a.len()
        invariant
            i <= a@.len(),
            a@.len() == b@.len(),
            forall|j: int| 0 <= j < i ==> a@[j] == b@[j],
        decreases a@.len() - i,
    {
        if a[i] != b[i] {
            return false;
        }
        i += 1;
    }
    proof {
        assert(a@ =~= b@);
    }
    true
}

/// A mounted ext2 filesystem instance.
pub struct Ext2Fs {
    /// The filesystem's superblock.
    pub superblock: Superblock,
}

impl Ext2Fs {
    /// Mounts the filesystem.
    ///
    /// Refuses with `EINVAL` a superblock without the signature, one whose
    /// mount count since the last consistency check has reached its bound,
    /// and one whose check interval has elapsed at the given time. On
    /// success the mount count rises by one, the check timestamp becomes
    /// the given time, and the superblock is written back.
    pub fn new<D: DeviceHandle>(superblock: Superblock, io: &mut D, timestamp: u32) -> (r: Result<
        Ext2Fs,
        Errno,
    >)
        requires
            superblock.wf(),
            superblock.mount_count_since_fsck < u16::MAX,
        ensures
            match r {
                Ok(fs) => {
                    &&& superblock.signature == EXT2_SIGNATURE
                    &&& superblock.mount_count_since_fsck < superblock.mount_count_before_fsck
                    &&& timestamp < superblock.last_fsck_timestamp + superblock.fsck_interval
                    &&& fs.superblock.mount_count_since_fsck == superblock.mount_count_since_fsck
                        + 1
                    &&& fs.superblock.last_fsck_timestamp == timestamp
                    &&& fs.superblock.signature == superblock.signature
                    &&& fs.superblock.wf()
                },
                Err(e) => e == EINVAL ==> (superblock.signature != EXT2_SIGNATURE
                    || superblock.mount_count_since_fsck >= superblock.mount_count_before_fsck
                    || timestamp >= superblock.last_fsck_timestamp + superblock.fsck_interval
                    || old(io).spec_data().len() < 2048),
            },
    {
        if !superblock.is_valid() {
            return Err(EINVAL);
        }
        if superblock.mount_count_since_fsck >= superblock.mount_count_before_fsck {
            return Err(EINVAL);
        }
        if timestamp as u64 >= superblock.last_fsck_timestamp as u64
            + superblock.fsck_interval as u64 {
            return Err(EINVAL);
        }
        let mut sb = superblock;
        sb.mount_count_since_fsck = sb.mount_count_since_fsck + 1;
        sb.last_fsck_timestamp = timestamp;
        sb.write(io)?;
        Ok(Ext2Fs { superblock: sb })
    }

    /// Returns the number of block groups: the total blocks divided by the
    /// blocks per group, rounded up.
    pub fn get_block_groups_count(&self) -> (r: u32)
        requires
            self.superblock.wf(),
        ensures
            r == (self.superblock.total_blocks + self.superblock.blocks_per_group - 1) as int
                / self.superblock.blocks_per_group as int,
    {
        let total = self.superblock.total_blocks as u64;
        let per = self.superblock.blocks_per_group as u64;
        proof {
            let t = total as int;
            let p = per as int;
            assert((t + p - 1) / p <= 0xffffffff) by (nonlinear_arith)
                requires t <= 0xffffffff, p >= 1;
        }
        ((total + per - 1) / per) as u32
    }

    /// Looks the inode of the file at the given path components up,
    /// starting at the root directory and following one directory entry
    /// per component.
    ///
    /// Fails with `ENOENT` when a component is missing or a walked node is
    /// not a directory.
    pub fn get_inode<D: DeviceHandle>(&self, names: &Vec<Vec<u8>>, io: &mut D) -> (r: Result<
        u32,
        Errno,
    >)
        requires
            self.superblock.wf(),
        ensures
            final(io).spec_data() == old(io).spec_data(),
            names@.len() == 0 && r is Ok ==> r->Ok_0 == ROOT_DIRECTORY_INODE,
    {
        let mut inode_index: u32 = ROOT_DIRECTORY_INODE;
        let n = names.len();
        let mut i: usize = 0;
        while i < n
            invariant
                i <= n,
                n == names@.len(),
                self.superblock.wf(),
                io.spec_data() == old(io).spec_data(),
                n == 0 ==> inode_index == ROOT_DIRECTORY_INODE,
                inode_index >= 1,
            decreases n - i,
        {
            let inode = Ext2INode::read(inode_index, &self.superblock, io)?;
            if !matches!(inode.get_type(), FileType::Directory) {
                return Err(crate::errno::ENOENT);
            }
            let size = inode.get_size(&self.superblock);
            if size > 0x3FFFF0000 {
                return Err(EINVAL);
            }
            let found = inode.get_directory_entry(names[i].as_slice(), &self.superblock, io)?;
            match found {
                Some((_, entry)) => {
                    if entry.inode == 0 {
                        return Err(crate::errno::ENOENT);
                    }
                    inode_index = entry.inode;
                }
                None => {
                    return Err(crate::errno::ENOENT);
                }
            }
            i += 1;
        }
        Ok(inode_index)
    }
}

/// The ext2 filesystem type: detection and creation.
pub struct Ext2FsType {}

impl Ext2FsType {
    /// Tells whether the device carries an ext2 filesystem: its superblock
    /// reads and carries the signature.
    pub fn detect<D: DeviceHandle>(&self, io: &mut D) -> (r: bool)
        ensures
            final(io).spec_data() == old(io).spec_data(),
            r ==> old(io).spec_data().len() >= 2048 && spec_u16_at(old(io).spec_data(), 1080)
                == EXT2_SIGNATURE,
    {
        match Superblock::read(io) {
            Ok(sb) => sb.is_valid(),
            Err(_) => false,
        }
    }

    /// Creates a fresh filesystem on the device: writes a superblock with
    /// the default geometry, one block group descriptor per group, and the
    /// root directory's inode.
    ///
    /// On success the device carries the signature and the superblock
    /// declares one inode table per group.
    pub fn create_filesystem<D: DeviceHandle>(&self, io: &mut D, timestamp: u32) -> (r: Result<
        Superblock,
        Errno,
    >)
        ensures
            final(io).spec_data().len() == old(io).spec_data().len(),
            match r {
                Ok(sb) => {
                    &&& sb.signature == EXT2_SIGNATURE
                    &&& sb.wf()
                    &&& sb.total_blocks == old(io).spec_data().len() as int
                        / DEFAULT_BLOCK_SIZE as int
                    &&& sb.total_inodes == (sb.total_blocks / DEFAULT_BLOCKS_PER_GROUP as u32)
                        * DEFAULT_INODES_PER_GROUP
                    &&& sb.total_unallocated_blocks == sb.total_blocks
                    &&& sb.total_unallocated_inodes == sb.total_inodes
                    &&& sb.superblock_block_number == 1
                    &&& sb.block_size_log == 0
                    &&& sb.fragment_size_log == 0
                    &&& sb.blocks_per_group == DEFAULT_BLOCKS_PER_GROUP
                    &&& sb.inodes_per_group == DEFAULT_INODES_PER_GROUP
                    &&& sb.mount_count_since_fsck == 0
                    &&& sb.mount_count_before_fsck == DEFAULT_MOUNT_COUNT_BEFORE_FSCK
                    &&& sb.minor_version == DEFAULT_MINOR
                    &&& sb.last_fsck_timestamp == timestamp
                    &&& sb.fsck_interval == DEFAULT_FSCK_INTERVAL
                    &&& sb.major_version == DEFAULT_MAJOR
                    &&& sb.first_non_reserved_inode == 11
                    &&& sb.inode_size == DEFAULT_INODE_SIZE
                    &&& sb.required_features == 0
                    &&& sb.write_required_features == WRITE_REQUIRED_64_BITS
                },
                Err(_) => true,
            },
            // a device that holds the superblock but not one full block
            // group is formatted without touching anything past it
            old(io).spec_data().len() >= 2048 && old(io).spec_data().len() < 0x100000 ==> r is Ok,
            old(io).spec_data().len() < 2048 ==> r is Err,
    {
        let size = io.get_size();
        if size / DEFAULT_BLOCK_SIZE > u32::MAX as u64 {
            return Err(EINVAL);
        }
        let blocks_count = (size / DEFAULT_BLOCK_SIZE) as u32;
        let groups_count = blocks_count / DEFAULT_BLOCKS_PER_GROUP;
        if (groups_count as u64) * (DEFAULT_INODES_PER_GROUP as u64) > u32::MAX as u64 {
            return Err(EINVAL);
        }
        let inodes_count = groups_count * DEFAULT_INODES_PER_GROUP;
        let block_usage_bitmap_size: u32 = 1;
        let inode_usage_bitmap_size: u32 = 1;
        let inode_table_size: u32 = DEFAULT_INODES_PER_GROUP * (DEFAULT_INODE_SIZE as u32)
            / (DEFAULT_BLOCK_SIZE as u32);
        let sb = Superblock {
            total_inodes: inodes_count,
            total_blocks: blocks_count,
            total_unallocated_blocks: blocks_count,
            total_unallocated_inodes: inodes_count,
            superblock_block_number: 1,
            block_size_log: 0,
            fragment_size_log: 0,
            blocks_per_group: DEFAULT_BLOCKS_PER_GROUP,
            inodes_per_group: DEFAULT_INODES_PER_GROUP,
            mount_count_since_fsck: 0,
            mount_count_before_fsck: DEFAULT_MOUNT_COUNT_BEFORE_FSCK,
            signature: EXT2_SIGNATURE,
            minor_version: DEFAULT_MINOR,
            last_fsck_timestamp: timestamp,
            fsck_interval: DEFAULT_FSCK_INTERVAL,
            major_version: DEFAULT_MAJOR,
            first_non_reserved_inode: 11,
            inode_size: DEFAULT_INODE_SIZE,
            required_features: 0,
            write_required_features: WRITE_REQUIRED_64_BITS,
        };
        sb.write(io)?;
        // one descriptor per group: its bitmaps and inode table follow the
        // group's first block
        let mut i: u32 = 0;
        while i < groups_count
            invariant
                i <= groups_count,
                io.spec_data().len() == old(io).spec_data().len(),
            decreases groups_count - i,
        {
            let base = i * DEFAULT_BLOCKS_PER_GROUP;
            let off = 2 * DEFAULT_BLOCK_SIZE + (i as u64) * 32;
            let r1 = write_u32(io, off, base);
            if r1.is_err() {
                return Err(ENOSPC);
            }
            let r2 = write_u32(io, off + 4, base + block_usage_bitmap_size);
            if r2.is_err() {
                return Err(ENOSPC);
            }
            let r3 = write_u32(
                io,
                off + 8,
                base + block_usage_bitmap_size + inode_usage_bitmap_size,
            );
            if r3.is_err() {
                return Err(ENOSPC);
            }
            let r4 = write_u16(io, off + 12, 0);
            if r4.is_err() {
                return Err(ENOSPC);
            }
            let r5 = write_u16(io, off + 14, DEFAULT_INODES_PER_GROUP as u16);
            if r5.is_err() {
                return Err(ENOSPC);
            }
            let r6 = write_u16(io, off + 16, 0);
            if r6.is_err() {
                return Err(ENOSPC);
            }
            i += 1;
        }
        // the root directory's inode
        let root = Ext2INode {
            mode: INODE_TYPE_DIRECTORY | 0o755,
            uid: 0,
            size_low: 0,
            ctime: timestamp,
            mtime: timestamp,
            atime: timestamp,
            dtime: 0,
            gid: 0,
            hard_links_count: 1,
            used_sectors: 0,
            flags: 0,
            direct_block_ptrs: zero_ptrs(),
            singly_indirect_block_ptr: 0,
            doubly_indirect_block_ptr: 0,
            triply_indirect_block_ptr: 0,
            size_high: 0,
        };
        if groups_count > 0 {
            root.write(ROOT_DIRECTORY_INODE, &sb, io)?;
        }
        proof {
            assert(sb.wf());
        }
        Ok(sb)
    }

    /// Loads a filesystem from the device: reads the superblock and
    /// mounts it.
    pub fn load_filesystem<D: DeviceHandle>(&self, io: &mut D, timestamp: u32) -> (r: Result<
        Ext2Fs,
        Errno,
    >)
        ensures
            r matches Ok(fs) ==> fs.superblock.signature == EXT2_SIGNATURE,
    {
        let sb = Superblock::read(io)?;
        if sb.block_size_log > 6 || sb.inodes_per_group == 0 || sb.blocks_per_group == 0
            || sb.inode_size < 128 {
            return Err(EINVAL);
        }
        if sb.mount_count_since_fsck == u16::MAX {
            return Err(EINVAL);
        }
        Ext2Fs::new(sb, io, timestamp)
    }
}

/// Twelve zero block pointers.
fn zero_ptrs() -> (r: Vec<u32>)
    ensures
        r@.len() == DIRECT_BLOCKS_COUNT,
{
    let mut v: Vec<u32> = Vec::new();
    let mut i: usize = 0;
    while i < DIRECT_BLOCKS_COUNT
        invariant
            i <= DIRECT_BLOCKS_COUNT,
            v@.len() == i,
        decreases DIRECT_BLOCKS_COUNT - i,
    {
        v.push(0);
        i += 1;
    }
    v
}

} // verus!
