//! Block storage.
//!
//! A storage interface reads and writes whole blocks; byte-range access is
//! layered on top of it, reading each touched block and carving or patching
//! the wanted span.

use vstd::prelude::*;

use crate::errno::{Errno, EINVAL, EIO};

verus! {

/// The major number of storage devices.
pub const STORAGE_MAJOR: u32 = 8;
/// The permissions of a storage device file.
pub const STORAGE_MODE: u32 = 0o660;
/// The maximum number of partitions on a disk.
pub const MAX_PARTITIONS: u32 = 16;

/// A storage device whose unit of access is the block.
pub trait StorageInterface {
    /// The device's bytes.
    spec fn spec_data(&self) -> Seq<u8>;

    /// The size of a block, in bytes.
    spec fn spec_block_size(&self) -> u64;

    /// The device's bytes are whole blocks of a fixed, non-zero size.
    spec fn wf(&self) -> bool;

    /// Returns the size of the blocks in bytes; constant over the device's
    /// life.
    fn get_block_size(&self) -> (r: u64)
        requires
            self.wf(),
        ensures
            r == self.spec_block_size(),
            r > 0,
            self.spec_data().len() as int % (r as int) == 0,
    ;

    /// Returns the number of blocks; constant over the device's life.
    fn get_blocks_count(&self) -> (r: u64)
        requires
            self.wf(),
        ensures
            r == self.spec_data().len() as int / self.spec_block_size() as int,
    ;

    /// Reads block `offset`.
    ///
    /// Succeeds exactly when the block lies on the device.
    fn read(&mut self, offset: u64) -> (r: Result<Vec<u8>, Errno>)
        requires
            old(self).wf(),
        ensures
            final(self).wf(),
            final(self).spec_data() == old(self).spec_data(),
            final(self).spec_block_size() == old(self).spec_block_size(),
            match r {
                Ok(v) => (offset + 1) * old(self).spec_block_size() <= old(self).spec_data().len() && v@ == old(self).spec_data().subrange(
                    offset * old(self).spec_block_size(),
                    (offset + 1) * old(self).spec_block_size(),
                ),
                Err(_) => (offset + 1) * old(self).spec_block_size() > old(self).spec_data().len(),
            },
    ;

    /// Writes block `offset`.
    ///
    /// Succeeds exactly when the block lies on the device and the buffer is
    /// one block long; the block's bytes are then replaced and nothing else
    /// moves.
    fn write(&mut self, buf: &[u8], offset: u64) -> (r: Result<(), Errno>)
        requires
            old(self).wf(),
        ensures
            final(self).wf(),
            final(self).spec_block_size() == old(self).spec_block_size(),
            final(self).spec_data().len() == old(self).spec_data().len(),
            match r {
                Ok(()) => {
                    &&& buf@.len() == old(self).spec_block_size()
                    &&& (offset + 1) * old(self).spec_block_size() <= old(self).spec_data().len()
                    &&& forall|i: int|
                        offset * old(self).spec_block_size() <= i < (offset + 1) * old(self).spec_block_size() ==> final(self).spec_data()[i] == buf@[i - offset
                            * old(self).spec_block_size()]
                    &&& forall|i: int|
                        0 <= i < old(self).spec_data().len() && !(offset * old(self).spec_block_size() <= i < (offset + 1) * old(self).spec_block_size())
                            ==> final(self).spec_data()[i] == old(self).spec_data()[i]
                },
                Err(_) => {
                    &&& (buf@.len() != old(self).spec_block_size() || (offset + 1) * old(self).spec_block_size() > old(self).spec_data().len())
                    &&& final(self).spec_data() == old(self).spec_data()
                },
            },
    ;
}

/// A storage device kept in memory, block-addressed.
pub struct RamDisk {
    /// The device's bytes.
    data: Vec<u8>,
    /// The size of a block in bytes.
    block_size: u64,
}

impl RamDisk {
    /// Creates a disk of `blocks` zeroed blocks of `block_size` bytes.
    pub fn new(block_size: u64, blocks: u64) -> (r: Self)
        requires
            block_size > 0,
            block_size * blocks <= 0xF0000000,
        ensures
            r.wf(),
            r.spec_block_size() == block_size,
            r.spec_data().len() == block_size * blocks,
            forall|i: int| 0 <= i < r.spec_data().len() ==> r.spec_data()[i] == 0,
    {
        let total = (block_size * blocks) as usize;
        let mut data: Vec<u8> = Vec::new();
        let mut i: usize = 0;
        while i < total
            invariant
                i <= total,
                data@.len() == i,
                forall|k: int| 0 <= k < i ==> data@[k] == 0,
            decreases total - i,
        {
            data.push(0);
            i += 1;
        }
        let r = RamDisk { data, block_size };
        proof {
            vstd::arithmetic::div_mod::lemma_mod_multiples_basic(
                blocks as int,
                block_size as int,
            );
            assert((block_size * blocks) as int % (block_size as int) == 0) by (nonlinear_arith)
                requires
                    block_size > 0,
                    blocks >= 0,
                    (blocks as int) * (block_size as int) % (block_size as int) == 0,
            ;
        }
        r
    }
}

impl StorageInterface for RamDisk {
    closed spec fn spec_data(&self) -> Seq<u8> {
        self.data@
    }

    closed spec fn spec_block_size(&self) -> u64 {
        self.block_size
    }

    open spec fn wf(&self) -> bool {
        &&& self.spec_block_size() > 0
        &&& self.spec_data().len() as int % (self.spec_block_size() as int) == 0
        &&& self.spec_data().len() <= 0xF0000000
    }

    fn get_block_size(&self) -> (r: u64) {
        self.block_size
    }

    fn get_blocks_count(&self) -> (r: u64) {
        (self.data.len() as u64) / self.block_size
    }

    fn read(&mut self, offset: u64) -> (r: Result<Vec<u8>, Errno>) {
        let bs = self.block_size;
        let len = self.data.len() as u64;
        let count = len / bs;
        if offset >= count {
            proof {
                let dlen = len as int;
                vstd::arithmetic::div_mod::lemma_fundamental_div_mod(dlen, bs as int);
                assert((offset + 1) * bs > dlen) by (nonlinear_arith)
                    requires
                        offset >= dlen / (bs as int),
                        dlen == (bs as int) * (dlen / (bs as int)) + dlen % (bs as int),
                        0 <= dlen % (bs as int) < (bs as int),
                        bs > 0,
                ;
            }
            return Err(EINVAL);
        }
        proof {
            let dlen = len as int;
            vstd::arithmetic::div_mod::lemma_fundamental_div_mod(dlen, bs as int);
            assert((offset + 1) * bs <= dlen && offset * bs + bs == (offset + 1) * bs)
                by (nonlinear_arith)
                requires
                    offset < dlen / (bs as int),
                    dlen == (bs as int) * (dlen / (bs as int)) + dlen % (bs as int),
                    0 <= dlen % (bs as int) < (bs as int),
                    bs > 0,
            ;
        }
        let start = (offset * bs) as usize;
        let mut out: Vec<u8> = Vec::new();
        let mut i: usize = 0;
        let bsz = bs as usize;
        while i < bsz
            invariant
                i <= bsz,
                start + bsz <= self.data@.len(),
                self.data@.len() <= 0xF0000000,
                out@ == self.data@.subrange(start as int, start + i),
                self.data@ == old(self).spec_data(),
                *self == *old(self),
            decreases bsz - i,
        {
            out.push(self.data[start + i]);
            proof {
                assert(out@ =~= self.data@.subrange(start as int, start + i + 1));
            }
            i += 1;
        }
        Ok(out)
    }

    fn write(&mut self, buf: &[u8], offset: u64) -> (r: Result<(), Errno>) {
        let bs = self.block_size;
        let len = self.data.len() as u64;
        let count = len / bs;
        if buf.len() as u64 != bs {
            return Err(EINVAL);
        }
        if offset >= count {
            proof {
                let dlen = len as int;
                vstd::arithmetic::div_mod::lemma_fundamental_div_mod(dlen, bs as int);
                assert((offset + 1) * bs > dlen) by (nonlinear_arith)
                    requires
                        offset >= dlen / (bs as int),
                        dlen == (bs as int) * (dlen / (bs as int)) + dlen % (bs as int),
                        0 <= dlen % (bs as int) < (bs as int),
                        bs > 0,
                ;
            }
            return Err(EINVAL);
        }
        proof {
            let dlen = len as int;
            vstd::arithmetic::div_mod::lemma_fundamental_div_mod(dlen, bs as int);
            assert((offset + 1) * bs <= dlen && offset * bs + bs == (offset + 1) * bs)
                by (nonlinear_arith)
                requires
                    offset < dlen / (bs as int),
                    dlen == (bs as int) * (dlen / (bs as int)) + dlen % (bs as int),
                    0 <= dlen % (bs as int) < (bs as int),
                    bs > 0,
            ;
        }
        let start = (offset * bs) as usize;
        let mut i: usize = 0;
        let bsz = bs as usize;
        while i < bsz
            invariant
                i <= bsz,
                bsz == buf@.len(),
                bsz == bs,
                start == offset * bs,
                start + bsz <= self.data@.len(),
                self.data@.len() == old(self).spec_data().len(),
                self.block_size == old(self).spec_block_size(),
                forall|k: int| start <= k < start + i ==> self.data@[k] == buf@[k - start],
                forall|k: int|
                    0 <= k < self.data@.len() && !(start <= k < start + i) ==> self.data@[k]
                        == old(self).spec_data()[k],
            decreases bsz - i,
        {
            self.data.set(start + i, buf[i]);
            i += 1;
        }
        Ok(())
    }
}

/// Reads `len` bytes at the byte offset `offset`, reading each touched
/// block and carving the wanted span out of it.
///
/// Succeeds exactly when the whole range lies on the device.
pub fn read_bytes<S: StorageInterface>(storage: &mut S, offset: u64, len: usize) -> (r: Result<
    Vec<u8>,
    Errno,
>)
    requires
        old(storage).wf(),
        old(storage).spec_data().len() <= 0xF0000000,
        offset + len <= 0xF0000000,
    ensures
        final(storage).wf(),
        final(storage).spec_data() == old(storage).spec_data(),
        final(storage).spec_block_size() == old(storage).spec_block_size(),
        match r {
            Ok(v) => offset + len <= old(storage).spec_data().len() && v@ == old(storage).spec_data().subrange(offset as int, offset + len),
            Err(e) => e == EINVAL && offset + len > old(storage).spec_data().len(),
        },
{
    let bs = storage.get_block_size();
    let count = storage.get_blocks_count();
    proof {
        let dlen = old(storage).spec_data().len() as int;
        vstd::arithmetic::div_mod::lemma_fundamental_div_mod(dlen, bs as int);
        assert(count * bs == dlen) by (nonlinear_arith)
            requires
                count == dlen / (bs as int),
                dlen == (bs as int) * (dlen / (bs as int)) + dlen % (bs as int),
                dlen % (bs as int) == 0,
        ;
    }
    let size = count * bs;
    if offset + len as u64 > size {
        return Err(EINVAL);
    }
    let mut out: Vec<u8> = Vec::new();
    let mut i: u64 = offset;
    let target = offset + len as u64;
    while i < target
        invariant
            offset <= i <= target,
            target == offset + len,
            target <= old(storage).spec_data().len(),
            storage.wf(),
            storage.spec_data() == old(storage).spec_data(),
            storage.spec_block_size() == old(storage).spec_block_size(),
            bs == old(storage).spec_block_size(),
            out@ == old(storage).spec_data().subrange(offset as int, i as int),
        decreases target - i,
    {
        let blk = i / bs;
        let inner = (i % bs) as usize;
        proof {
            let dlen = old(storage).spec_data().len() as int;
            vstd::arithmetic::div_mod::lemma_fundamental_div_mod(i as int, bs as int);
            vstd::arithmetic::div_mod::lemma_fundamental_div_mod(dlen, bs as int);
            assert((blk + 1) * bs <= dlen) by (nonlinear_arith)
                requires
                    i as int == (bs as int) * (blk as int) + inner,
                    0 <= inner < bs,
                    i < target,
                    target <= dlen,
                    dlen % (bs as int) == 0,
                    bs > 0,
                    blk == i / bs,
                    dlen == (bs as int) * (dlen / (bs as int)) + dlen % (bs as int),
            ;
            assert((blk + 1) * bs - blk * bs == bs) by (nonlinear_arith);
            assert(bs <= (blk + 1) * bs) by (nonlinear_arith)
                requires bs > 0, blk >= 0;
        }
        let block = match storage.read(blk) {
            Ok(b) => b,
            Err(_) => {
                proof {
                    assert(false);
                }
                return Err(EIO);
            }
        };
        // copy the wanted span of this block
        let avail = bs as usize - inner;
        let rem = (target - i) as usize;
        let want = if rem < avail {
            rem
        } else {
            avail
        };
        let mut j: usize = 0;
        while j < want
            invariant
                j <= want,
                inner + want <= block@.len(),
                block@.len() == bs,
                want <= target - i,
                offset <= i,
                i + want <= target,
                target <= old(storage).spec_data().len(),
                block@ == old(storage).spec_data().subrange(
                    (i - inner) as int,
                    (i - inner) + bs as int,
                ),
                out@ == old(storage).spec_data().subrange(offset as int, i + j),
            decreases want - j,
        {
            out.push(block[inner + j]);
            proof {
                assert(block@[inner + j] == old(storage).spec_data()[i + j]);
                assert(out@ =~= old(storage).spec_data().subrange(offset as int, i + j + 1));
            }
            j += 1;
        }
        i = i + want as u64;
    }
    Ok(out)
}

/// Writes the given bytes at the byte offset `offset`, patching each
/// touched block.
///
/// Succeeds exactly when the whole range lies on the device; the range's
/// bytes are then replaced and nothing else moves.
pub fn write_bytes<S: StorageInterface>(storage: &mut S, buf: &[u8], offset: u64) -> (r: Result<
    (),
    Errno,
>)
    requires
        old(storage).wf(),
        old(storage).spec_data().len() <= 0xF0000000,
        offset + buf@.len() <= 0xF0000000,
        buf@.len() > 0,
    ensures
        final(storage).wf(),
        final(storage).spec_block_size() == old(storage).spec_block_size(),
        final(storage).spec_data().len() == old(storage).spec_data().len(),
        match r {
            Ok(()) => {
                &&& offset + buf@.len() <= old(storage).spec_data().len()
                &&& forall|k: int|
                    offset <= k < offset + buf@.len() ==> final(storage).spec_data()[k] == buf@[k
                        - offset]
                &&& forall|k: int|
                    0 <= k < old(storage).spec_data().len() && !(offset <= k < offset
                        + buf@.len()) ==> final(storage).spec_data()[k] == old(storage).spec_data()[k]
            },
            Err(e) => e == EINVAL && offset + buf@.len() > old(storage).spec_data().len() && final(storage).spec_data() == old(storage).spec_data(),
        },
{
    let bs = storage.get_block_size();
    let count = storage.get_blocks_count();
    let len = buf.len();
    proof {
        let dlen = old(storage).spec_data().len() as int;
        vstd::arithmetic::div_mod::lemma_fundamental_div_mod(dlen, bs as int);
        assert(count * bs == dlen) by (nonlinear_arith)
            requires
                count == dlen / (bs as int),
                dlen == (bs as int) * (dlen / (bs as int)) + dlen % (bs as int),
                dlen % (bs as int) == 0,
        ;
    }
    let size = count * bs;
    if offset + len as u64 > size {
        return Err(EINVAL);
    }
    let mut i: u64 = offset;
    let target = offset + len as u64;
    while i < target
        invariant
            offset <= i <= target,
            target == offset + len,
            len == buf@.len(),
            target <= old(storage).spec_data().len(),
            storage.wf(),
            storage.spec_data().len() == old(storage).spec_data().len(),
            storage.spec_block_size() == old(storage).spec_block_size(),
            bs == old(storage).spec_block_size(),
            forall|k: int| offset <= k < i ==> storage.spec_data()[k] == buf@[k - offset],
            forall|k: int|
                0 <= k < old(storage).spec_data().len() && !(offset <= k < i)
                    ==> storage.spec_data()[k] == old(storage).spec_data()[k],
        decreases target - i,
    {
        let blk = i / bs;
        let inner = (i % bs) as usize;
        proof {
            let dlen = old(storage).spec_data().len() as int;
            vstd::arithmetic::div_mod::lemma_fundamental_div_mod(i as int, bs as int);
            vstd::arithmetic::div_mod::lemma_fundamental_div_mod(dlen, bs as int);
            assert((blk + 1) * bs <= dlen) by (nonlinear_arith)
                requires
                    i as int == (bs as int) * (blk as int) + inner,
                    0 <= inner < bs,
                    i < target,
                    target <= dlen,
                    dlen % (bs as int) == 0,
                    bs > 0,
                    blk == i / bs,
                    dlen == (bs as int) * (dlen / (bs as int)) + dlen % (bs as int),
            ;
            assert((blk + 1) * bs - blk * bs == bs) by (nonlinear_arith);
            assert(bs <= (blk + 1) * bs) by (nonlinear_arith)
                requires bs > 0, blk >= 0;
        }
        let ghost before = storage.spec_data();
        let mut block = match storage.read(blk) {
            Ok(b) => b,
            Err(_) => {
                proof {
                    assert(false);
                }
                return Err(EIO);
            }
        };
        let avail = bs as usize - inner;
        let remaining = (target - i) as usize;
        let want = if remaining < avail {
            remaining
        } else {
            avail
        };
        let mut j: usize = 0;
        while j < want
            invariant
                j <= want,
                inner + want <= block@.len(),
                block@.len() == bs,
                want <= target - i,
                offset <= i,
                i + want <= target,
                (i - offset) + want <= buf@.len(),
                forall|k: int|
                    0 <= k < block@.len() && !(inner <= k < inner + j) ==> block@[k] == before[(i
                        - inner) + k],
                forall|k: int|
                    inner <= k < inner + j ==> block@[k] == buf@[(i - offset) + (k - inner)],
            decreases want - j,
        {
            block.set(inner + j, buf[(i - offset) as usize + j]);
            j += 1;
        }
        match storage.write(block.as_slice(), blk) {
            Ok(()) => {}
            Err(_) => {
                proof {
                    assert(false);
                }
                return Err(EIO);
            }
        }
        proof {
            assert forall|k: int| offset <= k < i + want implies storage.spec_data()[k] == buf@[k
                - offset] by {
                assert((bs as int) * (blk as int) == i - inner);
                if k >= i {
                    assert(storage.spec_data()[k] == block@[k - (i - inner)]);
                }
            }
            assert forall|k: int|
                0 <= k < old(storage).spec_data().len() && !(offset <= k < i + want) implies
                storage.spec_data()[k] == old(storage).spec_data()[k] by {
                assert((bs as int) * (blk as int) == i - inner);
                if i - inner <= k < i - inner + bs {
                    assert(storage.spec_data()[k] == block@[k - (i - inner)]);
                }
            }
        }
        i = i + want as u64;
    }
    Ok(())
}

/// A disk partition.
#[derive(Clone, Copy, Debug, PartialEq, Eq, Structural)]
pub struct Partition {
    /// The offset of the first sector of the partition.
    pub start: u64,
    /// The number of sectors in the partition.
    pub size: u64,
}

impl Partition {
    /// Creates a new instance with the given start sector and size.
    pub fn new(start: u64, size: u64) -> (r: Self)
        ensures
            r.start == start,
            r.size == size,
    {
        Partition { start, size }
    }

    /// Returns the offset of the first sector of the partition.
    pub fn get_start(&self) -> (r: u64)
        ensures
            r == self.start,
    {
        self.start
    }

    /// Returns the number of sectors in the partition.
    pub fn get_size(&self) -> (r: u64)
        ensures
            r == self.size,
    {
        self.size
    }
}


impl crate::device::DeviceHandle for RamDisk {
    closed spec fn spec_data(&self) -> Seq<u8> {
        self.data@
    }

    fn get_size(&self) -> (r: u64) {
        self.data.len() as u64
    }

    fn read(&mut self, offset: u64, len: usize) -> (r: Result<Vec<u8>, Errno>) {
        if offset > self.data.len() as u64 || len as u64 > self.data.len() as u64 - offset {
            return Err(EINVAL);
        }
        let start = offset as usize;
        let mut out: Vec<u8> = Vec::new();
        let mut i: usize = 0;
        while i < len
            invariant
                i <= len,
                start + len <= self.data@.len(),
                out@ == self.data@.subrange(start as int, start + i),
                *self == *old(self),
            decreases len - i,
        {
            out.push(self.data[start + i]);
            proof {
                assert(out@ =~= self.data@.subrange(start as int, start + i + 1));
            }
            i += 1;
        }
        Ok(out)
    }

    fn write(&mut self, offset: u64, buff: &[u8]) -> (r: Result<(), Errno>) {
        if offset > self.data.len() as u64 || buff.len() as u64 > self.data.len() as u64
            - offset {
            return Err(EINVAL);
        }
        let start = offset as usize;
        let len = buff.len();
        let mut i: usize = 0;
        while i < len
            invariant
                i <= len,
                len == buff@.len(),
                start + len <= self.data@.len(),
                self.data@.len() == old(self).data@.len(),
                self.block_size == old(self).block_size,
                forall|k: int| start <= k < start + i ==> self.data@[k] == buff@[k - start],
                forall|k: int|
                    0 <= k < self.data@.len() && !(start <= k < start + i) ==> self.data@[k]
                        == old(self).data@[k],
            decreases len - i,
        {
            self.data.set(start + i, buff[i]);
            i += 1;
        }
        Ok(())
    }
}

} // verus!
