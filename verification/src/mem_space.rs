//! The address-space abstraction: gaps, mappings, copy-on-write and faults.
//!
//! An address space is a total partition of the user-addressable page range
//! into gaps (allocatable holes) and mappings (backed memory). Sizes and
//! addresses are counted in pages.

use vstd::prelude::*;

use crate::errno::{Errno, EFAULT, EINVAL, ENOMEM, EPERM};
use crate::PAGE_SIZE;

verus! {

/// The end of the user-addressable range, in bytes.
pub const PROCESS_END: usize = 0xc0000000;
/// The end of the user-addressable range, in pages.
pub const PROCESS_END_PAGES: usize = 0xc0000;

/// Mapping flag: accessible from userspace.
pub const MAPPING_FLAG_USER: u8 = 0b0001;
/// Mapping flag: writable.
pub const MAPPING_FLAG_WRITE: u8 = 0b0010;
/// Mapping flag: executable.
pub const MAPPING_FLAG_EXEC: u8 = 0b0100;
/// Mapping flag: shared between processes.
pub const MAPPING_FLAG_SHARED: u8 = 0b1000;

/// A gap: a page range available for new mappings.
#[derive(Clone, Copy, Debug)]
pub struct MemGap {
    /// The first page of the gap.
    begin: usize,
    /// The size of the gap in pages; never zero in a well-formed gap.
    size: usize,
}

impl MemGap {
    /// The first page.
    pub closed spec fn spec_begin(&self) -> int {
        self.begin as int
    }

    /// The size in pages.
    pub closed spec fn spec_size(&self) -> int {
        self.size as int
    }

    /// A gap has a non-zero size and lies below the end of the space.
    pub open spec fn wf(&self) -> bool {
        &&& self.spec_size() > 0
        &&& self.spec_begin() + self.spec_size() <= PROCESS_END_PAGES
    }

    /// Creates a new gap of `size` pages at page `begin`.
    pub fn new(begin: usize, size: usize) -> (r: Self)
        requires
            size > 0,
            begin + size <= PROCESS_END_PAGES,
        ensures
            r.spec_begin() == begin,
            r.spec_size() == size,
            r.wf(),
    {
        MemGap { begin, size }
    }

    /// Returns the first page of the gap.
    pub fn get_begin(&self) -> (r: usize)
        ensures
            r == self.spec_begin(),
    {
        self.begin
    }

    /// Returns the page one past the gap.
    pub fn get_end(&self) -> (r: usize)
        requires
            self.wf(),
        ensures
            r == self.spec_begin() + self.spec_size(),
    {
        self.begin + self.size
    }

    /// Returns the size of the gap in pages.
    pub fn get_size(&self) -> (r: usize)
        ensures
            r == self.spec_size(),
    {
        self.size
    }

    /// Consumes `size` pages at offset `off` inside the gap, to map memory
    /// onto them, and returns the residual gaps on each side. A residual of
    /// zero length is dropped.
    pub fn consume(&self, off: usize, size: usize) -> (r: (Option<MemGap>, Option<MemGap>))
        requires
            self.wf(),
            off + size <= self.spec_size(),
        ensures
            r.0 is Some <==> off > 0,
            r.1 is Some <==> off + size < self.spec_size(),
            r.0 matches Some(left) ==> left.wf() && left.spec_begin() == self.spec_begin()
                && left.spec_size() == off,
            r.1 matches Some(right) ==> right.wf() && right.spec_begin() == self.spec_begin()
                + off + size && right.spec_size() == self.spec_size() - off - size,
    {
        let left = if off > 0 {
            Some(MemGap { begin: self.begin, size: off })
        } else {
            None
        };
        let right = if off + size < self.size {
            Some(MemGap { begin: self.begin + off + size, size: self.size - off - size })
        } else {
            None
        };
        (left, right)
    }

    /// Merges the given gap into the current one.
    ///
    /// When the two gaps are adjacent the result covers both; otherwise the
    /// gap is unchanged.
    pub fn merge(&mut self, other: MemGap)
        requires
            old(self).wf(),
            other.wf(),
        ensures
            other.spec_begin() + other.spec_size() == old(self).spec_begin() ==> {
                &&& final(self).spec_begin() == other.spec_begin()
                &&& final(self).spec_size() == old(self).spec_size() + other.spec_size()
            },
            old(self).spec_begin() + old(self).spec_size() == other.spec_begin() ==> {
                &&& final(self).spec_begin() == old(self).spec_begin()
                &&& final(self).spec_size() == old(self).spec_size() + other.spec_size()
            },
            other.spec_begin() + other.spec_size() != old(self).spec_begin() && old(self).spec_begin() + old(self).spec_size() != other.spec_begin() ==> *final(self) == *old(self),
    {
        if other.begin + other.size == self.begin {
            self.begin = other.begin;
            self.size = self.size + other.size;
        } else if self.begin + self.size == other.begin {
            self.size = self.size + other.size;
        }
    }
}

/// A file backing a mapping: the file's identity and the byte offset the
/// mapping starts at.
#[derive(Clone, Copy, Debug, PartialEq, Eq, Structural)]
pub struct FileBacking {
    /// The backing file's identity.
    pub file_id: u32,
    /// The byte offset of the mapping in the file.
    pub offset: u64,
}

/// A mapping: a page range backed by memory.
#[derive(Clone, Debug)]
pub struct Mapping {
    /// The first page of the mapping.
    begin: usize,
    /// The size of the mapping in pages; never zero in a well-formed one.
    size: usize,
    /// The mapping's flags.
    flags: u8,
    /// The backing file, if any.
    file: Option<FileBacking>,
    /// Whether the pages are shared copy-on-write with another space.
    cow: bool,
    /// The bytes of the mapped pages.
    content: Vec<u8>,
}

/// What one page of an address space holds.
pub enum PageView {
    /// The page is free: part of a gap.
    Free,
    /// The page is mapped.
    Mapped {
        /// The mapping's flags.
        flags: u8,
        /// Whether the page is shared copy-on-write.
        cow: bool,
        /// The backing file, if any: its identity and the byte offset of
        /// this very page in it.
        file: Option<(u32, int)>,
        /// The page's bytes.
        bytes: Seq<u8>,
    },
}

/// One element of the partition: a gap or a mapping.
#[derive(Clone, Debug)]
pub enum SpaceSlot {
    /// An allocatable hole.
    Free(MemGap),
    /// A backed page range.
    Used(Mapping),
}

impl SpaceSlot {
    /// The first page of the slot.
    pub open spec fn spec_begin(&self) -> int {
        match self {
            SpaceSlot::Free(g) => g.spec_begin(),
            SpaceSlot::Used(m) => m.spec_begin(),
        }
    }

    /// The size of the slot in pages.
    pub open spec fn spec_size(&self) -> int {
        match self {
            SpaceSlot::Free(g) => g.spec_size(),
            SpaceSlot::Used(m) => m.spec_size(),
        }
    }

    /// The page one past the slot.
    pub open spec fn spec_end(&self) -> int {
        self.spec_begin() + self.spec_size()
    }

    /// Whether the slot is well-formed on its own: non-zero size, and a
    /// mapping carries one page of bytes per page.
    pub open spec fn slot_wf(&self) -> bool {
        match self {
            SpaceSlot::Free(g) => g.spec_size() > 0,
            SpaceSlot::Used(m) => m.spec_size() > 0 && m.spec_content().len() == m.spec_size()
                * PAGE_SIZE && (m.spec_file() matches Option::Some(fb) ==> fb.offset + m.spec_size()
                * PAGE_SIZE <= u64::MAX),
        }
    }

    /// What page `p` of the space holds, when it falls inside this slot.
    pub open spec fn page_at(&self, p: int) -> PageView {
        match self {
            SpaceSlot::Free(g) => PageView::Free,
            SpaceSlot::Used(m) => PageView::Mapped {
                flags: m.spec_flags(),
                cow: m.spec_cow(),
                file: match m.spec_file() {
                    Option::Some(fb) => Option::Some(
                        (fb.file_id, fb.offset + (p - m.spec_begin()) * PAGE_SIZE),
                    ),
                    Option::None => Option::None,
                },
                bytes: m.spec_content().subrange(
                    (p - m.spec_begin()) * PAGE_SIZE,
                    (p - m.spec_begin() + 1) * PAGE_SIZE,
                ),
            },
        }
    }
}

impl Mapping {
    /// The first page.
    pub closed spec fn spec_begin(&self) -> int {
        self.begin as int
    }

    /// The size in pages.
    pub closed spec fn spec_size(&self) -> int {
        self.size as int
    }

    /// The flags.
    pub closed spec fn spec_flags(&self) -> u8 {
        self.flags
    }

    /// The backing file.
    pub closed spec fn spec_file(&self) -> Option<FileBacking> {
        self.file
    }

    /// Whether the pages are shared copy-on-write.
    pub closed spec fn spec_cow(&self) -> bool {
        self.cow
    }

    /// The mapped bytes.
    pub closed spec fn spec_content(&self) -> Seq<u8> {
        self.content@
    }
}

/// What page `p` holds in a slot list: the view of the first slot containing
/// it, or a free page when none does.
pub open spec fn spec_page_of(slots: Seq<SpaceSlot>, p: int) -> PageView
    decreases slots.len(),
{
    if slots.len() == 0 {
        PageView::Free
    } else if slots[0].spec_begin() <= p < slots[0].spec_end() {
        slots[0].page_at(p)
    } else {
        spec_page_of(slots.skip(1), p)
    }
}

/// Whether a slot list is contiguous from page `from` to page `to`: each
/// slot begins where the previous one ended.
pub open spec fn spec_contiguous(slots: Seq<SpaceSlot>, from: int, to: int) -> bool
    decreases slots.len(),
{
    if slots.len() == 0 {
        from == to
    } else {
        &&& slots[0].spec_begin() == from
        &&& slots[0].spec_size() > 0
        &&& spec_contiguous(slots.skip(1), slots[0].spec_end(), to)
    }
}

/// Whether no two adjacent slots of the list are both gaps.
pub open spec fn spec_gaps_merged(slots: Seq<SpaceSlot>) -> bool {
    forall|i: int|
        0 <= i && i + 1 < slots.len() ==> !(#[trigger] slots[i] is Free && slots[i + 1] is Free)
}


/// Contiguity of a concatenation follows from contiguity of the parts.
pub proof fn lemma_contiguous_concat(a: Seq<SpaceSlot>, b: Seq<SpaceSlot>, from: int, mid: int, to: int)
    requires
        spec_contiguous(a, from, mid),
        spec_contiguous(b, mid, to),
    ensures
        spec_contiguous(a + b, from, to),
    decreases a.len(),
{
    if a.len() == 0 {
        assert(a + b =~= b);
    } else {
        lemma_contiguous_concat(a.skip(1), b, a[0].spec_end(), mid, to);
        assert((a + b).skip(1) =~= a.skip(1) + b);
    }
}

/// A contiguous list splits at any index into two contiguous parts.
pub proof fn lemma_contiguous_split(slots: Seq<SpaceSlot>, from: int, to: int, i: int)
    requires
        spec_contiguous(slots, from, to),
        0 <= i <= slots.len(),
    ensures
        spec_contiguous(slots.take(i), from, if i == 0 { from } else { slots[i - 1].spec_end() }),
        spec_contiguous(slots.skip(i), if i == 0 { from } else { slots[i - 1].spec_end() }, to),
    decreases i,
{
    if i > 0 {
        lemma_contiguous_split(slots.skip(1), slots[0].spec_end(), to, i - 1);
        assert(slots.take(i).skip(1) =~= slots.skip(1).take(i - 1));
        if i > 1 {
            assert(slots.skip(1)[i - 2] == slots[i - 1]);
        }
        assert(slots.skip(1).skip(i - 1) =~= slots.skip(i));
    } else {
        assert(slots.take(0) =~= Seq::<SpaceSlot>::empty());
        assert(slots.skip(0) =~= slots);
    }
}

/// In a contiguous list every slot lies between the bounds.
pub proof fn lemma_contiguous_bounds(slots: Seq<SpaceSlot>, from: int, to: int)
    requires
        spec_contiguous(slots, from, to),
    ensures
        from <= to,
        forall|i: int|
            0 <= i < slots.len() ==> from <= #[trigger] slots[i].spec_begin()
                && slots[i].spec_end() <= to,
    decreases slots.len(),
{
    if slots.len() > 0 {
        lemma_contiguous_bounds(slots.skip(1), slots[0].spec_end(), to);
        assert forall|i: int|
            0 <= i < slots.len() implies from <= #[trigger] slots[i].spec_begin()
            && slots[i].spec_end() <= to by {
            if i > 0 {
                assert(slots.skip(1)[i - 1] == slots[i]);
            }
        }
    }
}

/// Looking a page up in a concatenation of contiguous lists delegates to the
/// part whose range holds the page.
pub proof fn lemma_page_of_concat(a: Seq<SpaceSlot>, b: Seq<SpaceSlot>, from: int, mid: int, to: int, p: int)
    requires
        spec_contiguous(a, from, mid),
        spec_contiguous(b, mid, to),
    ensures
        p < mid ==> spec_page_of(a + b, p) == spec_page_of(a, p),
        p >= mid ==> spec_page_of(a + b, p) == spec_page_of(b, p),
    decreases a.len(),
{
    if a.len() == 0 {
        assert(a + b =~= b);
        if p < mid {
            lemma_page_of_below(b, mid, to, p);
        }
    } else {
        lemma_page_of_concat(a.skip(1), b, a[0].spec_end(), mid, to, p);
        assert((a + b).skip(1) =~= a.skip(1) + b);
        if a[0].spec_begin() <= p < a[0].spec_end() {
            lemma_contiguous_bounds(a.skip(1), a[0].spec_end(), mid);
            lemma_contiguous_bounds(b, mid, to);
        }
    }
}

/// A page below a contiguous list's range is free in it.
pub proof fn lemma_page_of_below(slots: Seq<SpaceSlot>, from: int, to: int, p: int)
    requires
        spec_contiguous(slots, from, to),
        p < from,
    ensures
        spec_page_of(slots, p) is Free,
    decreases slots.len(),
{
    if slots.len() > 0 {
        lemma_page_of_below(slots.skip(1), slots[0].spec_end(), to, p);
    }
}

/// A page at or above a contiguous list's range is free in it.
pub proof fn lemma_page_of_above(slots: Seq<SpaceSlot>, from: int, to: int, p: int)
    requires
        spec_contiguous(slots, from, to),
        p >= to,
    ensures
        spec_page_of(slots, p) is Free,
    decreases slots.len(),
{
    if slots.len() > 0 {
        lemma_contiguous_bounds(slots.skip(1), slots[0].spec_end(), to);
        lemma_page_of_above(slots.skip(1), slots[0].spec_end(), to, p);
    }
}

/// In a contiguous list, the page view at `p` is the page view of the slot
/// whose range holds `p`.
pub proof fn lemma_page_of_slot(slots: Seq<SpaceSlot>, from: int, to: int, i: int, p: int)
    requires
        spec_contiguous(slots, from, to),
        0 <= i < slots.len(),
        slots[i].spec_begin() <= p < slots[i].spec_end(),
    ensures
        spec_page_of(slots, p) == slots[i].page_at(p),
    decreases i,
{
    if i == 0 {
    } else {
        lemma_page_of_slot(slots.skip(1), slots[0].spec_end(), to, i - 1, p);
        assert(slots.skip(1)[i - 1] == slots[i]);
        lemma_contiguous_bounds(slots.skip(1), slots[0].spec_end(), to);
        assert(slots.skip(1)[i - 1].spec_begin() >= slots[0].spec_end());
    }
}

/// An address space: a total partition of the user page range into gaps and
/// mappings, ordered by address.
pub struct MemSpace {
    /// The partition's elements, contiguous from page zero to the end of the
    /// user range.
    slots: Vec<SpaceSlot>,
}

impl MemSpace {
    /// The partition's elements.
    pub closed spec fn slots_view(&self) -> Seq<SpaceSlot> {
        self.slots@
    }

    /// The space's invariant: the elements are non-empty, carry one page of
    /// bytes per mapped page, and tile the user range exactly, with no two
    /// gaps adjacent.
    pub open spec fn wf(&self) -> bool {
        &&& spec_contiguous(self.slots_view(), 0, PROCESS_END_PAGES as int)
        &&& forall|i: int|
            0 <= i < self.slots_view().len() ==> (#[trigger] self.slots_view()[i]).slot_wf()
        &&& spec_gaps_merged(self.slots_view())
    }

    /// What page `p` holds.
    pub open spec fn page(&self, p: int) -> PageView {
        spec_page_of(self.slots_view(), p)
    }

    /// The byte at address `addr`, when its page is mapped.
    pub open spec fn spec_byte_at(&self, addr: int) -> u8 {
        match self.page(addr / PAGE_SIZE as int) {
            PageView::Mapped { bytes, .. } => bytes[addr % PAGE_SIZE as int],
            PageView::Free => 0,
        }
    }

    /// Creates a new, empty address space: one gap covering the whole user
    /// range.
    pub fn new() -> (r: Self)
        ensures
            r.wf(),
            forall|p: int| r.page(p) is Free,
    {
        let mut slots: Vec<SpaceSlot> = Vec::new();
        slots.push(SpaceSlot::Free(MemGap { begin: 0, size: PROCESS_END_PAGES }));
        let r = MemSpace { slots };
        proof {
            assert(r.slots_view().skip(1) =~= Seq::<SpaceSlot>::empty());
            assert(spec_contiguous(Seq::<SpaceSlot>::empty(), PROCESS_END_PAGES as int, PROCESS_END_PAGES as int));
            assert forall|p: int| r.page(p) is Free by {
                assert(r.slots_view().skip(1) =~= Seq::<SpaceSlot>::empty());
                assert(spec_page_of(Seq::<SpaceSlot>::empty(), p) is Free);
            }
        }
        r
    }
}

/// The partition law: in a well-formed address space, every page of the user
/// range lies in exactly one element, so gaps and mappings overlap nowhere
/// and leave no page uncovered.
pub proof fn lemma_space_partition(s: MemSpace, p: int)
    requires
        s.wf(),
        0 <= p < PROCESS_END_PAGES,
    ensures
        exists|i: int|
            0 <= i < s.slots_view().len() && (#[trigger] s.slots_view()[i]).spec_begin() <= p
                < s.slots_view()[i].spec_end(),
        forall|i: int, j: int|
            0 <= i < s.slots_view().len() && 0 <= j < s.slots_view().len()
                && (#[trigger] s.slots_view()[i]).spec_begin() <= p < s.slots_view()[i].spec_end()
                && (#[trigger] s.slots_view()[j]).spec_begin() <= p < s.slots_view()[j].spec_end()
                ==> i == j,
{
    lemma_partition_exists(s.slots_view(), 0, PROCESS_END_PAGES as int, p);
    assert forall|i: int, j: int|
        0 <= i < s.slots_view().len() && 0 <= j < s.slots_view().len()
            && (#[trigger] s.slots_view()[i]).spec_begin() <= p < s.slots_view()[i].spec_end()
            && (#[trigger] s.slots_view()[j]).spec_begin() <= p < s.slots_view()[j].spec_end()
            implies i == j by {
        if i < j {
            lemma_partition_order(s.slots_view(), 0, PROCESS_END_PAGES as int, i, j);
            assert(false);
        }
        if j < i {
            lemma_partition_order(s.slots_view(), 0, PROCESS_END_PAGES as int, j, i);
            assert(false);
        }
    }
}

/// A page inside a contiguous list's range lies in some slot.
proof fn lemma_partition_exists(slots: Seq<SpaceSlot>, from: int, to: int, p: int)
    requires
        spec_contiguous(slots, from, to),
        from <= p < to,
    ensures
        exists|i: int|
            0 <= i < slots.len() && (#[trigger] slots[i]).spec_begin() <= p < slots[i].spec_end(),
    decreases slots.len(),
{
    if slots[0].spec_begin() <= p < slots[0].spec_end() {
        assert(0 <= 0 < slots.len() && slots[0].spec_begin() <= p < slots[0].spec_end());
    } else {
        lemma_partition_exists(slots.skip(1), slots[0].spec_end(), to, p);
        let w = choose|i: int|
            0 <= i < slots.skip(1).len() && (#[trigger] slots.skip(1)[i]).spec_begin() <= p
                < slots.skip(1)[i].spec_end();
        assert(slots[w + 1] == slots.skip(1)[w]);
        assert(0 <= w + 1 < slots.len() && slots[w + 1].spec_begin() <= p < slots[w
            + 1].spec_end());
    }
}

/// Distinct slots of a contiguous list hold disjoint ranges, in order.
proof fn lemma_partition_order(slots: Seq<SpaceSlot>, from: int, to: int, i: int, j: int)
    requires
        spec_contiguous(slots, from, to),
        0 <= i < j < slots.len(),
    ensures
        slots[i].spec_end() <= slots[j].spec_begin(),
    decreases i + j,
{
    if i == 0 {
        lemma_contiguous_bounds(slots.skip(1), slots[0].spec_end(), to);
        assert(slots.skip(1)[j - 1] == slots[j]);
    } else {
        lemma_partition_order(slots.skip(1), slots[0].spec_end(), to, i - 1, j - 1);
        assert(slots.skip(1)[i - 1] == slots[i]);
        assert(slots.skip(1)[j - 1] == slots[j]);
    }
}


/// A vector of `n` zero bytes.
fn zero_vec(n: usize) -> (r: Vec<u8>)
    ensures
        r@.len() == n,
        forall|k: int| 0 <= k < n ==> r@[k] == 0u8,
{
    let mut out: Vec<u8> = Vec::new();
    let mut i: usize = 0;
    while i < n
        invariant
            i <= n,
            out@.len() == i,
            forall|k: int| 0 <= k < i ==> out@[k] == 0u8,
        decreases n - i,
    {
        out.push(0);
        i += 1;
    }
    out
}

/// The view of page `rel` of a fresh mapping: the given flags and backing,
/// not shared, all bytes zero.
pub open spec fn spec_fresh_page(flags: u8, file: Option<FileBacking>, rel: int) -> PageView {
    PageView::Mapped {
        flags,
        cow: false,
        file: match file {
            Option::Some(fb) => Option::Some((fb.file_id, fb.offset + rel * PAGE_SIZE)),
            Option::None => Option::None,
        },
        bytes: Seq::new(PAGE_SIZE as nat, |k: int| 0u8),
    }
}

/// A placement constraint for `map`.
#[derive(Clone, Copy, Debug)]
pub enum MapConstraint {
    /// The mapping must sit exactly at the given page.
    Fixed(usize),
    /// The gap containing the given page is tried first; the caller falls
    /// back to no constraint when that fails.
    Hint(usize),
    /// No constraint: the lowest-address gap that fits is used.
    NoConstraint,
}

impl MemSpace {
    /// The invariant without the gap-merging clause, used while a compound
    /// operation is rebuilding the partition.
    pub open spec fn wf_core(&self) -> bool {
        &&& spec_contiguous(self.slots_view(), 0, PROCESS_END_PAGES as int)
        &&& forall|i: int|
            0 <= i < self.slots_view().len() ==> (#[trigger] self.slots_view()[i]).slot_wf()
    }

    /// Replaces slot `i` by the given pieces, which must tile its range.
    fn splice(&mut self, i: usize, pieces: Vec<SpaceSlot>)
        requires
            old(self).wf_core(),
            i < old(self).slots_view().len(),
            spec_contiguous(
                pieces@,
                old(self).slots_view()[i as int].spec_begin(),
                old(self).slots_view()[i as int].spec_end(),
            ),
            forall|k: int| 0 <= k < pieces@.len() ==> (#[trigger] pieces@[k]).slot_wf(),
        ensures
            final(self).wf_core(),
            final(self).slots_view() == old(self).slots_view().take(i as int) + pieces@ + old(self).slots_view().skip(i + 1),
            forall|p: int|
                old(self).slots_view()[i as int].spec_begin() <= p < old(self).slots_view()[i as int].spec_end() ==> final(self).page(p) == spec_page_of(
                    pieces@,
                    p,
                ),
            forall|p: int|
                !(old(self).slots_view()[i as int].spec_begin() <= p < old(self).slots_view()[i as int].spec_end()) ==> final(self).page(p) == old(self).page(p),
    {
        let ghost oldslots = self.slots@;
        let ghost lo = oldslots[i as int].spec_begin();
        let ghost hi = oldslots[i as int].spec_end();
        self.slots.remove(i);
        let mut pieces_mut = pieces;
        let ghost gpieces = pieces_mut@;
        let pieces_len = pieces_mut.len();
        let mut pk: usize = 0;
        while pk < pieces_len
            invariant
                pk <= pieces_len,
                pieces_len == gpieces.len(),
                pieces_mut@ == gpieces.skip(pk as int),
                i + pk <= self.slots@.len(),
                self.slots@ == oldslots.take(i as int) + gpieces.take(pk as int) + oldslots.skip(
                    i + 1,
                ),
            decreases pieces_len - pk,
        {
            let piece = pieces_mut.remove(0);
            proof {
                assert(gpieces.skip(pk as int)[0] == gpieces[pk as int]);
            }
            let cur_len = self.slots.len();
            proof {
                assert(i + pk <= cur_len);
            }
            self.slots.insert(i + pk, piece);
            proof {
                assert(pieces_mut@ =~= gpieces.skip(pk + 1));
                assert(self.slots@ =~= oldslots.take(i as int) + gpieces.take(pk + 1)
                    + oldslots.skip(i + 1));
            }
            pk += 1;
        }
        proof {
            assert(gpieces.take(pieces_len as int) =~= gpieces);
            assert(self.slots@ =~= oldslots.take(i as int) + gpieces + oldslots.skip(i + 1));
            let a = oldslots.take(i as int);
            let c = oldslots.skip(i + 1);
            lemma_contiguous_split(oldslots, 0, PROCESS_END_PAGES as int, i as int);
            lemma_contiguous_split(oldslots.skip(i as int), lo, PROCESS_END_PAGES as int, 1);
            assert(oldslots.skip(i as int)[0] == oldslots[i as int]);
            assert(oldslots.skip(i as int).skip(1) =~= c);
            assert(oldslots.skip(i as int).take(1) =~= seq![oldslots[i as int]]);
            assert(spec_contiguous(c, hi, PROCESS_END_PAGES as int));
            assert(i > 0 ==> oldslots.take(i as int)[i - 1] == oldslots[i - 1]);
            assert(spec_contiguous(a, 0, lo));
            lemma_contiguous_concat(gpieces, c, lo, hi, PROCESS_END_PAGES as int);
            lemma_contiguous_concat(a, gpieces + c, 0, lo, PROCESS_END_PAGES as int);
            assert(a + (gpieces + c) =~= self.slots@);
            assert forall|q: int| 0 <= q < self.slots@.len() implies (
            #[trigger] self.slots@[q]).slot_wf() by {
                if q < i {
                    assert(self.slots@[q] == oldslots[q]);
                } else if q < i + gpieces.len() {
                    assert(self.slots@[q] == gpieces[q - i]);
                } else {
                    assert(self.slots@[q] == oldslots[q - gpieces.len() + 1]);
                }
            }
            assert forall|p: int| lo <= p < hi implies self.page(p) == spec_page_of(
                gpieces,
                p,
            ) by {
                lemma_page_of_concat(a, gpieces + c, 0, lo, PROCESS_END_PAGES as int, p);
                lemma_page_of_concat(gpieces, c, lo, hi, PROCESS_END_PAGES as int, p);
            }
            assert forall|p: int| !(lo <= p < hi) implies self.page(p) == spec_page_of(
                oldslots,
                p,
            ) by {
                lemma_page_of_concat(a, gpieces + c, 0, lo, PROCESS_END_PAGES as int, p);
                lemma_page_of_concat(gpieces, c, lo, hi, PROCESS_END_PAGES as int, p);
                lemma_page_of_concat(a, oldslots.skip(i as int), 0, lo, PROCESS_END_PAGES as int, p);
                lemma_page_of_concat(
                    seq![oldslots[i as int]],
                    c,
                    lo,
                    hi,
                    PROCESS_END_PAGES as int,
                    p,
                );
                assert(a + oldslots.skip(i as int) =~= oldslots);
                assert(seq![oldslots[i as int]] + c =~= oldslots.skip(i as int));
                if p < lo {
                } else {
                    assert(spec_page_of(seq![oldslots[i as int]], p) == spec_page_of(
                        seq![oldslots[i as int]].skip(1),
                        p,
                    ));
                    assert(seq![oldslots[i as int]].skip(1) =~= Seq::<SpaceSlot>::empty());
                }
            }
        }
    }
}


impl SpaceSlot {
    /// Returns the first page of the slot.
    fn begin(&self) -> (r: usize)
        ensures
            r == self.spec_begin(),
    {
        match self {
            SpaceSlot::Free(g) => g.get_begin(),
            SpaceSlot::Used(m) => m.begin,
        }
    }

    /// Returns the size of the slot in pages.
    fn size(&self) -> (r: usize)
        ensures
            r == self.spec_size(),
    {
        match self {
            SpaceSlot::Free(g) => g.get_size(),
            SpaceSlot::Used(m) => m.size,
        }
    }

    /// Tells whether the slot is a gap.
    fn is_free(&self) -> (r: bool)
        ensures
            r == (self is Free),
    {
        matches!(self, SpaceSlot::Free(_))
    }
}

/// Whether a slot is a gap with room for `pages` pages.
pub open spec fn spec_fits(slot: SpaceSlot, pages: int) -> bool {
    slot is Free && slot.spec_size() >= pages
}

/// Where `map` placed a mapping of `pages` pages, for each constraint:
/// without one, at the start of the lowest-address gap that fits; with a
/// hint, at the hint inside the gap containing it; fixed, exactly at the
/// asked page, inside a gap.
pub open spec fn spec_map_choice(
    slots: Seq<SpaceSlot>,
    constraint: MapConstraint,
    pages: int,
    addr: int,
) -> bool {
    match constraint {
        MapConstraint::NoConstraint => exists|i: int|
            0 <= i < slots.len() && #[trigger] spec_fits(slots[i], pages) && addr
                == slots[i].spec_begin() && (forall|j: int|
                0 <= j < i ==> !spec_fits(#[trigger] slots[j], pages)),
        MapConstraint::Hint(h) => addr == h && exists|i: int|
            0 <= i < slots.len() && (#[trigger] slots[i]).spec_begin() <= h < slots[i].spec_end()
                && slots[i] is Free && h + pages <= slots[i].spec_end(),
        MapConstraint::Fixed(a) => addr == a && exists|i: int|
            0 <= i < slots.len() && (#[trigger] slots[i]).spec_begin() <= a && a + pages
                <= slots[i].spec_end() && slots[i] is Free,
    }
}

/// Whether some address satisfies `spec_map_choice`.
pub open spec fn spec_can_map(slots: Seq<SpaceSlot>, constraint: MapConstraint, pages: int) -> bool {
    exists|addr: int| spec_map_choice(slots, constraint, pages, addr)
}

impl MemSpace {
    /// Finds the gap a new mapping of `pages` pages goes into, under the
    /// given constraint, and the offset of the mapping inside it.
    ///
    /// Returns `None` exactly when no gap satisfies the constraint.
    fn find_gap(&self, constraint: MapConstraint, pages: usize) -> (r: Option<(usize, usize)>)
        requires
            self.wf(),
            pages > 0,
        ensures
            match r {
                Some((i, off)) => {
                    &&& i < self.slots_view().len()
                    &&& self.slots_view()[i as int] is Free
                    &&& off + pages <= self.slots_view()[i as int].spec_size()
                    &&& spec_map_choice(
                        self.slots_view(),
                        constraint,
                        pages as int,
                        self.slots_view()[i as int].spec_begin() + off,
                    )
                },
                None => !spec_can_map(self.slots_view(), constraint, pages as int),
            },
    {
        let ghost oldslots = self.slots@;
        let n = self.slots.len();
        match constraint {
            MapConstraint::NoConstraint => {
                let mut j: usize = 0;
                while j < n
                    invariant
                        j <= n,
                        n == oldslots.len(),
                        forall|k: int| 0 <= k < j ==> !spec_fits(#[trigger] oldslots[k], pages as int),
                    decreases n - j,
                {
                    if self.slots[j].is_free() && self.slots[j].size() >= pages {
                        proof {
                            assert(spec_fits(oldslots[j as int], pages as int));
                            assert(spec_map_choice(
                                oldslots,
                                constraint,
                                pages as int,
                                oldslots[j as int].spec_begin(),
                            ));
                        }
                        return Some((j, 0));
                    }
                    j += 1;
                }
                proof {
                    assert forall|addr: int|
                        !spec_map_choice(oldslots, constraint, pages as int, addr) by {}
                }
                None
            }
            MapConstraint::Hint(h) => {
                let mut j: usize = 0;
                while j < n
                    invariant
                        j <= n,
                        n == oldslots.len(),
                        forall|k: int|
                            0 <= k < j ==> !((#[trigger] oldslots[k]).spec_begin() <= h
                                < oldslots[k].spec_end()),
                    decreases n - j,
                {
                    let b = self.slots[j].begin();
                    let sz = self.slots[j].size();
                    if b <= h && h - b < sz {
                        if self.slots[j].is_free() && pages <= sz - (h - b) {
                            proof {
                                assert(0 <= j < oldslots.len());
                                assert(oldslots[j as int].spec_begin() <= h
                                    < oldslots[j as int].spec_end());
                                assert(oldslots[j as int] is Free);
                                assert(h + pages <= oldslots[j as int].spec_end());
                                assert(spec_map_choice(oldslots, constraint, pages as int, h as int));
                            }
                            return Some((j, h - b));
                        }
                        proof {
                            assert forall|addr: int|
                                !spec_map_choice(oldslots, constraint, pages as int, addr) by {
                                if spec_map_choice(oldslots, constraint, pages as int, addr) {
                                    let i = choose|i: int|
                                        0 <= i < oldslots.len() && (
                                        #[trigger] oldslots[i]).spec_begin() <= h
                                            < oldslots[i].spec_end() && oldslots[i] is Free && h
                                            + pages <= oldslots[i].spec_end();
                                    lemma_slot_unique(oldslots, i, j as int, h as int);
                                }
                            }
                        }
                        return None;
                    }
                    j += 1;
                }
                proof {
                    assert forall|addr: int|
                        !spec_map_choice(oldslots, constraint, pages as int, addr) by {}
                }
                None
            }
            MapConstraint::Fixed(a) => {
                let mut j: usize = 0;
                while j < n
                    invariant
                        j <= n,
                        n == oldslots.len(),
                        forall|k: int|
                            0 <= k < j ==> !((#[trigger] oldslots[k]).spec_begin() <= a
                                < oldslots[k].spec_end()),
                    decreases n - j,
                {
                    let b = self.slots[j].begin();
                    let sz = self.slots[j].size();
                    if b <= a && a - b < sz {
                        if self.slots[j].is_free() && pages <= sz - (a - b) {
                            proof {
                                assert(spec_map_choice(oldslots, constraint, pages as int, a as int));
                            }
                            return Some((j, a - b));
                        }
                        proof {
                            assert forall|addr: int|
                                !spec_map_choice(oldslots, constraint, pages as int, addr) by {
                                if spec_map_choice(oldslots, constraint, pages as int, addr) {
                                    let i = choose|i: int|
                                        0 <= i < oldslots.len() && (
                                        #[trigger] oldslots[i]).spec_begin() <= a && a + pages
                                            <= oldslots[i].spec_end() && oldslots[i] is Free;
                                    lemma_slot_unique(oldslots, i, j as int, a as int);
                                }
                            }
                        }
                        return None;
                    }
                    j += 1;
                }
                proof {
                    assert forall|addr: int|
                        !spec_map_choice(oldslots, constraint, pages as int, addr) by {
                        if spec_map_choice(oldslots, constraint, pages as int, addr) {
                            let i = choose|i: int|
                                0 <= i < oldslots.len() && (#[trigger] oldslots[i]).spec_begin()
                                    <= a && a + pages <= oldslots[i].spec_end()
                                    && oldslots[i] is Free;
                            assert(oldslots[i].spec_begin() <= a < oldslots[i].spec_end());
                        }
                    }
                }
                None
            }
        }
    }

    /// Maps `pages` fresh pages with the given flags and optional backing
    /// file.
    ///
    /// The pages are taken out of a gap picked by the constraint: the
    /// lowest-address gap that fits, the gap containing the hint, or the gap
    /// containing the exact fixed range. The chosen gap is split into the
    /// new mapping and at most two residual gaps. On success the mapped
    /// pages read as zeros; every other page is untouched. Fails with
    /// `ENOMEM` exactly when no gap satisfies the constraint.
    #[verifier::rlimit(100)]
    pub fn map(
        &mut self,
        constraint: MapConstraint,
        pages: usize,
        flags: u8,
        file: Option<FileBacking>,
    ) -> (r: Result<usize, Errno>)
        requires
            old(self).wf(),
            pages > 0,
            file matches Some(fb) ==> fb.offset + pages * PAGE_SIZE <= u64::MAX,
        ensures
            final(self).wf(),
            match r {
                Ok(addr) => {
                    &&& addr + pages <= PROCESS_END_PAGES
                    &&& spec_map_choice(old(self).slots_view(), constraint, pages as int, addr as int)
                    &&& forall|p: int|
                        addr <= p < addr + pages ==> final(self).page(p) == spec_fresh_page(
                            flags,
                            file,
                            p - addr,
                        )
                    &&& forall|p: int|
                        !(addr <= p < addr + pages) ==> final(self).page(p) == old(self).page(p)
                    &&& forall|p: int| addr <= p < addr + pages ==> old(self).page(p) is Free
                },
                Err(e) => {
                    &&& e == ENOMEM
                    &&& *final(self) == *old(self)
                    &&& !spec_can_map(old(self).slots_view(), constraint, pages as int)
                },
            },
    {
        let ghost oldslots = self.slots@;
        let found = self.find_gap(constraint, pages);
        let (i, off) = match found {
            Some(x) => x,
            None => {
                return Err(ENOMEM);
            }
        };
        let gap = match &self.slots[i] {
            SpaceSlot::Free(g) => *g,
            SpaceSlot::Used(_) => {
                proof {
                    assert(false);
                }
                MemGap { begin: 0, size: 1 }
            }
        };
        proof {
            lemma_contiguous_bounds(oldslots, 0, PROCESS_END_PAGES as int);
            assert(gap.spec_begin() + gap.spec_size() <= PROCESS_END_PAGES);
        }
        let addr = gap.get_begin() + off;
        let (left, right) = gap.consume(off, pages);
        let content = zero_vec(pages * PAGE_SIZE);
        let mapping = Mapping {
            begin: addr,
            size: pages,
            flags,
            file,
            cow: false,
            content,
        };
        let mut pieces: Vec<SpaceSlot> = Vec::new();
        if let Some(l) = left {
            pieces.push(SpaceSlot::Free(l));
        }
        pieces.push(SpaceSlot::Used(mapping));
        if let Some(rgt) = right {
            pieces.push(SpaceSlot::Free(rgt));
        }
        proof {
            lemma_pieces_shape(pieces@, gap, addr as int, pages as int, off as int);
        }
        let ghost gpieces = pieces@;
        self.splice(i, pieces);
        proof {
            let lo = oldslots[i as int].spec_begin();
            let hi = oldslots[i as int].spec_end();
            assert forall|p: int| addr <= p < addr + pages implies final(self).page(p)
                == spec_fresh_page(flags, file, p - addr) by {
                lemma_pieces_page(gpieces, gap, addr as int, pages as int, off as int, p);
                let mi = if off > 0 { 1int } else { 0int };
                assert(final(self).page(p) == spec_page_of(gpieces, p));
                let m = gpieces[mi]->Used_0;
                assert((p - m.spec_begin() + 1) * PAGE_SIZE <= m.spec_content().len());
                assert(m.spec_content().subrange(
                    (p - m.spec_begin()) * PAGE_SIZE,
                    (p - m.spec_begin() + 1) * PAGE_SIZE,
                ) =~= Seq::new(PAGE_SIZE as nat, |k: int| 0u8));
            }
            assert forall|p: int| !(addr <= p < addr + pages) implies final(self).page(p) == old(self).page(p) by {
                if lo <= p < hi {
                    lemma_pieces_page_free(gpieces, gap, addr as int, pages as int, off as int, p);
                    lemma_page_of_slot(oldslots, 0, PROCESS_END_PAGES as int, i as int, p);
                }
            }
            assert forall|p: int| addr <= p < addr + pages implies old(self).page(p) is Free by {
                lemma_page_of_slot(oldslots, 0, PROCESS_END_PAGES as int, i as int, p);
            }
            // merged gaps: the pieces never put two gaps side by side, and
            // the neighbours of the replaced gap are mappings
            assert(spec_gaps_merged(gpieces));
            lemma_gaps_merged_splice(oldslots, i as int, gpieces);
        }
        Ok(addr)
    }
}

/// The pieces built by `map` tile the consumed gap and are well-formed.
proof fn lemma_pieces_shape(pieces: Seq<SpaceSlot>, gap: MemGap, addr: int, pages: int, off: int)
    requires
        pieces_shape_req(pieces, gap, addr, pages, off),
    ensures
        spec_contiguous(pieces, gap.spec_begin(), gap.spec_begin() + gap.spec_size()),
        forall|k: int| 0 <= k < pieces.len() ==> (#[trigger] pieces[k]).slot_wf(),
{
    let b = gap.spec_begin();
    let e = gap.spec_begin() + gap.spec_size();
    assert(pieces.skip(1).len() == pieces.len() - 1);
    if off > 0 {
        assert(pieces.skip(1)[0] == pieces[1]);
        if off + pages < gap.spec_size() {
            assert(pieces.skip(1).skip(1) =~= pieces.skip(2));
            assert(pieces.skip(2)[0] == pieces[2]);
            assert(pieces.skip(2).skip(1) =~= Seq::<SpaceSlot>::empty());
            assert(pieces[2] == pieces.last());
            assert(pieces[2].spec_end() == e);
            assert(spec_contiguous(Seq::<SpaceSlot>::empty(), e, e));
            assert(spec_contiguous(pieces.skip(2), addr + pages, e));
            assert(spec_contiguous(pieces.skip(1), pieces[0].spec_end(), e));
        } else {
            assert(pieces.skip(1).skip(1) =~= Seq::<SpaceSlot>::empty());
            assert(pieces[1] == pieces.last());
            assert(pieces[1].spec_end() == e);
            assert(spec_contiguous(Seq::<SpaceSlot>::empty(), e, e));
            assert(spec_contiguous(pieces.skip(1), pieces[0].spec_end(), e));
        }
    } else {
        if off + pages < gap.spec_size() {
            assert(pieces.skip(1)[0] == pieces[1]);
            assert(pieces.skip(1).skip(1) =~= Seq::<SpaceSlot>::empty());
            assert(pieces[1] == pieces.last());
            assert(pieces[1].spec_end() == e);
            assert(spec_contiguous(Seq::<SpaceSlot>::empty(), e, e));
            assert(spec_contiguous(pieces.skip(1), addr + pages, e));
        } else {
            assert(pieces.skip(1) =~= Seq::<SpaceSlot>::empty());
            assert(pieces[0] == pieces.last());
            assert(pieces[0].spec_end() == e);
            assert(spec_contiguous(Seq::<SpaceSlot>::empty(), e, e));
        }
    }
    assert forall|k: int| 0 <= k < pieces.len() implies (#[trigger] pieces[k]).slot_wf() by {
        let mi = if off > 0 { 1int } else { 0 };
        if k == mi {
        } else if k == 0 {
            assert(pieces[0] is Free && pieces[0].spec_size() == off);
        } else {
            assert(pieces[k] == pieces.last());
            assert(pieces.last() is Free);
        }
    }
}

/// The shape of the pieces built by `map`: an optional left gap, the fresh
/// mapping, an optional right gap.
pub open spec fn pieces_shape_req(
    pieces: Seq<SpaceSlot>,
    gap: MemGap,
    addr: int,
    pages: int,
    off: int,
) -> bool {
    &&& gap.spec_size() > 0
    &&& pages > 0
    &&& off >= 0
    &&& off + pages <= gap.spec_size()
    &&& addr == gap.spec_begin() + off
    &&& pieces.len() == 1 + (if off > 0 { 1int } else { 0 }) + (if off + pages < gap.spec_size() {
        1int
    } else {
        0
    })
    &&& (off > 0 ==> pieces[0] is Free && pieces[0].spec_begin() == gap.spec_begin()
        && pieces[0].spec_size() == off)
    &&& ({
        let mi = if off > 0 { 1int } else { 0 };
        &&& pieces[mi] is Used
        &&& pieces[mi].spec_begin() == addr
        &&& pieces[mi].spec_size() == pages
        &&& pieces[mi].slot_wf()
    })
    &&& (off + pages < gap.spec_size() ==> pieces.last() is Free && pieces.last().spec_begin()
        == addr + pages && pieces.last().spec_size() == gap.spec_size() - off - pages)
}

/// Inside the new mapping's range, the pieces map the page.
proof fn lemma_pieces_page(
    pieces: Seq<SpaceSlot>,
    gap: MemGap,
    addr: int,
    pages: int,
    off: int,
    p: int,
)
    requires
        pieces_shape_req(pieces, gap, addr, pages, off),
        addr <= p < addr + pages,
    ensures
        spec_page_of(pieces, p) == pieces[if off > 0 { 1int } else { 0 }].page_at(p),
{
    let mi = if off > 0 { 1int } else { 0 };
    if off > 0 {
        assert(!(pieces[0].spec_begin() <= p < pieces[0].spec_end()));
        assert(spec_page_of(pieces, p) == spec_page_of(pieces.skip(1), p));
        assert(pieces.skip(1)[0] == pieces[1]);
        assert(pieces.skip(1)[0].spec_begin() <= p < pieces.skip(1)[0].spec_end());
        assert(spec_page_of(pieces.skip(1), p) == pieces[1].page_at(p));
    } else {
        assert(pieces[0].spec_begin() <= p < pieces[0].spec_end());
    }
}

/// Outside the new mapping's range, the pieces leave the page free.
proof fn lemma_pieces_page_free(
    pieces: Seq<SpaceSlot>,
    gap: MemGap,
    addr: int,
    pages: int,
    off: int,
    p: int,
)
    requires
        pieces_shape_req(pieces, gap, addr, pages, off),
        !(addr <= p < addr + pages),
    ensures
        spec_page_of(pieces, p) is Free,
{
    lemma_pieces_shape(pieces, gap, addr, pages, off);
    lemma_contiguous_bounds(pieces, gap.spec_begin(), gap.spec_begin() + gap.spec_size());
    if p < gap.spec_begin() {
        lemma_page_of_below(pieces, gap.spec_begin(), gap.spec_begin() + gap.spec_size(), p);
    } else if p >= gap.spec_begin() + gap.spec_size() {
        lemma_page_of_above(pieces, gap.spec_begin(), gap.spec_begin() + gap.spec_size(), p);
    } else {
        lemma_partition_exists(pieces, gap.spec_begin(), gap.spec_begin() + gap.spec_size(), p);
        let i = choose|i: int|
            0 <= i < pieces.len() && (#[trigger] pieces[i]).spec_begin() <= p
                < pieces[i].spec_end();
        lemma_page_of_slot(
            pieces,
            gap.spec_begin(),
            gap.spec_begin() + gap.spec_size(),
            i,
            p,
        );
        let mi = if off > 0 { 1int } else { 0 };
        if i == mi {
            assert(false);
        }
        assert(pieces[i] is Free);
    }
}


/// Replacing a slot by pieces that keep gaps apart, and whose outer pieces
/// are gaps only where the replaced slot was one, keeps gaps apart overall.
proof fn lemma_gaps_merged_splice(oldslots: Seq<SpaceSlot>, i: int, pieces: Seq<SpaceSlot>)
    requires
        0 <= i < oldslots.len(),
        spec_gaps_merged(oldslots),
        spec_gaps_merged(pieces),
        pieces.len() > 0,
        pieces[0] is Free ==> oldslots[i] is Free,
        pieces.last() is Free ==> oldslots[i] is Free,
    ensures
        spec_gaps_merged(oldslots.take(i) + pieces + oldslots.skip(i + 1)),
{
    let newslots = oldslots.take(i) + pieces + oldslots.skip(i + 1);
    let pl = pieces.len() as int;
    assert forall|k: int|
        0 <= k && k + 1 < newslots.len() implies !(#[trigger] newslots[k] is Free && newslots[k
        + 1] is Free) by {
        if k + 1 < i {
            assert(newslots[k] == oldslots[k]);
            assert(newslots[k + 1] == oldslots[k + 1]);
        } else if k + 1 == i {
            assert(newslots[k] == oldslots[k]);
            assert(newslots[k + 1] == pieces[0]);
            if pieces[0] is Free {
                assert(oldslots[i] is Free);
            }
        } else if k + 1 < i + pl {
            if k < i {
            } else {
                assert(newslots[k] == pieces[k - i]);
                assert(newslots[k + 1] == pieces[k + 1 - i]);
            }
        } else if k + 1 == i + pl {
            assert(newslots[k] == pieces[k - i]);
            assert(pieces[k - i] == pieces.last());
            assert(newslots[k + 1] == oldslots[i + 1]);
            if pieces.last() is Free {
                assert(oldslots[i] is Free);
            }
        } else {
            assert(newslots[k] == oldslots[k - pl + 1]);
            assert(newslots[k + 1] == oldslots[k + 1 - pl + 1]);
        }
    }
}


/// Only one slot of a contiguous partition contains a given page.
proof fn lemma_slot_unique(slots: Seq<SpaceSlot>, i: int, j: int, x: int)
    requires
        spec_contiguous(slots, 0, PROCESS_END_PAGES as int),
        0 <= i < slots.len(),
        0 <= j < slots.len(),
        slots[i].spec_begin() <= x < slots[i].spec_end(),
        slots[j].spec_begin() <= x < slots[j].spec_end(),
    ensures
        i == j,
{
    if i < j {
        lemma_partition_order(slots, 0, PROCESS_END_PAGES as int, i, j);
    }
    if j < i {
        lemma_partition_order(slots, 0, PROCESS_END_PAGES as int, j, i);
    }
}


/// Copies the bytes of `s[from..to]` into a fresh vector.
fn copy_bytes(s: &[u8], from: usize, to: usize) -> (r: Vec<u8>)
    requires
        from <= to <= s@.len(),
    ensures
        r@ == s@.subrange(from as int, to as int),
{
    let mut out: Vec<u8> = Vec::new();
    let mut i: usize = from;
    while i < to
        invariant
            from <= i <= to,
            out@ == s@.subrange(from as int, i as int),
        decreases to - i,
    {
        out.push(s[i]);
        proof {
            assert(out@ =~= s@.subrange(from as int, i + 1));
        }
        i += 1;
    }
    out
}

/// Cuts the page range `[from, to)` out of a mapping, keeping its flags and
/// sharing state, its bytes, and each page's file offset.
fn slice_mapping(m: &Mapping, from: usize, to: usize) -> (r: Mapping)
    requires
        SpaceSlot::Used(*m).slot_wf(),
        m.spec_begin() <= from < to <= m.spec_begin() + m.spec_size(),
        to <= PROCESS_END_PAGES,
    ensures
        r.spec_begin() == from,
        r.spec_size() == to - from,
        r.spec_flags() == m.spec_flags(),
        r.spec_cow() == m.spec_cow(),
        SpaceSlot::Used(r).slot_wf(),
        forall|p: int|
            from <= p < to ==> SpaceSlot::Used(r).page_at(p) == SpaceSlot::Used(*m).page_at(p),
{
    let size = to - from;
    let rel = from - m.begin;
    proof {
        assert(rel * PAGE_SIZE <= m.spec_size() * PAGE_SIZE) by (nonlinear_arith)
            requires rel <= m.spec_size(), PAGE_SIZE > 0;
        assert((rel + size) * PAGE_SIZE <= m.spec_size() * PAGE_SIZE) by (nonlinear_arith)
            requires rel + size <= m.spec_size(), PAGE_SIZE > 0;
        assert(rel * PAGE_SIZE + size * PAGE_SIZE == (rel + size) * PAGE_SIZE) by (nonlinear_arith);
    }
    let content = copy_bytes(m.content.as_slice(), rel * PAGE_SIZE, rel * PAGE_SIZE + size
        * PAGE_SIZE);
    let file = match &m.file {
        Option::Some(fb) => {
            proof {
                assert(rel * PAGE_SIZE <= m.spec_size() * PAGE_SIZE);
            }
            Option::Some(FileBacking {
                file_id: fb.file_id,
                offset: fb.offset + (rel * PAGE_SIZE) as u64,
            })
        }
        Option::None => Option::None,
    };
    let r = Mapping { begin: from, size, flags: m.flags, file, cow: m.cow, content };
    proof {
        assert(r.spec_content().len() == size * PAGE_SIZE);
        assert((size * PAGE_SIZE) as int == r.spec_size() * PAGE_SIZE);
        assert forall|p: int|
            from <= p < to implies SpaceSlot::Used(r).page_at(p) == SpaceSlot::Used(*m).page_at(
            p,
        ) by {
            assert((p - from + 1) * PAGE_SIZE <= size * PAGE_SIZE) by (nonlinear_arith)
                requires p - from + 1 <= size, PAGE_SIZE > 0;
            assert(r.spec_content().subrange(
                (p - from) * PAGE_SIZE,
                (p - from + 1) * PAGE_SIZE,
            ) =~= m.spec_content().subrange(
                (p - m.spec_begin()) * PAGE_SIZE,
                (p - m.spec_begin() + 1) * PAGE_SIZE,
            ));
            match m.spec_file() {
                Option::Some(fb) => {
                    assert(r.spec_file() == Option::Some(FileBacking {
                        file_id: fb.file_id,
                        offset: (fb.offset + rel * PAGE_SIZE) as u64,
                    }));
                }
                Option::None => {}
            }
        }
    }
    r
}

impl MemSpace {
    /// Merges the gap at index `i + 1` into the gap at index `i`.
    fn merge_at(&mut self, i: usize)
        requires
            old(self).wf_core(),
            i + 1 < old(self).slots_view().len(),
            old(self).slots_view()[i as int] is Free,
            old(self).slots_view()[i + 1] is Free,
        ensures
            final(self).wf_core(),
            final(self).slots_view() == old(self).slots_view().take(i as int) + seq![
                final(self).slots_view()[i as int],
            ] + old(self).slots_view().skip(i + 2),
            final(self).slots_view()[i as int] is Free,
            final(self).slots_view().len() == old(self).slots_view().len() - 1,
            forall|p: int| final(self).page(p) == old(self).page(p),
    {
        let ghost oldslots = self.slots@;
        proof {
            lemma_contiguous_bounds(oldslots, 0, PROCESS_END_PAGES as int);
            lemma_contiguous_split(oldslots, 0, PROCESS_END_PAGES as int, i as int);
            lemma_contiguous_split(
                oldslots.skip(i as int),
                oldslots[i as int].spec_begin(),
                PROCESS_END_PAGES as int,
                2,
            );
            assert(oldslots.skip(i as int)[0] == oldslots[i as int]);
            assert(oldslots.skip(i as int).skip(1)[0] == oldslots[i + 1]);
        }
        let nlen = self.slots.len();
        proof {
            assert(i + 1 < nlen);
        }
        let (b1, s1) = match &self.slots[i] {
            SpaceSlot::Free(g) => (g.get_begin(), g.get_size()),
            SpaceSlot::Used(_) => {
                proof {
                    assert(false);
                }
                (0, 0)
            }
        };
        let s2 = self.slots[i + 1].size();
        let merged = MemGap { begin: b1, size: s1 + s2 };
        self.slots.remove(i);
        self.slots.remove(i);
        self.slots.insert(i, SpaceSlot::Free(merged));
        proof {
            let lo = oldslots[i as int].spec_begin();
            let hi = oldslots[i + 1].spec_end();
            let a = oldslots.take(i as int);
            let c = oldslots.skip(i + 2);
            let piece = SpaceSlot::Free(merged);
            assert(self.slots@ =~= a + seq![piece] + c);
            lemma_contiguous_adjacent(oldslots, 0, PROCESS_END_PAGES as int, i as int);
            assert(oldslots.skip(i as int).skip(1).skip(1) =~= c);
            assert(oldslots[i as int].slot_wf());
            assert(oldslots[i + 1].slot_wf());
            let two = seq![oldslots[i as int], oldslots[i + 1]];
            assert(oldslots.skip(i as int).take(2) =~= two);
            assert(two.skip(1) =~= seq![oldslots[i + 1]]);
            assert(seq![oldslots[i + 1]].skip(1) =~= Seq::<SpaceSlot>::empty());
            assert(spec_contiguous(Seq::<SpaceSlot>::empty(), hi, hi));
            assert(spec_contiguous(seq![oldslots[i + 1]], oldslots[i as int].spec_end(), hi));
            assert(spec_contiguous(two, lo, hi));
            assert(oldslots.skip(i as int).skip(2) =~= c);
            assert(oldslots.skip(i as int)[1] == oldslots[i + 1]);
            assert(spec_contiguous(c, hi, PROCESS_END_PAGES as int));
            assert(spec_contiguous(seq![piece].skip(1), hi, hi)) by {
                assert(seq![piece].skip(1) =~= Seq::<SpaceSlot>::empty());
            }
            assert(merged.spec_begin() == lo);
            assert(merged.spec_begin() + merged.spec_size() == hi);
            assert(spec_contiguous(seq![piece], lo, hi));
            lemma_contiguous_concat(seq![piece], c, lo, hi, PROCESS_END_PAGES as int);
            lemma_contiguous_concat(a, seq![piece] + c, 0, lo, PROCESS_END_PAGES as int);
            assert(a + (seq![piece] + c) =~= self.slots@);
            assert forall|q: int| 0 <= q < self.slots@.len() implies (
            #[trigger] self.slots@[q]).slot_wf() by {
                if q < i {
                    assert(self.slots@[q] == oldslots[q]);
                } else if q == i {
                } else {
                    assert(self.slots@[q] == oldslots[q + 1]);
                }
            }
            assert forall|p: int| self.page(p) == spec_page_of(oldslots, p) by {
                lemma_page_of_concat(a, seq![piece] + c, 0, lo, PROCESS_END_PAGES as int, p);
                lemma_page_of_concat(seq![piece], c, lo, hi, PROCESS_END_PAGES as int, p);
                lemma_page_of_concat(a, oldslots.skip(i as int), 0, lo, PROCESS_END_PAGES as int, p);
                lemma_page_of_concat(two, c, lo, hi, PROCESS_END_PAGES as int, p);
                assert(a + oldslots.skip(i as int) =~= oldslots);
                assert(two + c =~= oldslots.skip(i as int));
                if lo <= p < hi {
                    assert(spec_page_of(seq![piece], p) == piece.page_at(p));
                    if oldslots[i as int].spec_begin() <= p < oldslots[i as int].spec_end() {
                        lemma_page_of_slot(two, lo, hi, 0, p);
                    } else {
                        lemma_page_of_slot(two, lo, hi, 1, p);
                    }
                }
            }
        }
    }

    /// Unmaps the page range `[addr, addr + pages)`: mappings are split on
    /// the boundaries, the range becomes a gap, and adjacent gaps are
    /// merged. Pages outside the range are untouched.
    #[verifier::rlimit(100)]
    pub fn unmap(&mut self, addr: usize, pages: usize)
        requires
            old(self).wf(),
            pages > 0,
            addr + pages <= PROCESS_END_PAGES,
        ensures
            final(self).wf(),
            forall|p: int| addr <= p < addr + pages ==> final(self).page(p) is Free,
            forall|p: int| !(addr <= p < addr + pages) ==> final(self).page(p) == old(self).page(p),
    {
        let ghost oldpages = Seq::new(PROCESS_END_PAGES as nat, |p: int| old(self).page(p));
        let mut i: usize = 0;
        while i < self.slots.len()
            invariant
                self.wf_core(),
                i <= self.slots_view().len(),
                ({
                    let bound = if i < self.slots_view().len() {
                        self.slots_view()[i as int].spec_begin()
                    } else {
                        PROCESS_END_PAGES as int
                    };
                    &&& forall|p: int|
                        addr <= p < addr + pages && p < bound ==> self.page(p) is Free
                    &&& forall|p: int|
                        !(addr <= p < addr + pages) ==> self.page(p) == old(self).page(p)
                    &&& forall|p: int| p >= bound ==> self.page(p) == old(self).page(p)
                }),
            decreases self.slots_view().len() - i,
        {
            let ghost slots0 = self.slots@;
            let b = self.slots[i].begin();
            let sz = self.slots[i].size();
            proof {
                lemma_contiguous_bounds(slots0, 0, PROCESS_END_PAGES as int);
                if i + 1 < slots0.len() {
                    lemma_contiguous_split(slots0, 0, PROCESS_END_PAGES as int, i as int);
                    lemma_contiguous_split(
                        slots0.skip(i as int),
                        slots0[i as int].spec_begin(),
                        PROCESS_END_PAGES as int,
                        1,
                    );
                    assert(slots0.skip(i as int).skip(1)[0] == slots0[i + 1]);
                }
            }
            if b + sz <= addr || addr + pages <= b || self.slots[i].is_free() {
                proof {
                    let bound0 = slots0[i as int].spec_begin();
                    assert forall|p: int|
                        addr <= p < addr + pages && p < slots0[i as int].spec_end() implies
                        self.page(p) is Free by {
                        if p >= bound0 {
                            lemma_page_of_slot(slots0, 0, PROCESS_END_PAGES as int, i as int, p);
                            assert(slots0[i as int] is Free);
                        }
                    }
                    if i + 1 < slots0.len() {
                        lemma_contiguous_adjacent(slots0, 0, PROCESS_END_PAGES as int, i as int);
                        assert(slots0[i + 1].spec_begin() == slots0[i as int].spec_end());
                    } else {
                        lemma_contiguous_last(slots0, 0, PROCESS_END_PAGES as int);
                        assert(slots0[i as int].spec_end() == PROCESS_END_PAGES as int);
                    }
                }
                i += 1;
            } else {
                let lo = if b < addr {
                    addr
                } else {
                    b
                };
                let hi = if b + sz < addr + pages {
                    b + sz
                } else {
                    addr + pages
                };
                let mut pieces: Vec<SpaceSlot> = Vec::new();
                match &self.slots[i] {
                    SpaceSlot::Used(m) => {
                        if b < lo {
                            pieces.push(SpaceSlot::Used(slice_mapping(m, b, lo)));
                        }
                        pieces.push(SpaceSlot::Free(MemGap { begin: lo, size: hi - lo }));
                        if hi < b + sz {
                            pieces.push(SpaceSlot::Used(slice_mapping(m, hi, b + sz)));
                        }
                    }
                    SpaceSlot::Free(_) => {
                        proof {
                            assert(false);
                        }
                    }
                }
                let ghost gpieces = pieces@;
                let np = pieces.len();
                proof {
                    lemma_unmap_pieces(gpieces, slots0[i as int], b as int, sz as int, lo as int, hi as int);
                }
                self.splice(i, pieces);
                proof {
                    let bound1 = if i + np < self.slots_view().len() {
                        self.slots_view()[i + np].spec_begin()
                    } else {
                        PROCESS_END_PAGES as int
                    };
                    assert(self.slots_view() == slots0.take(i as int) + gpieces + slots0.skip(
                        i + 1,
                    ));
                    assert(gpieces.len() == np);
                    assert(slots0.take(i as int).len() == i);
                    assert((slots0.take(i as int) + gpieces).len() == i + np);
                    lemma_contiguous_len(self.slots_view(), 0, PROCESS_END_PAGES as int);
                    assert(i + np <= PROCESS_END_PAGES);
                    assert(self.slots_view().len() == slots0.len() + np - 1);
                    if i + np < self.slots_view().len() {
                        assert(self.slots_view()[i + np] == ((slots0.take(i as int) + gpieces)
                            + slots0.skip(i + 1))[i + np]);
                        assert(self.slots_view()[i + np] == slots0.skip(i + 1)[0]);
                        assert(self.slots_view()[i + np] == slots0[i + 1]);
                        lemma_contiguous_adjacent(slots0, 0, PROCESS_END_PAGES as int, i as int);
                        assert(bound1 == b + sz);
                    } else {
                        assert(bound1 == PROCESS_END_PAGES as int);
                        assert(i + 1 == slots0.len());
                        lemma_contiguous_last(slots0, 0, PROCESS_END_PAGES as int);
                        assert(b + sz == PROCESS_END_PAGES as int);
                    }
                    assert forall|p: int|
                        addr <= p < addr + pages && p < bound1 implies self.page(p) is Free by {
                        if b <= p < b + sz {
                            if lo <= p < hi {
                                lemma_page_of_slot(
                                    gpieces,
                                    b as int,
                                    (b + sz) as int,
                                    if b < lo { 1int } else { 0int },
                                    p,
                                );
                            } else {
                                assert(false);
                            }
                        }
                    }
                    assert forall|p: int|
                        !(addr <= p < addr + pages) implies self.page(p) == old(self).page(p) by {
                        if b <= p < b + sz {
                            lemma_page_of_slot(slots0, 0, PROCESS_END_PAGES as int, i as int, p);
                            if p < lo {
                                lemma_page_of_slot(gpieces, b as int, (b + sz) as int, 0, p);
                            } else {
                                assert(p >= hi);
                                lemma_page_of_slot(
                                    gpieces,
                                    b as int,
                                    (b + sz) as int,
                                    gpieces.len() - 1,
                                    p,
                                );
                            }
                        }
                    }
                    assert forall|p: int| p >= bound1 implies self.page(p) == old(self).page(p) by {
                        assert(p >= b + sz);
                    }
                }
                i += np;
            }
        }
        // merge adjacent gaps so the partition stays in normal form
        let mut j: usize = 0;
        while j + 1 < self.slots.len()
            invariant
                self.wf_core(),
                j <= PROCESS_END_PAGES,
                forall|p: int| addr <= p < addr + pages ==> self.page(p) is Free,
                forall|p: int|
                    !(addr <= p < addr + pages) ==> self.page(p) == old(self).page(p),
                forall|k: int|
                    0 <= k < j && k + 1 < self.slots_view().len() ==> !(
                    #[trigger] self.slots_view()[k] is Free && self.slots_view()[k + 1] is Free),
            decreases self.slots_view().len() - j,
        {
            proof {
                lemma_contiguous_len(self.slots_view(), 0, PROCESS_END_PAGES as int);
            }
            if self.slots[j].is_free() && self.slots[j + 1].is_free() {
                let ghost before = self.slots_view();
                self.merge_at(j);
                proof {
                    assert forall|k: int|
                        0 <= k < j && k + 1 < self.slots_view().len() implies !(
                        #[trigger] self.slots_view()[k] is Free && self.slots_view()[k
                        + 1] is Free) by {
                        if k + 1 < j {
                            assert(self.slots_view()[k] == before[k]);
                            assert(self.slots_view()[k + 1] == before[k + 1]);
                        } else {
                            assert(self.slots_view()[k] == before[k]);
                            assert(self.slots_view()[k + 1] is Free ==> before[j as int] is Free);
                            assert(!(before[k] is Free && before[k + 1] is Free));
                        }
                    }
                }
            } else {
                j += 1;
            }
        }
        proof {
            assert(spec_gaps_merged(self.slots_view()));
        }
    }
}

/// The pieces built by `unmap` for one overlapped mapping tile its range,
/// are well-formed, keep pages outside `[lo, hi)` as they were, and free the
/// pages inside.
proof fn lemma_unmap_pieces(
    pieces: Seq<SpaceSlot>,
    slot: SpaceSlot,
    b: int,
    sz: int,
    lo: int,
    hi: int,
)
    requires
        slot is Used,
        slot.slot_wf(),
        slot.spec_begin() == b,
        slot.spec_size() == sz,
        b <= lo < hi <= b + sz,
        pieces.len() == 1 + (if b < lo { 1int } else { 0 }) + (if hi < b + sz { 1int } else { 0 }),
        b < lo ==> pieces[0] is Used && pieces[0].spec_begin() == b && pieces[0].spec_size() == lo
            - b && pieces[0].slot_wf() && (forall|p: int|
            b <= p < lo ==> #[trigger] pieces[0].page_at(p) == slot.page_at(p)),
        ({
            let mi = if b < lo { 1int } else { 0 };
            pieces[mi] is Free && pieces[mi].spec_begin() == lo && pieces[mi].spec_size() == hi
                - lo && pieces[mi].slot_wf()
        }),
        hi < b + sz ==> pieces.last() is Used && pieces.last().spec_begin() == hi
            && pieces.last().spec_size() == b + sz - hi && pieces.last().slot_wf() && (forall|
            p: int,
        |
            hi <= p < b + sz ==> #[trigger] pieces.last().page_at(p) == slot.page_at(p)),
    ensures
        spec_contiguous(pieces, b, b + sz),
        forall|k: int| 0 <= k < pieces.len() ==> (#[trigger] pieces[k]).slot_wf(),
        pieces[0] is Free ==> slot is Free || b == lo,
{
    let e = b + sz;
    assert(pieces.skip(1).len() == pieces.len() - 1);
    if b < lo {
        assert(pieces.skip(1)[0] == pieces[1]);
        if hi < e {
            assert(pieces.skip(1).skip(1) =~= pieces.skip(2));
            assert(pieces.skip(2)[0] == pieces[2]);
            assert(pieces[2] == pieces.last());
            assert(pieces.skip(2).skip(1) =~= Seq::<SpaceSlot>::empty());
            assert(pieces[2].spec_end() == e);
            assert(spec_contiguous(Seq::<SpaceSlot>::empty(), e, e));
            assert(spec_contiguous(pieces.skip(2), hi, e));
            assert(spec_contiguous(pieces.skip(1), lo, e));
        } else {
            assert(pieces.skip(1).skip(1) =~= Seq::<SpaceSlot>::empty());
            assert(pieces[1] == pieces.last());
            assert(pieces[1].spec_end() == e);
            assert(spec_contiguous(Seq::<SpaceSlot>::empty(), e, e));
            assert(spec_contiguous(pieces.skip(1), lo, e));
        }
    } else {
        if hi < e {
            assert(pieces.skip(1)[0] == pieces[1]);
            assert(pieces[1] == pieces.last());
            assert(pieces.skip(1).skip(1) =~= Seq::<SpaceSlot>::empty());
            assert(pieces[1].spec_end() == e);
            assert(spec_contiguous(Seq::<SpaceSlot>::empty(), e, e));
            assert(spec_contiguous(pieces.skip(1), hi, e));
        } else {
            assert(pieces.skip(1) =~= Seq::<SpaceSlot>::empty());
            assert(pieces[0] == pieces.last());
            assert(pieces[0].spec_end() == e);
            assert(spec_contiguous(Seq::<SpaceSlot>::empty(), e, e));
        }
    }
    assert forall|k: int| 0 <= k < pieces.len() implies (#[trigger] pieces[k]).slot_wf() by {
        let mi = if b < lo { 1int } else { 0 };
        if k == mi {
        } else if k == 0 {
        } else {
            assert(pieces[k] == pieces.last());
        }
    }
}


/// A contiguous list has at most one slot per page of its range.
pub proof fn lemma_contiguous_len(slots: Seq<SpaceSlot>, from: int, to: int)
    requires
        spec_contiguous(slots, from, to),
    ensures
        slots.len() <= to - from,
    decreases slots.len(),
{
    if slots.len() > 0 {
        lemma_contiguous_len(slots.skip(1), slots[0].spec_end(), to);
    }
}


/// Each slot of a contiguous list begins where the previous one ends.
pub proof fn lemma_contiguous_adjacent(slots: Seq<SpaceSlot>, from: int, to: int, i: int)
    requires
        spec_contiguous(slots, from, to),
        0 <= i,
        i + 1 < slots.len(),
    ensures
        slots[i + 1].spec_begin() == slots[i].spec_end(),
    decreases i,
{
    if i == 0 {
        assert(spec_contiguous(slots.skip(1), slots[0].spec_end(), to));
        assert(slots.skip(1)[0] == slots[1]);
        assert(slots.skip(1)[0].spec_begin() == slots[0].spec_end());
    } else {
        assert(spec_contiguous(slots.skip(1), slots[0].spec_end(), to));
        lemma_contiguous_adjacent(slots.skip(1), slots[0].spec_end(), to, i - 1);
        assert(slots.skip(1)[i - 1] == slots[i]);
        assert(slots.skip(1)[i] == slots[i + 1]);
    }
}


/// The last slot of a non-empty contiguous list ends at the range's end.
pub proof fn lemma_contiguous_last(slots: Seq<SpaceSlot>, from: int, to: int)
    requires
        spec_contiguous(slots, from, to),
        slots.len() > 0,
    ensures
        slots[slots.len() - 1].spec_end() == to,
    decreases slots.len(),
{
    if slots.len() == 1 {
        assert(spec_contiguous(slots.skip(1), slots[0].spec_end(), to));
        assert(slots.skip(1).len() == 0);
    } else {
        lemma_contiguous_last(slots.skip(1), slots[0].spec_end(), to);
        assert(slots.skip(1)[slots.skip(1).len() - 1] == slots[slots.len() - 1]);
    }
}


/// The page's metadata: whether it is mapped, and its flags, sharing state
/// and backing.
pub open spec fn spec_page_meta(pv: PageView) -> (bool, u8, bool, Option<(u32, int)>) {
    match pv {
        PageView::Free => (false, 0u8, false, Option::None),
        PageView::Mapped { flags, cow, file, .. } => (true, flags, cow, file),
    }
}

/// The view of a mapped page after new flags are set on it.
pub open spec fn spec_with_flags(pv: PageView, flags: u8) -> PageView {
    match pv {
        PageView::Free => PageView::Free,
        PageView::Mapped { cow, file, bytes, .. } => PageView::Mapped { flags, cow, file, bytes },
    }
}

impl MemSpace {
    /// Changes the flags of every page in `[addr, addr + pages)`, splitting
    /// mappings on the boundaries. Bytes, sharing state and backing are
    /// kept.
    ///
    /// Fails with `ENOMEM` exactly when some page of the range is not
    /// mapped; nothing changes then.
    #[verifier::rlimit(100)]
    pub fn mprotect(&mut self, addr: usize, pages: usize, flags: u8) -> (r: Result<(), Errno>)
        requires
            old(self).wf(),
            pages > 0,
            addr + pages <= PROCESS_END_PAGES,
        ensures
            final(self).wf(),
            match r {
                Ok(()) => {
                    &&& forall|p: int| addr <= p < addr + pages ==> !(old(self).page(p) is Free)
                    &&& forall|p: int|
                        addr <= p < addr + pages ==> final(self).page(p) == spec_with_flags(
                            old(self).page(p),
                            flags,
                        )
                    &&& forall|p: int|
                        !(addr <= p < addr + pages) ==> final(self).page(p) == old(self).page(p)
                },
                Err(e) => {
                    &&& e == ENOMEM
                    &&& *final(self) == *old(self)
                    &&& exists|p: int| addr <= p < addr + pages && old(self).page(p) is Free
                },
            },
    {
        // first pass: refuse when a gap intersects the range
        let n0 = self.slots.len();
        let mut k: usize = 0;
        while k < n0
            invariant
                k <= n0,
                n0 == self.slots_view().len(),
                self.slots@ == old(self).slots@,
                forall|j: int|
                    0 <= j < k && (#[trigger] self.slots_view()[j]) is Free ==> (
                    self.slots_view()[j].spec_end() <= addr || addr + pages
                        <= self.slots_view()[j].spec_begin()),
            decreases n0 - k,
        {
            proof {
                lemma_contiguous_bounds(self.slots_view(), 0, PROCESS_END_PAGES as int);
            }
            let b = self.slots[k].begin();
            let sz = self.slots[k].size();
            if self.slots[k].is_free() && b < addr + pages && addr < b + sz {
                proof {
                    let w = if b <= addr { addr as int } else { b as int };
                    lemma_page_of_slot(
                        self.slots_view(),
                        0,
                        PROCESS_END_PAGES as int,
                        k as int,
                        w,
                    );
                    assert(addr <= w < addr + pages && old(self).page(w) is Free);
                }
                return Err(ENOMEM);
            }
            k += 1;
        }
        proof {
            assert forall|p: int| addr <= p < addr + pages implies !(old(self).page(p) is Free) by {
                lemma_partition_exists(
                    old(self).slots_view(),
                    0,
                    PROCESS_END_PAGES as int,
                    p,
                );
                let j = choose|j: int|
                    0 <= j < old(self).slots_view().len() && (
                    #[trigger] old(self).slots_view()[j]).spec_begin() <= p < old(self).slots_view()[j].spec_end();
                lemma_page_of_slot(old(self).slots_view(), 0, PROCESS_END_PAGES as int, j, p);
                if old(self).slots_view()[j] is Free {
                    assert(false);
                }
            }
        }
        // second pass: split overlapped mappings and set the flags inside
        let mut i: usize = 0;
        while i < self.slots.len()
            invariant
                self.wf_core(),
                spec_gaps_merged(self.slots_view()),
                i <= self.slots_view().len(),
                forall|j: int|
                    0 <= j < self.slots_view().len() && (#[trigger] self.slots_view()[j]) is Free
                        ==> (self.slots_view()[j].spec_end() <= addr || addr + pages
                        <= self.slots_view()[j].spec_begin()),
                ({
                    let bound = if i < self.slots_view().len() {
                        self.slots_view()[i as int].spec_begin()
                    } else {
                        PROCESS_END_PAGES as int
                    };
                    &&& forall|p: int|
                        addr <= p < addr + pages && p < bound ==> self.page(p) == spec_with_flags(
                            old(self).page(p),
                            flags,
                        )
                    &&& forall|p: int|
                        !(addr <= p < addr + pages) ==> self.page(p) == old(self).page(p)
                    &&& forall|p: int| p >= bound ==> self.page(p) == old(self).page(p)
                }),
            decreases self.slots_view().len() - i,
        {
            let ghost slots0 = self.slots@;
            let b = self.slots[i].begin();
            let sz = self.slots[i].size();
            proof {
                lemma_contiguous_bounds(slots0, 0, PROCESS_END_PAGES as int);
            }
            if b + sz <= addr || addr + pages <= b || self.slots[i].is_free() {
                proof {
                    assert forall|p: int|
                        addr <= p < addr + pages && p < slots0[i as int].spec_end() implies
                        self.page(p) == spec_with_flags(old(self).page(p), flags) by {
                        if p >= slots0[i as int].spec_begin() {
                            assert(false);
                        }
                    }
                    if i + 1 < slots0.len() {
                        lemma_contiguous_adjacent(slots0, 0, PROCESS_END_PAGES as int, i as int);
                    } else {
                        lemma_contiguous_last(slots0, 0, PROCESS_END_PAGES as int);
                    }
                }
                i += 1;
            } else {
                let lo = if b < addr {
                    addr
                } else {
                    b
                };
                let hi = if b + sz < addr + pages {
                    b + sz
                } else {
                    addr + pages
                };
                let mut pieces: Vec<SpaceSlot> = Vec::new();
                match &self.slots[i] {
                    SpaceSlot::Used(m) => {
                        if b < lo {
                            pieces.push(SpaceSlot::Used(slice_mapping(m, b, lo)));
                        }
                        let mut mid = slice_mapping(m, lo, hi);
                        mid.flags = flags;
                        proof {
                            assert forall|p: int|
                                lo <= p < hi implies SpaceSlot::Used(mid).page_at(p)
                                == spec_with_flags(SpaceSlot::Used(slots0[i as int]->Used_0).page_at(p), flags) by {}
                        }
                        pieces.push(SpaceSlot::Used(mid));
                        if hi < b + sz {
                            pieces.push(SpaceSlot::Used(slice_mapping(m, hi, b + sz)));
                        }
                    }
                    SpaceSlot::Free(_) => {
                        proof {
                            assert(false);
                        }
                    }
                }
                let ghost gpieces = pieces@;
                let np = pieces.len();
                proof {
                    lemma_protect_pieces(
                        gpieces,
                        slots0[i as int],
                        b as int,
                        sz as int,
                        lo as int,
                        hi as int,
                        flags,
                    );
                }
                self.splice(i, pieces);
                proof {
                    lemma_gaps_merged_splice(slots0, i as int, gpieces);
                    assert forall|j: int|
                        0 <= j < self.slots_view().len() && (
                        #[trigger] self.slots_view()[j]) is Free implies (
                    self.slots_view()[j].spec_end() <= addr || addr + pages
                        <= self.slots_view()[j].spec_begin()) by {
                        if j < i {
                            assert(self.slots_view()[j] == slots0[j]);
                        } else if j < i + gpieces.len() {
                            assert(self.slots_view()[j] == gpieces[j - i]);
                            assert(!(gpieces[j - i] is Free)) by {
                                if j - i == 0 {
                                } else if j - i == gpieces.len() - 1 {
                                } else {
                                    assert(gpieces[j - i] == gpieces[if b < lo { 1int } else { 0int }]);
                                }
                            }
                        } else {
                            assert(self.slots_view()[j] == slots0[j - gpieces.len() + 1]);
                        }
                    }
                    let bound1 = if i + np < self.slots_view().len() {
                        self.slots_view()[i + np].spec_begin()
                    } else {
                        PROCESS_END_PAGES as int
                    };
                    assert(self.slots_view() == slots0.take(i as int) + gpieces + slots0.skip(
                        i + 1,
                    ));
                    assert(gpieces.len() == np);
                    assert(slots0.take(i as int).len() == i);
                    assert((slots0.take(i as int) + gpieces).len() == i + np);
                    lemma_contiguous_len(self.slots_view(), 0, PROCESS_END_PAGES as int);
                    assert(i + np <= PROCESS_END_PAGES);
                    assert(self.slots_view().len() == slots0.len() + np - 1);
                    if i + np < self.slots_view().len() {
                        assert(self.slots_view()[i + np] == ((slots0.take(i as int) + gpieces)
                            + slots0.skip(i + 1))[i + np]);
                        assert(self.slots_view()[i + np] == slots0.skip(i + 1)[0]);
                        assert(self.slots_view()[i + np] == slots0[i + 1]);
                        lemma_contiguous_adjacent(slots0, 0, PROCESS_END_PAGES as int, i as int);
                        assert(bound1 == b + sz);
                    } else {
                        assert(bound1 == PROCESS_END_PAGES as int);
                        assert(i + 1 == slots0.len());
                        lemma_contiguous_last(slots0, 0, PROCESS_END_PAGES as int);
                        assert(b + sz == PROCESS_END_PAGES as int);
                    }
                    assert forall|p: int|
                        addr <= p < addr + pages && p < bound1 implies self.page(p)
                        == spec_with_flags(old(self).page(p), flags) by {
                        if b <= p < b + sz {
                            assert(lo <= p < hi);
                            lemma_page_of_slot(
                                gpieces,
                                b as int,
                                (b + sz) as int,
                                if b < lo { 1int } else { 0int },
                                p,
                            );
                            lemma_page_of_slot(slots0, 0, PROCESS_END_PAGES as int, i as int, p);
                        }
                    }
                    assert forall|p: int|
                        !(addr <= p < addr + pages) implies self.page(p) == old(self).page(p) by {
                        if b <= p < b + sz {
                            lemma_page_of_slot(slots0, 0, PROCESS_END_PAGES as int, i as int, p);
                            if p < lo {
                                lemma_page_of_slot(gpieces, b as int, (b + sz) as int, 0, p);
                            } else {
                                assert(p >= hi);
                                lemma_page_of_slot(
                                    gpieces,
                                    b as int,
                                    (b + sz) as int,
                                    gpieces.len() - 1,
                                    p,
                                );
                            }
                        }
                    }
                    assert forall|p: int| p >= bound1 implies self.page(p) == old(self).page(p) by {
                        assert(p >= b + sz);
                    }
                }
                i += np;
            }
        }
        Ok(())
    }
}

/// The pieces built by `mprotect` for one overlapped mapping tile its
/// range, are well-formed mappings, keep pages outside `[lo, hi)` as they
/// were, and re-flag the pages inside.
proof fn lemma_protect_pieces(
    pieces: Seq<SpaceSlot>,
    slot: SpaceSlot,
    b: int,
    sz: int,
    lo: int,
    hi: int,
    flags: u8,
)
    requires
        slot is Used,
        slot.slot_wf(),
        slot.spec_begin() == b,
        slot.spec_size() == sz,
        b <= lo < hi <= b + sz,
        pieces.len() == 1 + (if b < lo { 1int } else { 0 }) + (if hi < b + sz { 1int } else { 0 }),
        b < lo ==> pieces[0] is Used && pieces[0].spec_begin() == b && pieces[0].spec_size() == lo
            - b && pieces[0].slot_wf() && (forall|p: int|
            b <= p < lo ==> #[trigger] pieces[0].page_at(p) == slot.page_at(p)),
        ({
            let mi = if b < lo { 1int } else { 0 };
            pieces[mi] is Used && pieces[mi].spec_begin() == lo && pieces[mi].spec_size() == hi
                - lo && pieces[mi].slot_wf() && (forall|p: int|
                lo <= p < hi ==> #[trigger] pieces[mi].page_at(p) == spec_with_flags(
                    slot.page_at(p),
                    flags,
                ))
        }),
        hi < b + sz ==> pieces.last() is Used && pieces.last().spec_begin() == hi
            && pieces.last().spec_size() == b + sz - hi && pieces.last().slot_wf() && (forall|
            p: int,
        |
            hi <= p < b + sz ==> #[trigger] pieces.last().page_at(p) == slot.page_at(p)),
    ensures
        spec_contiguous(pieces, b, b + sz),
        forall|k: int| 0 <= k < pieces.len() ==> (#[trigger] pieces[k]).slot_wf(),
        !(pieces[0] is Free),
        !(pieces.last() is Free),
{
    let e = b + sz;
    assert(pieces.skip(1).len() == pieces.len() - 1);
    if b < lo {
        assert(pieces.skip(1)[0] == pieces[1]);
        if hi < e {
            assert(pieces.skip(1).skip(1) =~= pieces.skip(2));
            assert(pieces.skip(2)[0] == pieces[2]);
            assert(pieces[2] == pieces.last());
            assert(pieces.skip(2).skip(1) =~= Seq::<SpaceSlot>::empty());
            assert(pieces[2].spec_end() == e);
            assert(spec_contiguous(Seq::<SpaceSlot>::empty(), e, e));
            assert(spec_contiguous(pieces.skip(2), hi, e));
            assert(spec_contiguous(pieces.skip(1), lo, e));
        } else {
            assert(pieces.skip(1).skip(1) =~= Seq::<SpaceSlot>::empty());
            assert(pieces[1] == pieces.last());
            assert(pieces[1].spec_end() == e);
            assert(spec_contiguous(Seq::<SpaceSlot>::empty(), e, e));
            assert(spec_contiguous(pieces.skip(1), lo, e));
        }
    } else {
        if hi < e {
            assert(pieces.skip(1)[0] == pieces[1]);
            assert(pieces[1] == pieces.last());
            assert(pieces.skip(1).skip(1) =~= Seq::<SpaceSlot>::empty());
            assert(pieces[1].spec_end() == e);
            assert(spec_contiguous(Seq::<SpaceSlot>::empty(), e, e));
            assert(spec_contiguous(pieces.skip(1), hi, e));
        } else {
            assert(pieces.skip(1) =~= Seq::<SpaceSlot>::empty());
            assert(pieces[0] == pieces.last());
            assert(pieces[0].spec_end() == e);
            assert(spec_contiguous(Seq::<SpaceSlot>::empty(), e, e));
        }
    }
    assert forall|k: int| 0 <= k < pieces.len() implies (#[trigger] pieces[k]).slot_wf() by {
        let mi = if b < lo { 1int } else { 0 };
        if k == mi {
        } else if k == 0 {
        } else {
            assert(pieces[k] == pieces.last());
        }
    }
}


/// Whether the slot at index `j` is a mapping containing the whole byte
/// range `[a, a + l)`.
pub open spec fn spec_slot_holds_bytes(slots: Seq<SpaceSlot>, j: int, a: int, l: int) -> bool {
    &&& 0 <= j < slots.len()
    &&& slots[j] is Used
    &&& slots[j].spec_begin() * PAGE_SIZE <= a
    &&& a + l <= slots[j].spec_end() * PAGE_SIZE
}

impl MemSpace {
    /// Writes the given bytes at the byte address `addr`.
    ///
    /// Succeeds exactly when the whole range lies inside one mapping that is
    /// writable and not shared copy-on-write; the mapped bytes then carry
    /// the data and nothing else moves. A range not inside one mapping
    /// fails with `EFAULT`; one inside a read-only or copy-on-write mapping
    /// fails with `EPERM`.
    #[verifier::rlimit(100)]
    pub fn write_bytes(&mut self, addr: usize, data: &[u8]) -> (r: Result<(), Errno>)
        requires
            old(self).wf(),
            data@.len() > 0,
            addr + data@.len() <= PROCESS_END,
        ensures
            final(self).wf(),
            match r {
                Ok(()) => {
                    &&& exists|j: int|
                        spec_slot_holds_bytes(
                            old(self).slots_view(),
                            j,
                            addr as int,
                            data@.len() as int,
                        ) && (old(self).slots_view()[j].page_at(
                            old(self).slots_view()[j].spec_begin(),
                        ) matches PageView::Mapped { flags, cow, .. } && flags
                            & MAPPING_FLAG_WRITE != 0 && !cow)
                    &&& forall|x: int|
                        addr <= x < addr + data@.len() ==> final(self).spec_byte_at(x) == data@[x
                            - addr]
                    &&& forall|x: int|
                        0 <= x < PROCESS_END && !(addr <= x < addr + data@.len()) ==> final(self).spec_byte_at(x) == old(self).spec_byte_at(x)
                    &&& forall|p: int|
                        spec_page_meta(final(self).page(p)) == spec_page_meta(old(self).page(p))
                },
                Err(e) => {
                    &&& *final(self) == *old(self)
                    &&& (e == EFAULT || e == EPERM)
                    &&& (e == EFAULT <==> !exists|j: int|
                        spec_slot_holds_bytes(
                            old(self).slots_view(),
                            j,
                            addr as int,
                            data@.len() as int,
                        ))
                },
            },
    {
        let ghost slots0 = self.slots@;
        let len = data.len();
        let n = self.slots.len();
        let mut i: usize = 0;
        while i < n
            invariant
                i <= n,
                n == slots0.len(),
                *self == *old(self),
                self.slots@ == slots0,
                len == data@.len(),
                forall|j: int|
                    0 <= j < i ==> !spec_slot_holds_bytes(slots0, j, addr as int, len as int),
            decreases n - i,
        {
            proof {
                lemma_contiguous_bounds(slots0, 0, PROCESS_END_PAGES as int);
                lemma_mul_bound(slots0[i as int].spec_end(), PROCESS_END_PAGES as int);
            }
            let b = self.slots[i].begin();
            let sz = self.slots[i].size();
            proof {
                assert((b + sz) * PAGE_SIZE <= PROCESS_END) by (nonlinear_arith)
                    requires b + sz <= PROCESS_END_PAGES, PROCESS_END == PROCESS_END_PAGES * PAGE_SIZE;
                assert(b * PAGE_SIZE <= (b + sz) * PAGE_SIZE) by (nonlinear_arith)
                    requires sz >= 0, PAGE_SIZE > 0;
            }
            if !self.slots[i].is_free() && b * PAGE_SIZE <= addr && addr + len <= (b + sz)
                * PAGE_SIZE {
                let (flags, cow) = match &self.slots[i] {
                    SpaceSlot::Used(m) => (m.flags, m.cow),
                    SpaceSlot::Free(_) => {
                        proof {
                            assert(false);
                        }
                        (0u8, false)
                    }
                };
                proof {
                    assert(spec_slot_holds_bytes(slots0, i as int, addr as int, len as int));
                    assert(slots0[i as int].page_at(slots0[i as int].spec_begin())
                        matches PageView::Mapped { flags: f2, cow: c2, .. } && f2 == flags && c2
                        == cow) by {
                        lemma_mul_bound(1, PROCESS_END_PAGES as int);
                    }
                }
                if flags & MAPPING_FLAG_WRITE == 0 || cow {
                    return Err(EPERM);
                }
                let newm = match &self.slots[i] {
                    SpaceSlot::Used(m) => {
                        let mut content = copy_bytes(m.content.as_slice(), 0, m.content.len());
                        let base = b * PAGE_SIZE;
                        let mut j: usize = 0;
                        while j < len
                            invariant
                                j <= len,
                                content@.len() == m.content@.len(),
                                base == b * PAGE_SIZE,
                                addr >= base,
                                addr + len <= base + content@.len(),
                                forall|x: int|
                                    0 <= x < content@.len() && !(addr - base <= x < addr - base
                                        + j) ==> content@[x] == m.content@[x],
                                forall|x: int|
                                    addr - base <= x < addr - base + j ==> content@[x] == data@[x
                                        - (addr - base)],
                            decreases len - j,
                        {
                            content.set(addr - base + j, data[j]);
                            j += 1;
                        }
                        Mapping {
                            begin: m.begin,
                            size: m.size,
                            flags: m.flags,
                            file: m.file,
                            cow: m.cow,
                            content,
                        }
                    }
                    SpaceSlot::Free(_) => {
                        proof {
                            assert(false);
                        }
                        Mapping {
                            begin: 0,
                            size: 1,
                            flags: 0,
                            file: None,
                            cow: false,
                            content: zero_vec(PAGE_SIZE),
                        }
                    }
                };
                let ghost gm = newm;
                let ghost oldm = slots0[i as int]->Used_0;
                let mut pieces: Vec<SpaceSlot> = Vec::new();
                pieces.push(SpaceSlot::Used(newm));
                let ghost gpieces = pieces@;
                proof {
                    assert(gpieces.skip(1) =~= Seq::<SpaceSlot>::empty());
                    assert(gpieces[0] == SpaceSlot::Used(gm));
                    assert(gm.spec_begin() == slots0[i as int].spec_begin());
                    assert(gm.spec_size() == slots0[i as int].spec_size());
                    assert(gm.spec_content().len() == gm.spec_size() * PAGE_SIZE);
                    assert(spec_contiguous(
                        Seq::<SpaceSlot>::empty(),
                        slots0[i as int].spec_end(),
                        slots0[i as int].spec_end(),
                    ));
                    assert(spec_contiguous(
                        gpieces,
                        slots0[i as int].spec_begin(),
                        slots0[i as int].spec_end(),
                    ));
                }
                self.splice(i, pieces);
                proof {
                    lemma_gaps_merged_splice(slots0, i as int, gpieces);
                    let lo = slots0[i as int].spec_begin();
                    let hi = slots0[i as int].spec_end();
                    assert forall|p: int|
                        lo <= p < hi implies final(self).page(p) == gpieces[0].page_at(p) by {}
                    assert forall|p: int|
                        spec_page_meta(final(self).page(p)) == spec_page_meta(
                        old(self).page(p)) by {
                        if lo <= p < hi {
                            lemma_page_of_slot(slots0, 0, PROCESS_END_PAGES as int, i as int, p);
                        }
                    }
                    assert forall|x: int|
                        addr <= x < addr + len implies final(self).spec_byte_at(x) == data@[x
                        - addr] by {
                        lemma_byte_in_slot(gm, x, lo, hi);
                        lemma_page_of_slot(slots0, 0, PROCESS_END_PAGES as int, i as int, x / PAGE_SIZE as int);
                        assert(final(self).page(x / PAGE_SIZE as int) == gpieces[0].page_at(
                            x / PAGE_SIZE as int,
                        ));
                    }
                    assert forall|x: int|
                        0 <= x < PROCESS_END && !(addr <= x < addr + len) implies final(self).spec_byte_at(x) == old(self).spec_byte_at(x) by {
                        let q = x / PAGE_SIZE as int;
                        vstd::arithmetic::div_mod::lemma_fundamental_div_mod(x, PAGE_SIZE as int);
                        vstd::arithmetic::div_mod::lemma_mod_bound(x, PAGE_SIZE as int);
                        assert(0 <= q < PROCESS_END_PAGES) by (nonlinear_arith)
                            requires
                                x == (PAGE_SIZE as int) * q + (x % (PAGE_SIZE as int)),
                                0 <= x % (PAGE_SIZE as int) < (PAGE_SIZE as int),
                                0 <= x,
                                x < PROCESS_END_PAGES * (PAGE_SIZE as int),
                                PROCESS_END == PROCESS_END_PAGES * PAGE_SIZE;
                        if lo <= q < hi {
                            lemma_byte_in_slot(gm, x, lo, hi);
                            lemma_byte_in_slot(oldm, x, lo, hi);
                            lemma_page_of_slot(slots0, 0, PROCESS_END_PAGES as int, i as int, q);
                        }
                    }
                }
                return Ok(());
            }
            i += 1;
        }
        proof {
            assert forall|j: int|
                !spec_slot_holds_bytes(slots0, j, addr as int, len as int) by {}
        }
        Err(EFAULT)
    }

    /// Reads `len` bytes at the byte address `addr`.
    ///
    /// Succeeds exactly when the whole range lies inside one mapping, and
    /// returns its bytes; otherwise fails with `EFAULT`.
    pub fn read_bytes(&self, addr: usize, len: usize) -> (r: Result<Vec<u8>, Errno>)
        requires
            self.wf(),
            len > 0,
            addr + len <= PROCESS_END,
        ensures
            match r {
                Ok(v) => {
                    &&& exists|j: int|
                        spec_slot_holds_bytes(self.slots_view(), j, addr as int, len as int)
                    &&& v@.len() == len
                    &&& forall|k: int| 0 <= k < len ==> v@[k] == self.spec_byte_at(addr + k)
                },
                Err(e) => {
                    &&& e == EFAULT
                    &&& !exists|j: int|
                        spec_slot_holds_bytes(self.slots_view(), j, addr as int, len as int)
                },
            },
    {
        let ghost slots0 = self.slots@;
        let n = self.slots.len();
        let mut i: usize = 0;
        while i < n
            invariant
                i <= n,
                n == slots0.len(),
                self.slots@ == slots0,
                forall|j: int|
                    0 <= j < i ==> !spec_slot_holds_bytes(slots0, j, addr as int, len as int),
            decreases n - i,
        {
            proof {
                lemma_contiguous_bounds(slots0, 0, PROCESS_END_PAGES as int);
                lemma_mul_bound(slots0[i as int].spec_end(), PROCESS_END_PAGES as int);
            }
            let b = self.slots[i].begin();
            let sz = self.slots[i].size();
            proof {
                assert((b + sz) * PAGE_SIZE <= PROCESS_END) by (nonlinear_arith)
                    requires b + sz <= PROCESS_END_PAGES, PROCESS_END == PROCESS_END_PAGES * PAGE_SIZE;
                assert(b * PAGE_SIZE <= (b + sz) * PAGE_SIZE) by (nonlinear_arith)
                    requires sz >= 0, PAGE_SIZE > 0;
            }
            if !self.slots[i].is_free() && b * PAGE_SIZE <= addr && addr + len <= (b + sz)
                * PAGE_SIZE {
                let v = match &self.slots[i] {
                    SpaceSlot::Used(m) => {
                        let base = b * PAGE_SIZE;
                        copy_bytes(m.content.as_slice(), addr - base, addr - base + len)
                    }
                    SpaceSlot::Free(_) => {
                        proof {
                            assert(false);
                        }
                        Vec::new()
                    }
                };
                proof {
                    assert(spec_slot_holds_bytes(slots0, i as int, addr as int, len as int));
                    let lo = slots0[i as int].spec_begin();
                    let hi = slots0[i as int].spec_end();
                    let m = slots0[i as int]->Used_0;
                    assert forall|k: int| 0 <= k < len implies v@[k] == self.spec_byte_at(
                        addr + k,
                    ) by {
                        lemma_byte_in_slot(m, addr + k, lo, hi);
                        lemma_page_of_slot(
                            slots0,
                            0,
                            PROCESS_END_PAGES as int,
                            i as int,
                            (addr + k) / PAGE_SIZE as int,
                        );
                    }
                }
                return Ok(v);
            }
            i += 1;
        }
        Err(EFAULT)
    }
}

/// Multiplying a bounded page count by the page size stays within the
/// address range.
proof fn lemma_mul_bound(x: int, bound: int)
    requires
        x <= bound,
        bound <= PROCESS_END_PAGES,
    ensures
        x * PAGE_SIZE <= PROCESS_END_PAGES * PAGE_SIZE,
{
    assert(x * PAGE_SIZE <= PROCESS_END_PAGES * PAGE_SIZE) by (nonlinear_arith)
        requires x <= PROCESS_END_PAGES, PAGE_SIZE > 0;
}

/// The byte at address `x` inside a mapping's range is the mapping's
/// content byte at `x` minus the mapping's first byte.
proof fn lemma_byte_in_slot(m: Mapping, x: int, lo: int, hi: int)
    requires
        m.spec_begin() == lo,
        m.spec_begin() + m.spec_size() == hi,
        m.spec_content().len() == m.spec_size() * PAGE_SIZE,
        lo * PAGE_SIZE <= x < hi * PAGE_SIZE,
    ensures
        lo <= x / (PAGE_SIZE as int),
        x / (PAGE_SIZE as int) < hi,
        SpaceSlot::Used(m).page_at(x / (PAGE_SIZE as int)) matches PageView::Mapped { bytes, .. }
            && bytes[x % (PAGE_SIZE as int)] == m.spec_content()[x - lo * PAGE_SIZE],
{
    let ps = PAGE_SIZE as int;
    let q = x / ps;
    let rem = x % ps;
    vstd::arithmetic::div_mod::lemma_fundamental_div_mod(x, ps);
    assert(lo <= q < hi) by (nonlinear_arith)
        requires lo * ps <= x < hi * ps, x == ps * q + rem, 0 <= rem < ps, ps > 0;
    assert(0 <= rem < ps) by {
        vstd::arithmetic::div_mod::lemma_mod_bound(x, ps);
    }
    assert((q - lo) * ps + rem == x - lo * ps) by (nonlinear_arith)
        requires x == ps * q + rem;
    assert((q - lo + 1) * ps <= m.spec_size() * ps) by (nonlinear_arith)
        requires q < hi, hi - lo == m.spec_size(), ps > 0;
    assert(SpaceSlot::Used(m).page_at(q) matches PageView::Mapped { bytes, .. } && bytes[rem]
        == m.spec_content()[(q - lo) * ps + rem]);
}


/// The view of a page once a fork marks it copy-on-write: a private
/// writable page loses nothing but is flagged shared until the next write
/// fault; every other page is untouched.
pub open spec fn spec_cow_page(pv: PageView) -> PageView {
    match pv {
        PageView::Free => PageView::Free,
        PageView::Mapped { flags, cow, file, bytes } => {
            if flags & MAPPING_FLAG_WRITE != 0 && flags & MAPPING_FLAG_SHARED == 0 {
                PageView::Mapped { flags, cow: true, file, bytes }
            } else {
                PageView::Mapped { flags, cow, file, bytes }
            }
        },
    }
}

impl MemSpace {
    /// Marks every private writable mapping copy-on-write.
    #[verifier::rlimit(100)]
    fn mark_cow(&mut self)
        requires
            old(self).wf(),
        ensures
            final(self).wf(),
            forall|p: int| final(self).page(p) == spec_cow_page(old(self).page(p)),
    {
        let n = self.slots.len();
        let mut i: usize = 0;
        while i < n
            invariant
                i <= n,
                n == self.slots_view().len(),
                n == old(self).slots_view().len(),
                self.wf_core(),
                spec_gaps_merged(self.slots_view()),
                forall|k: int| i <= k < n ==> self.slots_view()[k] == old(self).slots_view()[k],
                forall|k: int|
                    0 <= k < i ==> (#[trigger] self.slots_view()[k]).spec_begin() == old(
                        self,
                    ).slots_view()[k].spec_begin() && self.slots_view()[k].spec_size() == old(
                        self,
                    ).slots_view()[k].spec_size() && (self.slots_view()[k] is Free <==> old(
                        self,
                    ).slots_view()[k] is Free),
                forall|k: int, p: int|
                    0 <= k < i && self.slots_view()[k].spec_begin() <= p
                        < self.slots_view()[k].spec_end() ==> #[trigger] self.slots_view()[k].page_at(p)
                        == spec_cow_page(old(self).slots_view()[k].page_at(p)),
            decreases n - i,
        {
            let ghost slots0 = self.slots@;
            let replaced = match &self.slots[i] {
                SpaceSlot::Used(m) => {
                    if m.flags & MAPPING_FLAG_WRITE != 0 && m.flags & MAPPING_FLAG_SHARED == 0 {
                        let content = copy_bytes(m.content.as_slice(), 0, m.content.len());
                        proof {
                            assert(content@ =~= m.content@);
                        }
                        Some(Mapping {
                            begin: m.begin,
                            size: m.size,
                            flags: m.flags,
                            file: m.file,
                            cow: true,
                            content,
                        })
                    } else {
                        None
                    }
                }
                SpaceSlot::Free(_) => None,
            };
            if let Some(newm) = replaced {
                let ghost gm = newm;
                let mut pieces: Vec<SpaceSlot> = Vec::new();
                pieces.push(SpaceSlot::Used(newm));
                let ghost gpieces = pieces@;
                proof {
                    assert(gpieces.skip(1) =~= Seq::<SpaceSlot>::empty());
                    assert(spec_contiguous(
                        Seq::<SpaceSlot>::empty(),
                        slots0[i as int].spec_end(),
                        slots0[i as int].spec_end(),
                    ));
                    assert(spec_contiguous(
                        gpieces,
                        slots0[i as int].spec_begin(),
                        slots0[i as int].spec_end(),
                    ));
                }
                self.splice(i, pieces);
                proof {
                    lemma_gaps_merged_splice(slots0, i as int, gpieces);
                    assert(self.slots_view() =~= slots0.update(i as int, SpaceSlot::Used(gm)));
                }
            }
            i += 1;
        }
        proof {
            assert forall|p: int| self.page(p) == spec_cow_page(old(self).page(p)) by {
                if 0 <= p < PROCESS_END_PAGES {
                    lemma_partition_exists(old(self).slots_view(), 0, PROCESS_END_PAGES as int, p);
                    let k = choose|k: int|
                        0 <= k < old(self).slots_view().len() && (
                        #[trigger] old(self).slots_view()[k]).spec_begin() <= p < old(
                            self,
                        ).slots_view()[k].spec_end();
                    lemma_page_of_slot(old(self).slots_view(), 0, PROCESS_END_PAGES as int, k, p);
                    lemma_page_of_slot(self.slots_view(), 0, PROCESS_END_PAGES as int, k, p);
                } else {
                    if p < 0 {
                        lemma_page_of_below(self.slots_view(), 0, PROCESS_END_PAGES as int, p);
                        lemma_page_of_below(old(self).slots_view(), 0, PROCESS_END_PAGES as int, p);
                    } else {
                        lemma_page_of_above(self.slots_view(), 0, PROCESS_END_PAGES as int, p);
                        lemma_page_of_above(old(self).slots_view(), 0, PROCESS_END_PAGES as int, p);
                    }
                }
            }
        }
    }

    /// Copies the space slot for slot.
    fn duplicate(&self) -> (child: MemSpace)
        requires
            self.wf(),
        ensures
            child.wf(),
            forall|p: int| child.page(p) == self.page(p),
    {
        let n = self.slots.len();
        let mut child_slots: Vec<SpaceSlot> = Vec::new();
        let mut i: usize = 0;
        while i < n
            invariant
                i <= n,
                n == self.slots_view().len(),
                child_slots@.len() == i,
                forall|k: int|
                    0 <= k < i ==> slot_equiv(#[trigger] child_slots@[k], self.slots_view()[k]),
            decreases n - i,
        {
            let child_slot = match &self.slots[i] {
                SpaceSlot::Free(g) => SpaceSlot::Free(*g),
                SpaceSlot::Used(m) => {
                    let content = copy_bytes(m.content.as_slice(), 0, m.content.len());
                    proof {
                        assert(content@ =~= m.content@);
                    }
                    SpaceSlot::Used(Mapping {
                        begin: m.begin,
                        size: m.size,
                        flags: m.flags,
                        file: m.file,
                        cow: m.cow,
                        content,
                    })
                }
            };
            proof {
                assert(slot_equiv(child_slot, self.slots@[i as int]));
            }
            child_slots.push(child_slot);
            i += 1;
        }
        let child = MemSpace { slots: child_slots };
        proof {
            lemma_same_shape_page(
                child.slots_view(),
                self.slots_view(),
                0,
                PROCESS_END_PAGES as int,
            );
        }
        child
    }

    /// Forks the space: returns a child with the same pages; the private
    /// writable mappings of both spaces are marked copy-on-write, sharing
    /// their backing pages until a write fault unshares them.
    pub fn fork(&mut self) -> (child: MemSpace)
        requires
            old(self).wf(),
        ensures
            final(self).wf(),
            child.wf(),
            forall|p: int| final(self).page(p) == spec_cow_page(old(self).page(p)),
            forall|p: int| child.page(p) == final(self).page(p),
    {
        self.mark_cow();
        let child = self.duplicate();
        child
    }
}

/// Whether two slots carry the same observable state.
pub open spec fn slot_equiv(x: SpaceSlot, y: SpaceSlot) -> bool {
    match (x, y) {
        (SpaceSlot::Free(g1), SpaceSlot::Free(g2)) => g1.spec_begin() == g2.spec_begin()
            && g1.spec_size() == g2.spec_size(),
        (SpaceSlot::Used(m1), SpaceSlot::Used(m2)) => {
            &&& m1.spec_begin() == m2.spec_begin()
            &&& m1.spec_size() == m2.spec_size()
            &&& m1.spec_flags() == m2.spec_flags()
            &&& m1.spec_file() == m2.spec_file()
            &&& m1.spec_cow() == m2.spec_cow()
            &&& m1.spec_content() == m2.spec_content()
        },
        _ => false,
    }
}

/// Two slot lists whose slots carry the same state have the same pages.
proof fn lemma_same_shape_page(a: Seq<SpaceSlot>, b: Seq<SpaceSlot>, from: int, to: int)
    requires
        a.len() == b.len(),
        forall|k: int| 0 <= k < a.len() ==> slot_equiv(#[trigger] a[k], b[k]),
        spec_contiguous(b, from, to),
    ensures
        spec_contiguous(a, from, to),
        forall|i: int| 0 <= i < a.len() ==> (#[trigger] a[i]).slot_wf() == b[i].slot_wf(),
        forall|p: int| spec_page_of(a, p) == spec_page_of(b, p),
    decreases a.len(),
{
    if a.len() > 0 {
        assert(slot_equiv(a[0], b[0]));
        assert forall|k: int| 0 <= k < a.skip(1).len() implies slot_equiv(
            #[trigger] a.skip(1)[k],
            b.skip(1)[k],
        ) by {
            assert(a.skip(1)[k] == a[k + 1]);
            assert(b.skip(1)[k] == b[k + 1]);
            assert(slot_equiv(a[k + 1], b[k + 1]));
        }
        lemma_same_shape_page(a.skip(1), b.skip(1), a[0].spec_end(), to);
        assert forall|p: int| spec_page_of(a, p) == spec_page_of(b, p) by {
            if a[0].spec_begin() <= p < a[0].spec_end() {
                assert(spec_page_of(a, p) == a[0].page_at(p));
                assert(spec_page_of(b, p) == b[0].page_at(p));
                assert(a[0].page_at(p) == b[0].page_at(p)) by {
                    match (a[0], b[0]) {
                        (SpaceSlot::Used(m1), SpaceSlot::Used(m2)) => {
                            assert(m1.spec_content().subrange(
                                (p - m1.spec_begin()) * PAGE_SIZE,
                                (p - m1.spec_begin() + 1) * PAGE_SIZE,
                            ) == m2.spec_content().subrange(
                                (p - m2.spec_begin()) * PAGE_SIZE,
                                (p - m2.spec_begin() + 1) * PAGE_SIZE,
                            ));
                        }
                        _ => {}
                    }
                }
            } else {
                assert(spec_page_of(a, p) == spec_page_of(a.skip(1), p));
                assert(spec_page_of(b, p) == spec_page_of(b.skip(1), p));
                assert(spec_page_of(a.skip(1), p) == spec_page_of(b.skip(1), p));
            }
        }
    }
}

/// What the page-fault handler decided.
pub enum FaultOutcome {
    /// The access was invalid: the process gets a segmentation fault.
    Segv,
    /// A write hit a copy-on-write page: the page was unshared; the access
    /// can be retried.
    Unshared,
    /// A read hit a page whose mapping is file-backed: the caller loads the
    /// page from the file at the given byte offset.
    LoadFile {
        /// The backing file's identity.
        file_id: u32,
        /// The byte offset of the faulting page in the file.
        offset: u64,
    },
    /// Nothing to do: the access should have succeeded.
    Spurious,
}

impl MemSpace {
    /// Decides what a page fault at `page` means and repairs what can be
    /// repaired.
    ///
    /// A fault in a gap, or a write to a page that is neither writable nor
    /// copy-on-write, is a segmentation fault. A write to a copy-on-write
    /// page unshares exactly that page. A fault on a file-backed page asks
    /// the caller to load it. Anything else is spurious.
    #[verifier::rlimit(100)]
    pub fn handle_fault(&mut self, page: usize, write: bool) -> (r: FaultOutcome)
        requires
            old(self).wf(),
            page < PROCESS_END_PAGES,
        ensures
            final(self).wf(),
            ({
                let pv = old(self).page(page as int);
                match pv {
                    PageView::Free => r is Segv && *final(self) == *old(self),
                    PageView::Mapped { flags, cow, file, bytes } => {
                        if write && flags & MAPPING_FLAG_WRITE == 0 {
                            r is Segv && *final(self) == *old(self)
                        } else if write && cow {
                            &&& r is Unshared
                            &&& final(self).page(page as int) == PageView::Mapped {
                                flags,
                                cow: false,
                                file,
                                bytes,
                            }
                            &&& forall|p: int|
                                p != page ==> final(self).page(p) == old(self).page(p)
                        } else if file is Some {
                            &&& (r matches FaultOutcome::LoadFile { file_id, offset }
                                && Option::Some((file_id, offset as int)) == file)
                            &&& *final(self) == *old(self)
                        } else {
                            r is Spurious && *final(self) == *old(self)
                        }
                    },
                }
            }),
    {
        let ghost slots0 = self.slots@;
        let n = self.slots.len();
        let mut i: usize = 0;
        while i < n
            invariant
                i <= n,
                n == slots0.len(),
                *self == *old(self),
                self.slots@ == slots0,
                forall|k: int|
                    0 <= k < i ==> !((#[trigger] slots0[k]).spec_begin() <= page
                        < slots0[k].spec_end()),
            decreases n - i,
        {
            let b = self.slots[i].begin();
            let sz = self.slots[i].size();
            proof {
                lemma_contiguous_bounds(slots0, 0, PROCESS_END_PAGES as int);
            }
            if b <= page && page - b < sz {
                proof {
                    lemma_page_of_slot(slots0, 0, PROCESS_END_PAGES as int, i as int, page as int);
                }
                match &self.slots[i] {
                    SpaceSlot::Free(_) => {
                        return FaultOutcome::Segv;
                    }
                    SpaceSlot::Used(m) => {
                        if write && m.flags & MAPPING_FLAG_WRITE == 0 {
                            return FaultOutcome::Segv;
                        }
                        if write && m.cow {
                            // unshare exactly the faulting page
                            let mut pieces: Vec<SpaceSlot> = Vec::new();
                            if b < page {
                                pieces.push(SpaceSlot::Used(slice_mapping(m, b, page)));
                            }
                            let mut mid = slice_mapping(m, page, page + 1);
                            mid.cow = false;
                            proof {
                                assert forall|p: int|
                                    page <= p < page + 1 implies SpaceSlot::Used(mid).page_at(p)
                                    == spec_uncow(SpaceSlot::Used(slots0[i as int]->Used_0).page_at(p)) by {}
                            }
                            pieces.push(SpaceSlot::Used(mid));
                            if page + 1 < b + sz {
                                pieces.push(SpaceSlot::Used(slice_mapping(m, page + 1, b + sz)));
                            }
                            let ghost gpieces = pieces@;
                            proof {
                                lemma_uncow_pieces(
                                    gpieces,
                                    slots0[i as int],
                                    b as int,
                                    sz as int,
                                    page as int,
                                );
                            }
                            self.splice(i, pieces);
                            proof {
                                lemma_gaps_merged_splice(slots0, i as int, gpieces);
                                assert(final(self).page(page as int) == spec_page_of(
                                    gpieces,
                                    page as int,
                                ));
                                lemma_page_of_slot(
                                    gpieces,
                                    b as int,
                                    (b + sz) as int,
                                    if b < page { 1int } else { 0int },
                                    page as int,
                                );
                                assert forall|p: int|
                                    p != page implies final(self).page(p) == old(self).page(p) by {
                                    if b <= p < b + sz {
                                        lemma_page_of_slot(
                                            slots0,
                                            0,
                                            PROCESS_END_PAGES as int,
                                            i as int,
                                            p,
                                        );
                                        if p < page {
                                            lemma_page_of_slot(
                                                gpieces,
                                                b as int,
                                                (b + sz) as int,
                                                0,
                                                p,
                                            );
                                        } else {
                                            lemma_page_of_slot(
                                                gpieces,
                                                b as int,
                                                (b + sz) as int,
                                                gpieces.len() - 1,
                                                p,
                                            );
                                        }
                                    }
                                }
                            }
                            return FaultOutcome::Unshared;
                        }
                        match &m.file {
                            Option::Some(fb) => {
                                let off = fb.offset + ((page - b) * PAGE_SIZE) as u64;
                                proof {
                                    assert((page - b) * PAGE_SIZE < m.spec_size() * PAGE_SIZE)
                                        by (nonlinear_arith)
                                        requires page - b < m.spec_size(), PAGE_SIZE > 0;
                                }
                                return FaultOutcome::LoadFile { file_id: fb.file_id, offset: off };
                            }
                            Option::None => {
                                return FaultOutcome::Spurious;
                            }
                        }
                    }
                }
            }
            i += 1;
        }
        proof {
            lemma_partition_exists(slots0, 0, PROCESS_END_PAGES as int, page as int);
            assert(false);
        }
        FaultOutcome::Spurious
    }
}

/// A mapped page with its copy-on-write mark dropped.
pub open spec fn spec_uncow(pv: PageView) -> PageView {
    match pv {
        PageView::Free => PageView::Free,
        PageView::Mapped { flags, cow, file, bytes } => PageView::Mapped {
            flags,
            cow: false,
            file,
            bytes,
        },
    }
}

/// The pieces built by the write-fault handler tile the mapping's range,
/// are well-formed mappings, keep every page but the faulting one, and drop
/// the sharing mark on it.
proof fn lemma_uncow_pieces(pieces: Seq<SpaceSlot>, slot: SpaceSlot, b: int, sz: int, fp: int)
    requires
        slot is Used,
        slot.slot_wf(),
        slot.spec_begin() == b,
        slot.spec_size() == sz,
        b <= fp < b + sz,
        pieces.len() == 1 + (if b < fp { 1int } else { 0 }) + (if fp + 1 < b + sz {
            1int
        } else {
            0
        }),
        b < fp ==> pieces[0] is Used && pieces[0].spec_begin() == b && pieces[0].spec_size() == fp
            - b && pieces[0].slot_wf() && (forall|p: int|
            b <= p < fp ==> #[trigger] pieces[0].page_at(p) == slot.page_at(p)),
        ({
            let mi = if b < fp { 1int } else { 0 };
            pieces[mi] is Used && pieces[mi].spec_begin() == fp && pieces[mi].spec_size() == 1
                && pieces[mi].slot_wf() && pieces[mi].page_at(fp) == spec_uncow(slot.page_at(fp))
        }),
        fp + 1 < b + sz ==> pieces.last() is Used && pieces.last().spec_begin() == fp + 1
            && pieces.last().spec_size() == b + sz - fp - 1 && pieces.last().slot_wf() && (forall|
            p: int,
        |
            fp + 1 <= p < b + sz ==> #[trigger] pieces.last().page_at(p) == slot.page_at(p)),
    ensures
        spec_contiguous(pieces, b, b + sz),
        forall|k: int| 0 <= k < pieces.len() ==> (#[trigger] pieces[k]).slot_wf(),
        !(pieces[0] is Free),
        !(pieces.last() is Free),
{
    let e = b + sz;
    let lo = fp;
    let hi = fp + 1;
    assert(pieces.skip(1).len() == pieces.len() - 1);
    if b < lo {
        assert(pieces.skip(1)[0] == pieces[1]);
        if hi < e {
            assert(pieces.skip(1).skip(1) =~= pieces.skip(2));
            assert(pieces.skip(2)[0] == pieces[2]);
            assert(pieces[2] == pieces.last());
            assert(pieces.skip(2).skip(1) =~= Seq::<SpaceSlot>::empty());
            assert(pieces[2].spec_end() == e);
            assert(spec_contiguous(Seq::<SpaceSlot>::empty(), e, e));
            assert(spec_contiguous(pieces.skip(2), hi, e));
            assert(spec_contiguous(pieces.skip(1), lo, e));
        } else {
            assert(pieces.skip(1).skip(1) =~= Seq::<SpaceSlot>::empty());
            assert(pieces[1] == pieces.last());
            assert(pieces[1].spec_end() == e);
            assert(spec_contiguous(Seq::<SpaceSlot>::empty(), e, e));
            assert(spec_contiguous(pieces.skip(1), lo, e));
        }
    } else {
        if hi < e {
            assert(pieces.skip(1)[0] == pieces[1]);
            assert(pieces[1] == pieces.last());
            assert(pieces.skip(1).skip(1) =~= Seq::<SpaceSlot>::empty());
            assert(pieces[1].spec_end() == e);
            assert(spec_contiguous(Seq::<SpaceSlot>::empty(), e, e));
            assert(spec_contiguous(pieces.skip(1), hi, e));
        } else {
            assert(pieces.skip(1) =~= Seq::<SpaceSlot>::empty());
            assert(pieces[0] == pieces.last());
            assert(pieces[0].spec_end() == e);
            assert(spec_contiguous(Seq::<SpaceSlot>::empty(), e, e));
        }
    }
    assert forall|k: int| 0 <= k < pieces.len() implies (#[trigger] pieces[k]).slot_wf() by {
        let mi = if b < lo { 1int } else { 0 };
        if k == mi {
        } else if k == 0 {
        } else {
            assert(pieces[k] == pieces.last());
        }
    }
}

/// Freshly mapped pages, written through their writable mapping, then
/// protected read-only, still read back the written bytes: nothing along
/// the way touches the stored data.
pub proof fn lemma_write_protect_read(
    s2: MemSpace,
    s3: MemSpace,
    addr: int,
    pages: int,
    waddr: int,
    data: Seq<u8>,
    flags: u8,
)
    requires
        // the write landed: the bytes of `[waddr, waddr + data.len())` hold the data
        forall|x: int| waddr <= x < waddr + data.len() ==> s2.spec_byte_at(x) == data[x - waddr],
        // the byte range lies inside the protected page range
        addr * PAGE_SIZE <= waddr,
        waddr + data.len() <= (addr + pages) * PAGE_SIZE,
        // the protection change kept every byte and only changed flags
        forall|p: int|
            addr <= p < addr + pages ==> s3.page(p) == spec_with_flags(s2.page(p), flags),
        // the written pages are mapped
        forall|p: int| addr <= p < addr + pages ==> s2.page(p) is Mapped,
    ensures
        forall|x: int| waddr <= x < waddr + data.len() ==> s3.spec_byte_at(x) == data[x - waddr],
{
    assert forall|x: int| waddr <= x < waddr + data.len() implies s3.spec_byte_at(x) == data[x
        - waddr] by {
        let ps = PAGE_SIZE as int;
        let q = x / ps;
        vstd::arithmetic::div_mod::lemma_fundamental_div_mod(x, ps);
        vstd::arithmetic::div_mod::lemma_mod_bound(x, ps);
        assert(addr <= q < addr + pages) by (nonlinear_arith)
            requires
                addr * ps <= x,
                x < (addr + pages) * ps,
                x == ps * q + (x % ps),
                0 <= x % ps < ps,
                ps > 0,
        ;
        assert(s3.page(q) == spec_with_flags(s2.page(q), flags));
        match s2.page(q) {
            PageView::Mapped { bytes, .. } => {
                assert(s2.spec_byte_at(x) == bytes[x % ps]);
                assert(s3.spec_byte_at(x) == bytes[x % ps]);
            }
            PageView::Free => {
                assert(false);
            }
        }
    }
}


/// A file offset below the end of the user range leaves room for any
/// mapping of at most the whole range.
pub proof fn lemma_offset_bound(pages: int)
    requires
        0 <= pages <= PROCESS_END_PAGES,
    ensures
        pages * PAGE_SIZE <= PROCESS_END,
{
    assert(pages * PAGE_SIZE <= PROCESS_END_PAGES * PAGE_SIZE) by (nonlinear_arith)
        requires 0 <= pages <= PROCESS_END_PAGES, PAGE_SIZE > 0;
}

/// A page number scaled by the page size is page-aligned.
pub proof fn lemma_page_addr_aligned(page: int)
    requires
        page >= 0,
    ensures
        (page * PAGE_SIZE) % (PAGE_SIZE as int) == 0,
{
    vstd::arithmetic::div_mod::lemma_mod_multiples_basic(page, PAGE_SIZE as int);
}

} // verus!
