//! PID handling.
//!
//! Each running process has a unique PID. A dense bit-set records which ids
//! are in use; PID 1 is reserved for the init process.

use vstd::prelude::*;

use crate::errno::{Errno, ENOMEM};

verus! {

/// Type representing a process identifier.
pub type Pid = u16;

/// The maximum possible PID.
pub const MAX_PID: Pid = 32768;
/// The PID of the init process.
pub const INIT_PID: Pid = 1;

/// A dense bit-set handing out unique small ids.
pub struct IdAllocator {
    /// One flag per id: `true` when the id is used.
    used: Vec<bool>,
}

impl IdAllocator {
    /// The set of used ids.
    pub closed spec fn view(&self) -> Seq<bool> {
        self.used@
    }

    /// Creates a new allocator for ids `0..limit`, all free.
    pub fn new(limit: usize) -> (r: Self)
        ensures
            r@.len() == limit,
            forall|i: int| 0 <= i < limit ==> !r@[i],
    {
        let mut used: Vec<bool> = Vec::new();
        let mut i: usize = 0;
        while i < limit
            invariant
                i <= limit,
                used@.len() == i,
                forall|j: int| 0 <= j < i ==> !used@[j],
            decreases limit - i,
        {
            used.push(false);
            i += 1;
        }
        IdAllocator { used }
    }

    /// Marks the id `i` as used.
    pub fn set_used(&mut self, i: usize)
        requires
            i < old(self)@.len(),
        ensures
            final(self)@ == old(self)@.update(i as int, true),
    {
        self.used.set(i, true);
    }

    /// Returns the lowest free id and marks it as used.
    ///
    /// When every id is used, returns `ENOMEM`.
    pub fn allocate(&mut self) -> (r: Result<usize, Errno>)
        ensures
            match r {
                Ok(i) => {
                    &&& i < old(self)@.len()
                    &&& !old(self)@[i as int]
                    &&& forall|j: int| 0 <= j < i ==> old(self)@[j]
                    &&& final(self)@ == old(self)@.update(i as int, true)
                },
                Err(e) => {
                    &&& e == ENOMEM
                    &&& forall|j: int| 0 <= j < old(self)@.len() ==> old(self)@[j]
                    &&& final(self)@ == old(self)@
                },
            },
    {
        let mut i: usize = 0;
        while i < self.used.len()
            invariant
                i <= self@.len(),
                self@ == old(self)@,
                forall|j: int| 0 <= j < i ==> self@[j],
            decreases self@.len() - i,
        {
            if !self.used[i] {
                self.used.set(i, true);
                return Ok(i);
            }
            i += 1;
        }
        Err(ENOMEM)
    }

    /// Marks the id `i` as free. Freeing a free id does nothing.
    pub fn free(&mut self, i: usize)
        requires
            i < old(self)@.len(),
        ensures
            final(self)@ == old(self)@.update(i as int, false),
    {
        self.used.set(i, false);
    }
}

/// A structure handling PID allocations.
pub struct PIDManager {
    /// The PID allocator; slot `p - 1` stands for PID `p`.
    allocator: IdAllocator,
}

impl PIDManager {
    /// `self@[p - 1]` tells whether PID `p` is held; PID 1 is always held.
    pub closed spec fn view(&self) -> Seq<bool> {
        self.allocator@
    }

    /// Whether the manager is in its valid shape: one slot per possible PID.
    pub open spec fn well_formed(&self) -> bool {
        self@.len() == MAX_PID
    }

    /// Creates a new instance with PID 1 pre-reserved.
    pub fn new() -> (r: Self)
        ensures
            r.well_formed(),
            r@[INIT_PID - 1],
            forall|j: int| 0 <= j < MAX_PID && j != INIT_PID - 1 ==> !r@[j],
    {
        let mut allocator = IdAllocator::new(MAX_PID as usize);
        allocator.set_used((INIT_PID - 1) as usize);
        PIDManager { allocator }
    }

    /// Returns an unused PID and marks it as used.
    ///
    /// The result is the lowest free PID; it was not held before the call and
    /// is held after it, so ids handed out are distinct while held.
    pub fn get_unique_pid(&mut self) -> (r: Result<Pid, Errno>)
        requires
            old(self).well_formed(),
        ensures
            final(self).well_formed(),
            match r {
                Ok(pid) => {
                    &&& 1 <= pid <= MAX_PID
                    &&& !old(self)@[pid - 1]
                    &&& forall|j: int| 0 <= j < pid - 1 ==> old(self)@[j]
                    &&& final(self)@ == old(self)@.update(pid - 1, true)
                },
                Err(e) => {
                    &&& e == ENOMEM
                    &&& forall|j: int| 0 <= j < MAX_PID ==> old(self)@[j]
                    &&& final(self)@ == old(self)@
                },
            },
    {
        match self.allocator.allocate() {
            Ok(i) => Ok((i + 1) as Pid),
            Err(e) => Err(e),
        }
    }

    /// Releases the given PID to make it available to other processes.
    ///
    /// If the PID was not allocated, the function does nothing.
    pub fn release_pid(&mut self, pid: Pid)
        requires
            old(self).well_formed(),
            1 <= pid <= MAX_PID,
        ensures
            final(self).well_formed(),
            final(self)@ == old(self)@.update(pid - 1, false),
    {
        self.allocator.free((pid - 1) as usize);
    }
}

/// Two PIDs handed out one after the other, neither released in between, are
/// distinct: the first is held in every state the second can be drawn from.
pub proof fn lemma_allocated_pids_distinct(s0: PIDManager, s1: PIDManager, p1: Pid, p2: Pid)
    requires
        s0.well_formed(),
        1 <= p1 <= MAX_PID,
        1 <= p2 <= MAX_PID,
        // p1 was handed out on s0, yielding s1
        !s0@[p1 - 1],
        s1@ == s0@.update(p1 - 1, true),
        // p2 was handed out on s1
        !s1@[p2 - 1],
    ensures
        p1 != p2,
{
    assert(s1@[p1 - 1]);
}

} // verus!
