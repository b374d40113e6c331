//! Interrupt event dispatch.
//!
//! Every IDT vector owns an ordered chain of callbacks. Callbacks fire in
//! registration order; a callback can stop the chain by asking the kernel to
//! idle or to panic. Callback bodies live outside this model: the dispatcher
//! works from the chain and from the result each invoked callback returned,
//! and decides which callbacks ran, whether an end-of-interrupt is owed, and
//! how the dispatch ends.

use vstd::prelude::*;

verus! {

/// The number of IDT vectors.
pub const ENTRIES_COUNT: u32 = 256;
/// The number of x86 exception vectors; vectors at or above are IRQs.
pub const EXCEPTION_COUNT: u32 = 32;

/// The name of the exception carried by vector `i`.
pub open spec fn spec_error_message(i: u32) -> Seq<char> {
    if i == 0 { "Divide-by-zero Error"@ }
    else if i == 1 { "Debug"@ }
    else if i == 2 { "Non-maskable Interrupt"@ }
    else if i == 3 { "Breakpoint"@ }
    else if i == 4 { "Overflow"@ }
    else if i == 5 { "Bound Range Exceeded"@ }
    else if i == 6 { "Invalid Opcode"@ }
    else if i == 7 { "Device Not Available"@ }
    else if i == 8 { "Double Fault"@ }
    else if i == 9 { "Coprocessor Segment Overrun"@ }
    else if i == 10 { "Invalid TSS"@ }
    else if i == 11 { "Segment Not Present"@ }
    else if i == 12 { "Stack-Segment Fault"@ }
    else if i == 13 { "General Protection Fault"@ }
    else if i == 14 { "Page Fault"@ }
    else if i == 16 { "x87 Floating-Point Exception"@ }
    else if i == 17 { "Alignement Check"@ }
    else if i == 18 { "Machine Check"@ }
    else if i == 19 { "SIMD Floating-Point Exception"@ }
    else if i == 20 { "Virtualization Exception"@ }
    else if i == 30 { "Security Exception"@ }
    else { "Unknown"@ }
}

/// Returns the error message corresponding to the given interrupt vector `i`.
pub fn get_error_message(i: u32) -> (r: &'static str)
    ensures
        r@ == spec_error_message(i),
{
    if i == 0 { "Divide-by-zero Error" }
    else if i == 1 { "Debug" }
    else if i == 2 { "Non-maskable Interrupt" }
    else if i == 3 { "Breakpoint" }
    else if i == 4 { "Overflow" }
    else if i == 5 { "Bound Range Exceeded" }
    else if i == 6 { "Invalid Opcode" }
    else if i == 7 { "Device Not Available" }
    else if i == 8 { "Double Fault" }
    else if i == 9 { "Coprocessor Segment Overrun" }
    else if i == 10 { "Invalid TSS" }
    else if i == 11 { "Segment Not Present" }
    else if i == 12 { "Stack-Segment Fault" }
    else if i == 13 { "General Protection Fault" }
    else if i == 14 { "Page Fault" }
    else if i == 16 { "x87 Floating-Point Exception" }
    else if i == 17 { "Alignement Check" }
    else if i == 18 { "Machine Check" }
    else if i == 19 { "SIMD Floating-Point Exception" }
    else if i == 20 { "Virtualization Exception" }
    else if i == 30 { "Security Exception" }
    else { "Unknown" }
}

/// The action to execute after an interrupt callback has returned.
#[derive(Clone, Copy, Debug, PartialEq, Eq, Structural)]
pub enum CallbackResult {
    /// Executes the remaining callbacks for the interrupt.
    Continue,
    /// Makes the current CPU kernel idle until the next interruption.
    Idle,
    /// Makes the kernel panic with the message corresponding to the vector.
    Panic,
}

/// The values of the registers at the moment of an interrupt.
#[derive(Clone, Copy, Debug, PartialEq, Eq, Structural)]
pub struct Regs {
    /// General purpose register a.
    pub eax: u32,
    /// General purpose register b.
    pub ebx: u32,
    /// General purpose register c.
    pub ecx: u32,
    /// General purpose register d.
    pub edx: u32,
    /// Source index register.
    pub esi: u32,
    /// Destination index register.
    pub edi: u32,
    /// Base pointer.
    pub ebp: u32,
    /// Stack pointer.
    pub esp: u32,
    /// Instruction pointer.
    pub eip: u32,
    /// Flags register.
    pub eflags: u32,
}

/// A pool gathering entropy from interrupt events.
pub struct EntropyPool {
    /// The bytes fed so far.
    buffer: Vec<u8>,
}

impl EntropyPool {
    /// The bytes fed so far.
    pub closed spec fn view(&self) -> Seq<u8> {
        self.buffer@
    }

    /// Creates an empty pool.
    pub fn new() -> (r: Self)
        ensures
            r@ == Seq::<u8>::empty(),
    {
        EntropyPool { buffer: Vec::new() }
    }

    /// Feeds the given bytes into the pool.
    pub fn write(&mut self, buff: &[u8])
        ensures
            final(self)@ == old(self)@ + buff@,
    {
        let mut k: usize = 0;
        while k < buff.len()
            invariant
                k <= buff@.len(),
                self@ == old(self)@ + buff@.subrange(0, k as int),
            decreases buff@.len() - k,
        {
            self.buffer.push(buff[k]);
            k += 1;
        }
        proof {
            assert(buff@.subrange(0, buff@.len() as int) == buff@);
        }
    }
}

/// Structure used to detect when the object owning a callback goes away,
/// allowing to unregister it. Dropping the hook through [`unregister`] is the
/// only means to remove a callback from its chain.
pub struct CallbackHook {
    /// The vector the callback is bound to.
    id: u32,
    /// The identity of the callback.
    ptr: u64,
}

impl CallbackHook {
    /// The vector the callback is bound to.
    pub closed spec fn spec_id(&self) -> u32 {
        self.id
    }

    /// The identity of the callback.
    pub closed spec fn spec_ptr(&self) -> u64 {
        self.ptr
    }

    /// Returns the vector the callback is bound to.
    pub fn get_id(&self) -> (r: u32)
        ensures
            r == self.spec_id(),
    {
        self.id
    }
}

/// The per-vector callback chains.
pub struct InterruptManager {
    /// One chain of callback identities per IDT vector.
    chains: Vec<Vec<u64>>,
}

/// The index of the first entry of `chain` holding `ptr`, or the chain's
/// length when none does.
pub open spec fn spec_find(chain: Seq<u64>, ptr: u64) -> int
    decreases chain.len(),
{
    if chain.len() == 0 {
        0
    } else if chain[0] == ptr {
        0
    } else {
        1 + spec_find(chain.skip(1), ptr)
    }
}

/// `spec_find` points at an occurrence when one exists, and at the end
/// otherwise.
pub proof fn lemma_find_properties(chain: Seq<u64>, ptr: u64)
    ensures
        0 <= spec_find(chain, ptr) <= chain.len(),
        spec_find(chain, ptr) < chain.len() ==> chain[spec_find(chain, ptr)] == ptr,
        forall|j: int| 0 <= j < spec_find(chain, ptr) ==> chain[j] != ptr,
    decreases chain.len(),
{
    if chain.len() > 0 && chain[0] != ptr {
        lemma_find_properties(chain.skip(1), ptr);
        assert forall|j: int| 0 <= j < spec_find(chain, ptr) implies chain[j] != ptr by {
            if j > 0 {
                assert(chain.skip(1)[j - 1] == chain[j]);
            }
        }
    }
}

impl InterruptManager {
    /// The chains, one per vector.
    pub closed spec fn view(&self) -> Seq<Seq<u64>> {
        Seq::new(self.chains@.len(), |i: int| self.chains@[i]@)
    }

    /// Whether the manager has one chain per IDT vector.
    pub open spec fn well_formed(&self) -> bool {
        self@.len() == ENTRIES_COUNT
    }

    /// Creates a manager with an empty chain for every vector.
    pub fn new() -> (r: Self)
        ensures
            r.well_formed(),
            forall|v: int| 0 <= v < ENTRIES_COUNT ==> r@[v] == Seq::<u64>::empty(),
    {
        let mut chains: Vec<Vec<u64>> = Vec::new();
        let mut i: usize = 0;
        while i < ENTRIES_COUNT as usize
            invariant
                i <= ENTRIES_COUNT,
                chains@.len() == i,
                forall|v: int| 0 <= v < i ==> chains@[v]@ == Seq::<u64>::empty(),
            decreases ENTRIES_COUNT - i,
        {
            chains.push(Vec::new());
            i += 1;
        }
        InterruptManager { chains }
    }

    /// Registers the given callback identity on vector `id` and returns a
    /// hook for it.
    ///
    /// The callback is appended at the tail of the chain: the latest
    /// registered callback executes last, so earlier ones can prevent it from
    /// running. If the vector is out of range, returns `None` and changes
    /// nothing.
    pub fn register_callback(&mut self, id: u32, callback: u64) -> (r: Option<CallbackHook>)
        requires
            old(self).well_formed(),
        ensures
            final(self).well_formed(),
            r is Some <==> id < ENTRIES_COUNT,
            match r {
                Some(hook) => {
                    &&& hook.spec_id() == id
                    &&& hook.spec_ptr() == callback
                    &&& final(self)@ == old(self)@.update(id as int, old(self)@[id as int].push(callback))
                },
                None => final(self)@ == old(self)@,
            },
    {
        if id >= ENTRIES_COUNT {
            return None;
        }
        let mut chain = self.chains.remove(id as usize);
        chain.push(callback);
        self.chains.insert(id as usize, chain);
        proof {
            assert(self@ =~= old(self)@.update(id as int, old(self)@[id as int].push(callback)));
        }
        Some(CallbackHook { id, ptr: callback })
    }

    /// Drops the given hook: removes the first entry of its vector's chain
    /// with the hook's callback identity. A missing entry is tolerated and
    /// changes nothing.
    pub fn unregister(&mut self, hook: CallbackHook)
        requires
            old(self).well_formed(),
            hook.spec_id() < ENTRIES_COUNT,
        ensures
            final(self).well_formed(),
            ({
                let chain = old(self)@[hook.spec_id() as int];
                let k = spec_find(chain, hook.spec_ptr());
                if k < chain.len() {
                    final(self)@ == old(self)@.update(
                        hook.spec_id() as int,
                        chain.subrange(0, k) + chain.skip(k + 1),
                    )
                } else {
                    final(self)@ == old(self)@
                }
            }),
    {
        let v = hook.id as usize;
        let mut chain = self.chains.remove(v);
        let ghost gchain = chain@;
        let ghost mid = self.chains@;
        let mut i: usize = 0;
        proof {
            lemma_find_properties(gchain, hook.spec_ptr());
        }
        while i < chain.len()
            invariant
                self.chains@ == mid,
                mid == old(self).chains@.remove(v as int),
                v < old(self).chains@.len(),
                gchain == old(self).chains@[v as int]@,
                i <= gchain.len(),
                chain@ == gchain,
                forall|j: int| 0 <= j < i ==> gchain[j] != hook.spec_ptr(),
            decreases gchain.len() - i,
        {
            if chain[i] == hook.ptr {
                proof {
                    lemma_find_properties(gchain, hook.spec_ptr());
                    assert(spec_find(gchain, hook.spec_ptr()) == i) by {
                        let k = spec_find(gchain, hook.spec_ptr());
                        if k < i {
                            assert(gchain[k] != hook.spec_ptr());
                        }
                        if k > i {
                            assert(gchain[i as int] != hook.spec_ptr());
                        }
                    }
                }
                chain.remove(i);
                self.chains.insert(v, chain);
                proof {
                    assert(self.chains@.len() == old(self).chains@.len());
                    assert forall|w: int| 0 <= w < old(self)@.len() && w != v implies
                        #[trigger] self@[w] == old(self)@[w] by {
                        if w < v {
                            assert(self.chains@[w] == mid[w]);
                            assert(mid[w] == old(self).chains@[w]);
                        } else {
                            assert(self.chains@[w] == mid[w - 1]);
                            assert(mid[w - 1] == old(self).chains@[w]);
                        }
                    }
                    assert(self@[v as int] =~= gchain.subrange(0, i as int) + gchain.skip(i + 1));
                    let target = old(self)@.update(
                        hook.spec_id() as int,
                        gchain.subrange(0, i as int) + gchain.skip(i + 1),
                    );
                    assert(self@.len() == target.len());
                    assert forall|w: int| 0 <= w < target.len() implies #[trigger] self@[w] == target[w] by {
                        if w == v {
                            assert(self@[w] == gchain.subrange(0, i as int) + gchain.skip(i + 1));
                        } else {
                            assert(self@[w] == old(self)@[w]);
                        }
                    }
                    assert(self@ =~= target);
                }
                return;
            }
            i += 1;
        }
        self.chains.insert(v, chain);
        proof {
            assert(spec_find(gchain, hook.spec_ptr()) == gchain.len()) by {
                lemma_find_properties(gchain, hook.spec_ptr());
                let k = spec_find(gchain, hook.spec_ptr());
                if k < gchain.len() {
                    assert(gchain[k] != hook.spec_ptr());
                }
            }
            assert(self.chains@.len() == old(self).chains@.len());
            assert forall|w: int| 0 <= w < old(self)@.len() && w != v implies
                #[trigger] self@[w] == old(self)@[w] by {
                if w < v {
                    assert(self.chains@[w] == mid[w]);
                    assert(mid[w] == old(self).chains@[w]);
                } else {
                    assert(self.chains@[w] == mid[w - 1]);
                    assert(mid[w - 1] == old(self).chains@[w]);
                }
            }
            assert(self@[v as int] == gchain);
            assert(gchain == old(self)@[v as int]);
            assert forall|w: int| 0 <= w < old(self)@.len() implies #[trigger] self@[w] == old(self)@[w] by {
            }
            assert(self@ =~= old(self)@);
        }
    }
}

/// Registering a fresh callback and then dropping its hook leaves the chains
/// exactly as they were: the hook is the one handle on the registration, and
/// dropping it removes exactly that callback from its vector.
pub proof fn lemma_register_then_unregister(before: Seq<Seq<u64>>, after: Seq<Seq<u64>>, id: u32, callback: u64)
    requires
        id < before.len(),
        // the callback is fresh on its vector
        forall|j: int| 0 <= j < before[id as int].len() ==> before[id as int][j] != callback,
        // the state after registration
        after == before.update(id as int, before[id as int].push(callback)),
    ensures
        // unregistering finds the registered entry and removing it restores the chains
        spec_find(after[id as int], callback) == before[id as int].len(),
        after.update(
            id as int,
            after[id as int].subrange(0, spec_find(after[id as int], callback))
                + after[id as int].skip(spec_find(after[id as int], callback) + 1),
        ) == before,
{
    let chain = after[id as int];
    lemma_find_properties(chain, callback);
    let k = spec_find(chain, callback);
    if k < before[id as int].len() {
        assert(chain[k] == before[id as int][k]);
        assert(false);
    }
    assert(chain[before[id as int].len() as int] == callback);
    assert(k == before[id as int].len());
    assert(chain.subrange(0, k) =~= before[id as int]);
    assert(chain.skip(k + 1) =~= Seq::<u64>::empty());
    assert(chain.subrange(0, k) + chain.skip(k + 1) =~= before[id as int]);
    assert(after.update(id as int, chain.subrange(0, k) + chain.skip(k + 1)) =~= before);
}

/// How a dispatch ended.
#[derive(Clone, Copy, Debug, PartialEq, Eq, Structural)]
pub enum DispatchEnd {
    /// Every callback ran and returned `Continue`; execution resumes the
    /// interrupted code.
    Resumed,
    /// A callback asked the CPU to idle until the next interrupt.
    Idled,
    /// A callback asked for a kernel panic.
    Panicked,
}

/// The observable outcome of dispatching one interrupt.
#[derive(Clone, Copy, Debug)]
pub struct DispatchOutcome {
    /// How many callbacks of the chain were invoked.
    pub invoked: usize,
    /// The IRQ number an end-of-interrupt was issued for, if any.
    pub eoi: Option<u8>,
    /// How the dispatch ended.
    pub end: DispatchEnd,
}

/// The number of callbacks that run: every callback up to and including the
/// first one whose result is not `Continue`.
pub open spec fn spec_invoked_count(results: Seq<CallbackResult>) -> int
    decreases results.len(),
{
    if results.len() == 0 {
        0
    } else if results[0] is Continue {
        1 + spec_invoked_count(results.skip(1))
    } else {
        1
    }
}

impl InterruptManager {
    /// Dispatches an interrupt on vector `id`.
    ///
    /// Arguments:
    /// - `id` is the vector; `code` an optional error code; `ring` the ring
    ///   the interrupted code ran at; `regs` the register snapshot.
    /// - `pool` is the entropy pool, fed with the event when initialized.
    /// - `results` holds, for each callback of the chain in order, the result
    ///   its body returned; callback bodies run outside this model.
    ///
    /// Callbacks run in registration order until one returns something other
    /// than `Continue`. On `Idle` from an IRQ vector (at or above
    /// `EXCEPTION_COUNT`), an end-of-interrupt is issued for
    /// `id - EXCEPTION_COUNT`.
    #[verifier::rlimit(30)]
    pub fn event_handler(
        &self,
        id: u32,
        code: u32,
        ring: u32,
        regs: &Regs,
        pool: &mut EntropyPool,
        pool_initialized: bool,
        results: &Vec<CallbackResult>,
    ) -> (r: DispatchOutcome)
        requires
            self.well_formed(),
            id < ENTRIES_COUNT,
            results@.len() == self@[id as int].len(),
        ensures
            r.invoked == spec_invoked_count(results@),
            r.end == (if spec_invoked_count(results@) == 0
                || results@[spec_invoked_count(results@) - 1] is Continue {
                DispatchEnd::Resumed
            } else if results@[spec_invoked_count(results@) - 1] is Idle {
                DispatchEnd::Idled
            } else {
                DispatchEnd::Panicked
            }),
            r.eoi == (if r.end is Idled && id >= EXCEPTION_COUNT {
                Some((id - EXCEPTION_COUNT) as u8)
            } else {
                None::<u8>
            }),
            // the event's words feed the pool when it is initialized
            pool_initialized ==> final(pool)@ == old(pool)@ + spec_u32_le(id) + spec_u32_le(code)
                + spec_u32_le(ring) + spec_regs_bytes(*regs),
            !pool_initialized ==> final(pool)@ == old(pool)@,
    {
        if pool_initialized {
            feed_entropy_u32(pool, id);
            feed_entropy_u32(pool, code);
            feed_entropy_u32(pool, ring);
            feed_entropy_regs(pool, regs);
        }
        let mut i: usize = 0;
        let n = results.len();
        proof {
            lemma_invoked_count_bounds(results@);
        }
        while i < n
            invariant
                n == results@.len(),
                i <= n,
                forall|j: int| 0 <= j < i ==> results@[j] is Continue,
                pool_initialized ==> pool@ == old(pool)@ + spec_u32_le(id) + spec_u32_le(code)
                    + spec_u32_le(ring) + spec_regs_bytes(*regs),
                !pool_initialized ==> pool@ == old(pool)@,
            decreases n - i,
        {
            proof {
                lemma_invoked_count_step(results@, i as int);
            }
            match results[i] {
                CallbackResult::Continue => {}
                CallbackResult::Idle => {
                    let eoi = if id >= EXCEPTION_COUNT {
                        Some((id - EXCEPTION_COUNT) as u8)
                    } else {
                        None
                    };
                    return DispatchOutcome { invoked: i + 1, eoi, end: DispatchEnd::Idled };
                }
                CallbackResult::Panic => {
                    return DispatchOutcome { invoked: i + 1, eoi: None, end: DispatchEnd::Panicked };
                }
            }
            i += 1;
        }
        proof {
            lemma_invoked_count_all_continue(results@);
        }
        DispatchOutcome { invoked: n, eoi: None, end: DispatchEnd::Resumed }
    }
}

/// When the first `i` results are `Continue`, the count of invoked callbacks
/// is `i + 1` when result `i` stops the chain, and stays above `i` otherwise.
proof fn lemma_invoked_count_step(results: Seq<CallbackResult>, i: int)
    requires
        0 <= i < results.len(),
        forall|j: int| 0 <= j < i ==> results[j] is Continue,
    ensures
        !(results[i] is Continue) ==> spec_invoked_count(results) == i + 1,
        results[i] is Continue ==> spec_invoked_count(results) >= i + 2 || spec_invoked_count(results) == results.len(),
    decreases i,
{
    if i == 0 {
        if results[0] is Continue {
            lemma_invoked_count_bounds(results.skip(1));
        }
    } else {
        lemma_invoked_count_step(results.skip(1), i - 1);
    }
}

/// The invoked count lies between 1 and the chain's length on a non-empty
/// chain.
proof fn lemma_invoked_count_bounds(results: Seq<CallbackResult>)
    ensures
        results.len() == 0 ==> spec_invoked_count(results) == 0,
        results.len() > 0 ==> 1 <= spec_invoked_count(results) <= results.len(),
    decreases results.len(),
{
    if results.len() > 0 && results[0] is Continue {
        lemma_invoked_count_bounds(results.skip(1));
    }
}

/// When every result is `Continue`, every callback is invoked.
proof fn lemma_invoked_count_all_continue(results: Seq<CallbackResult>)
    requires
        forall|j: int| 0 <= j < results.len() ==> results[j] is Continue,
    ensures
        spec_invoked_count(results) == results.len(),
    decreases results.len(),
{
    if results.len() > 0 {
        lemma_invoked_count_all_continue(results.skip(1));
    }
}

/// The little-endian bytes of a 32-bit word.
pub open spec fn spec_u32_le(x: u32) -> Seq<u8> {
    seq![
        (x % 256) as u8,
        (x / 256 % 256) as u8,
        (x / 65536 % 256) as u8,
        (x / 16777216 % 256) as u8,
    ]
}

/// The bytes of a register snapshot, field by field in declaration order.
pub open spec fn spec_regs_bytes(r: Regs) -> Seq<u8> {
    spec_u32_le(r.eax) + spec_u32_le(r.ebx) + spec_u32_le(r.ecx) + spec_u32_le(r.edx)
        + spec_u32_le(r.esi) + spec_u32_le(r.edi) + spec_u32_le(r.ebp) + spec_u32_le(r.esp)
        + spec_u32_le(r.eip) + spec_u32_le(r.eflags)
}

/// Feeds the little-endian bytes of `x` into the pool.
fn feed_entropy_u32(pool: &mut EntropyPool, x: u32)
    ensures
        final(pool)@ == old(pool)@ + spec_u32_le(x),
{
    let bytes: [u8; 4] = [
        (x % 256) as u8,
        (x / 256 % 256) as u8,
        (x / 65536 % 256) as u8,
        (x / 16777216 % 256) as u8,
    ];
    pool.write(bytes.as_slice());
    proof {
        assert(bytes@ =~= spec_u32_le(x));
    }
}

/// Feeds a register snapshot into the pool.
fn feed_entropy_regs(pool: &mut EntropyPool, regs: &Regs)
    ensures
        final(pool)@ == old(pool)@ + spec_regs_bytes(*regs),
{
    feed_entropy_u32(pool, regs.eax);
    feed_entropy_u32(pool, regs.ebx);
    feed_entropy_u32(pool, regs.ecx);
    feed_entropy_u32(pool, regs.edx);
    feed_entropy_u32(pool, regs.esi);
    feed_entropy_u32(pool, regs.edi);
    feed_entropy_u32(pool, regs.ebp);
    feed_entropy_u32(pool, regs.esp);
    feed_entropy_u32(pool, regs.eip);
    feed_entropy_u32(pool, regs.eflags);
}

} // verus!
