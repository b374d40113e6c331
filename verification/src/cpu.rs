//! CPU cores and multicore bring-up.
//!
//! Before booting a secondary core, the kernel relocates the real-mode
//! trampoline to a fixed low physical page, publishes the per-core stacks
//! and the kernel page directory inside the copied image, and drives the
//! INIT/SIPI sequence on the bootstrap processor's APIC.

use vstd::prelude::*;

use crate::apic::{APIC, REG_OFFSET_EOI, REG_OFFSET_ERROR_STATUS, REG_OFFSET_ICR0, REG_OFFSET_ICR1};
use crate::PAGE_SIZE;

verus! {

/// The physical address the trampoline is copied to.
pub const TRAMPOLINE_PTR: usize = 0x8000;
/// The size of a core's startup stack, in bytes: eight pages.
pub const CORE_STACK_SIZE: usize = PAGE_SIZE * 8;

/// The legacy programmable interrupt controller.
pub struct Pic {
    /// Whether the controller has been disabled.
    disabled: bool,
    /// The interrupts acknowledged through the controller, in order.
    eoi_log: Vec<u8>,
}

impl Pic {
    /// Whether the controller has been disabled.
    pub closed spec fn spec_disabled(&self) -> bool {
        self.disabled
    }

    /// The interrupts acknowledged, in order.
    pub closed spec fn spec_eoi_log(&self) -> Seq<u8> {
        self.eoi_log@
    }

    /// Creates the controller in its power-on state.
    pub fn new() -> (r: Self)
        ensures
            !r.spec_disabled(),
            r.spec_eoi_log() == Seq::<u8>::empty(),
    {
        Pic { disabled: false, eoi_log: Vec::new() }
    }

    /// Disables the legacy controller, as multicore systems use the APIC.
    pub fn disable(&mut self)
        ensures
            final(self).spec_disabled(),
            final(self).spec_eoi_log() == old(self).spec_eoi_log(),
    {
        self.disabled = true;
    }

    /// Acknowledges the end of the given interrupt.
    pub fn end_of_interrupt(&mut self, irq: u8)
        ensures
            final(self).spec_disabled() == old(self).spec_disabled(),
            final(self).spec_eoi_log() == old(self).spec_eoi_log().push(irq),
    {
        self.eoi_log.push(irq);
    }

    /// Returns the acknowledgements sent through the controller.
    pub fn get_eoi_log(&self) -> (r: &Vec<u8>)
        ensures
            r@ == self.spec_eoi_log(),
    {
        &self.eoi_log
    }
}

/// A CPU core.
pub struct CPU {
    /// The core's id.
    id: u32,
    /// The core's APIC.
    apic: APIC,
    /// The I/O APIC physical address, when one is attached.
    io_apic_addr: Option<u32>,
    /// The core's flags, from the firmware tables.
    flags: u32,
}

impl CPU {
    /// The core's id.
    pub closed spec fn spec_id(&self) -> u32 {
        self.id
    }

    /// The core's APIC.
    pub closed spec fn spec_apic(&self) -> APIC {
        self.apic
    }

    /// The I/O APIC physical address.
    pub closed spec fn spec_io_apic_addr(&self) -> Option<u32> {
        self.io_apic_addr
    }

    /// The core's flags.
    pub closed spec fn spec_flags(&self) -> u32 {
        self.flags
    }

    /// Creates a new instance.
    pub fn new(id: u32, apic: APIC, flags: u32) -> (r: Self)
        ensures
            r.spec_id() == id,
            r.spec_apic() == apic,
            r.spec_io_apic_addr() is None,
            r.spec_flags() == flags,
    {
        CPU { id, apic, io_apic_addr: None, flags }
    }

    /// Returns the CPU's id.
    pub fn get_id(&self) -> (r: u32)
        ensures
            r == self.spec_id(),
    {
        self.id
    }

    /// Returns a reference to the APIC.
    pub fn get_apic(&self) -> (r: &APIC)
        ensures
            *r == self.spec_apic(),
    {
        &self.apic
    }

    /// Returns a mutable reference to the APIC.
    pub fn get_apic_mut(&mut self) -> (r: &mut APIC)
        ensures
            *r == old(self).spec_apic(),
            final(self).spec_apic() == *final(r),
            final(self).spec_id() == old(self).spec_id(),
            final(self).spec_io_apic_addr() == old(self).spec_io_apic_addr(),
            final(self).spec_flags() == old(self).spec_flags(),
    {
        &mut self.apic
    }

    /// Tells whether this core is the one running, by its APIC id.
    pub fn is_current(&self, current_id: u8) -> (r: bool)
        ensures
            r == (self.spec_apic().spec_id() == current_id),
    {
        self.apic.get_id() == current_id
    }

    /// Returns the I/O APIC physical address.
    pub fn get_io_apic_addr(&self) -> (r: Option<u32>)
        ensures
            r == self.spec_io_apic_addr(),
    {
        self.io_apic_addr
    }

    /// Sets the I/O APIC physical address.
    pub fn set_io_apic_addr(&mut self, addr: Option<u32>)
        ensures
            final(self).spec_io_apic_addr() == addr,
            final(self).spec_id() == old(self).spec_id(),
            final(self).spec_apic() == old(self).spec_apic(),
            final(self).spec_flags() == old(self).spec_flags(),
    {
        self.io_apic_addr = addr;
    }

    /// Returns the core's flags.
    pub fn get_flags(&self) -> (r: u32)
        ensures
            r == self.spec_flags(),
    {
        self.flags
    }

    /// Tells whether the core can be enabled: it is enabled-capable or
    /// online-capable in the firmware tables.
    pub fn can_enable(&self) -> (r: bool)
        ensures
            r == (self.spec_flags() & 0b1 != 0 || self.spec_flags() & 0b10 != 0),
    {
        (self.flags & 0b1 != 0) || (self.flags & 0b10 != 0)
    }

    /// Boots the core with the given APIC id from this core: clears the
    /// error status, sends INIT, then its deassert, then twice a startup
    /// interrupt pointing at the trampoline page, waiting for each
    /// delivery.
    ///
    /// The eleven writes land on this core's APIC in order: each command's
    /// destination carries the target id, the INIT commands carry the INIT
    /// and deassert codes, and both startup commands carry the startup
    /// delivery mode with the trampoline page number.
    pub fn enable_other(&mut self, apic_id: u8)
        requires
            old(self).spec_apic().wf(),
        ensures
            final(self).spec_apic().wf(),
            final(self).spec_id() == old(self).spec_id(),
            final(self).spec_apic().spec_id() == old(self).spec_apic().spec_id(),
            final(self).spec_flags() == old(self).spec_flags(),
            final(self).spec_io_apic_addr() == old(self).spec_io_apic_addr(),
            ({
                let oldlog = old(self).spec_apic().spec_log();
                let log = final(self).spec_apic().spec_log();
                &&& log.len() == oldlog.len() + 11
                &&& log.take(oldlog.len() as int) == oldlog
                &&& spec_startup_sequence(log.skip(oldlog.len() as int), apic_id)
            }),
    {
        let ghost oldlen = self.apic.spec_log().len();
        self.apic.reg_write(REG_OFFSET_ERROR_STATUS, 0);

        let base1a = self.apic.reg_read(REG_OFFSET_ICR1);
        let icr1a = (base1a & 0x00ffffff) | ((apic_id as u32) << 24);
        self.apic.reg_write(REG_OFFSET_ICR1, icr1a);
        let base0a = self.apic.reg_read(REG_OFFSET_ICR0);
        let icr0a = (base0a & 0xfff00000) | 0xc500;
        self.apic.reg_write(REG_OFFSET_ICR0, icr0a);
        self.apic.wait_delivery();
        proof {
            lemma_command_bits(base1a, base0a, apic_id);
        }

        let base1b = self.apic.reg_read(REG_OFFSET_ICR1);
        let icr1b = (base1b & 0x00ffffff) | ((apic_id as u32) << 24);
        self.apic.reg_write(REG_OFFSET_ICR1, icr1b);
        let base0b = self.apic.reg_read(REG_OFFSET_ICR0);
        let icr0b = (base0b & 0xfff00000) | 0x8500;
        self.apic.reg_write(REG_OFFSET_ICR0, icr0b);
        self.apic.wait_delivery();
        proof {
            lemma_command_bits(base1b, base0b, apic_id);
        }

        let mut k: u8 = 0;
        let ghost mid = self.apic.spec_log();
        while k < 2
            invariant
                k <= 2,
                self.apic.wf(),
                self.spec_id() == old(self).spec_id(),
                self.apic.spec_id() == old(self).spec_apic().spec_id(),
                self.spec_flags() == old(self).spec_flags(),
                self.spec_io_apic_addr() == old(self).spec_io_apic_addr(),
                self.apic.spec_log().len() == mid.len() + 3 * k,
                self.apic.spec_log().take(mid.len() as int) == mid,
                forall|t: int|
                    0 <= t < k ==> spec_sipi_round(
                        #[trigger] self.apic.spec_log().skip(mid.len() + 3 * t).take(3),
                        apic_id,
                    ),
            decreases 2 - k,
        {
            let ghost roundstart = self.apic.spec_log();
            self.apic.reg_write(REG_OFFSET_ERROR_STATUS, 0);
            let base1c = self.apic.reg_read(REG_OFFSET_ICR1);
            let icr1c = (base1c & 0x00ffffff) | ((apic_id as u32) << 24);
            self.apic.reg_write(REG_OFFSET_ICR1, icr1c);
            let base0c = self.apic.reg_read(REG_OFFSET_ICR0);
            let icr0c = (base0c & 0xfff0f800) | 0x000608;
            self.apic.reg_write(REG_OFFSET_ICR0, icr0c);
            self.apic.wait_delivery();
            proof {
                lemma_command_bits(base1c, base0c, apic_id);
                assert(self.apic.spec_log().skip(roundstart.len() as int).take(3) =~= seq![
                    (REG_OFFSET_ERROR_STATUS, 0u32),
                    (REG_OFFSET_ICR1, icr1c),
                    (REG_OFFSET_ICR0, icr0c),
                ]);
                assert(spec_sipi_round(
                    self.apic.spec_log().skip(roundstart.len() as int).take(3),
                    apic_id,
                ));
                assert(self.apic.spec_log().take(mid.len() as int) =~= mid);
                assert forall|t: int|
                    0 <= t < k + 1 implies spec_sipi_round(
                    #[trigger] self.apic.spec_log().skip(mid.len() + 3 * t).take(3),
                    apic_id,
                ) by {
                    if t < k {
                        assert(self.apic.spec_log().skip(mid.len() + 3 * t).take(3)
                            =~= roundstart.skip(mid.len() + 3 * t).take(3));
                    } else {
                        assert(3 * t == 3 * (k as int));
                        assert(self.apic.spec_log().skip(mid.len() + 3 * t).take(3)
                            =~= self.apic.spec_log().skip(roundstart.len() as int).take(3));
                    }
                }
            }
            k = k + 1;
        }
        proof {
            let log = self.apic.spec_log();
            let tail = log.skip(oldlen as int);
            assert(log.len() == oldlen + 11);
            assert(log.take(oldlen as int) =~= old(self).spec_apic().spec_log()) by {
                assert(mid.take(oldlen as int) =~= old(self).spec_apic().spec_log());
            }
            assert(spec_startup_sequence(tail, apic_id)) by {
                assert(tail.len() == 11);
                assert(tail[0] == mid[oldlen as int]);
                assert(tail[1] == mid[oldlen as int + 1]);
                assert(tail[2] == mid[oldlen as int + 2]);
                assert(tail[3] == mid[oldlen as int + 3]);
                assert(tail[4] == mid[oldlen as int + 4]);
                assert(log.skip(mid.len() as int).take(3) =~= tail.skip(5).take(3));
                assert(log.skip(mid.len() as int + 3).take(3) =~= tail.skip(8).take(3));
                assert(spec_sipi_round(log.skip(mid.len() as int + 3 * 0).take(3), apic_id));
                assert(spec_sipi_round(log.skip(mid.len() as int + 3 * 1).take(3), apic_id));
                assert(log.skip(mid.len() as int + 3 * 0).take(3) =~= log.skip(mid.len() as int).take(3));
                assert(log.skip(mid.len() as int + 3 * 1).take(3) =~= log.skip(
                    mid.len() as int + 3,
                ).take(3));
            }
        }
    }
}

/// Whether three log entries are one startup round: an error-status clear,
/// a destination write carrying the target id, and a startup command with
/// the trampoline page number.
pub open spec fn spec_sipi_round(entries: Seq<(usize, u32)>, apic_id: u8) -> bool {
    &&& entries.len() == 3
    &&& entries[0] == (REG_OFFSET_ERROR_STATUS, 0u32)
    &&& entries[1].0 == REG_OFFSET_ICR1
    &&& entries[1].1 >> 24 == apic_id as u32
    &&& entries[2].0 == REG_OFFSET_ICR0
    &&& entries[2].1 & 0x7ff == 0x608
}

/// Whether eleven log entries are the full bring-up sequence: INIT, its
/// deassert, then two startup rounds, all aimed at the target id.
pub open spec fn spec_startup_sequence(entries: Seq<(usize, u32)>, apic_id: u8) -> bool {
    &&& entries.len() == 11
    &&& entries[0] == (REG_OFFSET_ERROR_STATUS, 0u32)
    &&& entries[1].0 == REG_OFFSET_ICR1
    &&& entries[1].1 >> 24 == apic_id as u32
    &&& entries[2].0 == REG_OFFSET_ICR0
    &&& entries[2].1 & 0xffff == 0xc500
    &&& entries[3].0 == REG_OFFSET_ICR1
    &&& entries[3].1 >> 24 == apic_id as u32
    &&& entries[4].0 == REG_OFFSET_ICR0
    &&& entries[4].1 & 0xffff == 0x8500
    &&& spec_sipi_round(entries.skip(5).take(3), apic_id)
    &&& spec_sipi_round(entries.skip(8).take(3), apic_id)
}

/// The bit-level facts of the command words: a destination write built from
/// any base carries the id in its top byte; the INIT, deassert and startup
/// command words carry their codes in the low bits.
proof fn lemma_command_bits(icr1_base: u32, icr0_base: u32, apic_id: u8)
    ensures
        ((icr1_base & 0x00ffffff) | ((apic_id as u32) << 24)) >> 24 == apic_id as u32,
        ((icr0_base & 0xfff00000) | 0xc500) & 0xffff == 0xc500,
        ((icr0_base & 0xfff00000) | 0x8500) & 0xffff == 0x8500,
        ((icr0_base & 0xfff0f800) | 0x000608) & 0x7ff == 0x608,
{
    let id = apic_id as u32;
    assert(((icr1_base & 0x00ffffff) | (id << 24)) >> 24 == id) by (bit_vector)
        requires id < 256;
    assert(((icr0_base & 0xfff00000) | 0xc500) & 0xffff == 0xc500) by (bit_vector);
    assert(((icr0_base & 0xfff00000) | 0x8500) & 0xffff == 0x8500) by (bit_vector);
    assert(((icr0_base & 0xfff0f800) | 0x000608) & 0x7ff == 0x608) by (bit_vector);
}


/// The kernel's trampoline image: the code an application processor runs
/// from real mode, and the offsets of the two words the kernel publishes
/// inside it before relocation.
pub struct TrampolineBlob {
    /// The image's bytes.
    pub bytes: Vec<u8>,
    /// The offset of the word receiving the stacks array address.
    pub stacks_offset: usize,
    /// The offset of the word receiving the kernel page directory address.
    pub vmem_offset: usize,
}

impl TrampolineBlob {
    /// Whether the two published words lie inside the image.
    pub open spec fn wf(&self) -> bool {
        &&& self.stacks_offset + 4 <= self.bytes@.len()
        &&& self.vmem_offset + 4 <= self.bytes@.len()
        &&& (self.stacks_offset + 4 <= self.vmem_offset || self.vmem_offset + 4
            <= self.stacks_offset)
    }
}

/// The low physical memory an application processor can reach in real
/// mode; the trampoline is copied into it.
pub struct LowMemory {
    /// The bytes of the low window.
    bytes: Vec<u8>,
}

impl LowMemory {
    /// The bytes of the low window.
    pub closed spec fn view(&self) -> Seq<u8> {
        self.bytes@
    }

    /// Returns the byte at the given address.
    pub fn read_byte(&self, i: usize) -> (r: u8)
        requires
            i < self@.len(),
        ensures
            r == self@[i as int],
    {
        self.bytes[i]
    }

    /// Creates the window, zeroed.
    pub fn new(size: usize) -> (r: Self)
        ensures
            r@.len() == size,
    {
        let mut bytes: Vec<u8> = Vec::new();
        let mut i: usize = 0;
        while i < size
            invariant
                i <= size,
                bytes@.len() == i,
            decreases size - i,
        {
            bytes.push(0);
            i += 1;
        }
        LowMemory { bytes }
    }
}

/// A bump allocator handing out per-core startup stacks. The stacks are
/// deliberately leaked: they remain the property of their core.
pub struct StackAllocator {
    /// The next free address.
    next: u32,
}

impl StackAllocator {
    /// The next free address.
    pub closed spec fn spec_next(&self) -> u32 {
        self.next
    }

    /// Creates an allocator handing out stacks from the given base.
    pub fn new(base: u32) -> (r: Self)
        ensures
            r.spec_next() == base,
    {
        StackAllocator { next: base }
    }

    /// Allocates one startup stack and returns the address of its top.
    pub fn alloc_stack(&mut self) -> (r: u32)
        requires
            old(self).spec_next() + CORE_STACK_SIZE <= u32::MAX,
        ensures
            r == old(self).spec_next() + CORE_STACK_SIZE,
            final(self).spec_next() == old(self).spec_next() + CORE_STACK_SIZE,
    {
        let top = self.next + CORE_STACK_SIZE as u32;
        self.next = top;
        top
    }
}

/// The little-endian bytes of a 32-bit word.
pub open spec fn spec_le32(x: u32) -> Seq<u8> {
    seq![
        (x % 256) as u8,
        (x / 256 % 256) as u8,
        (x / 65536 % 256) as u8,
        (x / 16777216 % 256) as u8,
    ]
}

/// Writes the little-endian bytes of `x` at `pos`.
fn write_le32(bytes: &mut Vec<u8>, pos: usize, x: u32)
    requires
        pos + 4 <= old(bytes)@.len(),
    ensures
        final(bytes)@.len() == old(bytes)@.len(),
        forall|k: int| 0 <= k < old(bytes)@.len() && !(pos <= k < pos + 4) ==> final(bytes)@[k]
            == old(bytes)@[k],
        final(bytes)@.subrange(pos as int, pos + 4) == spec_le32(x),
    {
    let l = bytes.len();
    proof {
        assert(pos + 4 <= l);
    }
    bytes.set(pos, (x % 256) as u8);
    bytes.set(pos + 1, (x / 256 % 256) as u8);
    bytes.set(pos + 2, (x / 65536 % 256) as u8);
    bytes.set(pos + 3, (x / 16777216 % 256) as u8);
    proof {
        assert(bytes@.subrange(pos as int, pos + 4) =~= spec_le32(x));
    }
}

/// Relocates the trampoline for `cores_count` secondary cores: allocates
/// one startup stack per core, copies the image to the trampoline page,
/// and publishes the stacks array address and the kernel page directory
/// address inside the copy.
///
/// The copy matches the image byte for byte, except the two published
/// words; the returned stack tops rise by one stack size per core.
pub fn prepare_trampoline(
    blob: &TrampolineBlob,
    cores_count: usize,
    low: &mut LowMemory,
    alloc: &mut StackAllocator,
    stacks_array_addr: u32,
    kern_vmem: u32,
) -> (stacks: Vec<u32>)
    requires
        blob.wf(),
        TRAMPOLINE_PTR + blob.bytes@.len() <= old(low)@.len(),
        old(alloc).spec_next() + (cores_count + 1) * CORE_STACK_SIZE <= u32::MAX,
    ensures
        stacks@.len() == cores_count,
        forall|i: int|
            0 <= i < cores_count ==> stacks@[i] == old(alloc).spec_next() + (i + 1)
                * CORE_STACK_SIZE,
        final(low)@.len() == old(low)@.len(),
        // the copy holds the image's bytes, the two published words aside
        forall|k: int|
            0 <= k < blob.bytes@.len() && !(blob.stacks_offset <= k < blob.stacks_offset + 4) && !(
            blob.vmem_offset <= k < blob.vmem_offset + 4) ==> final(low)@[TRAMPOLINE_PTR + k]
                == blob.bytes@[k],
        // the published words carry the stacks array and the page directory
        final(low)@.subrange(
            TRAMPOLINE_PTR + blob.stacks_offset,
            TRAMPOLINE_PTR + blob.stacks_offset + 4,
        ) == spec_le32(stacks_array_addr),
        final(low)@.subrange(
            TRAMPOLINE_PTR + blob.vmem_offset,
            TRAMPOLINE_PTR + blob.vmem_offset + 4,
        ) == spec_le32(kern_vmem),
        // bytes outside the copied image are untouched
        forall|k: int|
            0 <= k < old(low)@.len() && !(TRAMPOLINE_PTR <= k < TRAMPOLINE_PTR
                + blob.bytes@.len()) ==> final(low)@[k] == old(low)@[k],
    {
    let mut stacks: Vec<u32> = Vec::new();
    let mut i: usize = 0;
    while i < cores_count
        invariant
            i <= cores_count,
            stacks@.len() == i,
            alloc.spec_next() == old(alloc).spec_next() + i * CORE_STACK_SIZE,
            forall|j: int|
                0 <= j < i ==> stacks@[j] == old(alloc).spec_next() + (j + 1) * CORE_STACK_SIZE,
        decreases cores_count - i,
    {
        proof {
            assert((i + 1) * CORE_STACK_SIZE <= (cores_count + 1) * CORE_STACK_SIZE)
                by (nonlinear_arith)
                requires i + 1 <= cores_count + 1, CORE_STACK_SIZE > 0;
            assert((i + 1) * CORE_STACK_SIZE == i * CORE_STACK_SIZE + CORE_STACK_SIZE)
                by (nonlinear_arith);
        }
        let top = alloc.alloc_stack();
        stacks.push(top);
        i += 1;
    }
    // copy the image to the trampoline page
    let len = blob.bytes.len();
    let mut k: usize = 0;
    while k < len
        invariant
            k <= len,
            len == blob.bytes@.len(),
            TRAMPOLINE_PTR + len <= low@.len(),
            low@.len() == old(low)@.len(),
            forall|j: int| 0 <= j < k ==> low@[TRAMPOLINE_PTR + j] == blob.bytes@[j],
            forall|j: int|
                0 <= j < old(low)@.len() && !(TRAMPOLINE_PTR <= j < TRAMPOLINE_PTR + k)
                    ==> low@[j] == old(low)@[j],
        decreases len - k,
    {
        let ll = low.bytes.len();
        proof {
            assert(TRAMPOLINE_PTR + k < ll);
        }
        low.bytes.set(TRAMPOLINE_PTR + k, blob.bytes[k]);
        k += 1;
    }
    // publish the stacks array and the kernel page directory in the copy
    let lowlen = low.bytes.len();
    let bloblen = blob.bytes.len();
    proof {
        assert(TRAMPOLINE_PTR + bloblen <= lowlen);
    }
    write_le32(&mut low.bytes, TRAMPOLINE_PTR + blob.stacks_offset, stacks_array_addr);
    write_le32(&mut low.bytes, TRAMPOLINE_PTR + blob.vmem_offset, kern_vmem);
    stacks
}

/// The index of the first core whose APIC carries the given id.
pub open spec fn spec_current_idx(cpus: Seq<CPU>, current_id: u8) -> Option<int>
    decreases cpus.len(),
{
    if cpus.len() == 0 {
        Option::None
    } else if cpus[0].spec_apic().spec_id() == current_id {
        Option::Some(0)
    } else {
        match spec_current_idx(cpus.skip(1), current_id) {
            Option::Some(i) => Option::Some(i + 1),
            Option::None => Option::None,
        }
    }
}

/// The APIC ids of the cores the bring-up boots, in list order: every
/// enable-capable core other than the one running.
pub open spec fn spec_boot_targets(cpus: Seq<CPU>, current_id: u8) -> Seq<u8>
    decreases cpus.len(),
{
    if cpus.len() == 0 {
        Seq::empty()
    } else {
        let rest = spec_boot_targets(cpus.skip(1), current_id);
        if cpus[0].spec_apic().spec_id() != current_id && (cpus[0].spec_flags() & 0b1 != 0
            || cpus[0].spec_flags() & 0b10 != 0) {
            seq![cpus[0].spec_apic().spec_id()] + rest
        } else {
            rest
        }
    }
}

/// One more core extends the target list by its id when it qualifies.
proof fn lemma_boot_targets_take(cpus: Seq<CPU>, current_id: u8, i: int)
    requires
        0 <= i < cpus.len(),
    ensures
        spec_boot_targets(cpus.take(i + 1), current_id) == if cpus[i].spec_apic().spec_id()
            != current_id && (cpus[i].spec_flags() & 0b1 != 0 || cpus[i].spec_flags() & 0b10
            != 0) {
            spec_boot_targets(cpus.take(i), current_id).push(cpus[i].spec_apic().spec_id())
        } else {
            spec_boot_targets(cpus.take(i), current_id)
        },
    decreases i,
{
    if i == 0 {
        assert(cpus.take(1)[0] == cpus[0]);
        assert(cpus.take(1).skip(1) =~= Seq::<CPU>::empty());
        assert(cpus.take(0) =~= Seq::<CPU>::empty());
        if cpus[0].spec_apic().spec_id() != current_id && (cpus[0].spec_flags() & 0b1 != 0
            || cpus[0].spec_flags() & 0b10 != 0) {
            assert(seq![cpus[0].spec_apic().spec_id()] + Seq::<u8>::empty() =~= Seq::<
                u8,
            >::empty().push(cpus[0].spec_apic().spec_id()));
        }
    } else {
        lemma_boot_targets_take(cpus.skip(1), current_id, i - 1);
        assert(cpus.take(i + 1)[0] == cpus[0]);
        assert(cpus.take(i + 1).skip(1) =~= cpus.skip(1).take(i));
        assert(cpus.take(i).skip(1) =~= cpus.skip(1).take(i - 1));
        assert(cpus.take(i)[0] == cpus[0]);
        assert(cpus.skip(1)[i - 1] == cpus[i]);
        if cpus[0].spec_apic().spec_id() != current_id && (cpus[0].spec_flags() & 0b1 != 0
            || cpus[0].spec_flags() & 0b10 != 0) {
            if cpus[i].spec_apic().spec_id() != current_id && (cpus[i].spec_flags() & 0b1 != 0
                || cpus[i].spec_flags() & 0b10 != 0) {
                assert(seq![cpus[0].spec_apic().spec_id()] + spec_boot_targets(
                    cpus.skip(1).take(i - 1),
                    current_id,
                ).push(cpus[i].spec_apic().spec_id()) =~= (seq![cpus[0].spec_apic().spec_id()]
                    + spec_boot_targets(cpus.skip(1).take(i - 1), current_id)).push(
                    cpus[i].spec_apic().spec_id(),
                ));
            }
        }
    }
}

/// The system's CPU list, filled at boot from the firmware tables.
pub struct CpuList {
    /// The cores.
    cpus: Vec<CPU>,
}

impl CpuList {
    /// The cores.
    pub closed spec fn view(&self) -> Seq<CPU> {
        self.cpus@
    }

    /// Creates an empty list.
    pub fn new() -> (r: Self)
        ensures
            r@.len() == 0,
    {
        CpuList { cpus: Vec::new() }
    }

    /// Adds a core to the list.
    pub fn add_core(&mut self, cpu: CPU)
        ensures
            final(self)@ == old(self)@.push(cpu),
    {
        self.cpus.push(cpu);
    }

    /// Returns the core at the given index.
    pub fn get(&self, i: usize) -> (r: &CPU)
        requires
            i < self@.len(),
        ensures
            *r == self@[i as int],
    {
        &self.cpus[i]
    }

    /// Returns the number of cores on the system.
    pub fn get_count(&self) -> (r: usize)
        ensures
            r == self@.len(),
    {
        self.cpus.len()
    }

    /// Returns the index of the first core carrying the given APIC id.
    ///
    /// Returns `None` exactly when no core carries it.
    pub fn get_current(&self, current_id: u8) -> (r: Option<usize>)
        ensures
            match r {
                Some(i) => spec_current_idx(self@, current_id) == Option::Some(i as int) && i
                    < self@.len() && self@[i as int].spec_apic().spec_id() == current_id,
                None => spec_current_idx(self@, current_id) is None,
            },
    {
        let n = self.cpus.len();
        let mut i: usize = 0;
        while i < n
            invariant
                i <= n,
                n == self@.len(),
                forall|j: int|
                    0 <= j < i ==> (#[trigger] self@[j]).spec_apic().spec_id() != current_id,
            decreases n - i,
        {
            if self.cpus[i].is_current(current_id) {
                proof {
                    lemma_current_found(self@, current_id, i as int);
                }
                return Some(i);
            }
            i += 1;
        }
        proof {
            lemma_current_none(self@, current_id);
        }
        None
    }

    /// Acknowledges the end of an interrupt on the current core: through
    /// its APIC when enabled, through the legacy controller otherwise.
    pub fn end_of_interrupt(&mut self, current_id: u8, irq: u8, pic: &mut Pic)
        requires
            forall|i: int| 0 <= i < old(self)@.len() ==> (#[trigger] old(self)@[i]).spec_apic().wf(),
        ensures
            final(self)@.len() == old(self)@.len(),
            match spec_current_idx(old(self)@, current_id) {
                Option::Some(i) => {
                    if old(self)@[i].spec_apic().spec_enabled() {
                        // The acknowledgement lands on the current core's APIC.
                        &&& final(self)@[i].spec_apic().spec_log() == old(
                            self,
                        )@[i].spec_apic().spec_log().push((REG_OFFSET_EOI, 0u32))
                        &&& final(self)@[i].spec_id() == old(self)@[i].spec_id()
                        &&& final(self)@[i].spec_apic().spec_id() == old(
                            self,
                        )@[i].spec_apic().spec_id()
                        &&& final(self)@[i].spec_apic().spec_enabled() == old(
                            self,
                        )@[i].spec_apic().spec_enabled()
                        &&& forall|k: int|
                            0 <= k < old(self)@.len() && k != i ==> final(self)@[k] == old(
                                self,
                            )@[k]
                        &&& *final(pic) == *old(pic)
                    } else {
                        // The legacy controller acknowledges instead.
                        &&& final(self)@ == old(self)@
                        &&& final(pic).spec_eoi_log() == old(pic).spec_eoi_log().push(irq)
                        &&& final(pic).spec_disabled() == old(pic).spec_disabled()
                    }
                },
                Option::None => {
                    &&& final(self)@ == old(self)@
                    &&& final(pic).spec_eoi_log() == old(pic).spec_eoi_log().push(irq)
                    &&& final(pic).spec_disabled() == old(pic).spec_disabled()
                },
            },
    {
        let idx = match self.get_current(current_id) {
            Some(i) => i,
            None => {
                pic.end_of_interrupt(irq);
                return;
            }
        };
        let cur = &self.cpus[idx];
        if cur.get_apic().is_enabled() {
            let ghost oldlen = self.cpus@.len();
            let mut cpu = self.cpus.remove(idx);
            cpu.apic.end_of_interrupt(irq);
            self.cpus.insert(idx, cpu);
            proof {
                assert(self.cpus@.len() == oldlen);
                assert forall|k: int| 0 <= k < oldlen && k != idx implies self.cpus@[k] == old(
                    self,
                )@[k] by {
                    if k < idx {
                        assert(old(self)@.remove(idx as int)[k] == old(self)@[k]);
                    } else {
                        assert(old(self)@.remove(idx as int)[k - 1] == old(self)@[k]);
                    }
                }
            }
        } else {
            pic.end_of_interrupt(irq);
        }
    }

    /// Initializes the cores other than the main one.
    ///
    /// With more than one core, the legacy controller is disabled, the
    /// trampoline is relocated with one eight-page startup stack per
    /// secondary core, the running core's APIC is enabled, and that core
    /// drives the INIT/SIPI bring-up of every other enable-capable core,
    /// in list order. With one core or none, nothing happens.
    #[verifier::rlimit(100)]
    pub fn init_multicore(
        &mut self,
        current_id: u8,
        blob: &TrampolineBlob,
        low: &mut LowMemory,
        alloc: &mut StackAllocator,
        stacks_array_addr: u32,
        kern_vmem: u32,
        pic: &mut Pic,
    ) -> (stacks: Vec<u32>)
        requires
            blob.wf(),
            TRAMPOLINE_PTR + blob.bytes@.len() <= old(low)@.len(),
            old(alloc).spec_next() + old(self)@.len() * CORE_STACK_SIZE <= u32::MAX,
            old(self)@.len() > 0,
            forall|i: int| 0 <= i < old(self)@.len() ==> (#[trigger] old(self)@[i]).spec_apic().wf(),
        ensures
            final(self)@.len() == old(self)@.len(),
            old(self)@.len() <= 1 ==> stacks@.len() == 0 && final(low)@ == old(low)@
                && final(pic).spec_disabled() == old(pic).spec_disabled() && final(self)@ == old(self)@,
            old(self)@.len() > 1 ==> ({
                let b = match spec_current_idx(old(self)@, current_id) {
                    Option::Some(i) => i,
                    Option::None => 0int,
                };
                let targets = spec_boot_targets(old(self)@, current_id);
                let oldlog = old(self)@[b].spec_apic().spec_log();
                let log = final(self)@[b].spec_apic().spec_log();
                let base = oldlog.len() + (
                if spec_current_idx(old(self)@, current_id) is Some && !old(self)@[b].spec_apic().spec_enabled() {
                    1int
                } else {
                    0
                });
                &&& final(pic).spec_disabled()
                // one eight-page stack per secondary core, tops rising by
                // one stack size each
                &&& stacks@.len() == old(self)@.len() - 1
                &&& forall|i: int|
                    0 <= i < stacks@.len() ==> stacks@[i] == old(alloc).spec_next() + (i + 1)
                        * CORE_STACK_SIZE
                // the relocated image, its two published words aside
                &&& forall|k: int|
                    0 <= k < blob.bytes@.len() && !(blob.stacks_offset <= k < blob.stacks_offset
                        + 4) && !(blob.vmem_offset <= k < blob.vmem_offset + 4) ==> final(low)@[TRAMPOLINE_PTR + k] == blob.bytes@[k]
                &&& final(low)@.subrange(
                    TRAMPOLINE_PTR + blob.stacks_offset,
                    TRAMPOLINE_PTR + blob.stacks_offset + 4,
                ) == spec_le32(stacks_array_addr)
                &&& final(low)@.subrange(
                    TRAMPOLINE_PTR + blob.vmem_offset,
                    TRAMPOLINE_PTR + blob.vmem_offset + 4,
                ) == spec_le32(kern_vmem)
                // every other core is untouched; the driving core's APIC
                // carries one full bring-up sequence per target, in order
                &&& forall|k: int| 0 <= k < old(self)@.len() && k != b ==> final(self)@[k] == old(self)@[k]
                &&& log.len() == base + 11 * targets.len()
                &&& log.take(oldlog.len() as int) == oldlog
                &&& forall|t: int|
                    0 <= t < targets.len() ==> spec_startup_sequence(
                        #[trigger] log.skip(base + 11 * t).take(11),
                        targets[t],
                    )
            }),
    {
        let cores_count = self.cpus.len();
        if cores_count <= 1 {
            return Vec::new();
        }
        pic.disable();
        proof {
            let ghost nlen = old(self)@.len() as int;
            assert((nlen - 1 + 1) * CORE_STACK_SIZE == nlen * CORE_STACK_SIZE) by (nonlinear_arith);
        }
        let stacks = prepare_trampoline(
            blob,
            cores_count - 1,
            low,
            alloc,
            stacks_array_addr,
            kern_vmem,
        );
        // the bring-up is driven from the running core; without one in the
        // list, the first core stands in
        let bsp_idx: usize = match self.get_current(current_id) {
            Some(i) => i,
            None => 0,
        };
        proof {
            assert(bsp_idx as int == match spec_current_idx(self.cpus@, current_id) {
                Option::Some(i) => i,
                Option::None => 0int,
            });
        }
        // enable the driving core's APIC
        let ghost before_enable = self.cpus@;
        let mut bsp = self.cpus.remove(bsp_idx);
        bsp.apic.enable(current_id);
        self.cpus.insert(bsp_idx, bsp);
        proof {
            assert(self.cpus@ =~= before_enable.update(bsp_idx as int, self.cpus@[bsp_idx as int]));
        }
        // boot the other enable-capable cores from the driving core
        let n = self.cpus.len();
        let ghost base_log = self.cpus@[bsp_idx as int].spec_apic().spec_log();
        let mut i: usize = 0;
        while i < n
            invariant
                i <= n,
                bsp_idx < n,
                n == self.cpus@.len(),
                n == old(self)@.len(),
                forall|k: int|
                    0 <= k < n && k != bsp_idx ==> self.cpus@[k] == old(self)@[k],
                self.cpus@[bsp_idx as int].spec_apic().wf(),
                self.cpus@[bsp_idx as int].spec_id() == old(self)@[bsp_idx as int].spec_id(),
                self.cpus@[bsp_idx as int].spec_apic().spec_id() == old(
                    self,
                )@[bsp_idx as int].spec_apic().spec_id(),
                self.cpus@[bsp_idx as int].spec_flags() == old(
                    self,
                )@[bsp_idx as int].spec_flags(),
                ({
                    let targets = spec_boot_targets(old(self)@.take(i as int), current_id);
                    let log = self.cpus@[bsp_idx as int].spec_apic().spec_log();
                    &&& log.len() == base_log.len() + 11 * targets.len()
                    &&& log.take(base_log.len() as int) == base_log
                    &&& forall|t: int|
                        0 <= t < targets.len() ==> spec_startup_sequence(
                            #[trigger] log.skip(base_log.len() + 11 * t).take(11),
                            targets[t],
                        )
                }),
            decreases n - i,
        {
            proof {
                lemma_boot_targets_take(old(self)@, current_id, i as int);
            }
            let target_current = self.cpus[i].is_current(current_id);
            let target_can = self.cpus[i].can_enable();
            let target_id = self.cpus[i].get_apic().get_id();
            if !target_current && target_can {
                let ghost before = self.cpus@;
                let ghost prev_targets = spec_boot_targets(old(self)@.take(i as int), current_id);
                let mut bsp = self.cpus.remove(bsp_idx);
                bsp.enable_other(target_id);
                self.cpus.insert(bsp_idx, bsp);
                proof {
                    assert(self.cpus@ =~= before.update(bsp_idx as int, self.cpus@[bsp_idx as int]));
                    let log = self.cpus@[bsp_idx as int].spec_apic().spec_log();
                    let prevlog = before[bsp_idx as int].spec_apic().spec_log();
                    assert(log.take(base_log.len() as int) =~= base_log);
                    assert forall|t: int|
                        0 <= t < prev_targets.len() + 1 implies spec_startup_sequence(
                        #[trigger] log.skip(base_log.len() + 11 * t).take(11),
                        prev_targets.push(target_id)[t],
                    ) by {
                        if t < prev_targets.len() {
                            assert(log.skip(base_log.len() + 11 * t).take(11) =~= prevlog.skip(
                                base_log.len() + 11 * t,
                            ).take(11));
                            assert(prev_targets.push(target_id)[t] == prev_targets[t]);
                        } else {
                            assert(log.skip(base_log.len() + 11 * t).take(11) =~= log.skip(
                                prevlog.len() as int,
                            ).take(11));
                            assert(log.skip(prevlog.len() as int).take(11) =~= log.skip(
                                prevlog.len() as int,
                            ));
                        }
                    }
                }
            }
            i += 1;
            proof {
                assert(old(self)@.take(n as int) =~= old(self)@);
            }
        }
        proof {
            assert(old(self)@.take(n as int) =~= old(self)@);
        }
        stacks
    }
}

/// The first matching core is where the search lands.
proof fn lemma_current_found(cpus: Seq<CPU>, current_id: u8, i: int)
    requires
        0 <= i < cpus.len(),
        cpus[i].spec_apic().spec_id() == current_id,
        forall|j: int| 0 <= j < i ==> (#[trigger] cpus[j]).spec_apic().spec_id() != current_id,
    ensures
        spec_current_idx(cpus, current_id) == Option::Some(i),
    decreases i,
{
    if i > 0 {
        assert forall|j: int|
            0 <= j < i - 1 implies (#[trigger] cpus.skip(1)[j]).spec_apic().spec_id()
            != current_id by {
            assert(cpus.skip(1)[j] == cpus[j + 1]);
        }
        assert(cpus.skip(1)[i - 1] == cpus[i]);
        lemma_current_found(cpus.skip(1), current_id, i - 1);
    }
}

/// With no matching core the search yields nothing.
proof fn lemma_current_none(cpus: Seq<CPU>, current_id: u8)
    requires
        forall|j: int|
            0 <= j < cpus.len() ==> (#[trigger] cpus[j]).spec_apic().spec_id() != current_id,
    ensures
        spec_current_idx(cpus, current_id) is None,
    decreases cpus.len(),
{
    if cpus.len() > 0 {
        assert forall|j: int|
            0 <= j < cpus.skip(1).len() implies (#[trigger] cpus.skip(1)[j]).spec_apic().spec_id()
            != current_id by {
            assert(cpus.skip(1)[j] == cpus[j + 1]);
        }
        lemma_current_none(cpus.skip(1), current_id);
    }
}

} // verus!
