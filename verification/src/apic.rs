//! The Advanced Programmable Interrupt Controller (APIC).
//!
//! Each APIC's registers are 16-byte aligned words in a memory-mapped
//! window. The object carries its register file and the ordered log of the
//! writes performed on it, so register sequences are part of contracts.

use vstd::prelude::*;

use crate::rational::{Rational, RATIONAL_MAX};

verus! {

/// The offset of the End Of Interrupt register.
pub const REG_OFFSET_EOI: usize = 0xb0;
/// The offset of the Spurious Interrupt Vector register.
pub const REG_OFFSET_SIV: usize = 0xf0;
/// The offset of the error status register.
pub const REG_OFFSET_ERROR_STATUS: usize = 0x280;
/// The offset of the Interrupt Command Register's low word.
pub const REG_OFFSET_ICR0: usize = 0x300;
/// The offset of the Interrupt Command Register's high word.
pub const REG_OFFSET_ICR1: usize = 0x310;
/// The offset of the LVT Timer register.
pub const REG_OFFSET_LVT_TIMER: usize = 0x320;
/// The offset of the Initial Count Register.
pub const REG_OFFSET_ICR: usize = 0x380;
/// The offset of the Divide Configuration Register.
pub const REG_OFFSET_DCR: usize = 0x3e0;

/// The number of modeled registers: one per 16 bytes of the window.
pub const APIC_REG_COUNT: usize = 256;

/// The interrupt vector of the APIC timer.
pub const TIMER_VEC: u8 = 0;

/// The destination of an inter-processor interrupt.
#[derive(Clone, Copy, Debug)]
pub enum IPIDest {
    /// The APIC with the given id.
    Number(u8),
    /// The current CPU.
    SelfCPU,
    /// Every CPU, the current one included.
    AllIncludingSelf,
    /// Every CPU but the current one.
    AllExcludingSelf,
}

impl IPIDest {
    /// The destination field: the target id for a numbered destination,
    /// zero for the shorthands.
    pub open spec fn spec_apic_id(&self) -> u8 {
        match self {
            IPIDest::Number(n) => *n,
            _ => 0,
        }
    }

    /// The destination shorthand field.
    pub open spec fn spec_shorthand(&self) -> u32 {
        match self {
            IPIDest::Number(_) => 0,
            IPIDest::SelfCPU => 1,
            IPIDest::AllIncludingSelf => 2,
            IPIDest::AllExcludingSelf => 3,
        }
    }
}

/// A local APIC: its id, state, register file and write log.
pub struct APIC {
    /// The APIC's id.
    id: u8,
    /// Whether the APIC is enabled.
    enabled: bool,
    /// The registers, one word per 16-byte slot.
    regs: Vec<u32>,
    /// Every register write performed, in order: offset and value.
    write_log: Vec<(usize, u32)>,
    /// The low word of the APIC base machine-specific register.
    msr_base_lo: u32,
    /// The high word of the APIC base machine-specific register.
    msr_base_hi: u32,
}

impl APIC {
    /// The word stored in the register at byte offset `off`.
    pub closed spec fn spec_reg(&self, off: int) -> u32 {
        self.regs@[off / 16]
    }

    /// The ordered log of the writes performed.
    pub closed spec fn spec_log(&self) -> Seq<(usize, u32)> {
        self.write_log@
    }

    /// The APIC's id.
    pub closed spec fn spec_id(&self) -> u8 {
        self.id
    }

    /// Whether the APIC is enabled.
    pub closed spec fn spec_enabled(&self) -> bool {
        self.enabled
    }

    /// The low word of the APIC base machine-specific register.
    pub closed spec fn spec_msr_lo(&self) -> u32 {
        self.msr_base_lo
    }

    /// Whether the register file has its full size.
    pub open spec fn wf(&self) -> bool {
        self.spec_regs_len() == APIC_REG_COUNT
    }

    /// The number of modeled registers.
    pub closed spec fn spec_regs_len(&self) -> int {
        self.regs@.len() as int
    }

    /// Creates a new instance with the given id: disabled, registers reset
    /// to zero, log empty.
    pub fn new(id: u8) -> (r: Self)
        ensures
            r.wf(),
            r.spec_id() == id,
            !r.spec_enabled(),
            forall|off: int| 0 <= off / 16 < APIC_REG_COUNT ==> r.spec_reg(off) == 0,
            r.spec_log() == Seq::<(usize, u32)>::empty(),
    {
        let mut regs: Vec<u32> = Vec::new();
        let mut i: usize = 0;
        while i < APIC_REG_COUNT
            invariant
                i <= APIC_REG_COUNT,
                regs@.len() == i,
                forall|k: int| 0 <= k < i ==> regs@[k] == 0,
            decreases APIC_REG_COUNT - i,
        {
            regs.push(0);
            i += 1;
        }
        APIC { id, enabled: false, regs, write_log: Vec::new(), msr_base_lo: 0xfee00000, msr_base_hi: 0 }
    }

    /// Returns the APIC's id.
    pub fn get_id(&self) -> (r: u8)
        ensures
            r == self.spec_id(),
    {
        self.id
    }

    /// Returns the ordered log of the writes performed.
    pub fn get_write_log(&self) -> (r: &Vec<(usize, u32)>)
        ensures
            r@ == self.spec_log(),
    {
        &self.write_log
    }

    /// Tells whether the APIC is enabled.
    pub fn is_enabled(&self) -> (r: bool)
        ensures
            r == self.spec_enabled(),
    {
        self.enabled
    }

    /// Reads the register at byte offset `offset`.
    pub fn reg_read(&self, offset: usize) -> (r: u32)
        requires
            self.wf(),
            offset % 16 == 0,
            offset < 16 * APIC_REG_COUNT,
        ensures
            r == self.spec_reg(offset as int),
    {
        self.regs[offset / 16]
    }

    /// Writes the register at byte offset `offset` and records the write in
    /// the log.
    pub fn reg_write(&mut self, offset: usize, value: u32)
        requires
            old(self).wf(),
            offset % 16 == 0,
            offset < 16 * APIC_REG_COUNT,
        ensures
            final(self).wf(),
            final(self).spec_reg(offset as int) == value,
            forall|o: int|
                0 <= o / 16 < APIC_REG_COUNT && o / 16 != offset / 16 ==> final(self).spec_reg(o)
                    == old(self).spec_reg(o),
            final(self).spec_log() == old(self).spec_log().push((offset, value)),
            final(self).spec_id() == old(self).spec_id(),
            final(self).spec_enabled() == old(self).spec_enabled(),
            final(self).spec_msr_lo() == old(self).spec_msr_lo(),
    {
        self.regs.set(offset / 16, value);
        self.write_log.push((offset, value));
    }

    /// Waits until the interrupt command's delivery-pending bit clears: the
    /// hardware completes the delivery, which clears bit 12 of the command
    /// register's low word. Nothing else moves and nothing is logged.
    pub fn wait_delivery(&mut self)
        requires
            old(self).wf(),
        ensures
            final(self).wf(),
            final(self).spec_reg(REG_OFFSET_ICR0 as int) == old(self).spec_reg(
                REG_OFFSET_ICR0 as int,
            ) & 0xffffefff,
            forall|o: int|
                0 <= o / 16 < APIC_REG_COUNT && o / 16 != REG_OFFSET_ICR0 as int / 16 ==> final(self).spec_reg(o) == old(self).spec_reg(o),
            final(self).spec_log() == old(self).spec_log(),
            final(self).spec_id() == old(self).spec_id(),
            final(self).spec_enabled() == old(self).spec_enabled(),
            final(self).spec_msr_lo() == old(self).spec_msr_lo(),
    {
        let v = self.regs[REG_OFFSET_ICR0 / 16];
        self.regs.set(REG_OFFSET_ICR0 / 16, v & 0xffffefff);
    }

    /// Enables the APIC: sets the enable bit of the APIC base register and
    /// bit 8 of the spurious interrupt vector, which gates delivery.
    ///
    /// Only the owning core may enable its APIC: when the APIC's id is not
    /// the current core's, or it is already enabled, nothing happens.
    pub fn enable(&mut self, current_id: u8)
        requires
            old(self).wf(),
        ensures
            final(self).wf(),
            final(self).spec_id() == old(self).spec_id(),
            old(self).spec_enabled() || old(self).spec_id() != current_id ==> *final(self) == *old(self),
            !old(self).spec_enabled() && old(self).spec_id() == current_id ==> {
                &&& final(self).spec_enabled()
                &&& final(self).spec_msr_lo() == (old(self).spec_msr_lo() & 0xffff0000) | 0x800
                &&& final(self).spec_reg(REG_OFFSET_SIV as int) == old(self).spec_reg(
                    REG_OFFSET_SIV as int,
                ) | 0x100
                &&& final(self).spec_log() == old(self).spec_log().push(
                    (REG_OFFSET_SIV, old(self).spec_reg(REG_OFFSET_SIV as int) | 0x100),
                )
            },
    {
        if self.enabled {
            return;
        }
        if self.id != current_id {
            return;
        }
        self.msr_base_lo = (self.msr_base_lo & 0xffff0000) | 0x800;
        let siv = self.reg_read(REG_OFFSET_SIV);
        self.reg_write(REG_OFFSET_SIV, siv | 0x100);
        self.enabled = true;
    }

    /// Sends an End-Of-Interrupt message for the given interrupt.
    pub fn end_of_interrupt(&mut self, _irq: u8)
        requires
            old(self).wf(),
        ensures
            final(self).wf(),
            final(self).spec_reg(REG_OFFSET_EOI as int) == 0,
            final(self).spec_log() == old(self).spec_log().push((REG_OFFSET_EOI, 0u32)),
            final(self).spec_enabled() == old(self).spec_enabled(),
            final(self).spec_id() == old(self).spec_id(),
    {
        self.reg_write(REG_OFFSET_EOI, 0);
    }

    /// Sends an inter-processor interrupt with vector `n` to `dest` and
    /// waits for its delivery.
    ///
    /// The destination id goes into the command register's high word, the
    /// shorthand and vector into its low word; both writes are logged, and
    /// the delivery-pending bit reads clear afterwards.
    pub fn send_ipi(&mut self, n: u8, dest: IPIDest)
        requires
            old(self).wf(),
        ensures
            final(self).wf(),
            ({
                let icr1 = (old(self).spec_reg(REG_OFFSET_ICR1 as int) & 0x00ffffff) | ((
                dest.spec_apic_id() as u32) << 24);
                let icr0 = (old(self).spec_reg(REG_OFFSET_ICR0 as int) & 0xfff00000) | (
                dest.spec_shorthand() << 18) | (n as u32);
                &&& final(self).spec_reg(REG_OFFSET_ICR1 as int) == icr1
                &&& final(self).spec_reg(REG_OFFSET_ICR0 as int) == icr0 & 0xffffefff
                &&& final(self).spec_log() == old(self).spec_log().push((REG_OFFSET_ICR1, icr1)).push(
                    (REG_OFFSET_ICR0, icr0),
                )
            }),
            final(self).spec_enabled() == old(self).spec_enabled(),
            final(self).spec_id() == old(self).spec_id(),
    {
        let apic_id: u8 = match dest {
            IPIDest::Number(x) => x,
            _ => 0,
        };
        let dest_shorthand: u32 = match dest {
            IPIDest::Number(_) => 0b00,
            IPIDest::SelfCPU => 0b01,
            IPIDest::AllIncludingSelf => 0b10,
            IPIDest::AllExcludingSelf => 0b11,
        };
        let icr1 = (self.reg_read(REG_OFFSET_ICR1) & 0x00ffffff) | ((apic_id as u32) << 24);
        self.reg_write(REG_OFFSET_ICR1, icr1);
        let icr0 = (self.reg_read(REG_OFFSET_ICR0) & 0xfff00000) | (dest_shorthand << 18) | (
        n as u32);
        self.reg_write(REG_OFFSET_ICR0, icr0);
        self.wait_delivery();
    }
}

/// The divider encoding of a shift amount: the divide configuration
/// register's three control bits for dividing by two to the given power.
pub open spec fn spec_divider_encoding(shift: u32) -> u32 {
    if shift == 0 {
        0b111
    } else if shift == 1 {
        0b000
    } else if shift == 2 {
        0b001
    } else if shift == 3 {
        0b010
    } else if shift == 4 {
        0b011
    } else if shift == 5 {
        0b100
    } else if shift == 6 {
        0b101
    } else {
        0b110
    }
}

/// The counter and divider shift a value splits into: up to seven trailing
/// binary zeros move into the shift.
pub open spec fn spec_tz_split(c: u64, shift: u32) -> (u64, u32)
    decreases 7 - shift,
{
    if shift >= 7 || c == 0 || c % 2 == 1 {
        (c, shift)
    } else {
        spec_tz_split(c / 2, (shift + 1) as u32)
    }
}

/// Splits a counter value into a shifted counter and a divider shift: up to
/// seven trailing binary zeros move into the shift.
pub fn split_counter(count: u64) -> (r: (u64, u32))
    ensures
        r == spec_tz_split(count, 0),
        r.1 <= 7,
        count == r.0 * vstd::arithmetic::power2::pow2(r.1 as nat),
{
    let mut c = count;
    let mut shift: u32 = 0;
    proof {
        vstd::arithmetic::power2::lemma2_to64();
        assert(c * vstd::arithmetic::power2::pow2(0) == c) by (nonlinear_arith)
            requires vstd::arithmetic::power2::pow2(0) == 1;
    }
    while shift < 7 && c != 0 && c % 2 == 0
        invariant
            shift <= 7,
            count == c * vstd::arithmetic::power2::pow2(shift as nat),
            spec_tz_split(count, 0) == spec_tz_split(c, shift),
        decreases 7 - shift,
    {
        proof {
            vstd::arithmetic::power2::lemma_pow2_unfold((shift + 1) as nat);
            assert((c / 2) * (2 * vstd::arithmetic::power2::pow2(shift as nat)) == c
                * vstd::arithmetic::power2::pow2(shift as nat)) by (nonlinear_arith)
                requires c % 2 == 0, c >= 0;
        }
        c = c / 2;
        shift = shift + 1;
    }
    (c, shift)
}

/// An APIC timer, driven by the core crystal clock.
pub struct APICTimer {
    /// The current timer frequency.
    freq: Rational,
}

impl APICTimer {
    /// The current frequency.
    pub closed spec fn spec_freq(&self) -> Rational {
        self.freq
    }

    /// Creates a timer, stopped.
    pub fn new() -> (r: Self)
        ensures
            r.spec_freq().num() == 0,
    {
        APICTimer { freq: Rational::from_integer(0) }
    }

    /// Returns the current frequency.
    pub fn get_curr_frequency(&self) -> (r: Rational)
        ensures
            r == self.spec_freq(),
    {
        self.freq
    }

    /// Programs the timer for the given frequency on the given APIC.
    ///
    /// A zero frequency masks the timer in the LVT register. Otherwise the
    /// counter is the denominator of `max_freq / frequency`; its trailing
    /// zeros (at most seven) move into the divide configuration register,
    /// the remaining count goes to the initial-count register, and the LVT
    /// timer register is set to periodic mode with the timer vector.
    pub fn set_curr_frequency(&mut self, apic: &mut APIC, frequency: Rational, max_freq: Rational)
        requires
            old(apic).wf(),
            frequency.well_formed(),
            max_freq.well_formed(),
        ensures
            final(self).spec_freq() == frequency,
            final(apic).wf(),
            frequency.num() == 0 ==> {
                &&& final(apic).spec_reg(REG_OFFSET_LVT_TIMER as int) == old(apic).spec_reg(
                    REG_OFFSET_LVT_TIMER as int,
                ) | 0x400000
                &&& final(apic).spec_log() == old(apic).spec_log().push(
                    (
                        REG_OFFSET_LVT_TIMER,
                        old(apic).spec_reg(REG_OFFSET_LVT_TIMER as int) | 0x400000,
                    ),
                )
            },
            frequency.num() != 0 ==> ({
                let denom = max_freq.den() * frequency.num();
                let count_abs = (if denom >= 0 { denom } else { -denom }) as u64;
                let cs = spec_tz_split(count_abs, 0);
                let div = (old(apic).spec_reg(REG_OFFSET_DCR as int) & 0xfffffff4) | ((
                spec_divider_encoding(cs.1) & 0b100) << 3) | (spec_divider_encoding(cs.1) & 0b11);
                let lvt = (old(apic).spec_reg(REG_OFFSET_LVT_TIMER as int) & 0xfff8ff00) | 0x20000
                    | (TIMER_VEC as u32);
                &&& final(apic).spec_log() == old(apic).spec_log().push(
                    (REG_OFFSET_DCR, div),
                ).push((REG_OFFSET_ICR, cs.0 as u32)).push((REG_OFFSET_LVT_TIMER, lvt))
                &&& final(apic).spec_reg(REG_OFFSET_LVT_TIMER as int) == lvt
            }),
    {
        self.freq = frequency;
        if frequency.is_zero() {
            let lvt = apic.reg_read(REG_OFFSET_LVT_TIMER);
            apic.reg_write(REG_OFFSET_LVT_TIMER, lvt | 0x400000);
            return;
        }
        // the counter ratio is max_freq / frequency; its denominator is the
        // count of core-crystal pulses per timer period
        let counter_ratio = max_freq.div(&frequency);
        let denom = counter_ratio.get_denominator();
        proof {
            assert(i64::MIN < denom <= i64::MAX) by (nonlinear_arith)
                requires
                    denom == max_freq.den() * frequency.num(),
                    -RATIONAL_MAX <= max_freq.den() <= RATIONAL_MAX,
                    -RATIONAL_MAX <= frequency.num() <= RATIONAL_MAX,
            ;
        }
        let count_abs: u64 = if denom >= 0 {
            denom as u64
        } else {
            (-denom) as u64
        };
        let (count, shift) = split_counter(count_abs);
        let div_val: u32 = if shift == 0 {
            0b111
        } else if shift == 1 {
            0b000
        } else if shift == 2 {
            0b001
        } else if shift == 3 {
            0b010
        } else if shift == 4 {
            0b011
        } else if shift == 5 {
            0b100
        } else if shift == 6 {
            0b101
        } else {
            0b110
        };
        let dcr = apic.reg_read(REG_OFFSET_DCR);
        let div = (dcr & 0xfffffff4) | ((div_val & 0b100) << 3) | (div_val & 0b11);
        apic.reg_write(REG_OFFSET_DCR, div);
        // the initial count goes to the initial-count register
        apic.reg_write(REG_OFFSET_ICR, count as u32);
        let lvt_timer = apic.reg_read(REG_OFFSET_LVT_TIMER) & 0xfff8ff00;
        apic.reg_write(REG_OFFSET_LVT_TIMER, lvt_timer | 0x20000 | (TIMER_VEC as u32));
        proof {
            assert(spec_divider_encoding(shift) == div_val);
        }
    }
}

/// An I/O APIC: a register-select window and a data window.
pub struct IOAPIC {
    /// The registers, by index.
    regs: Vec<u32>,
    /// The currently selected register.
    selected: u32,
    /// Every data-window write performed, in order: register and value.
    write_log: Vec<(u32, u32)>,
}

impl IOAPIC {
    /// The word stored in register `i`.
    pub closed spec fn spec_reg(&self, i: int) -> u32 {
        self.regs@[i]
    }

    /// The ordered log of data writes.
    pub closed spec fn spec_log(&self) -> Seq<(u32, u32)> {
        self.write_log@
    }

    /// The number of modeled registers.
    pub closed spec fn spec_regs_len(&self) -> int {
        self.regs@.len() as int
    }

    /// Whether the register file has its full size.
    pub open spec fn wf(&self) -> bool {
        self.spec_regs_len() == 64
    }

    /// Creates an I/O APIC model with zeroed registers.
    pub fn new() -> (r: Self)
        ensures
            r.wf(),
            r.spec_log() == Seq::<(u32, u32)>::empty(),
    {
        let mut regs: Vec<u32> = Vec::new();
        let mut i: usize = 0;
        while i < 64
            invariant
                i <= 64,
                regs@.len() == i,
            decreases 64 - i,
        {
            regs.push(0);
            i += 1;
        }
        IOAPIC { regs, selected: 0, write_log: Vec::new() }
    }

    /// Reads register `offset` through the select and data windows.
    pub fn reg_read(&mut self, offset: u32) -> (r: u32)
        requires
            old(self).wf(),
            offset < 64,
        ensures
            final(self).wf(),
            r == old(self).spec_reg(offset as int),
            final(self).spec_log() == old(self).spec_log(),
            forall|i: int| 0 <= i < 64 ==> final(self).spec_reg(i) == old(self).spec_reg(i),
    {
        self.selected = offset;
        self.regs[offset as usize]
    }

    /// Writes register `offset` through the select and data windows.
    pub fn reg_write(&mut self, offset: u32, value: u32)
        requires
            old(self).wf(),
            offset < 64,
        ensures
            final(self).wf(),
            final(self).spec_reg(offset as int) == value,
            forall|i: int| 0 <= i < 64 && i != offset ==> final(self).spec_reg(i) == old(self).spec_reg(i),
            final(self).spec_log() == old(self).spec_log().push((offset, value)),
    {
        self.selected = offset;
        self.regs.set(offset as usize, value);
        self.write_log.push((offset, value));
    }

    /// Programs redirection entry `n` with vector `v`: the entry's low word
    /// at register `0x10 + 2 n` carries the vector.
    pub fn set_entry(&mut self, n: u32, v: u8)
        requires
            old(self).wf(),
            n < 24,
        ensures
            final(self).wf(),
            final(self).spec_reg(0x10 + 2 * (n as int)) == v as u32,
            final(self).spec_log() == old(self).spec_log().push(((0x10 + 2 * n) as u32, v as u32)),
    {
        self.reg_write(0x10 + 2 * n, v as u32);
    }
}

} // verus!
