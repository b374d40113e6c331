//! The Multiple APIC Description Table (MADT): the firmware table listing
//! the system's interrupt controllers.

use vstd::prelude::*;

verus! {

/// Entry type: a processor-local APIC.
pub const ENTRY_PROCESSOR_LOCAL_APIC: u8 = 0;
/// Entry type: an I/O APIC.
pub const ENTRY_IO_APIC: u8 = 1;
/// Entry type: a local APIC address override.
pub const ENTRY_LOCAL_APIC_ADDRESS_OVERRIDE: u8 = 5;

/// The offset of the first entry inside the table.
pub const ENTRIES_OFF: usize = 0x2c;

/// The 32-bit little-endian word at `off` in `bytes`.
pub open spec fn spec_u32_at(bytes: Seq<u8>, off: int) -> u32 {
    (bytes[off] + bytes[off + 1] * 0x100 + bytes[off + 2] * 0x10000 + bytes[off + 3]
        * 0x1000000) as u32
}

/// The 16-bit little-endian word at `off` in `bytes`.
pub open spec fn spec_u16_at(bytes: Seq<u8>, off: int) -> u16 {
    (bytes[off] + bytes[off + 1] * 0x100) as u16
}

/// Reads the 32-bit little-endian word at `off`.
pub fn read_u32_at(bytes: &[u8], off: usize) -> (r: u32)
    requires
        off + 4 <= bytes@.len(),
    ensures
        r == spec_u32_at(bytes@, off as int),
{
    (bytes[off] as u32) + (bytes[off + 1] as u32) * 0x100 + (bytes[off + 2] as u32) * 0x10000 + (
    bytes[off + 3] as u32) * 0x1000000
}

/// Reads the 16-bit little-endian word at `off`.
pub fn read_u16_at(bytes: &[u8], off: usize) -> (r: u16)
    requires
        off + 2 <= bytes@.len(),
    ensures
        r == spec_u16_at(bytes@, off as int),
{
    (bytes[off] as u16) + (bytes[off + 1] as u16) * 0x100
}

/// The header of one MADT entry: its type and byte length.
#[derive(Clone, Copy, Debug, PartialEq, Eq, Structural)]
pub struct EntryHeader {
    /// The entry's type.
    entry_type: u8,
    /// The entry's length in bytes, header included.
    length: u8,
}

impl EntryHeader {
    /// The entry's type.
    pub closed spec fn spec_type(&self) -> u8 {
        self.entry_type
    }

    /// The entry's length.
    pub closed spec fn spec_length(&self) -> u8 {
        self.length
    }

    /// Returns the entry's type.
    pub fn get_type(&self) -> (r: u8)
        ensures
            r == self.spec_type(),
    {
        self.entry_type
    }

    /// Returns the entry's length.
    pub fn get_length(&self) -> (r: u8)
        ensures
            r == self.spec_length(),
    {
        self.length
    }
}

/// A processor-local APIC entry: the processor and APIC ids and the flags
/// telling whether the core can be enabled.
#[derive(Clone, Copy, Debug, PartialEq, Eq, Structural)]
pub struct EntryProcessorLocalAPIC {
    /// The entry's header.
    pub header: EntryHeader,
    /// The ACPI processor id.
    pub id: u8,
    /// The APIC id.
    pub apic_id: u8,
    /// The entry's flags.
    pub flags: u32,
}

/// An I/O APIC entry.
#[derive(Clone, Copy, Debug, PartialEq, Eq, Structural)]
pub struct EntryIOAPIC {
    /// The entry's header.
    pub header: EntryHeader,
    /// The I/O APIC's id.
    pub io_apic_id: u8,
    /// The I/O APIC's physical address.
    pub io_apic_addr: u32,
    /// The first global system interrupt the I/O APIC handles.
    pub global_system_interrupt_base: u32,
}

/// A local APIC address override entry.
#[derive(Clone, Copy, Debug, PartialEq, Eq, Structural)]
pub struct EntryLocalAPICAddressOverride {
    /// The entry's header.
    pub header: EntryHeader,
    /// The local APIC's physical address.
    pub local_apic_addr: u64,
}

/// The MADT: the local APIC address, the table flags, and the raw entry
/// bytes that follow the fixed part.
pub struct Madt {
    /// The physical address of the local APIC.
    pub local_apic_addr: u32,
    /// The table's flags.
    pub flags: u32,
    /// The bytes of the entries, as they follow the fixed part.
    pub entries_bytes: Vec<u8>,
}

impl Madt {
    /// Reads the table from its raw bytes: the local APIC address and
    /// flags from the fixed part, the rest as entry bytes.
    pub fn parse(bytes: &[u8]) -> (r: Option<Madt>)
        ensures
            match r {
                Some(m) => {
                    &&& bytes@.len() >= ENTRIES_OFF
                    &&& m.local_apic_addr == spec_u32_at(bytes@, 0x24)
                    &&& m.flags == spec_u32_at(bytes@, 0x28)
                    &&& m.entries_bytes@ == bytes@.skip(ENTRIES_OFF as int)
                },
                None => bytes@.len() < ENTRIES_OFF,
            },
    {
        if bytes.len() < ENTRIES_OFF {
            return None;
        }
        let local_apic_addr = read_u32_at(bytes, 0x24);
        let flags = read_u32_at(bytes, 0x28);
        let mut entries_bytes: Vec<u8> = Vec::new();
        let mut i: usize = ENTRIES_OFF;
        while i < bytes.len()
            invariant
                ENTRIES_OFF <= i <= bytes@.len(),
                entries_bytes@ == bytes@.subrange(ENTRIES_OFF as int, i as int),
            decreases bytes@.len() - i,
        {
            entries_bytes.push(bytes[i]);
            proof {
                assert(entries_bytes@ =~= bytes@.subrange(ENTRIES_OFF as int, i + 1));
            }
            i += 1;
        }
        proof {
            assert(bytes@.subrange(ENTRIES_OFF as int, bytes@.len() as int) =~= bytes@.skip(
                ENTRIES_OFF as int,
            ));
        }
        Some(Madt { local_apic_addr, flags, entries_bytes })
    }

    /// Reads the entry header at offset `off` of the entry bytes.
    ///
    /// Returns `None` exactly when fewer than two bytes remain there.
    pub fn entry_at(&self, off: usize) -> (r: Option<EntryHeader>)
        ensures
            match r {
                Some(h) => {
                    &&& off + 2 <= self.entries_bytes@.len()
                    &&& h.spec_type() == self.entries_bytes@[off as int]
                    &&& h.spec_length() == self.entries_bytes@[off + 1]
                },
                None => off + 2 > self.entries_bytes@.len(),
            },
    {
        if off >= self.entries_bytes.len() || off + 1 >= self.entries_bytes.len() {
            return None;
        }
        Some(EntryHeader {
            entry_type: self.entries_bytes[off],
            length: self.entries_bytes[off + 1],
        })
    }

    /// Collects the headers of all entries, walking the entry bytes by each
    /// entry's length. A header whose length is shorter than a header or
    /// runs past the end stops the walk.
    pub fn entries(&self) -> (r: Vec<(usize, EntryHeader)>)
        ensures
            forall|k: int|
                0 <= k < r@.len() ==> {
                    let (off, h) = #[trigger] r@[k];
                    &&& off + 2 <= self.entries_bytes@.len()
                    &&& h.spec_type() == self.entries_bytes@[off as int]
                    &&& h.spec_length() == self.entries_bytes@[off + 1]
                },
    {
        let mut out: Vec<(usize, EntryHeader)> = Vec::new();
        let mut i: usize = 0;
        let n = self.entries_bytes.len();
        while i < n
            invariant
                n == self.entries_bytes@.len(),
                forall|k: int|
                    0 <= k < out@.len() ==> {
                        let (off, h) = #[trigger] out@[k];
                        &&& off + 2 <= self.entries_bytes@.len()
                        &&& h.spec_type() == self.entries_bytes@[off as int]
                        &&& h.spec_length() == self.entries_bytes@[off + 1]
                    },
            decreases n - i,
        {
            let h = match self.entry_at(i) {
                Some(h) => h,
                None => {
                    return out;
                }
            };
            let hl = h.get_length() as usize;
            if hl < 2 || hl > n || i > n - hl {
                return out;
            }
            out.push((i, h));
            i += h.get_length() as usize;
        }
        out
    }

    /// Reads the processor-local APIC entry at offset `off` of the entry
    /// bytes.
    pub fn processor_entry_at(&self, off: usize) -> (r: Option<EntryProcessorLocalAPIC>)
        ensures
            match r {
                Some(e) => {
                    &&& off + 8 <= self.entries_bytes@.len()
                    &&& self.entries_bytes@[off as int] == ENTRY_PROCESSOR_LOCAL_APIC
                    &&& e.id == self.entries_bytes@[off + 2]
                    &&& e.apic_id == self.entries_bytes@[off + 3]
                    &&& e.flags == spec_u32_at(self.entries_bytes@, off + 4)
                },
                None => off + 8 > self.entries_bytes@.len() || self.entries_bytes@[off as int]
                    != ENTRY_PROCESSOR_LOCAL_APIC,
            },
    {
        let n = self.entries_bytes.len();
        if off > n || n - off < 8 {
            return None;
        }
        if self.entries_bytes[off] != ENTRY_PROCESSOR_LOCAL_APIC {
            return None;
        }
        Some(EntryProcessorLocalAPIC {
            header: EntryHeader {
                entry_type: self.entries_bytes[off],
                length: self.entries_bytes[off + 1],
            },
            id: self.entries_bytes[off + 2],
            apic_id: self.entries_bytes[off + 3],
            flags: read_u32_at(self.entries_bytes.as_slice(), off + 4),
        })
    }
}

} // verus!
