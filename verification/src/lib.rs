//! Core of a Unix-like kernel for 32-bit x86 machines: interrupt dispatch,
//! APIC control and multicore bring-up, virtual memory, the VFS and an ext2
//! engine, block storage, PCI enumeration, a socket transmit pipeline and
//! process identity.
//!
//! Hardware is represented by explicit state: each device object owns its
//! register file and a log of the writes performed on it, so that every
//! register sequence the kernel would emit is stated in contracts and checked.

#![verifier::loop_isolation(false)]

pub mod elf;
pub mod errno;
pub mod limits;
pub mod apic;
pub mod checksum;
pub mod cpu;
pub mod device;
pub mod storage;
pub mod syscall;
pub mod clock;
pub mod event;
pub mod ext2;
pub mod divider;
pub mod mem_space;
pub mod madt;
pub mod net;
pub mod pci;
pub mod path;
pub mod pid;
pub mod pit;
pub mod procfs;
pub mod rational;
pub mod version;
pub mod vfs;

use vstd::prelude::*;

verus! {

/// The size of a memory page in bytes.
pub const PAGE_SIZE: usize = 4096;

} // verus!
