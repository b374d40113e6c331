use kernel_core::apic::{APIC, APICTimer, IPIDest, IOAPIC, REG_OFFSET_EOI, REG_OFFSET_ICR0, REG_OFFSET_ICR1, REG_OFFSET_SIV};
use kernel_core::checksum::compute_rfc1071;
use kernel_core::clock::{Clocks, TimestampScale, CLOCK_MONOTONIC, CLOCK_REALTIME};
use kernel_core::cpu::{CpuList, LowMemory, Pic, StackAllocator, TrampolineBlob, CPU, CORE_STACK_SIZE, TRAMPOLINE_PTR};
use kernel_core::divider::FrequencyDivider;
use kernel_core::event::{CallbackResult, DispatchEnd, EntropyPool, InterruptManager, ENTRIES_COUNT};
use kernel_core::net::{build_ipv4_header, check_checksum, init, BuffList, SocketDesc, TransmitPipeline, AF_INET};
use kernel_core::pid::PIDManager;
use kernel_core::rational::Rational;
use kernel_core::version::Version;
use kernel_core::pit::{PITTimer, Timer, CHANNEL_0, PIT_COMMAND};
use kernel_core::elf::{ELF32SectionHeader, ELF32Sym, KernelImage};
use kernel_core::event::Regs;
use kernel_core::procfs::{KernelDir, ProcFSRoot, SelfNode};

#[test]
fn pid_first_alloc_is_two() {
    // PID 1 is pre-reserved for init, so the first allocation yields 2
    let mut mgr = PIDManager::new();
    let p = mgr.get_unique_pid().unwrap();
    assert_eq!(p, 2);
}

#[test]
fn pid_distinct_and_reusable() {
    let mut mgr = PIDManager::new();
    let a = mgr.get_unique_pid().unwrap();
    let b = mgr.get_unique_pid().unwrap();
    assert_ne!(a, b);
    mgr.release_pid(a);
    let c = mgr.get_unique_pid().unwrap();
    assert_eq!(c, a);
}

#[test]
fn idt_vector_bounds() {
    // the last vector is registerable; one past is not
    let mut mgr = InterruptManager::new();
    assert!(mgr.register_callback(ENTRIES_COUNT - 1, 7).is_some());
    assert!(mgr.register_callback(ENTRIES_COUNT, 7).is_none());
}

#[test]
fn callback_hook_register_unregister() {
    let mut mgr = InterruptManager::new();
    let hook = mgr.register_callback(32, 99).unwrap();
    assert_eq!(hook.get_id(), 32);
    mgr.unregister(hook);
    // a second registration and removal behaves the same
    let hook2 = mgr.register_callback(32, 99).unwrap();
    mgr.unregister(hook2);
}

#[test]
fn callback_ordering_idle_stops_chain() {
    // register three callbacks on vector 0x20; the second one idles, so
    // the third never runs and an end-of-interrupt goes out for IRQ 0
    let mut mgr = InterruptManager::new();
    let _a = mgr.register_callback(0x20, 1).unwrap();
    let _b = mgr.register_callback(0x20, 2).unwrap();
    let _c = mgr.register_callback(0x20, 3).unwrap();
    let mut pool = EntropyPool::new();
    let regs = Regs {
        eax: 0, ebx: 0, ecx: 0, edx: 0, esi: 0, edi: 0, ebp: 0, esp: 0, eip: 0, eflags: 0,
    };
    let results = vec![CallbackResult::Continue, CallbackResult::Idle, CallbackResult::Continue];
    let outcome = mgr.event_handler(0x20, 0, 0, &regs, &mut pool, false, &results);
    assert_eq!(outcome.invoked, 2);
    assert_eq!(outcome.eoi, Some(0));
    assert!(matches!(outcome.end, DispatchEnd::Idled));
}

#[test]
fn exception_names() {
    assert_eq!(kernel_core::event::get_error_message(0), "Divide-by-zero Error");
    assert_eq!(kernel_core::event::get_error_message(14), "Page Fault");
    assert_eq!(kernel_core::event::get_error_message(99), "Unknown");
}

#[test]
fn ipv4_checksum_verifies() {
    // a built header's checksum verifies: summing the header with its
    // checksum field yields zero
    let hdr = build_ipv4_header(6, &[192, 168, 0, 1], 40);
    assert_eq!(hdr.len(), 20);
    assert!(check_checksum(hdr.as_slice()));
    assert_eq!(compute_rfc1071(hdr.as_slice()), 0);
}

#[test]
fn checksum_known_value() {
    // RFC 1071 example-style check: all zeros sum to zero, so the
    // checksum is the all-ones word
    let zeros = [0u8; 8];
    assert_eq!(compute_rfc1071(&zeros), 0xffff);
}

#[test]
fn transmit_pipeline_builds_packets() {
    let registry = init();
    let desc = SocketDesc { domain: AF_INET, type_: 1, protocol: 1 };
    let mut sockaddr = vec![2u8, 0, 0, 80];
    sockaddr.extend_from_slice(&[10, 0, 0, 1]);
    sockaddr.resize(16, 0);
    let pipeline = TransmitPipeline::new(&desc, sockaddr.as_slice(), &registry).unwrap();
    let payload = vec![1u8, 2, 3, 4];
    let buff = BuffList::from_bytes(payload);
    let mut out: Vec<Vec<u8>> = Vec::new();
    pipeline.transmit(buff, &mut out).unwrap();
    assert_eq!(out.len(), 1);
    // the dummy transport passes through; the network layer prepended an
    // IPv4 header whose checksum verifies
    assert_eq!(out[0].len(), 24);
    assert!(check_checksum(&out[0][0..20]));
    assert_eq!(&out[0][20..], &[1, 2, 3, 4]);
    assert_eq!(out[0][9], 1); // protocol
    assert_eq!(&out[0][16..20], &[10, 0, 0, 1]); // destination
}

#[test]
fn unknown_domain_is_invalid() {
    let registry = init();
    let desc = SocketDesc { domain: 999, type_: 1, protocol: 1 };
    let sockaddr = [0u8; 16];
    assert!(TransmitPipeline::new(&desc, &sockaddr, &registry).is_err());
}

#[test]
fn apic_enable_and_eoi() {
    let mut apic = APIC::new(0);
    assert_eq!(apic.get_id(), 0);
    assert!(!apic.is_enabled());
    apic.enable(1); // not the owning core: nothing happens
    assert!(!apic.is_enabled());
    apic.enable(0);
    assert!(apic.is_enabled());
    let log = apic.get_write_log();
    assert_eq!(log.len(), 1);
    assert_eq!(log[0].0, REG_OFFSET_SIV);
    assert_eq!(log[0].1 & 0x100, 0x100);
    apic.end_of_interrupt(3);
    assert_eq!(apic.get_write_log().last().unwrap().0, REG_OFFSET_EOI);
}

#[test]
fn apic_send_ipi_writes_command() {
    let mut apic = APIC::new(0);
    apic.send_ipi(0x40, IPIDest::Number(3));
    let log = apic.get_write_log();
    assert_eq!(log.len(), 2);
    assert_eq!(log[0].0, REG_OFFSET_ICR1);
    assert_eq!(log[0].1 >> 24, 3);
    assert_eq!(log[1].0, REG_OFFSET_ICR0);
    assert_eq!(log[1].1 & 0xff, 0x40);
    assert_eq!((log[1].1 >> 18) & 0b11, 0);
}

#[test]
fn apic_timer_programs_divider_and_count() {
    let mut apic = APIC::new(0);
    let mut timer = APICTimer::new();
    let max = Rational::from_integer(1000000);
    let freq = Rational::from_integer(1000);
    timer.set_curr_frequency(&mut apic, freq, max);
    let log = apic.get_write_log();
    // divider, initial count, timer setup
    assert_eq!(log.len(), 3);
    assert_eq!(log[0].0, kernel_core::apic::REG_OFFSET_DCR);
    assert_eq!(log[1].0, kernel_core::apic::REG_OFFSET_ICR);
    assert_eq!(log[2].0, kernel_core::apic::REG_OFFSET_LVT_TIMER);
    assert_eq!(log[2].1 & 0x20000, 0x20000);
}

#[test]
fn io_apic_redirection() {
    let mut io = IOAPIC::new();
    io.set_entry(2, 0x21);
    assert_eq!(io.reg_read(0x10 + 4), 0x21);
}

#[test]
fn multicore_bring_up() {
    // a system with four APICs, the bootstrap processor among them: after
    // bring-up, three stacks exist, the trampoline sits at its page with
    // the two published words, and three INIT/SIPI sequences hit the
    // bootstrap processor's command register
    let mut cpus = CpuList::new();
    for id in 0..4u8 {
        cpus.add_core(CPU::new(id as u32, APIC::new(id), 1));
    }
    let blob = TrampolineBlob { bytes: vec![0xfa, 0x31, 0xc0, 0, 0, 0, 0, 0, 0, 0, 0, 0x90], stacks_offset: 4, vmem_offset: 8 };
    let mut low = LowMemory::new(TRAMPOLINE_PTR + 64);
    let mut alloc = StackAllocator::new(0x100000);
    let mut pic = Pic::new();
    let stacks = cpus.init_multicore(0, &blob, &mut low, &mut alloc, 0x200000, 0x300000, &mut pic);
    assert_eq!(stacks.len(), 3);
    for (i, top) in stacks.iter().enumerate() {
        assert_eq!(*top as usize, 0x100000 + (i + 1) * CORE_STACK_SIZE);
    }
    // the copied image matches, the published words aside
    for k in 0..blob.bytes.len() {
        if !(4..8).contains(&k) && !(8..12).contains(&k) {
            assert_eq!(low.read_byte(TRAMPOLINE_PTR + k), blob.bytes[k]);
        }
    }
    assert_eq!(
        [low.read_byte(TRAMPOLINE_PTR + 4), low.read_byte(TRAMPOLINE_PTR + 5), low.read_byte(TRAMPOLINE_PTR + 6), low.read_byte(TRAMPOLINE_PTR + 7)],
        0x200000u32.to_le_bytes()
    );
    assert_eq!(
        [low.read_byte(TRAMPOLINE_PTR + 8), low.read_byte(TRAMPOLINE_PTR + 9), low.read_byte(TRAMPOLINE_PTR + 10), low.read_byte(TRAMPOLINE_PTR + 11)],
        0x300000u32.to_le_bytes()
    );
    // the bootstrap processor drove three sequences of eleven writes each
    let bsp_log = cpus.get(0).get_apic().get_write_log();
    assert_eq!(bsp_log.len(), 1 + 3 * 11);
    for t in 0..3 {
        let seq = &bsp_log[1 + t * 11..1 + (t + 1) * 11];
        assert_eq!(seq[2].1 & 0xffff, 0xc500);
        assert_eq!(seq[4].1 & 0xffff, 0x8500);
        assert_eq!(seq[7].1 & 0x7ff, 0x608);
        assert_eq!(seq[10].1 & 0x7ff, 0x608);
        let target = (t + 1) as u32;
        assert_eq!(seq[1].1 >> 24, target);
    }
    assert!(stacks.iter().all(|s| *s > 0));
}

#[test]
fn frequency_divider_fires() {
    let mut d = FrequencyDivider::new(3);
    assert_eq!(d.get_count(), 3);
    assert!(!d.input());
    assert!(!d.input());
    assert!(d.input());
    assert!(!d.input());
}

#[test]
fn clocks_advance_together() {
    let mut c = Clocks::new();
    c.update(3_000_000_000);
    assert_eq!(c.current_time(CLOCK_REALTIME, TimestampScale::Second).unwrap(), 3);
    assert_eq!(c.current_time(CLOCK_MONOTONIC, TimestampScale::Millisecond).unwrap(), 3000);
    assert!(c.current_time(99, TimestampScale::Second).is_err());
}

#[test]
fn version_order() {
    let a = Version { major: 1, minor: 2, patch: 3 };
    let b = Version { major: 1, minor: 3, patch: 0 };
    assert!(a.cmp(&b) < 0);
    assert!(b.cmp(&a) > 0);
    assert_eq!(a.cmp(&a), 0);
}

#[test]
fn rational_arithmetic() {
    let r = Rational::from_integers(7, 2);
    assert_eq!(r.get_numerator(), 7);
    assert_eq!(r.get_denominator(), 2);
    assert_eq!(r.as_integer(), 3);
    let q = Rational::from_integer(14);
    let d = q.div(&r);
    assert_eq!(d.get_numerator(), 28);
    assert_eq!(d.get_denominator(), 7);
}

#[test]
fn pit_channel_claiming() {
    let mut used = vec![false, false, false];
    let mut t = PITTimer::new(0, &mut used).unwrap();
    // the channel is busy now; channel one never drives interrupts
    assert!(PITTimer::new(0, &mut used).is_none());
    assert!(PITTimer::new(1, &mut used).is_none());
    assert_eq!(t.get_write_log()[0].0, PIT_COMMAND);
    t.set_curr_frequency(kernel_core::rational::Rational::from_integer(100));
    let log = t.get_write_log();
    assert_eq!(log.len(), 3);
    assert_eq!(log[1].0, CHANNEL_0);
    // 1193182 / 100 = 11931, clipped into two bytes
    let count = (log[1].1 as u32) + (log[2].1 as u32) * 256;
    assert_eq!(count, 11931);
    assert_eq!(t.get_max_frequency().get_numerator(), 1193182);
}

#[test]
fn elf_lookups() {
    let text = ELF32SectionHeader { sh_name: 0, sh_type: 1, sh_addr: 0x1000, sh_size: 64, sh_entsize: 0 };
    let sym = ELF32Sym { st_name: 0, st_value: 0x1000, st_size: 16 };
    let image = KernelImage {
        sections: vec![(b".text".to_vec(), text)],
        symbols: vec![(b"start".to_vec(), sym)],
    };
    assert_eq!(image.sections().len(), 1);
    assert!(image.get_section_by_name(b".text").is_some());
    assert!(image.get_section_by_name(b".data").is_none());
    assert_eq!(image.get_symbol_by_name(b"start").unwrap().st_value, 0x1000);
    assert_eq!(image.get_function_name(0x1008).unwrap().as_slice(), b"start");
    assert!(image.get_function_name(0x2000).is_none());
}

#[test]
fn entropy_pool_gathers_event_bytes() {
    let mgr = InterruptManager::new();
    let mut pool = EntropyPool::new();
    let regs = Regs { eax: 1, ebx: 0, ecx: 0, edx: 0, esi: 0, edi: 0, ebp: 0, esp: 0, eip: 0, eflags: 0 };
    let results: Vec<CallbackResult> = Vec::new();
    let outcome = mgr.event_handler(3, 0xdead, 0, &regs, &mut pool, true, &results);
    assert_eq!(outcome.invoked, 0);
    assert!(outcome.eoi.is_none());
}

#[test]
fn procfs_nodes() {
    let root = ProcFSRoot::new(5);
    assert_eq!(root.get_entries().len(), 1);
    assert_eq!(root.get_entries()[0].0.as_slice(), b"mount");
    assert_eq!(root.get_entries()[0].1, 5);
    assert_eq!(root.get_mode(), 0o555);
    let link = SelfNode {};
    assert_eq!(link.get_content(1234).as_slice(), b"1234");
    assert_eq!(link.get_mode(), 0o777);
    let kdir = KernelDir::new(9);
    assert_eq!(kdir.get_entries()[0].0.as_slice(), b"osrelease");
}

#[test]
fn eoi_goes_to_enabled_apic() {
    // the current core's enabled APIC takes the acknowledgement; the
    // legacy controller sees nothing
    let mut cpus = CpuList::new();
    let mut apic = APIC::new(0);
    apic.enable(0);
    let base = apic.get_write_log().len();
    cpus.add_core(CPU::new(0, apic, 1));
    let mut pic = Pic::new();
    cpus.end_of_interrupt(0, 7, &mut pic);
    let log = cpus.get(0).get_apic().get_write_log();
    assert_eq!(log.len(), base + 1);
    assert_eq!(log[log.len() - 1], (REG_OFFSET_EOI, 0));
    assert!(pic.get_eoi_log().is_empty());
}

#[test]
fn eoi_falls_back_to_pic() {
    // a core whose APIC is off, or an unknown id, leaves the
    // acknowledgement to the legacy controller
    let mut cpus = CpuList::new();
    cpus.add_core(CPU::new(0, APIC::new(0), 1));
    let mut pic = Pic::new();
    cpus.end_of_interrupt(0, 9, &mut pic);
    assert_eq!(pic.get_eoi_log().as_slice(), &[9]);
    cpus.end_of_interrupt(5, 3, &mut pic);
    assert_eq!(pic.get_eoi_log().as_slice(), &[9, 3]);
}

#[test]
fn multicore_bring_up_from_later_core() {
    // when the bootstrap processor is not the first listed core, it still
    // drives the bring-up, and every other core is booted, the first one
    // included
    let mut cpus = CpuList::new();
    for id in 0..4u8 {
        cpus.add_core(CPU::new(id as u32, APIC::new(id), 1));
    }
    let blob = TrampolineBlob { bytes: vec![0xfa, 0x31, 0xc0, 0, 0, 0, 0, 0, 0, 0, 0, 0x90], stacks_offset: 4, vmem_offset: 8 };
    let mut low = LowMemory::new(TRAMPOLINE_PTR + 64);
    let mut alloc = StackAllocator::new(0x100000);
    let mut pic = Pic::new();
    let stacks = cpus.init_multicore(2, &blob, &mut low, &mut alloc, 0x200000, 0x300000, &mut pic);
    assert_eq!(stacks.len(), 3);
    let bsp_log = cpus.get(2).get_apic().get_write_log();
    assert_eq!(bsp_log.len(), 1 + 3 * 11);
    let targets = [0u32, 1, 3];
    for (t, target) in targets.iter().enumerate() {
        let seq = &bsp_log[1 + t * 11..1 + (t + 1) * 11];
        assert_eq!(seq[1].1 >> 24, *target);
        assert_eq!(seq[2].1 & 0xffff, 0xc500);
        assert_eq!(seq[7].1 & 0x7ff, 0x608);
    }
}

#[test]
fn pipeline_errno_paths() {
    // each failing stage reports its own error: an oversized protocol is
    // the network layer's, a zero protocol without a default has none to
    // choose, and an unknown transport protocol finds no constructor
    let registry = init();
    let sockaddr = [0u8; 16];
    let desc = SocketDesc { domain: AF_INET, type_: 1, protocol: 300 };
    assert!(matches!(TransmitPipeline::new(&desc, &sockaddr, &registry), Err(kernel_core::errno::EINVAL)));
    let desc = SocketDesc { domain: AF_INET, type_: 1, protocol: 0 };
    assert!(matches!(TransmitPipeline::new(&desc, &sockaddr, &registry), Err(kernel_core::errno::EINVAL)));
    let desc = SocketDesc { domain: AF_INET, type_: 1, protocol: 77 };
    assert!(matches!(TransmitPipeline::new(&desc, &sockaddr, &registry), Err(kernel_core::errno::EINVAL)));
    // a short socket address fails the network layer
    let desc = SocketDesc { domain: AF_INET, type_: 1, protocol: 1 };
    assert!(matches!(TransmitPipeline::new(&desc, &sockaddr[0..8], &registry), Err(kernel_core::errno::EINVAL)));
}
