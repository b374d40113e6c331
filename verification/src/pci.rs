//! PCI bus enumeration.
//!
//! The PCI configuration space is reached through an address and a data
//! port; the model holds, per present function, the sixteen configuration
//! words and the address masks of the base address registers, whose
//! writable bits encode each region's size.

use vstd::prelude::*;

verus! {

/// The configuration state of one present PCI function.
pub struct PciFunction {
    /// The bus number.
    pub bus: u8,
    /// The device number on the bus.
    pub device: u8,
    /// The function number on the device.
    pub function: u8,
    /// The sixteen configuration words.
    pub regs: Vec<u32>,
    /// For each of the six base address registers, the mask of its
    /// writable address bits; reading back an all-ones write yields the
    /// mask with the register's flag bits.
    pub bar_masks: Vec<u32>,
}

impl PciFunction {
    /// Whether the function carries its full register file.
    pub open spec fn wf(&self) -> bool {
        &&& self.regs@.len() == 16
        &&& self.bar_masks@.len() == 6
    }
}

/// The modeled configuration space: the present functions.
pub struct PciConfigSpace {
    /// The present functions.
    pub funcs: Vec<PciFunction>,
}

/// The index of the function at the given address, if present.
pub open spec fn spec_func_at(funcs: Seq<PciFunction>, bus: u8, device: u8, function: u8) -> Option<
    int,
>
    decreases funcs.len(),
{
    if funcs.len() == 0 {
        Option::None
    } else if funcs[0].bus == bus && funcs[0].device == device && funcs[0].function == function {
        Option::Some(0)
    } else {
        match spec_func_at(funcs.skip(1), bus, device, function) {
            Option::Some(i) => Option::Some(i + 1),
            Option::None => Option::None,
        }
    }
}

impl PciConfigSpace {
    /// Whether every function carries its full register file.
    pub open spec fn wf(&self) -> bool {
        forall|i: int| 0 <= i < self.funcs@.len() ==> (#[trigger] self.funcs@[i]).wf()
    }

    /// Reads the 32-bit configuration word `reg_off` of the given function
    /// through the configuration ports.
    ///
    /// An absent function reads as all ones, which is how the bus signals
    /// that nothing answered.
    pub fn read_long(&self, bus: u8, device: u8, func: u8, reg_off: u8) -> (r: u32)
        requires
            self.wf(),
            reg_off < 16,
        ensures
            ({
                match spec_func_at(self.funcs@, bus, device, func) {
                    Option::Some(i) => r == self.funcs@[i].regs@[reg_off as int],
                    Option::None => r == 0xffffffffu32,
                }
            }),
    {
        let n = self.funcs.len();
        let mut i: usize = 0;
        proof {
            assert(self.funcs@.skip(0) =~= self.funcs@);
        }
        while i < n
            invariant
                i <= n,
                n == self.funcs@.len(),
                forall|j: int|
                    0 <= j < i ==> !((#[trigger] self.funcs@[j]).bus == bus
                        && self.funcs@[j].device == device && self.funcs@[j].function == func),
            decreases n - i,
        {
            if self.funcs[i].bus == bus && self.funcs[i].device == device
                && self.funcs[i].function == func {
                proof {
                    lemma_func_at_found(self.funcs@, bus, device, func, i as int);
                }
                return self.funcs[i].regs[reg_off as usize];
            }
            i += 1;
        }
        proof {
            lemma_func_at_none(self.funcs@, bus, device, func);
        }
        0xffffffff
    }
}

/// The configuration word a function answers with, all ones when nothing
/// is at the address.
pub open spec fn spec_cfg_word(
    space: PciConfigSpace,
    bus: u8,
    device: u8,
    function: u8,
    reg: int,
) -> u32 {
    match spec_func_at(space.funcs@, bus, device, function) {
        Option::Some(i) => space.funcs@[i].regs@[reg],
        Option::None => 0xffffffffu32,
    }
}

/// Whether a function answers the scan: its vendor word is not all ones.
pub open spec fn spec_answers(space: PciConfigSpace, bus: u8, device: u8, function: u8) -> bool {
    spec_cfg_word(space, bus, device, function, 0) & 0xffff != 0xffff
}

/// Whether a device's function zero declares further functions.
pub open spec fn spec_multi_function(space: PciConfigSpace, bus: u8, device: u8) -> bool {
    ((spec_cfg_word(space, bus, device, 0, 3) >> 16) & 0xff) as u8 & 0x80 != 0
}

/// Whether the scan owes a listing for the address: the device's first
/// function answers, the function itself answers, and any function past
/// zero sits on a device declared multi-function.
pub open spec fn spec_scan_hit(space: PciConfigSpace, bus: u8, device: u8, function: u8) -> bool {
    &&& device < 32
    &&& function < 8
    &&& spec_answers(space, bus, device, 0)
    &&& spec_answers(space, bus, device, function)
    &&& (function == 0 || spec_multi_function(space, bus, device))
}

/// Whether the list holds a device at the address.
pub open spec fn spec_dev_listed(devs: Seq<PCIDevice>, bus: u8, device: u8, function: u8) -> bool {
    exists|k: int|
        0 <= k < devs.len() && (#[trigger] devs[k]).spec_bus() == bus && devs[k].device == device
            && devs[k].function == function
}

/// A listing survives growing the list.
proof fn lemma_listed_push(devs: Seq<PCIDevice>, dev: PCIDevice, b: u8, d: u8, f: u8)
    requires
        spec_dev_listed(devs, b, d, f),
    ensures
        spec_dev_listed(devs.push(dev), b, d, f),
{
    let k = choose|k: int|
        0 <= k < devs.len() && (#[trigger] devs[k]).spec_bus() == b && devs[k].device == d
            && devs[k].function == f;
    assert(devs.push(dev)[k] == devs[k]);
}

/// When the first matching function is at `i`, the lookup returns `i`.
proof fn lemma_func_at_found(funcs: Seq<PciFunction>, bus: u8, device: u8, function: u8, i: int)
    requires
        0 <= i < funcs.len(),
        funcs[i].bus == bus && funcs[i].device == device && funcs[i].function == function,
        forall|j: int|
            0 <= j < i ==> !((#[trigger] funcs[j]).bus == bus && funcs[j].device == device
                && funcs[j].function == function),
    ensures
        spec_func_at(funcs, bus, device, function) == Option::Some(i),
    decreases i,
{
    if i > 0 {
        lemma_func_at_found(funcs.skip(1), bus, device, function, i - 1);
        assert forall|j: int|
            0 <= j < i - 1 implies !((#[trigger] funcs.skip(1)[j]).bus == bus && funcs.skip(
            1,
        )[j].device == device && funcs.skip(1)[j].function == function) by {
            assert(funcs.skip(1)[j] == funcs[j + 1]);
        }
        assert(funcs.skip(1)[i - 1] == funcs[i]);
    }
}

/// When no function matches, the lookup returns nothing.
proof fn lemma_func_at_none(funcs: Seq<PciFunction>, bus: u8, device: u8, function: u8)
    requires
        forall|j: int|
            0 <= j < funcs.len() ==> !((#[trigger] funcs[j]).bus == bus && funcs[j].device
                == device && funcs[j].function == function),
    ensures
        spec_func_at(funcs, bus, device, function) is None,
    decreases funcs.len(),
{
    if funcs.len() > 0 {
        assert forall|j: int|
            0 <= j < funcs.skip(1).len() implies !((#[trigger] funcs.skip(1)[j]).bus == bus
            && funcs.skip(1)[j].device == device && funcs.skip(1)[j].function == function) by {
            assert(funcs.skip(1)[j] == funcs[j + 1]);
        }
        lemma_func_at_none(funcs.skip(1), bus, device, function);
    }
}

/// A device attached to the PCI bus, as decoded from its configuration
/// words.
pub struct PCIDevice {
    /// The PCI bus of the device.
    pub bus: u8,
    /// The device number on the bus.
    pub device: u8,
    /// The function number on the device.
    pub function: u8,
    /// The device id.
    pub device_id: u16,
    /// The vendor id.
    pub vendor_id: u16,
    /// The command register.
    pub command: u16,
    /// The status register.
    pub status: u16,
    /// The class code.
    pub class: u8,
    /// The subclass code.
    pub subclass: u8,
    /// The programming interface byte.
    pub prog_if: u8,
    /// The revision id.
    pub revision_id: u8,
    /// The built-in self test byte.
    pub bist: u8,
    /// The header type.
    pub header_type: u8,
    /// The latency timer.
    pub latency_timer: u8,
    /// The cache line size.
    pub cache_line_size: u8,
}

impl PCIDevice {
    /// The decoded header type byte, multi-function flag included.
    pub open spec fn spec_header_type(&self) -> u8 {
        self.header_type
    }

    /// The bus number.
    pub open spec fn spec_bus(&self) -> u8 {
        self.bus
    }

    /// Decodes a device from the first four configuration words.
    pub fn new(bus: u8, device: u8, function: u8, data: &[u32]) -> (r: Self)
        requires
            data@.len() >= 4,
        ensures
            r.spec_bus() == bus,
            r.device == device,
            r.function == function,
            r.vendor_id == (data@[0] & 0xffff) as u16,
            r.device_id == ((data@[0] >> 16) & 0xffff) as u16,
            r.command == (data@[1] & 0xffff) as u16,
            r.status == ((data@[1] >> 16) & 0xffff) as u16,
            r.class == ((data@[2] >> 24) & 0xff) as u8,
            r.subclass == ((data@[2] >> 16) & 0xff) as u8,
            r.prog_if == ((data@[2] >> 8) & 0xff) as u8,
            r.revision_id == (data@[2] & 0xff) as u8,
            r.bist == ((data@[3] >> 24) & 0xff) as u8,
            r.spec_header_type() == ((data@[3] >> 16) & 0xff) as u8,
            r.latency_timer == ((data@[3] >> 8) & 0xff) as u8,
            r.cache_line_size == (data@[3] & 0xff) as u8,
    {
        PCIDevice {
            bus,
            device,
            function,
            vendor_id: (data[0] & 0xffff) as u16,
            device_id: ((data[0] >> 16) & 0xffff) as u16,
            command: (data[1] & 0xffff) as u16,
            status: ((data[1] >> 16) & 0xffff) as u16,
            class: ((data[2] >> 24) & 0xff) as u8,
            subclass: ((data[2] >> 16) & 0xff) as u8,
            prog_if: ((data[2] >> 8) & 0xff) as u8,
            revision_id: (data[2] & 0xff) as u8,
            bist: ((data[3] >> 24) & 0xff) as u8,
            header_type: ((data[3] >> 16) & 0xff) as u8,
            latency_timer: ((data[3] >> 8) & 0xff) as u8,
            cache_line_size: (data[3] & 0xff) as u8,
        }
    }

    /// Returns the PCI bus number.
    pub fn get_bus(&self) -> (r: u8)
        ensures
            r == self.spec_bus(),
    {
        self.bus
    }

    /// Returns the device number.
    pub fn get_device(&self) -> (r: u8)
        ensures
            r == self.device,
    {
        self.device
    }

    /// Returns the function number.
    pub fn get_function(&self) -> (r: u8)
        ensures
            r == self.function,
    {
        self.function
    }

    /// Returns the command register's stored value.
    pub fn get_command_reg(&self) -> (r: Option<u16>)
        ensures
            r == Option::Some(self.command),
    {
        Some(self.command)
    }

    /// Returns the header type, with the multi-function flag cleared.
    pub fn get_header_type(&self) -> (r: u8)
        ensures
            r == self.spec_header_type() & 0x7f,
    {
        self.header_type & 0x7f
    }

    /// Returns the configuration register offset of the `n`th base address
    /// register: six exist under header type zero, two under type one,
    /// none otherwise.
    pub fn get_bar_reg_off(&self, n: u8) -> (r: Option<u8>)
        ensures
            ({
                let limit: int = if self.spec_header_type() & 0x7f == 0 {
                    6
                } else if self.spec_header_type() & 0x7f == 1 {
                    2
                } else {
                    0
                };
                match r {
                    Some(off) => n < limit && off == 4 + n,
                    None => n >= limit,
                }
            }),
    {
        let ht = self.get_header_type();
        let limit: u8 = if ht == 0 {
            6
        } else if ht == 1 {
            2
        } else {
            0
        };
        if n < limit {
            Some(4 + n)
        } else {
            None
        }
    }

    /// Returns the size of the address space behind the `n`th base address
    /// register: the two's complement of the writable-bit mask read back
    /// after an all-ones write, clipped to sixteen bits for a port region.
    pub fn get_bar_size(&self, n: u8, io: bool, space: &PciConfigSpace) -> (r: Option<u32>)
        requires
            space.wf(),
        ensures
            ({
                let limit: int = if self.spec_header_type() & 0x7f == 0 {
                    6
                } else if self.spec_header_type() & 0x7f == 1 {
                    2
                } else {
                    0
                };
                match r {
                    Some(size) => n < limit && (
                    match spec_func_at(space.funcs@, self.spec_bus(), self.device, self.function) {
                        Option::Some(i) => {
                            let mask = space.funcs@[i].bar_masks@[n as int];
                            if io {
                                size == (!mask).wrapping_add(1) & 0xffff
                            } else {
                                size == (!mask).wrapping_add(1)
                            }
                        },
                        Option::None => size == if io {
                            (!0xffffffffu32).wrapping_add(1) & 0xffff
                        } else {
                            (!0xffffffffu32).wrapping_add(1)
                        },
                    }),
                    None => n >= limit,
                }
            }),
    {
        let _reg_off = match self.get_bar_reg_off(n) {
            Some(o) => o,
            None => {
                return None;
            }
        };
        // probing: writing all ones into the register and reading it back
        // yields the writable-bit mask; absent functions read as all ones
        let mask = self.read_bar_mask(n, space);
        let mut size = (!mask).wrapping_add(1);
        if io {
            size = size & 0xffff;
        }
        Some(size)
    }

    /// Reads the writable-bit mask of the `n`th base address register, as
    /// the probe write would.
    fn read_bar_mask(&self, n: u8, space: &PciConfigSpace) -> (r: u32)
        requires
            space.wf(),
            n < 6,
        ensures
            ({
                match spec_func_at(space.funcs@, self.spec_bus(), self.device, self.function) {
                    Option::Some(i) => r == space.funcs@[i].bar_masks@[n as int],
                    Option::None => r == 0xffffffffu32,
                }
            }),
    {
        let nf = space.funcs.len();
        let mut i: usize = 0;
        while i < nf
            invariant
                i <= nf,
                nf == space.funcs@.len(),
                forall|j: int|
                    0 <= j < i ==> !((#[trigger] space.funcs@[j]).bus == self.spec_bus()
                        && space.funcs@[j].device == self.device && space.funcs@[j].function
                        == self.function),
            decreases nf - i,
        {
            if space.funcs[i].bus == self.bus && space.funcs[i].device == self.device
                && space.funcs[i].function == self.function {
                proof {
                    lemma_func_at_found(
                        space.funcs@,
                        self.spec_bus(),
                        self.device,
                        self.function,
                        i as int,
                    );
                }
                return space.funcs[i].bar_masks[n as usize];
            }
            i += 1;
        }
        proof {
            lemma_func_at_none(space.funcs@, self.spec_bus(), self.device, self.function);
        }
        0xffffffff
    }

    /// Returns the interrupt pin the device uses, read from its last
    /// configuration word; zero means none.
    pub fn get_interrupt_pin(&self, space: &PciConfigSpace) -> (r: Option<u8>)
        requires
            space.wf(),
        ensures
            ({
                let pin = match spec_func_at(
                    space.funcs@,
                    self.spec_bus(),
                    self.device,
                    self.function,
                ) {
                    Option::Some(i) => ((space.funcs@[i].regs@[15] >> 8) & 0xff) as u8,
                    Option::None => ((0xffffffffu32 >> 8) & 0xff) as u8,
                };
                match r {
                    Some(p) => p == pin && pin != 0,
                    None => pin == 0,
                }
            }),
    {
        let word = space.read_long(self.bus, self.device, self.function, 15);
        proof {
            assert((0xffffffffu32 >> 8) & 0xff == 0xff) by (bit_vector);
        }
        let n = ((word >> 8) & 0xff) as u8;
        if n != 0 {
            Some(n)
        } else {
            None
        }
    }
}

/// The manager of the devices found on the PCI bus.
pub struct PCIManager {
    /// The detected devices.
    devices: Vec<PCIDevice>,
}

impl PCIManager {
    /// The detected devices.
    pub closed spec fn view(&self) -> Seq<PCIDevice> {
        self.devices@
    }

    /// Creates a new instance with no device detected yet.
    pub fn new() -> (r: Self)
        ensures
            r@.len() == 0,
    {
        PCIManager { devices: Vec::new() }
    }

    /// Scans the configuration space and registers every present function:
    /// each present device's functions are decoded, the single function
    /// for single-function devices, all eight otherwise. A second scan
    /// does nothing.
    pub fn scan(&mut self, space: &PciConfigSpace)
        requires
            space.wf(),
        ensures
            old(self)@.len() > 0 ==> final(self)@ == old(self)@,
            old(self)@.len() == 0 ==> forall|k: int|
                0 <= k < final(self)@.len() ==> spec_func_at(
                    space.funcs@,
                    (#[trigger] final(self)@[k]).spec_bus(),
                    final(self)@[k].device,
                    final(self)@[k].function,
                ) is Some,
            old(self)@.len() == 0 ==> forall|b: u8, d: u8, f: u8|
                #[trigger] spec_scan_hit(*space, b, d, f) ==> spec_dev_listed(
                    final(self)@,
                    b,
                    d,
                    f,
                ),
    {
        if self.devices.len() > 0 {
            return;
        }
        let mut bus: u16 = 0;
        while bus <= 255
            invariant
                bus <= 256,
                old(self)@.len() == 0,
                space.wf(),
                forall|k: int|
                    0 <= k < self@.len() ==> spec_func_at(
                        space.funcs@,
                        (#[trigger] self@[k]).spec_bus(),
                        self@[k].device,
                        self@[k].function,
                    ) is Some,
                forall|b: u8, d: u8, f: u8|
                    (b as u16) < bus && #[trigger] spec_scan_hit(*space, b, d, f)
                        ==> spec_dev_listed(self@, b, d, f),
            decreases 256 - bus,
        {
            let mut device: u8 = 0;
            while device < 32
                invariant
                    device <= 32,
                    bus <= 255,
                    old(self)@.len() == 0,
                    space.wf(),
                    forall|k: int|
                        0 <= k < self@.len() ==> spec_func_at(
                            space.funcs@,
                            (#[trigger] self@[k]).spec_bus(),
                            self@[k].device,
                            self@[k].function,
                        ) is Some,
                    forall|b: u8, d: u8, f: u8|
                        (b as u16) < bus && #[trigger] spec_scan_hit(*space, b, d, f)
                            ==> spec_dev_listed(self@, b, d, f),
                    forall|d: u8, f: u8|
                        d < device && #[trigger] spec_scan_hit(*space, bus as u8, d, f)
                            ==> spec_dev_listed(self@, bus as u8, d, f),
                decreases 32 - device,
            {
                let vendor = space.read_long(bus as u8, device, 0, 0) & 0xffff;
                if vendor != 0xffff {
                    let header_word = space.read_long(bus as u8, device, 0, 3);
                    let header_type = ((header_word >> 16) & 0xff) as u8;
                    let max_functions: u8 = if header_type & 0x80 != 0 {
                        8
                    } else {
                        1
                    };
                    proof {
                        if spec_func_at(space.funcs@, bus as u8, device, 0) is None {
                            assert(0xffffffffu32 & 0xffff == 0xffff) by (bit_vector);
                            assert(false);
                        }
                        assert(spec_answers(*space, bus as u8, device, 0));
                        assert((max_functions == 8) == spec_multi_function(
                            *space,
                            bus as u8,
                            device,
                        ));
                    }
                    let mut func: u8 = 0;
                    while func < max_functions
                        invariant
                            func <= max_functions,
                            max_functions == 1 || max_functions == 8,
                            (max_functions == 8) == spec_multi_function(*space, bus as u8, device),
                            spec_answers(*space, bus as u8, device, 0),
                            bus <= 255,
                            device < 32,
                            old(self)@.len() == 0,
                            space.wf(),
                            forall|k: int|
                                0 <= k < self@.len() ==> spec_func_at(
                                    space.funcs@,
                                    (#[trigger] self@[k]).spec_bus(),
                                    self@[k].device,
                                    self@[k].function,
                                ) is Some,
                            forall|b: u8, d: u8, f: u8|
                                (b as u16) < bus && #[trigger] spec_scan_hit(*space, b, d, f)
                                    ==> spec_dev_listed(self@, b, d, f),
                            forall|d: u8, f: u8|
                                d < device && #[trigger] spec_scan_hit(*space, bus as u8, d, f)
                                    ==> spec_dev_listed(self@, bus as u8, d, f),
                            forall|f: u8|
                                f < func && #[trigger] spec_scan_hit(*space, bus as u8, device, f)
                                    ==> spec_dev_listed(self@, bus as u8, device, f),
                        decreases max_functions - func,
                    {
                        let fraw = space.read_long(bus as u8, device, func, 0);
                        let fvendor = fraw & 0xffff;
                        if fvendor != 0xffff {
                            proof {
                                if spec_func_at(space.funcs@, bus as u8, device, func) is None {
                                    assert(fraw == 0xffffffffu32);
                                    assert(0xffffffffu32 & 0xffff == 0xffff) by (bit_vector);
                                    assert(false);
                                }
                            }
                            let mut data: Vec<u32> = Vec::new();
                            let mut reg: u8 = 0;
                            while reg < 16
                                invariant
                                    reg <= 16,
                                    data@.len() == reg,
                                    bus <= 255,
                                    space.wf(),
                                decreases 16 - reg,
                            {
                                data.push(space.read_long(bus as u8, device, func, reg));
                                reg += 1;
                            }
                            let dev = PCIDevice::new(bus as u8, device, func, data.as_slice());
                            let ghost prev = self.devices@;
                            proof {
                                assert forall|k: int| 0 <= k < prev.len() implies spec_func_at(
                                    space.funcs@,
                                    (#[trigger] prev[k]).spec_bus(),
                                    prev[k].device,
                                    prev[k].function,
                                ) is Some by {
                                    assert(prev[k] == self@[k]);
                                }
                            }
                            self.devices.push(dev);
                            proof {
                                assert(spec_func_at(space.funcs@, bus as u8, device, func) is Some);
                                assert(dev.spec_bus() == bus as u8 && dev.device == device
                                    && dev.function == func);
                                assert forall|k: int|
                                    0 <= k < self@.len() implies spec_func_at(
                                    space.funcs@,
                                    (#[trigger] self@[k]).spec_bus(),
                                    self@[k].device,
                                    self@[k].function,
                                ) is Some by {
                                    if k < prev.len() {
                                        assert(self@[k] == prev[k]);
                                        assert(spec_func_at(
                                            space.funcs@,
                                            prev[k].spec_bus(),
                                            prev[k].device,
                                            prev[k].function,
                                        ) is Some);
                                    } else {
                                        assert(self@[k] == dev);
                                    }
                                }
                                assert(self@ == prev.push(dev));
                                assert forall|b: u8, d: u8, f: u8|
                                    (b as u16) < bus && #[trigger] spec_scan_hit(
                                    *space,
                                    b,
                                    d,
                                    f,
                                ) implies spec_dev_listed(self@, b, d, f) by {
                                    lemma_listed_push(prev, dev, b, d, f);
                                }
                                assert forall|d: u8, f: u8|
                                    d < device && #[trigger] spec_scan_hit(
                                    *space,
                                    bus as u8,
                                    d,
                                    f,
                                ) implies spec_dev_listed(self@, bus as u8, d, f) by {
                                    lemma_listed_push(prev, dev, bus as u8, d, f);
                                }
                                assert(spec_dev_listed(self@, bus as u8, device, func)) by {
                                    assert(self@[prev.len() as int] == dev);
                                }
                                assert forall|f: u8|
                                    f < func + 1 && #[trigger] spec_scan_hit(
                                    *space,
                                    bus as u8,
                                    device,
                                    f,
                                ) implies spec_dev_listed(self@, bus as u8, device, f) by {
                                    if f < func {
                                        lemma_listed_push(prev, dev, bus as u8, device, f);
                                    }
                                }
                            }
                        } else {
                            proof {
                                assert(!spec_answers(*space, bus as u8, device, func));
                            }
                        }
                        func += 1;
                    }
                    proof {
                        assert forall|f: u8|
                            #[trigger] spec_scan_hit(*space, bus as u8, device, f)
                                implies spec_dev_listed(self@, bus as u8, device, f) by {
                            if max_functions == 1 && f > 0 {
                                assert(!spec_multi_function(*space, bus as u8, device));
                            }
                        }
                    }
                } else {
                    proof {
                        if spec_func_at(space.funcs@, bus as u8, device, 0) is None {
                            assert(0xffffffffu32 & 0xffff == 0xffff) by (bit_vector);
                        }
                        assert(!spec_answers(*space, bus as u8, device, 0));
                    }
                }
                device += 1;
            }
            proof {
                assert forall|b: u8, d: u8, f: u8|
                    (b as u16) < bus + 1 && #[trigger] spec_scan_hit(*space, b, d, f)
                        implies spec_dev_listed(self@, b, d, f) by {
                    if (b as u16) == bus {
                        assert(d < 32 ==> spec_dev_listed(self@, bus as u8, d, f));
                    }
                }
            }
            bus += 1;
        }
    }

    /// Returns the list of detected devices.
    pub fn get_devices(&self) -> (r: &Vec<PCIDevice>)
        ensures
            r@ == self@,
    {
        &self.devices
    }
}

} // verus!
