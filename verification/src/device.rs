//! Devices and their registry.

use vstd::prelude::*;

use crate::errno::Errno;
use crate::path::PathBuf;

verus! {

/// The type of a device file.
#[derive(Clone, Copy, Debug, PartialEq, Eq, Structural)]
pub enum DeviceType {
    /// A block device.
    Block,
    /// A character device.
    Char,
}

/// An object handling a device's byte-range reads and writes. Drivers
/// implement it; the handle's contents are its byte view.
pub trait DeviceHandle {
    /// The device's bytes.
    spec fn spec_data(&self) -> Seq<u8>;

    /// Returns the device's size in bytes.
    fn get_size(&self) -> (r: u64)
        ensures
            r == self.spec_data().len(),
    ;

    /// Reads `len` bytes at `offset`.
    ///
    /// Succeeds exactly when the range lies inside the device.
    fn read(&mut self, offset: u64, len: usize) -> (r: Result<Vec<u8>, Errno>)
        ensures
            final(self).spec_data() == old(self).spec_data(),
            match r {
                Ok(v) => offset + len <= old(self).spec_data().len() && v@ == old(self).spec_data().subrange(offset as int, offset + len),
                Err(_) => offset + len > old(self).spec_data().len(),
            },
    ;

    /// Writes the given bytes at `offset`.
    ///
    /// Succeeds exactly when the range lies inside the device; the bytes
    /// are then replaced and nothing else moves.
    fn write(&mut self, offset: u64, buff: &[u8]) -> (r: Result<(), Errno>)
        ensures
            match r {
                Ok(()) => {
                    &&& offset + buff@.len() <= old(self).spec_data().len()
                    &&& final(self).spec_data().len() == old(self).spec_data().len()
                    &&& forall|i: int|
                        offset <= i < offset + buff@.len() ==> final(self).spec_data()[i]
                            == buff@[i - offset]
                    &&& forall|i: int|
                        0 <= i < old(self).spec_data().len() && !(offset <= i < offset
                            + buff@.len()) ==> final(self).spec_data()[i] == old(self).spec_data()[i]
                },
                Err(_) => offset + buff@.len() > old(self).spec_data().len() && final(self).spec_data() == old(self).spec_data(),
            },
    ;
}

/// The device number carried by a device file, in the classical encoding:
/// the major number in the high byte, the minor in the low one.
pub open spec fn spec_makedev(major: u32, minor: u32) -> u64 {
    ((major & 0xff) * 0x100 + (minor & 0xff)) as u64
}

/// Builds a device number from its major and minor parts.
pub fn makedev(major: u32, minor: u32) -> (r: u64)
    ensures
        r == spec_makedev(major, minor),
{
    ((major & 0xff) as u64) * 0x100 + ((minor & 0xff) as u64)
}

/// The major part of a device number.
pub fn major(dev: u64) -> (r: u32)
    ensures
        r == (dev / 0x100 % 0x100000000) as u32,
{
    (dev / 0x100 % 0x100000000) as u32
}

/// The minor part of a device number.
pub fn minor(dev: u64) -> (r: u32)
    ensures
        r == (dev % 0x100) as u32,
{
    (dev % 0x100) as u32
}

/// A device file: its numbers, path, permissions, type and handle.
pub struct Device<H> {
    /// The device's major number.
    major: u32,
    /// The device's minor number.
    minor: u32,
    /// The path of the device file.
    path: PathBuf,
    /// The permissions of the device file.
    mode: u32,
    /// The device's type.
    type_: DeviceType,
    /// The handle doing the device's reads and writes.
    handle: H,
}

impl<H: DeviceHandle> Device<H> {
    /// The major number.
    pub closed spec fn spec_major(&self) -> u32 {
        self.major
    }

    /// The minor number.
    pub closed spec fn spec_minor(&self) -> u32 {
        self.minor
    }

    /// The path of the device file.
    pub closed spec fn spec_path(&self) -> Seq<u8> {
        self.path@
    }

    /// The permissions of the device file.
    pub closed spec fn spec_mode(&self) -> u32 {
        self.mode
    }

    /// The device's type.
    pub closed spec fn spec_type(&self) -> DeviceType {
        self.type_
    }

    /// Creates a new instance.
    pub fn new(major: u32, minor: u32, path: PathBuf, mode: u32, type_: DeviceType, handle: H) -> (r:
        Self)
        ensures
            r.spec_major() == major,
            r.spec_minor() == minor,
            r.spec_path() == path@,
            r.spec_mode() == mode,
            r.spec_type() == type_,
    {
        Device { major, minor, path, mode, type_, handle }
    }

    /// Returns the major number.
    pub fn get_major(&self) -> (r: u32)
        ensures
            r == self.spec_major(),
    {
        self.major
    }

    /// Returns the minor number.
    pub fn get_minor(&self) -> (r: u32)
        ensures
            r == self.spec_minor(),
    {
        self.minor
    }

    /// Returns the path of the device file.
    pub fn get_path(&self) -> (r: &PathBuf)
        ensures
            r@ == self.spec_path(),
    {
        &self.path
    }

    /// Returns the permissions of the device file.
    pub fn get_mode(&self) -> (r: u32)
        ensures
            r == self.spec_mode(),
    {
        self.mode
    }

    /// Returns the device's type.
    pub fn get_type(&self) -> (r: DeviceType)
        ensures
            r == self.spec_type(),
    {
        self.type_
    }

    /// Returns the device's number, in the classical encoding.
    pub fn get_device_number(&self) -> (r: u64)
        ensures
            r == spec_makedev(self.spec_major(), self.spec_minor()),
    {
        makedev(self.major, self.minor)
    }

    /// Returns the handle of the device.
    pub fn get_handle(&mut self) -> (r: &mut H)
        ensures
            *r == old(self).handle_view(),
            final(self).handle_view() == *final(r),
            final(self).spec_major() == old(self).spec_major(),
            final(self).spec_minor() == old(self).spec_minor(),
    {
        &mut self.handle
    }

    /// The device's handle.
    pub closed spec fn handle_view(&self) -> H {
        self.handle
    }
}

/// The registry of the device files of one type, ordered by device number.
pub struct DeviceRegistry<H> {
    /// The devices, sorted by device number.
    devices: Vec<Device<H>>,
}

/// Whether the device numbers of the list are sorted.
pub open spec fn spec_devices_sorted<H: DeviceHandle>(devices: Seq<Device<H>>) -> bool {
    forall|i: int, j: int|
        0 <= i < j < devices.len() ==> spec_makedev(
            (#[trigger] devices[i]).spec_major(),
            devices[i].spec_minor(),
        ) <= spec_makedev((#[trigger] devices[j]).spec_major(), devices[j].spec_minor())
}

impl<H: DeviceHandle> DeviceRegistry<H> {
    /// The registered devices.
    pub closed spec fn view(&self) -> Seq<Device<H>> {
        self.devices@
    }

    /// Creates an empty registry.
    pub fn new() -> (r: Self)
        ensures
            r@.len() == 0,
            spec_devices_sorted(r@),
    {
        DeviceRegistry { devices: Vec::new() }
    }

    /// Registers a device, keeping the registry ordered by device number:
    /// the device lands before the first entry with a larger number.
    pub fn register_device(&mut self, device: Device<H>)
        requires
            spec_devices_sorted(old(self)@),
        ensures
            spec_devices_sorted(final(self)@),
            final(self)@.len() == old(self)@.len() + 1,
            exists|i: int|
                0 <= i <= old(self)@.len() && final(self)@ == old(self)@.take(i).push(
                    device,
                ) + old(self)@.skip(i),
    {
        let dn = device.get_device_number();
        let n = self.devices.len();
        let mut i: usize = 0;
        while i < n
            invariant
                i <= n,
                n == self@.len(),
                self@ == old(self)@,
                forall|j: int|
                    0 <= j < i ==> spec_makedev(
                        (#[trigger] self@[j]).spec_major(),
                        self@[j].spec_minor(),
                    ) <= spec_makedev(device.spec_major(), device.spec_minor()),
            decreases n - i,
        {
            if self.devices[i].get_device_number() > dn {
                break;
            }
            i += 1;
        }
        self.devices.insert(i, device);
        proof {
            assert(self@ =~= old(self)@.take(i as int).push(device) + old(self)@.skip(i as int));
            assert forall|a: int, b: int|
                0 <= a < b < self@.len() implies spec_makedev(
                (#[trigger] self@[a]).spec_major(),
                self@[a].spec_minor(),
            ) <= spec_makedev((#[trigger] self@[b]).spec_major(), self@[b].spec_minor()) by {
                if a < i && b < i {
                } else if a < i && b == i {
                } else if a < i && b > i {
                    assert(self@[b] == old(self)@[b - 1]);
                } else if a == i && b > i {
                    assert(self@[b] == old(self)@[b - 1]);
                    assert(spec_makedev(old(self)@[i as int].spec_major(), old(self)@[i as int].spec_minor()) > spec_makedev(
                        device.spec_major(),
                        device.spec_minor(),
                    ) || i as int == old(self)@.len());
                } else {
                    assert(self@[a] == old(self)@[a - 1]);
                    assert(self@[b] == old(self)@[b - 1]);
                }
            }
        }
    }

    /// Returns the number of registered devices.
    pub fn len(&self) -> (r: usize)
        ensures
            r == self@.len(),
    {
        self.devices.len()
    }
}

} // verus!
