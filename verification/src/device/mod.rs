//! Devices, buses and peripherals implementation.
//!
//! A device file is an interface with a device of the system, which can be
//! internal or external, or even virtual such as a TTY.
//!
//! Since files management requires devices to be initialized in order to
//! access filesystems, the system first needs to initialize devices. However,
//! at that stage, device files cannot be created.
//!
//! Thus, devices are initialized in stages:
//! - **stage 1**: files management is not yet initialized, which means device
//!   files are not created when devices are registered
//! - **stage 2**: files management is initialized, device files can be
//!   created. When switching to that stage, the files of all device that are
//!   already registered are created

pub mod id;
pub mod storage;

use vstd::prelude::*;
use crate::errno::{EResult, Errno};
use crate::file::{FileContent, FileType, Mode, Stat};
use crate::file::vfs::Vfs;

verus! {

/// Enumeration representing the type of the device.
#[derive(Clone, Copy, Debug, PartialEq, Eq, Structural)]
pub enum DeviceType {
    /// A block device.
    Block,
    /// A char device.
    Char,
}

impl DeviceType {
    /// The file type associated with the device type.
    pub open spec fn file_type(&self) -> FileType {
        match self {
            DeviceType::Block => FileType::BlockDevice,
            DeviceType::Char => FileType::CharDevice,
        }
    }

    /// Returns the file type associated with the device type.
    pub fn as_file_type(&self) -> (t: FileType)
        ensures
            t == self.file_type(),
    {
        match self {
            DeviceType::Block => FileType::BlockDevice,
            DeviceType::Char => FileType::CharDevice,
        }
    }

    /// Returns the name of the device type.
    pub fn name(&self) -> (s: String)
        ensures
            s@ == match self {
                DeviceType::Block => "Block"@,
                DeviceType::Char => "Char"@,
            },
    {
        match self {
            DeviceType::Block => "Block".to_owned(),
            DeviceType::Char => "Char".to_owned(),
        }
    }
}

/// A device type, major and minor, who act as a unique ID for a device.
#[derive(Clone, Copy, Debug, PartialEq, Eq, Structural)]
pub struct DeviceID {
    /// The type of the device.
    pub dev_type: DeviceType,
    /// The major number.
    pub major: u32,
    /// The minor number.
    pub minor: u32,
}

impl DeviceID {
    /// Returns the device number.
    pub fn get_device_number(&self) -> (n: u64)
        ensures
            n == id::device_number(self.major, self.minor),
    {
        id::makedev(self.major, self.minor)
    }
}

/// Device I/O interface.
pub trait DeviceIO {
    /// The granularity of I/O for the device, in bytes.
    spec fn spec_block_size(&self) -> nat;

    /// The number of blocks on the device.
    spec fn spec_blocks_count(&self) -> nat;

    /// Tells whether the device has an ioctl operation for the request
    /// `request`.
    spec fn has_ioctl(&self, request: u32) -> bool;

    /// Returns the granularity of I/O for the device, in bytes.
    fn block_size(&self) -> (s: u64)
        ensures
            s > 0,
            s == self.spec_block_size(),
    ;

    /// Returns the number of blocks on the device.
    fn blocks_count(&self) -> (n: u64)
        ensures
            n == self.spec_blocks_count(),
    ;

    /// Reads data from the device.
    ///
    /// Arguments:
    /// - `off` is the offset on the device, in blocks
    /// - `buf` is the buffer to which the data is written
    ///
    /// The size of the buffer has to be a multiple of the block size.
    ///
    /// On success, the function returns the number of bytes read, which may
    /// be less than the size of the buffer.
    fn read(&self, off: u64, buf: &mut Vec<u8>) -> (r: EResult<usize>)
        requires
            self.spec_block_size() > 0,
            old(buf)@.len() % self.spec_block_size() == 0,
        ensures
            final(buf)@.len() == old(buf)@.len(),
            r matches Ok(n) ==> n <= old(buf)@.len(),
    ;

    /// Writes data to the device.
    ///
    /// Arguments:
    /// - `off` is the offset on the device, in blocks
    /// - `buf` is the buffer from which the data is read
    ///
    /// The size of the buffer has to be a multiple of the block size.
    ///
    /// On success, the function returns the number of bytes written, which
    /// may be less than the size of the buffer.
    fn write(&mut self, off: u64, buf: &Vec<u8>) -> (r: EResult<usize>)
        requires
            old(self).spec_block_size() > 0,
            buf@.len() % old(self).spec_block_size() == 0,
        ensures
            final(self).spec_block_size() == old(self).spec_block_size(),
            final(self).spec_blocks_count() == old(self).spec_blocks_count(),
            r matches Ok(n) ==> n <= buf@.len(),
    ;

    /// Performs an ioctl operation on the device.
    ///
    /// Arguments:
    /// - `request` is the ID of the request to perform
    /// - `argp` is the address of the argument
    ///
    /// A device that has no such operation answers `EINVAL`.
    fn ioctl(&mut self, request: u32, argp: usize) -> (r: EResult<u32>)
        ensures
            final(self).spec_block_size() == old(self).spec_block_size(),
            final(self).spec_blocks_count() == old(self).spec_blocks_count(),
            !old(self).has_ioctl(request) ==> r == Err::<u32, Errno>(Errno::EINVAL),
    {
        let _ = (request, argp);
        Err(Errno::EINVAL)
    }
}

/// A device, either a block device or a char device.
///
/// Each device has a major and a minor number.
pub struct Device {
    /// The device's ID.
    id: DeviceID,
    /// The path to the device file.
    path: String,
    /// The file's mode.
    mode: Mode,
    /// The device I/O interface.
    io: Handle<Box<dyn DeviceIO>>,
}

/// The place of the I/O interface of a device.
pub struct Handle<T> {
    /// The I/O interface.
    pub io: T,
}

/// What the registry knows of a device.
pub struct DeviceInfo {
    /// The device's ID.
    pub id: DeviceID,
    /// The path to the device file.
    pub path: Seq<char>,
    /// The mode of the device file.
    pub mode: Mode,
}

impl DeviceInfo {
    /// The status of the file of the device.
    pub open spec fn stat(self) -> Stat {
        Stat {
            file_type: self.id.dev_type.file_type(),
            mode: self.mode,
            dev_major: self.id.major,
            dev_minor: self.id.minor,
            ..Stat::spec_default()
        }
    }
}

impl View for Device {
    type V = DeviceInfo;

    closed spec fn view(&self) -> DeviceInfo {
        DeviceInfo { id: self.id, path: self.path@, mode: self.mode }
    }
}

/// The files of `vfs` once the file of device `d` has been created, if
/// no file had its path: tells the status of the file with path `path`. A
/// device whose path is empty has no file.
pub open spec fn stat_with(before: Option<Stat>, d: DeviceInfo, path: Seq<char>) -> Option<Stat> {
    if before.is_none() && path == d.path && path.len() > 0 {
        Some(d.stat())
    } else {
        before
    }
}

impl Device {
    /// Creates a new instance.
    ///
    /// Arguments:
    /// - `id` is the device's ID.
    /// - `path` is the path to the device's file.
    /// - `mode` is the set of permissions associated with the device's file.
    /// - `handle` is the handle for I/O operations.
    pub fn new(id: DeviceID, path: String, mode: Mode, handle: Box<dyn DeviceIO>) -> (d: Self)
        ensures
            d@ == (DeviceInfo { id, path: path@, mode }),
            d.block_size() == handle.spec_block_size(),
            d.blocks_count() == handle.spec_blocks_count(),
            forall|request: u32| #[trigger] d.has_ioctl(request) == handle.has_ioctl(request),
    {
        let io = Handle { io: handle };
        Device { id, path, mode, io }
    }

    /// The granularity of I/O for the device, in bytes.
    pub closed spec fn block_size(&self) -> nat {
        self.io.io.spec_block_size()
    }

    /// The number of blocks on the device.
    pub closed spec fn blocks_count(&self) -> nat {
        self.io.io.spec_blocks_count()
    }

    /// Tells whether the device has an ioctl operation for the request
    /// `request`.
    pub closed spec fn has_ioctl(&self, request: u32) -> bool {
        self.io.io.has_ioctl(request)
    }

    /// Returns the device ID.
    pub fn get_id(&self) -> (id: &DeviceID)
        ensures
            *id == self@.id,
    {
        &self.id
    }

    /// Returns the path to the device file.
    pub fn get_path(&self) -> (p: &str)
        ensures
            p@ == self@.path,
    {
        self.path.as_str()
    }

    /// Returns the device file's mode.
    pub fn get_mode(&self) -> (m: Mode)
        ensures
            m == self@.mode,
    {
        self.mode
    }

    /// Returns the I/O interface.
    pub fn get_io(&self) -> (io: &Box<dyn DeviceIO>)
        ensures
            io.spec_block_size() == self.block_size(),
            io.spec_blocks_count() == self.blocks_count(),
            forall|request: u32| #[trigger] io.has_ioctl(request) == self.has_ioctl(request),
    {
        &self.io.io
    }

    /// Creates a device file.
    ///
    /// Arguments:
    /// - `id` is the ID of the device.
    /// - `path` is the path of the device file.
    /// - `mode` is the permissions of the device file.
    ///
    /// If the file already exist, the function does nothing.
    pub fn create_file(vfs: &mut Vfs, id: &DeviceID, path: &str, mode: Mode) -> (r: EResult<()>)
        requires
            old(vfs).wf(),
        ensures
            final(vfs).wf(),
            r.is_ok(),
            forall|p: Seq<char>|
                #[trigger] final(vfs).stat_at(p) == stat_with(
                    old(vfs).stat_at(p),
                    DeviceInfo { id: *id, path: path@, mode },
                    p,
                ),
    {
        if path.is_empty() {
            return Ok(());
        }
        let path = path.to_owned();
        // Resolve path
        if vfs.find(&path).is_some() {
            // The file exists, do nothing
            return Ok(());
        }
        let mut stat = Stat::default();
        stat.file_type = id.dev_type.as_file_type();
        stat.mode = mode;
        stat.dev_major = id.major;
        stat.dev_minor = id.minor;
        let content = match id.dev_type {
            DeviceType::Block => FileContent::BlockDevice,
            DeviceType::Char => FileContent::CharDevice,
        };
        // Create the device file
        let ghost name = path@;
        match vfs.create_file(path, stat, content) {
            Ok(_) => {},
            Err(_) => {},
        }
        proof {
            assert forall|p: Seq<char>| #[trigger]
                vfs.stat_at(p) == stat_with(
                    old(vfs).stat_at(p),
                    DeviceInfo { id: *id, path: name, mode },
                    p,
                ) by {
                if p != name {
                    assert(vfs.lookup(p) == old(vfs).lookup(p));
                    if old(vfs).lookup(p).is_some() {
                        let k = old(vfs).lookup(p)->0;
                        assert(old(vfs).named(k, p));
                        assert(vfs.file(k) == old(vfs).file(k));
                    }
                }
            }
        }
        Ok(())
    }

    /// If exists, removes the device file.
    ///
    /// If the file doesn't exist, the function does nothing.
    pub fn remove_file(&mut self, vfs: &mut Vfs) -> (r: EResult<()>)
        requires
            old(vfs).wf(),
        ensures
            final(vfs).wf(),
            final(self)@ == old(self)@,
            r.is_ok(),
            forall|p: Seq<char>|
                #[trigger] final(vfs).stat_at(p) == if p == old(self)@.path {
                    None
                } else {
                    old(vfs).stat_at(p)
                },
    {
        match vfs.remove_file_from_path(&self.path) {
            Ok(()) => {},
            Err(_) => {},
        }
        proof {
            assert forall|p: Seq<char>| #[trigger]
                vfs.stat_at(p) == if p == old(self)@.path {
                    None
                } else {
                    old(vfs).stat_at(p)
                } by {
                if p != old(self)@.path {
                    assert(vfs.lookup(p) == old(vfs).lookup(p));
                    if old(vfs).lookup(p).is_some() {
                        let k = old(vfs).lookup(p)->0;
                        assert(old(vfs).named(k, p));
                        assert(vfs.file(k) == old(vfs).file(k));
                    }
                }
            }
        }
        Ok(())
    }
}

/// The stage of the initialization of devices.
#[derive(Clone, Copy, Debug, PartialEq, Eq, Structural)]
pub enum Stage {
    /// Files management is not initialized: device files are not created.
    One,
    /// Files management is initialized: device files are created.
    Two,
}

/// The list of registered devices.
pub struct DeviceRegistry {
    devices: Vec<Device>,
    stage: Stage,
}

/// The index in `devices` of the device with ID `id`, if it is registered.
pub open spec fn index_of(devices: Seq<DeviceInfo>, id: DeviceID) -> Option<int> {
    if exists|i: int| 0 <= i < devices.len() && devices[i].id == id {
        Some(choose|i: int| 0 <= i < devices.len() && devices[i].id == id)
    } else {
        None
    }
}

/// The status of the file with path `path` once the files of the first `n`
/// devices of `devices` have been created in order, each one if no file had
/// its path.
pub open spec fn stat_after(before: Option<Stat>, devices: Seq<DeviceInfo>, n: int, path: Seq<char>) -> Option<
    Stat,
>
    decreases n,
{
    if n <= 0 {
        before
    } else {
        stat_with(stat_after(before, devices, n - 1, path), devices[n - 1], path)
    }
}

/// The creation of the files of devices leaves a file that exists as it is,
/// and creates no file at a path that none of the devices has.
pub proof fn lemma_stat_kept(before: Option<Stat>, devices: Seq<DeviceInfo>, n: int, path: Seq<char>)
    requires
        0 <= n <= devices.len(),
        before.is_some() || forall|j: int| 0 <= j < n ==> (#[trigger] devices[j]).path != path,
    ensures
        stat_after(before, devices, n, path) == before,
    decreases n,
{
    if n > 0 {
        lemma_stat_kept(before, devices, n - 1, path);
        assert(devices[n - 1].path != path || before.is_some());
    }
}

/// Once the files of the first `n` devices have been created, each of them
/// whose path is not empty has a file at its path: the file that was there,
/// or else the file of the first device that has this path.
pub proof fn lemma_staged(before: Option<Stat>, devices: Seq<DeviceInfo>, n: int, k: int)
    requires
        0 <= k < n <= devices.len(),
        devices[k].path.len() > 0,
    ensures
        stat_after(before, devices, n, devices[k].path).is_some(),
        before.is_some() ==> stat_after(before, devices, n, devices[k].path) == before,
        before.is_none() && (forall|j: int| 0 <= j < k ==> (#[trigger] devices[j]).path != devices[k].path)
            ==> stat_after(before, devices, n, devices[k].path) == Some(devices[k].stat()),
    decreases n,
{
    let path = devices[k].path;
    if before.is_some() {
        lemma_stat_kept(before, devices, n, path);
    } else if n == k + 1 {
        if forall|j: int| 0 <= j < k ==> (#[trigger] devices[j]).path != path {
            lemma_stat_kept(before, devices, k, path);
        }
    } else {
        lemma_staged(before, devices, n - 1, k);
    }
}

impl DeviceRegistry {
    /// The devices that are registered, in the order of their registration.
    pub closed spec fn devices(&self) -> Seq<DeviceInfo> {
        Seq::new(self.devices@.len(), |i: int| self.devices@[i]@)
    }

    /// The stage of the initialization of devices.
    pub closed spec fn stage(&self) -> Stage {
        self.stage
    }

    /// The registry's invariant: no two devices have the same ID.
    pub open spec fn wf(&self) -> bool {
        forall|i: int, j: int|
            0 <= i < self.devices().len() && 0 <= j < self.devices().len() && i != j ==> (
            #[trigger] self.devices()[i]).id != (#[trigger] self.devices()[j]).id
    }

    /// Creates a registry with no device, in the stage in which device files
    /// are not created.
    pub fn new() -> (r: Self)
        ensures
            r.wf(),
            r.devices().len() == 0,
            r.stage() == Stage::One,
    {
        DeviceRegistry { devices: Vec::new(), stage: Stage::One }
    }

    /// Returns the index of the device with ID `id`, if it is registered.
    fn find(&self, id: &DeviceID) -> (r: Option<usize>)
        requires
            self.wf(),
        ensures
            match r {
                Some(i) => i < self.devices().len() && self.devices()[i as int].id == *id
                    && index_of(self.devices(), *id) == Some(i as int),
                None => index_of(self.devices(), *id).is_none(),
            },
    {
        let mut i: usize = 0;
        while i < self.devices.len()
            invariant
                self.wf(),
                i <= self.devices@.len(),
                forall|k: int| 0 <= k < i ==> (#[trigger] self.devices()[k]).id != *id,
            decreases self.devices@.len() - i,
        {
            if self.devices[i].id == *id {
                proof {
                    assert(0 <= i < self.devices().len() && self.devices()[i as int].id == *id);
                    let j = choose|j: int|
                        0 <= j < self.devices().len() && self.devices()[j].id == *id;
                    assert(self.devices()[i as int].id == self.devices()[j].id);
                }
                return Some(i);
            }
            i = i + 1;
        }
        None
    }
}

/// Registers the given device.
///
/// If the device ID is already used, the function fails with `EEXIST` and
/// changes nothing.
///
/// If files management is initialized, the function creates the associated
/// device file, unless a file has its path already.
pub fn register(registry: &mut DeviceRegistry, vfs: &mut Vfs, device: Device) -> (r: EResult<()>)
    requires
        old(registry).wf(),
        old(vfs).wf(),
    ensures
        final(registry).wf(),
        final(vfs).wf(),
        final(registry).stage() == old(registry).stage(),
        match r {
            Ok(()) => {
                &&& index_of(old(registry).devices(), device@.id).is_none()
                &&& final(registry).devices() == old(registry).devices().push(device@)
                &&& forall|p: Seq<char>|
                    #[trigger] final(vfs).stat_at(p) == if old(registry).stage() == Stage::Two {
                        stat_with(old(vfs).stat_at(p), device@, p)
                    } else {
                        old(vfs).stat_at(p)
                    }
            },
            Err(e) => {
                &&& e == Errno::EEXIST
                &&& index_of(old(registry).devices(), device@.id).is_some()
                &&& final(registry).devices() == old(registry).devices()
                &&& forall|p: Seq<char>| #[trigger] final(vfs).stat_at(p) == old(vfs).stat_at(p)
            },
        },
{
    let id = device.id;
    if registry.find(&id).is_some() {
        return Err(Errno::EEXIST);
    }
    let mode = device.get_mode();
    let path = device.get_path().to_owned();
    // Insert
    let ghost info = device@;
    registry.devices.push(device);
    proof {
        assert(registry.devices() =~= old(registry).devices().push(info));
        assert forall|i: int, j: int|
            0 <= i < registry.devices().len() && 0 <= j < registry.devices().len() && i
                != j implies (#[trigger] registry.devices()[i]).id != (
        #[trigger] registry.devices()[j]).id by {
            let n = old(registry).devices().len() as int;
            if i < n && j < n {
                assert(old(registry).devices()[i].id != old(registry).devices()[j].id);
            } else {
                let k = if i < n {
                    i
                } else {
                    j
                };
                if old(registry).devices()[k].id == info.id {
                    assert(0 <= k < old(registry).devices().len() && old(registry).devices()[k].id
                        == info.id);
                }
            }
        }
    }
    // Create file if files management has been initialized
    match registry.stage {
        Stage::Two => Device::create_file(vfs, &id, path.as_str(), mode),
        Stage::One => Ok(()),
    }
}

/// Unregisters the device with the given ID.
///
/// If the device doesn't exist, the function does nothing.
///
/// The function removes the associated device file, if there is one.
pub fn unregister(registry: &mut DeviceRegistry, vfs: &mut Vfs, id: &DeviceID) -> (r: EResult<()>)
    requires
        old(registry).wf(),
        old(vfs).wf(),
    ensures
        final(registry).wf(),
        final(vfs).wf(),
        final(registry).stage() == old(registry).stage(),
        r.is_ok(),
        match index_of(old(registry).devices(), *id) {
            Some(i) => {
                &&& final(registry).devices() == old(registry).devices().remove(i)
                &&& forall|p: Seq<char>|
                    #[trigger] final(vfs).stat_at(p) == if p == old(registry).devices()[i].path {
                        None
                    } else {
                        old(vfs).stat_at(p)
                    }
            },
            None => {
                &&& final(registry).devices() == old(registry).devices()
                &&& forall|p: Seq<char>| #[trigger] final(vfs).stat_at(p) == old(vfs).stat_at(p)
            },
        },
{
    let i = match registry.find(id) {
        Some(i) => i,
        None => {
            return Ok(());
        },
    };
    let mut device = registry.devices.remove(i);
    proof {
        let before = old(registry).devices();
        before.remove_ensures(i as int);
        old(registry).devices@.remove_ensures(i as int);
        assert(registry.devices() =~= before.remove(i as int));
        assert forall|a: int, b: int|
            0 <= a < registry.devices().len() && 0 <= b < registry.devices().len() && a
                != b implies (#[trigger] registry.devices()[a]).id != (
        #[trigger] registry.devices()[b]).id by {
            let a0 = if a < i {
                a
            } else {
                a + 1
            };
            let b0 = if b < i {
                b
            } else {
                b + 1
            };
            assert(before[a0].id != before[b0].id);
        }
    }
    // Remove file
    device.remove_file(vfs)
}

/// Returns a reference to the device with the given ID.
///
/// If the device doesn't exist, the function returns `None`.
pub fn get<'a>(registry: &'a DeviceRegistry, id: &DeviceID) -> (r: Option<&'a Device>)
    requires
        registry.wf(),
    ensures
        match r {
            Some(d) => index_of(registry.devices(), *id) matches Some(i) && d@
                == registry.devices()[i],
            None => index_of(registry.devices(), *id).is_none(),
        },
{
    match registry.find(id) {
        Some(i) => Some(&registry.devices[i]),
        None => None,
    }
}

/// Switches to stage 2, creating device files of devices that are already
/// registered: the file of each device, in the order of their registration,
/// unless a file has its path already.
///
/// This function must be used only once at boot, after files management has
/// been initialized.
pub fn stage2(registry: &mut DeviceRegistry, vfs: &mut Vfs) -> (r: EResult<()>)
    requires
        old(registry).wf(),
        old(vfs).wf(),
    ensures
        final(registry).wf(),
        final(vfs).wf(),
        r.is_ok(),
        final(registry).stage() == Stage::Two,
        final(registry).devices() == old(registry).devices(),
        forall|p: Seq<char>|
            #[trigger] final(vfs).stat_at(p) == stat_after(
                old(vfs).stat_at(p),
                old(registry).devices(),
                old(registry).devices().len() as int,
                p,
            ),
{
    registry.stage = Stage::Two;
    // Collecting all data to create device files
    let mut infos: Vec<(DeviceID, String, Mode)> = Vec::new();
    let mut i: usize = 0;
    while i < registry.devices.len()
        invariant
            i <= registry.devices@.len(),
            registry.devices == old(registry).devices,
            infos@.len() == i,
            forall|k: int|
                0 <= k < i ==> (#[trigger] infos@[k]).0 == registry.devices()[k].id && infos@[k].1@
                    == registry.devices()[k].path && infos@[k].2 == registry.devices()[k].mode,
        decreases registry.devices@.len() - i,
    {
        let d = &registry.devices[i];
        infos.push((d.id, d.get_path().to_owned(), d.mode));
        i = i + 1;
    }
    let ghost devices = registry.devices();
    let mut i: usize = 0;
    while i < infos.len()
        invariant
            i <= infos@.len(),
            vfs.wf(),
            infos@.len() == devices.len(),
            forall|k: int|
                0 <= k < infos@.len() ==> (#[trigger] infos@[k]).0 == devices[k].id && infos@[k].1@
                    == devices[k].path && infos@[k].2 == devices[k].mode,
            forall|p: Seq<char>|
                #[trigger] vfs.stat_at(p) == stat_after(old(vfs).stat_at(p), devices, i as int, p),
        decreases infos@.len() - i,
    {
        let ghost before = *vfs;
        let ghost d = devices[i as int];
        assert(infos@[i as int].0 == d.id);
        let _ = Device::create_file(vfs, &infos[i].0, infos[i].1.as_str(), infos[i].2);
        proof {
            assert forall|p: Seq<char>| #[trigger]
                vfs.stat_at(p) == stat_after(old(vfs).stat_at(p), devices, i + 1, p) by {
                assert(before.stat_at(p) == stat_after(old(vfs).stat_at(p), devices, i as int, p));
            }
        }
        i = i + 1;
    }
    Ok(())
}

} // verus!
