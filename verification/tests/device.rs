use maestro::device::id::{major, makedev, minor};
use maestro::device::storage::RamDisk;
use maestro::device::{
    get, register, stage2, unregister, Device, DeviceID, DeviceIO, DeviceRegistry, DeviceType,
};
use maestro::errno::Errno;
use maestro::file::vfs::{get_file_from_path, Vfs};
use maestro::file::{FileContent, FileType, Stat};

const SDA: DeviceID = DeviceID { dev_type: DeviceType::Block, major: 8, minor: 0 };

fn disk() -> Box<dyn DeviceIO> {
    Box::new(RamDisk::new(512, 4).unwrap())
}

#[test]
fn device_stage_transition() {
    let mut registry = DeviceRegistry::new();
    let mut vfs = Vfs::new();
    let device = Device::new(SDA, "/dev/sda".to_owned(), 0o660, disk());
    assert_eq!(register(&mut registry, &mut vfs, device), Ok(()));
    assert!(get_file_from_path(&vfs, "/dev/sda").is_none());
    assert!(get(&registry, &SDA).is_some());

    assert_eq!(stage2(&mut registry, &mut vfs), Ok(()));
    let file = get_file_from_path(&vfs, "/dev/sda").unwrap();
    assert_eq!(file.get_type(), FileType::BlockDevice);
    assert_eq!(file.get_stat().dev_major, 8);
    assert_eq!(file.get_stat().dev_minor, 0);
    assert_eq!(file.get_mode(), 0o660);
    assert_eq!(file.get_name(), "/dev/sda");
}

#[test]
fn registering_after_files_are_up_creates_the_file() {
    let mut registry = DeviceRegistry::new();
    let mut vfs = Vfs::new();
    stage2(&mut registry, &mut vfs).unwrap();
    let id = DeviceID { dev_type: DeviceType::Char, major: 4, minor: 64 };
    let device = Device::new(id, "/dev/ttyS0".to_owned(), 0o620, disk());
    register(&mut registry, &mut vfs, device).unwrap();
    let file = get_file_from_path(&vfs, "/dev/ttyS0").unwrap();
    assert_eq!(file.get_type(), FileType::CharDevice);
    assert_eq!(file.get_stat().dev_major, 4);
    assert_eq!(file.get_stat().dev_minor, 64);
    assert_eq!(file.get_mode(), 0o620);
}

#[test]
fn existing_file_is_left_alone() {
    let mut registry = DeviceRegistry::new();
    let mut vfs = Vfs::new();
    let stat = Stat { mode: 0o644, ..Stat::default() };
    vfs.create_file("/dev/sda".to_owned(), stat, FileContent::Regular(vec![1, 2, 3]))
        .unwrap();
    let device = Device::new(SDA, "/dev/sda".to_owned(), 0o660, disk());
    register(&mut registry, &mut vfs, device).unwrap();
    assert_eq!(stage2(&mut registry, &mut vfs), Ok(()));
    let file = get_file_from_path(&vfs, "/dev/sda").unwrap();
    assert_eq!(file.get_type(), FileType::Regular);
    assert_eq!(file.get_mode(), 0o644);
    assert_eq!(file.get_size(), 3);
}

#[test]
fn device_ids_are_unique() {
    let mut registry = DeviceRegistry::new();
    let mut vfs = Vfs::new();
    let first = Device::new(SDA, "/dev/sda".to_owned(), 0o660, disk());
    let second = Device::new(SDA, "/dev/other".to_owned(), 0o600, disk());
    let third = Device::new(
        DeviceID { dev_type: DeviceType::Char, major: 8, minor: 0 },
        "/dev/third".to_owned(),
        0o600,
        disk(),
    );
    assert_eq!(register(&mut registry, &mut vfs, first), Ok(()));
    assert_eq!(register(&mut registry, &mut vfs, second), Err(Errno::EEXIST));
    assert_eq!(register(&mut registry, &mut vfs, third), Ok(()));
    assert_eq!(get(&registry, &SDA).unwrap().get_path(), "/dev/sda");
    assert_eq!(get(&registry, &SDA).unwrap().get_mode(), 0o660);
    assert_eq!(get(&registry, &SDA).unwrap().get_id(), &SDA);
    stage2(&mut registry, &mut vfs).unwrap();
    assert!(get_file_from_path(&vfs, "/dev/other").is_none());
    assert!(get_file_from_path(&vfs, "/dev/third").is_some());
}

#[test]
fn unregistering_removes_the_file() {
    let mut registry = DeviceRegistry::new();
    let mut vfs = Vfs::new();
    stage2(&mut registry, &mut vfs).unwrap();
    let device = Device::new(SDA, "/dev/sda".to_owned(), 0o660, disk());
    register(&mut registry, &mut vfs, device).unwrap();
    assert!(get_file_from_path(&vfs, "/dev/sda").is_some());
    assert_eq!(unregister(&mut registry, &mut vfs, &SDA), Ok(()));
    assert!(get(&registry, &SDA).is_none());
    assert!(get_file_from_path(&vfs, "/dev/sda").is_none());
    let device = Device::new(SDA, "/dev/sda".to_owned(), 0o660, disk());
    assert_eq!(register(&mut registry, &mut vfs, device), Ok(()));
}

#[test]
fn device_numbers() {
    assert_eq!(makedev(8, 0), 0x800);
    assert_eq!(makedev(8, 1), 0x801);
    assert_eq!(makedev(0x123, 0x456), 0x41_2356);
    assert_eq!(makedev(0x1234, 0), 0x1000_0002_3400);
    assert_eq!(major(makedev(0x123, 0x456)), 0x123);
    assert_eq!(minor(makedev(0x123, 0x456)), 0x456);
    assert_eq!(major(makedev(0xffff_ffff, 0)), 0xffff_ffff);
    assert_eq!(minor(makedev(0, 0xffff_ffff)), 0xffff_ffff);
    assert_eq!(SDA.get_device_number(), makedev(8, 0));
    assert_eq!(DeviceType::Block.as_file_type(), FileType::BlockDevice);
    assert_eq!(DeviceType::Char.as_file_type(), FileType::CharDevice);
}

#[test]
fn ram_disk_blocks() {
    assert!(RamDisk::new(0, 4).is_none());
    let mut disk = RamDisk::new(4, 3).unwrap();
    assert_eq!(disk.block_size(), 4);
    assert_eq!(disk.blocks_count(), 3);
    assert_eq!(disk.write(1, &vec![1, 2, 3, 4, 5, 6, 7, 8]), Ok(8));
    let mut buf = vec![9; 12];
    assert_eq!(disk.read(0, &mut buf), Ok(12));
    assert_eq!(buf, vec![0, 0, 0, 0, 1, 2, 3, 4, 5, 6, 7, 8]);
    let mut buf = vec![9; 8];
    assert_eq!(disk.read(2, &mut buf), Ok(4));
    assert_eq!(&buf[..4], &[5, 6, 7, 8]);
    assert_eq!(disk.ioctl(1, 0), Err(Errno::EINVAL));
}

#[test]
fn device_keeps_its_handle() {
    let device = Device::new(SDA, "/dev/sda".to_owned(), 0o660, Box::new(RamDisk::new(512, 4).unwrap()));
    assert_eq!(device.get_io().block_size(), 512);
    assert_eq!(device.get_io().blocks_count(), 4);
    let mut buf = vec![1; 512];
    assert_eq!(device.get_io().read(3, &mut buf), Ok(512));
    assert!(buf.iter().all(|b| *b == 0));
}
