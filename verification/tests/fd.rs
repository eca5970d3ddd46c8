use maestro::errno::Errno;
use maestro::file::fd::{FileDescriptor, FileDescriptorTable, NewFDConstraint, FD_CLOEXEC};
use maestro::file::open_file::{OpenFile, OpenFiles, O_RDONLY, O_RDWR};
use maestro::file::FileLocation;
use maestro::limits::OPEN_MAX;

fn dummy_open_file() -> OpenFile {
    OpenFile::new(FileLocation { mountpoint_id: 0, inode: 0 }, O_RDWR)
}

fn open_files() -> OpenFiles {
    OpenFiles::new(4096)
}

#[test]
fn fd_create0() {
    let mut files = open_files();
    let mut fds = FileDescriptorTable::default();
    let (id, _) = fds.create_fd(&mut files, 0, dummy_open_file()).unwrap();
    assert_eq!(id, 0);
}

#[test]
fn fd_create1() {
    let mut files = open_files();
    let mut fds = FileDescriptorTable::default();
    let (id, _) = fds.create_fd(&mut files, 0, dummy_open_file()).unwrap();
    assert_eq!(id, 0);
    let (id, _) = fds.create_fd(&mut files, 0, dummy_open_file()).unwrap();
    assert_eq!(id, 1);
}

#[test]
fn fd_dup() {
    let mut files = open_files();
    let mut fds = FileDescriptorTable::default();
    let (id, _) = fds.create_fd(&mut files, 0, dummy_open_file()).unwrap();
    assert_eq!(id, 0);
    let (id0, _, _) = fds
        .duplicate_fd(&mut files, 0, NewFDConstraint::Any, false)
        .unwrap();
    assert_ne!(id0, 0);
    let (id1, _, _) = fds
        .duplicate_fd(&mut files, 0, NewFDConstraint::Fixed(16), false)
        .unwrap();
    assert_eq!(id1, 16);
    let (id2, _, _) = fds
        .duplicate_fd(&mut files, 0, NewFDConstraint::Min(8), false)
        .unwrap();
    assert!(id2 >= 8);
    let (id3, _, _) = fds
        .duplicate_fd(&mut files, 0, NewFDConstraint::Min(8), false)
        .unwrap();
    assert!(id3 >= 8);
    assert_ne!(id3, id2);
}

#[test]
fn duplication_constraints() {
    let mut files = open_files();
    let mut fds = FileDescriptorTable::new();
    for expected in 0..3 {
        let (id, _) = fds.create_fd(&mut files, 0, dummy_open_file()).unwrap();
        assert_eq!(id, expected);
    }
    let (a, fd_a, closed) = fds
        .duplicate_fd(&mut files, 1, NewFDConstraint::Min(8), true)
        .unwrap();
    assert!(a >= 8);
    assert_eq!(a, 8);
    assert_eq!(closed, None);
    assert_ne!(fd_a.flags & FD_CLOEXEC, 0);
    let (b, fd_b, closed) = fds
        .duplicate_fd(&mut files, 1, NewFDConstraint::Fixed(16), false)
        .unwrap();
    assert_eq!(b, 16);
    assert_eq!(closed, None);
    assert_eq!(fd_b.flags & FD_CLOEXEC, 0);
    let (c, fd_c, _) = fds
        .duplicate_fd(&mut files, 0, NewFDConstraint::Min(8), false)
        .unwrap();
    assert!(c >= 8);
    assert_ne!(c, a);
    assert_eq!(c, 9);
    let original = *fds.get_fd(1).unwrap();
    assert_eq!(fd_a.get_open_file(), original.get_open_file());
    assert_eq!(fd_b.get_open_file(), original.get_open_file());
    assert_eq!(fd_c.get_open_file(), fds.get_fd(0).unwrap().get_open_file());
    assert_ne!(fd_c.get_open_file(), original.get_open_file());
    assert_eq!(files.get_total(), 6);
}

#[test]
fn duplication_chain_shares_the_description() {
    let mut files = open_files();
    let mut fds = FileDescriptorTable::new();
    let (first, fd) = fds.create_fd(&mut files, 0, dummy_open_file()).unwrap();
    let handle = fd.get_open_file();
    let mut last = first;
    for _ in 0..10 {
        let (id, dup, _) = fds
            .duplicate_fd(&mut files, last as i32, NewFDConstraint::Any, false)
            .unwrap();
        assert_eq!(dup.get_open_file(), handle);
        assert_eq!(fds.get_fd(id as i32).unwrap().get_open_file(), handle);
        last = id;
    }
    let mut moved = files.get(handle).unwrap();
    moved.set_offset(42);
    assert!(files.set(handle, moved));
    for id in 0..=10 {
        let h = fds.get_fd(id).unwrap().get_open_file();
        assert_eq!(files.get(h).unwrap().get_offset(), 42);
    }
    let whole = fds.duplicate(&mut files, false).unwrap();
    for id in 0..=10 {
        assert_eq!(whole.get_fd(id).unwrap().get_open_file(), handle);
    }
    assert_eq!(files.get_total(), 22);
}

#[test]
fn first_and_last_ids() {
    let mut files = open_files();
    let mut fds = FileDescriptorTable::new();
    let (id, _) = fds.create_fd(&mut files, 0, dummy_open_file()).unwrap();
    assert_eq!(id, 0);
    let r = fds.duplicate_fd(&mut files, 0, NewFDConstraint::Fixed(OPEN_MAX), false);
    assert_eq!(r.err(), Some(Errno::EMFILE));
    let r = fds.duplicate_fd(&mut files, 0, NewFDConstraint::Min(OPEN_MAX), false);
    assert_eq!(r.err(), Some(Errno::EMFILE));
    let (id, _, _) = fds
        .duplicate_fd(&mut files, 0, NewFDConstraint::Fixed(OPEN_MAX - 1), false)
        .unwrap();
    assert_eq!(id, OPEN_MAX - 1);
    let r = fds.duplicate_fd(&mut files, 0, NewFDConstraint::Min(OPEN_MAX - 1), false);
    assert_eq!(r.err(), Some(Errno::EMFILE));
    assert_eq!(files.get_total(), 2);
}

#[test]
fn full_table_gives_emfile() {
    let mut files = open_files();
    let mut fds = FileDescriptorTable::new();
    for expected in 0..OPEN_MAX {
        let (id, _) = fds.create_fd(&mut files, 0, dummy_open_file()).unwrap();
        assert_eq!(id, expected);
    }
    let r = fds.create_fd(&mut files, 0, dummy_open_file());
    assert_eq!(r.err(), Some(Errno::EMFILE));
    assert_eq!(fds.close_fd(&mut files, 500).map(|f| f.is_some()), Ok(true));
    let (id, _) = fds.create_fd(&mut files, 0, dummy_open_file()).unwrap();
    assert_eq!(id, 500);
}

#[test]
fn system_wide_limit_gives_enfile() {
    let mut files = OpenFiles::new(2);
    let mut fds = FileDescriptorTable::new();
    fds.create_fd(&mut files, 0, dummy_open_file()).unwrap();
    fds.create_fd(&mut files, 0, dummy_open_file()).unwrap();
    assert_eq!(
        fds.create_fd(&mut files, 0, dummy_open_file()).err(),
        Some(Errno::ENFILE)
    );
    assert_eq!(
        fds.duplicate_fd(&mut files, 0, NewFDConstraint::Any, false).err(),
        Some(Errno::ENFILE)
    );
    assert_eq!(fds.duplicate(&mut files, false).err(), Some(Errno::ENFILE));
    assert_eq!(files.get_total(), 2);
    assert_eq!(files.total_max_value(), 2);
    assert!(FileDescriptor::new(&mut files, 0, dummy_open_file()).is_err());
}

#[test]
fn closing_twice_gives_ebadf() {
    let mut files = open_files();
    let mut fds = FileDescriptorTable::new();
    let (id, _) = fds.create_fd(&mut files, 0, dummy_open_file()).unwrap();
    assert_eq!(fds.close_fd(&mut files, id as i32), Ok(Some(dummy_open_file())));
    assert_eq!(fds.close_fd(&mut files, id as i32), Err(Errno::EBADF));
    assert_eq!(fds.close_fd(&mut files, -1), Err(Errno::EBADF));
    assert_eq!(fds.close_fd(&mut files, 7), Err(Errno::EBADF));
    assert!(fds.get_fd(id as i32).is_err());
    assert_eq!(files.get_total(), 0);
}

#[test]
fn description_lives_until_its_last_descriptor() {
    let mut files = open_files();
    let mut fds = FileDescriptorTable::new();
    let (_, fd) = fds.create_fd(&mut files, 0, dummy_open_file()).unwrap();
    let (dup, _, _) = fds
        .duplicate_fd(&mut files, 0, NewFDConstraint::Any, false)
        .unwrap();
    assert_eq!(dup, 1);
    assert_eq!(fds.close_fd(&mut files, 0), Ok(None));
    assert!(files.get(fd.get_open_file()).is_some());
    assert_eq!(fds.close_fd(&mut files, 1), Ok(Some(dummy_open_file())));
    assert!(files.get(fd.get_open_file()).is_none());
}

#[test]
fn fixed_duplicate_closes_the_target() {
    let mut files = open_files();
    let mut fds = FileDescriptorTable::new();
    let other = OpenFile::new(FileLocation { mountpoint_id: 0, inode: 9 }, O_RDONLY);
    fds.create_fd(&mut files, 0, dummy_open_file()).unwrap();
    fds.create_fd(&mut files, 0, other).unwrap();
    let (id, fd, closed) = fds
        .duplicate_fd(&mut files, 0, NewFDConstraint::Fixed(1), false)
        .unwrap();
    assert_eq!(id, 1);
    assert_eq!(closed, Some(other));
    assert_eq!(fd.get_open_file(), fds.get_fd(0).unwrap().get_open_file());
    assert_eq!(fds.get_fd(1).unwrap().get_open_file(), fd.get_open_file());
    assert_eq!(files.get_total(), 2);
}

#[test]
fn duplicate_of_a_missing_descriptor() {
    let mut files = open_files();
    let mut fds = FileDescriptorTable::new();
    assert_eq!(
        fds.duplicate_fd(&mut files, 3, NewFDConstraint::Any, false).err(),
        Some(Errno::EBADF)
    );
    assert_eq!(
        fds.duplicate_fd(&mut files, -3, NewFDConstraint::Fixed(2), false).err(),
        Some(Errno::EBADF)
    );
}

#[test]
fn table_copy_drops_cloexec_descriptors() {
    let mut files = open_files();
    let mut fds = FileDescriptorTable::new();
    fds.create_fd(&mut files, 0, dummy_open_file()).unwrap();
    fds.create_fd(&mut files, FD_CLOEXEC, dummy_open_file()).unwrap();
    fds.create_fd(&mut files, 0, dummy_open_file()).unwrap();
    assert_eq!(fds.count_kept(true), 2);
    assert_eq!(fds.count_kept(false), 3);
    let copy = fds.duplicate(&mut files, true).unwrap();
    assert!(copy.get_fd(0).is_ok());
    assert!(copy.get_fd(1).is_err());
    assert!(copy.get_fd(2).is_ok());
    assert_eq!(files.get_total(), 5);
    fds.set_fd_flags(1, 0).unwrap();
    assert_eq!(fds.get_fd(1).unwrap().flags, 0);
    assert_eq!(fds.set_fd_flags(5, 0), Err(Errno::EBADF));
    assert_eq!(fds.count_kept(true), 3);
}

#[test]
fn descriptor_changed_in_place() {
    let mut files = open_files();
    let mut fds = FileDescriptorTable::new();
    fds.create_fd(&mut files, 0, dummy_open_file()).unwrap();
    fds.create_fd(&mut files, 0, dummy_open_file()).unwrap();
    fds.get_fd_mut(1).unwrap().flags = FD_CLOEXEC;
    assert_eq!(fds.get_fd(1).unwrap().flags, FD_CLOEXEC);
    assert_eq!(fds.get_fd(0).unwrap().flags, 0);
    assert_eq!(fds.get_fd_mut(2).err(), Some(Errno::EBADF));
    assert_eq!(fds.get_fd_mut(-1).err(), Some(Errno::EBADF));
}
