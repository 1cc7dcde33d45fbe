use linux_object::block_mount::BlockByteDevice;
use linux_object::btrfs_mount::{
    btrfs_kind, map_err, probe_btrfs_superblock, read_link, vfs_type, Action, Begin, BtrfsError,
    BtrfsMountFs,
    BtrfsMountINode, CachedDirEntry, DevAdapter, EntryAt, FileKind, FlushStep, InodeStat, Named,
    ReadFrom, VolumeStat, WriteStep, IO_CHUNK_BYTES, WRITE_BUF_FLUSH,
};
use linux_object::device::{Contents, DevError, Device, Position, RamBlock};
use linux_object::error::{FsError, LxError};
use linux_object::fat_mount::{
    fat_error, fnv1a_path, resize, FatDisk, FatEntry, FatFailure, FatMountFs, FatMountINode,
    FatResize, FatStats, FIRST_FAT_DEV,
};
use linux_object::file::SeekFrom;
use linux_object::flags::OpenFlags;
use linux_object::mount_backend::{
    backend_size, device_from_backend, Block, MountBackend,
};
use linux_object::perf::{
    PerfEvents, PerfInner, RingMap, RingWrite, Sample, PERF_EVENT_IOC_DISABLE,
    PERF_EVENT_IOC_ENABLE, PERF_EVENT_IOC_ID, PERF_EVENT_IOC_PERIOD, PERF_EVENT_IOC_RESET,
};
use linux_object::vfs::{node_metadata, FileType, PollStatus};

/// A device that fails transfers above a size.
struct Fussy {
    data: Vec<u8>,
    most: usize,
}

impl Device for Fussy {
    fn contents(&self) -> Contents {
        unreachable!()
    }

    fn reliable(&self) -> bool {
        unreachable!()
    }

    fn takes(&self, _n: Position) -> bool {
        unreachable!()
    }

    fn sound_at(&self, _i: Position) -> bool {
        unreachable!()
    }

    fn inv(&self) -> bool {
        unreachable!()
    }

    fn read_at(&mut self, offset: usize, buf: &mut [u8]) -> Result<usize, DevError> {
        if buf.len() > self.most || offset + buf.len() > self.data.len() {
            return Err(DevError);
        }
        buf.copy_from_slice(&self.data[offset..offset + buf.len()]);
        Ok(buf.len())
    }

    fn write_at(&mut self, offset: usize, buf: &[u8]) -> Result<usize, DevError> {
        if buf.len() > self.most || offset + buf.len() > self.data.len() {
            return Err(DevError);
        }
        self.data[offset..offset + buf.len()].copy_from_slice(buf);
        Ok(buf.len())
    }

    fn sync(&mut self) -> Result<(), DevError> {
        Ok(())
    }
}

#[test]
fn large_transfers_shrink_until_they_work() {
    let size = 400_000;
    let mut a = DevAdapter::new(Fussy { data: vec![0u8; size], most: 20_000 }, size as u64);
    let bytes: Vec<u8> = (0..300_000usize).map(|i| (i % 251) as u8).collect();
    assert_eq!(a.max_xfer, IO_CHUNK_BYTES);
    assert_eq!(a.write_at(1000, &bytes), Ok(()));
    assert_eq!(a.max_xfer, 16384);
    let mut got = vec![0u8; 300_000];
    assert_eq!(a.read_at(1000, &mut got), Ok(()));
    assert_eq!(got, bytes);
    assert_eq!(a.size(), size as u64);
    assert_eq!(a.sync(), Ok(()));
    let mut dead = DevAdapter::new(Fussy { data: vec![0u8; 4096], most: 0 }, 4096);
    assert_eq!(dead.read_at(0, &mut got[..10]), Err(BtrfsError::Io));
    assert_eq!(dead.write_at(0, &[1]), Err(BtrfsError::Io));
}

/// A device that fails some requests, each a few times over, and all above a size.
struct Shaky {
    data: Vec<u8>,
    most: usize,
    misses: usize,
}

impl Shaky {
    fn fails(&mut self, len: usize) -> bool {
        if len > self.most {
            return true;
        }
        if self.misses > 0 {
            self.misses -= 1;
            return true;
        }
        false
    }
}

impl Device for Shaky {
    fn contents(&self) -> Contents {
        unreachable!()
    }

    fn reliable(&self) -> bool {
        unreachable!()
    }

    fn takes(&self, _n: Position) -> bool {
        unreachable!()
    }

    fn sound_at(&self, _i: Position) -> bool {
        unreachable!()
    }

    fn inv(&self) -> bool {
        unreachable!()
    }

    fn read_at(&mut self, offset: usize, buf: &mut [u8]) -> Result<usize, DevError> {
        if self.fails(buf.len()) {
            return Err(DevError);
        }
        buf.copy_from_slice(&self.data[offset..offset + buf.len()]);
        Ok(buf.len())
    }

    fn write_at(&mut self, offset: usize, buf: &[u8]) -> Result<usize, DevError> {
        if self.fails(buf.len()) {
            self.data[offset..offset + buf.len()].fill(0xee);
            return Err(DevError);
        }
        self.data[offset..offset + buf.len()].copy_from_slice(buf);
        Ok(buf.len())
    }

    fn sync(&mut self) -> Result<(), DevError> {
        Ok(())
    }
}

#[test]
fn a_large_write_is_completed_piece_by_piece() {
    let bytes: Vec<u8> = (0..9_001usize).map(|i| (i % 239) as u8).collect();
    for (most, misses, max_xfer) in [(usize::MAX, 4, IO_CHUNK_BYTES), (700, 0, 562), (512, 3, 512)] {
        let shaky = Shaky { data: vec![1u8; 20_000], most, misses };
        let mut a = DevAdapter::new(shaky, 20_000);
        assert_eq!(a.write_at(777, &bytes), Ok(()));
        assert_eq!(a.max_xfer, max_xfer);
        assert_eq!(a.inner.data[777..9_778], bytes[..]);
        assert!(a.inner.data[..777].iter().all(|b| *b == 1));
        assert!(a.inner.data[9_778..].iter().all(|b| *b == 1));
        a.inner.misses = 4;
        let mut got = vec![0u8; 9_001];
        assert_eq!(a.read_at(777, &mut got), Ok(()));
        assert_eq!((got, a.max_xfer), (bytes.clone(), max_xfer));
    }
}

#[test]
fn volume_errors_and_kinds_convert() {
    assert_eq!(map_err(BtrfsError::BadSuperblock), FsError::WrongFs);
    assert_eq!(map_err(BtrfsError::NotEmpty), FsError::DirNotEmpty);
    assert_eq!(map_err(BtrfsError::NoSpace), FsError::NoDeviceSpace);
    assert_eq!(map_err(BtrfsError::Invalid), FsError::InvalidParam);
    assert_eq!(map_err(BtrfsError::Unsupported), FsError::NotSupported);
    assert_eq!(vfs_type(FileKind::Fifo), FileType::NamedPipe);
    assert_eq!(btrfs_kind(FileType::SymLink), FileKind::Symlink);
}

#[test]
fn small_writes_are_gathered() {
    let mut fs = BtrfsMountFs::new();
    let f = BtrfsMountINode { ino: 5, kind: None };
    assert!(matches!(f.write_at(&mut fs, 0, b""), WriteStep::Done(0)));
    assert!(matches!(f.write_at(&mut fs, 0, b"ab"), WriteStep::AskKind));
    assert!(matches!(
        f.write_kind(&mut fs, Ok(FileKind::Regular), 0, b"ab"),
        WriteStep::Start(None)
    ));
    assert!(fs.write_buf.is_none());
    assert_eq!(f.write_started(&mut fs, Ok(()), 0, b"ab"), Ok(2));
    assert!(matches!(f.write_at(&mut fs, 2, b"cd"), WriteStep::Done(2)));
    assert_eq!(fs.buffered_end(5), Some(4));
    assert_eq!(fs.buffered_end(6), None);
    let g = BtrfsMountINode { ino: 6, kind: None };
    assert!(matches!(g.write_at(&mut fs, 4, b"x"), WriteStep::AskKind));
    match g.write_kind(&mut fs, Ok(FileKind::Regular), 4, b"x") {
        WriteStep::Start(Some(p)) => {
            assert_eq!((p.ino, p.start, p.data), (5, 0, b"abcd".to_vec()));
        }
        _ => panic!("the other file's bytes land first"),
    }
    assert_eq!(
        g.write_started(&mut fs, Err(FsError::DeviceError), 4, b"x"),
        Err(FsError::DeviceError)
    );
    assert!(fs.write_buf.is_none());
    assert_eq!(g.write_started(&mut fs, Ok(()), 4, b"x"), Ok(1));
    assert!(fs.flush_inode(5).is_none());
    assert_eq!(fs.flush_inode(6).unwrap().data, b"x".to_vec());
    assert!(fs.flush_any().is_none());
}

#[test]
fn full_buffers_and_large_writes_go_out() {
    let mut fs = BtrfsMountFs::new();
    let f = BtrfsMountINode { ino: 5, kind: None };
    let half = vec![1u8; WRITE_BUF_FLUSH / 2];
    f.write_kind(&mut fs, Ok(FileKind::Regular), 0, &half);
    assert_eq!(f.write_started(&mut fs, Ok(()), 0, &half), Ok(half.len()));
    match f.write_at(&mut fs, half.len() as u64, &half) {
        WriteStep::FlushFull(p, n) => assert_eq!((p.data.len(), n), (WRITE_BUF_FLUSH, half.len())),
        _ => panic!("a full buffer goes out"),
    }
    let large = vec![2u8; WRITE_BUF_FLUSH];
    assert!(matches!(
        f.write_kind(&mut fs, Ok(FileKind::Regular), 0, &large),
        WriteStep::Through(None)
    ));
    assert!(matches!(
        f.write_kind(&mut fs, Ok(FileKind::Dir), 0, b"x"),
        WriteStep::Failed(FsError::IsDir)
    ));
    assert!(matches!(
        f.write_kind(&mut fs, Ok(FileKind::Symlink), 0, b"x"),
        WriteStep::Link(None)
    ));
    assert!(matches!(
        f.write_kind(&mut fs, Err(BtrfsError::NotFound), 0, b"x"),
        WriteStep::Failed(FsError::EntryNotFound)
    ));
    let pw = linux_object::btrfs_mount::PendingWrite { ino: 1, start: 0, data: vec![0; 10] };
    assert_eq!(BtrfsMountFs::flush_pending(&pw, 0, Ok(4)), FlushStep::More(4));
    assert_eq!(BtrfsMountFs::flush_pending(&pw, 4, Ok(6)), FlushStep::Done);
    assert_eq!(
        BtrfsMountFs::flush_pending(&pw, 0, Ok(0)),
        FlushStep::Failed(FsError::DeviceError)
    );
}

fn stat() -> InodeStat {
    InodeStat {
        ino: 5,
        size: 3,
        nbytes: 513,
        atime: (1, 2),
        mtime: (3, 4),
        ctime: (5, 6),
        kind: FileKind::Regular,
        mode: 0o100644,
        nlink: 1,
        uid: 7,
        gid: 8,
        rdev: 0,
    }
}

#[test]
fn gathered_bytes_count_in_the_size() {
    let mut fs = BtrfsMountFs::new();
    let mut f = BtrfsMountINode { ino: 5, kind: None };
    let m = f.metadata(&fs, Ok(stat())).unwrap();
    assert_eq!((m.size, m.blocks, m.mode, m.type_), (3, 2, 0o644, FileType::File));
    assert_eq!(f.write_started(&mut fs, Ok(()), 1000, b"0123456789"), Ok(10));
    let m = f.metadata(&fs, Ok(stat())).unwrap();
    assert_eq!((m.size, m.blocks), (1010, 2));
    assert_eq!(f.metadata(&fs, Err(BtrfsError::Corrupt)), Err(FsError::DeviceError));
    let u = f.set_metadata(Ok(()), &m).unwrap();
    assert_eq!((u.mode, u.uid, u.gid, u.atime, u.mtime), (0o644, 7, 8, (1, 2), (3, 4)));
    assert_eq!(f.kind(Ok(FileKind::Regular)), Ok(FileKind::Regular));
    assert_eq!(f.kind(Err(BtrfsError::Io)), Ok(FileKind::Regular));
    assert_eq!(f.read_at(Ok(()), Ok(FileKind::Dir)), Err(FsError::IsDir));
    assert_eq!(f.read_at(Ok(()), Ok(FileKind::Symlink)), Ok(ReadFrom::Link));
    assert_eq!(
        f.read_at(Err(FsError::NoDeviceSpace), Ok(FileKind::Regular)),
        Err(FsError::NoDeviceSpace)
    );
    assert_eq!(
        f.poll(Ok(FileKind::Dir)),
        Ok(PollStatus { read: true, write: false, error: false })
    );
    assert_eq!(read_link(b"target", 2, 3), b"rge".to_vec());
    assert!(read_link(b"target", 6, 3).is_empty());
    let i = fs.info(VolumeStat { block_size: 4096, total_bytes: 40960, bytes_used: 8192 });
    assert_eq!((i.bsize, i.blocks, i.bfree), (4096, 10, 8));
}

#[test]
fn listings_are_kept_until_their_directory_changes() {
    let mut fs = BtrfsMountFs::new();
    let d = BtrfsMountINode { ino: 2, kind: None };
    assert!(fs.cached_readdir(2).is_none());
    fs.remember_dir(2, vec![CachedDirEntry { name: "a".to_string(), ino: 10 }]);
    fs.remember_dir(3, vec![]);
    let entries = fs.cached_readdir(2).unwrap();
    assert!(matches!(d.get_entry_with_metadata(0, entries), Ok(EntryAt::This(s)) if s == "."));
    assert!(matches!(d.get_entry_with_metadata(2, entries), Ok(EntryAt::Child(10, s)) if s == "a"));
    assert!(matches!(d.get_entry_with_metadata(3, entries), Err(FsError::EntryNotFound)));
    assert_eq!(d.create2(&mut fs, Ok(()), Err(BtrfsError::Exists)), Err(FsError::EntryExist));
    assert!(fs.cached_readdir(2).is_some());
    assert_eq!(d.create2(&mut fs, Ok(()), Ok(11)), Ok(BtrfsMountINode { ino: 11, kind: None }));
    assert!(fs.cached_readdir(2).is_none());
    assert!(fs.cached_readdir(3).is_some());
    assert_eq!(d.move_(&mut fs, 3, Ok(()), Ok(())), Ok(()));
    assert!(fs.cached_readdir(3).is_none());
    assert_eq!(d.unlink(&mut fs, Ok(()), Err(BtrfsError::NotEmpty)), Err(FsError::DirNotEmpty));
    assert_eq!(d.link(&mut fs, Ok(()), Ok(())), Ok(()));
    fs.remember_dir(2, vec![]);
    assert_eq!(
        d.create2(&mut fs, Err(FsError::DeviceError), Ok(12)),
        Err(FsError::DeviceError)
    );
    assert!(fs.cached_readdir(2).is_some());
    assert_eq!(d.find("."), Ok(Named::This));
    assert_eq!(d.find(".."), Err(FsError::EntryNotFound));
    assert_eq!(d.find("x"), Ok(Named::Child));
}

#[test]
fn gathered_bytes_land_before_an_action() {
    let mut fs = BtrfsMountFs::new();
    let f = BtrfsMountINode { ino: 5, kind: None };
    let g = BtrfsMountINode { ino: 6, kind: None };
    assert!(matches!(f.begin(&mut fs, Action::Read), Begin::Go));
    for act in [Action::Read, Action::SetMetadata, Action::Resize] {
        f.write_started(&mut fs, Ok(()), 0, b"ab").unwrap();
        assert!(matches!(g.begin(&mut fs, act), Begin::Go));
        assert!(matches!(f.begin(&mut fs, act), Begin::Flush(p) if p.data == b"ab"));
        assert!(fs.write_buf.is_none());
    }
    for act in [
        Action::Create,
        Action::Unlink,
        Action::Link { same_fs: true },
        Action::Move { same_fs: true },
        Action::Sync,
    ] {
        f.write_started(&mut fs, Ok(()), 0, b"ab").unwrap();
        assert!(matches!(g.begin(&mut fs, act), Begin::Flush(p) if p.ino == 5));
        assert!(matches!(g.begin(&mut fs, act), Begin::Go));
    }
    assert!(matches!(
        f.begin(&mut fs, Action::Link { same_fs: false }),
        Begin::Refused(FsError::NotSameFs)
    ));
    assert!(matches!(
        f.begin(&mut fs, Action::Move { same_fs: false }),
        Begin::Refused(FsError::NotSameFs)
    ));
    assert_eq!(f.resize(Ok(()), 77), Ok(77));
    assert_eq!(f.resize(Err(FsError::DeviceError), 77), Err(FsError::DeviceError));
    assert_eq!(f.finish(Ok(()), Err(BtrfsError::NoSpace)), Err(FsError::NoDeviceSpace));
    assert_eq!(f.write_done(Ok(()), Ok(9)), Ok(9));
    assert_eq!(f.write_done(Err(FsError::DeviceError), Ok(9)), Err(FsError::DeviceError));
    assert_eq!(f.write_done(Ok(()), Err(BtrfsError::IsDir)), Err(FsError::IsDir));
}

#[test]
fn a_volume_is_known_by_its_superblock() {
    let mut d = vec![0u8; 0x20000];
    assert!(!probe_btrfs_superblock(&RamBlock::new(d.clone())));
    d[0x10040..0x10048].copy_from_slice(&0x4D5F53665248425Fu64.to_le_bytes());
    d[0x10088..0x10090].copy_from_slice(&1u64.to_le_bytes());
    d[0x10070..0x10078].copy_from_slice(&0x20000u64.to_le_bytes());
    assert!(probe_btrfs_superblock(&RamBlock::new(d.clone())));
    d[0x10070..0x10078].copy_from_slice(&0x40001u64.to_le_bytes());
    assert!(!probe_btrfs_superblock(&RamBlock::new(d.clone())));
    d[0x10070..0x10078].copy_from_slice(&0x20000u64.to_le_bytes());
    d[0x10088] = 2;
    assert!(!probe_btrfs_superblock(&RamBlock::new(d)));
}

type Backend = MountBackend<RamBlock, BlockByteDevice<RamBlock>>;

#[test]
fn the_fat_disk_reads_and_writes_from_its_position() {
    let backend: Backend = MountBackend::Block(RamBlock::new(vec![0u8; 2048]));
    assert_eq!(backend_size(&backend), 2048);
    let mut d = FatDisk::new(backend);
    assert_eq!(d.seek(SeekFrom::Start(510)), 510);
    assert_eq!(d.write(&[1, 2, 3, 4]).ok(), Some(4));
    assert_eq!(d.pos, 514);
    assert_eq!(d.seek(SeekFrom::Current(-3)), 511);
    let mut buf = [0u8; 3];
    assert_eq!(d.read(&mut buf).ok(), Some(3));
    assert_eq!(buf, [2, 3, 4]);
    assert_eq!(d.seek(SeekFrom::End(-1)), 2047);
    assert!(d.read(&mut buf).is_err());
    assert_eq!(d.pos, 2047);
    assert_eq!(d.len(), 2048);
    let file: Backend =
        MountBackend::File(BlockByteDevice::new(RamBlock::new(vec![7u8; 1024])), 1024);
    let mut d = FatDisk::new(file);
    d.seek(SeekFrom::Start(1022));
    assert_eq!(d.read(&mut buf).ok(), Some(2));
    assert_eq!(d.write(&[1]).ok(), Some(0));
}

#[test]
fn fat_names_ignore_case() {
    let root = FatMountFs::open(&mut FIRST_FAT_DEV.clone()).root_inode();
    let list = [
        FatEntry::Entry { name: "EFI".to_string(), is_dir: true },
        FatEntry::Entry { name: "BOOTX64.EFI".to_string(), is_dir: false },
    ];
    let n = root.find("BootX64.efi", &list).ok().unwrap();
    assert_eq!((n.path.as_str(), n.is_dir), ("BOOTX64.EFI", false));
    let dir = root.find("efi", &list).ok().unwrap();
    assert_eq!(dir.child_path("x"), "EFI/x");
    assert!(matches!(root.find("..", &list), Err(FsError::EntryNotFound)));
    assert!(matches!(root.find("none", &list), Err(FsError::EntryNotFound)));
    assert!(matches!(root.find("none", &[FatEntry::Unreadable]), Err(FsError::DeviceError)));
    assert_eq!(root.get_entry(0, &list), Ok(".".to_string()));
    assert_eq!(root.get_entry(3, &list), Ok("BOOTX64.EFI".to_string()));
    assert_eq!(root.get_entry(4, &list), Err(FsError::EntryNotFound));
    assert!(matches!(n.create("x", FileType::File), Err(FsError::NotDir)));
    assert!(matches!(root.create("x", FileType::SymLink), Err(FsError::NotSupported)));
    assert_eq!(root.create("x", FileType::Dir).ok().unwrap().path, "x");
    assert_eq!(n.check_file(), Ok(()));
    assert_eq!(root.check_file(), Err(FsError::IsDir));
    assert_eq!(n.check_dir(), Err(FsError::NotDir));
    let m = n.metadata(FIRST_FAT_DEV, 1000);
    assert_eq!((m.size, m.blocks, m.mode), (1000, 2, 0o644));
    assert_eq!(m.inode as u64, fnv1a_path("BOOTX64.EFI"));
}

#[test]
fn fat_mounts_have_numbers_and_sizes() {
    let mut counter = FIRST_FAT_DEV;
    let a = FatMountFs::open(&mut counter);
    let b = FatMountFs::open(&mut counter);
    assert_eq!((a.dev, b.dev), (0xFA70_0000, 0xFA70_0001));
    let s = FatStats { cluster_size: 4096, total_clusters: 10, free_clusters: 3 };
    assert_eq!(a.info(Some(s)).bfree, 3);
    assert_eq!(a.info(None).bsize, 512);
    assert_eq!(fnv1a_path(""), 0xcbf2_9ce4_8422_2325);
    assert_eq!(fnv1a_path("a"), 0xaf63_dc4c_8601_ec8c);
    assert_eq!(resize(5, 9), FatResize::Extend(8));
    assert_eq!(resize(9, 5), FatResize::Truncate(5));
    assert_eq!(resize(5, 5), FatResize::Nothing);
    assert_eq!(fat_error(FatFailure::Create), FsError::NoDeviceSpace);
    assert_eq!(fat_error(FatFailure::RemoveNotEmpty), FsError::DirNotEmpty);
    let _ = FatMountINode { path: "x".to_string(), is_dir: false }.poll();
}

#[test]
fn a_mount_reads_its_backend() {
    let file = || BlockByteDevice::new(RamBlock::new(vec![0u8; 512]));
    let disk = || RamBlock::new(vec![0u8; 512]);
    let meta = |t: FileType| Ok(node_metadata(0, 1, t, 0, 0));
    assert!(matches!(
        Backend::from_inode(meta(FileType::BlockDevice), Some(disk()), file()),
        Ok(MountBackend::Block(_))
    ));
    assert!(matches!(
        Backend::from_inode(meta(FileType::BlockDevice), None, file()),
        Err(FsError::NotSupported)
    ));
    assert!(matches!(
        Backend::from_inode(meta(FileType::File), None, file()),
        Ok(MountBackend::File(_, 0))
    ));
    assert!(Backend::from_inode(meta(FileType::Dir), None, file()).is_err());
    assert!(matches!(
        Backend::from_inode(Err(FsError::Busy), None, file()),
        Err(FsError::Busy)
    ));
    let backend: Backend = MountBackend::Block(RamBlock::new(vec![4u8; 4096]));
    let mut d = device_from_backend(backend);
    let mut buf = [0u8; 8];
    assert_eq!(d.read_at(100, &mut buf).ok(), Some(8));
    assert_eq!(buf, [4u8; 8]);
    assert_eq!(d.write_at(100, &[9]).ok(), Some(1));
    assert_eq!(d.read_at(100, &mut buf).ok(), Some(8));
    assert_eq!(buf[0], 9);
    assert!(d.sync().is_ok());
    let mut b = Block::new(RamBlock::new(vec![1u8; 1024]));
    let mut sector = [0u8; 512];
    assert!(b.read_at(1, &mut sector).is_ok());
    assert!(b.read_at(2, &mut sector).is_err());
    assert!(b.write_at(0, &[2u8; 512]).is_ok());
    assert!(b.sync().is_ok());
}

fn attr(sample_type: u64, period: u64, flags: u64) -> Vec<u8> {
    let mut a = vec![0u8; 64];
    a[16..24].copy_from_slice(&period.to_le_bytes());
    a[24..32].copy_from_slice(&sample_type.to_le_bytes());
    a[40..48].copy_from_slice(&flags.to_le_bytes());
    a
}

fn apply(mem: &mut [u8], w: &[RingWrite]) {
    for x in w {
        mem[x.at..x.at + x.data.len()].copy_from_slice(&x.data);
    }
}

#[test]
fn an_event_is_described_by_its_attribute() {
    let e = PerfInner::new(&attr(1, 0, 0), 3);
    assert_eq!((e.period, e.enabled, e.id), (1, true, 3));
    let e = PerfInner::new(&attr(1, 500, 1), 3);
    assert_eq!((e.period, e.enabled), (500, false));
    assert_eq!(PerfInner::new(&attr(1, 500, 0x400), 3).period, 1);
    assert_eq!(PerfInner::new(&[], 3).sample_type, 0);
}

#[test]
fn samples_go_round_the_ring() {
    let mut e = PerfInner::new(&attr(0x1 | 0x2, 1, 0), 3);
    let s = Sample { pid: 10, tid: 11, cpu: 0, ip: 0x1234, time_ns: 5 };
    assert!(e.record_sample(0, &s).is_empty());
    assert_eq!(e.get_vmo(4096, 8192).err(), Some(LxError::EINVAL));
    assert_eq!(e.get_vmo(0, 4096).err(), Some(LxError::EINVAL));
    let mut mem = match e.get_vmo(0, 8192) {
        Ok(RingMap::Fresh { pages, writes }) => {
            let mut mem = vec![0u8; pages * 4096];
            apply(&mut mem, &writes);
            mem
        }
        _ => panic!("a fresh ring"),
    };
    assert!(matches!(e.get_vmo(0, 8192), Ok(RingMap::Existing)));
    assert_eq!(&mem[1048..1056], &4096u64.to_le_bytes());
    let w = e.record_sample(0, &s);
    apply(&mut mem, &w);
    assert_eq!(&mem[1024..1032], &24u64.to_le_bytes());
    assert_eq!(&mem[4096..4104], &[9, 0, 0, 0, 2, 0, 24, 0]);
    assert_eq!(&mem[4104..4112], &0x1234u64.to_le_bytes());
    assert_eq!(&mem[4112..4120], &[10, 0, 0, 0, 11, 0, 0, 0]);
    assert!(e.has_data(0) && !e.has_data(24));
    for _ in 0..170 {
        e.record_sample(0, &s);
    }
    assert_eq!((e.data_head, e.lost), (170 * 24, 1));
    let w = e.record_sample(170 * 24, &s);
    assert_eq!(w.len(), 3);
    assert_eq!((w[0].at, w[0].data.len()), (4096 + 4080, 16));
    assert_eq!((w[1].at, w[1].data.len()), (4096, 8));
    assert_eq!(e.read(64), 172u64.to_le_bytes().to_vec());
}

#[test]
fn a_sample_reaches_the_events_bound_to_it() {
    let mut all = PerfEvents::new();
    let id = all.open(&attr(1, 1, 0), -1, 2, OpenFlags { bits: 0 });
    assert_eq!(id, 1);
    all.open(&attr(1, 1, 0), 99, -1, OpenFlags { bits: 0 });
    all.open(&attr(1, 1, 1), -1, -1, OpenFlags { bits: 0 });
    for k in 0..3 {
        let _ = all.events[k].inner.get_vmo(0, 8192);
    }
    let s = Sample { pid: 10, tid: 11, cpu: 2, ip: 1, time_ns: 0 };
    let w = all.sample_user(&s, &[0, 0, 0]);
    assert_eq!(w.iter().map(|v| v.len()).collect::<Vec<_>>(), vec![2, 0, 0]);
    assert!(all.any_enabled);
    assert_eq!(all.ioctl(0, PERF_EVENT_IOC_DISABLE, 0, None), Ok(None));
    assert_eq!(all.ioctl(1, PERF_EVENT_IOC_DISABLE, 0, None), Ok(None));
    all.sample_user(&s, &[0, 0, 0]);
    assert!(!all.any_enabled);
    assert_eq!(all.ioctl(2, PERF_EVENT_IOC_ENABLE, 0, None), Ok(None));
    assert!(all.any_enabled);
    assert_eq!(all.ioctl(2, PERF_EVENT_IOC_ID, 8, None), Ok(Some(3)));
    assert_eq!(all.ioctl(2, PERF_EVENT_IOC_PERIOD, 8, Some(0)), Ok(None));
    assert_eq!(all.events[2].inner.period, 1);
    assert_eq!(all.ioctl(0, PERF_EVENT_IOC_RESET, 0, None), Ok(None));
    assert_eq!(all.events[0].inner.count, 0);
    assert_eq!(all.ioctl(0, 1, 0, None), Err(LxError::ENOTTY));
    assert_eq!(all.events[0].inner.write(), Err(LxError::EINVAL));
}
