use linux_object::block_mount::{BlockByteDevice, FileByteDevice};
use linux_object::boot_trace::{
    enabled, preload_list, record_open, record_syscall, render, row_times, set_target, BootTrace,
    RowText, MAX_RECS,
};
use linux_object::bytes::{get_u16, get_u32, get_u64, low32, max_usize, min_usize, push_u16, push_u32, push_u64};
use linux_object::device::{Contents, DevError, Device, MemBuf, Position, RamBlock};
use linux_object::dmabuf::DmaBuf;
use linux_object::elf_cache::{
    elf_cache_key, read_as_vmo, read_as_vmo_cached, ElfVmoCache, Image, ELF_VMO_CACHE_FILE_MAX,
};
use linux_object::error::{FsError, LxError};
use linux_object::eventfd::{CountStep, EventFd, EFD_SEMAPHORE};
use linux_object::file::{fill_page, poll_override, File, FileInner, ReadStep, SeekFrom};
use linux_object::flags::{
    poll_answered, poll_events_to_bus_mask, OpenFlags, PollEvents, O_APPEND, O_CLOEXEC,
    O_NON_BLOCK, O_RDONLY, O_RDWR, O_WRONLY, POLL_IN, POLL_OUT,
};
use linux_object::inotify::{Inotify, QuietRead};
use linux_object::memfd::{
    memfd_dump_live, memfd_stats, new_memfd, register_memfd, MemfdRef, MemfdRegistry, MFD_CLOEXEC,
};
use linux_object::page_cache::{
    cache_key, get_vmo, get_vmo_shared, map_private, map_shared, worth_writing, writeback_shared_vmo, CacheVmo, Holders,
    MapDevice, MapPlan, MapTarget, PageCache, SharedPlan,
};
use linux_object::pidfd::{ExitWait, PidFd};
use linux_object::signalfd::{SignalFd, SignalRead, SIGINFO_SIZE};
use linux_object::vfs::{node_metadata, FileType, PollStatus};

fn flags(bits: usize) -> OpenFlags {
    OpenFlags { bits }
}

#[test]
fn access_modes_are_read_from_the_low_bits() {
    assert!(flags(O_RDONLY).readable() && !flags(O_RDONLY).writable());
    assert!(!flags(O_WRONLY).readable() && flags(O_WRONLY).writable());
    assert!(flags(O_RDWR).readable() && flags(O_RDWR).writable());
    let mut f = flags(O_RDWR);
    f.set(O_APPEND, true);
    f.set(O_CLOEXEC, true);
    assert!(f.is_append() && f.close_on_exec() && !f.non_block());
    f.set(O_APPEND, false);
    assert_eq!(f, flags(O_RDWR | O_CLOEXEC));
}

#[test]
fn a_hangup_always_wakes() {
    let m = poll_events_to_bus_mask(PollEvents { bits: POLL_IN });
    assert!(m.readable && !m.writable && m.error && m.closed);
    let m = poll_events_to_bus_mask(PollEvents { bits: POLL_OUT });
    assert!(!m.readable && m.writable && m.error && m.closed);
    let s = PollStatus { read: true, write: false, error: false };
    assert!(poll_answered(PollEvents { bits: POLL_IN }, s));
    assert!(!poll_answered(PollEvents { bits: POLL_OUT }, s));
    assert_eq!(PollEvents::from_bits_truncate(0xffff).bits, 0x3d);
}

#[test]
fn seeks_stay_in_range() {
    let mut f = File::new(flags(O_RDWR), "/a".to_string());
    assert_eq!(f.seek(SeekFrom::End(-4), Ok(10)), Ok(6));
    assert_eq!(f.seek(SeekFrom::Current(3), Err(FsError::DeviceError)), Ok(9));
    assert_eq!(f.seek(SeekFrom::Current(-10), Ok(0)), Err(LxError::EINVAL));
    assert_eq!(f.seek(SeekFrom::Start(u64::MAX), Ok(0)), Err(LxError::EINVAL));
    assert_eq!(f.seek(SeekFrom::Current(i64::MAX), Ok(0)), Err(LxError::EINVAL));
    assert_eq!(f.seek(SeekFrom::End(0), Err(FsError::NotSupported)), Err(LxError::ENOSYS));
    assert_eq!(f.inner.offset, 9);
    assert_eq!(f.path(), "/a");
    assert_eq!(f.dup().inner.offset, 9);
    assert_eq!(f.set_len(), Ok(()));
    assert_eq!(File::new(flags(O_RDONLY), "/a".to_string()).set_len(), Err(LxError::EBADF));
}

#[test]
fn appending_writes_at_the_end() {
    let mut f = FileInner::new(flags(O_WRONLY | O_APPEND));
    assert_eq!(f.write_offset(Ok(100)), Ok(100));
    assert_eq!(f.write_done(100, Ok(5)), Ok(5));
    assert_eq!(f.offset, 105);
    let g = FileInner { offset: 7, flags: flags(O_WRONLY) };
    assert_eq!(g.write_offset(Ok(100)), Ok(7));
    assert_eq!(FileInner::new(flags(O_RDONLY)).write_offset(Ok(0)), Err(LxError::EBADF));
    assert_eq!(g.check_readable(), Err(LxError::EBADF));
    f.read_done(2);
    assert_eq!(f.offset, 107);
    assert_eq!(g.check_writable(), Ok(()));
}

#[test]
fn only_a_blocking_reader_waits() {
    let f = FileInner::new(flags(O_RDONLY));
    assert_eq!(f.read_step(Err(FsError::Again)), ReadStep::Wait);
    assert_eq!(f.read_step(Ok(3)), ReadStep::Done(3));
    let n = FileInner::new(flags(O_RDONLY | O_NON_BLOCK));
    assert_eq!(n.read_step(Err(FsError::Again)), ReadStep::Failed(LxError::EAGAIN));
}

#[test]
fn an_entry_without_metadata_is_still_listed() {
    let mut f = FileInner::new(flags(O_RDONLY));
    let m = f.read_entry_with_metadata(Err(FsError::EntryNotFound), true).unwrap();
    assert_eq!(m.type_, FileType::Dir);
    assert_eq!(f.offset, 1);
    assert_eq!(
        f.read_entry_with_metadata(Err(FsError::EntryNotFound), false),
        Err(LxError::ENOENT)
    );
    assert_eq!(f.offset, 1);
    let fifo = node_metadata(0, 1, FileType::NamedPipe, 0, 0);
    assert_eq!(poll_override(Some(fifo)), Some(PollStatus { read: false, write: true, error: false }));
    assert_eq!(poll_override(None), None);
}

#[test]
fn a_page_is_filled_as_far_as_the_file_goes() {
    let mut d = BlockByteDevice::new(RamBlock::new((0..1024u32).map(|i| i as u8).collect()));
    let mut page = vec![0xffu8; 4096];
    assert_eq!(fill_page(&mut d, 0, 1000, 0, &mut page), 1000);
    assert_eq!(page[999], 999u32 as u8);
}

/// A file that gives a few bytes at a time, and fails behind a point after it spoilt the buffer.
struct Clustered {
    data: Vec<u8>,
    cluster: usize,
    broken: usize,
}

impl Device for Clustered {
    fn contents(&self) -> Contents {
        unreachable!()
    }

    fn reliable(&self) -> bool {
        unreachable!()
    }

    fn takes(&self, _n: Position) -> bool {
        unreachable!()
    }

    fn sound_at(&self, _i: Position) -> bool {
        unreachable!()
    }

    fn inv(&self) -> bool {
        unreachable!()
    }

    fn read_at(&mut self, offset: usize, buf: &mut [u8]) -> Result<usize, DevError> {
        if offset >= self.broken {
            buf.fill(0xee);
            return Err(DevError);
        }
        let end = (offset / self.cluster + 1) * self.cluster;
        let n = buf.len().min(end.min(self.data.len()).saturating_sub(offset));
        buf[..n].copy_from_slice(&self.data[offset..offset + n]);
        Ok(n)
    }

    fn write_at(&mut self, _offset: usize, _buf: &[u8]) -> Result<usize, DevError> {
        Err(DevError)
    }

    fn sync(&mut self) -> Result<(), DevError> {
        Ok(())
    }
}

#[test]
fn short_reads_are_gone_on_with() {
    let data: Vec<u8> = (0..30_000u32).map(|i| (i % 241) as u8).collect();
    let mut f = Clustered { data: data.clone(), cluster: 1000, broken: usize::MAX };
    let mut page = vec![0u8; 4096];
    assert_eq!(fill_page(&mut f, 500, 29_500, 4096, &mut page), 4096);
    assert_eq!(page, data[4596..8692]);
    let mut last = vec![0u8; 4096];
    assert_eq!(fill_page(&mut f, 0, 30_100, 28_672, &mut last), 1328);
    assert_eq!(last[..1328], data[28_672..]);
    assert!(last[1328..].iter().all(|b| *b == 0));
    let (image, n) = read_as_vmo(&mut f, 30_000).ok().unwrap();
    assert_eq!((image, n), (data.clone(), 30_000));
    let mut broken = Clustered { data: data.clone(), cluster: 1000, broken: 2000 };
    let mut part = vec![0u8; 4096];
    assert_eq!(fill_page(&mut broken, 0, 4096, 0, &mut part), 2000);
    assert_eq!(part[..2000], data[..2000]);
    assert!(part[2000..].iter().all(|b| *b == 0));
}

#[test]
fn images_are_remembered_by_contents() {
    let mut m = node_metadata(1, 2, FileType::File, 0, 0);
    m.size = 4096;
    let k = elf_cache_key(&m).unwrap();
    let mut c = ElfVmoCache::new();
    assert_eq!(c.get(k), None);
    c.insert(k, 77);
    assert_eq!(c.get(k), Some(77));
    m.mtime.sec = 5;
    assert_eq!(c.get(elf_cache_key(&m).unwrap()), None);
    m.size = ELF_VMO_CACHE_FILE_MAX + 1;
    assert_eq!(elf_cache_key(&m), None);
    let mut d = BlockByteDevice::new(RamBlock::new(vec![3u8; 20480]));
    let (bytes, n) = read_as_vmo(&mut d, 20000).ok().unwrap();
    assert_eq!(n, 20000);
    assert!(bytes[..20000].iter().all(|b| *b == 3));
}

#[test]
fn an_executable_is_loaded_once() {
    let mut m = node_metadata(1, 2, FileType::File, 0, 0);
    m.size = 1000;
    let mut c = ElfVmoCache::new();
    let mut d = BlockByteDevice::new(RamBlock::new(vec![3u8; 1024]));
    assert!(matches!(
        read_as_vmo_cached(&mut c, &m, &mut d, 40),
        Ok(Image::Fresh(v, 1000)) if v == vec![3u8; 1000]
    ));
    assert!(matches!(read_as_vmo_cached(&mut c, &m, &mut d, 41), Ok(Image::Cached(40))));
    m.type_ = FileType::CharDevice;
    assert!(matches!(read_as_vmo_cached(&mut c, &m, &mut d, 42), Ok(Image::Fresh(..))));
    assert_eq!(c.images.len(), 1);
}

#[test]
fn mappers_of_a_file_share_its_pages() {
    let mut cache = PageCache::new();
    let key = cache_key(Some(9), 1, 555);
    assert!(matches!(
        cache.inode_cache_vmo(key, 5000, 0, 4096, true, 40),
        CacheVmo::Created { len: 8192, source_len: 5000 }
    ));
    assert!(matches!(cache.inode_cache_vmo(key, 5000, 4096, 4096, false, 41), CacheVmo::Existing(40)));
    assert!(cache.entries[0].shared);
    assert_ne!(cache_key(None, 1, 555), cache_key(None, 1, 556));
    let used = Holders { vmo_refs: 2, inode_refs: 1, nlinks: Some(1) };
    assert!(cache.prune_shared_vmos(&[used]).is_empty());
    assert_eq!(cache.entries.len(), 1);
    let idle = Holders { vmo_refs: 1, inode_refs: 1, nlinks: Some(1) };
    assert_eq!(cache.shared_file_vmo_stats(&[3]), (1, 12288));
    assert_eq!(cache.shared_file_vmo_refs(&[idle]), (1, 1, 1, 1));
    let flush = cache.prune_shared_vmos(&[idle]);
    assert_eq!((flush.len(), cache.entries.len()), (1, 0));
}

#[test]
fn mappings_are_planned_by_kind_of_file() {
    let mut cache = PageCache::new();
    let key = cache_key(Some(1), 1, 1);
    let file = MapTarget { key, type_: FileType::File, device: MapDevice::Other, size: 9000 };
    assert!(matches!(
        get_vmo_shared(&mut cache, file, 0, 4096, 7),
        Ok(SharedPlan::DirectNew { len: 12288, source_len: 9000, offset: 0 })
    ));
    assert!(matches!(get_vmo_shared(&mut cache, file, 4096, 4096, 8), Ok(SharedPlan::Direct(7, 4096))));
    let fb = MapTarget { type_: FileType::CharDevice, device: MapDevice::Framebuffer, ..file };
    assert!(matches!(get_vmo(&mut cache, fb, 0, 4096, 9), Ok(MapPlan::Framebuffer)));
}

#[test]
fn unused_pages_go_before_a_file_is_looked_up() {
    let used = Holders { vmo_refs: 2, inode_refs: 1, nlinks: Some(1) };
    let idle = Holders { vmo_refs: 1, inode_refs: 1, nlinks: Some(1) };
    let mut cache = PageCache::new();
    let a = cache_key(Some(1), 1, 1);
    let b = cache_key(Some(1), 1, 2);
    let of = |key| MapTarget { key, type_: FileType::File, device: MapDevice::Other, size: 4096 };
    let (flush, plan) = map_shared(&mut cache, &[], of(a), 0, 4096, 7);
    assert!(flush.is_empty() && matches!(plan, Ok(SharedPlan::DirectNew { .. })));
    let (flush, plan) = map_shared(&mut cache, &[used], of(a), 0, 4096, 8);
    assert!(flush.is_empty() && plan == Ok(SharedPlan::Direct(7, 0)));
    let (flush, plan) = map_private(&mut cache, &[idle], of(b), 0, 4096, 9);
    assert_eq!((flush.len(), flush[0].vmo, cache.entries.len()), (1, 7, 1));
    assert!(matches!(plan, Ok(MapPlan::BorrowNew { .. })));
    let (flush, plan) = map_private(&mut cache, &[idle], of(b), 1, 100, 9);
    assert!(flush.is_empty() && matches!(plan, Ok(MapPlan::Snapshot { .. })));
    assert_eq!(cache.entries.len(), 1);
    let (flush, found) = cache.lookup(&[idle], b, 4096, 0, 4096, false, 10);
    assert!(flush.is_empty() && matches!(found, CacheVmo::Created { .. }));
}

#[test]
fn only_touched_pages_inside_the_file_are_written_back() {
    assert_eq!(writeback_shared_vmo(5000, &[true, true]), vec![(0, 4096), (4096, 904)]);
    assert_eq!(writeback_shared_vmo(9000, &[false, true, false]), vec![(4096, 4096)]);
    assert!(!worth_writing(&[0, 0]));
    assert!(worth_writing(&[0, 1]));
}

#[test]
fn a_counter_is_taken_whole_or_one_by_one() {
    let mut e = EventFd::new(3, flags(0));
    assert_eq!(e.write(&4u64.to_ne_bytes()), Ok(8));
    let mut buf = [0u8; 8];
    assert_eq!(e.read(&mut buf), CountStep::Done(8));
    assert_eq!(u64::from_ne_bytes(buf), 7);
    assert_eq!(e.read(&mut buf), CountStep::Wait);
    assert_eq!(e.read(&mut buf[..7]), CountStep::Failed(LxError::EINVAL));
    assert_eq!(e.write(&u64::MAX.to_ne_bytes()), Err(LxError::EINVAL));
    assert_eq!(e.write(&(u64::MAX - 1).to_ne_bytes()), Ok(8));
    assert_eq!(e.write(&1u64.to_ne_bytes()), Err(LxError::EAGAIN));
    assert!(!e.poll().write);
    let mut s = EventFd::new(2, flags(EFD_SEMAPHORE | O_NON_BLOCK));
    assert_eq!(s.read(&mut buf), CountStep::Done(8));
    assert_eq!(u64::from_ne_bytes(buf), 1);
    assert_eq!(s.read(&mut buf), CountStep::Done(8));
    assert_eq!(s.read(&mut buf), CountStep::Failed(LxError::EAGAIN));
}

#[test]
fn watches_have_numbers_of_their_own() {
    let mut n = Inotify::new(flags(0));
    let a = n.add_watch("/a", 1);
    let b = n.add_watch("/b", 1);
    assert_ne!(a, b);
    assert_eq!(n.add_watch("/a", 2), a);
    assert_eq!(n.rm_watch(a as i32), Ok(0));
    assert_eq!(n.rm_watch(a as i32), Err(LxError::EINVAL));
    assert_eq!(n.read(), QuietRead::Park);
    assert_eq!(Inotify::new(flags(O_NON_BLOCK)).read(), QuietRead::Again);
}

#[test]
fn the_lowest_accepted_signal_is_read() {
    let mut s = SignalFd::new(0, flags(O_NON_BLOCK));
    assert_eq!(s.pending_matched(0xff), 0);
    s.set_mask(0b1010_0000);
    assert_eq!(s.pending_matched(0xff), 0b1010_0000);
    assert_eq!(s.consume_one(0b1111_0000), Some((6, 0b1101_0000)));
    assert_eq!(s.consume_one(0b0001_0000), None);
    match s.read(0b0010_0000, SIGINFO_SIZE) {
        SignalRead::Record(v, left) => {
            assert_eq!(v.len(), 128);
            assert_eq!(v[0], 6);
            assert_eq!(left, 0);
        }
        _ => panic!("a record"),
    }
    assert!(matches!(s.read(0, SIGINFO_SIZE), SignalRead::Failed(LxError::EAGAIN)));
    assert!(matches!(s.read(0xff, 12), SignalRead::Failed(LxError::EINVAL)));
    assert!(s.poll(0xff).read);
}

#[test]
fn a_process_descriptor_is_readable_after_exit() {
    let p = PidFd::new(44, flags(0), false);
    let ask = PollEvents { bits: POLL_IN };
    assert_eq!(p.target(), 44);
    assert!(!p.poll(ask, false).read);
    assert!(p.poll(ask, true).read);
    assert!(matches!(p.async_poll(ask, false), ExitWait::Wait));
    assert!(matches!(p.async_poll(ask, true), ExitWait::Ready(_)));
    assert_eq!(p.read(), Err(LxError::EINVAL));
    let mut q = PidFd::new(45, flags(0), false);
    q.process_ended();
    assert!(q.readable);
}

#[test]
fn a_shared_buffer_only_tells_its_size() {
    let d = DmaBuf::new(0x1000, 8192, 5);
    assert_eq!(d.seek(SeekFrom::End(0)), Ok(8192));
    assert_eq!(d.seek(SeekFrom::Start(0)), Ok(0));
    assert_eq!(d.seek(SeekFrom::Current(1)), Ok(1));
    assert_eq!(d.seek(SeekFrom::Current(-1)), Err(LxError::EINVAL));
    assert_eq!(d.vmo(), 5);
}

#[test]
fn anonymous_files_are_counted() {
    let mut r = MemfdRegistry { created: 0, files: Vec::new() };
    let m = new_memfd(&mut r, "pool", MFD_CLOEXEC);
    assert_eq!((m.seq, m.backing.as_str(), m.path.as_str()), (0, ".memfd.0.pool", "/memfd:pool"));
    assert!(m.flags.close_on_exec());
    register_memfd(&mut r, m.seq, 1, Some(100));
    assert_eq!(r.files, vec![MemfdRef { seq: 0, strong: 1, size: Some(100) }]);
    r.files.push(MemfdRef { seq: 1, strong: 0, size: Some(50) });
    assert_eq!(memfd_stats(&mut r, true), (1, 1, 100));
    assert_eq!(memfd_stats(&mut r, false), (1, 0, 0));
    let (live, _, lines) = memfd_dump_live(&r, true, 4).unwrap();
    assert_eq!((live, lines.len(), lines[0].size), (1, 1, 100));
    assert!(memfd_dump_live(&r, false, 4).is_none());
}

#[test]
fn the_trace_follows_one_process() {
    let mut t = BootTrace::new();
    assert!(!enabled(&t));
    record_open(&mut t, 1, || "labwc".to_string(), "/x", 3, 0);
    assert!(t.recs.is_empty());
    set_target(&mut t, "labwc");
    assert!(enabled(&t));
    record_open(&mut t, 9, || "other".to_string(), "/x", 3, 0);
    record_open(&mut t, 7, || "labwc".to_string(), "/a", 3, 1_000_000);
    record_open(&mut t, 9, || "labwc".to_string(), "/b", 3, 2_000_000);
    record_open(&mut t, 7, || "labwc".to_string(), "/a", 3, 3_000_000);
    record_open(&mut t, 7, || panic!("the process is known"), "/gone", -2, 4_000_000);
    record_open(&mut t, 7, || "labwc".to_string(), "/c", 4, 9_000_000);
    let mut idle = BootTrace::new();
    set_target(&mut idle, "labwc");
    record_syscall(&mut idle, 0, 23, 900_000_000, 9_000_000);
    record_syscall(&mut idle, 7, 23, 900_000_000, 9_000_000);
    assert!(idle.recs.is_empty());
    record_syscall(&mut t, 7, 23, 299_999_999, 9_000_000);
    record_syscall(&mut t, 7, 23, 300_000_000, 400_000_000);
    assert_eq!(t.recs.len(), 5);
    assert_eq!(preload_list(&t), vec!["/a".to_string(), "/c".to_string()]);
    let times = row_times(&t);
    assert_eq!((times[1].dt_us, times[1].gap_us), (2000, 2000));
    assert_eq!((times[4].dt_us, times[4].dur_us), (399_000, 300_000));
    let rows: Vec<RowText> = times
        .iter()
        .map(|_| RowText {
            time: "1.000".to_string(),
            gap: "0.5".to_string(),
            name: "read".to_string(),
            dur: "300.0".to_string(),
        })
        .collect();
    let text = render(&t, &rows, "399.0");
    assert!(text.contains("target 'labwc', pid 7\n"));
    assert!(text.contains("4 opens (3 ok, 1 miss), 1 slow syscalls (>300ms)\n"));
    assert_eq!(text.matches("  1.000 0.5 ").count(), 5);
    assert!(text.contains("e2   /gone\n"));
    assert!(text.contains("SLOW read took 300.0ms\n"));
    assert!(text.ends_with("access order): 2 files ---\n/a\n/c\n"));
}

#[test]
fn the_trace_is_bounded() {
    let mut t = BootTrace::new();
    assert!(render(&t, &[], "").starts_with("boot-trace: disabled."));
    set_target(&mut t, "x");
    assert!(render(&t, &[], "").contains("ARMED"));
    for _ in 0..MAX_RECS + 3 {
        record_open(&mut t, 1, || "x".to_string(), "/a", 1, 0);
    }
    assert_eq!((t.recs.len(), t.dropped), (MAX_RECS, 3));
}

#[test]
fn numbers_are_stored_with_the_low_byte_first() {
    let mut v = Vec::new();
    push_u16(&mut v, 0x0102);
    push_u32(&mut v, 0x0304_0506);
    push_u64(&mut v, 0x0708_090a_0b0c_0d0e);
    assert_eq!(v, vec![2, 1, 6, 5, 4, 3, 0x0e, 0x0d, 0x0c, 0x0b, 0x0a, 9, 8, 7]);
    assert_eq!(get_u16(&v, 0), 0x0102);
    assert_eq!(get_u32(&v, 2), 0x0304_0506);
    assert_eq!(get_u64(&v, 6), 0x0708_090a_0b0c_0d0e);
    assert_eq!(low32(0x1_0000_0002), 2);
    assert_eq!((min_usize(1, 2), max_usize(1, 2)), (1, 2));
}

#[test]
fn buffers_are_read_as_far_as_they_go() {
    let mut m = MemBuf::new(vec![1, 2, 3, 4]);
    let mut buf = [0u8; 3];
    assert_eq!(m.read_at(2, &mut buf), 2);
    assert_eq!(buf, [3, 4, 0]);
    assert_eq!(m.write_at(3, &[9, 9]), 1);
    assert_eq!(m.0, vec![1, 2, 3, 9]);
    let inner = BlockByteDevice::new(RamBlock::new(vec![5u8; 1024]));
    let mut f = FileByteDevice::new(inner, 1024);
    assert_eq!(f.read_at(1022, &mut buf).ok(), Some(2));
    assert_eq!(f.write_at(0, &[6]).ok(), Some(1));
    assert_eq!(f.read_at(0, &mut buf).ok(), Some(3));
    assert_eq!(buf, [6, 5, 5]);
}
