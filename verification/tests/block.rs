use std::cell::{Cell, RefCell};
use std::rc::Rc;

use linux_object::block_cache::BlockCache;
use linux_object::block_mount::BlockByteDevice;
use linux_object::cached_device::{CachedDevice, READAHEAD_BYTES};
use linux_object::device::{BlockScheme, Contents, Device, DeviceError, SECTOR};

/// A disk in memory that counts the sectors read from it. Clones share the disk.
#[derive(Clone)]
struct MockBlock {
    sectors: Rc<RefCell<Vec<u8>>>,
    nsec: usize,
    sectors_read: Rc<Cell<usize>>,
}

impl MockBlock {
    fn new(nsec: usize) -> Self {
        MockBlock {
            sectors: Rc::new(RefCell::new(vec![0u8; nsec * 512])),
            nsec,
            sectors_read: Rc::new(Cell::new(0)),
        }
    }

    fn sectors_read(&self) -> usize {
        self.sectors_read.get()
    }
}

impl BlockScheme for MockBlock {
    fn bytes(&self) -> Contents {
        unreachable!()
    }

    fn reliable(&self) -> bool {
        unreachable!()
    }

    fn whole_sectors(&self) {}

    fn read_block(&self, block_id: usize, buf: &mut [u8]) -> Result<(), DeviceError> {
        if buf.is_empty() || buf.len() % 512 != 0 {
            return Err(DeviceError::InvalidParam);
        }
        let start = block_id * 512;
        let d = self.sectors.borrow();
        if start + buf.len() > d.len() {
            return Err(DeviceError::InvalidParam);
        }
        buf.copy_from_slice(&d[start..start + buf.len()]);
        self.sectors_read.set(self.sectors_read.get() + buf.len() / 512);
        Ok(())
    }

    fn write_block(&mut self, block_id: usize, buf: &[u8]) -> Result<(), DeviceError> {
        if buf.is_empty() || buf.len() % 512 != 0 {
            return Err(DeviceError::InvalidParam);
        }
        let start = block_id * 512;
        let mut d = self.sectors.borrow_mut();
        if start + buf.len() > d.len() {
            return Err(DeviceError::InvalidParam);
        }
        d[start..start + buf.len()].copy_from_slice(buf);
        Ok(())
    }

    fn flush(&mut self) -> Result<(), DeviceError> {
        Ok(())
    }

    fn block_count(&self) -> usize {
        self.nsec
    }
}

fn pat(i: usize) -> u8 {
    (i.wrapping_mul(2654435761) >> 13) as u8
}

#[test]
fn byte_sector_roundtrip() {
    let nsec = 2048;
    let dev = MockBlock::new(nsec);
    let mut bbd = BlockByteDevice::new(dev.clone());
    let total = nsec * 512;
    let mut reference = vec![0u8; total];

    let cases = [
        (0usize, 512usize),
        (1, 10),
        (511, 2),
        (500, 100),
        (0, 4096),
        (1234, 5000),
        (512 * 100 + 7, 9000),
        (total - 10, 10),
        (total - 513, 513),
        (777, 1),
    ];
    for (k, &(off, len)) in cases.iter().enumerate() {
        let payload: Vec<u8> = (0..len).map(|i| pat(off + i + k)).collect();
        let w = bbd.write_at(off, &payload).unwrap();
        assert_eq!(w, len, "short write off={off} len={len}");
        reference[off..off + len].copy_from_slice(&payload);
    }

    let mut got = vec![0u8; total];
    let mut p = 0;
    while p < total {
        let n = bbd.read_at(p, &mut got[p..]).unwrap();
        assert!(n > 0);
        p += n;
    }
    assert_eq!(got, reference, "full-device readback mismatch");

    for &(off, len) in &cases {
        let mut buf = vec![0u8; len];
        let mut q = 0;
        while q < len {
            let n = bbd.read_at(off + q, &mut buf[q..]).unwrap();
            assert!(n > 0);
            q += n;
        }
        assert_eq!(buf, &reference[off..off + len], "slice readback off={off}");
    }
}

#[test]
fn large_contiguous_write() {
    let nsec = 4096;
    let dev = MockBlock::new(nsec);
    let mut bbd = BlockByteDevice::new(dev.clone());
    let len = 1_500_000usize;
    let payload: Vec<u8> = (0..len).map(pat).collect();
    assert_eq!(bbd.write_at(2048, &payload).unwrap(), len);
    let mut got = vec![0u8; len];
    let mut p = 0;
    while p < len {
        p += bbd.read_at(2048 + p, &mut got[p..]).unwrap();
    }
    assert_eq!(got, payload);
}

fn cached(dev: MockBlock, cap_sectors: usize) -> CachedDevice<BlockByteDevice<MockBlock>> {
    let size = dev.block_count() * 512;
    CachedDevice::with_capacity(BlockByteDevice::new(dev), size, cap_sectors)
}

#[test]
fn cache_readahead_prefetches_sequential() {
    let dev = MockBlock::new(2048);
    let mut raw = BlockByteDevice::new(dev.clone());
    let total = 2048 * 512;
    let data: Vec<u8> = (0..total).map(pat).collect();
    raw.write_at(0, &data).unwrap();

    let mut cache = cached(dev.clone(), 4096);
    let mut b0 = [0u8; 512];
    cache.read_at(0, &mut b0).unwrap();
    assert_eq!(&b0[..], &data[0..512]);
    assert_eq!(
        dev.sectors_read(),
        1,
        "an unproven stream must not prefetch (isolated random reads would thrash)"
    );
    let mut b1 = [0u8; 512];
    cache.read_at(512, &mut b1).unwrap();
    assert_eq!(&b1[..], &data[512..1024]);
    let mut b2 = [0u8; 512];
    cache.read_at(1024, &mut b2).unwrap();
    assert_eq!(&b2[..], &data[1024..1536]);
    let after_seq = dev.sectors_read();
    assert!(
        after_seq > 3,
        "a proven sequential stream should have prefetched a window (got {} sectors)",
        after_seq
    );
    let mut b3 = [0u8; 512];
    cache.read_at(1536, &mut b3).unwrap();
    assert_eq!(&b3[..], &data[1536..2048]);
    assert_eq!(
        dev.sectors_read(),
        after_seq,
        "a sequential read within the prefetch window must not touch the device"
    );
}

#[test]
fn cache_serves_repeat_reads() {
    let dev = MockBlock::new(2048);
    let mut cache = cached(dev.clone(), 4096);
    let data: Vec<u8> = (0..4096).map(pat).collect();
    assert_eq!(cache.write_at(0, &data).unwrap(), 4096);
    let base = dev.sectors_read();
    for _ in 0..16 {
        let mut buf = vec![0u8; 4096];
        assert_eq!(cache.read_at(0, &mut buf).unwrap(), 4096);
        assert_eq!(buf, data);
    }
    assert_eq!(
        dev.sectors_read(),
        base,
        "repeat reads of a resident span must be served from cache"
    );
}

#[test]
fn cache_cold_then_warm() {
    let dev = MockBlock::new(2048);
    let mut raw = BlockByteDevice::new(dev.clone());
    let data: Vec<u8> = (0..8192).map(pat).collect();
    raw.write_at(0, &data).unwrap();

    let mut cache = cached(dev.clone(), 4096);
    let r0 = dev.sectors_read();
    let mut buf = vec![0u8; 8192];
    cache.read_at(0, &mut buf).unwrap();
    assert_eq!(buf, data);
    let r1 = dev.sectors_read();
    assert!(r1 > r0, "cold read should hit the device");
    cache.read_at(0, &mut buf).unwrap();
    assert_eq!(dev.sectors_read(), r1, "warm read should be cache-only");
    assert_eq!(buf, data);
}

#[test]
fn cache_eviction_preserves_correctness() {
    let nsec = 256;
    let dev = MockBlock::new(nsec);
    let mut cache = cached(dev.clone(), 8);
    let total = nsec * 512;
    let data: Vec<u8> = (0..total).map(pat).collect();
    assert_eq!(cache.write_at(0, &data).unwrap(), total);
    for k in 0..nsec {
        let s = (k * 397) % nsec;
        let mut buf = [0u8; 512];
        cache.read_at(s * 512, &mut buf).unwrap();
        assert_eq!(&buf[..], &data[s * 512..s * 512 + 512], "sector {s}");
    }
}

#[test]
fn cache_partial_write_consistency() {
    let dev = MockBlock::new(64);
    let mut cache = cached(dev.clone(), 4096);
    let mut warm = [0u8; 512];
    cache.read_at(0, &mut warm).unwrap();
    let patch = [0xABu8; 10];
    assert_eq!(cache.write_at(100, &patch).unwrap(), 10);
    let mut got = [0u8; 512];
    cache.read_at(0, &mut got).unwrap();
    assert_eq!(&got[100..110], &patch);
    assert_eq!(got[99], 0);
    assert_eq!(got[110], 0);
    let mut raw = BlockByteDevice::new(dev.clone());
    let mut disk = [0u8; 512];
    raw.read_at(0, &mut disk).unwrap();
    assert_eq!(
        &disk[100..110],
        &patch,
        "write-through lost the partial write"
    );
}

#[test]
fn cache_write_through_matches_disk() {
    let nsec = 512;
    let dev = MockBlock::new(nsec);
    let mut cache = cached(dev.clone(), 64);
    let total = nsec * 512;
    let mut reference = vec![0u8; total];

    let cases = [
        (0usize, 512usize),
        (1, 10),
        (511, 2),
        (500, 100),
        (0, 4096),
        (1234, 5000),
        (512 * 100 + 7, 9000),
        (total - 10, 10),
        (total - 513, 513),
        (777, 1),
    ];
    for (k, &(off, len)) in cases.iter().enumerate() {
        let payload: Vec<u8> = (0..len).map(|i| pat(off + i + k * 31)).collect();
        assert_eq!(cache.write_at(off, &payload).unwrap(), len);
        reference[off..off + len].copy_from_slice(&payload);
    }
    let mut via_cache = vec![0u8; total];
    let mut p = 0;
    while p < total {
        let n = cache.read_at(p, &mut via_cache[p..]).unwrap();
        assert!(n > 0);
        p += n;
    }
    assert_eq!(via_cache, reference, "cache readback mismatch");
    let mut raw = BlockByteDevice::new(dev.clone());
    let mut via_disk = vec![0u8; total];
    let mut q = 0;
    while q < total {
        let n = raw.read_at(q, &mut via_disk[q..]).unwrap();
        assert!(n > 0);
        q += n;
    }
    assert_eq!(
        via_disk, reference,
        "disk content mismatch (write-through failed)"
    );
}

#[test]
fn cache_unaligned_reads() {
    let dev = MockBlock::new(64);
    let mut warm_cache = cached(dev.clone(), 4096);
    let total = 64 * 512;
    let data: Vec<u8> = (0..total).map(pat).collect();
    warm_cache.write_at(0, &data).unwrap();
    for &(off, len) in &[(1usize, 600usize), (511, 3), (1000, 2048), (5, 5000)] {
        let mut fresh = cached(dev.clone(), 4096);
        let mut cold = vec![0u8; len];
        fresh.read_at(off, &mut cold).unwrap();
        assert_eq!(cold, data[off..off + len], "cold off={off} len={len}");
        let mut warm = vec![0u8; len];
        warm_cache.read_at(off, &mut warm).unwrap();
        assert_eq!(warm, data[off..off + len], "warm off={off} len={len}");
    }
}

#[test]
fn cache_lru_evicts_least_recently_used() {
    let mut c = BlockCache::new(2);
    c.insert(0, &[0xAA; SECTOR]);
    c.insert(1, &[0xBB; SECTOR]);
    assert!(c.contains(0) && c.contains(1));
    let mut buf = [0u8; SECTOR];
    assert!(c.read_into(0, 0, &mut buf));
    assert_eq!(buf[0], 0xAA);
    c.insert(2, &[0xCC; SECTOR]);
    assert!(c.contains(0), "recently-read sector 0 stays resident");
    assert!(c.contains(2), "freshly inserted sector 2 present");
    assert!(!c.contains(1), "LRU sector 1 evicted");
}

#[test]
fn cache_read_into_misses_when_absent() {
    let mut c = BlockCache::new(4);
    let mut buf = [0u8; SECTOR];
    assert!(!c.read_into(7, 0, &mut buf));
}

#[test]
fn cache_patch_on_resident_updates_in_place() {
    let mut c = BlockCache::new(4);
    c.insert(3, &[0u8; SECTOR]);
    c.patch(3, 100, &[0x9, 0x9, 0x9]);
    let mut buf = [0u8; SECTOR];
    assert!(c.read_into(3, 0, &mut buf));
    assert_eq!(&buf[100..103], &[0x9, 0x9, 0x9]);
    assert_eq!(buf[99], 0);
}

#[test]
fn cache_patch_on_absent_is_noop() {
    let mut c = BlockCache::new(4);
    c.patch(9, 0, &[1, 2, 3]);
    assert!(!c.contains(9));
}

#[test]
fn cache_insert_updates_in_place_without_growing() {
    let mut c = BlockCache::new(2);
    c.insert(5, &[0x11; SECTOR]);
    c.insert(5, &[0x22; SECTOR]);
    let mut buf = [0u8; SECTOR];
    assert!(c.read_into(5, 0, &mut buf));
    assert_eq!(buf[0], 0x22);
    c.insert(6, &[0x33; SECTOR]);
    assert!(c.contains(5) && c.contains(6));
}

#[test]
fn cache_capacity_zero_is_clamped_to_one() {
    let mut c = BlockCache::new(0);
    c.insert(0, &[1; SECTOR]);
    assert!(c.contains(0));
    c.insert(1, &[2; SECTOR]);
    assert!(c.contains(1));
    assert!(
        !c.contains(0),
        "capacity floored at 1 -> one resident sector"
    );
}

#[test]
fn cached_reads_leave_the_device_alone() {
    let dev = MockBlock::new(64);
    let mut c = cached(dev.clone(), 16);
    let mut buf = [0u8; 1024];
    assert_eq!(c.read_at(512, &mut buf), Ok(1024));
    let before = dev.sectors_read();
    let streams = c.streams.clock;
    assert_eq!(c.read_at(600, &mut buf[..900]), Ok(900));
    assert_eq!((dev.sectors_read(), c.streams.clock), (before, streams));
    assert_eq!((c.cache.lines.len(), c.cache.capacity), (2, 16));
}

#[test]
fn an_unproven_read_asks_for_its_own_sectors() {
    let dev = MockBlock::new(8192);
    let mut c = cached(dev.clone(), 4096);
    let mut buf = [0u8; 100];
    assert_eq!(c.read_at(512 * 40 + 7, &mut buf), Ok(100));
    assert_eq!(dev.sectors_read(), 1);
    assert_eq!(c.read_at(512 * 90 + 500, &mut buf), Ok(100));
    assert_eq!(dev.sectors_read(), 3);
    assert_eq!(c.read_at(512 * 41, &mut buf), Ok(100));
    assert_eq!(dev.sectors_read(), 3 + 1 + READAHEAD_BYTES / 512);
}

#[test]
fn sectors_written_whole_become_resident() {
    let mut c = cached(MockBlock::new(64), 16);
    assert_eq!(c.write_at(100, &vec![5u8; 512 * 3]), Ok(512 * 3));
    let held: Vec<u64> = c.cache.lines.keys().copied().collect();
    assert_eq!(held, vec![1, 2]);
    assert!(c.write_at(512 * 64, &[1u8; 512]).is_err());
    assert_eq!(c.cache.lines.len(), 2);
    assert_eq!(c.write_at(512, &[9u8; 10]), Ok(10));
    assert_eq!((c.cache.lines[&1].data[9], c.cache.lines[&1].data[10]), (9, 5));
}

#[test]
fn a_read_protects_a_sector() {
    let mut c = cached(MockBlock::new(64), 2);
    let mut buf = [0u8; 512];
    for at in [0, 10, 0, 20] {
        assert_eq!(c.read_at(at * 512, &mut buf), Ok(512));
    }
    let held: Vec<u64> = c.cache.lines.keys().copied().collect();
    assert_eq!(held, vec![0, 20]);
}
