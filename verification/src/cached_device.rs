//! The write-through buffer cache in front of a mount's backing device.
use vstd::prelude::*;
use crate::block_cache::{
    committed, continues, follows_nothing, planned, stored, window_end, BlockCache, StreamRing,
};
use crate::bytes::{copy_into, max_usize, min_usize, splice};
use crate::device::{DevError, Device, SECTOR};

verus! {

/// Sectors a mount's cache may hold: 8 MiB.
pub const CACHE_CAPACITY_SECTORS: usize = 16384;

/// How far past a request a proven sequential stream is read.
pub const READAHEAD_BYTES: usize = 1048576;

/// A device with a write-through buffer cache in front of it.
///
/// A sector in the cache holds exactly what is on the device: `sound_at` says so byte by byte,
/// holds everywhere in a new device, and is kept by every operation that succeeds.
pub struct CachedDevice<D: Device> {
    pub inner: D,
    pub cache: BlockCache,
    /// One past the last addressable byte, rounded up to a sector.
    pub dev_end: usize,
    pub streams: StreamRing,
}

/// Whether the cached copy of byte `i`, if there is one, is what is stored there.
pub open spec fn cached_right(cache: BlockCache, contents: Seq<u8>, i: int) -> bool {
    forall|s: u64| #[trigger]
        cache.resident(s) && s * 512 <= i < s * 512 + 512 ==> cache.data(s)[i - s * 512]
            == contents[i]
}

/// The part of `cached_right` that one sector has in it.
spec fn copy_right(cache: BlockCache, contents: Seq<u8>, s: u64, i: int) -> bool {
    cache.resident(s) && s * 512 <= i < s * 512 + 512 ==> cache.data(s)[i - s * 512] == contents[i]
}

/// Every cached sector lies inside the device.
pub open spec fn cached_inside(cache: BlockCache, size: int) -> bool {
    forall|s: u64| #[trigger] cache.resident(s) ==> s * 512 + 512 <= size
}

/// The tick after `n` more accesses.
pub open spec fn tick_after(clock: u64, n: int) -> u64 {
    ((clock + n) % 0x1_0000_0000_0000_0000) as u64
}

/// Whether `after` holds what it may once `n` sectors from `first` on were stored in `before`, one
/// after the other: each of those that are there was touched in its turn, any other sector was there
/// before and was not touched, and the last one stored is there.
pub open spec fn restocked(before: BlockCache, after: BlockCache, first: u64, n: int) -> bool {
    &&& after.capacity == before.capacity
    &&& after.clock == tick_after(before.clock, n)
    &&& n == 0 ==> after.lines@.dom() == before.lines@.dom()
    &&& n > 0 ==> after.resident((first + n - 1) as u64)
    &&& forall|s: u64| #[trigger]
        after.resident(s) ==> if first <= s < first + n {
            after.stamp(s) == tick_after(before.clock, s - first)
        } else {
            before.resident(s) && after.stamp(s) == before.stamp(s)
        }
}

/// Whether `after` is `before` with `n` sectors of `data` stored in it from `first` on: each of them
/// holds its bytes, as far as it is still there, and any other sector is as it was.
pub open spec fn refilled(
    before: BlockCache,
    after: BlockCache,
    first: u64,
    data: Seq<u8>,
    n: int,
) -> bool {
    &&& restocked(before, after, first, n)
    &&& forall|s: u64| #[trigger]
        after.resident(s) ==> after.data(s) == if first <= s < first + n {
            data.subrange((s - first) * 512, (s - first) * 512 + 512)
        } else {
            before.data(s)
        }
}

/// The first sector that a write at `offset` covers from its start.
pub open spec fn first_whole(offset: int) -> u64 {
    ((offset + 511) / 512) as u64
}

/// How many sectors a write of `len` bytes at `offset` covers whole.
pub open spec fn whole_count(offset: int, len: int) -> int {
    let n = (offset + len) / 512 - (offset + 511) / 512;
    if n >= 0 {
        n
    } else {
        0
    }
}

/// Byte `j` of a sector once `data` was written at `offset`.
pub open spec fn note(before: BlockCache, offset: int, data: Seq<u8>, s: u64, j: int) -> u8 {
    if offset <= s * 512 + j < offset + data.len() {
        data[s * 512 + j - offset]
    } else {
        before.data(s)[j]
    }
}

/// Whether `after` is `before` brought in line with `data`, written at `offset`: the sectors written
/// whole are stored, those written in part have the new bytes if they are there, and any other sector
/// is as it was.
pub open spec fn noted(before: BlockCache, after: BlockCache, offset: int, data: Seq<u8>) -> bool {
    &&& restocked(before, after, first_whole(offset), whole_count(offset, data.len() as int))
    &&& forall|s: u64, j: int|
        after.resident(s) && 0 <= j < 512 ==> #[trigger] after.data(s)[j] == note(
            before,
            offset,
            data,
            s,
            j,
        )
}

/// `noted`, and what made room for the sectors written whole was touched longest ago.
pub open spec fn written_through(
    before: BlockCache,
    after: BlockCache,
    offset: int,
    data: Seq<u8>,
) -> bool {
    let n = whole_count(offset, data.len() as int);
    &&& noted(before, after, offset, data)
    &&& before.exact() && before.clock + n <= u64::MAX ==> after.exact() && oldest_left(
        before,
        after,
        first_whole(offset),
        n,
    )
}

/// Whether `after` is `before` once `n` sectors from `first` on, all of them cached, were looked up
/// one after the other.
pub open spec fn consulted(before: BlockCache, after: BlockCache, first: u64, n: int) -> bool {
    &&& after.same_data(&before)
    &&& after.clock == tick_after(before.clock, n)
    &&& forall|s: u64| #[trigger]
        after.resident(s) ==> after.stamp(s) == if first <= s < first + n {
            tick_after(before.clock, s - first)
        } else {
            before.stamp(s)
        }
    &&& before.exact() && before.clock + n <= u64::MAX ==> after.exact()
}

/// How many sectors a request touches.
pub open spec fn sector_count(offset: int, len: int) -> int {
    (offset + len - 1) / 512 - offset / 512 + 1
}

/// Whether every sector that a request touches is cached.
pub open spec fn held(cache: BlockCache, offset: int, len: int) -> bool {
    forall|s: u64|
        offset / 512 <= s < offset / 512 + sector_count(offset, len) ==> #[trigger] cache.resident(s)
}

/// Whether a read from sector boundary `start` on gave `span`, the bytes stored there, and its whole
/// sectors are now cached, at the cost of those touched longest ago.
pub open spec fn fetched<D: Device>(
    before: CachedDevice<D>,
    after: CachedDevice<D>,
    start: int,
    span: Seq<u8>,
) -> bool {
    let n = span.len() as int / 512;
    let first = (start / 512) as u64;
    &&& forall|i: int|
        0 <= i < span.len() && before.sound_at(start + i) ==> #[trigger] span[i]
            == before.contents()[start + i]
    &&& refilled(before.cache, after.cache, first, span, n)
    &&& before.cache.exact() && before.cache.clock + n <= u64::MAX ==> after.cache.exact()
        && oldest_left(before.cache, after.cache, first, n)
}

/// Whether a read of `len` bytes was served by reading up to `read_end` from the backing device: it
/// gave the device's error, which leaves cache and streams alone, or as much of `span` as was asked
/// for.
pub open spec fn loaded<D: Device>(
    before: CachedDevice<D>,
    after: CachedDevice<D>,
    offset: usize,
    len: usize,
    got: Seq<u8>,
    r: Result<usize, DevError>,
    read_end: usize,
    slot: usize,
    span: Seq<u8>,
) -> bool {
    let start = offset as int / 512 * 512;
    let skip = offset as int % 512;
    let size = before.contents().len() as int;
    match r {
        Err(_) => after.cache == before.cache && after.streams == before.streams,
        Ok(copied) => {
            &&& span.len() <= read_end - start
            &&& before.reliable() && crate::device::fits(size, offset as int, len as int)
                ==> span.len() == crate::device::available(size, start, read_end - start)
            &&& copied == if span.len() <= skip {
                0
            } else if len <= span.len() - skip {
                len as int
            } else {
                span.len() - skip
            }
            &&& copied > 0 ==> got.subrange(0, copied as int) == span.subrange(skip, skip + copied)
            &&& committed(before.streams, after.streams, slot, (start + span.len()) as usize)
            &&& after.cache.capacity == before.cache.capacity
            &&& fetched(before, after, start, span)
        },
    }
}

/// Whether a read of `len` bytes that found a sector missing was planned as `ring` says, up to
/// `read_end`, and then loaded.
pub open spec fn read_through<D: Device>(
    before: CachedDevice<D>,
    after: CachedDevice<D>,
    offset: usize,
    len: usize,
    got: Seq<u8>,
    r: Result<usize, DevError>,
    ring: StreamRing,
    read_end: usize,
    slot: usize,
    span: Seq<u8>,
) -> bool {
    &&& planned(
        before.streams,
        ring,
        (offset as int / 512 * 512) as usize,
        crate::device::round_up(offset + len) as usize,
        len,
        READAHEAD_BYTES,
        before.dev_end,
        read_end,
        slot,
    )
    &&& loaded(
        CachedDevice { streams: ring, ..before },
        after,
        offset,
        len,
        got,
        r,
        read_end,
        slot,
        span,
    )
}

/// How many bytes a read that finds a sector missing asks of the backing device at most: the sectors
/// of the request, and what is read ahead where it continues a stream.
pub open spec fn most_asked(streams: StreamRing, dev_end: int, offset: int, len: int) -> int {
    let start = offset / 512 * 512;
    let end = crate::device::round_up(offset + len);
    let proven = exists|k: int|
        0 <= k < 8 && continues(#[trigger] streams.slots@[k], start as usize);
    if proven && len < READAHEAD_BYTES {
        window_end(end, READAHEAD_BYTES as int, dev_end) - start
    } else {
        end - start
    }
}

/// A read that continues no stream asks for the sectors that it touches and for nothing else; one
/// that lies inside a sector asks for that sector alone.
pub proof fn law_nothing_ahead_unproven(streams: StreamRing, dev_end: int, offset: int, len: int)
    requires
        0 <= offset,
        0 < len,
        forall|k: int|
            0 <= k < 8 ==> !continues(
                #[trigger] streams.slots@[k],
                (offset / 512 * 512) as usize,
            ),
    ensures
        most_asked(streams, dev_end, offset, len) == 512 * sector_count(offset, len),
        offset % 512 + len <= 512 ==> most_asked(streams, dev_end, offset, len) == 512,
{
    reveal(crate::device::round_up);
}

/// Whatever is read, no more is asked for than the sectors of the request and the read-ahead.
pub proof fn law_ahead_bounded(streams: StreamRing, dev_end: int, offset: int, len: int)
    requires
        0 <= offset,
        0 < len,
    ensures
        most_asked(streams, dev_end, offset, len) <= 512 * sector_count(offset, len)
            + READAHEAD_BYTES,
{
    reveal(crate::device::round_up);
}

/// When a sector was touched last, once `n` sectors from `first` on were stored.
pub open spec fn touched(before: BlockCache, first: u64, n: int, s: u64) -> int {
    if first <= s < first + n {
        before.clock + (s - first)
    } else {
        before.stamp(s) as int
    }
}

/// Whether a sector had to leave while `n` sectors from `first` on were stored.
pub open spec fn left_out(before: BlockCache, after: BlockCache, first: u64, n: int, s: u64) -> bool {
    (before.resident(s) || first <= s < first + n) && !after.resident(s)
}

/// Whether storing `n` sectors from `first` on made no sector leave without need, and those that
/// were touched longest ago first: where one left the cache is full, and every sector that stayed
/// was touched after it.
pub open spec fn oldest_left(before: BlockCache, after: BlockCache, first: u64, n: int) -> bool {
    forall|s: u64| #[trigger]
        left_out(before, after, first, n, s) ==> {
            &&& after.lines@.len() == after.capacity
            &&& forall|t: u64| #[trigger]
                after.resident(t) ==> touched(before, first, n, s) < touched(before, first, n, t)
        }
}

/// One more sector is stored.
proof fn lemma_restock_step(
    before: BlockCache,
    mid: BlockCache,
    after: BlockCache,
    first: u64,
    n: int,
    data: Seq<u8>,
)
    requires
        0 <= n,
        first + n <= u64::MAX,
        restocked(before, mid, first, n),
        stored(mid, after, (first + n) as u64, data),
    ensures
        restocked(before, after, first, n + 1),
{
    assert forall|s: u64| #[trigger] after.resident(s) implies if first <= s < first + n + 1 {
        after.stamp(s) == tick_after(before.clock, s - first)
    } else {
        before.resident(s) && after.stamp(s) == before.stamp(s)
    } by {
        if s != first + n {
            assert(mid.resident(s));
        }
    }
}

/// Overwriting bytes in place changes nothing about what was stored.
proof fn lemma_patch_keeps_stock(
    before: BlockCache,
    mid: BlockCache,
    after: BlockCache,
    first: u64,
    n: int,
)
    requires
        restocked(before, mid, first, n),
        after.lines@.dom() == mid.lines@.dom(),
        forall|s: u64| #[trigger] after.resident(s) ==> after.stamp(s) == mid.stamp(s),
        after.clock == mid.clock,
        after.capacity == mid.capacity,
    ensures
        restocked(before, after, first, n),
        oldest_left(before, mid, first, n) ==> oldest_left(before, after, first, n),
{
    assert forall|s: u64| #[trigger] after.resident(s) implies mid.resident(s) by {}
    if oldest_left(before, mid, first, n) {
        assert forall|s: u64| #[trigger] left_out(before, after, first, n, s) implies {
            &&& after.lines@.len() == after.capacity
            &&& forall|t: u64| #[trigger]
                after.resident(t) ==> touched(before, first, n, s) < touched(before, first, n, t)
        } by {
            assert(left_out(before, mid, first, n, s));
            assert forall|t: u64| #[trigger] after.resident(t) implies touched(before, first, n, s)
                < touched(before, first, n, t) by {
                assert(mid.resident(t));
            }
        }
    }
}

/// One more sector is stored, and those touched longest ago still left first.
proof fn lemma_refill_step(
    before: BlockCache,
    mid: BlockCache,
    after: BlockCache,
    first: u64,
    n: int,
    data: Seq<u8>,
)
    requires
        0 <= n,
        first + n < u64::MAX,
        before.exact(),
        before.clock + n < u64::MAX,
        mid.exact(),
        restocked(before, mid, first, n),
        oldest_left(before, mid, first, n),
        stored(mid, after, (first + n) as u64, data),
    ensures
        oldest_left(before, after, first, n + 1),
{
    lemma_restock_step(before, mid, after, first, n, data);
    let sector = (first + n) as u64;
    assert forall|s: u64| #[trigger] left_out(before, after, first, n + 1, s) implies {
        &&& after.lines@.len() == after.capacity
        &&& forall|t: u64| #[trigger]
            after.resident(t) ==> touched(before, first, n + 1, s) < touched(
                before,
                first,
                n + 1,
                t,
            )
    } by {
        assert(after.resident(sector));
        assert(s != sector);
        if mid.resident(sector) {
            assert(mid.resident(s) == after.resident(s));
            assert(left_out(before, mid, first, n, s));
        } else if mid.lines@.len() < mid.capacity {
            assert(!mid.resident(s));
            assert(left_out(before, mid, first, n, s));
        } else {
            let v = choose|v: u64| #[trigger]
                mid.is_oldest(v) && after.lines@.dom() == mid.lines@.dom().remove(v).insert(sector);
            assert(after.lines@.len() == after.capacity);
            assert forall|t: u64| #[trigger] after.resident(t) implies touched(
                before,
                first,
                n + 1,
                s,
            ) < touched(before, first, n + 1, t) by {
                if t != sector {
                    assert(mid.resident(t) && t != v);
                }
                if s == v {
                    assert(mid.stamp(v) == touched(before, first, n, v));
                    assert(mid.lru@.contains_key(mid.lines@[v].tick));
                    if t != sector {
                        assert(mid.stamp(t) == touched(before, first, n, t));
                        assert(mid.stamp(v) <= mid.stamp(t));
                        assert(mid.lru@[mid.lines@[t].tick] == t);
                        assert(mid.lru@[mid.lines@[v].tick] == v);
                    }
                } else {
                    assert(!mid.resident(s));
                    assert(left_out(before, mid, first, n, s));
                    assert(mid.resident(v));
                }
            }
        }
        assert forall|t: u64| #[trigger] after.resident(t) implies touched(before, first, n + 1, s)
            < touched(before, first, n + 1, t) by {
            if t != sector && !(mid.lines@.len() == mid.capacity && !mid.resident(sector)) {
                assert(mid.resident(t));
            }
            if t == sector && left_out(before, mid, first, n, s) && !(first <= s < first + n) {
                assert(before.stamp(s) < before.clock);
            }
        }
    }
}

/// The sectors from `first` on.
spec fn run(first: u64, n: int) -> Set<u64>
    decreases n,
{
    if n <= 0 {
        Set::empty()
    } else {
        run(first, n - 1).insert((first + n - 1) as u64)
    }
}

proof fn lemma_run(first: u64, n: int)
    requires
        0 <= n,
        first + n <= u64::MAX,
    ensures
        run(first, n).finite(),
        run(first, n).len() <= n,
        forall|s: u64| #[trigger] run(first, n).contains(s) <==> first <= s < first + n,
    decreases n,
{
    if n > 0 {
        lemma_run(first, n - 1);
    }
}

/// While there is room, nothing leaves: every sector that was there or was stored is there.
pub proof fn law_room_keeps_everything(
    before: BlockCache,
    after: BlockCache,
    first: u64,
    n: int,
    s: u64,
)
    requires
        0 <= n,
        first + n <= u64::MAX,
        before.lines@.len() + n <= before.capacity,
        restocked(before, after, first, n),
        oldest_left(before, after, first, n),
    ensures
        before.resident(s) || first <= s < first + n ==> after.resident(s),
{
    if left_out(before, after, first, n, s) {
        broadcast use vstd::set_lib::group_set_lib_default;

        lemma_run(first, n);
        let was = before.lines@.dom();
        let all = was.union(run(first, n));
        let now = after.lines@.dom();
        vstd::set_lib::lemma_len_union(was, run(first, n));
        assert forall|t: u64| #[trigger] now.insert(s).contains(t) implies all.contains(t) by {
            if t != s {
                assert(after.resident(t));
            }
        }
        vstd::set_lib::lemma_len_subset(now.insert(s), all);
        assert(!now.contains(s));
        assert(now.insert(s).len() == now.len() + 1);
    }
}

impl<D: Device> CachedDevice<D> {
    pub fn new(inner: D, size_bytes: usize) -> (d: Self)
        requires
            inner.inv(),
            size_bytes == inner.contents().len(),
            crate::device::addressable(size_bytes as int, 0),
        ensures
            d.inner == inner,
            d.inv(),
            d.cache.capacity == CACHE_CAPACITY_SECTORS,
            d.cache.exact(),
            d.cache.lines@ == Map::<u64, crate::block_cache::CacheLine>::empty(),
            d.cache.clock == 1,
            follows_nothing(d.streams),
            forall|k: int| 0 <= k < 8 ==> (#[trigger] d.streams.slots@[k]).lru == 0,
            d.streams.clock == 0,
            forall|i: int| inner.sound_at(i) ==> #[trigger] d.sound_at(i),
    {
        Self::with_capacity(inner, size_bytes, CACHE_CAPACITY_SECTORS)
    }

    pub fn with_capacity(inner: D, size_bytes: usize, capacity_sectors: usize) -> (d: Self)
        requires
            inner.inv(),
            size_bytes == inner.contents().len(),
            crate::device::addressable(size_bytes as int, 0),
        ensures
            d.inner == inner,
            d.inv(),
            d.cache.capacity == if capacity_sectors >= 1 { capacity_sectors } else { 1 },
            d.cache.exact(),
            d.cache.lines@ == Map::<u64, crate::block_cache::CacheLine>::empty(),
            d.cache.clock == 1,
            follows_nothing(d.streams),
            forall|k: int| 0 <= k < 8 ==> (#[trigger] d.streams.slots@[k]).lru == 0,
            d.streams.clock == 0,
            forall|i: int| inner.sound_at(i) ==> #[trigger] d.sound_at(i),
    {
        proof {
            reveal(crate::device::round_up);
        }
        let dev_end: usize = (size_bytes + 511) / SECTOR * SECTOR;
        CachedDevice {
            inner,
            cache: BlockCache::new(capacity_sectors),
            dev_end,
            streams: StreamRing::new(),
        }
    }

    /// Caches the whole sectors among the first `valid_len` bytes of `data`, which was just
    /// read from the backing device. What was used longest ago makes room for them.
    fn populate(&mut self, first_sector: u64, data: &[u8], valid_len: usize)
        requires
            old(self).inv(),
            valid_len <= data@.len(),
            valid_len >= 512 ==> first_sector * 512 + valid_len <= old(self).inner.contents().len(),
            first_sector * 512 + valid_len <= usize::MAX,
        ensures
            final(self).inner == old(self).inner,
            final(self).dev_end == old(self).dev_end,
            final(self).streams == old(self).streams,
            final(self).inv(),
            refilled(
                old(self).cache,
                final(self).cache,
                first_sector,
                data@,
                valid_len as int / 512,
            ),
            old(self).cache.exact() && old(self).cache.clock + valid_len as int / 512 <= u64::MAX
                ==> final(self).cache.exact() && oldest_left(
                old(self).cache,
                final(self).cache,
                first_sector,
                valid_len as int / 512,
            ),
            forall|i: int|
                old(self).sound_at(i) && (first_sector * 512 <= i < first_sector * 512 + valid_len
                    ==> data@[i - first_sector * 512] == old(self).inner.contents()[i])
                    ==> #[trigger] final(self).sound_at(i),
    {
        let mut off: usize = 0;
        let mut sector: u64 = first_sector;
        let ghost contents = self.inner.contents();
        let ghost mut k: int = 0;
        let ghost all = valid_len as int / 512;
        let ghost before = self.cache;
        let ghost usable = before.exact() && before.clock + all <= u64::MAX;
        while valid_len - off >= SECTOR
            invariant
                self.inner == old(self).inner,
                self.dev_end == old(self).dev_end,
                self.streams == old(self).streams,
                contents == self.inner.contents(),
                self.inv(),
                off <= valid_len <= data@.len(),
                off == k * 512,
                0 <= k <= all,
                all == valid_len as int / 512,
                sector == first_sector + k,
                before == old(self).cache,
                usable == (before.exact() && before.clock + all <= u64::MAX),
                refilled(before, self.cache, first_sector, data@, k),
                usable ==> self.cache.exact() && oldest_left(before, self.cache, first_sector, k),
                valid_len >= 512 ==> first_sector * 512 + valid_len <= contents.len(),
                first_sector * 512 + valid_len <= usize::MAX,
                forall|i: int|
                    old(self).sound_at(i) && (first_sector * 512 <= i < first_sector * 512
                        + valid_len ==> data@[i - first_sector * 512] == contents[i])
                        ==> #[trigger] self.sound_at(i),
            decreases valid_len - off,
        {
            let ghost prev = *self;
            self.cache.insert(sector, &data[off..off + SECTOR]);
            proof {
                assert(k < all);
                assert(data@.subrange(off as int, off + 512) =~= data@.subrange(
                    k * 512,
                    k * 512 + 512,
                ));
                assert forall|s: u64| #[trigger] self.cache.resident(s) implies if first_sector <= s
                    < first_sector + k + 1 {
                    &&& self.cache.data(s) == data@.subrange(
                        (s - first_sector) * 512,
                        (s - first_sector) * 512 + 512,
                    )
                    &&& self.cache.stamp(s) == tick_after(before.clock, s - first_sector)
                } else {
                    &&& before.resident(s)
                    &&& self.cache.data(s) == before.data(s)
                    &&& self.cache.stamp(s) == before.stamp(s)
                } by {
                    if s != sector {
                        assert(prev.cache.resident(s));
                    }
                }
                assert(refilled(before, self.cache, first_sector, data@, k + 1));
                if usable {
                    lemma_refill_step(
                        before,
                        prev.cache,
                        self.cache,
                        first_sector,
                        k,
                        data@.subrange(off as int, off + 512),
                    );
                }
                assert forall|i: int|
                    old(self).sound_at(i) && (first_sector * 512 <= i < first_sector * 512
                        + valid_len ==> data@[i - first_sector * 512] == contents[i])
                    implies #[trigger] self.sound_at(i) by {
                    assert(prev.sound_at(i));
                    assert forall|s: u64| #[trigger]
                        self.cache.resident(s) && s * 512 <= i < s * 512 + 512
                        implies self.cache.data(s)[i - s * 512] == contents[i] by {
                        if s != sector {
                            assert(prev.cache.resident(s));
                        }
                    }
                }
                assert(cached_inside(self.cache, contents.len() as int)) by {
                    assert forall|s: u64| #[trigger] self.cache.resident(s) implies s * 512 + 512
                        <= contents.len() by {
                        if s != sector {
                            assert(prev.cache.resident(s));
                        }
                    }
                }
            }
            off = off + SECTOR;
            sector = sector + 1;
            proof {
                k = k + 1;
            }
        }
    }

    /// Reads a span that starts on a sector boundary from the backing device, caches its whole
    /// sectors, and records where the stream in `slot` now ends.
    fn fetch(&mut self, start: usize, buf: &mut [u8], slot: usize) -> (r: Result<usize, DevError>)
        requires
            old(self).inv(),
            start % 512 == 0,
            slot < 8,
            crate::device::addressable(start as int, old(buf)@.len() as int),
        ensures
            final(self).inv(),
            final(self).contents() == old(self).contents(),
            final(self).reliable() == old(self).reliable(),
            final(self).spares() == old(self).spares(),
            forall|i: int| old(self).sound_at(i) ==> #[trigger] final(self).sound_at(i),
            final(buf)@.len() == old(buf)@.len(),
            r matches Ok(n) ==> {
                &&& n <= old(buf)@.len()
                &&& n > 0 ==> start + n <= old(self).contents().len()
                &&& forall|i: int|
                    0 <= i < n && old(self).sound_at(start + i) ==> #[trigger] final(buf)@[i]
                        == old(self).contents()[start + i]
            },
            old(self).reliable() && crate::device::fits(
                old(self).contents().len() as int,
                start as int,
                old(buf)@.len() as int,
            ) ==> r is Ok && r->Ok_0 == crate::device::available(
                old(self).contents().len() as int,
                start as int,
                old(buf)@.len() as int,
            ),
            final(self).inner.asked() <= old(self).inner.asked() + old(buf)@.len(),
            r is Err ==> final(self).cache == old(self).cache && final(self).streams == old(
                self).streams,
            r matches Ok(n) ==> {
                &&& final(self).cache.capacity == old(self).cache.capacity
                &&& fetched(*old(self), *final(self), start as int, final(buf)@.take(n as int))
                &&& committed(old(self).streams, final(self).streams, slot, (start + n) as usize)
            },
    {
        let ghost contents = self.inner.contents();
        proof {
            crate::device::lemma_round_up(start + buf@.len());
        }
        let r = self.inner.read_at(start, buf);
        match r {
            Err(e) => Err(e),
            Ok(n) => {
                let first: u64 = (start / SECTOR) as u64;
                let ghost loaded = *self;
                assert forall|i: int| old(self).sound_at(i) implies #[trigger] loaded.sound_at(i)
                    by {}
                self.populate(first, buf, n);
                let ghost filled = *self;
                self.streams.commit(slot, start + n);
                proof {
                    assert forall|i: int| old(self).sound_at(i) implies #[trigger] self.sound_at(
                        i,
                    ) by {
                        assert(loaded.sound_at(i));
                        if first * 512 <= i < first * 512 + n {
                            let k = i - start;
                            assert(old(self).inner.sound_at(start + k));
                            assert(buf@[k] == contents[start + k]);
                        }
                        assert(filled.sound_at(i));
                    }
                    assert forall|i: int| 0 <= i < n && old(self).sound_at(start + i)
                        implies #[trigger] buf@[i] == contents[start + i] by {
                        assert(old(self).inner.sound_at(start + i));
                    }
                    let span = buf@.take(n as int);
                    assert forall|i: int|
                        0 <= i < span.len() && old(self).sound_at(start + i) implies #[trigger] span[i]
                        == contents[start + i] by {
                        assert(buf@[i] == contents[start + i]);
                    }
                    assert forall|s: u64| #[trigger]
                        self.cache.resident(s) && first <= s < first + n as int / 512
                        implies self.cache.data(s) == span.subrange(
                        (s - first) * 512,
                        (s - first) * 512 + 512,
                    ) by {
                        assert(buf@.subrange((s - first) * 512, (s - first) * 512 + 512)
                            =~= span.subrange((s - first) * 512, (s - first) * 512 + 512));
                    }
                }
                Ok(n)
            },
        }
    }

    /// Whether every sector from `first` to `last` is cached.
    fn all_resident(&self, first: u64, last: u64) -> (all: bool)
        requires
            first <= last < u64::MAX,
        ensures
            all == (forall|s: u64| first <= s <= last ==> #[trigger] self.cache.resident(s)),
    {
        let mut s: u64 = first;
        while s <= last
            invariant
                first <= s <= last + 1,
                last < u64::MAX,
                forall|t: u64| first <= t < s ==> #[trigger] self.cache.resident(t),
            decreases last + 1 - s,
        {
            if !self.cache.contains(s) {
                return false;
            }
            s = s + 1;
        }
        true
    }

    /// Serves a request whose sectors are all cached.
    fn read_cached(&mut self, offset: usize, buf: &mut [u8])
        requires
            old(self).inv(),
            0 < old(buf)@.len(),
            crate::device::addressable(offset as int, old(buf)@.len() as int),
            held(old(self).cache, offset as int, old(buf)@.len() as int),
        ensures
            final(self).inner == old(self).inner,
            final(self).dev_end == old(self).dev_end,
            final(self).streams == old(self).streams,
            consulted(
                old(self).cache,
                final(self).cache,
                (offset / 512) as u64,
                sector_count(offset as int, old(buf)@.len() as int),
            ),
            final(self).inv(),
            forall|i: int| old(self).sound_at(i) ==> #[trigger] final(self).sound_at(i),
            final(buf)@.len() == old(buf)@.len(),
            offset + old(buf)@.len() <= old(self).contents().len(),
            forall|i: int|
                0 <= i < old(buf)@.len() && old(self).sound_at(offset + i)
                    ==> #[trigger] final(buf)@[i] == old(self).contents()[offset + i],
    {
        let len: usize = buf.len();
        proof {
            crate::device::lemma_round_up(offset + len);
        }
        let end: usize = offset + len;
        let mut done: usize = 0;
        let ghost contents = self.inner.contents();
        let ghost first = (offset / 512) as u64;
        let ghost mut k: int = 0;
        while done < len
            invariant
                done <= len,
                len == buf@.len(),
                len == old(buf)@.len(),
                0 < len,
                end == offset + len,
                crate::device::addressable(offset as int, len as int),
                contents == old(self).inner.contents(),
                self.inner == old(self).inner,
                self.dev_end == old(self).dev_end,
                self.streams == old(self).streams,
                old(self).inv(),
                consulted(old(self).cache, self.cache, first, k),
                first == offset / 512,
                done < len ==> k == (offset + done) / 512 - offset / 512,
                done > 0 && done < len ==> (offset + done) % 512 == 0,
                done == len ==> k == sector_count(offset as int, len as int),
                held(old(self).cache, offset as int, len as int),
                forall|i: int|
                    0 <= i < done && old(self).sound_at(offset + i) ==> #[trigger] buf@[i]
                        == contents[offset + i],
                done > 0 ==> offset + done <= contents.len(),
            decreases len - done,
        {
            let pos: usize = offset + done;
            let sector: u64 = (pos / SECTOR) as u64;
            let soff: usize = pos % SECTOR;
            let take: usize = min_usize(SECTOR - soff, end - pos);
            let ghost before = buf@;
            let ghost cache0 = self.cache;
            assert(old(self).cache.resident(sector));
            assert(cache0.resident(sector));
            assert(sector * 512 + soff == pos);
            let (head, rest) = buf.split_at_mut(done);
            let (middle, tail) = rest.split_at_mut(take);
            let hit = self.cache.read_into(sector, soff, middle);
            proof {
                assert forall|s: u64| #[trigger] self.cache.resident(s) implies self.cache.data(s)
                    == old(self).cache.data(s) by {
                    assert(cache0.resident(s));
                }
                assert(hit);
                assert(head@ == before.subrange(0, done as int));
                let data = old(self).cache.data(sector);
                assert(cache0.data(sector) == data);
                assert(middle@ == data.subrange(soff as int, soff + take));
                let part = data.subrange(soff as int, soff + take);
                assert forall|j: int|
                    0 <= j < take && old(self).sound_at(pos + j) implies #[trigger] part[j]
                    == contents[pos + j] by {
                    assert(cached_right(old(self).cache, contents, pos + j));
                    assert(old(self).cache.resident(sector));
                    assert(data[pos + j - sector * 512] == contents[pos + j]);
                }
            }
            proof {
                assert(sector == first + k);
                assert forall|s: u64| #[trigger] self.cache.resident(s) implies self.cache.stamp(s)
                    == if first <= s < first + k + 1 {
                    tick_after(old(self).cache.clock, s - first)
                } else {
                    old(self).cache.stamp(s)
                } by {
                    assert(cache0.resident(s));
                }
                k = k + 1;
            }
            done = done + take;
        }
        proof {
            assert forall|i: int| old(self).sound_at(i) implies #[trigger] self.sound_at(i) by {
                assert(cached_right(old(self).cache, contents, i));
                assert forall|s: u64| #[trigger]
                    self.cache.resident(s) && s * 512 <= i < s * 512 + 512 implies self.cache.data(
                    s,
                )[i - s * 512] == contents[i] by {
                    assert(old(self).cache.resident(s));
                }
            }
            assert forall|s: u64| #[trigger] self.cache.resident(s) implies s * 512 + 512
                <= contents.len() by {
                assert(old(self).cache.resident(s));
            }
        }
    }
}

/// Copies out what was asked for of the first `n` bytes of a span, leaving out the first `skip`.
fn hand_out(span: &[u8], n: usize, skip: usize, buf: &mut [u8]) -> (copied: usize)
    requires
        n <= span@.len(),
    ensures
        final(buf)@.len() == old(buf)@.len(),
        copied == if n <= skip {
            0
        } else if old(buf)@.len() <= n - skip {
            old(buf)@.len() as int
        } else {
            n - skip
        },
        copied > 0 ==> final(buf)@.subrange(0, copied as int) == span@.take(n as int).subrange(
            skip as int,
            skip + copied,
        ),
{
    let avail: usize = if n >= skip { n - skip } else { 0 };
    let copied: usize = min_usize(buf.len(), avail);
    if copied > 0 {
        copy_into(buf, 0, &span[skip..skip + copied]);
        assert(buf@.subrange(0, copied as int) =~= span@.take(n as int).subrange(
            skip as int,
            skip + copied,
        ));
    }
    copied
}

impl<D: Device> CachedDevice<D> {
    /// Serves a request by reading from its first sector up to `read_end`.
    #[verifier::rlimit(30)]
    fn load(&mut self, offset: usize, buf: &mut [u8], read_end: usize, slot: usize) -> (r: (
        Result<usize, DevError>,
        Ghost<Seq<u8>>,
    ))
        requires
            old(self).inv(),
            0 < old(buf)@.len(),
            slot < 8,
            crate::device::addressable(offset as int, old(buf)@.len() as int),
            crate::device::round_up(offset + old(buf)@.len()) <= read_end,
            read_end <= old(self).dev_end || read_end == crate::device::round_up(
                offset + old(buf)@.len(),
            ),
            read_end % 512 == 0,
        ensures
            final(self).inv(),
            final(self).dev_end == old(self).dev_end,
            final(self).contents() == old(self).contents(),
            final(self).reliable() == old(self).reliable(),
            final(self).spares() == old(self).spares(),
            forall|i: int| old(self).sound_at(i) ==> #[trigger] final(self).sound_at(i),
            final(buf)@.len() == old(buf)@.len(),
            r.0 matches Ok(n) ==> {
                &&& n <= old(buf)@.len()
                &&& n > 0 ==> offset + n <= old(self).contents().len()
                &&& forall|i: int|
                    0 <= i < n && old(self).sound_at(offset + i) ==> #[trigger] final(buf)@[i]
                        == old(self).contents()[offset + i]
            },
            old(self).reliable() && crate::device::fits(
                old(self).contents().len() as int,
                offset as int,
                old(buf)@.len() as int,
            ) ==> r.0 is Ok && r.0->Ok_0 == crate::device::available(
                old(self).contents().len() as int,
                offset as int,
                old(buf)@.len() as int,
            ),
            final(self).inner.asked() <= old(self).inner.asked() + (read_end - offset as int / 512
                * 512),
            loaded(
                *old(self),
                *final(self),
                offset,
                old(buf)@.len() as usize,
                final(buf)@,
                r.0,
                read_end,
                slot,
                r.1@,
            ),
    {
        let len: usize = buf.len();
        let start: usize = offset / SECTOR * SECTOR;
        let ghost size = self.inner.contents().len() as int;
        let ghost contents = self.inner.contents();
        proof {
            crate::device::lemma_round_up(offset + len);
            crate::device::lemma_round_up(size);
            crate::device::lemma_round_up_le(offset + len, crate::device::round_up(size));
            crate::device::lemma_round_up(read_end as int);
            crate::device::lemma_round_up_le(read_end as int, crate::device::round_up(size));
        }
        let read_len: usize = read_end - start;
        // Already aligned and nothing to read ahead: read straight into the caller's buffer.
        if offset == start && len == read_len {
            let r = self.fetch(start, buf, slot);
            let ghost span = match r {
                Ok(n) => buf@.take(n as int),
                Err(_) => Seq::empty(),
            };
            proof {
                if r is Ok {
                    assert(buf@.subrange(0, r->Ok_0 as int) =~= span.subrange(0, r->Ok_0 as int));
                }
            }
            return (r, Ghost(span));
        }
        let mut tmp: Vec<u8> = vec![0u8; read_len];
        match self.fetch(start, tmp.as_mut_slice(), slot) {
            Err(e) => (Err(e), Ghost(Seq::empty())),
            Ok(n) => {
                let skip: usize = offset - start;
                let ghost span = tmp@.take(n as int);
                let copy: usize = hand_out(tmp.as_slice(), n, skip, buf);
                assert forall|i: int|
                    0 <= i < copy && old(self).sound_at(offset + i) implies #[trigger] buf@[i]
                    == contents[offset + i] by {
                    assert(old(self).sound_at(start + (skip + i)));
                    assert(tmp@[skip + i] == contents[start + (skip + i)]);
                    assert(buf@.subrange(0, copy as int)[i] == span.subrange(
                        skip as int,
                        skip + copy,
                    )[i]);
                }
                (Ok(copy), Ghost(span))
            },
        }
    }
}

impl<D: Device> Device for CachedDevice<D> {
    open spec fn contents(&self) -> Seq<u8> {
        self.inner.contents()
    }

    open spec fn reliable(&self) -> bool {
        self.inner.reliable()
    }

    // A request may be read ahead, so how large the device's own requests are is not known here.
    open spec fn takes(&self, n: int) -> bool {
        self.inner.reliable()
    }

    // A read from the device starts at a sector boundary, so a short one may end before what was
    // asked for.
    open spec fn gives(&self) -> bool {
        self.inner.reliable()
    }

    open spec fn spares(&self) -> bool {
        self.inner.spares()
    }

    open spec fn misses(&self) -> int {
        if self.inner.reliable() {
            0
        } else {
            -1
        }
    }

    // What the device behind the cache is asked for, `read_at` says.
    open spec fn asked(&self) -> int {
        0
    }

    open spec fn sound_at(&self, i: int) -> bool {
        self.inner.sound_at(i) && cached_right(self.cache, self.inner.contents(), i)
    }

    open spec fn inv(&self) -> bool {
        &&& self.inner.inv()
        &&& self.dev_end == crate::device::round_up(self.inner.contents().len() as int)
        &&& cached_inside(self.cache, self.inner.contents().len() as int)
    }

    fn read_at(&mut self, offset: usize, buf: &mut [u8]) -> (r: Result<usize, DevError>)
        ensures
            final(self).cache.capacity == old(self).cache.capacity,
            final(self).dev_end == old(self).dev_end,
            old(buf)@.len() == 0 ==> r == Ok::<usize, DevError>(0) && *final(self) == *old(self),
            old(buf)@.len() > 0 && held(old(self).cache, offset as int, old(buf)@.len() as int) ==> {
                &&& r == Ok::<usize, DevError>(old(buf)@.len() as usize)
                &&& final(self).inner == old(self).inner
                &&& final(self).streams == old(self).streams
                &&& consulted(
                    old(self).cache,
                    final(self).cache,
                    (offset / 512) as u64,
                    sector_count(offset as int, old(buf)@.len() as int),
                )
            },
            old(buf)@.len() > 0 && !held(old(self).cache, offset as int, old(buf)@.len() as int)
                ==> final(self).inner.asked() <= old(self).inner.asked() + most_asked(
                old(self).streams,
                old(self).dev_end as int,
                offset as int,
                old(buf)@.len() as int,
            ),
            old(buf)@.len() > 0 && !held(old(self).cache, offset as int, old(buf)@.len() as int)
                ==> exists|ring: StreamRing, read_end: usize, slot: usize, span: Seq<u8>| #[trigger]
                read_through(
                    *old(self),
                    *final(self),
                    offset,
                    old(buf)@.len() as usize,
                    final(buf)@,
                    r,
                    ring,
                    read_end,
                    slot,
                    span,
                ),
    {
        let len: usize = buf.len();
        if len == 0 {
            return Ok(0);
        }
        proof {
            crate::device::lemma_round_up(offset + len);
        }
        let end: usize = offset + len;
        let first: u64 = (offset / SECTOR) as u64;
        let last: u64 = ((end - 1) / SECTOR) as u64;
        if self.all_resident(first, last) {
            self.read_cached(offset, buf);
            return Ok(len);
        }
        let aligned_start: usize = offset / SECTOR * SECTOR;
        let aligned_end: usize = ((end - 1) / SECTOR + 1) * SECTOR;
        let (read_end, slot) = self.streams.plan(
            aligned_start,
            aligned_end,
            len,
            READAHEAD_BYTES,
            self.dev_end,
        );
        let ghost ring = self.streams;
        proof {
            crate::device::lemma_round_up_le(offset + len, aligned_end as int);
            assert(crate::device::round_up(offset + len) == aligned_end);
            crate::device::lemma_round_up(self.inner.contents().len() as int);
            assert(*self == (CachedDevice { streams: ring, ..*old(self) }));
        }
        let ghost mid = *self;
        let (r, span) = self.load(offset, buf, read_end, slot);
        proof {
            assert forall|i: int| old(self).sound_at(i) implies #[trigger] self.sound_at(i) by {
                assert(mid.sound_at(i));
            }
            assert forall|i: int|
                r is Ok && 0 <= i < r->Ok_0 && old(self).sound_at(offset + i)
                implies #[trigger] buf@[i] == old(self).contents()[offset + i] by {
                assert(mid.sound_at(offset + i));
            }
            assert(read_through(
                *old(self),
                *self,
                offset,
                len,
                buf@,
                r,
                ring,
                read_end,
                slot,
                span@,
            ));
        }
        r
    }

    fn write_at(&mut self, offset: usize, buf: &[u8]) -> (r: Result<usize, DevError>)
        ensures
            final(self).dev_end == old(self).dev_end,
            final(self).streams == old(self).streams,
            r is Err ==> final(self).cache == old(self).cache,
            r matches Ok(n) ==> if n == 0 {
                final(self).cache == old(self).cache
            } else {
                written_through(old(self).cache, final(self).cache, offset as int, buf@.take(n as int))
            },
    {
        let ghost contents0 = self.inner.contents();
        if buf.len() == 0 {
            assert(contents0 =~= splice(contents0, offset as int, buf@.subrange(0, 0)));
            return Ok(0);
        }
        // Write-through first: the device is authoritative.
        let n: usize = match self.inner.write_at(offset, buf) {
            Err(e) => {
                return Err(e);
            },
            Ok(n) => n,
        };
        if n == 0 {
            assert(contents0 =~= self.inner.contents());
            return Ok(0);
        }
        assert(buf@.subrange(0, n as int) =~= buf@.take(n as int));
        self.reconcile(offset, buf, n, Ghost(*old(self)));
        Ok(n)
    }

    fn sync(&mut self) -> (r: Result<(), DevError>) {
        let r = self.inner.sync();
        proof {
            lemma_same_cache_sound(*old(self), *self);
        }
        r
    }
}

/// Soundness carries over when only the backing device's own state moved on.
proof fn lemma_same_cache_sound<D: Device>(before: CachedDevice<D>, after: CachedDevice<D>)
    requires
        before.cache == after.cache,
        before.inner.contents() == after.inner.contents(),
        forall|i: int| before.inner.sound_at(i) ==> #[trigger] after.inner.sound_at(i),
    ensures
        forall|i: int| before.sound_at(i) ==> #[trigger] after.sound_at(i),
{
}

impl<D: Device> CachedDevice<D> {
    /// Brings the cache in line with the `n` bytes of `buf` that reached the device at `offset`.
    fn reconcile(&mut self, offset: usize, buf: &[u8], n: usize, Ghost(before): Ghost<Self>)
        requires
            before.inv(),
            old(self).cache == before.cache,
            old(self).dev_end == before.dev_end,
            old(self).streams == before.streams,
            old(self).inner.inv(),
            0 < n <= buf@.len(),
            crate::device::addressable(offset as int, buf@.len() as int),
            offset + n <= before.inner.contents().len(),
            old(self).inner.contents() == splice(
                before.inner.contents(),
                offset as int,
                buf@.subrange(0, n as int),
            ),
            forall|i: int|
                before.inner.sound_at(i) || offset <= i < offset + n
                    ==> #[trigger] old(self).inner.sound_at(i),
        ensures
            final(self).inner == old(self).inner,
            final(self).dev_end == old(self).dev_end,
            final(self).streams == old(self).streams,
            final(self).inv(),
            written_through(before.cache, final(self).cache, offset as int, buf@.take(n as int)),
            forall|i: int|
                before.sound_at(i) || offset <= i < offset + n ==> #[trigger] final(self).sound_at(i),
    {
        proof {
            crate::device::lemma_round_up(offset + buf@.len());
        }
        let end: usize = offset + n;
        let last: usize = (end - 1) / SECTOR;
        let mut sector: usize = offset / SECTOR;
        let ghost contents = self.inner.contents();
        let ghost fw = first_whole(offset as int);
        let ghost wc = whole_count(offset as int, n as int);
        let ghost mut m: int = 0;
        let ghost data = buf@.take(n as int);
        let ghost usable = before.cache.exact() && before.cache.clock + wc <= u64::MAX;
        while sector <= last
            invariant
                0 < n <= buf@.len(),
                end == offset + n,
                end <= usize::MAX - 511,
                last == (end - 1) / 512,
                offset / 512 <= sector <= last + 1,
                self.inner == old(self).inner,
                self.dev_end == before.dev_end,
                self.streams == old(self).streams,
                before.dev_end == old(self).dev_end,
                fw == first_whole(offset as int),
                fw == (offset + 511) / 512,
                wc == whole_count(offset as int, n as int),
                m == if sector <= fw {
                    0
                } else if sector - fw <= wc {
                    sector - fw
                } else {
                    wc
                },
                usable == (before.cache.exact() && before.cache.clock + wc <= u64::MAX),
                restocked(before.cache, self.cache, fw, m),
                usable ==> self.cache.exact() && oldest_left(before.cache, self.cache, fw, m),
                data == buf@.take(n as int),
                forall|s: u64, j: int|
                    s < sector && self.cache.resident(s) && 0 <= j < 512
                        ==> #[trigger] self.cache.data(s)[j] == note(
                        before.cache,
                        offset as int,
                        data,
                        s,
                        j,
                    ),
                contents == self.inner.contents(),
                contents.len() == before.inner.contents().len(),
                end <= contents.len(),
                contents == splice(
                    before.inner.contents(),
                    offset as int,
                    buf@.subrange(0, n as int),
                ),
                cached_inside(self.cache, contents.len() as int),
                // Sectors already handled are right where they should be; the others are as
                // they were.
                forall|s: u64|
                    s >= sector && #[trigger] self.cache.resident(s) ==> before.cache.resident(s)
                        && self.cache.data(s) == before.cache.data(s),
                forall|s: u64, i: int|
                    s < sector && (cached_right(before.cache, before.inner.contents(), i) || offset
                        <= i < end) ==> #[trigger] copy_right(self.cache, contents, s, i),
            decreases last + 1 - sector,
        {
            let s_start: usize = sector * SECTOR;
            let s_end: usize = s_start + SECTOR;
            let cov_start: usize = max_usize(s_start, offset);
            let cov_end: usize = min_usize(s_end, end);
            let ghost prev = self.cache;
            let ghost id = sector as u64;
            if cov_start == s_start && cov_end == s_end {
                self.cache.insert(sector as u64, &buf[cov_start - offset..cov_end - offset]);
            } else {
                self.cache.patch(
                    sector as u64,
                    cov_start - s_start,
                    &buf[cov_start - offset..cov_end - offset],
                );
            }
            proof {
                let src = buf@.subrange(cov_start - offset, cov_end - offset);
                assert forall|s: u64| #[trigger] self.cache.resident(s) implies (s != id
                    ==> prev.resident(s) && self.cache.data(s) == prev.data(s)) && s * 512 + 512
                    <= contents.len() by {
                    if s != id {
                        assert(prev.resident(s));
                    } else if !(cov_start == s_start && cov_end == s_end) {
                        assert(prev.resident(s));
                    }
                }
                assert forall|s: u64, i: int|
                    s < sector + 1 && (cached_right(before.cache, before.inner.contents(), i)
                        || offset <= i < end) implies #[trigger] copy_right(
                    self.cache,
                    contents,
                    s,
                    i,
                ) by {
                    if self.cache.resident(s) && s * 512 <= i < s * 512 + 512 {
                        if s < sector {
                            assert(prev.resident(s));
                            assert(copy_right(prev, contents, s, i));
                        } else {
                            assert(s == id);
                            if cov_start == s_start && cov_end == s_end {
                                assert(self.cache.data(s)[i - s * 512] == src[i - s * 512]);
                                assert(contents[i] == buf@[i - offset]);
                            } else {
                                assert(prev.resident(s));
                                assert(before.cache.resident(s));
                                if cov_start <= i < cov_end {
                                    assert(contents[i] == buf@[i - offset]);
                                } else {
                                    assert(!(offset <= i < end));
                                    assert(before.cache.data(s)[i - s * 512]
                                        == before.inner.contents()[i]);
                                }
                            }
                        }
                    }
                }
            }
            proof {
                let src = buf@.subrange(cov_start - offset, cov_end - offset);
                if cov_start == s_start && cov_end == s_end {
                    assert(id == fw + m);
                    lemma_restock_step(before.cache, prev, self.cache, fw, m, src);
                    if usable {
                        lemma_refill_step(before.cache, prev, self.cache, fw, m, src);
                    }
                    m = m + 1;
                } else {
                    lemma_patch_keeps_stock(before.cache, prev, self.cache, fw, m);
                }
                assert forall|s: u64, j: int|
                    s < sector + 1 && self.cache.resident(s) && 0 <= j < 512
                    implies #[trigger] self.cache.data(s)[j] == note(
                    before.cache,
                    offset as int,
                    data,
                    s,
                    j,
                ) by {
                    if s != id {
                        assert(prev.resident(s));
                        assert(prev.data(s)[j] == note(before.cache, offset as int, data, s, j));
                    } else if !(cov_start == s_start && cov_end == s_end) {
                        assert(prev.resident(s));
                        assert(before.cache.resident(s));
                    }
                }
            }
            sector = sector + 1;
        }
        proof {
            assert forall|s: u64, j: int|
                self.cache.resident(s) && 0 <= j < 512
                implies #[trigger] self.cache.data(s)[j] == note(
                before.cache,
                offset as int,
                data,
                s,
                j,
            ) by {
                if s >= sector {
                    assert(before.cache.resident(s));
                }
            }
            assert(m == wc);
            assert forall|i: int| before.sound_at(i) || offset <= i < offset + n
                implies #[trigger] self.sound_at(i) by {
                assert(old(self).inner.sound_at(i));
                assert forall|s: u64| #[trigger]
                    self.cache.resident(s) && s * 512 <= i < s * 512 + 512 implies self.cache.data(
                    s,
                )[i - s * 512] == contents[i] by {
                    if s >= sector {
                        assert(before.cache.resident(s));
                        assert(!(offset <= i < end));
                    } else {
                        assert(copy_right(self.cache, contents, s, i));
                    }
                }
            }
        }
    }
}

/// The sectors that a write takes into the cache are those that it covers from end to end.
pub proof fn law_whole_sectors(offset: int, len: int, s: int)
    requires
        0 <= offset,
        0 <= len,
        offset + len <= u64::MAX,
    ensures
        first_whole(offset) <= s < first_whole(offset) + whole_count(offset, len) <==> offset <= s * 512
            && s * 512 + 512 <= offset + len,
{
}

/// A cache that is right about a byte of a device stays right about it when bytes are written to the
/// device and noted in the cache.
pub proof fn law_noted_stays_right(
    before: BlockCache,
    after: BlockCache,
    contents: Seq<u8>,
    offset: int,
    data: Seq<u8>,
    i: int,
)
    requires
        noted(before, after, offset, data),
        0 <= offset,
        offset + data.len() <= contents.len() <= u64::MAX,
        0 <= i < contents.len(),
        cached_right(before, contents, i),
    ensures
        cached_right(after, splice(contents, offset, data), i),
{
    let changed = splice(contents, offset, data);
    assert forall|s: u64| #[trigger] after.resident(s) && s * 512 <= i < s * 512 + 512 implies after.data(
        s,
    )[i - s * 512] == changed[i] by {
        law_whole_sectors(offset, data.len() as int, s as int);
        assert(after.data(s)[i - s * 512] == note(before, offset, data, s, i - s * 512));
        if !(offset <= i < offset + data.len()) {
            assert(before.resident(s));
        }
    }
}

/// A cache that is right about a byte of a device stays right about it when sectors are filled with
/// what the device holds.
pub proof fn law_refilled_stays_right(
    before: BlockCache,
    after: BlockCache,
    contents: Seq<u8>,
    first: u64,
    data: Seq<u8>,
    n: int,
    i: int,
)
    requires
        refilled(before, after, first, data, n),
        0 <= n,
        n * 512 <= data.len(),
        forall|k: int| 0 <= k < n * 512 ==> #[trigger] data[k] == contents[first * 512 + k],
        0 <= i < contents.len(),
        cached_right(before, contents, i),
    ensures
        cached_right(after, contents, i),
{
    assert forall|s: u64| #[trigger] after.resident(s) && s * 512 <= i < s * 512 + 512 implies after.data(
        s,
    )[i - s * 512] == contents[i] by {
        if first <= s < first + n {
            let k = (s - first) * 512 + (i - s * 512);
            assert(data[k] == contents[first * 512 + k]);
        } else {
            assert(before.resident(s));
        }
    }
}

/// Looking sectors up changes no copy and makes the sectors looked at the newest, in order; the rest
/// keep their age.
pub proof fn law_lookup_freshens(before: BlockCache, after: BlockCache, first: u64, n: int, s: u64)
    requires
        consulted(before, after, first, n),
        0 <= n,
        before.clock + n <= u64::MAX,
        after.resident(s),
    ensures
        before.resident(s) && after.data(s) == before.data(s) && after.capacity == before.capacity,
        after.clock == before.clock + n,
        first <= s < first + n ==> after.stamp(s) == before.clock + (s - first),
        !(first <= s < first + n) ==> after.stamp(s) == before.stamp(s),
{
}

} // verus!
