//! A sector-granular least-recently-used cache and a tracker of sequential read streams.
use vstd::prelude::*;
use std::collections::BTreeMap;
use crate::bytes::{copy_into, splice};

verus! {

broadcast use {vstd::std_specs::btree::group_btree_axioms, vstd::laws_cmp::group_laws_cmp};

/// One cached sector and the tick of its last access.
pub struct CacheLine {
    pub data: [u8; 512],
    pub tick: u64,
}

/// A sector-granular LRU cache. The lines are keyed by sector number; `lru` maps the tick of
/// each line's last access to its sector, so its first entry is the next victim.
pub struct BlockCache {
    pub lines: BTreeMap<u64, CacheLine>,
    pub lru: BTreeMap<u64, u64>,
    pub clock: u64,
    pub capacity: usize,
}

/// Whether `after` is `before` with a whole sector stored in it. The sector is there, touched last;
/// every other sector that is there was there before and is as it was. While the index is exact, no
/// sector leaves but the one touched longest ago, and that one only where a new sector finds the
/// cache full; and the index stays exact until the tick wraps.
pub open spec fn stored(before: BlockCache, after: BlockCache, sector: u64, data: Seq<u8>) -> bool {
    &&& after.resident(sector)
    &&& after.data(sector) == data
    &&& after.stamp(sector) == before.clock
    &&& after.clock == if before.clock == u64::MAX {
        0
    } else {
        before.clock + 1
    }
    &&& after.capacity == before.capacity
    &&& forall|s: u64|
        s != sector && #[trigger] after.resident(s) ==> before.resident(s) && after.data(s)
            == before.data(s) && after.stamp(s) == before.stamp(s)
    &&& before.resident(sector) ==> after.lines@.dom() == before.lines@.dom()
    &&& before.exact() ==> {
        &&& after.lines@.len() <= after.capacity
        &&& before.clock < u64::MAX ==> after.exact()
        &&& !before.resident(sector) && before.lines@.len() < before.capacity ==> after.lines@.dom()
            == before.lines@.dom().insert(sector)
        &&& !before.resident(sector) && before.lines@.len() == before.capacity ==> exists|v: u64|
            #[trigger] before.is_oldest(v) && after.lines@.dom() == before.lines@.dom().remove(
                v,
            ).insert(sector)
    }
}

/// Whether `after` is `before` once a sector was looked up in it: the same sectors with the same
/// bytes, and the sector touched last if it is there.
pub open spec fn looked_up(before: BlockCache, after: BlockCache, sector: u64) -> bool {
    &&& after.same_data(&before)
    &&& after.clock == if before.clock == u64::MAX {
        0
    } else {
        before.clock + 1
    }
    &&& before.resident(sector) ==> after.stamp(sector) == before.clock
    &&& forall|s: u64|
        before.resident(s) && s != sector ==> #[trigger] after.stamp(s) == before.stamp(s)
    &&& before.exact() && before.clock < u64::MAX ==> after.exact()
}

/// However full the cache is, storing one more sector leaves it within its capacity with that sector
/// in it, keeps whatever fits, and costs at most one other sector: the one touched longest ago.
pub proof fn law_insert_evicts_oldest(
    before: BlockCache,
    after: BlockCache,
    sector: u64,
    data: Seq<u8>,
    other: u64,
)
    requires
        before.exact(),
        stored(before, after, sector, data),
    ensures
        after.lines@.len() <= after.capacity,
        after.resident(sector) && after.data(sector) == data,
        after.resident(other) && other != sector ==> before.resident(other) && after.data(other)
            == before.data(other),
        before.resident(other) && !after.resident(other) ==> {
            &&& before.is_oldest(other)
            &&& !before.resident(sector)
            &&& before.lines@.len() == before.capacity
            &&& after.lines@.dom() == before.lines@.dom().remove(other).insert(sector)
        },
        !before.resident(sector) && before.lines@.len() == before.capacity && before.is_oldest(other)
            ==> !after.resident(other),
{
    if before.resident(other) && other != sector && !before.resident(sector) && before.lines@.len()
        == before.capacity {
        let v = choose|v: u64| #[trigger]
            before.is_oldest(v) && after.lines@.dom() == before.lines@.dom().remove(v).insert(
                sector,
            );
        assert(after.lines@.dom().contains(other) <==> other != v);
        if before.is_oldest(other) {
            assert(before.stamp(other) == before.stamp(v));
            assert(before.lru@[before.lines@[other].tick] == other);
            assert(before.lru@[before.lines@[v].tick] == v);
        }
    }
}

/// A read protects a sector: looked up, it survives the next sector that is stored, in any cache
/// that holds at least two.
pub proof fn law_read_protects(
    before: BlockCache,
    read: BlockCache,
    after: BlockCache,
    sector: u64,
    next: u64,
    data: Seq<u8>,
)
    requires
        before.exact(),
        before.clock < u64::MAX,
        before.capacity >= 2,
        before.resident(sector),
        looked_up(before, read, sector),
        stored(read, after, next, data),
    ensures
        after.resident(sector),
{
    assert(read.resident(sector));
    if sector != next && !after.resident(sector) {
        law_insert_evicts_oldest(read, after, next, data, sector);
        let d = read.lines@.dom().remove(sector);
        assert(d.len() > 0);
        let s = d.choose();
        assert(d.contains(s));
        assert(read.resident(s));
        assert(before.resident(s));
        assert(read.stamp(s) == before.stamp(s));
        assert(before.stamp(s) < before.clock);
    }
}

/// The smallest key of a map.
fn first_key(m: &BTreeMap<u64, u64>) -> (r: Option<u64>)
    ensures
        r is None ==> m@.dom() =~= Set::empty(),
        r matches Some(k) ==> m@.contains_key(k) && forall|j: u64| m@.contains_key(j) ==> k <= j,
{
    for k in it: m.keys()
        invariant
            it.index() == 0,
            vstd::std_specs::btree::increasing_seq(it.seq()),
            it.seq().unref().to_set() == m@.dom(),
    {
        proof {
            let all = it.seq();
            assert(vstd::laws_cmp::obeys_cmp::<&u64>());
            assert(all.unref()[0] == *all[0]);
            assert(all.unref().to_set().contains(*all[0]));
            assert forall|j: u64| m@.contains_key(j) implies *all[0] <= j by {
                assert(all.unref().to_set().contains(j));
                let i = choose|i: int| 0 <= i < all.unref().len() && all.unref()[i] == j;
                assert(*all[i] == j);
                if i > 0 {
                    assert(vstd::std_specs::cmp::OrdSpec::cmp_spec(&all[0], &all[i]) is Less);
                    assert(vstd::std_specs::cmp::OrdSpec::cmp_spec(all[0], all[i]) is Less);
                }
            }
        }
        return Some(*k);
    }
    None
}

impl BlockCache {
    /// Whether a sector is in the cache.
    pub open spec fn resident(&self, sector: u64) -> bool {
        self.lines@.contains_key(sector)
    }

    /// The cached bytes of a resident sector.
    pub open spec fn data(&self, sector: u64) -> Seq<u8> {
        self.lines@[sector].data@
    }

    /// The tick of a resident sector's last access.
    pub open spec fn stamp(&self, sector: u64) -> u64 {
        self.lines@[sector].tick
    }

    /// The LRU index lists exactly the resident sectors under their ticks, every tick was handed
    /// out before, and the cache is within its capacity. Holds until the 64-bit tick wraps.
    pub open spec fn exact(&self) -> bool {
        &&& 1 <= self.capacity
        &&& self.lines@.len() <= self.capacity
        &&& forall|s: u64| #[trigger]
            self.lines@.contains_key(s) ==> {
                &&& self.lines@[s].tick < self.clock
                &&& self.lru@.contains_key(self.lines@[s].tick)
                &&& self.lru@[self.lines@[s].tick] == s
            }
        &&& forall|t: u64| #[trigger]
            self.lru@.contains_key(t) ==> {
                &&& self.lines@.contains_key(self.lru@[t])
                &&& self.lines@[self.lru@[t]].tick == t
            }
    }

    /// `v` is the resident sector that was touched longest ago.
    pub open spec fn is_oldest(&self, v: u64) -> bool {
        self.resident(v) && forall|s: u64| #[trigger]
            self.resident(s) ==> self.stamp(v) <= self.stamp(s)
    }

    /// What every operation but `insert` and `patch` keeps: the same sectors with the same bytes.
    pub open spec fn same_data(&self, other: &Self) -> bool {
        &&& self.lines@.dom() =~= other.lines@.dom()
        &&& forall|s: u64| #[trigger] self.resident(s) ==> self.data(s) == other.data(s)
        &&& self.capacity == other.capacity
    }

    pub fn new(capacity: usize) -> (c: Self)
        ensures
            c.exact(),
            c.lines@ == Map::<u64, CacheLine>::empty(),
            c.capacity == if capacity >= 1 { capacity } else { 1 },
            c.clock == 1,
    {
        BlockCache {
            lines: BTreeMap::new(),
            lru: BTreeMap::new(),
            clock: 1,
            capacity: if capacity >= 1 { capacity } else { 1 },
        }
    }

    pub fn contains(&self, sector: u64) -> (b: bool)
        ensures
            b == self.resident(sector),
    {
        self.lines.contains_key(&sector)
    }

    /// Hands out the next access tick.
    pub fn next_tick(&mut self) -> (t: u64)
        ensures
            t == old(self).clock,
            final(self).clock == if old(self).clock == u64::MAX { 0 } else { old(self).clock + 1 },
            final(self).lines == old(self).lines,
            final(self).lru == old(self).lru,
            final(self).capacity == old(self).capacity,
    {
        let t: u64 = self.clock;
        self.clock = self.clock.wrapping_add(1);
        t
    }

    /// Copies `dst.len()` bytes starting at `off` out of a cached sector and marks the sector
    /// most recently used. `false` on a miss.
    pub fn read_into(&mut self, sector: u64, off: usize, dst: &mut [u8]) -> (hit: bool)
        requires
            off + old(dst)@.len() <= 512,
        ensures
            hit == old(self).resident(sector),
            hit ==> final(dst)@ == old(self).data(sector).subrange(off as int, off + old(dst)@.len()),
            !hit ==> final(dst)@ == old(dst)@,
            looked_up(*old(self), *final(self), sector),
    {
        let new_tick: u64 = self.next_tick();
        match self.lines.remove(&sector) {
            Some(mut line) => {
                let n: usize = dst.len();
                copy_into(dst, 0, &line.data.as_slice()[off..off + n]);
                assert(dst@ =~= old(self).data(sector).subrange(off as int, off + n));
                let old_tick: u64 = line.tick;
                line.tick = new_tick;
                self.lines.insert(sector, line);
                self.lru.remove(&old_tick);
                self.lru.insert(new_tick, sector);
                proof {
                    assert(self.lines@ == old(self).lines@.insert(sector, line));
                    assert(self.lines@.dom() =~= old(self).lines@.dom());
                }
                true
            },
            None => {
                assert(self.lines@ =~= old(self).lines@);
                false
            },
        }
    }

    /// Stores a whole sector, evicting the least recently used one if the cache is full.
    pub fn insert(&mut self, sector: u64, data: &[u8])
        requires
            data@.len() == 512,
        ensures
            stored(*old(self), *final(self), sector, data@),
    {
        let new_tick: u64 = self.next_tick();
        let ghost before = *old(self);
        let ghost usable = before.exact();
        let mut copy: [u8; 512] = [0u8; 512];
        copy_into(&mut copy, 0, data);
        assert(copy@ =~= data@);
        match self.lines.remove(&sector) {
            Some(mut line) => {
                let old_tick: u64 = line.tick;
                line.data = copy;
                line.tick = new_tick;
                self.lines.insert(sector, line);
                self.lru.remove(&old_tick);
                self.lru.insert(new_tick, sector);
                proof {
                    assert(self.lines@ == before.lines@.insert(sector, line));
                    assert(self.lines@.dom() =~= before.lines@.dom());
                }
                return ;
            },
            None => {},
        }
        assert(self.lines@ =~= before.lines@);
        let ghost mut victim: Option<u64> = None;
        while self.lines.len() >= self.capacity
            invariant
                self.capacity == before.capacity,
                self.clock == if before.clock == u64::MAX { 0u64 } else { (before.clock + 1) as u64 },
                new_tick == before.clock,
                !before.resident(sector),
                usable == before.exact(),
                !self.lines@.contains_key(sector),
                forall|s: u64| #[trigger]
                    self.lines@.contains_key(s) ==> before.lines@.contains_key(s) && self.lines@[s]
                        == before.lines@[s],
                usable ==> match victim {
                    None => self.lines@ == before.lines@ && self.lru@ == before.lru@,
                    Some(v) => {
                        &&& before.is_oldest(v)
                        &&& before.lines@.len() == before.capacity
                        &&& self.lines@ == before.lines@.remove(v)
                        &&& self.lru@ == before.lru@.remove(before.stamp(v))
                        &&& self.lines@.len() < self.capacity
                    },
                },
            ensures
                self.capacity == before.capacity,
                self.clock == if before.clock == u64::MAX { 0u64 } else { (before.clock + 1) as u64 },
                !self.lines@.contains_key(sector),
                forall|s: u64| #[trigger]
                    self.lines@.contains_key(s) ==> before.lines@.contains_key(s) && self.lines@[s]
                        == before.lines@[s],
                usable ==> self.lines@.len() < self.capacity && match victim {
                    None => self.lines@ == before.lines@ && self.lru@ == before.lru@,
                    Some(v) => {
                        &&& before.is_oldest(v)
                        &&& before.lines@.len() == before.capacity
                        &&& self.lines@ == before.lines@.remove(v)
                        &&& self.lru@ == before.lru@.remove(before.stamp(v))
                    },
                },
            decreases self.lru@.len(),
        {
            match first_key(&self.lru) {
                None => {
                    proof {
                        if usable {
                            assert(before.lines@.len() > 0);
                            let s = before.lines@.dom().choose();
                            assert(before.lines@.contains_key(s));
                            assert(self.lru@.contains_key(before.lines@[s].tick));
                        }
                    }
                    break ;
                },
                Some(t) => {
                    if let Some(v) = self.lru.remove(&t) {
                        self.lines.remove(&v);
                        proof {
                            if usable {
                                victim = Some(v);
                                assert forall|s: u64| #[trigger]
                                    before.resident(s) implies before.stamp(v) <= before.stamp(
                                    s,
                                ) by {
                                    assert(before.lru@.contains_key(before.lines@[s].tick));
                                }
                            }
                        }
                    }
                },
            }
        }
        let line = CacheLine { data: copy, tick: new_tick };
        self.lines.insert(sector, line);
        self.lru.insert(new_tick, sector);
        proof {
            if usable {
                match victim {
                    None => {
                        assert(self.lines@.dom() =~= before.lines@.dom().insert(sector));
                    },
                    Some(v) => {
                        assert(before.is_oldest(v));
                        assert(self.lines@.dom() =~= before.lines@.dom().remove(v).insert(sector));
                    },
                }
            }
        }
    }

    /// Overwrites bytes of a resident sector; an absent sector stays absent.
    pub fn patch(&mut self, sector: u64, off: usize, src: &[u8])
        requires
            off + src@.len() <= 512,
        ensures
            final(self).lines@.dom() == old(self).lines@.dom(),
            old(self).resident(sector) ==> final(self).data(sector) == splice(
                old(self).data(sector),
                off as int,
                src@,
            ),
            forall|s: u64|
                s != sector && #[trigger] final(self).resident(s) ==> final(self).data(s) == old(
                    self).data(s),
            forall|s: u64| #[trigger] final(self).resident(s) ==> final(self).stamp(s) == old(
                self).stamp(s),
            final(self).clock == old(self).clock,
            final(self).capacity == old(self).capacity,
            old(self).exact() ==> final(self).exact(),
    {
        match self.lines.remove(&sector) {
            Some(mut line) => {
                copy_into(&mut line.data, off, src);
                self.lines.insert(sector, line);
                proof {
                    assert(self.lines@ == old(self).lines@.insert(sector, line));
                    assert(self.lines@.dom() =~= old(self).lines@.dom());
                }
            },
            None => {
                assert(self.lines@ =~= old(self).lines@);
            },
        }
    }
}

/// One sequential-read stream.
#[derive(Clone, Copy)]
pub struct Stream {
    pub valid: bool,
    /// Device offset one past the stream's most recent backing read.
    pub last_end: usize,
    /// Number of exact continuations seen.
    pub confidence: u32,
    /// Tick of the last use.
    pub lru: u64,
}

/// How many streams are tracked at once.
pub const NUM_STREAMS: usize = 8;

/// Exact continuations after which a stream is read ahead.
pub const CONF_THRESH: u32 = 1;

/// The most recent sequential-read streams.
pub struct StreamRing {
    pub slots: [Stream; 8],
    pub clock: u64,
}

/// Whether a stream continues at `start`.
pub open spec fn continues(s: Stream, start: usize) -> bool {
    s.valid && s.last_end == start
}

/// Whether slot `a` is a better victim than `b`: unused before used, then least recently used.
pub open spec fn before_as_victim(a: Stream, b: Stream) -> bool {
    (!a.valid && b.valid) || (a.valid == b.valid && a.lru < b.lru)
}

/// `v` is the first of the best victims.
pub open spec fn is_victim(slots: Seq<Stream>, v: int) -> bool {
    &&& 0 <= v < slots.len()
    &&& forall|k: int| 0 <= k < slots.len() ==> !before_as_victim(#[trigger] slots[k], slots[v])
    &&& forall|k: int| 0 <= k < v ==> before_as_victim(slots[v], #[trigger] slots[k])
}

/// Where a read of a proven stream ends.
pub open spec fn window_end(aligned_end: int, window: int, dev_end: int) -> int {
    if aligned_end + window <= dev_end {
        aligned_end + window
    } else if dev_end >= aligned_end {
        dev_end
    } else {
        aligned_end
    }
}

/// Whether a request with these bounds is to be read up to `read_end` and followed in `slot`, and
/// `after` is the ring that says so. A stream that the request continues is read ahead by `window`,
/// never past `dev_end`; any other request takes the best victim's slot and is read as asked.
pub open spec fn planned(
    before: StreamRing,
    after: StreamRing,
    aligned_start: usize,
    aligned_end: usize,
    buf_len: usize,
    window: usize,
    dev_end: usize,
    read_end: usize,
    slot: usize,
) -> bool {
    let olds = before.slots@;
    let news = after.slots@;
    let i = slot as int;
    &&& slot < 8
    &&& aligned_end <= read_end
    &&& read_end <= dev_end || read_end == aligned_end
    &&& after.clock == if before.clock == u64::MAX {
        0
    } else {
        before.clock + 1
    }
    &&& if exists|k: int| 0 <= k < 8 && continues(#[trigger] olds[k], aligned_start) {
        &&& continues(olds[i], aligned_start)
        &&& forall|k: int| 0 <= k < i ==> !continues(#[trigger] olds[k], aligned_start)
        &&& read_end == if buf_len < window {
            window_end(aligned_end as int, window as int, dev_end as int)
        } else {
            aligned_end as int
        }
        &&& news == olds.update(
            i,
            Stream {
                valid: true,
                last_end: read_end,
                confidence: if olds[i].confidence == u32::MAX {
                    u32::MAX
                } else {
                    (olds[i].confidence + 1) as u32
                },
                lru: after.clock,
            },
        )
    } else {
        &&& read_end == aligned_end
        &&& is_victim(olds, i)
        &&& news == olds.update(
            i,
            Stream { valid: true, last_end: aligned_end, confidence: 0, lru: after.clock },
        )
    }
}

/// Whether `after` is `before` once the stream in `slot` was found to end at `end`.
pub open spec fn committed(before: StreamRing, after: StreamRing, slot: usize, end: usize) -> bool {
    &&& after.slots@ == before.slots@.update(
        slot as int,
        Stream { last_end: end, ..before.slots@[slot as int] },
    )
    &&& after.clock == before.clock
}

/// A ring that follows no stream yet.
pub open spec fn follows_nothing(r: StreamRing) -> bool {
    forall|k: int| 0 <= k < 8 ==> !(#[trigger] r.slots@[k]).valid
}

/// The first request of a stream is read as asked, and the one that goes on where its backing read
/// ended is read ahead, as far as the window reaches or the device goes.
pub proof fn law_sequential_reads_go_ahead(
    fresh: StreamRing,
    first: StreamRing,
    done: StreamRing,
    second: StreamRing,
    start: usize,
    middle: usize,
    end: usize,
    len: usize,
    window: usize,
    dev_end: usize,
    ends: (usize, usize),
    slots: (usize, usize),
)
    requires
        follows_nothing(fresh),
        planned(fresh, first, start, middle, len, window, dev_end, ends.0, slots.0),
        committed(first, done, slots.0, middle),
        planned(done, second, middle, end, len, window, dev_end, ends.1, slots.1),
    ensures
        ends.0 == middle,
        len < window ==> ends.1 == window_end(end as int, window as int, dev_end as int),
{
    assert(forall|k: int| 0 <= k < 8 ==> !continues(#[trigger] fresh.slots@[k], start));
    assert(continues(done.slots@[slots.0 as int], middle));
}

impl StreamRing {
    pub fn new() -> (r: Self)
        ensures
            follows_nothing(r),
            forall|k: int| 0 <= k < 8 ==> (#[trigger] r.slots@[k]).lru == 0,
            r.clock == 0,
    {
        StreamRing {
            slots: [Stream { valid: false, last_end: 0, confidence: 0, lru: 0 };8],
            clock: 0,
        }
    }

    /// Chooses how far to read for a request with sector-aligned bounds, and the slot that
    /// follows the request's stream. A stream that the request continues is read ahead by
    /// `window` (never past `dev_end`); any other request starts a fresh stream and is read as
    /// asked.
    pub fn plan(
        &mut self,
        aligned_start: usize,
        aligned_end: usize,
        buf_len: usize,
        window: usize,
        dev_end: usize,
    ) -> (r: (usize, usize))
        ensures
            planned(
                *old(self),
                *final(self),
                aligned_start,
                aligned_end,
                buf_len,
                window,
                dev_end,
                r.0,
                r.1,
            ),
    {
        self.clock = self.clock.wrapping_add(1);
        let tick: u64 = self.clock;
        let ghost olds = self.slots@;
        let mut i: usize = 0;
        while i < NUM_STREAMS
            invariant
                i <= 8,
                self.slots@ == olds,
                self.clock == tick,
                tick == if old(self).clock == u64::MAX { 0u64 } else { (old(self).clock + 1) as u64 },
                olds == old(self).slots@,
                forall|k: int| 0 <= k < i ==> !continues(#[trigger] olds[k], aligned_start),
            decreases 8 - i,
        {
            let s = self.slots[i];
            if s.valid && s.last_end == aligned_start {
                let confidence: u32 = s.confidence.saturating_add(1);
                let mut read_end: usize = aligned_end;
                if buf_len < window && confidence >= CONF_THRESH {
                    if dev_end >= aligned_end {
                        read_end = if window <= dev_end - aligned_end {
                            aligned_end + window
                        } else {
                            dev_end
                        };
                    }
                }
                self.slots[i] = Stream { valid: true, last_end: read_end, confidence, lru: tick };
                assert(continues(olds[i as int], aligned_start));
                return (read_end, i);
            }
            i = i + 1;
        }
        let mut v: usize = 0;
        let mut k: usize = 1;
        while k < NUM_STREAMS
            invariant
                1 <= k <= 8,
                v < k,
                self.slots@ == olds,
                self.clock == tick,
                tick == if old(self).clock == u64::MAX { 0u64 } else { (old(self).clock + 1) as u64 },
                olds == old(self).slots@,
                forall|j: int| 0 <= j < k ==> !before_as_victim(#[trigger] olds[j], olds[v as int]),
                forall|j: int| 0 <= j < v ==> before_as_victim(olds[v as int], #[trigger] olds[j]),
                forall|j: int| 0 <= j < 8 ==> !continues(#[trigger] olds[j], aligned_start),
            decreases 8 - k,
        {
            let a = self.slots[k];
            let b = self.slots[v];
            if (!a.valid && b.valid) || (a.valid == b.valid && a.lru < b.lru) {
                v = k;
            }
            k = k + 1;
        }
        self.slots[v] = Stream { valid: true, last_end: aligned_end, confidence: 0, lru: tick };
        (aligned_end, v)
    }

    /// Records where the backing read of a stream really ended.
    pub fn commit(&mut self, slot: usize, actual_end: usize)
        requires
            slot < 8,
        ensures
            committed(*old(self), *final(self), slot, actual_end),
    {
        let s = self.slots[slot];
        self.slots[slot] = Stream {
            valid: s.valid,
            last_end: actual_end,
            confidence: s.confidence,
            lru: s.lru,
        };
    }
}

/// What is read ahead goes one window past the request, or to the end of the device, and never stops
/// short of the request.
pub proof fn law_window(aligned_end: int, window: int, dev_end: int)
    requires
        0 <= window,
    ensures
        aligned_end <= window_end(aligned_end, window, dev_end) <= aligned_end + window,
        window_end(aligned_end, window, dev_end) <= dev_end || window_end(aligned_end, window, dev_end)
            == aligned_end,
        window_end(aligned_end, window, dev_end) == aligned_end + window || window_end(
            aligned_end,
            window,
            dev_end,
        ) >= dev_end,
{
}

/// A stream that follows nothing yet gives way before one that does, and of those that do the one left
/// unused the longest, the first of equals.
pub proof fn law_victim(slots: Seq<Stream>, v: int, k: int)
    requires
        is_victim(slots, v),
        0 <= k < slots.len(),
    ensures
        slots[v].valid ==> slots[k].valid,
        slots[k].valid == slots[v].valid ==> slots[v].lru <= slots[k].lru,
        k < v && slots[k].valid == slots[v].valid ==> slots[v].lru < slots[k].lru,
{
}

/// Only a read that starts where a stream ended, and is shorter than the window, reads ahead; the stream
/// then ends where the read does, and the other streams stay as they are.
pub proof fn law_read_ahead_for_streams(
    before: StreamRing,
    after: StreamRing,
    aligned_start: usize,
    aligned_end: usize,
    buf_len: usize,
    window: usize,
    dev_end: usize,
    read_end: usize,
    slot: usize,
    k: int,
)
    requires
        planned(
            before,
            after,
            aligned_start,
            aligned_end,
            buf_len,
            window,
            dev_end,
            read_end,
            slot,
        ),
        0 <= k < 8,
    ensures
        read_end > aligned_end ==> buf_len < window && before.slots@[slot as int].valid
            && before.slots@[slot as int].last_end == aligned_start,
        before.slots@[k].valid && before.slots@[k].last_end == aligned_start ==> slot <= k
            && before.slots@[slot as int].valid && before.slots@[slot as int].last_end == aligned_start,
        after.slots@[slot as int].valid && after.slots@[slot as int].last_end == read_end
            && after.slots@[slot as int].lru == after.clock,
        k != slot ==> after.slots@[k] == before.slots@[k],
        before.clock < u64::MAX ==> after.clock == before.clock + 1,
{
    if before.slots@[k].valid && before.slots@[k].last_end == aligned_start {
        assert(continues(before.slots@[k], aligned_start));
    }
}

/// A finished read moves the end of its stream and nothing else.
pub proof fn law_commit_moves_one_end(before: StreamRing, after: StreamRing, slot: usize, end: usize, k: int)
    requires
        committed(before, after, slot, end),
        slot < 8,
        0 <= k < 8,
        before.slots@.len() == 8,
    ensures
        after.slots@[slot as int].last_end == end,
        after.slots@[slot as int].valid == before.slots@[slot as int].valid,
        after.slots@[slot as int].confidence == before.slots@[slot as int].confidence,
        after.slots@[slot as int].lru == before.slots@[slot as int].lru,
        k != slot ==> after.slots@[k] == before.slots@[k],
        after.clock == before.clock,
{
}

/// A sector that is stored is there with its bytes and is the newest; no other copy changes or
/// appears. None is lost for it where it was there already or where there is room, and one at most
/// otherwise.
pub proof fn law_store_keeps_others(
    before: BlockCache,
    after: BlockCache,
    sector: u64,
    data: Seq<u8>,
    s: u64,
)
    requires
        stored(before, after, sector, data),
    ensures
        after.resident(sector) && after.data(sector) == data && after.stamp(sector) == before.clock,
        s != sector && after.resident(s) ==> before.resident(s) && after.data(s) == before.data(s)
            && after.stamp(s) == before.stamp(s),
        before.resident(sector) && before.resident(s) ==> after.resident(s),
        before.exact() && before.lines@.len() < before.capacity && before.resident(s)
            ==> after.resident(s),
        before.exact() && before.resident(s) && !after.resident(s) ==> before.lines@.len()
            >= before.capacity && !before.resident(sector),
        before.clock < u64::MAX ==> after.clock == before.clock + 1,
        before.exact() && before.clock < u64::MAX ==> after.exact(),
        before.exact() ==> after.lines@.len() <= after.capacity,
        after.capacity == before.capacity,
{
    if before.resident(s) {
        assert(before.lines@.dom().contains(s));
        if before.exact() && before.lines@.len() < before.capacity {
            assert(after.lines@.dom().contains(s));
        }
    }
}

} // verus!
