//! The page cache: one memory object per file serves all mappings of it.
//!
//! A private mapping borrows the pages of the object and copies those it writes; a shared mapping
//! maps it directly. Only an object that was ever mapped shared can differ from its file, so only
//! such a one is written back when it is dropped.
use vstd::prelude::*;
use crate::error::LxError;
use crate::file::PAGE_SIZE;
use crate::vfs::FileType;

verus! {

/// Identity of a file: its file system and its number there.
#[derive(Clone, Copy, PartialEq, Eq, Structural, Debug)]
pub struct CacheKey {
    pub fs: usize,
    pub inode: usize,
}

/// A cached file.
#[derive(Clone, Copy, PartialEq, Eq, Structural, Debug)]
pub struct CacheEntry {
    pub key: CacheKey,
    pub vmo: u64,
    /// Bytes that the memory object covers: whole pages.
    pub len: usize,
    /// Whether it was ever mapped shared.
    pub shared: bool,
}

/// Who else holds on to a cached file.
#[derive(Clone, Copy, PartialEq, Eq, Structural, Debug)]
pub struct Holders {
    /// References to the memory object, the cache's own with them.
    pub vmo_refs: usize,
    /// References to the inode; the memory object holds one.
    pub inode_refs: usize,
    /// Links of the file, where its inode still lives.
    pub nlinks: Option<usize>,
}

/// The identity of a file; a file without a number is known by its handle alone and never taken
/// for another.
pub open spec fn key_of(inode: Option<usize>, fs: usize, handle: usize) -> CacheKey {
    match inode {
        Some(n) => if n != 0 {
            CacheKey { fs, inode: n }
        } else {
            CacheKey { fs: handle, inode: usize::MAX }
        },
        None => CacheKey { fs: handle, inode: usize::MAX },
    }
}

/// The identity of a file: `inode` is its number where its metadata can be had.
pub fn cache_key(inode: Option<usize>, fs: usize, handle: usize) -> (k: CacheKey)
    ensures
        k == key_of(inode, fs, handle),
{
    match inode {
        Some(n) => {
            if n != 0 {
                CacheKey { fs, inode: n }
            } else {
                CacheKey { fs: handle, inode: usize::MAX }
            }
        },
        None => CacheKey { fs: handle, inode: usize::MAX },
    }
}

/// Whether an entry is still in use: something maps it, or some descriptor is open.
pub open spec fn in_use(h: Holders) -> bool {
    h.vmo_refs > 1 || h.inode_refs > 1
}

/// Whether an entry is written back before it goes: it was mapped shared, and its file can still
/// be opened by name.
pub open spec fn needs_writeback(e: CacheEntry, h: Holders) -> bool {
    e.shared && (h.nlinks matches Some(n) && n > 0)
}

/// The entries that stay.
pub open spec fn kept(s: Seq<CacheEntry>, h: Seq<Holders>) -> Seq<CacheEntry>
    decreases s.len(),
{
    if s.len() == 0 {
        s
    } else if in_use(h[s.len() - 1]) {
        kept(s.drop_last(), h).push(s.last())
    } else {
        kept(s.drop_last(), h)
    }
}

/// The entries that go and are to be written back first.
pub open spec fn flushed(s: Seq<CacheEntry>, h: Seq<Holders>) -> Seq<CacheEntry>
    decreases s.len(),
{
    if s.len() == 0 {
        s
    } else if !in_use(h[s.len() - 1]) && needs_writeback(s.last(), h[s.len() - 1]) {
        flushed(s.drop_last(), h).push(s.last())
    } else {
        flushed(s.drop_last(), h)
    }
}

/// Where a file stands in the cache from `i` on; the length where it does not.
pub open spec fn key_pos(s: Seq<CacheEntry>, key: CacheKey, i: int) -> int
    decreases s.len() - i,
{
    if i < 0 || i >= s.len() {
        s.len() as int
    } else if s[i].key == key {
        i
    } else {
        key_pos(s, key, i + 1)
    }
}

/// Bytes in whole pages.
pub open spec fn whole_pages(n: int) -> int {
    (n + 4095) / 4096 * 4096
}

/// What the cache has for a mapping.
#[derive(Clone, Copy, PartialEq, Eq, Structural, Debug)]
pub enum CacheVmo {
    /// The object of the file.
    Existing(u64),
    /// A new object of so many bytes, of which as many as the file has come from it.
    Created { len: usize, source_len: usize },
    /// The object is too short: the file grew since it was made.
    TooShort,
}

/// The page cache.
pub struct PageCache {
    pub entries: Vec<CacheEntry>,
}

/// The larger of two numbers.
pub open spec fn larger(a: int, b: int) -> int {
    if a >= b {
        a
    } else {
        b
    }
}

/// What the cache has for a window of a file.
pub open spec fn cache_answer(
    s: Seq<CacheEntry>,
    key: CacheKey,
    file_size: int,
    offset: int,
    len: int,
) -> CacheVmo {
    let i = key_pos(s, key, 0);
    if i < s.len() {
        if offset + len > s[i].len {
            CacheVmo::TooShort
        } else {
            CacheVmo::Existing(s[i].vmo)
        }
    } else {
        CacheVmo::Created {
            len: whole_pages(larger(file_size, offset + len)) as usize,
            source_len: file_size as usize,
        }
    }
}

/// The cache after a mapping was asked for; `fresh` is the object made where there was none.
pub open spec fn cache_with(
    s: Seq<CacheEntry>,
    key: CacheKey,
    file_size: int,
    offset: int,
    len: int,
    shared: bool,
    fresh: u64,
) -> Seq<CacheEntry> {
    let i = key_pos(s, key, 0);
    if i < s.len() {
        if offset + len > s[i].len {
            s
        } else {
            s.update(i, CacheEntry { shared: s[i].shared || shared, ..s[i] })
        }
    } else {
        s.push(
            CacheEntry {
                key,
                vmo: fresh,
                len: whole_pages(larger(file_size, offset + len)) as usize,
                shared,
            },
        )
    }
}

impl PageCache {
    pub fn new() -> (c: Self)
        ensures
            c.entries@ == Seq::<CacheEntry>::empty(),
    {
        PageCache { entries: Vec::new() }
    }

    /// Drops the entries that nothing uses any more; `holders` says for each who holds on to it.
    /// Gives those to write back.
    pub fn prune_shared_vmos(&mut self, holders: &[Holders]) -> (flush: Vec<CacheEntry>)
        requires
            holders@.len() == old(self).entries@.len(),
        ensures
            final(self).entries@ == kept(old(self).entries@, holders@),
            flush@ == flushed(old(self).entries@, holders@),
    {
        let mut stay: Vec<CacheEntry> = Vec::new();
        let mut flush: Vec<CacheEntry> = Vec::new();
        let ghost all = self.entries@;
        assert(all.take(0) =~= Seq::empty());
        for i in 0..self.entries.len()
            invariant
                self.entries@ == all,
                holders@.len() == all.len(),
                stay@ == kept(all.take(i as int), holders@),
                flush@ == flushed(all.take(i as int), holders@),
        {
            assert(all.take(i + 1).drop_last() =~= all.take(i as int));
            let e: CacheEntry = self.entries[i];
            let h: Holders = holders[i];
            if h.vmo_refs > 1 || h.inode_refs > 1 {
                stay.push(e);
            } else {
                let linked: bool = match h.nlinks {
                    Some(n) => n > 0,
                    None => false,
                };
                if e.shared && linked {
                    flush.push(e);
                }
            }
        }
        assert(all.take(all.len() as int) =~= all);
        self.entries = stay;
        flush
    }

    fn position(&self, key: CacheKey) -> (r: Option<usize>)
        ensures
            match r {
                Some(i) => i == key_pos(self.entries@, key, 0) && i < self.entries@.len(),
                None => key_pos(self.entries@, key, 0) == self.entries@.len(),
            },
    {
        let mut i: usize = 0;
        while i < self.entries.len()
            invariant
                i <= self.entries@.len(),
                key_pos(self.entries@, key, 0) == key_pos(self.entries@, key, i as int),
            decreases self.entries@.len() - i,
        {
            if self.entries[i].key == key {
                return Some(i);
            }
            i = i + 1;
        }
        None
    }

    /// The object to map a window of a file with; `fresh` names the one that is made where the
    /// file has none. `mark_shared` says that the mapping is a shared one.
    pub fn inode_cache_vmo(
        &mut self,
        key: CacheKey,
        file_size: usize,
        offset: usize,
        len: usize,
        mark_shared: bool,
        fresh: u64,
    ) -> (r: CacheVmo)
        requires
            offset + len + 4096 <= usize::MAX,
            file_size + 4096 <= usize::MAX,
        ensures
            r == cache_answer(
                old(self).entries@,
                key,
                file_size as int,
                offset as int,
                len as int,
            ),
            final(self).entries@ == cache_with(
                old(self).entries@,
                key,
                file_size as int,
                offset as int,
                len as int,
                mark_shared,
                fresh,
            ),
    {
        match self.position(key) {
            Some(i) => {
                let e: CacheEntry = self.entries[i];
                if offset + len > e.len {
                    return CacheVmo::TooShort;
                }
                self.entries[i] = CacheEntry { shared: e.shared || mark_shared, ..e };
                CacheVmo::Existing(e.vmo)
            },
            None => {
                let end: usize = offset + len;
                let cover: usize = if file_size >= end {
                    file_size
                } else {
                    end
                };
                let bytes: usize = (cover + 4095) / 4096 * 4096;
                self.entries.push(CacheEntry { key, vmo: fresh, len: bytes, shared: mark_shared });
                CacheVmo::Created { len: bytes, source_len: file_size }
            },
        }
    }

    /// Drops what nothing uses any more, then looks up the object to map a window of a file with.
    /// Gives the entries to write back, and the object.
    pub fn lookup(
        &mut self,
        holders: &[Holders],
        key: CacheKey,
        file_size: usize,
        offset: usize,
        len: usize,
        mark_shared: bool,
        fresh: u64,
    ) -> (r: (Vec<CacheEntry>, CacheVmo))
        requires
            holders@.len() == old(self).entries@.len(),
            offset + len + 4096 <= usize::MAX,
            file_size + 4096 <= usize::MAX,
        ensures
            r.0@ == flushed(old(self).entries@, holders@),
            ({
                let s = kept(old(self).entries@, holders@);
                &&& r.1 == cache_answer(s, key, file_size as int, offset as int, len as int)
                &&& final(self).entries@ == cache_with(
                    s,
                    key,
                    file_size as int,
                    offset as int,
                    len as int,
                    mark_shared,
                    fresh,
                )
            }),
    {
        let flush = self.prune_shared_vmos(holders);
        (flush, self.inode_cache_vmo(key, file_size, offset, len, mark_shared, fresh))
    }

    /// How many files are cached, and the bytes of their pages that are in memory; `committed`
    /// gives the pages of each.
    pub fn shared_file_vmo_stats(&self, committed: &[usize]) -> (r: (usize, u64))
        requires
            committed@.len() == self.entries@.len(),
            sum(committed@) * 4096 <= u64::MAX,
        ensures
            r.0 == self.entries@.len(),
            r.1 == sum(committed@) * 4096,
    {
        let mut bytes: u64 = 0;
        assert(committed@.take(0) =~= Seq::empty());
        for i in 0..committed.len()
            invariant
                sum(committed@) * 4096 <= u64::MAX,
                bytes == sum(committed@.take(i as int)) * 4096,
        {
            proof {
                assert(committed@.take(i + 1).drop_last() =~= committed@.take(i as int));
                lemma_sum_prefix(committed@, i + 1);
            }
            bytes = bytes + committed[i] as u64 * 4096;
        }
        assert(committed@.take(committed@.len() as int) =~= committed@);
        (self.entries.len(), bytes)
    }

    /// How many files are cached, how many objects nothing but the cache holds, and the fewest and
    /// most references on their inodes.
    pub fn shared_file_vmo_refs(&self, holders: &[Holders]) -> (r: (usize, usize, usize, usize))
        requires
            holders@.len() == self.entries@.len(),
        ensures
            r.0 == self.entries@.len(),
            r.1 == sole_count(holders@),
            holders@.len() == 0 ==> r.2 == 0 && r.3 == 0,
            holders@.len() > 0 ==> r.3 == most(holders@) && r.2 == (if fewest(holders@)
                == usize::MAX {
                0
            } else {
                fewest(holders@)
            }),
    {
        let mut sole: usize = 0;
        let mut lo: usize = usize::MAX;
        let mut hi: usize = 0;
        assert(holders@.take(0) =~= Seq::empty());
        for i in 0..holders.len()
            invariant
                sole == sole_count(holders@.take(i as int)),
                sole <= i,
                lo == fewest(holders@.take(i as int)),
                hi == most(holders@.take(i as int)),
        {
            assert(holders@.take(i + 1).drop_last() =~= holders@.take(i as int));
            let h: Holders = holders[i];
            if h.vmo_refs == 1 {
                sole = sole + 1;
            }
            if h.inode_refs < lo {
                lo = h.inode_refs;
            }
            if h.inode_refs > hi {
                hi = h.inode_refs;
            }
        }
        assert(holders@.take(holders@.len() as int) =~= holders@);
        let least: usize = if lo == usize::MAX {
            0
        } else {
            lo
        };
        (self.entries.len(), sole, least, hi)
    }
}

/// The sum of some numbers.
pub open spec fn sum(s: Seq<usize>) -> int
    decreases s.len(),
{
    if s.len() == 0 {
        0
    } else {
        sum(s.drop_last()) + s.last()
    }
}

proof fn lemma_sum_prefix(s: Seq<usize>, n: int)
    requires
        0 <= n <= s.len(),
    ensures
        0 <= sum(s.take(n)) <= sum(s),
    decreases s.len(),
{
    if n == s.len() {
        assert(s.take(n) =~= s);
        if s.len() > 0 {
            lemma_sum_prefix(s.drop_last(), n - 1);
            assert(s.drop_last().take(n - 1) =~= s.drop_last());
        }
    } else {
        lemma_sum_prefix(s.drop_last(), n);
        assert(s.drop_last().take(n) =~= s.take(n));
    }
}

/// How many objects have a single reference.
pub open spec fn sole_count(h: Seq<Holders>) -> nat
    decreases h.len(),
{
    if h.len() == 0 {
        0
    } else {
        sole_count(h.drop_last()) + (if h.last().vmo_refs == 1 {
            1nat
        } else {
            0nat
        })
    }
}

/// The fewest references on an inode.
pub open spec fn fewest(h: Seq<Holders>) -> usize
    decreases h.len(),
{
    if h.len() == 0 {
        usize::MAX
    } else if h.last().inode_refs < fewest(h.drop_last()) {
        h.last().inode_refs
    } else {
        fewest(h.drop_last())
    }
}

/// The most references on an inode.
pub open spec fn most(h: Seq<Holders>) -> usize
    decreases h.len(),
{
    if h.len() == 0 {
        0
    } else if h.last().inode_refs > most(h.drop_last()) {
        h.last().inode_refs
    } else {
        most(h.drop_last())
    }
}

/// The pages to look at when an object is written back: those in memory, up to the end of the
/// file. Each with how many of its bytes the file has.
pub open spec fn writeback_pages(size: int, committed: Seq<bool>, n: int) -> Seq<(usize, usize)>
    decreases n,
{
    if n <= 0 {
        Seq::empty()
    } else {
        let at = (n - 1) * 4096;
        let head = writeback_pages(size, committed, n - 1);
        if at < size && committed[n - 1] {
            head.push(
                (
                    at as usize,
                    (if size - at < 4096 {
                        size - at
                    } else {
                        4096
                    }) as usize,
                ),
            )
        } else {
            head
        }
    }
}

/// Plans the writing back of an object; `committed` says which of its pages are in memory.
pub fn writeback_shared_vmo(size: usize, committed: &[bool]) -> (v: Vec<(usize, usize)>)
    requires
        committed@.len() * 4096 <= usize::MAX,
    ensures
        v@ == writeback_pages(size as int, committed@, committed@.len() as int),
{
    let mut v: Vec<(usize, usize)> = Vec::new();
    let n: usize = committed.len();
    let mut idx: usize = 0;
    while idx < n
        invariant
            idx <= n,
            n == committed@.len(),
            committed@.len() * 4096 <= usize::MAX,
            v@ == writeback_pages(size as int, committed@, idx as int),
        decreases n - idx,
    {
        let at: usize = idx * 4096;
        if at >= size {
            proof {
                lemma_past_end(size as int, committed@, idx as int, n as int);
            }
            return v;
        }
        if committed[idx] {
            let left: usize = size - at;
            let take: usize = if left < PAGE_SIZE {
                left
            } else {
                PAGE_SIZE
            };
            v.push((at, take));
        }
        idx = idx + 1;
    }
    v
}

proof fn lemma_past_end(size: int, committed: Seq<bool>, k: int, n: int)
    requires
        0 <= k <= n <= committed.len(),
        k * 4096 >= size,
    ensures
        writeback_pages(size, committed, n) == writeback_pages(size, committed, k),
    decreases n - k,
{
    if k < n {
        lemma_past_end(size, committed, k, n - 1);
    }
}

/// Whether a page is worth writing: one of zeroes is left a hole.
pub fn worth_writing(page: &[u8]) -> (r: bool)
    ensures
        r == exists|i: int| 0 <= i < page@.len() && #[trigger] page@[i] != 0,
{
    for i in 0..page.len()
        invariant
            forall|k: int| 0 <= k < i ==> #[trigger] page@[k] == 0,
    {
        if page[i] != 0 {
            return true;
        }
    }
    false
}

/// Writing back never makes a file longer.
pub proof fn law_writeback_within_file(size: int, committed: Seq<bool>, n: int, i: int)
    requires
        0 <= n <= committed.len(),
        committed.len() * 4096 <= usize::MAX,
        0 <= size <= usize::MAX,
        0 <= i < writeback_pages(size, committed, n).len(),
    ensures
        writeback_pages(size, committed, n)[i].0 + writeback_pages(size, committed, n)[i].1 <= size,
        writeback_pages(size, committed, n)[i].1 > 0,
    decreases n,
{
    let head = writeback_pages(size, committed, n - 1);
    if i < head.len() {
        law_writeback_within_file(size, committed, n - 1, i);
    }
}

/// How a file is mapped.
#[derive(Clone, Copy, PartialEq, Eq, Structural, Debug)]
pub enum MapPlan {
    /// Borrow the pages of an object that the cache has.
    Borrow(u64, usize),
    /// Make the object first, then borrow its pages.
    BorrowNew { len: usize, source_len: usize, offset: usize },
    /// A private copy, read from the file on demand: so many bytes of it.
    Snapshot { source_len: usize },
    /// The framebuffer's memory.
    Framebuffer,
    /// A graphics buffer's memory.
    Drm,
}

/// What kind of device a character device is, as far as it can be mapped.
#[derive(Clone, Copy, PartialEq, Eq, Structural, Debug)]
pub enum MapDevice {
    Framebuffer,
    Drm,
    Other,
}

/// How many bytes of a mapping the file has.
pub open spec fn mapped_source(file_size: int, offset: int, len: int) -> int {
    if offset >= file_size {
        0
    } else if file_size - offset < len {
        file_size - offset
    } else {
        len
    }
}

/// How a private mapping of a window is made.
pub open spec fn private_plan(
    s: Seq<CacheEntry>,
    key: CacheKey,
    type_: FileType,
    device: MapDevice,
    file_size: int,
    offset: int,
    len: int,
) -> Result<MapPlan, LxError> {
    if type_ == FileType::File {
        if offset % 4096 == 0 {
            match cache_answer(s, key, file_size, offset, len) {
                CacheVmo::Existing(vmo) => Ok(MapPlan::Borrow(vmo, offset as usize)),
                CacheVmo::Created { len, source_len } => Ok(
                    MapPlan::BorrowNew { len, source_len, offset: offset as usize },
                ),
                CacheVmo::TooShort => Ok(
                    MapPlan::Snapshot { source_len: mapped_source(file_size, offset, len) as usize },
                ),
            }
        } else {
            Ok(MapPlan::Snapshot { source_len: mapped_source(file_size, offset, len) as usize })
        }
    } else if type_ == FileType::CharDevice && device == MapDevice::Framebuffer {
        Ok(MapPlan::Framebuffer)
    } else if type_ == FileType::CharDevice && device == MapDevice::Drm {
        Ok(MapPlan::Drm)
    } else {
        Err(LxError::ENOSYS)
    }
}

/// A file to be mapped.
#[derive(Clone, Copy, PartialEq, Eq, Structural, Debug)]
pub struct MapTarget {
    pub key: CacheKey,
    pub type_: FileType,
    pub device: MapDevice,
    pub size: usize,
}

/// Whether a window and a file end well below the largest address.
pub open spec fn window_fits(t: MapTarget, offset: usize, len: usize) -> bool {
    offset + len + 4096 <= usize::MAX && t.size + 4096 <= usize::MAX
}

/// The entries after a mapping was planned.
pub open spec fn entries_after(
    s: Seq<CacheEntry>,
    t: MapTarget,
    offset: int,
    len: int,
    shared: bool,
    fresh: u64,
) -> Seq<CacheEntry> {
    if t.type_ == FileType::File && offset % 4096 == 0 {
        cache_with(s, t.key, t.size as int, offset, len, shared, fresh)
    } else {
        s
    }
}

/// Whether the file with a key is cached and known to have been mapped shared.
pub open spec fn marked_shared(s: Seq<CacheEntry>, key: CacheKey) -> bool {
    exists|i: int| 0 <= i < s.len() && (#[trigger] s[i]).key == key && s[i].shared
}

/// Plans a private mapping. An unaligned window, or one that a file grown since outgrew, gets a
/// copy of its own.
pub fn get_vmo(cache: &mut PageCache, t: MapTarget, offset: usize, len: usize, fresh: u64) -> (r:
    Result<MapPlan, LxError>)
    requires
        window_fits(t, offset, len),
    ensures
        r == private_plan(
            old(cache).entries@,
            t.key,
            t.type_,
            t.device,
            t.size as int,
            offset as int,
            len as int,
        ),
        final(cache).entries@ == entries_after(
            old(cache).entries@,
            t,
            offset as int,
            len as int,
            false,
            fresh,
        ),
{
    match t.type_ {
        FileType::File => {
            if offset % PAGE_SIZE == 0 {
                match cache.inode_cache_vmo(t.key, t.size, offset, len, false, fresh) {
                    CacheVmo::Existing(vmo) => {
                        return Ok(MapPlan::Borrow(vmo, offset));
                    },
                    CacheVmo::Created { len, source_len } => {
                        return Ok(MapPlan::BorrowNew { len, source_len, offset });
                    },
                    CacheVmo::TooShort => {},
                }
            }
            let left: usize = t.size.saturating_sub(offset);
            let source_len: usize = if left < len {
                left
            } else {
                len
            };
            Ok(MapPlan::Snapshot { source_len })
        },
        FileType::CharDevice => match t.device {
            MapDevice::Framebuffer => Ok(MapPlan::Framebuffer),
            MapDevice::Drm => Ok(MapPlan::Drm),
            MapDevice::Other => Err(LxError::ENOSYS),
        },
        _ => Err(LxError::ENOSYS),
    }
}

/// How a shared mapping is made.
#[derive(Clone, Copy, PartialEq, Eq, Structural, Debug)]
pub enum SharedPlan {
    /// The object of the file, at an offset.
    Direct(u64, usize),
    /// Make the object first, then map it at an offset.
    DirectNew { len: usize, source_len: usize, offset: usize },
    /// As a private mapping.
    Private(MapPlan),
}

/// How a shared mapping of a window is made.
pub open spec fn shared_plan(s: Seq<CacheEntry>, t: MapTarget, offset: int, len: int) -> Result<
    SharedPlan,
    LxError,
> {
    if t.type_ != FileType::File {
        match private_plan(s, t.key, t.type_, t.device, t.size as int, offset, len) {
            Ok(p) => Ok(SharedPlan::Private(p)),
            Err(e) => Err(e),
        }
    } else if offset % 4096 != 0 {
        Err(LxError::EINVAL)
    } else {
        match cache_answer(s, t.key, t.size as int, offset, len) {
            CacheVmo::Existing(vmo) => Ok(SharedPlan::Direct(vmo, offset as usize)),
            CacheVmo::Created { len, source_len } => Ok(
                SharedPlan::DirectNew { len, source_len, offset: offset as usize },
            ),
            CacheVmo::TooShort => Ok(
                SharedPlan::Private(
                    MapPlan::Snapshot {
                        source_len: mapped_source(t.size as int, offset, len) as usize,
                    },
                ),
            ),
        }
    }
}

/// Plans a shared mapping: every mapper of a file gets its one object.
pub fn get_vmo_shared(
    cache: &mut PageCache,
    t: MapTarget,
    offset: usize,
    len: usize,
    fresh: u64,
) -> (r: Result<SharedPlan, LxError>)
    requires
        window_fits(t, offset, len),
    ensures
        r == shared_plan(old(cache).entries@, t, offset as int, len as int),
        final(cache).entries@ == entries_after(
            old(cache).entries@,
            t,
            offset as int,
            len as int,
            true,
            fresh,
        ),
        r matches Ok(SharedPlan::Direct(v, _)) ==> marked_shared(final(cache).entries@, t.key),
        r matches Ok(SharedPlan::DirectNew { .. }) ==> marked_shared(final(cache).entries@, t.key),
{
    if t.type_ != FileType::File {
        return match get_vmo(cache, t, offset, len, fresh) {
            Ok(p) => Ok(SharedPlan::Private(p)),
            Err(e) => Err(e),
        };
    }
    if offset % PAGE_SIZE != 0 {
        return Err(LxError::EINVAL);
    }
    proof {
        lemma_marks(cache.entries@, t, offset as int, len as int, fresh);
    }
    match cache.inode_cache_vmo(t.key, t.size, offset, len, true, fresh) {
        CacheVmo::Existing(vmo) => Ok(SharedPlan::Direct(vmo, offset)),
        CacheVmo::Created { len, source_len } => Ok(
            SharedPlan::DirectNew { len, source_len, offset },
        ),
        CacheVmo::TooShort => {
            let left: usize = t.size.saturating_sub(offset);
            let source_len: usize = if left < len {
                left
            } else {
                len
            };
            Ok(SharedPlan::Private(MapPlan::Snapshot { source_len }))
        },
    }
}

/// Whether a mapping looks into the page cache.
pub open spec fn looks_up(t: MapTarget, offset: int) -> bool {
    t.type_ == FileType::File && offset % 4096 == 0
}

/// The entries that a mapping finds: those still in use where it looks into the cache.
pub open spec fn found_by(
    s: Seq<CacheEntry>,
    holders: Seq<Holders>,
    t: MapTarget,
    offset: int,
) -> Seq<CacheEntry> {
    if looks_up(t, offset) {
        kept(s, holders)
    } else {
        s
    }
}

/// The entries that a mapping finds out of use and has written back.
pub open spec fn flushed_by(
    s: Seq<CacheEntry>,
    holders: Seq<Holders>,
    t: MapTarget,
    offset: int,
) -> Seq<CacheEntry> {
    if looks_up(t, offset) {
        flushed(s, holders)
    } else {
        Seq::empty()
    }
}

fn prune_for(cache: &mut PageCache, holders: &[Holders], t: MapTarget, offset: usize) -> (flush: Vec<
    CacheEntry,
>)
    requires
        holders@.len() == old(cache).entries@.len(),
    ensures
        flush@ == flushed_by(old(cache).entries@, holders@, t, offset as int),
        final(cache).entries@ == found_by(old(cache).entries@, holders@, t, offset as int),
{
    if t.type_ == FileType::File && offset % PAGE_SIZE == 0 {
        cache.prune_shared_vmos(holders)
    } else {
        Vec::new()
    }
}

/// Plans a private mapping, dropping what nothing uses any more before the file is looked up. Gives
/// the entries to write back, and the plan.
pub fn map_private(
    cache: &mut PageCache,
    holders: &[Holders],
    t: MapTarget,
    offset: usize,
    len: usize,
    fresh: u64,
) -> (r: (Vec<CacheEntry>, Result<MapPlan, LxError>))
    requires
        holders@.len() == old(cache).entries@.len(),
        window_fits(t, offset, len),
    ensures
        r.0@ == flushed_by(old(cache).entries@, holders@, t, offset as int),
        ({
            let s = found_by(old(cache).entries@, holders@, t, offset as int);
            &&& r.1 == private_plan(
                s,
                t.key,
                t.type_,
                t.device,
                t.size as int,
                offset as int,
                len as int,
            )
            &&& final(cache).entries@ == entries_after(
                s,
                t,
                offset as int,
                len as int,
                false,
                fresh,
            )
        }),
{
    let flush = prune_for(cache, holders, t, offset);
    (flush, get_vmo(cache, t, offset, len, fresh))
}

/// Plans a shared mapping, dropping what nothing uses any more before the file is looked up. Gives
/// the entries to write back, and the plan.
pub fn map_shared(
    cache: &mut PageCache,
    holders: &[Holders],
    t: MapTarget,
    offset: usize,
    len: usize,
    fresh: u64,
) -> (r: (Vec<CacheEntry>, Result<SharedPlan, LxError>))
    requires
        holders@.len() == old(cache).entries@.len(),
        window_fits(t, offset, len),
    ensures
        r.0@ == flushed_by(old(cache).entries@, holders@, t, offset as int),
        ({
            let s = found_by(old(cache).entries@, holders@, t, offset as int);
            &&& r.1 == shared_plan(s, t, offset as int, len as int)
            &&& final(cache).entries@ == entries_after(s, t, offset as int, len as int, true, fresh)
        }),
{
    let flush = prune_for(cache, holders, t, offset);
    (flush, get_vmo_shared(cache, t, offset, len, fresh))
}

proof fn lemma_pos_self(s: Seq<CacheEntry>, key: CacheKey, i: int)
    requires
        0 <= i <= s.len(),
    ensures
        i <= key_pos(s, key, i) <= s.len(),
        key_pos(s, key, i) < s.len() ==> s[key_pos(s, key, i)].key == key,
    decreases s.len() - i,
{
    if i < s.len() && s[i].key != key {
        lemma_pos_self(s, key, i + 1);
    }
}

proof fn lemma_pos_push(s: Seq<CacheEntry>, e: CacheEntry, i: int)
    requires
        0 <= i <= s.len(),
        key_pos(s, e.key, i) == s.len(),
    ensures
        key_pos(s.push(e), e.key, i) == s.len(),
    decreases s.len() - i,
{
    if i < s.len() {
        lemma_pos_self(s, e.key, i);
        assert(s[i].key != e.key);
        assert(s.push(e)[i] == s[i]);
        lemma_pos_push(s, e, i + 1);
    } else {
        assert(s.push(e)[i] == e);
    }
}

proof fn lemma_pos_update(s: Seq<CacheEntry>, key: CacheKey, k: int, e: CacheEntry, i: int)
    requires
        0 <= i <= s.len(),
        0 <= k < s.len(),
        e.key == s[k].key,
    ensures
        key_pos(s.update(k, e), key, i) == key_pos(s, key, i),
    decreases s.len() - i,
{
    if i < s.len() {
        lemma_pos_update(s, key, k, e, i + 1);
    }
}

/// Whoever maps the same window of the same file next, shared or private, gets the very object
/// that the first mapper got: what one stores through a shared mapping every other sees.
pub proof fn law_mappers_share(
    s: Seq<CacheEntry>,
    key: CacheKey,
    file_size: int,
    offset: int,
    len: int,
    shared: bool,
    fresh: u64,
    later_size: int,
)
    requires
        0 <= offset,
        0 <= len,
        0 <= file_size,
        offset + len + 4096 <= usize::MAX,
        file_size + 4096 <= usize::MAX,
        cache_answer(s, key, file_size, offset, len) != CacheVmo::TooShort,
    ensures
        ({
            let vmo = match cache_answer(s, key, file_size, offset, len) {
                CacheVmo::Existing(v) => v,
                _ => fresh,
            };
            cache_answer(
                cache_with(s, key, file_size, offset, len, shared, fresh),
                key,
                later_size,
                offset,
                len,
            ) == CacheVmo::Existing(vmo)
        }),
{
    let i = key_pos(s, key, 0);
    lemma_pos_self(s, key, 0);
    let after = cache_with(s, key, file_size, offset, len, shared, fresh);
    if i < s.len() {
        lemma_pos_update(s, key, i, CacheEntry { shared: s[i].shared || shared, ..s[i] }, 0);
    } else {
        let e = CacheEntry {
            key,
            vmo: fresh,
            len: whole_pages(larger(file_size, offset + len)) as usize,
            shared,
        };
        lemma_pos_push(s, e, 0);
        assert(after[i] == e);
        assert(larger(file_size, offset + len) <= whole_pages(larger(file_size, offset + len)));
    }
}

/// An entry that something maps, or whose file is open, is never dropped.
pub proof fn law_used_entries_stay(s: Seq<CacheEntry>, h: Seq<Holders>, i: int)
    requires
        h.len() == s.len(),
        0 <= i < s.len(),
        in_use(h[i]),
    ensures
        kept(s, h).contains(s[i]),
{
    lemma_kept(s, h, i);
}

proof fn lemma_kept(s: Seq<CacheEntry>, h: Seq<Holders>, i: int)
    requires
        0 <= i < s.len(),
        s.len() <= h.len(),
        in_use(h[i]),
    ensures
        kept(s, h).contains(s[i]),
    decreases s.len(),
{
    if i == s.len() - 1 {
        let k = kept(s, h);
        assert(k[k.len() - 1] == s[i]);
    } else {
        lemma_kept(s.drop_last(), h, i);
        let head = kept(s.drop_last(), h);
        let j = choose|j: int| 0 <= j < head.len() && head[j] == s[i];
        assert(kept(s, h)[j] == s[i]);
    }
}

/// A file that was never mapped shared is never written back.
pub proof fn law_clean_files_not_rewritten(s: Seq<CacheEntry>, h: Seq<Holders>, i: int)
    requires
        s.len() <= h.len(),
        0 <= i < flushed(s, h).len(),
    ensures
        flushed(s, h)[i].shared,
    decreases s.len(),
{
    if i < flushed(s.drop_last(), h).len() {
        law_clean_files_not_rewritten(s.drop_last(), h, i);
    }
}

/// What is mapped stays, and what some descriptor has open stays; what has no other holder than the
/// cache itself goes. Stated of the last entry, whatever stands before it, whose fate it leaves alone.
pub proof fn law_prune_by_counts(s: Seq<CacheEntry>, h: Seq<Holders>, e: CacheEntry, x: Holders)
    requires
        h.len() == s.len(),
    ensures
        x.vmo_refs > 1 ==> kept(s.push(e), h.push(x)) == kept(s, h).push(e),
        x.inode_refs > 1 ==> kept(s.push(e), h.push(x)) == kept(s, h).push(e),
        x.vmo_refs <= 1 && x.inode_refs <= 1 ==> kept(s.push(e), h.push(x)) == kept(s, h),
        x.vmo_refs > 1 || x.inode_refs > 1 ==> flushed(s.push(e), h.push(x)) == flushed(s, h),
        e.shared && x.vmo_refs <= 1 && x.inode_refs <= 1 && (x.nlinks matches Some(n) && n > 0)
            ==> flushed(s.push(e), h.push(x)) == flushed(s, h).push(e),
        !e.shared || x.nlinks is None || x.nlinks == Some(0usize) ==> flushed(s.push(e), h.push(x))
            == flushed(s, h),
{
    lemma_same_holders(s, h, h.push(x));
    assert(s.push(e).drop_last() =~= s);
}

proof fn lemma_same_holders(s: Seq<CacheEntry>, a: Seq<Holders>, b: Seq<Holders>)
    requires
        s.len() <= a.len(),
        s.len() <= b.len(),
        forall|i: int| 0 <= i < s.len() ==> #[trigger] a[i] == b[i],
    ensures
        kept(s, a) == kept(s, b),
        flushed(s, a) == flushed(s, b),
    decreases s.len(),
{
    if s.len() > 0 {
        lemma_same_holders(s.drop_last(), a, b);
    }
}

/// Every entry with a second holder of its memory or of its inode is there after pruning.
pub proof fn law_held_entries_stay(s: Seq<CacheEntry>, h: Seq<Holders>, i: int)
    requires
        h.len() == s.len(),
        0 <= i < s.len(),
        h[i].vmo_refs > 1 || h[i].inode_refs > 1,
    ensures
        kept(s, h).contains(s[i]),
    decreases s.len(),
{
    let front = s.drop_last();
    let n = s.len() - 1;
    assert(s =~= front.push(s[n]));
    assert(h =~= h.drop_last().push(h[n]));
    law_prune_by_counts(front, h.drop_last(), s[n], h[n]);
    if i == n {
        let k = kept(s, h);
        assert(k[k.len() - 1] == s[i]);
    } else {
        law_held_entries_stay(front, h.drop_last(), i);
        let k = kept(front, h.drop_last());
        let j = choose|j: int| 0 <= j < k.len() && k[j] == s[i];
        assert(kept(s, h)[j] == s[i]);
    }
}

/// Nothing is made up: what is there after pruning was there before and has another holder, and what
/// is written back was there, was mapped shared, has links, and has no other holder.
pub proof fn law_prune_makes_nothing_up(s: Seq<CacheEntry>, h: Seq<Holders>, e: CacheEntry)
    requires
        h.len() == s.len(),
    ensures
        kept(s, h).contains(e) ==> exists|i: int|
            0 <= i < s.len() && #[trigger] s[i] == e && (h[i].vmo_refs > 1 || h[i].inode_refs > 1),
        flushed(s, h).contains(e) ==> e.shared && exists|i: int|
            0 <= i < s.len() && #[trigger] s[i] == e && h[i].vmo_refs <= 1 && h[i].inode_refs <= 1
                && (h[i].nlinks matches Some(n) && n > 0),
        kept(s, h).len() + flushed(s, h).len() <= s.len(),
    decreases s.len(),
{
    if s.len() > 0 {
        let n = s.len() - 1;
        let front = s.drop_last();
        let back = h.drop_last();
        assert(s =~= front.push(s[n]));
        assert(h =~= back.push(h[n]));
        law_prune_by_counts(front, back, s[n], h[n]);
        law_prune_makes_nothing_up(front, back, e);
        if kept(s, h).contains(e) {
            let j = choose|j: int| 0 <= j < kept(s, h).len() && kept(s, h)[j] == e;
            if j < kept(front, back).len() {
                assert(kept(front, back)[j] == e);
                let i = choose|i: int|
                    0 <= i < front.len() && #[trigger] front[i] == e && (back[i].vmo_refs > 1
                        || back[i].inode_refs > 1);
                assert(s[i] == e && h[i] == back[i]);
            } else {
                assert(s[n] == e);
            }
        }
        if flushed(s, h).contains(e) {
            let j = choose|j: int| 0 <= j < flushed(s, h).len() && flushed(s, h)[j] == e;
            if j < flushed(front, back).len() {
                assert(flushed(front, back)[j] == e);
                let i = choose|i: int|
                    0 <= i < front.len() && #[trigger] front[i] == e && back[i].vmo_refs <= 1
                        && back[i].inode_refs <= 1 && (back[i].nlinks matches Some(n) && n > 0);
                assert(s[i] == e && h[i] == back[i]);
            } else {
                assert(s[n] == e);
            }
        }
    }
}

/// Two files of one file system with numbers of their own are never taken for each other, nor are two
/// of different file systems; a file without a number is known by its handle.
pub proof fn law_files_told_apart(fs_a: usize, a: usize, fs_b: usize, b: usize, ha: usize, hb: usize)
    requires
        a != 0,
        b != 0,
    ensures
        key_of(Some(a), fs_a, ha) == key_of(Some(b), fs_b, hb) <==> fs_a == fs_b && a == b,
        key_of(None, fs_a, ha) == key_of(None, fs_b, hb) <==> ha == hb,
        key_of(Some(0), fs_a, ha) == key_of(None, fs_b, ha),
        a != usize::MAX ==> key_of(Some(a), fs_a, ha) != key_of(None, fs_b, hb),
{
}

/// An object covers the whole file and the whole window, in whole pages, and no more than the last
/// page needs; the window of one that the file has is refused exactly where it reaches past it.
pub proof fn law_object_covers_window(
    s: Seq<CacheEntry>,
    key: CacheKey,
    file_size: int,
    offset: int,
    len: int,
)
    requires
        0 <= offset,
        0 <= len,
        0 <= file_size,
        offset + len + 4096 <= usize::MAX,
        file_size + 4096 <= usize::MAX,
    ensures
        match cache_answer(s, key, file_size, offset, len) {
            CacheVmo::Created { len: n, source_len } => {
                &&& forall|i: int| 0 <= i < s.len() ==> (#[trigger] s[i]).key != key
                &&& n >= file_size && n >= offset + len && n % 4096 == 0
                &&& n < file_size + 4096 || n < offset + len + 4096
                &&& source_len == file_size
            },
            CacheVmo::Existing(v) => exists|i: int|
                0 <= i < s.len() && (#[trigger] s[i]).key == key && s[i].vmo == v && offset + len
                    <= s[i].len,
            CacheVmo::TooShort => exists|i: int|
                0 <= i < s.len() && (#[trigger] s[i]).key == key && offset + len > s[i].len,
        },
{
    lemma_pos_self(s, key, 0);
    lemma_pos_none(s, key, 0);
}

proof fn lemma_pos_none(s: Seq<CacheEntry>, key: CacheKey, i: int)
    requires
        0 <= i <= s.len(),
    ensures
        forall|k: int| i <= k < key_pos(s, key, i) ==> (#[trigger] s[k]).key != key,
    decreases s.len() - i,
{
    if i < s.len() && s[i].key != key {
        lemma_pos_none(s, key, i + 1);
    }
}

/// A lookup changes no other entry, forgets none, and never takes back that a file was mapped shared;
/// a shared mapping marks its file.
pub proof fn law_lookup_marks_shared(
    s: Seq<CacheEntry>,
    key: CacheKey,
    file_size: int,
    offset: int,
    len: int,
    shared: bool,
    fresh: u64,
    i: int,
)
    requires
        0 <= i < s.len(),
    ensures
        ({
            let t = cache_with(s, key, file_size, offset, len, shared, fresh);
            &&& s.len() <= t.len() <= s.len() + 1
            &&& t[i].key == s[i].key && t[i].vmo == s[i].vmo && t[i].len == s[i].len
            &&& s[i].shared ==> t[i].shared
            &&& t[i].shared ==> s[i].shared || (shared && s[i].key == key)
            &&& t.len() > s.len() ==> t.last().key == key && t.last().vmo == fresh
                && t.last().shared == shared
            &&& shared && cache_answer(s, key, file_size, offset, len) is Existing ==> exists|k: int|
                0 <= k < t.len() && (#[trigger] t[k]).key == key && t[k].shared
        }),
{
    lemma_pos_self(s, key, 0);
    let p = key_pos(s, key, 0);
    let t = cache_with(s, key, file_size, offset, len, shared, fresh);
    if p < s.len() {
        assert(t[p].key == key);
    }
}

/// What a private mapping gets: a regular file's own object for a window on a page boundary, a copy of
/// what the file has of the window otherwise, a device's memory for a device, nothing for the rest.
pub proof fn law_private_mapping(
    s: Seq<CacheEntry>,
    key: CacheKey,
    type_: FileType,
    device: MapDevice,
    file_size: int,
    offset: int,
    len: int,
)
    requires
        0 <= offset,
        0 <= len,
        0 <= file_size,
        offset + len + 4096 <= usize::MAX,
        file_size + 4096 <= usize::MAX,
    ensures
        ({
            let r = private_plan(s, key, type_, device, file_size, offset, len);
            &&& r is Err <==> !(type_ is File) && !(type_ is CharDevice && !(device is Other))
            &&& r matches Err(e) ==> e == LxError::ENOSYS
            &&& r == Ok::<MapPlan, LxError>(MapPlan::Framebuffer) <==> type_ is CharDevice
                && device is Framebuffer
            &&& r == Ok::<MapPlan, LxError>(MapPlan::Drm) <==> type_ is CharDevice && device is Drm
            &&& r matches Ok(MapPlan::Borrow(v, at)) ==> type_ is File && at == offset && offset
                % 4096 == 0 && cache_answer(s, key, file_size, offset, len) == CacheVmo::Existing(v)
            &&& r matches Ok(MapPlan::BorrowNew { len: n, source_len, offset: at }) ==> type_ is File
                && at == offset && offset % 4096 == 0 && n >= offset + len && source_len == file_size
            &&& r matches Ok(MapPlan::Snapshot { source_len }) ==> {
                &&& type_ is File
                &&& offset % 4096 != 0 || cache_answer(s, key, file_size, offset, len) is TooShort
                &&& source_len <= len
                &&& offset < file_size ==> offset + source_len <= file_size
                &&& source_len < len ==> offset + source_len == file_size || offset >= file_size
                &&& offset >= file_size ==> source_len == 0
            }
            &&& type_ is File && offset % 4096 != 0 ==> r matches Ok(MapPlan::Snapshot { .. })
        }),
{
    law_object_covers_window(s, key, file_size, offset, len);
}

/// A shared mapping of a regular file is of the object that a private one borrows from, at the window's
/// own offset; off a page boundary it is refused. Anything else is mapped as it is privately.
pub proof fn law_shared_mapping(s: Seq<CacheEntry>, t: MapTarget, offset: int, len: int)
    requires
        0 <= offset,
        0 <= len,
        offset + len + 4096 <= usize::MAX,
        t.size + 4096 <= usize::MAX,
    ensures
        ({
            let r = shared_plan(s, t, offset, len);
            let p = private_plan(s, t.key, t.type_, t.device, t.size as int, offset, len);
            &&& t.type_ is File && offset % 4096 != 0 <==> r == Err::<SharedPlan, LxError>(
                LxError::EINVAL,
            )
            &&& r matches Ok(SharedPlan::Direct(v, at)) ==> t.type_ is File && p == Ok::<
                MapPlan,
                LxError,
            >(MapPlan::Borrow(v, at))
            &&& p matches Ok(MapPlan::Borrow(v, at)) ==> r == Ok::<SharedPlan, LxError>(
                SharedPlan::Direct(v, at),
            )
            &&& r matches Ok(SharedPlan::Direct(v, at)) ==> at == offset
            &&& r matches Ok(SharedPlan::DirectNew { len: n, source_len, offset: at }) ==> p == Ok::<
                MapPlan,
                LxError,
            >(MapPlan::BorrowNew { len: n, source_len, offset: at })
            &&& r matches Ok(SharedPlan::Private(q)) ==> p == Ok::<MapPlan, LxError>(q)
            &&& !(t.type_ is File) ==> (r is Ok <==> p is Ok)
        }),
{
}

/// Writing back leaves out no page in memory that the file has: of each it writes all that the file
/// has of it, and pages are written once, in order.
pub proof fn law_writeback_complete(size: int, committed: Seq<bool>, n: int, k: int)
    requires
        0 <= k < n <= committed.len(),
        committed.len() * 4096 <= usize::MAX,
        0 <= size <= usize::MAX,
    ensures
        ({
            let v = writeback_pages(size, committed, n);
            &&& committed[k] && k * 4096 < size <==> exists|i: int|
                0 <= i < v.len() && (#[trigger] v[i]).0 == k * 4096
            &&& forall|i: int|
                0 <= i < v.len() && (#[trigger] v[i]).0 == k * 4096 ==> v[i].1 == if size - k * 4096
                    < 4096 {
                    size - k * 4096
                } else {
                    4096
                }
            &&& forall|i: int, j: int|
                0 <= i < j < v.len() ==> (#[trigger] v[i]).0 < (#[trigger] v[j]).0
            &&& forall|i: int| 0 <= i < v.len() ==> (#[trigger] v[i]).0 < n * 4096
        }),
    decreases n,
{
    let v = writeback_pages(size, committed, n);
    let head = writeback_pages(size, committed, n - 1);
    if n == 1 {
        assert(head.len() == 0);
        if committed[0] && 0 < size {
            assert(v[0].0 == 0);
        }
    } else {
        let q = if k < n - 1 { k } else { 0 };
        law_writeback_complete(size, committed, n - 1, q);
        if v.len() > head.len() {
            assert(v[v.len() - 1].0 == (n - 1) * 4096);
        }
        if k < n - 1 {
            if committed[k] && k * 4096 < size {
                let i = choose|i: int| 0 <= i < head.len() && (#[trigger] head[i]).0 == k * 4096;
                assert(v[i].0 == k * 4096);
            }
            if exists|i: int| 0 <= i < v.len() && (#[trigger] v[i]).0 == k * 4096 {
                let i = choose|i: int| 0 <= i < v.len() && (#[trigger] v[i]).0 == k * 4096;
                if i < head.len() {
                    assert(head[i].0 == k * 4096);
                }
            }
            assert forall|i: int| 0 <= i < v.len() && (#[trigger] v[i]).0 == k * 4096 implies v[i].1
                == if size - k * 4096 < 4096 {
                size - k * 4096
            } else {
                4096
            } by {
                if i < head.len() {
                    assert(head[i].0 == k * 4096);
                }
            }
        }
        assert forall|i: int, j: int| 0 <= i < j < v.len() implies (#[trigger] v[i]).0 < (
        #[trigger] v[j]).0 by {
            assert(head[i].0 < (n - 1) * 4096);
            if j < head.len() {
                assert(head[i].0 < head[j].0);
            }
        }
    }
}

/// The counts of the cache: how many objects have one holder, and the range of holders of the inodes.
pub proof fn law_reference_counts(h: Seq<Holders>, i: int)
    requires
        0 <= i < h.len(),
    ensures
        fewest(h) <= h[i].inode_refs <= most(h),
        exists|k: int| 0 <= k < h.len() && (#[trigger] h[k]).inode_refs == most(h),
        fewest(h) != usize::MAX ==> exists|k: int|
            0 <= k < h.len() && (#[trigger] h[k]).inode_refs == fewest(h),
        sole_count(h) <= h.len(),
        h[i].vmo_refs == 1 ==> sole_count(h) > 0,
        h[i].vmo_refs != 1 ==> sole_count(h) < h.len(),
    decreases h.len(),
{
    let front = h.drop_last();
    let n = h.len() - 1;
    if n > 0 {
        let q = if i < n { i } else { 0 };
        law_reference_counts(front, q);
        let a = choose|k: int| 0 <= k < front.len() && (#[trigger] front[k]).inode_refs == most(front);
        assert(h[a].inode_refs == most(front));
        if fewest(front) != usize::MAX {
            let b = choose|k: int|
                0 <= k < front.len() && (#[trigger] front[k]).inode_refs == fewest(front);
            assert(h[b].inode_refs == fewest(front));
        }
    } else {
        reveal_with_fuel(sole_count, 2);
        reveal_with_fuel(fewest, 2);
        reveal_with_fuel(most, 2);
    }
    assert(h[n].inode_refs == h.last().inode_refs);
}

proof fn lemma_marks(s: Seq<CacheEntry>, t: MapTarget, offset: int, len: int, fresh: u64)
    requires
        t.type_ is File,
        offset % 4096 == 0,
    ensures
        cache_answer(s, t.key, t.size as int, offset, len) != CacheVmo::TooShort ==> marked_shared(
            entries_after(s, t, offset, len, true, fresh),
            t.key,
        ),
{
    let after = entries_after(s, t, offset, len, true, fresh);
    lemma_pos_self(s, t.key, 0);
    let p = key_pos(s, t.key, 0);
    if p < s.len() {
        assert(offset + len <= s[p].len ==> after[p].key == t.key && after[p].shared);
    } else {
        assert(after[s.len() as int].key == t.key && after[s.len() as int].shared);
    }
}

/// Only a regular file mapped on a page boundary touches the cache. It finds what pruning leaves; a
/// shared mapping that gets the file's object marks the file, which is what has it written back later,
/// and a private one marks nothing.
pub proof fn law_mapping_touches_cache(
    s: Seq<CacheEntry>,
    h: Seq<Holders>,
    t: MapTarget,
    offset: int,
    len: int,
    fresh: u64,
)
    ensures
        t.type_ is File && offset % 4096 == 0 ==> found_by(s, h, t, offset) == kept(s, h)
            && flushed_by(s, h, t, offset) == flushed(s, h),
        !(t.type_ is File) || offset % 4096 != 0 ==> found_by(s, h, t, offset) == s && flushed_by(
            s,
            h,
            t,
            offset,
        ).len() == 0 && entries_after(s, t, offset, len, true, fresh) == s && entries_after(
            s,
            t,
            offset,
            len,
            false,
            fresh,
        ) == s,
        shared_plan(s, t, offset, len) matches Ok(SharedPlan::Direct(v, _)) ==> exists|i: int|
            0 <= i < s.len() && (#[trigger] entries_after(s, t, offset, len, true, fresh)[i]).vmo == v
                && entries_after(s, t, offset, len, true, fresh)[i].shared,
        shared_plan(s, t, offset, len) matches Ok(SharedPlan::DirectNew { .. }) ==> entries_after(
            s,
            t,
            offset,
            len,
            true,
            fresh,
        ).last().shared,
        forall|i: int|
            0 <= i < s.len() ==> (#[trigger] entries_after(s, t, offset, len, false, fresh)[i]).shared
                == s[i].shared,
{
    lemma_pos_self(s, t.key, 0);
    let p = key_pos(s, t.key, 0);
    let after = entries_after(s, t, offset, len, true, fresh);
    if p < s.len() {
        assert(after[p].vmo == s[p].vmo);
    }
}

/// One object more is held by the cache alone exactly where it has one reference.
pub proof fn law_sole_holders_counted(h: Seq<Holders>, x: Holders)
    ensures
        x.vmo_refs == 1 ==> sole_count(h.push(x)) == sole_count(h) + 1,
        x.vmo_refs != 1 ==> sole_count(h.push(x)) == sole_count(h),
        sole_count(Seq::empty()) == 0,
{
    assert(h.push(x).drop_last() =~= h);
}

/// One figure more adds itself.
pub proof fn law_figures_add_up(s: Seq<usize>, x: usize)
    ensures
        sum(Seq::empty()) == 0,
        sum(s.push(x)) == sum(s) + x,
{
    assert(s.push(x).drop_last() =~= s);
}

} // verus!
