//! Images of executables, remembered so that a program that is started again and again is read
//! once.
use vstd::prelude::*;
use crate::device::{addressable, available, fits, round_up, DevError, Device};
use crate::vfs::{FileType, Metadata};

verus! {

/// Larger files are not remembered.
pub const ELF_VMO_CACHE_FILE_MAX: usize = 8388608;

/// Bytes remembered at most.
pub const ELF_VMO_CACHE_MAX_BYTES: usize = 33554432;

/// Bytes read at a time.
pub const CHUNK: usize = 16384;

/// Identity of a file's contents: rewriting it changes the size or the time.
#[derive(Clone, Copy, PartialEq, Eq, Structural, Debug)]
pub struct ElfVmoKey {
    pub dev: usize,
    pub inode: usize,
    pub size: usize,
    pub sec: i64,
    pub nsec: i32,
}

/// A remembered image.
#[derive(Clone, Copy, PartialEq, Eq, Structural, Debug)]
pub struct ElfImage {
    pub key: ElfVmoKey,
    pub vmo: u64,
}

/// The images, oldest first.
pub struct ElfVmoCache {
    pub images: Vec<ElfImage>,
    pub bytes: usize,
}

/// The bytes of some images.
pub open spec fn total(s: Seq<ElfImage>) -> int
    decreases s.len(),
{
    if s.len() == 0 {
        0
    } else {
        s[0].key.size + total(s.skip(1))
    }
}

/// Where an image stands from `i` on; the length where it is not there.
pub open spec fn image_pos(s: Seq<ElfImage>, key: ElfVmoKey, i: int) -> int
    decreases s.len() - i,
{
    if i < 0 || i >= s.len() {
        s.len() as int
    } else if s[i].key == key {
        i
    } else {
        image_pos(s, key, i + 1)
    }
}

/// No image is there twice, and the bytes are those of the images and within the bound.
pub open spec fn consistent(c: ElfVmoCache) -> bool {
    &&& c.bytes == total(c.images@)
    &&& c.bytes <= ELF_VMO_CACHE_MAX_BYTES
    &&& forall|i: int, j: int|
        0 <= i < j < c.images@.len() ==> (#[trigger] c.images@[i]).key != (
        #[trigger] c.images@[j]).key
}

/// What stays when room is made for `size` more bytes: the oldest go first, no more than needed.
pub open spec fn with_room(s: Seq<ElfImage>, size: int) -> Seq<ElfImage>
    decreases s.len(),
{
    if total(s) + size > ELF_VMO_CACHE_MAX_BYTES && s.len() > 0 {
        with_room(s.skip(1), size)
    } else {
        s
    }
}

/// The images after one more was remembered.
pub open spec fn with_image(s: Seq<ElfImage>, key: ElfVmoKey, vmo: u64) -> Seq<ElfImage> {
    if image_pos(s, key, 0) < s.len() {
        s
    } else {
        with_room(s, key.size as int).push(ElfImage { key, vmo })
    }
}

proof fn lemma_total_push(s: Seq<ElfImage>, e: ElfImage)
    ensures
        total(s.push(e)) == total(s) + e.key.size,
    decreases s.len(),
{
    if s.len() == 0 {
        assert(s.push(e).skip(1) =~= s);
        assert(s.push(e)[0] == e);
    } else {
        assert(s.push(e).skip(1) =~= s.skip(1).push(e));
        lemma_total_push(s.skip(1), e);
    }
}

proof fn lemma_total_nonneg(s: Seq<ElfImage>)
    ensures
        total(s) >= 0,
    decreases s.len(),
{
    if s.len() > 0 {
        lemma_total_nonneg(s.skip(1));
    }
}

proof fn lemma_absent(s: Seq<ElfImage>, key: ElfVmoKey, i: int)
    requires
        0 <= i <= s.len(),
        image_pos(s, key, i) == s.len(),
    ensures
        forall|j: int| i <= j < s.len() ==> (#[trigger] s[j]).key != key,
    decreases s.len() - i,
{
    if i < s.len() && s[i].key != key {
        lemma_absent(s, key, i + 1);
    }
}

impl ElfVmoCache {
    pub fn new() -> (c: Self)
        ensures
            c.images@ == Seq::<ElfImage>::empty(),
            consistent(c),
    {
        ElfVmoCache { images: Vec::new(), bytes: 0 }
    }

    fn position(&self, key: ElfVmoKey) -> (r: Option<usize>)
        ensures
            match r {
                Some(i) => i == image_pos(self.images@, key, 0) && i < self.images@.len(),
                None => image_pos(self.images@, key, 0) == self.images@.len(),
            },
    {
        let mut i: usize = 0;
        while i < self.images.len()
            invariant
                i <= self.images@.len(),
                image_pos(self.images@, key, 0) == image_pos(self.images@, key, i as int),
            decreases self.images@.len() - i,
        {
            if self.images[i].key == key {
                return Some(i);
            }
            i = i + 1;
        }
        None
    }

    /// The image remembered for a file.
    pub fn get(&self, key: ElfVmoKey) -> (r: Option<u64>)
        ensures
            r == image_of(self.images@, key),
    {
        match self.position(key) {
            Some(i) => Some(self.images[i].vmo),
            None => None,
        }
    }

    /// Remembers an image; one that is there already stays. The oldest make room.
    pub fn insert(&mut self, key: ElfVmoKey, vmo: u64)
        requires
            consistent(*old(self)),
            key.size <= ELF_VMO_CACHE_FILE_MAX,
        ensures
            consistent(*final(self)),
            final(self).images@ == with_image(old(self).images@, key, vmo),
    {
        if self.position(key).is_some() {
            return;
        }
        let ghost start = self.images@;
        let size: usize = key.size;
        proof {
            lemma_absent(start, key, 0);
        }
        while self.bytes + size > ELF_VMO_CACHE_MAX_BYTES && self.images.len() > 0
            invariant
                consistent(*self),
                size == key.size,
                size <= ELF_VMO_CACHE_FILE_MAX,
                forall|j: int| 0 <= j < self.images@.len() ==> (#[trigger] self.images@[j]).key
                    != key,
                with_room(start, size as int) == with_room(self.images@, size as int),
            decreases self.images@.len(),
        {
            let ghost before = self.images@;
            let old_image: ElfImage = self.images.remove(0);
            assert(self.images@ =~= before.skip(1));
            proof {
                lemma_total_nonneg(before.skip(1));
                assert forall|i: int, j: int| 0 <= i < j < self.images@.len() implies (
                #[trigger] self.images@[i]).key != (#[trigger] self.images@[j]).key by {
                    assert(before[i + 1].key != before[j + 1].key);
                }
                assert forall|j: int| 0 <= j < self.images@.len() implies (
                #[trigger] self.images@[j]).key != key by {
                    assert(before[j + 1].key != key);
                }
            }
            self.bytes = self.bytes - old_image.key.size;
        }
        let e = ElfImage { key, vmo };
        proof {
            lemma_total_push(self.images@, e);
            lemma_total_nonneg(self.images@);
        }
        self.images.push(e);
        self.bytes = self.bytes + size;
    }
}

/// The image remembered for a file.
pub open spec fn image_of(s: Seq<ElfImage>, key: ElfVmoKey) -> Option<u64> {
    let i = image_pos(s, key, 0);
    if i < s.len() {
        Some(s[i].vmo)
    } else {
        None
    }
}

/// The identity of a file's contents, for a regular file of moderate size; other files are not
/// remembered.
pub open spec fn cache_key(m: Metadata) -> Option<ElfVmoKey> {
    if m.type_ != FileType::File || m.size == 0 || m.size > ELF_VMO_CACHE_FILE_MAX {
        None
    } else {
        Some(
            ElfVmoKey {
                dev: m.dev,
                inode: m.inode,
                size: m.size,
                sec: m.mtime.sec,
                nsec: m.mtime.nsec,
            },
        )
    }
}

pub fn elf_cache_key(m: &Metadata) -> (r: Option<ElfVmoKey>)
    ensures
        r == cache_key(*m),
        r matches Some(k) ==> k.size <= ELF_VMO_CACHE_FILE_MAX,
{
    if m.type_ != FileType::File || m.size == 0 || m.size > ELF_VMO_CACHE_FILE_MAX {
        return None;
    }
    Some(
        ElfVmoKey {
            dev: m.dev,
            inode: m.inode,
            size: m.size,
            sec: m.mtime.sec,
            nsec: m.mtime.nsec,
        },
    )
}

/// Whether an image of `size` bytes holds the first `n` of a file and zeroes behind them; all that
/// the file has of them where no read of it fails, however short its reads come back.
pub open spec fn image_read<D: Device>(file: D, v: Seq<u8>, size: int, n: int) -> bool {
    &&& v.len() == size
    &&& 0 <= n <= size
    &&& forall|i: int| 0 <= i < n && file.sound_at(i) ==> #[trigger] v[i] == file.contents()[i]
    &&& forall|i: int| n <= i < size ==> #[trigger] v[i] == 0
    &&& file.reliable() && size <= file.contents().len() ==> n == size
    &&& file.gives() && fits(file.contents().len() as int, 0, size) ==> n == available(
        file.contents().len() as int,
        0,
        size,
    )
}

/// Reads a file of `size` bytes, a chunk at a time; a read of nothing ends it early, and what was
/// not read is zero. Gives the image and how much of it was read.
pub fn read_as_vmo<D: Device>(inode: &mut D, size: usize) -> (r: Result<(Vec<u8>, usize), DevError>)
    requires
        old(inode).inv(),
        addressable(0, size as int),
    ensures
        final(inode).inv(),
        final(inode).contents() == old(inode).contents(),
        r matches Ok((v, n)) ==> image_read(*old(inode), v@, size as int, n as int),
        (old(inode).reliable() || old(inode).gives()) && size <= old(inode).contents().len()
            ==> r is Ok,
{
    let mut v: Vec<u8> = Vec::new();
    v.resize(size, 0);
    let mut offset: usize = 0;
    let ghost all = inode.contents();
    let ghost first = *inode;
    proof {
        crate::device::lemma_round_up(size as int);
    }
    while offset < size
        invariant
            offset <= size,
            first == *old(inode),
            v@.len() == size,
            inode.inv(),
            inode.contents() == all,
            all == first.contents(),
            inode.reliable() == first.reliable(),
            inode.gives() == first.gives(),
            offset > 0 ==> offset <= all.len(),
            addressable(0, size as int),
            forall|i: int| first.sound_at(i) ==> #[trigger] inode.sound_at(i),
            forall|i: int| 0 <= i < offset && first.sound_at(i) ==> #[trigger] v@[i] == all[i],
            forall|i: int| offset <= i < size ==> #[trigger] v@[i] == 0,
        ensures
            first.reliable() && size <= all.len() ==> offset == size,
            first.gives() && fits(all.len() as int, 0, size as int) ==> offset == available(
                all.len() as int,
                0,
                size as int,
            ),
        decreases size - offset,
    {
        let left: usize = size - offset;
        let len: usize = if left < CHUNK {
            left
        } else {
            CHUNK
        };
        let mut buf: Vec<u8> = Vec::new();
        buf.resize(len, 0);
        proof {
            crate::device::lemma_round_up(size as int);
            crate::device::lemma_round_up(all.len() as int);
            crate::device::lemma_round_up_le(offset + len, round_up(size as int));
            crate::device::lemma_round_up_le(offset + len, round_up(all.len() as int));
            assert(addressable(offset as int, len as int));
            crate::device::lemma_round_up_le(size as int, round_up(all.len() as int));
            if size <= all.len() || fits(all.len() as int, 0, size as int) {
                assert(fits(all.len() as int, offset as int, len as int));
            }
        }
        let ghost before = *inode;
        match inode.read_at(offset, buf.as_mut_slice()) {
            Err(e) => {
                return Err(e);
            },
            Ok(n) => {
                if n == 0 {
                    break;
                }
                let mut k: usize = 0;
                while k < n
                    invariant
                        k <= n <= len,
                        offset + len <= size,
                        v@.len() == size,
                        buf@.len() == len,
                        forall|i: int|
                            0 <= i < n && before.sound_at(offset + i) ==> #[trigger] buf@[i]
                                == all[offset + i],
                        forall|i: int| first.sound_at(i) ==> #[trigger] before.sound_at(i),
                        forall|i: int|
                            0 <= i < offset + k && first.sound_at(i) ==> #[trigger] v@[i] == all[i],
                        forall|i: int| offset + k <= i < size ==> #[trigger] v@[i] == 0,
                    decreases n - k,
                {
                    assert(buf@[k as int] == buf@[k as int]);
                    let b: u8 = buf[k];
                    assert(first.sound_at(offset + k) ==> before.sound_at(offset + k));
                    v[offset + k] = b;
                    k = k + 1;
                }
                offset = offset + n;
            },
        }
    }
    Ok((v, offset))
}

/// The image of an executable: one that is shared, or one that was read.
pub enum Image {
    Cached(u64),
    Fresh(Vec<u8>, usize),
}

/// The images after a file was loaded: a file that may be remembered is from now on, unless it was
/// already or reading it failed.
pub open spec fn images_after(s: Seq<ElfImage>, m: Metadata, vmo: u64, read: bool) -> Seq<ElfImage> {
    match cache_key(m) {
        None => s,
        Some(k) => if image_of(s, k) is None && read {
            with_image(s, k, vmo)
        } else {
            s
        },
    }
}

/// The image that is shared for a file, where there is one.
pub open spec fn shared_image(s: Seq<ElfImage>, m: Metadata) -> Option<u64> {
    match cache_key(m) {
        None => None,
        Some(k) => image_of(s, k),
    }
}

/// Loads an executable: the image that is shared for it, or a fresh one, which is shared from now
/// on under the number `vmo` where the file may be remembered.
pub fn read_as_vmo_cached<D: Device>(
    cache: &mut ElfVmoCache,
    m: &Metadata,
    inode: &mut D,
    vmo: u64,
) -> (r: Result<Image, DevError>)
    requires
        consistent(*old(cache)),
        old(inode).inv(),
        addressable(0, m.size as int),
    ensures
        consistent(*final(cache)),
        final(cache).images@ == images_after(old(cache).images@, *m, vmo, r is Ok),
        final(inode).inv(),
        final(inode).contents() == old(inode).contents(),
        match shared_image(old(cache).images@, *m) {
            Some(v) => r matches Ok(Image::Cached(x)) && x == v,
            None => {
                &&& r matches Ok(i) ==> (i matches Image::Fresh(v, n) && image_read(
                    *old(inode),
                    v@,
                    m.size as int,
                    n as int,
                ))
                &&& (old(inode).reliable() || old(inode).gives()) && m.size <= old(
                    inode,
                ).contents().len() ==> r is Ok
            },
        },
{
    let key = elf_cache_key(m);
    match key {
        Some(k) => match cache.get(k) {
            Some(v) => {
                return Ok(Image::Cached(v));
            },
            None => {},
        },
        None => {},
    }
    match read_as_vmo(inode, m.size) {
        Err(e) => Err(e),
        Ok((v, n)) => {
            match key {
                Some(k) => {
                    cache.insert(k, vmo);
                },
                None => {},
            }
            Ok(Image::Fresh(v, n))
        },
    }
}

/// A file that was loaded is not read again: as long as it is remembered, every load gives the
/// image of the first.
pub proof fn law_load_once(s: Seq<ElfImage>, m: Metadata, vmo: u64)
    requires
        cache_key(m) is Some,
        shared_image(s, m) is None,
    ensures
        shared_image(images_after(s, m, vmo, true), m) == Some(vmo),
{
    law_insert_then_get(s, cache_key(m)->Some_0, vmo);
}

/// A remembered image is found again, as long as no other took its place; an image that is there
/// is not replaced.
pub proof fn law_insert_then_get(s: Seq<ElfImage>, key: ElfVmoKey, vmo: u64)
    ensures
        image_of(s, key) is None ==> image_of(with_image(s, key, vmo), key) == Some(vmo),
        image_of(s, key) matches Some(v) ==> image_of(with_image(s, key, vmo), key) == Some(v),
{
    if image_pos(s, key, 0) >= s.len() {
        lemma_pos_range(s, key, 0);
        lemma_absent(s, key, 0);
        lemma_room_absent(s, key, key.size as int);
        let kept = with_room(s, key.size as int);
        lemma_found_at_end(kept, ElfImage { key, vmo }, 0);
    }
}

proof fn lemma_pos_range(s: Seq<ElfImage>, key: ElfVmoKey, i: int)
    requires
        0 <= i <= s.len(),
    ensures
        i <= image_pos(s, key, i) <= s.len(),
    decreases s.len() - i,
{
    if i < s.len() && s[i].key != key {
        lemma_pos_range(s, key, i + 1);
    }
}

proof fn lemma_room_absent(s: Seq<ElfImage>, key: ElfVmoKey, size: int)
    requires
        forall|j: int| 0 <= j < s.len() ==> (#[trigger] s[j]).key != key,
    ensures
        forall|j: int| 0 <= j < with_room(s, size).len() ==> (#[trigger] with_room(s, size)[j]).key
            != key,
    decreases s.len(),
{
    if total(s) + size > ELF_VMO_CACHE_MAX_BYTES && s.len() > 0 {
        assert forall|j: int| 0 <= j < s.skip(1).len() implies (#[trigger] s.skip(1)[j]).key
            != key by {
            assert(s[j + 1].key != key);
        }
        lemma_room_absent(s.skip(1), key, size);
        assert(with_room(s, size) == with_room(s.skip(1), size));
    }
}

proof fn lemma_found_at_end(s: Seq<ElfImage>, e: ElfImage, i: int)
    requires
        0 <= i <= s.len(),
        forall|j: int| 0 <= j < s.len() ==> (#[trigger] s[j]).key != e.key,
    ensures
        image_pos(s.push(e), e.key, i) == s.len(),
    decreases s.len() - i,
{
    if i < s.len() {
        assert(s.push(e)[i].key != e.key);
        lemma_found_at_end(s, e, i + 1);
    }
}

/// A file that was rewritten, so that its size or time differs, is not found under its old
/// identity.
pub proof fn law_rewritten_file_missed(a: Metadata, b: Metadata)
    requires
        cache_key(a) is Some,
        cache_key(b) is Some,
        a.size != b.size || a.mtime != b.mtime,
    ensures
        cache_key(a) != cache_key(b),
{
}

/// Only a file that is neither empty nor large is kept, under its device, number, size and time of
/// change: two that differ in any of these are kept apart.
pub proof fn law_what_is_kept(a: Metadata, b: Metadata)
    ensures
        cache_key(a) is Some <==> a.type_ == FileType::File && 0 < a.size <= 8388608,
        cache_key(a) is Some && cache_key(a) == cache_key(b) ==> a.dev == b.dev && a.inode == b.inode
            && a.size == b.size && a.mtime == b.mtime,
        cache_key(a) is Some && b.type_ == a.type_ && a.dev == b.dev && a.inode == b.inode && a.size
            == b.size && a.mtime == b.mtime ==> cache_key(a) == cache_key(b),
{
}

/// Room is made by dropping the oldest images, and no more of them than must go.
pub proof fn law_oldest_dropped(s: Seq<ElfImage>, size: int)
    requires
        0 <= size <= 33554432,
    ensures
        with_room(s, size).len() <= s.len(),
        with_room(s, size) == s.skip(s.len() - with_room(s, size).len()),
        total(with_room(s, size)) + size <= 33554432,
        total(s) + size <= 33554432 ==> with_room(s, size) == s,
        with_room(s, size).len() < s.len() ==> total(
            s.skip(s.len() - with_room(s, size).len() - 1),
        ) + size > 33554432,
    decreases s.len(),
{
    assert(s.skip(0) =~= s);
    if total(s) + size > 33554432 && s.len() > 0 {
        law_oldest_dropped(s.skip(1), size);
        let n = with_room(s, size).len();
        assert(s.skip(1).skip(s.len() - 1 - n) =~= s.skip(s.len() - n));
        if n < s.len() - 1 {
            assert(s.skip(1).skip(s.len() - 1 - n - 1) =~= s.skip(s.len() - n - 1));
        }
    }
}

/// The total is that of the sizes.
pub proof fn law_sizes_added(s: Seq<ElfImage>, e: ElfImage)
    ensures
        total(s.push(e)) == total(s) + e.key.size,
        total(Seq::<ElfImage>::empty()) == 0,
{
    lemma_total_push(s, e);
}

/// A file that is known changes nothing; a new one comes behind those that stay.
pub proof fn law_new_image_last(s: Seq<ElfImage>, key: ElfVmoKey, vmo: u64, other: ElfVmoKey)
    ensures
        image_of(s, key) is Some ==> with_image(s, key, vmo) == s,
        image_of(s, key) is None ==> with_image(s, key, vmo).last() == (ElfImage { key, vmo }),
        image_of(s, key) is None ==> with_image(s, key, vmo).drop_last() == with_room(
            s,
            key.size as int,
        ),
{
    lemma_pos_range(s, key, 0);
    assert(with_room(s, key.size as int).push(ElfImage { key, vmo }).drop_last() =~= with_room(
        s,
        key.size as int,
    ));
}

} // verus!
