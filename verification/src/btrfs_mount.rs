//! The adapter below a btrfs volume, and the coalescing of small writes above it.
//!
//! Transfers are cut into pieces and retried; a piece that keeps failing is halved, and the
//! smaller size is kept for later ones. Small writes that continue each other are gathered and
//! written together; whatever would see the file otherwise makes them land first.
use vstd::prelude::*;
use std::collections::BTreeMap;
use crate::bytes::{get_u64, splice, u64_at};
use crate::device::{
    addressable, fits, lemma_round_down, lemma_round_down_ge, lemma_round_up, lemma_round_up_le, round_down, round_up,
    BlockScheme, Device,
};
use crate::error::FsError;
use crate::text::{chars_of, text_is};
use crate::vfs::{FileType, FsInfo, Metadata, PollStatus, Timespec};

verus! {

broadcast use {vstd::std_specs::btree::group_btree_axioms, vstd::laws_cmp::group_laws_cmp};

/// How often a transfer is tried before it is made smaller.
pub const IO_RETRIES: usize = 5;

/// The largest transfer.
pub const IO_CHUNK_BYTES: usize = 131072;

/// The smallest transfer that is tried.
pub const IO_MIN_BYTES: usize = 512;

/// Errors of a btrfs volume.
#[derive(Clone, Copy, PartialEq, Eq, Structural, Debug)]
pub enum BtrfsError {
    Io,
    BadSuperblock,
    Corrupt,
    Unsupported,
    NotFound,
    Exists,
    NotDir,
    IsDir,
    NotEmpty,
    NoSpace,
    Invalid,
}

/// An error of the volume as the file system names it.
pub open spec fn fs_of_btrfs(e: BtrfsError) -> FsError {
    match e {
        BtrfsError::Io => FsError::DeviceError,
        BtrfsError::BadSuperblock => FsError::WrongFs,
        BtrfsError::Corrupt => FsError::DeviceError,
        BtrfsError::Unsupported => FsError::NotSupported,
        BtrfsError::NotFound => FsError::EntryNotFound,
        BtrfsError::Exists => FsError::EntryExist,
        BtrfsError::NotDir => FsError::NotDir,
        BtrfsError::IsDir => FsError::IsDir,
        BtrfsError::NotEmpty => FsError::DirNotEmpty,
        BtrfsError::NoSpace => FsError::NoDeviceSpace,
        BtrfsError::Invalid => FsError::InvalidParam,
    }
}

pub fn map_err(e: BtrfsError) -> (r: FsError)
    ensures
        r == fs_of_btrfs(e),
{
    match e {
        BtrfsError::Io => FsError::DeviceError,
        BtrfsError::BadSuperblock => FsError::WrongFs,
        BtrfsError::Corrupt => FsError::DeviceError,
        BtrfsError::Unsupported => FsError::NotSupported,
        BtrfsError::NotFound => FsError::EntryNotFound,
        BtrfsError::Exists => FsError::EntryExist,
        BtrfsError::NotDir => FsError::NotDir,
        BtrfsError::IsDir => FsError::IsDir,
        BtrfsError::NotEmpty => FsError::DirNotEmpty,
        BtrfsError::NoSpace => FsError::NoDeviceSpace,
        BtrfsError::Invalid => FsError::InvalidParam,
    }
}

/// Whether a device surely answers a request of `n` bytes that fits it: it fails none, or none that
/// is no larger than the smallest transfer.
pub open spec fn answers<D: Device>(d: D, n: int) -> bool {
    d.reliable() || (n <= IO_MIN_BYTES && d.takes(IO_MIN_BYTES as int))
}

/// The device below a volume.
pub struct DevAdapter<D: Device> {
    pub inner: D,
    pub size: u64,
    /// No transfer is larger. It only ever shrinks.
    pub max_xfer: usize,
}

impl<D: Device> DevAdapter<D> {
    pub fn new(inner: D, size: u64) -> (a: Self)
        ensures
            a.inner == inner,
            a.size == size,
            a.max_xfer == IO_CHUNK_BYTES,
    {
        DevAdapter { inner, size, max_xfer: IO_CHUNK_BYTES }
    }

    /// How large the next transfer may be.
    fn piece(&self, left: usize) -> (n: usize)
        requires
            left > 0,
        ensures
            0 < n <= left,
            n <= IO_MIN_BYTES || n <= self.max_xfer,
            left <= IO_MIN_BYTES ==> n == left,
    {
        let cap: usize = if self.max_xfer > IO_MIN_BYTES {
            self.max_xfer
        } else {
            IO_MIN_BYTES
        };
        if left < cap {
            left
        } else {
            cap
        }
    }

    /// Halves a transfer that kept failing, and keeps the smaller size.
    fn shrink(&mut self, piece: usize) -> (n: usize)
        requires
            piece > IO_MIN_BYTES,
        ensures
            n == (if piece / 2 > IO_MIN_BYTES {
                (piece / 2) as usize
            } else {
                IO_MIN_BYTES
            }),
            IO_MIN_BYTES <= n < piece,
            final(self).inner == old(self).inner,
            final(self).size == old(self).size,
            final(self).max_xfer == (if n < old(self).max_xfer {
                n
            } else {
                old(self).max_xfer
            }),
    {
        let half: usize = piece / 2;
        let n: usize = if half > IO_MIN_BYTES {
            half
        } else {
            IO_MIN_BYTES
        };
        if n < self.max_xfer {
            self.max_xfer = n;
        }
        n
    }

    /// Tries to read one piece, a few times over.
    fn try_read(&mut self, at: usize, buf: &mut [u8], done: usize, n: usize) -> (ok: bool)
        requires
            old(self).inner.inv(),
            0 < n,
            done + n <= old(buf)@.len(),
            addressable(at as int, n as int),
        ensures
            final(self).inner.inv(),
            final(self).inner.contents() == old(self).inner.contents(),
            final(self).inner.reliable() == old(self).inner.reliable(),
            forall|i: int|
                old(self).inner.sound_at(i) ==> #[trigger] final(self).inner.sound_at(i),
            final(self).size == old(self).size,
            final(self).max_xfer == old(self).max_xfer,
            final(buf)@.len() == old(buf)@.len(),
            forall|i: int| 0 <= i < done ==> #[trigger] final(buf)@[i] == old(buf)@[i],
            ok ==> forall|i: int|
                done <= i < done + n && old(self).inner.sound_at(at + (i - done))
                    ==> #[trigger] final(buf)@[i] == old(self).inner.contents()[at + (i - done)],
            ok ==> at + n <= old(self).inner.contents().len(),
            forall|m: int| #[trigger] final(self).inner.takes(m) == old(self).inner.takes(m),
            answers(old(self).inner, n as int) && at + n <= old(self).inner.contents().len() ==> ok,
            0 <= old(self).inner.misses() < IO_RETRIES && at + n <= old(self).inner.contents().len()
                ==> ok && 0 <= final(self).inner.misses() <= old(self).inner.misses(),
    {
        let ghost first = self.inner;
        let ghost all = self.inner.contents();
        let ghost start = buf@;
        let mut k: usize = 0;
        while k < IO_RETRIES
            invariant
                k <= IO_RETRIES,
                first == old(self).inner,
                start == old(buf)@,
                all == first.contents(),
                self.inner.inv(),
                self.inner.contents() == all,
                self.inner.reliable() == first.reliable(),
                forall|m: int| #[trigger] self.inner.takes(m) == first.takes(m),
                forall|i: int| first.sound_at(i) ==> #[trigger] self.inner.sound_at(i),
                self.size == old(self).size,
                self.max_xfer == old(self).max_xfer,
                0 < n,
                done + n <= buf@.len(),
                buf@.len() == start.len(),
                addressable(at as int, n as int),
                forall|i: int| 0 <= i < done ==> #[trigger] buf@[i] == start[i],
                k > 0 ==> !(answers(first, n as int) && at + n <= all.len()),
                first.misses() >= 0 && at + n <= all.len() ==> 0 <= self.inner.misses()
                    <= first.misses() - k,
            decreases IO_RETRIES - k,
        {
            let ghost before = self.inner;
            let ghost bytes = buf@;
            proof {
                if first.takes(IO_MIN_BYTES as int) {
                    assert(self.inner.takes(IO_MIN_BYTES as int));
                }
                lemma_round_up(all.len() as int);
                lemma_round_up_le(at + n, round_up(all.len() as int));
                if at + n <= all.len() {
                    assert(fits(all.len() as int, at as int, n as int));
                }
            }
            let (head, rest) = buf.split_at_mut(done);
            let (middle, tail) = rest.split_at_mut(n);
            let r = self.inner.read_at(at, middle);
            assert(buf@ =~= head@ + (middle@ + tail@));
            match r {
                Ok(got) => {
                    if got == n {
                        proof {
                            assert forall|i: int|
                                done <= i < done + n && first.sound_at(at + (i - done))
                                implies #[trigger] buf@[i] == all[at + (i - done)] by {
                                assert(before.sound_at(at + (i - done)));
                                assert(buf@[i] == middle@[i - done]);
                            }
                        }
                        return true;
                    }
                },
                Err(_) => {},
            }
            k = k + 1;
        }
        false
    }

    /// Reads bytes, piece by piece. A piece that keeps failing is halved, down to the smallest transfer,
    /// so a device that answers those gives the bytes, whatever it makes of larger ones. A few requests
    /// that fail now and then make no difference.
    pub fn read_at(&mut self, offset: u64, buf: &mut [u8]) -> (r: Result<(), BtrfsError>)
        requires
            old(self).inner.inv(),
            offset <= usize::MAX,
            addressable(offset as int, old(buf)@.len() as int),
        ensures
            final(self).inner.inv(),
            final(self).inner.contents() == old(self).inner.contents(),
            final(self).size == old(self).size,
            final(self).max_xfer <= old(self).max_xfer,
            final(buf)@.len() == old(buf)@.len(),
            r matches Err(e) ==> e == BtrfsError::Io,
            r is Ok && old(buf)@.len() > 0 ==> offset + old(buf)@.len() <= old(
                self).inner.contents().len(),
            r is Ok ==> forall|i: int|
                0 <= i < old(buf)@.len() && old(self).inner.sound_at(offset + i)
                    ==> #[trigger] final(buf)@[i] == old(self).inner.contents()[offset + i],
            answers(old(self).inner, IO_MIN_BYTES as int) && offset + old(buf)@.len() <= old(
                self).inner.contents().len() ==> r is Ok,
            0 <= old(self).inner.misses() < IO_RETRIES && offset + old(buf)@.len() <= old(
                self).inner.contents().len() ==> r is Ok && final(self).max_xfer == old(
                self).max_xfer,
    {
        let ghost first = self.inner;
        let ghost all = self.inner.contents();
        let base: usize = offset as usize;
        let len: usize = buf.len();
        let mut done: usize = 0;
        proof {
            lemma_round_up(offset + len);
        }
        while done < len
            invariant
                done <= len,
                len == old(buf)@.len(),
                len == buf@.len(),
                base == offset,
                first == old(self).inner,
                all == first.contents(),
                self.inner.inv(),
                self.inner.contents() == all,
                self.inner.reliable() == first.reliable(),
                forall|m: int| #[trigger] self.inner.takes(m) == first.takes(m),
                forall|i: int| first.sound_at(i) ==> #[trigger] self.inner.sound_at(i),
                self.size == old(self).size,
                self.max_xfer <= old(self).max_xfer,
                0 <= first.misses() < IO_RETRIES && offset + len <= all.len() ==> 0
                    <= self.inner.misses() < IO_RETRIES && self.max_xfer == old(self).max_xfer,
                addressable(offset as int, len as int),
                round_up(offset + len) >= offset + len,
                done > 0 ==> offset + done <= all.len(),
                forall|i: int|
                    0 <= i < done && first.sound_at(offset + i) ==> #[trigger] buf@[i]
                        == all[offset + i],
            decreases len - done,
        {
            let mut piece: usize = self.piece(len - done);
            let mut ok: bool = false;
            while !ok
                invariant
                    done < len,
                    0 < piece,
                    done + piece <= len,
                    len == old(buf)@.len(),
                    len == buf@.len(),
                    base == offset,
                    first == old(self).inner,
                    all == first.contents(),
                    self.inner.inv(),
                    self.inner.contents() == all,
                    self.inner.reliable() == first.reliable(),
                    forall|m: int| #[trigger] self.inner.takes(m) == first.takes(m),
                    forall|i: int| first.sound_at(i) ==> #[trigger] self.inner.sound_at(i),
                    self.size == old(self).size,
                    self.max_xfer <= old(self).max_xfer,
                    0 <= first.misses() < IO_RETRIES && offset + len <= all.len() ==> 0
                        <= self.inner.misses() < IO_RETRIES && self.max_xfer == old(self).max_xfer,
                    addressable(offset as int, len as int),
                    round_up(offset + len) >= offset + len,
                    ok ==> offset + done + piece <= all.len(),
                    forall|i: int|
                        0 <= i < done && first.sound_at(offset + i) ==> #[trigger] buf@[i]
                            == all[offset + i],
                    ok ==> forall|i: int|
                        done <= i < done + piece && first.sound_at(offset + i)
                            ==> #[trigger] buf@[i] == all[offset + i],
                decreases
                    piece,
                    if ok {
                        0int
                    } else {
                        1int
                    },
            {
                let ghost before = self.inner;
                proof {
                    lemma_round_up(offset + len);
                    lemma_round_up_le(base + done + piece, round_up(offset + len));
                }
                ok = self.try_read(base + done, buf, done, piece);
                if ok {
                    proof {
                        assert forall|i: int|
                            done <= i < done + piece && first.sound_at(offset + i)
                            implies #[trigger] buf@[i] == all[offset + i] by {
                            assert(before.sound_at(offset + i));
                            assert(base + done + (i - done) == offset + i);
                        }
                    }
                } else if piece > IO_MIN_BYTES {
                    piece = self.shrink(piece);
                } else {
                    return Err(BtrfsError::Io);
                }
            }
            done = done + piece;
        }
        Ok(())
    }

    /// Tries to write one piece, a few times over.
    fn try_write(&mut self, at: usize, src: &[u8]) -> (ok: bool)
        requires
            old(self).inner.inv(),
            0 < src@.len(),
            addressable(at as int, src@.len() as int),
        ensures
            ok ==> at + src@.len() <= old(self).inner.contents().len(),
            ok ==> forall|i: int|
                at <= i < at + src@.len() ==> #[trigger] final(self).inner.contents()[i] == src@[i
                    - at],
            final(self).inner.inv(),
            final(self).inner.contents().len() == old(self).inner.contents().len(),
            final(self).inner.reliable() == old(self).inner.reliable(),
            final(self).size == old(self).size,
            final(self).max_xfer == old(self).max_xfer,
            forall|i: int|
                0 <= i < old(self).inner.contents().len() && !(round_down(at as int) <= i
                    < round_up(at + src@.len())) ==> #[trigger] final(self).inner.contents()[i]
                    == old(self).inner.contents()[i],
            forall|m: int| #[trigger] final(self).inner.takes(m) == old(self).inner.takes(m),
            final(self).inner.spares() == old(self).inner.spares(),
            old(self).inner.spares() ==> forall|i: int|
                0 <= i < old(self).inner.contents().len() && !(at <= i < at + src@.len())
                    ==> #[trigger] final(self).inner.contents()[i] == old(
                    self).inner.contents()[i],
            answers(old(self).inner, src@.len() as int) && at + src@.len() <= old(
                self).inner.contents().len() ==> ok && final(self).inner.contents() == splice(
                old(self).inner.contents(),
                at as int,
                src@,
            ),
            0 <= old(self).inner.misses() < IO_RETRIES && at + src@.len() <= old(
                self).inner.contents().len() ==> ok && 0 <= final(self).inner.misses() <= old(
                self).inner.misses(),
    {
        let ghost first = self.inner;
        let ghost all = self.inner.contents();
        let n: usize = src.len();
        let mut k: usize = 0;
        proof {
            lemma_round_up(at + n);
            lemma_round_down(at as int);
        }
        while k < IO_RETRIES
            invariant
                k <= IO_RETRIES,
                first == old(self).inner,
                all == first.contents(),
                n == src@.len(),
                self.inner.inv(),
                self.inner.contents().len() == all.len(),
                self.inner.reliable() == first.reliable(),
                forall|m: int| #[trigger] self.inner.takes(m) == first.takes(m),
                self.size == old(self).size,
                self.max_xfer == old(self).max_xfer,
                0 < n,
                addressable(at as int, n as int),
                round_down(at as int) <= at,
                at + n <= round_up(at + n),
                forall|i: int|
                    0 <= i < all.len() && !(round_down(at as int) <= i < round_up(at + n))
                        ==> #[trigger] self.inner.contents()[i] == all[i],
                self.inner.spares() == first.spares(),
                first.spares() ==> forall|i: int|
                    0 <= i < all.len() && !(at <= i < at + n)
                        ==> #[trigger] self.inner.contents()[i] == all[i],
                k == 0 ==> self.inner.contents() == all,
                k > 0 ==> !(answers(first, n as int) && at + n <= all.len()),
                first.misses() >= 0 && at + n <= all.len() ==> 0 <= self.inner.misses()
                    <= first.misses() - k,
            decreases IO_RETRIES - k,
        {
            let ghost before = self.inner.contents();
            proof {
                if first.takes(IO_MIN_BYTES as int) {
                    assert(self.inner.takes(IO_MIN_BYTES as int));
                }
                lemma_round_up(all.len() as int);
                lemma_round_up_le(at + n, round_up(all.len() as int));
                if at + n <= all.len() {
                    assert(fits(all.len() as int, at as int, n as int));
                }
                assert(src@.subrange(0, n as int) =~= src@);
            }
            match self.inner.write_at(at, src) {
                Ok(got) => {
                    if got == n {
                        return true;
                    }
                },
                Err(_) => {},
            }
            k = k + 1;
        }
        false
    }

    /// Writes bytes, piece by piece. A piece that keeps failing is halved, down to the smallest
    /// transfer, and tried again; success says that every piece went out. The device holds the bytes
    /// then and nothing else changed, where a failed request spares what it was not aimed at.
    /// Elsewhere a piece that fails may harm the sector that it shares with the one before, up to
    /// where the piece begins: the last byte of every sector is still the one written, and no
    /// sector changed but those that the bytes lie in.
    pub fn write_at(&mut self, offset: u64, buf: &[u8]) -> (r: Result<(), BtrfsError>)
        requires
            old(self).inner.inv(),
            offset <= usize::MAX,
            addressable(offset as int, buf@.len() as int),
        ensures
            final(self).inner.inv(),
            final(self).inner.contents().len() == old(self).inner.contents().len(),
            final(self).size == old(self).size,
            final(self).max_xfer <= old(self).max_xfer,
            r matches Err(e) ==> e == BtrfsError::Io,
            r is Ok && buf@.len() > 0 ==> offset + buf@.len() <= old(self).inner.contents().len(),
            r is Ok && 0 < buf@.len() <= IO_MIN_BYTES ==> final(self).inner.contents().subrange(
                offset as int,
                offset + buf@.len(),
            ) == buf@,
            r is Ok ==> forall|i: int|
                offset <= i < offset + buf@.len() && (i + 1) % 512 == 0 ==> #[trigger] final(
                    self).inner.contents()[i] == buf@[i - offset],
            r is Ok && old(self).inner.spares() ==> final(self).inner.contents() == splice(
                old(self).inner.contents(),
                offset as int,
                buf@,
            ),
            old(self).inner.spares() ==> forall|i: int|
                0 <= i < old(self).inner.contents().len() && !(offset <= i < offset + buf@.len())
                    ==> #[trigger] final(self).inner.contents()[i] == old(
                    self).inner.contents()[i],
            forall|i: int|
                0 <= i < old(self).inner.contents().len() && !(round_down(offset as int) <= i
                    < round_up(offset + buf@.len())) ==> #[trigger] final(
                    self).inner.contents()[i] == old(self).inner.contents()[i],
            answers(old(self).inner, IO_MIN_BYTES as int) && offset + buf@.len() <= old(
                self).inner.contents().len() ==> r is Ok,
            0 <= old(self).inner.misses() < IO_RETRIES && offset + buf@.len() <= old(
                self).inner.contents().len() ==> r is Ok && final(self).max_xfer == old(
                self).max_xfer,
            old(self).inner.reliable() && offset + buf@.len() <= old(self).inner.contents().len()
                ==> r is Ok && final(self).inner.contents() == splice(
                old(self).inner.contents(),
                offset as int,
                buf@,
            ),
    {
        let ghost first = self.inner;
        let ghost all = self.inner.contents();
        let base: usize = offset as usize;
        let len: usize = buf.len();
        let mut done: usize = 0;
        proof {
            lemma_round_up(offset + len);
            lemma_round_down(offset as int);
            assert(all =~= splice(all, offset as int, buf@.subrange(0, 0)));
        }
        while done < len
            invariant
                done <= len,
                len == buf@.len(),
                base == offset,
                first == old(self).inner,
                all == first.contents(),
                self.inner.inv(),
                self.inner.contents().len() == all.len(),
                self.inner.reliable() == first.reliable(),
                forall|m: int| #[trigger] self.inner.takes(m) == first.takes(m),
                self.size == old(self).size,
                self.max_xfer <= old(self).max_xfer,
                0 <= first.misses() < IO_RETRIES && offset + len <= all.len() ==> 0
                    <= self.inner.misses() < IO_RETRIES && self.max_xfer == old(self).max_xfer,
                addressable(offset as int, len as int),
                round_up(offset + len) >= offset + len,
                done > 0 ==> offset + done <= all.len(),
                done > 0 && len <= IO_MIN_BYTES ==> done == len,
                self.inner.spares() == first.spares(),
                forall|i: int|
                    offset <= i < offset + done && (i + 1) % 512 == 0
                        ==> #[trigger] self.inner.contents()[i] == buf@[i - offset],
                first.spares() ==> forall|i: int|
                    offset <= i < offset + done ==> #[trigger] self.inner.contents()[i] == buf@[i
                        - offset],
                first.spares() ==> forall|i: int|
                    0 <= i < all.len() && !(offset <= i < offset + len)
                        ==> #[trigger] self.inner.contents()[i] == all[i],
                done > 0 && len <= IO_MIN_BYTES ==> forall|i: int|
                    offset <= i < offset + len ==> #[trigger] self.inner.contents()[i] == buf@[i
                        - offset],
                forall|i: int|
                    0 <= i < all.len() && !(round_down(offset as int) <= i < round_up(
                        offset + len,
                    )) ==> #[trigger] self.inner.contents()[i] == all[i],
                first.reliable() && offset + len <= all.len() ==> self.inner.contents() == splice(
                    all,
                    offset as int,
                    buf@.subrange(0, done as int),
                ),
            decreases len - done,
        {
            let mut piece: usize = self.piece(len - done);
            let mut ok: bool = false;
            while !ok
                invariant
                    done < len,
                    0 < piece,
                    done + piece <= len,
                    len == buf@.len(),
                    base == offset,
                    first == old(self).inner,
                    all == first.contents(),
                    self.inner.inv(),
                    self.inner.contents().len() == all.len(),
                    self.inner.reliable() == first.reliable(),
                    forall|m: int| #[trigger] self.inner.takes(m) == first.takes(m),
                    self.size == old(self).size,
                    self.max_xfer <= old(self).max_xfer,
                    0 <= first.misses() < IO_RETRIES && offset + len <= all.len() ==> 0
                        <= self.inner.misses() < IO_RETRIES && self.max_xfer == old(self).max_xfer,
                    addressable(offset as int, len as int),
                    round_up(offset + len) >= offset + len,
                    len <= IO_MIN_BYTES ==> done == 0 && piece == len,
                    ok ==> offset + done + piece <= all.len(),
                    done > 0 ==> offset + done <= all.len(),
                    self.inner.spares() == first.spares(),
                    forall|i: int|
                        offset <= i < offset + done + (if ok {
                            piece as int
                        } else {
                            0
                        }) && (i + 1) % 512 == 0 ==> #[trigger] self.inner.contents()[i] == buf@[i
                            - offset],
                    first.spares() ==> forall|i: int|
                        offset <= i < offset + done + (if ok {
                            piece as int
                        } else {
                            0
                        }) ==> #[trigger] self.inner.contents()[i] == buf@[i - offset],
                    first.spares() ==> forall|i: int|
                        0 <= i < all.len() && !(offset <= i < offset + len)
                            ==> #[trigger] self.inner.contents()[i] == all[i],
                    ok && len <= IO_MIN_BYTES ==> forall|i: int|
                        offset <= i < offset + len ==> #[trigger] self.inner.contents()[i]
                            == buf@[i - offset],
                    forall|i: int|
                        0 <= i < all.len() && !(round_down(offset as int) <= i < round_up(
                            offset + len,
                        )) ==> #[trigger] self.inner.contents()[i] == all[i],
                    first.reliable() && offset + len <= all.len() ==> self.inner.contents()
                        == splice(
                        all,
                        offset as int,
                        buf@.subrange(
                            0,
                            if ok {
                                done + piece
                            } else {
                                done as int
                            },
                        ),
                    ),
                decreases
                    piece,
                    if ok {
                        0int
                    } else {
                        1int
                    },
            {
                let ghost before = self.inner.contents();
                proof {
                    lemma_round_up(offset + len);
                    lemma_round_up_le(base + done + piece, round_up(offset + len));
                    lemma_round_down(offset as int);
                    lemma_round_down(base + done);
                    lemma_round_down_ge(base + done, round_down(offset as int));
                }
                let src: &[u8] = &buf[done..done + piece];
                ok = self.try_write(base + done, src);
                proof {
                    assert forall|i: int|
                        offset <= i < offset + done && (i + 1) % 512 == 0
                        implies #[trigger] self.inner.contents()[i] == buf@[i - offset] by {
                        lemma_round_down_ge(base + done, i + 1);
                        assert(before[i] == buf@[i - offset]);
                    }
                    assert forall|i: int|
                        first.spares() && offset <= i < offset + done
                        implies #[trigger] self.inner.contents()[i] == buf@[i - offset] by {
                        assert(before[i] == buf@[i - offset]);
                    }
                    if first.reliable() && offset + len <= all.len() {
                        assert(self.inner.contents() =~= splice(
                            all,
                            offset as int,
                            buf@.subrange(0, done + piece),
                        ));
                    }
                }
                if !ok {
                    if piece > IO_MIN_BYTES {
                        piece = self.shrink(piece);
                    } else {
                        return Err(BtrfsError::Io);
                    }
                }
            }
            done = done + piece;
        }
        assert(buf@.subrange(0, len as int) =~= buf@);
        proof {
            if first.spares() {
                assert(self.inner.contents() =~= splice(all, offset as int, buf@));
            }
            if 0 < len <= IO_MIN_BYTES {
                assert(self.inner.contents().subrange(offset as int, offset + len) =~= buf@);
            }
        }
        Ok(())
    }

    pub fn sync(&mut self) -> (r: Result<(), BtrfsError>)
        requires
            old(self).inner.inv(),
        ensures
            final(self).inner.inv(),
            final(self).inner.contents() == old(self).inner.contents(),
            r matches Err(e) ==> e == BtrfsError::Io,
            old(self).inner.reliable() ==> r is Ok,
    {
        match self.inner.sync() {
            Ok(_) => Ok(()),
            Err(_) => Err(BtrfsError::Io),
        }
    }

    pub fn size(&self) -> (n: u64)
        ensures
            n == self.size,
    {
        self.size
    }
}

/// Kinds of file that a volume has.
#[derive(Clone, Copy, PartialEq, Eq, Structural, Debug)]
pub enum FileKind {
    Regular,
    Dir,
    Symlink,
    CharDevice,
    BlockDevice,
    Fifo,
    Socket,
}

/// A kind of file as the file system names it.
pub open spec fn type_of(kind: FileKind) -> FileType {
    match kind {
        FileKind::Regular => FileType::File,
        FileKind::Dir => FileType::Dir,
        FileKind::Symlink => FileType::SymLink,
        FileKind::CharDevice => FileType::CharDevice,
        FileKind::BlockDevice => FileType::BlockDevice,
        FileKind::Fifo => FileType::NamedPipe,
        FileKind::Socket => FileType::Socket,
    }
}

/// A type of file as the volume names it.
pub open spec fn kind_of(type_: FileType) -> FileKind {
    match type_ {
        FileType::File => FileKind::Regular,
        FileType::Dir => FileKind::Dir,
        FileType::SymLink => FileKind::Symlink,
        FileType::CharDevice => FileKind::CharDevice,
        FileType::BlockDevice => FileKind::BlockDevice,
        FileType::NamedPipe => FileKind::Fifo,
        FileType::Socket => FileKind::Socket,
    }
}

pub fn vfs_type(kind: FileKind) -> (t: FileType)
    ensures
        t == type_of(kind),
{
    match kind {
        FileKind::Regular => FileType::File,
        FileKind::Dir => FileType::Dir,
        FileKind::Symlink => FileType::SymLink,
        FileKind::CharDevice => FileType::CharDevice,
        FileKind::BlockDevice => FileType::BlockDevice,
        FileKind::Fifo => FileType::NamedPipe,
        FileKind::Socket => FileType::Socket,
    }
}

pub fn btrfs_kind(type_: FileType) -> (k: FileKind)
    ensures
        k == kind_of(type_),
{
    match type_ {
        FileType::File => FileKind::Regular,
        FileType::Dir => FileKind::Dir,
        FileType::SymLink => FileKind::Symlink,
        FileType::CharDevice => FileKind::CharDevice,
        FileType::BlockDevice => FileKind::BlockDevice,
        FileType::NamedPipe => FileKind::Fifo,
        FileType::Socket => FileKind::Socket,
    }
}

/// Every type of file has one kind and every kind one type.
pub proof fn law_kinds_match(type_: FileType, kind: FileKind)
    ensures
        type_of(kind_of(type_)) == type_,
        kind_of(type_of(kind)) == kind,
{
}

/// What a volume knows of a file.
#[derive(Clone, Copy, Debug)]
pub struct InodeStat {
    pub ino: u64,
    pub size: u64,
    pub nbytes: u64,
    pub atime: (u64, u32),
    pub mtime: (u64, u32),
    pub ctime: (u64, u32),
    pub kind: FileKind,
    pub mode: u32,
    pub nlink: u32,
    pub uid: u32,
    pub gid: u32,
    pub rdev: u64,
}

/// Blocks that bytes take.
pub open spec fn blocks_of(nbytes: u64) -> u64 {
    if nbytes % 512 == 0 {
        nbytes / 512
    } else {
        (nbytes / 512 + 1) as u64
    }
}

/// A time as the file system has it.
pub open spec fn time_of(t: (u64, u32)) -> Timespec {
    Timespec { sec: t.0 as i64, nsec: t.1 as i32 }
}

/// What a volume knows of a file as the file system has it.
pub open spec fn metadata_of(st: InodeStat) -> Metadata {
    Metadata {
        dev: 0,
        inode: st.ino as usize,
        size: st.size as usize,
        blk_size: 512,
        blocks: blocks_of(st.nbytes) as usize,
        atime: time_of(st.atime),
        mtime: time_of(st.mtime),
        ctime: time_of(st.ctime),
        type_: type_of(st.kind),
        mode: (st.mode & 0o7777) as u16,
        nlinks: st.nlink as usize,
        uid: st.uid as usize,
        gid: st.gid as usize,
        rdev: st.rdev as usize,
    }
}

fn timespec(t: (u64, u32)) -> (r: Timespec)
    ensures
        r == time_of(t),
{
    #[verifier::truncate]
    let sec: i64 = t.0 as i64;
    #[verifier::truncate]
    let nsec: i32 = t.1 as i32;
    Timespec { sec, nsec }
}

pub fn stat_to_metadata(st: &InodeStat) -> (m: Metadata)
    ensures
        m == metadata_of(*st),
{
    #[verifier::truncate]
    let inode: usize = st.ino as usize;
    #[verifier::truncate]
    let size: usize = st.size as usize;
    let whole: u64 = st.nbytes / 512;
    let count: u64 = if st.nbytes % 512 == 0 {
        whole
    } else {
        whole + 1
    };
    #[verifier::truncate]
    let blocks: usize = count as usize;
    #[verifier::truncate]
    let mode: u16 = (st.mode & 0o7777) as u16;
    #[verifier::truncate]
    let rdev: usize = st.rdev as usize;
    Metadata {
        dev: 0,
        inode,
        size,
        blk_size: 512,
        blocks,
        atime: timespec(st.atime),
        mtime: timespec(st.mtime),
        ctime: timespec(st.ctime),
        type_: vfs_type(st.kind),
        mode,
        nlinks: st.nlink as usize,
        uid: st.uid as usize,
        gid: st.gid as usize,
        rdev,
    }
}

/// A buffer of this size is written out.
pub const WRITE_BUF_FLUSH: usize = 1048576;

/// Writes to one file that were gathered and not written yet.
pub struct PendingWrite {
    pub ino: u64,
    pub start: u64,
    pub data: Vec<u8>,
}

/// Gathered writes, mathematically.
#[verifier::ext_equal]
pub struct Pending {
    pub ino: u64,
    pub start: u64,
    pub data: Seq<u8>,
}

impl View for PendingWrite {
    type V = Pending;

    open spec fn view(&self) -> Pending {
        Pending { ino: self.ino, start: self.start, data: self.data@ }
    }
}

/// An entry of a directory as it is kept.
pub struct CachedDirEntry {
    pub name: String,
    pub ino: u64,
}

/// An entry of a directory, mathematically.
pub open spec fn entries_of(v: Seq<CachedDirEntry>) -> Seq<(Seq<char>, u64)> {
    Seq::new(v.len(), |i: int| (v[i].name@, v[i].ino))
}

/// Listings kept, mathematically.
pub open spec fn listings_of(m: Map<u64, Vec<CachedDirEntry>>) -> Map<u64, Seq<(Seq<char>, u64)>> {
    m.map_values(|v: Vec<CachedDirEntry>| entries_of(v@))
}

/// A mounted volume: the writes gathered, those of one file at most, and the listings kept.
pub struct BtrfsMountFs {
    pub write_buf: Option<PendingWrite>,
    pub dir_cache: BTreeMap<u64, Vec<CachedDirEntry>>,
}

/// A mounted volume, mathematically.
#[verifier::ext_equal]
pub struct MountModel {
    pub pending: Option<Pending>,
    pub listings: Map<u64, Seq<(Seq<char>, u64)>>,
}

impl View for BtrfsMountFs {
    type V = MountModel;

    open spec fn view(&self) -> MountModel {
        MountModel {
            pending: taken(self.write_buf),
            listings: listings_of(self.dir_cache@),
        }
    }
}

/// Whether a write continues what was gathered.
pub open spec fn continues(w: Option<Pending>, ino: u64, off: u64) -> bool {
    w matches Some(p) && p.ino == ino && p.start + p.data.len() == off
}

/// The gathered bytes end at a 64-bit place.
pub open spec fn ends_in_range(w: Option<Pending>) -> bool {
    w matches Some(p) ==> p.start + p.data.len() <= u64::MAX
}

/// What a write has to do on the volume.
pub enum WriteStep {
    /// Nothing more: so many bytes were written.
    Done(usize),
    /// Write the gathered bytes out, this write's with them; so many bytes were written then.
    FlushFull(PendingWrite, usize),
    /// Ask the volume what kind of file it is.
    AskKind,
    /// Write out what was gathered before, where there is any, then start a new buffer.
    Start(Option<PendingWrite>),
    /// Write out what was gathered before, where there is any, then this write.
    Through(Option<PendingWrite>),
    /// Write out what was gathered before, where there is any, then change the link's target.
    Link(Option<PendingWrite>),
    Failed(FsError),
}

/// Gathered writes by their contents.
pub open spec fn taken(p: Option<PendingWrite>) -> Option<Pending> {
    match p {
        Some(w) => Some(w@),
        None => None,
    }
}

/// What a volume says of its size.
#[derive(Clone, Copy, PartialEq, Eq, Structural, Debug)]
pub struct VolumeStat {
    pub block_size: u64,
    pub total_bytes: u64,
    pub bytes_used: u64,
}

/// The size of a volume as the file system has it.
pub open spec fn info_of(s: VolumeStat) -> FsInfo {
    let bsize = if s.block_size == 0 {
        1u64
    } else {
        s.block_size
    };
    let free = if s.total_bytes < s.bytes_used {
        0u64
    } else {
        (s.total_bytes - s.bytes_used) as u64
    };
    FsInfo {
        bsize: bsize as usize,
        frsize: bsize as usize,
        blocks: (s.total_bytes / bsize) as usize,
        bfree: (free / bsize) as usize,
        bavail: (free / bsize) as usize,
        files: 0,
        ffree: 0,
        namemax: 255,
    }
}

impl BtrfsMountFs {
    pub fn new() -> (f: Self)
        ensures
            f@ == (MountModel { pending: None, listings: Map::empty() }),
    {
        let f = BtrfsMountFs { write_buf: None, dir_cache: BTreeMap::new() };
        assert(f@.listings =~= Map::empty());
        f
    }

    pub fn inode(&self, ino: u64) -> (n: BtrfsMountINode)
        ensures
            n.ino == ino,
            n.kind is None,
    {
        BtrfsMountINode { ino, kind: None }
    }

    /// The listing of a directory, where it is kept.
    pub fn cached_readdir(&self, dir: u64) -> (r: Option<&Vec<CachedDirEntry>>)
        ensures
            match r {
                Some(v) => self@.listings.contains_key(dir) && entries_of(v@)
                    == self@.listings[dir],
                None => !self@.listings.contains_key(dir),
            },
    {
        self.dir_cache.get(&dir)
    }

    /// Forgets the listing of a directory.
    pub fn invalidate_dir(&mut self, dir: u64)
        ensures
            final(self)@ == (MountModel { listings: old(self)@.listings.remove(dir), ..old(self)@ }),
    {
        self.dir_cache.remove(&dir);
        assert(self@.listings =~= old(self)@.listings.remove(dir));
    }

    /// Keeps the listing of a directory.
    pub fn remember_dir(&mut self, dir: u64, entries: Vec<CachedDirEntry>)
        ensures
            final(self)@ == (MountModel {
                listings: old(self)@.listings.insert(dir, entries_of(entries@)),
                ..old(self)@
            }),
    {
        self.dir_cache.insert(dir, entries);
        assert(self@.listings =~= old(self)@.listings.insert(dir, entries_of(entries@)));
    }

    /// What was gathered for a file, to be written out before it is read, cut or described.
    pub fn flush_inode(&mut self, ino: u64) -> (p: Option<PendingWrite>)
        ensures
            inode_flushed(old(self)@, ino, p, final(self)@),
            final(self).dir_cache == old(self).dir_cache,
    {
        match self.write_buf.take() {
            None => None,
            Some(p) => {
                if p.ino == ino {
                    Some(p)
                } else {
                    self.write_buf = Some(p);
                    None
                }
            },
        }
    }

    /// What was gathered for any file.
    pub fn flush_any(&mut self) -> (p: Option<PendingWrite>)
        ensures
            taken(p) == old(self)@.pending,
            final(self)@ == (MountModel { pending: None, ..old(self)@ }),
            final(self).dir_cache == old(self).dir_cache,
    {
        self.write_buf.take()
    }

    /// Decides how the writing out of gathered bytes goes on, of which `done` were written before.
    /// A volume that takes nothing fails it.
    pub fn flush_pending(pw: &PendingWrite, done: usize, result: Result<usize, BtrfsError>) -> (s:
        FlushStep)
        requires
            done < pw.data@.len(),
            result matches Ok(n) ==> n <= pw.data@.len() - done,
        ensures
            s == flush_next(pw.data@.len() as int, done as int, result),
    {
        let len: usize = pw.data.len();
        match result {
            Err(e) => FlushStep::Failed(map_err(e)),
            Ok(n) => {
                if n == 0 {
                    FlushStep::Failed(FsError::DeviceError)
                } else if done + n < len {
                    FlushStep::More(done + n)
                } else {
                    FlushStep::Done
                }
            },
        }
    }

    /// Where the gathered bytes of a file end.
    pub fn buffered_end(&self, ino: u64) -> (r: Option<u64>)
        requires
            ends_in_range(self@.pending),
        ensures
            r == buffered(self@.pending, ino),
    {
        match &self.write_buf {
            Some(p) => {
                if p.ino == ino {
                    Some(p.start + p.data.len() as u64)
                } else {
                    None
                }
            },
            None => None,
        }
    }

    /// The size of the volume.
    pub fn info(&self, stat: VolumeStat) -> (i: FsInfo)
        ensures
            i == info_of(stat),
    {
        let bsize: u64 = if stat.block_size == 0 {
            1
        } else {
            stat.block_size
        };
        let free: u64 = if stat.total_bytes < stat.bytes_used {
            0
        } else {
            stat.total_bytes - stat.bytes_used
        };
        #[verifier::truncate]
        let size: usize = bsize as usize;
        #[verifier::truncate]
        let blocks: usize = (stat.total_bytes / bsize) as usize;
        #[verifier::truncate]
        let bfree: usize = (free / bsize) as usize;
        FsInfo {
            bsize: size,
            frsize: size,
            blocks,
            bfree,
            bavail: bfree,
            files: 0,
            ffree: 0,
            namemax: 255,
        }
    }
}

/// A file of a volume, with its kind once it is known.
#[derive(Clone, Copy, PartialEq, Eq, Structural, Debug)]
pub struct BtrfsMountINode {
    pub ino: u64,
    pub kind: Option<FileKind>,
}

/// What is done with a file or in a directory that gathered writes matter to.
#[derive(Clone, Copy, PartialEq, Eq, Structural, Debug)]
pub enum Action {
    Read,
    SetMetadata,
    Resize,
    Create,
    Unlink,
    /// One more link to a file; both have to be on this volume.
    Link { same_fs: bool },
    /// A move into a directory; both have to be on this volume.
    Move { same_fs: bool },
    Sync,
}

/// How an action begins.
pub enum Begin {
    Refused(FsError),
    /// These bytes have to be written out before.
    Flush(PendingWrite),
    Go,
}

/// Whether an action reaches beyond the volume.
pub open spec fn elsewhere(act: Action) -> bool {
    act == (Action::Link { same_fs: false }) || act == (Action::Move { same_fs: false })
}

/// What has to be written out before an action on file `ino`: what was gathered for that file where
/// the action is on its bytes or attributes, and whatever was gathered where it is on names or on
/// everything.
pub open spec fn owed(w: Option<Pending>, ino: u64, act: Action) -> Option<Pending> {
    match act {
        Action::Read | Action::SetMetadata | Action::Resize => match w {
            Some(p) => if p.ino == ino {
                Some(p)
            } else {
                None
            },
            None => None,
        },
        _ => w,
    }
}

/// How an action on a file begins, and the volume's state after that.
pub open spec fn action_begun(m: MountModel, ino: u64, act: Action, s: Begin, m2: MountModel) -> bool {
    &&& m2 == (MountModel {
        pending: if s is Flush {
            None
        } else {
            m.pending
        },
        ..m
    })
    &&& match s {
        Begin::Refused(e) => e == FsError::NotSameFs && elsewhere(act),
        Begin::Flush(p) => !elsewhere(act) && owed(m.pending, ino, act) == Some(p@),
        Begin::Go => !elsewhere(act) && owed(m.pending, ino, act) is None,
    }
}

/// What a change of attributes hands to the volume, once what was gathered was written out.
pub open spec fn attributes_set(
    flushed: Result<(), FsError>,
    m: Metadata,
    r: Result<AttrUpdate, FsError>,
) -> bool {
    match flushed {
        Err(e) => r == Err::<AttrUpdate, FsError>(e),
        Ok(_) => r matches Ok(u) && {
            &&& u.mode == m.mode
            &&& u.uid == m.uid as u32
            &&& u.gid == m.gid as u32
            &&& u.atime == (m.atime.sec as u64, m.atime.nsec as u32)
            &&& u.mtime == (m.mtime.sec as u64, m.mtime.nsec as u32)
        },
    }
}

/// How a write of `buf` begins, and the volume's state after that.
pub open spec fn write_begun(
    m: MountModel,
    ino: u64,
    off: u64,
    buf: Seq<u8>,
    s: WriteStep,
    m2: MountModel,
) -> bool {
    if buf.len() == 0 {
        s == WriteStep::Done(0) && m2 == m
    } else if continues(m.pending, ino, off) {
        let grown = Pending { data: m.pending->0.data + buf, ..m.pending->0 };
        if grown.data.len() < WRITE_BUF_FLUSH {
            s == WriteStep::Done(buf.len() as usize) && m2 == (MountModel {
                pending: Some(grown),
                ..m
            })
        } else {
            (s matches WriteStep::FlushFull(p, n) && p@ == grown && n == buf.len()) && m2 == (
            MountModel { pending: None, ..m })
        }
    } else {
        s is AskKind && m2 == m
    }
}

/// How a write of `n` bytes goes on once the kind of the file is known.
pub open spec fn kind_decides(
    m: MountModel,
    stat: Result<FileKind, BtrfsError>,
    n: nat,
    s: WriteStep,
    m2: MountModel,
) -> bool {
    match stat {
        Err(e) => s == WriteStep::Failed(fs_of_btrfs(e)) && m2 == m,
        Ok(FileKind::Dir) => s == WriteStep::Failed(FsError::IsDir) && m2 == m,
        Ok(FileKind::Symlink) => (s matches WriteStep::Link(p) && taken(p) == m.pending) && m2 == (
        MountModel { pending: None, ..m }),
        Ok(_) => if n < WRITE_BUF_FLUSH {
            (s matches WriteStep::Start(p) && taken(p) == m.pending) && m2 == (MountModel {
                pending: None,
                ..m
            })
        } else {
            (s matches WriteStep::Through(p) && taken(p) == m.pending) && m2 == (MountModel {
                pending: None,
                ..m
            })
        },
    }
}

/// A write that starts a new buffer answers `r`, once what was gathered before was written out.
pub open spec fn gathering_starts(
    m: MountModel,
    ino: u64,
    flushed: Result<(), FsError>,
    off: u64,
    buf: Seq<u8>,
    r: Result<usize, FsError>,
    m2: MountModel,
) -> bool {
    match flushed {
        Ok(_) => r == Ok::<usize, FsError>(buf.len() as usize) && m2 == (MountModel {
            pending: Some(Pending { ino, start: off, data: buf }),
            ..m
        }),
        Err(e) => r == Err::<usize, FsError>(e) && m2 == m,
    }
}

/// What was gathered for a file is handed out as `p`.
pub open spec fn inode_flushed(m: MountModel, ino: u64, p: Option<PendingWrite>, m2: MountModel) -> bool {
    if m.pending matches Some(w) && w.ino == ino {
        taken(p) == m.pending && m2 == (MountModel { pending: None, ..m })
    } else {
        p is None && m2 == m
    }
}

/// The kind of a file, from what the volume says where it is not known yet, and what is known then.
pub open spec fn kind_known(
    kind: Option<FileKind>,
    stat: Result<FileKind, BtrfsError>,
) -> (Result<FileKind, FsError>, Option<FileKind>) {
    match kind {
        Some(k) => (Ok(k), kind),
        None => match stat {
            Ok(k) => (Ok(k), Some(k)),
            Err(e) => (Err(fs_of_btrfs(e)), None),
        },
    }
}

/// Where the bytes of a file of a kind are read from.
pub open spec fn read_from(flushed: Result<(), FsError>, kind: Result<FileKind, FsError>) -> Result<
    ReadFrom,
    FsError,
> {
    match flushed {
        Err(e) => Err(e),
        Ok(_) => match kind {
            Err(e) => Err(e),
            Ok(FileKind::Dir) => Err(FsError::IsDir),
            Ok(FileKind::Symlink) => Ok(ReadFrom::Link),
            Ok(_) => Ok(ReadFrom::File),
        },
    }
}

/// What a write answers that went straight to the volume.
pub open spec fn wrote_through(flushed: Result<(), FsError>, wrote: Result<usize, BtrfsError>) -> Result<
    usize,
    FsError,
> {
    match flushed {
        Ok(_) => match wrote {
            Ok(n) => Ok(n),
            Err(e) => Err(fs_of_btrfs(e)),
        },
        Err(e) => Err(e),
    }
}

/// What a file of a kind is ready for.
pub open spec fn status_of(stat: Result<FileKind, BtrfsError>) -> Result<PollStatus, FsError> {
    match stat {
        Ok(kind) => Ok(PollStatus { read: true, write: kind != FileKind::Dir, error: false }),
        Err(e) => Err(fs_of_btrfs(e)),
    }
}

/// What a name in a directory stands for, by its characters.
pub open spec fn named(name: Seq<char>) -> Result<Named, FsError> {
    if name == "."@ || name == ""@ {
        Ok(Named::This)
    } else if name == ".."@ {
        Err(FsError::EntryNotFound)
    } else {
        Ok(Named::Child)
    }
}

/// The node that creating an entry gives.
pub open spec fn made_node(flushed: Result<(), FsError>, made: Result<u64, BtrfsError>) -> Result<
    BtrfsMountINode,
    FsError,
> {
    match flushed {
        Ok(_) => match made {
            Ok(ino) => Ok(BtrfsMountINode { ino, kind: None }),
            Err(e) => Err(fs_of_btrfs(e)),
        },
        Err(e) => Err(e),
    }
}

/// The volume's state after names in two directories were changed, where that was `done`.
pub open spec fn names_changed(m: MountModel, done: bool, a: u64, b: u64) -> MountModel {
    if done {
        MountModel { listings: m.listings.remove(a).remove(b), ..m }
    } else {
        m
    }
}

/// How a file is read.
#[derive(Clone, Copy, PartialEq, Eq, Structural, Debug)]
pub enum ReadFrom {
    /// From the target of a link.
    Link,
    /// From the file's bytes.
    File,
}

/// What a name in a directory stands for.
#[derive(Clone, Copy, PartialEq, Eq, Structural, Debug)]
pub enum Named {
    /// The directory itself.
    This,
    /// What the volume finds.
    Child,
}

/// An entry of a directory by its position.
pub enum EntryAt {
    /// The directory itself, under this name.
    This(String),
    /// A child.
    Child(u64, String),
}

/// An entry of a directory by its position, mathematically: the number of a child and a name.
pub open spec fn entry_at(id: int, entries: Seq<(Seq<char>, u64)>) -> Result<
    (Option<u64>, Seq<char>),
    FsError,
> {
    if id == 0 {
        Ok((None, "."@))
    } else if id == 1 {
        Ok((None, ".."@))
    } else if id - 2 < entries.len() {
        Ok((Some(entries[id - 2].1), entries[id - 2].0))
    } else {
        Err(FsError::EntryNotFound)
    }
}

/// What is changed of a file's attributes.
#[derive(Clone, Copy, Debug)]
pub struct AttrUpdate {
    pub mode: u32,
    pub uid: u32,
    pub gid: u32,
    pub atime: (u64, u32),
    pub mtime: (u64, u32),
}

impl BtrfsMountINode {
    /// The kind of the file, from what the volume says where it is not known yet.
    pub fn kind(&mut self, stat: Result<FileKind, BtrfsError>) -> (r: Result<FileKind, FsError>)
        ensures
            final(self).ino == old(self).ino,
            r == kind_known(old(self).kind, stat).0,
            final(self).kind == kind_known(old(self).kind, stat).1,
    {
        match self.kind {
            Some(k) => Ok(k),
            None => match stat {
                Ok(k) => {
                    self.kind = Some(k);
                    Ok(k)
                },
                Err(e) => Err(map_err(e)),
            },
        }
    }

    /// Begins an action: whatever it would see or change otherwise is to be written out before.
    pub fn begin(&self, fs: &mut BtrfsMountFs, act: Action) -> (s: Begin)
        ensures
            final(fs).dir_cache == old(fs).dir_cache,
            action_begun(old(fs)@, self.ino, act, s, final(fs)@),
    {
        let all: bool = match act {
            Action::Read => false,
            Action::SetMetadata => false,
            Action::Resize => false,
            Action::Create => true,
            Action::Unlink => true,
            Action::Link { same_fs } => {
                if !same_fs {
                    return Begin::Refused(FsError::NotSameFs);
                }
                true
            },
            Action::Move { same_fs } => {
                if !same_fs {
                    return Begin::Refused(FsError::NotSameFs);
                }
                true
            },
            Action::Sync => true,
        };
        let pending = if all {
            fs.flush_any()
        } else {
            fs.flush_inode(self.ino)
        };
        match pending {
            Some(p) => Begin::Flush(p),
            None => Begin::Go,
        }
    }

    /// How a file of a kind is read, once what was gathered for it was written out.
    pub fn read_at(&self, flushed: Result<(), FsError>, kind: Result<FileKind, FsError>) -> (r: Result<
        ReadFrom,
        FsError,
    >)
        ensures
            r == read_from(flushed, kind),
    {
        match flushed {
            Err(e) => Err(e),
            Ok(_) => match kind {
                Err(e) => Err(e),
                Ok(FileKind::Dir) => Err(FsError::IsDir),
                Ok(FileKind::Symlink) => Ok(ReadFrom::Link),
                Ok(_) => Ok(ReadFrom::File),
            },
        }
    }

    /// The length that the volume is to cut the file to, or fill it up to, once what was gathered for
    /// it was written out.
    pub fn resize(&self, flushed: Result<(), FsError>, len: usize) -> (r: Result<u64, FsError>)
        ensures
            r == (match flushed {
                Ok(_) => Ok::<u64, FsError>(len as u64),
                Err(e) => Err(e),
            }),
    {
        match flushed {
            Ok(_) => Ok(len as u64),
            Err(e) => Err(e),
        }
    }

    /// What an action answers that only the volume performs, a cut or a sync, once what was gathered
    /// was written out.
    pub fn finish(&self, flushed: Result<(), FsError>, done: Result<(), BtrfsError>) -> (r: Result<
        (),
        FsError,
    >)
        ensures
            r == ended(flushed, done),
    {
        match flushed {
            Ok(_) => match done {
                Ok(_) => Ok(()),
                Err(e) => Err(map_err(e)),
            },
            Err(e) => Err(e),
        }
    }

    /// Writes. A write of nothing is done at once; one that continues the last is gathered, and a
    /// buffer that is full then is to be written out. Another one has to ask for the kind of the
    /// file first.
    pub fn write_at(&self, fs: &mut BtrfsMountFs, off: u64, buf: &[u8]) -> (s: WriteStep)
        requires
            ends_in_range(old(fs)@.pending),
            off + buf@.len() <= u64::MAX,
        ensures
            final(fs).dir_cache == old(fs).dir_cache,
            ends_in_range(final(fs)@.pending),
            write_begun(old(fs)@, self.ino, off, buf@, s, final(fs)@),
    {
        let n: usize = buf.len();
        if n == 0 {
            return WriteStep::Done(0);
        }
        match fs.write_buf.take() {
            None => WriteStep::AskKind,
            Some(p) => {
                if p.ino == self.ino && p.start + p.data.len() as u64 == off {
                    let mut grown = p;
                    grown.data.extend_from_slice(buf);
                    assert(grown.data@ =~= old(fs)@.pending->0.data + buf@);
                    if grown.data.len() < WRITE_BUF_FLUSH {
                        fs.write_buf = Some(grown);
                        WriteStep::Done(n)
                    } else {
                        WriteStep::FlushFull(grown, n)
                    }
                } else {
                    fs.write_buf = Some(p);
                    WriteStep::AskKind
                }
            },
        }
    }

    /// Goes on with a write to a file of which the volume has told the kind: what was gathered has
    /// to be written out; then a small write starts a new buffer, and a large one goes straight
    /// through. No buffer is started here, as it is not where the writing out fails.
    pub fn write_kind(
        &self,
        fs: &mut BtrfsMountFs,
        stat: Result<FileKind, BtrfsError>,
        off: u64,
        buf: &[u8],
    ) -> (s: WriteStep)
        requires
            off + buf@.len() <= u64::MAX,
        ensures
            final(fs).dir_cache == old(fs).dir_cache,
            ends_in_range(old(fs)@.pending) ==> ends_in_range(final(fs)@.pending),
            kind_decides(old(fs)@, stat, buf@.len(), s, final(fs)@),
    {
        match stat {
            Err(e) => WriteStep::Failed(map_err(e)),
            Ok(FileKind::Dir) => WriteStep::Failed(FsError::IsDir),
            Ok(FileKind::Symlink) => WriteStep::Link(fs.flush_any()),
            Ok(_) => {
                let before = fs.flush_any();
                if buf.len() < WRITE_BUF_FLUSH {
                    WriteStep::Start(before)
                } else {
                    WriteStep::Through(before)
                }
            },
        }
    }

    /// Starts a new buffer with a small write, unless the writing out of the last one failed.
    pub fn write_started(
        &self,
        fs: &mut BtrfsMountFs,
        flushed: Result<(), FsError>,
        off: u64,
        buf: &[u8],
    ) -> (r: Result<usize, FsError>)
        requires
            off + buf@.len() <= u64::MAX,
        ensures
            final(fs).dir_cache == old(fs).dir_cache,
            gathering_starts(old(fs)@, self.ino, flushed, off, buf@, r, final(fs)@),
            flushed is Ok ==> ends_in_range(final(fs)@.pending),
            flushed is Err ==> *final(fs) == *old(fs),
    {
        match flushed {
            Ok(_) => {
                let mut data: Vec<u8> = Vec::new();
                data.extend_from_slice(buf);
                assert(data@ =~= buf@);
                fs.write_buf = Some(PendingWrite { ino: self.ino, start: off, data });
                Ok(buf.len())
            },
            Err(e) => Err(e),
        }
    }

    /// What a write answers that went to the volume once what was gathered was written out.
    pub fn write_done(&self, flushed: Result<(), FsError>, wrote: Result<usize, BtrfsError>) -> (r:
        Result<usize, FsError>)
        ensures
            r == wrote_through(flushed, wrote),
    {
        match flushed {
            Ok(_) => match wrote {
                Ok(n) => Ok(n),
                Err(e) => Err(map_err(e)),
            },
            Err(e) => Err(e),
        }
    }

    /// The readiness of a file: a directory is not writable.
    pub fn poll(&self, stat: Result<FileKind, BtrfsError>) -> (r: Result<PollStatus, FsError>)
        ensures
            r == status_of(stat),
    {
        match stat {
            Ok(kind) => Ok(PollStatus { read: true, write: kind != FileKind::Dir, error: false }),
            Err(e) => Err(map_err(e)),
        }
    }

    /// Metadata of the file, gathered bytes counted.
    pub fn metadata(&self, fs: &BtrfsMountFs, stat: Result<InodeStat, BtrfsError>) -> (r: Result<
        Metadata,
        FsError,
    >)
        requires
            ends_in_range(fs@.pending),
        ensures
            r == (match stat {
                Ok(st) => Ok::<Metadata, FsError>(
                    metadata_of(stat_with_buffer(st, buffered(fs@.pending, self.ino))),
                ),
                Err(e) => Err(fs_of_btrfs(e)),
            }),
    {
        match stat {
            Err(e) => Err(map_err(e)),
            Ok(st) => {
                let mut s = st;
                match fs.buffered_end(self.ino) {
                    Some(n) => {
                        if n > s.size {
                            s.size = n;
                            if s.nbytes < n {
                                s.nbytes = n;
                            }
                        }
                    },
                    None => {},
                }
                Ok(stat_to_metadata(&s))
            },
        }
    }

    /// What new metadata changes, once what was gathered for the file was written out: later that
    /// would set the times anew.
    pub fn set_metadata(&self, flushed: Result<(), FsError>, m: &Metadata) -> (r: Result<
        AttrUpdate,
        FsError,
    >)
        ensures
            attributes_set(flushed, *m, r),
    {
        match flushed {
            Err(e) => {
                return Err(e);
            },
            Ok(_) => {},
        }
        #[verifier::truncate]
        let uid: u32 = m.uid as u32;
        #[verifier::truncate]
        let gid: u32 = m.gid as u32;
        #[verifier::truncate]
        let asec: u64 = m.atime.sec as u64;
        #[verifier::truncate]
        let ansec: u32 = m.atime.nsec as u32;
        #[verifier::truncate]
        let msec: u64 = m.mtime.sec as u64;
        #[verifier::truncate]
        let mnsec: u32 = m.mtime.nsec as u32;
        Ok(
            AttrUpdate {
                mode: m.mode as u32,
                uid,
                gid,
                atime: (asec, ansec),
                mtime: (msec, mnsec),
            },
        )
    }

    /// What a name stands for. There is no way up.
    pub fn find(&self, name: &str) -> (r: Result<Named, FsError>)
        ensures
            r == named(name@),
    {
        let cs = chars_of(name);
        if text_is(cs.as_slice(), ".") || text_is(cs.as_slice(), "") {
            Ok(Named::This)
        } else if text_is(cs.as_slice(), "..") {
            Err(FsError::EntryNotFound)
        } else {
            Ok(Named::Child)
        }
    }

    /// An entry by its position, the two for the directory itself and its parent first.
    pub fn get_entry_with_metadata(&self, id: usize, entries: &Vec<CachedDirEntry>) -> (r: Result<
        EntryAt,
        FsError,
    >)
        ensures
            match r {
                Ok(EntryAt::This(s)) => entry_at(id as int, entries_of(entries@)) == Ok::<
                    (Option<u64>, Seq<char>),
                    FsError,
                >((None, s@)),
                Ok(EntryAt::Child(ino, s)) => entry_at(id as int, entries_of(entries@)) == Ok::<
                    (Option<u64>, Seq<char>),
                    FsError,
                >((Some(ino), s@)),
                Err(e) => entry_at(id as int, entries_of(entries@)) == Err::<
                    (Option<u64>, Seq<char>),
                    FsError,
                >(e),
            },
    {
        if id == 0 {
            Ok(EntryAt::This((".").to_owned()))
        } else if id == 1 {
            Ok(EntryAt::This(("..").to_owned()))
        } else if id - 2 < entries.len() {
            let e = &entries[id - 2];
            Ok(EntryAt::Child(e.ino, e.name.clone()))
        } else {
            Err(FsError::EntryNotFound)
        }
    }

    /// The node of an entry that the volume made, once what was gathered was written out. The
    /// listing of this directory is no longer right then.
    pub fn create2(
        &self,
        fs: &mut BtrfsMountFs,
        flushed: Result<(), FsError>,
        made: Result<u64, BtrfsError>,
    ) -> (r: Result<BtrfsMountINode, FsError>)
        ensures
            r == made_node(flushed, made),
            final(fs)@ == names_changed(old(fs)@, r is Ok, self.ino, self.ino),
    {
        match flushed {
            Ok(_) => match made {
                Ok(ino) => {
                    fs.invalidate_dir(self.ino);
                    Ok(fs.inode(ino))
                },
                Err(e) => Err(map_err(e)),
            },
            Err(e) => Err(e),
        }
    }

    /// What the removal of an entry answers, once what was gathered was written out.
    pub fn unlink(
        &self,
        fs: &mut BtrfsMountFs,
        flushed: Result<(), FsError>,
        done: Result<(), BtrfsError>,
    ) -> (r: Result<(), FsError>)
        ensures
            r == ended(flushed, done),
            final(fs)@ == names_changed(old(fs)@, r is Ok, self.ino, self.ino),
    {
        let r = self.finish(flushed, done);
        if r.is_ok() {
            fs.invalidate_dir(self.ino);
        }
        r
    }

    /// What one more link to a file answers, once what was gathered was written out.
    pub fn link(
        &self,
        fs: &mut BtrfsMountFs,
        flushed: Result<(), FsError>,
        done: Result<(), BtrfsError>,
    ) -> (r: Result<(), FsError>)
        ensures
            r == ended(flushed, done),
            final(fs)@ == names_changed(old(fs)@, r is Ok, self.ino, self.ino),
    {
        self.unlink(fs, flushed, done)
    }

    /// What a move between this directory and another answers, once what was gathered was written
    /// out.
    pub fn move_(
        &self,
        fs: &mut BtrfsMountFs,
        target: u64,
        flushed: Result<(), FsError>,
        done: Result<(), BtrfsError>,
    ) -> (r: Result<(), FsError>)
        ensures
            r == ended(flushed, done),
            final(fs)@ == names_changed(old(fs)@, r is Ok, self.ino, target),
    {
        let r = self.finish(flushed, done);
        if r.is_ok() {
            fs.invalidate_dir(self.ino);
            fs.invalidate_dir(target);
        }
        r
    }
}

/// What an action answers: what the writing out failed with, or else what the volume says.
pub open spec fn ended(flushed: Result<(), FsError>, done: Result<(), BtrfsError>) -> Result<
    (),
    FsError,
> {
    match flushed {
        Ok(_) => match done {
            Ok(_) => Ok(()),
            Err(e) => Err(fs_of_btrfs(e)),
        },
        Err(e) => Err(e),
    }
}

/// Where the gathered bytes of a file end.
pub open spec fn buffered(w: Option<Pending>, ino: u64) -> Option<u64> {
    match w {
        Some(p) => if p.ino == ino {
            Some((p.start + p.data.len()) as u64)
        } else {
            None
        },
        None => None,
    }
}

/// What a file is said to be while bytes of it are gathered: at least as long as they reach.
pub open spec fn stat_with_buffer(st: InodeStat, end: Option<u64>) -> InodeStat {
    match end {
        Some(n) => if n > st.size {
            InodeStat {
                size: n,
                nbytes: if st.nbytes >= n {
                    st.nbytes
                } else {
                    n
                },
                ..st
            }
        } else {
            st
        },
        None => st,
    }
}

/// What the writing out of gathered bytes does next.
#[derive(Clone, Copy, PartialEq, Eq, Structural, Debug)]
pub enum FlushStep {
    /// Write on from here: so many are done.
    More(usize),
    Done,
    Failed(FsError),
}

/// What the writing out does after the volume took `n` of the bytes left, or failed.
pub open spec fn flush_next(len: int, done: int, result: Result<usize, BtrfsError>) -> FlushStep {
    match result {
        Err(e) => FlushStep::Failed(fs_of_btrfs(e)),
        Ok(n) => if n == 0 {
            FlushStep::Failed(FsError::DeviceError)
        } else if done + n < len {
            FlushStep::More((done + n) as usize)
        } else {
            FlushStep::Done
        },
    }
}

/// What reading a link gives: what is left of its target from an offset on.
pub fn read_link(target: &[u8], offset: usize, room: usize) -> (v: Vec<u8>)
    ensures
        v@ == link_part(target@, offset as int, room as int),
{
    let mut v: Vec<u8> = Vec::new();
    if offset >= target.len() {
        assert(v@ =~= link_part(target@, offset as int, room as int));
        return v;
    }
    let left: usize = target.len() - offset;
    let take: usize = if room < left {
        room
    } else {
        left
    };
    v.extend_from_slice(&target[offset..offset + take]);
    assert(v@ =~= link_part(target@, offset as int, room as int));
    v
}

/// What is left of a link's target from an offset on, as far as there is room.
pub open spec fn link_part(target: Seq<u8>, offset: int, room: int) -> Seq<u8> {
    if offset >= target.len() {
        Seq::empty()
    } else if room < target.len() - offset {
        target.subrange(offset, offset + room)
    } else {
        target.subrange(offset, target.len() as int)
    }
}

/// Whether a first sector of the superblock is that of a volume on a single device of so many
/// bytes.
pub open spec fn superblock_ok(s: Seq<u8>, device_bytes: int) -> bool {
    let limit = if device_bytes * 2 <= u64::MAX {
        device_bytes * 2
    } else {
        u64::MAX as int
    };
    &&& u64_at(s, 0x40) == 0x4D5F_5366_5248_425F
    &&& u64_at(s, 0x88) == 1
    &&& 0 < u64_at(s, 0x70) <= limit
}

/// The sector that the superblock starts at.
pub const SB_SECTOR: usize = 128;

/// Whether a block device looks like a btrfs volume.
pub fn probe_btrfs_superblock<B: BlockScheme>(block: &B) -> (r: bool)
    requires
        block.bytes().len() <= u64::MAX,
    ensures
        r ==> block.bytes().len() >= 0x10200 && superblock_ok(
            block.bytes().subrange(0x10000, 0x10200),
            block.bytes().len() as int,
        ),
        block.reliable() && block.bytes().len() >= 0x10200 ==> r == superblock_ok(
            block.bytes().subrange(0x10000, 0x10200),
            block.bytes().len() as int,
        ),
{
    let mut sb: [u8; 512] = [0u8; 512];
    match block.read_block(SB_SECTOR, &mut sb) {
        Err(_) => {
            return false;
        },
        Ok(_) => {},
    }
    let s: &[u8] = sb.as_slice();
    assert(s@ == block.bytes().subrange(0x10000, 0x10200));
    if get_u64(s, 0x40) != 0x4D5F_5366_5248_425F {
        return false;
    }
    let num_devices: u64 = get_u64(s, 0x88);
    let total_bytes: u64 = get_u64(s, 0x70);
    let count: usize = block.block_count();
    let device_bytes: u64 = count as u64 * 512;
    let limit: u64 = if device_bytes <= u64::MAX / 2 {
        device_bytes * 2
    } else {
        u64::MAX
    };
    num_devices == 1 && total_bytes > 0 && total_bytes <= limit
}

/// A file after bytes were written at an offset; a gap before them reads as zeroes.
pub open spec fn put_at(s: Seq<u8>, off: int, data: Seq<u8>) -> Seq<u8> {
    let end = off + data.len();
    Seq::new(
        (if end > s.len() {
            end
        } else {
            s.len() as int
        }) as nat,
        |i: int|
            if off <= i < end {
                data[i - off]
            } else if i < s.len() {
                s[i]
            } else {
                0u8
            },
    )
}

/// The files of a volume after what was gathered was written out.
pub open spec fn landed(files: Map<u64, Seq<u8>>, w: Option<Pending>) -> Map<u64, Seq<u8>> {
    match w {
        Some(p) => files.insert(p.ino, put_at(files[p.ino], p.start as int, p.data)),
        None => files,
    }
}

/// The files of a volume as a reader sees them: what is on it, and what was gathered.
pub open spec fn visible(files: Map<u64, Seq<u8>>, w: Option<Pending>) -> Map<u64, Seq<u8>> {
    landed(files, w)
}

proof fn lemma_put_twice(s: Seq<u8>, off: int, a: Seq<u8>, b: Seq<u8>)
    requires
        a.len() > 0,
        0 <= off,
    ensures
        put_at(put_at(s, off, a), off + a.len(), b) == put_at(s, off, a + b),
{
    assert(put_at(put_at(s, off, a), off + a.len(), b) =~= put_at(s, off, a + b));
}

/// A write that continues what was gathered is seen at once, whether the buffer keeps it or is
/// written out for it.
pub proof fn law_appended_write_visible(
    files: Map<u64, Seq<u8>>,
    p: Pending,
    off: u64,
    buf: Seq<u8>,
)
    requires
        continues(Some(p), p.ino, off),
        p.data.len() > 0,
        files.contains_key(p.ino),
    ensures
        ({
            let grown = Pending { data: p.data + buf, ..p };
            let before = visible(files, Some(p));
            let wanted = before.insert(p.ino, put_at(before[p.ino], off as int, buf));
            &&& visible(files, Some(grown)) == wanted
            &&& visible(landed(files, Some(grown)), None) == wanted
        }),
{
    lemma_put_twice(files[p.ino], p.start as int, p.data, buf);
    let grown = Pending { data: p.data + buf, ..p };
    let before = visible(files, Some(p));
    let wanted = before.insert(p.ino, put_at(before[p.ino], off as int, buf));
    assert(visible(files, Some(grown)) =~= wanted);
}

/// A write that starts a new buffer, or goes straight through, after what was gathered landed, is
/// seen at once, and so is everything gathered before it.
pub proof fn law_started_write_visible(
    files: Map<u64, Seq<u8>>,
    w: Option<Pending>,
    ino: u64,
    off: u64,
    buf: Seq<u8>,
)
    requires
        files.contains_key(ino),
        w matches Some(p) ==> files.contains_key(p.ino),
    ensures
        ({
            let before = visible(files, w);
            let wanted = before.insert(ino, put_at(before[ino], off as int, buf));
            let fresh = Pending { ino, start: off, data: buf };
            &&& visible(landed(files, w), Some(fresh)) == wanted
            &&& visible(landed(files, w).insert(ino, put_at(landed(files, w)[ino], off as int, buf)), None)
                == wanted
        }),
{
}

/// Writing out what was gathered changes nothing that a reader sees.
pub proof fn law_flush_invisible(files: Map<u64, Seq<u8>>, w: Option<Pending>)
    ensures
        visible(landed(files, w), None) == visible(files, w),
{
}

/// Once what is owed was written out, the volume itself has every byte of the file that was written,
/// whatever action it was owed for; and no reader sees a difference.
pub proof fn law_actions_see_gathered_writes(
    files: Map<u64, Seq<u8>>,
    w: Option<Pending>,
    ino: u64,
    act: Action,
)
    ensures
        landed(files, owed(w, ino, act))[ino] == visible(files, w)[ino],
        ({
            let left = if owed(w, ino, act) is Some {
                None
            } else {
                w
            };
            visible(landed(files, owed(w, ino, act)), left) == visible(files, w)
        }),
{
}

/// Which listings are right: those that the volume has.
pub open spec fn listings_right(
    kept: Map<u64, Seq<(Seq<char>, u64)>>,
    volume: Map<u64, Seq<(Seq<char>, u64)>>,
) -> bool {
    forall|d: u64| #[trigger]
        kept.contains_key(d) ==> volume.contains_key(d) && kept[d] == volume[d]
}

/// A kept listing is never stale: where a change touches two directories at most and their
/// listings are forgotten, those that are still kept are still right.
pub proof fn law_listings_never_stale(
    kept: Map<u64, Seq<(Seq<char>, u64)>>,
    before: Map<u64, Seq<(Seq<char>, u64)>>,
    after: Map<u64, Seq<(Seq<char>, u64)>>,
    a: u64,
    b: u64,
)
    requires
        listings_right(kept, before),
        forall|d: u64|
            d != a && d != b && #[trigger] before.contains_key(d) ==> after.contains_key(d)
                && after[d] == before[d],
    ensures
        listings_right(kept.remove(a).remove(b), after),
{
    assert forall|d: u64| #[trigger] kept.remove(a).remove(b).contains_key(d) implies after.contains_key(
        d,
    ) && kept.remove(a).remove(b)[d] == after[d] by {
        assert(kept.contains_key(d));
        assert(before.contains_key(d));
    }
}

/// The size reported while bytes are gathered is the size after they land.
pub proof fn law_reported_size(s: Seq<u8>, st: InodeStat, p: Pending)
    requires
        st.size == s.len(),
        p.data.len() > 0,
        p.start + p.data.len() <= u64::MAX,
        p.ino == st.ino,
    ensures
        stat_with_buffer(st, buffered(Some(p), st.ino)).size == put_at(
            s,
            p.start as int,
            p.data,
        ).len(),
{
}

/// What makes a superblock: the mark of the file system, one device, and a size that is not 0 nor more
/// than twice the device.
pub proof fn law_superblock_checked(s: Seq<u8>, device_bytes: int)
    requires
        0 <= device_bytes,
        2 * device_bytes <= u64::MAX,
    ensures
        superblock_ok(s, device_bytes) <==> u64_at(s, 64) == 0x4D5F_5366_5248_425F && u64_at(s, 136) == 1
            && 1 <= u64_at(s, 112) <= 2 * device_bytes,
{
}

/// Gathered bytes are written out until all are: each step goes on where the one before ended, and one
/// that writes nothing fails.
pub proof fn law_flush_goes_on(len: int, done: int, n: usize, e: BtrfsError)
    requires
        0 <= done,
        done + n <= len <= usize::MAX,
    ensures
        n == 0 ==> flush_next(len, done, Ok(n)) == FlushStep::Failed(FsError::DeviceError),
        n > 0 && done + n == len ==> flush_next(len, done, Ok(n)) is Done,
        n > 0 && done + n < len ==> (flush_next(len, done, Ok(n)) matches FlushStep::More(m) && m == done
            + n),
        flush_next(len, done, Err(e)) == FlushStep::Failed(fs_of_btrfs(e)),
{
}

/// A link is read as a file that holds its target.
pub proof fn law_link_read(target: Seq<u8>, offset: int, room: int, i: int)
    requires
        0 <= offset,
        0 <= room,
        0 <= i < link_part(target, offset, room).len(),
    ensures
        link_part(target, offset, room).len() <= room,
        offset + link_part(target, offset, room).len() <= target.len(),
        link_part(target, offset, room).len() == room || offset + link_part(target, offset, room).len()
            == target.len(),
        link_part(target, offset, room)[i] == target[offset + i],
{
}

/// Reading past the end of a link's target gives nothing, and reading all of it gives it.
pub proof fn law_link_ends(target: Seq<u8>, offset: int, room: int)
    requires
        0 <= offset,
        0 <= room,
    ensures
        offset >= target.len() ==> link_part(target, offset, room).len() == 0,
        room >= target.len() ==> link_part(target, 0, room) == target,
{
    if room >= target.len() {
        assert(link_part(target, 0, room) =~= target);
    }
}

/// A volume counts whole blocks: what is free is what is not used, and nothing where more is used than
/// there is.
pub proof fn law_volume_sizes(s: VolumeStat)
    requires
        0 < s.block_size <= usize::MAX,
        s.total_bytes / s.block_size <= usize::MAX,
    ensures
        info_of(s).bsize == s.block_size,
        info_of(s).frsize == s.block_size,
        info_of(s).blocks == s.total_bytes / s.block_size,
        s.total_bytes >= s.bytes_used ==> info_of(s).bfree == (s.total_bytes - s.bytes_used)
            / s.block_size as int,
        s.total_bytes < s.bytes_used ==> info_of(s).bfree == 0,
        info_of(s).bavail == info_of(s).bfree,
        info_of(s).files == 0 && info_of(s).ffree == 0 && info_of(s).namemax == 255,
{
    let b = s.block_size as int;
    if s.total_bytes >= s.bytes_used {
        let free = s.total_bytes - s.bytes_used;
        vstd::arithmetic::div_mod::lemma_div_is_ordered(free, s.total_bytes as int, b);
        vstd::arithmetic::div_mod::lemma_div_pos_is_pos(free, b);
    } else {
        vstd::arithmetic::div_mod::lemma_div_basics(b);
    }
}

/// Blocks of 512 bytes are counted, a started one as a whole.
pub proof fn law_blocks_counted(nbytes: u64)
    ensures
        512 * blocks_of(nbytes) >= nbytes,
        512 * blocks_of(nbytes) < nbytes + 512,
{
}

/// What is told of a file is what the volume says of it, with the permissions alone of its mode.
pub proof fn law_attributes_told(st: InodeStat)
    ensures
        ({
            let m = metadata_of(st);
            &&& m.inode == st.ino as usize && m.size == st.size as usize
            &&& m.type_ == type_of(st.kind)
            &&& m.mode == (st.mode & 0xfff) as u16
            &&& m.nlinks == st.nlink && m.uid == st.uid && m.gid == st.gid
            &&& m.mtime.sec == st.mtime.0 as i64 && m.mtime.nsec == st.mtime.1 as i32
            &&& m.atime.sec == st.atime.0 as i64 && m.atime.nsec == st.atime.1 as i32
            &&& m.ctime.sec == st.ctime.0 as i64 && m.ctime.nsec == st.ctime.1 as i32
            &&& m.rdev == st.rdev as usize && m.dev == 0 && m.blk_size == 512
        }),
{
}

/// Which gathered bytes an action waits for: one on a file for those of that file, one on a directory
/// for any; none where nothing was gathered.
pub proof fn law_bytes_waited_for(w: Pending, ino: u64, act: Action)
    ensures
        act is Read || act is SetMetadata || act is Resize ==> (owed(Some(w), ino, act) is Some <==> w.ino
            == ino),
        act is Create || act is Unlink || act is Link || act is Move || act is Sync ==> owed(
            Some(w),
            ino,
            act,
        ) == Some(w),
        owed(Some(w), ino, act) is Some ==> owed(Some(w), ino, act) == Some(w),
        owed(None, ino, act) is None,
{
}

/// Only a link or a move to another volume is refused.
pub proof fn law_other_volume_refused(act: Action)
    ensures
        elsewhere(act) <==> (act matches Action::Link { same_fs } && !same_fs) || (
        act matches Action::Move { same_fs } && !same_fs),
{
}

/// The entries of a directory come behind the two that it has by itself.
pub proof fn law_entries_listed(id: int, entries: Seq<(Seq<char>, u64)>)
    requires
        0 <= id,
    ensures
        id < 2 ==> (entry_at(id, entries) matches Ok(e) && e.0 is None && e.1 == (if id == 0 {
            "."@
        } else {
            ".."@
        })),
        2 <= id < entries.len() + 2 ==> (entry_at(id, entries) matches Ok(e) && e.0 == Some(
            entries[id - 2].1,
        ) && e.1 == entries[id - 2].0),
        id >= entries.len() + 2 ==> entry_at(id, entries) == Err::<(Option<u64>, Seq<char>), FsError>(
            FsError::EntryNotFound,
        ),
{
}

/// A size that gathered bytes reach past grows to their end, and what the file takes up with it; a
/// larger one stays.
pub proof fn law_size_with_gathered(st: InodeStat, end: u64)
    ensures
        end <= st.size ==> stat_with_buffer(st, Some(end)) == st,
        end > st.size ==> stat_with_buffer(st, Some(end)).size == end,
        stat_with_buffer(st, Some(end)).nbytes >= st.nbytes,
        end > st.size ==> stat_with_buffer(st, Some(end)).nbytes >= end && (stat_with_buffer(
            st,
            Some(end),
        ).nbytes == st.nbytes || stat_with_buffer(st, Some(end)).nbytes == end),
        stat_with_buffer(st, None) == st,
        stat_with_buffer(st, Some(end)).ino == st.ino && stat_with_buffer(st, Some(end)).kind == st.kind
            && stat_with_buffer(st, Some(end)).mode == st.mode,
{
}

/// Gathered bytes end where the last of them does, for their own file alone.
pub proof fn law_gathered_end(p: Pending, ino: u64)
    requires
        p.start + p.data.len() <= u64::MAX,
    ensures
        ino == p.ino ==> (buffered(Some(p), ino) matches Some(e) && e == p.start + p.data.len()),
        ino != p.ino ==> buffered(Some(p), ino) is None,
        buffered(None, ino) is None,
        forall|off: u64| #[trigger]
            continues(Some(p), ino, off) <==> ino == p.ino && off == p.start + p.data.len(),
{
}

/// A write is at its place afterwards, the bytes around it stay, and a gap before it reads as zero.
pub proof fn law_write_lands(s: Seq<u8>, off: int, data: Seq<u8>, i: int)
    requires
        0 <= off,
        0 <= i < put_at(s, off, data).len(),
    ensures
        off <= i < off + data.len() ==> put_at(s, off, data)[i] == data[i - off],
        !(off <= i < off + data.len()) && i < s.len() ==> put_at(s, off, data)[i] == s[i],
        !(off <= i < off + data.len()) && i >= s.len() ==> put_at(s, off, data)[i] == 0,
        put_at(s, off, data).len() >= s.len() && put_at(s, off, data).len() >= off + data.len(),
        put_at(s, off, data).len() == s.len() || put_at(s, off, data).len() == off + data.len(),
{
}

/// An action fails with what writing the gathered bytes failed with, before it was tried, or with its
/// own error.
pub proof fn law_action_ends(flushed: Result<(), FsError>, done: Result<(), BtrfsError>)
    ensures
        ended(flushed, done) is Ok <==> flushed is Ok && done is Ok,
        flushed matches Err(e) ==> ended(flushed, done) == Err::<(), FsError>(e),
        flushed is Ok ==> (done matches Err(e) ==> ended(flushed, done) == Err::<(), FsError>(
            fs_of_btrfs(e),
        )),
{
}

/// What an error of a volume means to its users: what is not there, is there already, is of the wrong
/// kind or not empty is told as such; trouble with the device, a damaged volume among it, as the
/// device's.
pub proof fn law_volume_errors(e: BtrfsError)
    ensures
        fs_of_btrfs(e) == FsError::DeviceError <==> e is Io || e is Corrupt,
        fs_of_btrfs(e) == FsError::WrongFs <==> e is BadSuperblock,
        fs_of_btrfs(e) == FsError::NotSupported <==> e is Unsupported,
        fs_of_btrfs(e) == FsError::EntryNotFound <==> e is NotFound,
        fs_of_btrfs(e) == FsError::EntryExist <==> e is Exists,
        fs_of_btrfs(e) == FsError::NotDir <==> e is NotDir,
        fs_of_btrfs(e) == FsError::IsDir <==> e is IsDir,
        fs_of_btrfs(e) == FsError::DirNotEmpty <==> e is NotEmpty,
        fs_of_btrfs(e) == FsError::NoDeviceSpace <==> e is NoSpace,
        fs_of_btrfs(e) == FsError::InvalidParam <==> e is Invalid,
{
}

/// However a write begins, a reader sees what the write was for: the bytes are in the file once what
/// is to be written out has landed, and every byte of the write was taken. Where the kind of the
/// file has to be asked for, nothing was taken yet; that is so exactly where the bytes do not go on
/// where the gathered ones end. A buffer that is kept is never full.
pub proof fn law_begun_write_seen(
    files: Map<u64, Seq<u8>>,
    m: MountModel,
    ino: u64,
    off: u64,
    buf: Seq<u8>,
    s: WriteStep,
    m2: MountModel,
)
    requires
        write_begun(m, ino, off, buf, s, m2),
        buf.len() <= usize::MAX,
        m.pending matches Some(p) ==> p.data.len() > 0 && files.contains_key(p.ino),
    ensures
        m2.listings == m.listings,
        s is Done || s is FlushFull || s is AskKind,
        s is AskKind <==> buf.len() > 0 && !(m.pending matches Some(p) && p.ino == ino && off - p.start
            == p.data.len()),
        s is AskKind ==> m2 == m,
        buf.len() == 0 ==> m2 == m,
        s matches WriteStep::Done(n) ==> n == buf.len(),
        s matches WriteStep::FlushFull(_, n) ==> n == buf.len(),
        s is Done && buf.len() > 0 ==> {
            let before = visible(files, m.pending);
            &&& visible(files, m2.pending) == before.insert(
                ino,
                put_at(before[ino], off as int, buf),
            )
            &&& m2.pending matches Some(p) && p.data.len() < 1048576
        },
        s matches WriteStep::FlushFull(p, _) ==> {
            let before = visible(files, m.pending);
            &&& landed(files, Some(p@)) == before.insert(ino, put_at(before[ino], off as int, buf))
            &&& m2.pending is None
            &&& p@.data.len() >= 1048576
        },
{
    if buf.len() > 0 && continues(m.pending, ino, off) {
        law_appended_write_visible(files, m.pending->0, off, buf);
    }
}

/// Once the kind of a file is known, all that was gathered is handed out to be written before the
/// write goes on, so that a reader sees no difference; small writes are gathered, and large ones are
/// not. Directories are never written, and a failure changes nothing.
pub proof fn law_kind_decides_write(
    files: Map<u64, Seq<u8>>,
    m: MountModel,
    stat: Result<FileKind, BtrfsError>,
    n: nat,
    s: WriteStep,
    m2: MountModel,
)
    requires
        kind_decides(m, stat, n, s, m2),
    ensures
        m2.listings == m.listings,
        s is Failed <==> stat is Err || stat == Ok::<FileKind, BtrfsError>(FileKind::Dir),
        s is Failed ==> m2 == m,
        stat == Ok::<FileKind, BtrfsError>(FileKind::Dir) ==> s == WriteStep::Failed(FsError::IsDir),
        s is Link <==> stat == Ok::<FileKind, BtrfsError>(FileKind::Symlink),
        s is Start ==> n < 1048576,
        s is Through ==> n >= 1048576,
        s is Start || s is Through || s is Link || s is Failed,
        s matches WriteStep::Start(p) ==> m2.pending is None && landed(files, taken(p)) == visible(
            files,
            m.pending,
        ),
        s matches WriteStep::Through(p) ==> m2.pending is None && landed(files, taken(p)) == visible(
            files,
            m.pending,
        ),
        s matches WriteStep::Link(p) ==> m2.pending is None && landed(files, taken(p)) == visible(
            files,
            m.pending,
        ),
{
}

/// A write that starts a buffer is seen by readers as if it were on the volume already, and takes
/// every byte. Where the bytes before it could not be written out it is refused with that failure.
pub proof fn law_gathering_seen(
    files: Map<u64, Seq<u8>>,
    m: MountModel,
    ino: u64,
    flushed: Result<(), FsError>,
    off: u64,
    buf: Seq<u8>,
    r: Result<usize, FsError>,
    m2: MountModel,
)
    requires
        gathering_starts(m, ino, flushed, off, buf, r, m2),
        buf.len() <= usize::MAX,
    ensures
        m2.listings == m.listings,
        r is Ok <==> flushed is Ok,
        r matches Ok(n) ==> n == buf.len() && visible(files, m2.pending) == files.insert(
            ino,
            put_at(files[ino], off as int, buf),
        ),
        r matches Err(e) ==> flushed == Err::<(), FsError>(e) && m2 == m,
{
}

/// What was gathered for a file is handed out whole, and only for that file; once it is on the
/// volume a reader sees no difference.
pub proof fn law_file_flushed(
    files: Map<u64, Seq<u8>>,
    m: MountModel,
    ino: u64,
    p: Option<PendingWrite>,
    m2: MountModel,
)
    requires
        inode_flushed(m, ino, p, m2),
    ensures
        m2.listings == m.listings,
        p is Some <==> m.pending is Some && m.pending->0.ino == ino,
        p matches Some(w) ==> w@.ino == ino && m2.pending is None,
        p is None ==> m2 == m,
        visible(landed(files, taken(p)), m2.pending) == visible(files, m.pending),
        !(m2.pending matches Some(w) && w.ino == ino),
{
}

/// The kind of a file is asked for until it is known once, and is that kind from then on.
pub proof fn law_kind_stays(
    kind: Option<FileKind>,
    stat: Result<FileKind, BtrfsError>,
    later: Result<FileKind, BtrfsError>,
)
    ensures
        kind is Some ==> kind_known(kind, stat) == (Ok::<FileKind, FsError>(kind->0), kind),
        kind is None ==> kind_known(kind, stat).0 is Ok == stat is Ok,
        kind is None && stat is Ok ==> kind_known(kind, stat).0->Ok_0 == stat->Ok_0,
        kind_known(kind, stat).0 is Ok ==> kind_known(kind_known(kind, stat).1, later) == kind_known(
            kind,
            stat,
        ),
        kind_known(kind, stat).0 is Err ==> kind_known(kind, stat).1 is None,
{
}

/// Only directories cannot be read, and of the rest only links are read by their target. A failure
/// to write out comes before a failure to tell the kind. What can be read as bytes can be written;
/// a directory is ready for reading only.
pub proof fn law_kinds_read(
    flushed: Result<(), FsError>,
    kind: FileKind,
    e: FsError,
    wrote: Result<usize, BtrfsError>,
)
    ensures
        read_from(Err(e), Ok(kind)) == Err::<ReadFrom, FsError>(e),
        flushed is Ok ==> read_from(flushed, Err(e)) == Err::<ReadFrom, FsError>(e),
        flushed is Ok ==> (read_from(flushed, Ok(kind)) is Err <==> kind is Dir),
        flushed is Ok && kind is Dir ==> read_from(flushed, Ok(kind)) == Err::<ReadFrom, FsError>(
            FsError::IsDir,
        ),
        flushed is Ok ==> (read_from(flushed, Ok(kind)) == Ok::<ReadFrom, FsError>(ReadFrom::Link)
            <==> kind is Symlink),
        status_of(Ok(kind)) matches Ok(p) && p.read && !p.error && (p.write <==> !(kind is Dir)),
        wrote_through(Err(e), wrote) == Err::<usize, FsError>(e),
        flushed is Ok ==> (wrote_through(flushed, wrote) is Ok <==> wrote is Ok),
        flushed is Ok && wrote is Ok ==> wrote_through(flushed, wrote)->Ok_0 == wrote->Ok_0,
{
}

/// A name of no character or of one dot is the directory itself, one of two dots is not found there,
/// and every other name is looked for on the volume.
pub proof fn law_names_looked_up(name: Seq<char>)
    ensures
        named(name) == Ok::<Named, FsError>(Named::This) <==> name.len() == 0 || (name.len() == 1
            && name[0] == '.'),
        named(name) is Err <==> name.len() == 2 && name[0] == '.' && name[1] == '.',
        named(name) matches Err(e) ==> e == FsError::EntryNotFound,
{
    reveal_strlit(".");
    reveal_strlit("");
    reveal_strlit("..");
    if name.len() == 0 {
        assert(name =~= ""@);
    }
    if name.len() == 1 && name[0] == '.' {
        assert(name =~= "."@);
    }
    if name.len() == 2 && name[0] == '.' && name[1] == '.' {
        assert(name =~= ".."@);
    }
}

/// A change of names that was made forgets the listings of the directories it was made in and no
/// other; one that was not made forgets none. What was gathered for files stays.
pub proof fn law_names_forgotten(m: MountModel, done: bool, a: u64, b: u64, d: u64)
    ensures
        names_changed(m, done, a, b).pending == m.pending,
        done ==> !names_changed(m, done, a, b).listings.contains_key(a)
            && !names_changed(m, done, a, b).listings.contains_key(b),
        (!done || (d != a && d != b)) ==> (names_changed(m, done, a, b).listings.contains_key(d)
            <==> m.listings.contains_key(d)),
        (!done || (d != a && d != b)) && m.listings.contains_key(d) ==> names_changed(
            m,
            done,
            a,
            b,
        ).listings[d] == m.listings[d],
{
}

/// A node that was made bears the number that the volume gave it and knows no kind yet; a failure to
/// write out comes before one to make it.
pub proof fn law_node_made(flushed: Result<(), FsError>, made: Result<u64, BtrfsError>)
    ensures
        made_node(flushed, made) is Ok <==> flushed is Ok && made is Ok,
        made_node(flushed, made) matches Ok(n) ==> made == Ok::<u64, BtrfsError>(n.ino) && n.kind
            is None,
        flushed is Err ==> made_node(flushed, made)->Err_0 == flushed->Err_0,
        flushed is Ok && made is Err ==> made_node(flushed, made)->Err_0 == fs_of_btrfs(
            made->Err_0,
        ),
{
}

/// An action begins by writing out what it would miss: nothing that was gathered is lost, the file
/// has no gathered bytes left once the action goes on, and a reader sees no difference. Only a link
/// or a move to another volume is refused, and changes nothing.
pub proof fn law_action_begins(
    files: Map<u64, Seq<u8>>,
    m: MountModel,
    ino: u64,
    act: Action,
    s: Begin,
    m2: MountModel,
)
    requires
        action_begun(m, ino, act, s, m2),
    ensures
        m2.listings == m.listings,
        s is Refused <==> act == (Action::Link { same_fs: false }) || act == (Action::Move {
            same_fs: false,
        }),
        s is Refused ==> s == Begin::Refused(FsError::NotSameFs) && m2 == m,
        s is Go ==> m2 == m,
        s matches Begin::Flush(p) ==> m.pending == Some(p@) && m2.pending is None && landed(
            files,
            Some(p@),
        ) == visible(files, m.pending),
        !(s is Refused) ==> !(m2.pending matches Some(w) && w.ino == ino),
        s is Go && (act is Create || act is Unlink || act is Link || act is Move || act is Sync)
            ==> m.pending is None,
{
}

/// A change of attributes hands each attribute to the volume under its own name, as far as the
/// volume's fields hold it, and comes after what was gathered was written out.
pub proof fn law_attributes_handed_on(
    flushed: Result<(), FsError>,
    m: Metadata,
    r: Result<AttrUpdate, FsError>,
)
    requires
        attributes_set(flushed, m, r),
    ensures
        r is Ok <==> flushed is Ok,
        flushed is Err ==> r->Err_0 == flushed->Err_0,
        r matches Ok(u) ==> {
            &&& u.mode == m.mode
            &&& m.uid <= u32::MAX ==> u.uid == m.uid
            &&& m.gid <= u32::MAX ==> u.gid == m.gid
            &&& m.atime.sec >= 0 ==> u.atime.0 == m.atime.sec
            &&& 0 <= m.atime.nsec < 1_000_000_000 ==> u.atime.1 == m.atime.nsec
            &&& m.mtime.sec >= 0 ==> u.mtime.0 == m.mtime.sec
            &&& 0 <= m.mtime.nsec < 1_000_000_000 ==> u.mtime.1 == m.mtime.nsec
        },
{
}

} // verus!
