//! Storage interfaces: sector-addressed block devices and byte-addressed devices.
use vstd::prelude::*;
use crate::bytes::{copy_into, splice};

verus! {

/// What a device stores, byte by byte.
pub type Contents = Seq<u8>;

/// A place on a device.
pub type Position = int;

/// Bytes per sector of every block device.
pub const SECTOR: usize = 512;

/// Errors a device driver reports.
#[derive(Clone, Copy, PartialEq, Eq, Structural, Debug)]
pub enum DeviceError {
    BufferTooSmall,
    NotSupported,
    NotReady,
    InvalidParam,
    DmaError,
    IoError,
    AlreadyExists,
    NoResources,
}

/// The single error of the byte-addressed layer.
#[derive(Clone, Copy, PartialEq, Eq, Structural, Debug)]
pub struct DevError;

/// `n` rounded up to a whole number of sectors.
#[verifier::opaque]
pub open spec fn round_up(n: int) -> int {
    ((n + 511) / 512) * 512
}

/// The least multiple of the sector size that is not below `n`.
pub proof fn lemma_round_up(n: int)
    ensures
        round_up(n) % 512 == 0,
        n <= round_up(n) < n + 512,
        n % 512 == 0 ==> round_up(n) == n,
{
    reveal(round_up);
}

/// A whole number of sectors holds `n` bytes exactly when it holds `n` rounded up.
pub proof fn lemma_round_up_le(n: int, m: int)
    requires
        m % 512 == 0,
    ensures
        round_up(n) <= m <==> n <= m,
{
    reveal(round_up);
}

/// The greatest multiple of the sector size that is not above `n`.
pub proof fn lemma_round_down(n: int)
    ensures
        round_down(n) % 512 == 0,
        round_down(n) <= n < round_down(n) + 512,
        n % 512 == 0 ==> round_down(n) == n,
{
    reveal(round_down);
}

/// A multiple of the sector size below `n` is below `n` rounded down.
pub proof fn lemma_round_down_ge(n: int, m: int)
    requires
        m % 512 == 0,
    ensures
        m <= round_down(n) <==> m <= n,
{
    reveal(round_down);
}

/// `n` rounded down to a whole number of sectors.
#[verifier::opaque]
pub open spec fn round_down(n: int) -> int {
    (n / 512) * 512
}

/// Whether `len` bytes starting at sector `block_id` are a legal transfer on a
/// device of `size` bytes: a non-zero number of whole sectors, inside the device.
pub open spec fn in_device(size: int, block_id: int, len: int) -> bool {
    0 < len && len % 512 == 0 && block_id * 512 + len <= size
}

/// How many of `len` bytes from `offset` on exist in `size` bytes.
pub open spec fn available(size: int, offset: int, len: int) -> int {
    if offset >= size {
        0
    } else if len <= size - offset {
        len
    } else {
        size - offset
    }
}

/// Whether the request ends no later than the device's last (possibly partial) sector.
pub open spec fn fits(size: int, offset: int, len: int) -> bool {
    round_up(offset + len) <= round_up(size)
}

/// Whether the end of the request's last sector is a machine integer.
pub open spec fn addressable(offset: int, len: int) -> bool {
    round_up(offset + len) <= usize::MAX
}

/// A device transferring whole 512-byte sectors.
pub trait BlockScheme: Sized {
    /// Everything stored on the device.
    spec fn bytes(&self) -> Contents;

    /// Whether every legal transfer succeeds.
    spec fn reliable(&self) -> bool;

    /// Whether a write of one sector that fails leaves it as it was.
    open spec fn spares(&self) -> bool {
        self.reliable()
    }

    /// The device holds a whole number of sectors.
    proof fn whole_sectors(&self)
        ensures
            self.bytes().len() % 512 == 0,
    ;

    fn block_count(&self) -> (n: usize)
        ensures
            n * 512 == self.bytes().len(),
    ;

    /// Reads `buf.len() / 512` sectors starting at `block_id`.
    fn read_block(&self, block_id: usize, buf: &mut [u8]) -> (r: Result<(), DeviceError>)
        ensures
            final(buf)@.len() == old(buf)@.len(),
            r is Ok ==> {
                &&& in_device(self.bytes().len() as int, block_id as int, old(buf)@.len() as int)
                &&& final(buf)@ == self.bytes().subrange(
                    block_id * 512,
                    block_id * 512 + old(buf)@.len(),
                )
            },
            self.reliable() && in_device(
                self.bytes().len() as int,
                block_id as int,
                old(buf)@.len() as int,
            ) ==> r is Ok,
    ;

    /// Writes `buf.len() / 512` sectors starting at `block_id`. A failed write may
    /// have damaged the sectors it was aimed at, and no others.
    fn write_block(&mut self, block_id: usize, buf: &[u8]) -> (r: Result<(), DeviceError>)
        ensures
            final(self).reliable() == old(self).reliable(),
            final(self).spares() == old(self).spares(),
            final(self).bytes().len() == old(self).bytes().len(),
            r is Ok ==> {
                &&& in_device(old(self).bytes().len() as int, block_id as int, buf@.len() as int)
                &&& final(self).bytes() == splice(old(self).bytes(), block_id * 512, buf@)
            },
            r is Err ==> forall|i: int|
                0 <= i < old(self).bytes().len() && !(block_id * 512 <= i < block_id * 512
                    + buf@.len()) ==> #[trigger] final(self).bytes()[i] == old(self).bytes()[i],
            r is Err && old(self).spares() && buf@.len() == 512 ==> final(self).bytes() == old(
                self).bytes(),
            old(self).reliable() && in_device(
                old(self).bytes().len() as int,
                block_id as int,
                buf@.len() as int,
            ) ==> r is Ok,
    ;

    fn flush(&mut self) -> (r: Result<(), DeviceError>)
        ensures
            final(self).bytes() == old(self).bytes(),
            final(self).reliable() == old(self).reliable(),
            final(self).spares() == old(self).spares(),
            old(self).reliable() ==> r is Ok,
    ;
}

/// What a request for `n` bytes comes to on a device of which at most `before` more requests fail:
/// it is done in full, or it is one of those.
pub open spec fn tried(before: int, after: int, r: Result<usize, DevError>, n: int) -> bool {
    ||| r is Ok && r->Ok_0 == n && after == before
    ||| 0 <= after < before
}

/// A byte-addressed device.
///
/// `sound_at(i)` says that reads of byte `i` give what is stored there. Devices
/// without a cache are sound everywhere; a write that failed half-way can leave a
/// cached device unsound on the sectors that the write was aimed at.
pub trait Device: Sized {
    /// Everything stored on the device.
    spec fn contents(&self) -> Contents;

    /// Whether every request that fits the device succeeds.
    spec fn reliable(&self) -> bool;

    /// Whether every request of at most `n` bytes that fits the device succeeds.
    spec fn takes(&self, n: Position) -> bool;

    /// Whether every read that fits the device and has something to read gives some of it, if not
    /// all.
    open spec fn gives(&self) -> bool {
        self.reliable()
    }

    /// Whether a write that fails leaves every byte outside its own range as it was. Elsewhere it
    /// may damage the sectors that it was aimed at.
    open spec fn spares(&self) -> bool {
        false
    }

    /// How many more requests that fit the device may fail at most; below zero where that is not
    /// known.
    open spec fn misses(&self) -> Position {
        -1
    }

    /// How many bytes were asked for by reads so far, on a device that keeps count.
    open spec fn asked(&self) -> Position {
        0
    }

    spec fn sound_at(&self, i: Position) -> bool;

    /// Internal consistency, established by constructors and kept by every operation.
    spec fn inv(&self) -> bool;

    fn read_at(&mut self, offset: usize, buf: &mut [u8]) -> (r: Result<usize, DevError>)
        requires
            old(self).inv(),
            addressable(offset as int, old(buf)@.len() as int),
        ensures
            final(self).inv(),
            final(self).contents() == old(self).contents(),
            final(self).reliable() == old(self).reliable(),
            forall|n: int| #[trigger] final(self).takes(n) == old(self).takes(n),
            final(self).gives() == old(self).gives(),
            final(self).spares() == old(self).spares(),
            forall|i: int| old(self).sound_at(i) ==> #[trigger] final(self).sound_at(i),
            final(self).asked() <= old(self).asked() + old(buf)@.len(),
            final(buf)@.len() == old(buf)@.len(),
            r matches Ok(n) ==> {
                &&& n <= old(buf)@.len()
                &&& n > 0 ==> offset + n <= old(self).contents().len()
                &&& forall|i: int|
                    0 <= i < n && old(self).sound_at(offset + i) ==> #[trigger] final(buf)@[i]
                        == old(self).contents()[offset + i]
            },
            (old(self).reliable() || exists|n: int|
                old(buf)@.len() <= n && #[trigger] old(self).takes(n)) && fits(
                old(self).contents().len() as int,
                offset as int,
                old(buf)@.len() as int,
            ) ==> r is Ok && r->Ok_0 == available(
                old(self).contents().len() as int,
                offset as int,
                old(buf)@.len() as int,
            ),
            old(self).misses() >= 0 && fits(
                old(self).contents().len() as int,
                offset as int,
                old(buf)@.len() as int,
            ) ==> tried(
                old(self).misses(),
                final(self).misses(),
                r,
                available(
                    old(self).contents().len() as int,
                    offset as int,
                    old(buf)@.len() as int,
                ),
            ),
            old(self).gives() && offset < old(self).contents().len() && 0 < old(buf)@.len() && fits(
                old(self).contents().len() as int,
                offset as int,
                old(buf)@.len() as int,
            ) ==> r is Ok && 0 < r->Ok_0,
    ;

    fn write_at(&mut self, offset: usize, buf: &[u8]) -> (r: Result<usize, DevError>)
        requires
            old(self).inv(),
            addressable(offset as int, buf@.len() as int),
        ensures
            final(self).inv(),
            final(self).contents().len() == old(self).contents().len(),
            final(self).reliable() == old(self).reliable(),
            forall|n: int| #[trigger] final(self).takes(n) == old(self).takes(n),
            final(self).gives() == old(self).gives(),
            final(self).spares() == old(self).spares(),
            r matches Ok(n) ==> {
                &&& n <= buf@.len()
                &&& n > 0 ==> offset + n <= old(self).contents().len()
                &&& final(self).contents() == splice(
                    old(self).contents(),
                    offset as int,
                    buf@.subrange(0, n as int),
                )
                &&& forall|i: int|
                    old(self).sound_at(i) || offset <= i < offset + n
                        ==> #[trigger] final(self).sound_at(i)
            },
            r is Err ==> forall|i: int|
                0 <= i < old(self).contents().len() && !(round_down(offset as int) <= i < round_up(
                    offset + buf@.len(),
                )) ==> #[trigger] final(self).contents()[i] == old(self).contents()[i],
            r is Err && old(self).spares() ==> forall|i: int|
                0 <= i < old(self).contents().len() && !(offset <= i < offset + buf@.len())
                    ==> #[trigger] final(self).contents()[i] == old(self).contents()[i],
            r is Err ==> forall|i: int|
                !(round_down(offset as int) <= i < round_up(offset + buf@.len())) && old(
                    self).sound_at(i) ==> #[trigger] final(self).sound_at(i),
            (old(self).reliable() || exists|n: int|
                buf@.len() <= n && #[trigger] old(self).takes(n)) && fits(
                old(self).contents().len() as int,
                offset as int,
                buf@.len() as int,
            ) ==> r is Ok && r->Ok_0 == available(
                old(self).contents().len() as int,
                offset as int,
                buf@.len() as int,
            ),
            old(self).misses() >= 0 && fits(
                old(self).contents().len() as int,
                offset as int,
                buf@.len() as int,
            ) ==> tried(
                old(self).misses(),
                final(self).misses(),
                r,
                available(
                    old(self).contents().len() as int,
                    offset as int,
                    buf@.len() as int,
                ),
            ),
    ;

    fn sync(&mut self) -> (r: Result<(), DevError>)
        requires
            old(self).inv(),
        ensures
            final(self).inv(),
            final(self).contents() == old(self).contents(),
            final(self).reliable() == old(self).reliable(),
            forall|n: int| #[trigger] final(self).takes(n) == old(self).takes(n),
            final(self).gives() == old(self).gives(),
            final(self).spares() == old(self).spares(),
            forall|i: int| old(self).sound_at(i) ==> #[trigger] final(self).sound_at(i),
            final(self).misses() == old(self).misses(),
            old(self).reliable() ==> r is Ok,
    ;
}

/// What a write stored is what a read of the same place gives next, on any device and through any
/// cache; and it is all that the write changed. `before` and `after` are the device around a write
/// that took `n` bytes of `data`, `got` is what a read of as many bytes gave then.
pub proof fn law_read_after_write<D: Device>(
    before: D,
    after: D,
    offset: int,
    data: Seq<u8>,
    n: int,
    got: Seq<u8>,
)
    requires
        0 <= offset,
        0 <= n <= data.len(),
        n > 0 ==> offset + n <= before.contents().len(),
        after.contents() == splice(before.contents(), offset, data.subrange(0, n)),
        forall|i: int| offset <= i < offset + n ==> #[trigger] after.sound_at(i),
        n <= got.len(),
        forall|i: int|
            0 <= i < n && after.sound_at(offset + i) ==> #[trigger] got[i]
                == after.contents()[offset + i],
    ensures
        got.subrange(0, n) == data.subrange(0, n),
        forall|i: int|
            0 <= i < before.contents().len() && !(offset <= i < offset + n)
                ==> #[trigger] after.contents()[i] == before.contents()[i],
{
    assert forall|i: int| 0 <= i < n implies #[trigger] got[i] == data[i] by {
        assert(after.sound_at(offset + i));
        assert(after.contents()[offset + i] == data.subrange(0, n)[i]);
    }
    assert(got.subrange(0, n) =~= data.subrange(0, n));
}

/// A memory buffer read and written by byte offset.
pub struct MemBuf(pub Vec<u8>);

impl MemBuf {
    pub fn new(buf: Vec<u8>) -> (m: MemBuf)
        ensures
            m.0@ == buf@,
    {
        MemBuf(buf)
    }

    /// Copies out what exists from `offset` on; gives the number of bytes copied.
    pub fn read_at(&self, offset: usize, buf: &mut [u8]) -> (n: usize)
        requires
            offset <= self.0@.len(),
        ensures
            n == available(self.0@.len() as int, offset as int, old(buf)@.len() as int),
            final(buf)@ == splice(old(buf)@, 0, self.0@.subrange(offset as int, offset + n)),
    {
        let room: usize = self.0.len() - offset;
        let n: usize = if buf.len() <= room { buf.len() } else { room };
        copy_into(buf, 0, &self.0.as_slice()[offset..offset + n]);
        n
    }

    /// Copies in what fits from `offset` on; gives the number of bytes copied.
    pub fn write_at(&mut self, offset: usize, buf: &[u8]) -> (n: usize)
        requires
            offset <= old(self).0@.len(),
        ensures
            n == available(old(self).0@.len() as int, offset as int, buf@.len() as int),
            final(self).0@ == splice(old(self).0@, offset as int, buf@.subrange(0, n as int)),
    {
        let room: usize = self.0.len() - offset;
        let n: usize = if buf.len() <= room { buf.len() } else { room };
        copy_into(self.0.as_mut_slice(), offset, &buf[0..n]);
        n
    }
}

/// A block device over a memory buffer; a trailing partial sector is not addressable.
pub struct RamBlock(pub Vec<u8>);

impl RamBlock {
    pub fn new(buf: Vec<u8>) -> (b: RamBlock)
        ensures
            b.0@ == buf@,
    {
        RamBlock(buf)
    }
}

impl BlockScheme for RamBlock {
    open spec fn bytes(&self) -> Seq<u8> {
        self.0@.subrange(0, round_down(self.0@.len() as int))
    }

    open spec fn reliable(&self) -> bool {
        true
    }

    open spec fn spares(&self) -> bool {
        true
    }

    proof fn whole_sectors(&self) {
        lemma_round_down(self.0@.len() as int);
        reveal(round_down);
    }

    fn block_count(&self) -> (n: usize) {
        proof {
            reveal(round_down);
        }
        self.0.len() / SECTOR
    }

    fn read_block(&self, block_id: usize, buf: &mut [u8]) -> (r: Result<(), DeviceError>)
        ensures
            r matches Err(e) ==> e == DeviceError::InvalidParam && final(buf)@ == old(buf)@,
    {
        let n: usize = buf.len();
        let count: usize = self.0.len() / SECTOR;
        proof {
            reveal(round_down);
        }
        if n == 0 || n % SECTOR != 0 || block_id >= count || n / SECTOR > count - block_id {
            return Err(DeviceError::InvalidParam);
        }
        let start: usize = block_id * SECTOR;
        copy_into(buf, 0, &self.0.as_slice()[start..start + n]);
        assert(buf@ =~= self.bytes().subrange(block_id * 512, block_id * 512 + n));
        Ok(())
    }

    fn write_block(&mut self, block_id: usize, buf: &[u8]) -> (r: Result<(), DeviceError>)
        ensures
            r matches Err(e) ==> e == DeviceError::InvalidParam && *final(self) == *old(self),
    {
        let n: usize = buf.len();
        let count: usize = self.0.len() / SECTOR;
        proof {
            reveal(round_down);
        }
        if n == 0 || n % SECTOR != 0 || block_id >= count || n / SECTOR > count - block_id {
            return Err(DeviceError::InvalidParam);
        }
        let start: usize = block_id * SECTOR;
        copy_into(self.0.as_mut_slice(), start, buf);
        assert(self.bytes() =~= splice(old(self).bytes(), block_id * 512, buf@));
        Ok(())
    }

    fn flush(&mut self) -> (r: Result<(), DeviceError>) {
        Ok(())
    }
}

/// Rounding goes to the nearest sector boundary above or below.
pub proof fn law_sector_bounds(n: int)
    requires
        0 <= n,
    ensures
        round_up(n) % 512 == 0,
        n <= round_up(n) < n + 512,
        round_down(n) % 512 == 0,
        round_down(n) <= n < round_down(n) + 512,
{
    lemma_round_up(n);
    lemma_round_down(n);
}

/// What can be read from an offset: all that is asked for, up to the end.
pub proof fn law_available_to_the_end(size: int, offset: int, len: int)
    requires
        0 <= offset,
        0 <= len,
        0 <= size,
    ensures
        0 <= available(size, offset, len) <= len,
        available(size, offset, len) > 0 ==> offset + available(size, offset, len) <= size,
        available(size, offset, len) == len || offset + available(size, offset, len) >= size,
{
}

/// A request for blocks is one for whole sectors, at least one, that ends within the device.
pub proof fn law_block_requests(size: int, block_id: int, sectors: int)
    ensures
        in_device(size, block_id, 512 * sectors) <==> sectors > 0 && 512 * (block_id + sectors) <= size,
        forall|len: int| #[trigger] in_device(size, block_id, len) ==> len % 512 == 0,
{
}

/// A request that ends within the size fits, and one that ends past its last sector does not.
pub proof fn law_fitting(size: int, offset: int, len: int)
    requires
        0 <= size,
        0 <= offset,
        0 <= len,
    ensures
        offset + len <= size ==> fits(size, offset, len),
        offset + len > round_up(size) ==> !fits(size, offset, len),
        size % 512 == 0 ==> (fits(size, offset, len) <==> offset + len <= size),
{
    lemma_round_up(size);
    lemma_round_up(offset + len);
    lemma_round_up_le(offset + len, round_up(size));
}

} // verus!
