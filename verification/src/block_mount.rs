//! Byte-addressed devices over block drivers and files, and the buffer cache above them.
use vstd::prelude::*;
use crate::bytes::{copy_into, min_usize, splice};
use crate::device::{
    available, fits, round_down, round_up, BlockScheme, DevError, Device, DeviceError, SECTOR,
};

verus! {

/// Byte-oriented device over a block driver, without a cache of its own.
pub struct BlockByteDevice<B: BlockScheme> {
    pub block: B,
}

impl<B: BlockScheme> BlockByteDevice<B> {
    pub fn new(block: B) -> (d: Self)
        ensures
            d.block == block,
    {
        BlockByteDevice { block }
    }

    /// Reads `take` bytes that lie inside one sector.
    fn read_part(&self, pos: usize, buf: &mut [u8], at: usize, take: usize) -> (r: Result<
        (),
        DeviceError,
    >)
        requires
            0 < take,
            pos % 512 + take <= 512,
            at + take <= old(buf)@.len(),
        ensures
            final(buf)@.len() == old(buf)@.len(),
            r is Ok ==> {
                &&& round_up(pos + take) <= self.block.bytes().len()
                &&& final(buf)@ == splice(
                    old(buf)@,
                    at as int,
                    self.block.bytes().subrange(pos as int, pos + take),
                )
            },
            self.block.reliable() && round_up(pos + take) <= self.block.bytes().len() ==> r is Ok,
    {
        proof {
            reveal(round_up);
        }
        let mut temp: [u8; 512] = [0u8; 512];
        let off: usize = pos % SECTOR;
        match self.block.read_block(pos / SECTOR, &mut temp) {
            Err(e) => Err(e),
            Ok(_) => {
                let ghost all = self.block.bytes();
                copy_into(buf, at, &temp.as_slice()[off..off + take]);
                assert(all.subrange(pos as int, pos + take) =~= temp@.subrange(
                    off as int,
                    off + take,
                ));
                Ok(())
            },
        }
    }

    /// Reads `take` bytes of whole sectors in one device transfer.
    fn read_whole(&self, pos: usize, buf: &mut [u8], at: usize, take: usize) -> (r: Result<
        (),
        DeviceError,
    >)
        requires
            0 < take,
            pos % 512 == 0,
            take % 512 == 0,
            at + take <= old(buf)@.len(),
        ensures
            final(buf)@.len() == old(buf)@.len(),
            r is Ok ==> {
                &&& round_up(pos + take) <= self.block.bytes().len()
                &&& final(buf)@ == splice(
                    old(buf)@,
                    at as int,
                    self.block.bytes().subrange(pos as int, pos + take),
                )
            },
            self.block.reliable() && round_up(pos + take) <= self.block.bytes().len() ==> r is Ok,
    {
        proof {
            reveal(round_up);
        }
        let ghost before = buf@;
        let (head, rest) = buf.split_at_mut(at);
        let (middle, tail) = rest.split_at_mut(take);
        let res = self.block.read_block(pos / SECTOR, middle);
        assert(head@ == before.subrange(0, at as int));
        assert(tail@ =~= before.subrange(at + take, before.len() as int));
        match res {
            Err(e) => Err(e),
            Ok(_) => {
                assert(middle@ == self.block.bytes().subrange(pos as int, pos + take));
                assert(head@ + (middle@ + tail@) =~= splice(before, at as int, middle@));
                Ok(())
            },
        }
    }

    /// Writes bytes that lie inside one sector by reading, patching and writing it.
    fn write_part(&mut self, pos: usize, src: &[u8]) -> (r: Result<(), DeviceError>)
        requires
            0 < src@.len(),
            pos % 512 + src@.len() <= 512,
        ensures
            written(old(self).block, final(self).block, pos as int, src@, r is Ok),
    {
        proof {
            reveal(round_up);
            reveal(round_down);
        }
        let mut temp: [u8; 512] = [0u8; 512];
        let block_id: usize = pos / SECTOR;
        let ghost all = self.block.bytes();
        match self.block.read_block(block_id, &mut temp) {
            Err(e) => {
                return Err(e);
            },
            Ok(_) => {},
        }
        copy_into(&mut temp, pos % SECTOR, src);
        match self.block.write_block(block_id, &temp) {
            Err(e) => Err(e),
            Ok(_) => {
                assert(self.block.bytes() =~= splice(all, pos as int, src@));
                Ok(())
            },
        }
    }

    /// Writes whole sectors in one device transfer.
    fn write_whole(&mut self, pos: usize, src: &[u8]) -> (r: Result<(), DeviceError>)
        requires
            0 < src@.len(),
            pos % 512 == 0,
            src@.len() % 512 == 0,
        ensures
            written(old(self).block, final(self).block, pos as int, src@, r is Ok),
    {
        proof {
            reveal(round_up);
            reveal(round_down);
        }
        match self.block.write_block(pos / SECTOR, src) {
            Err(e) => Err(e),
            Ok(_) => Ok(()),
        }
    }
}

/// The sectors of a piece `[from, upto)` of a request lie among the sectors of the request.
proof fn lemma_piece(offset: int, len: int, size: int, from: int, upto: int)
    requires
        size % 512 == 0,
        0 <= offset,
        0 <= from <= upto <= len,
    ensures
        fits(size, offset, len) <==> offset + len <= size,
        round_up(offset + upto) <= size <==> offset + upto <= size,
        round_up(offset + upto) <= round_up(offset + len),
        round_down(offset) <= round_down(offset + from),
        offset + len <= round_up(offset + len),
        round_down(offset) <= offset,
{
    reveal(round_up);
    reveal(round_down);
}

/// What a write of `src` at byte `pos` does to a block device: on success the bytes are
/// replaced, on failure only the sectors that hold them may have changed, and of those nothing but
/// the bytes themselves where single sectors are spared.
pub open spec fn written<B: BlockScheme>(
    before: B,
    after: B,
    pos: int,
    src: Seq<u8>,
    ok: bool,
) -> bool {
    &&& after.reliable() == before.reliable()
    &&& after.spares() == before.spares()
    &&& after.bytes().len() == before.bytes().len()
    &&& ok ==> {
        &&& round_up(pos + src.len()) <= before.bytes().len()
        &&& after.bytes() == splice(before.bytes(), pos, src)
    }
    &&& !ok ==> forall|i: int|
        0 <= i < before.bytes().len() && !(round_down(pos) <= i < round_up(pos + src.len()))
            ==> #[trigger] after.bytes()[i] == before.bytes()[i]
    &&& !ok && before.spares() ==> forall|i: int|
        0 <= i < before.bytes().len() && !(pos <= i < pos + src.len())
            ==> #[trigger] after.bytes()[i] == before.bytes()[i]
    &&& before.reliable() && round_up(pos + src.len()) <= before.bytes().len() ==> ok
}

/// Splits a request into the part before the first sector boundary, the whole sectors, and the
/// rest.
fn split_request(offset: usize, len: usize) -> (r: (usize, usize, usize))
    requires
        offset + len <= usize::MAX,
    ensures
        r.0 + r.1 + r.2 == len,
        r.0 > 0 ==> offset % 512 + r.0 <= 512,
        r.1 % 512 == 0,
        r.1 > 0 ==> (offset + r.0) % 512 == 0,
        r.2 > 0 ==> (offset + r.0 + r.1) % 512 + r.2 <= 512,
{
    let head_off: usize = offset % SECTOR;
    let head: usize = if head_off != 0 { min_usize(len, SECTOR - head_off) } else { 0 };
    let mid: usize = ((len - head) / SECTOR) * SECTOR;
    (head, mid, len - head - mid)
}

impl<B: BlockScheme> BlockByteDevice<B> {
    /// Reads bytes: a partial sector at either end, whole sectors between them in one transfer.
    pub fn read_bytes(&self, offset: usize, buf: &mut [u8]) -> (r: Result<usize, DeviceError>)
        requires
            offset + old(buf)@.len() <= usize::MAX,
        ensures
            final(buf)@.len() == old(buf)@.len(),
            bytes_read(*self, offset as int, final(buf)@, r),
    {
        let ghost all = self.block.bytes();
        let len: usize = buf.len();
        proof {
            self.block.whole_sectors();
            lemma_piece(offset as int, len as int, all.len() as int, 0, len as int);
        }
        let (head, mid, tail) = split_request(offset, len);
        if head > 0 {
            proof {
                lemma_piece(offset as int, len as int, all.len() as int, 0, head as int);
            }
            match self.read_part(offset, buf, 0, head) {
                Err(e) => {
                    return Err(e);
                },
                Ok(_) => {},
            }
        }
        assert(forall|i: int| 0 <= i < head ==> #[trigger] buf@[i] == all[offset + i]);
        if mid > 0 {
            proof {
                lemma_piece(offset as int, len as int, all.len() as int, head as int, head + mid);
            }
            match self.read_whole(offset + head, buf, head, mid) {
                Err(e) => {
                    return Err(e);
                },
                Ok(_) => {},
            }
        }
        assert(forall|i: int| 0 <= i < head + mid ==> #[trigger] buf@[i] == all[offset + i]);
        if tail > 0 {
            proof {
                lemma_piece(offset as int, len as int, all.len() as int, head + mid, len as int);
            }
            match self.read_part(offset + head + mid, buf, head + mid, tail) {
                Err(e) => {
                    return Err(e);
                },
                Ok(_) => {},
            }
        }
        assert(forall|i: int| 0 <= i < len ==> #[trigger] buf@[i] == all[offset + i]);
        Ok(len)
    }

    /// Writes bytes: a partial sector at either end is read, patched and written back; whole
    /// sectors between them go in one transfer.
    pub fn write_bytes(&mut self, offset: usize, buf: &[u8]) -> (r: Result<usize, DeviceError>)
        requires
            offset + buf@.len() <= usize::MAX,
        ensures
            bytes_written(*old(self), *final(self), offset as int, buf@, r),
    {
        let ghost all = self.block.bytes();
        let len: usize = buf.len();
        proof {
            self.block.whole_sectors();
            lemma_piece(offset as int, len as int, all.len() as int, 0, len as int);
        }
        let (head, mid, tail) = split_request(offset, len);
        if head > 0 {
            proof {
                lemma_piece(offset as int, len as int, all.len() as int, 0, head as int);
            }
            match self.write_part(offset, &buf[0..head]) {
                Err(e) => {
                    return Err(e);
                },
                Ok(_) => {},
            }
        }
        let ghost one = self.block.bytes();
        assert(one =~= splice(all, offset as int, buf@.subrange(0, head as int)));
        if mid > 0 {
            proof {
                lemma_piece(offset as int, len as int, all.len() as int, head as int, head + mid);
            }
            match self.write_whole(offset + head, &buf[head..head + mid]) {
                Err(e) => {
                    return Err(e);
                },
                Ok(_) => {},
            }
        }
        let ghost two = self.block.bytes();
        assert(two =~= splice(all, offset as int, buf@.subrange(0, head + mid)));
        if tail > 0 {
            proof {
                lemma_piece(offset as int, len as int, all.len() as int, head + mid, len as int);
            }
            match self.write_part(offset + head + mid, &buf[head + mid..len]) {
                Err(e) => {
                    return Err(e);
                },
                Ok(_) => {},
            }
        }
        assert(self.block.bytes() =~= splice(all, offset as int, buf@));
        Ok(len)
    }
}

/// What reading as many bytes as `got` has from `offset` on comes to: all of them, as they are stored,
/// or an error, which a device that fails no request gives only where they do not fit it.
pub open spec fn bytes_read<B: BlockScheme>(
    d: BlockByteDevice<B>,
    offset: int,
    got: Seq<u8>,
    r: Result<usize, DeviceError>,
) -> bool {
    &&& r matches Ok(n) ==> {
        &&& n == got.len()
        &&& n > 0 ==> offset + n <= d.block.bytes().len()
        &&& forall|i: int| 0 <= i < n ==> #[trigger] got[i] == d.block.bytes()[offset + i]
    }
    &&& d.block.reliable() && fits(d.block.bytes().len() as int, offset, got.len() as int)
        ==> r is Ok
}

/// What writing `data` at `offset` comes to: all of it is stored and nothing else changed, or an
/// error, after which no sector changed but those that it was aimed at, and no byte but those that
/// it was aimed at on a device that spares single sectors.
pub open spec fn bytes_written<B: BlockScheme>(
    before: BlockByteDevice<B>,
    after: BlockByteDevice<B>,
    offset: int,
    data: Seq<u8>,
    r: Result<usize, DeviceError>,
) -> bool {
    let all = before.block.bytes();
    &&& after.block.bytes().len() == all.len()
    &&& after.block.reliable() == before.block.reliable()
    &&& after.block.spares() == before.block.spares()
    &&& r matches Ok(n) ==> {
        &&& n == data.len()
        &&& n > 0 ==> offset + n <= all.len()
        &&& after.block.bytes() == splice(all, offset, data)
    }
    &&& r is Err ==> forall|i: int|
        0 <= i < all.len() && !(round_down(offset) <= i < round_up(offset + data.len()))
            ==> #[trigger] after.block.bytes()[i] == all[i]
    &&& r is Err && before.block.spares() ==> forall|i: int|
        0 <= i < all.len() && !(offset <= i < offset + data.len())
            ==> #[trigger] after.block.bytes()[i] == all[i]
    &&& before.block.reliable() && fits(all.len() as int, offset, data.len() as int) ==> r is Ok
}

/// Whatever is written inside a device that fails no request, at whatever offset and of whatever
/// length, is written in full, is what the next read of it gives, and is all that changed.
pub proof fn law_write_then_read<B: BlockScheme>(
    before: BlockByteDevice<B>,
    after: BlockByteDevice<B>,
    offset: int,
    data: Seq<u8>,
    wrote: Result<usize, DeviceError>,
    got: Seq<u8>,
    read: Result<usize, DeviceError>,
)
    requires
        before.block.reliable(),
        0 <= offset,
        offset + data.len() <= before.block.bytes().len(),
        data.len() <= usize::MAX,
        got.len() == data.len(),
        bytes_written(before, after, offset, data, wrote),
        bytes_read(after, offset, got, read),
    ensures
        wrote == Ok::<usize, DeviceError>(data.len() as usize),
        read == Ok::<usize, DeviceError>(data.len() as usize),
        got == data,
        after.block.bytes().subrange(offset, offset + data.len()) == data,
        forall|i: int|
            0 <= i < before.block.bytes().len() && !(offset <= i < offset + data.len())
                ==> #[trigger] after.block.bytes()[i] == before.block.bytes()[i],
{
    let size = before.block.bytes().len() as int;
    crate::device::lemma_round_up(size);
    crate::device::lemma_round_up_le(offset + data.len(), round_up(size));
    assert(got =~= data);
    assert(after.block.bytes().subrange(offset, offset + data.len()) =~= data);
}

impl<B: BlockScheme> Device for BlockByteDevice<B> {
    open spec fn contents(&self) -> Seq<u8> {
        self.block.bytes()
    }

    open spec fn reliable(&self) -> bool {
        self.block.reliable()
    }

    open spec fn takes(&self, n: int) -> bool {
        self.block.reliable()
    }

    open spec fn gives(&self) -> bool {
        self.block.reliable()
    }

    open spec fn spares(&self) -> bool {
        self.block.spares()
    }

    open spec fn misses(&self) -> int {
        if self.block.reliable() {
            0
        } else {
            -1
        }
    }

    open spec fn asked(&self) -> int {
        0
    }

    open spec fn sound_at(&self, i: int) -> bool {
        true
    }

    open spec fn inv(&self) -> bool {
        true
    }

    fn read_at(&mut self, offset: usize, buf: &mut [u8]) -> (r: Result<usize, DevError>) {
        proof {
            self.block.whole_sectors();
            lemma_piece(
                offset as int,
                buf@.len() as int,
                self.block.bytes().len() as int,
                0,
                buf@.len() as int,
            );
        }
        match self.read_bytes(offset, buf) {
            Ok(n) => Ok(n),
            Err(_) => Err(DevError),
        }
    }

    fn write_at(&mut self, offset: usize, buf: &[u8]) -> (r: Result<usize, DevError>) {
        proof {
            self.block.whole_sectors();
            lemma_piece(
                offset as int,
                buf@.len() as int,
                self.block.bytes().len() as int,
                0,
                buf@.len() as int,
            );
        }
        assert(buf@.subrange(0, buf@.len() as int) =~= buf@);
        match self.write_bytes(offset, buf) {
            Ok(n) => Ok(n),
            Err(_) => Err(DevError),
        }
    }

    fn sync(&mut self) -> (r: Result<(), DevError>) {
        match self.block.flush() {
            Ok(_) => Ok(()),
            Err(_) => Err(DevError),
        }
    }
}

/// Byte-oriented device over a regular file whose size was taken when it was opened.
pub struct FileByteDevice<F: Device> {
    pub file: F,
    pub len: usize,
}

impl<F: Device> FileByteDevice<F> {
    pub fn new(file: F, size: usize) -> (d: Self)
        requires
            file.inv(),
            size == file.contents().len(),
        ensures
            d.file == file,
            d.len == size,
            d.inv(),
    {
        FileByteDevice { file, len: size }
    }
}

impl<F: Device> Device for FileByteDevice<F> {
    open spec fn contents(&self) -> Seq<u8> {
        self.file.contents()
    }

    open spec fn reliable(&self) -> bool {
        self.file.reliable()
    }

    open spec fn takes(&self, n: int) -> bool {
        self.file.takes(n)
    }

    open spec fn gives(&self) -> bool {
        self.file.gives()
    }

    open spec fn spares(&self) -> bool {
        self.file.spares()
    }

    open spec fn misses(&self) -> int {
        self.file.misses()
    }

    open spec fn asked(&self) -> int {
        self.file.asked()
    }

    open spec fn sound_at(&self, i: int) -> bool {
        self.file.sound_at(i)
    }

    open spec fn inv(&self) -> bool {
        self.file.inv() && self.len == self.file.contents().len()
    }

    fn read_at(&mut self, offset: usize, buf: &mut [u8]) -> (r: Result<usize, DevError>)
        ensures
            offset >= old(self).contents().len() ==> r == Ok::<usize, DevError>(0),
            old(self).reliable() ==> r == Ok::<usize, DevError>(
                available(
                    old(self).contents().len() as int,
                    offset as int,
                    old(buf)@.len() as int,
                ) as usize,
            ),
            old(self).gives() && offset < old(self).contents().len() && 0 < old(buf)@.len() ==> r
                is Ok && 0 < r->Ok_0,
    {
        if offset >= self.len {
            return Ok(0);
        }
        let take: usize = min_usize(buf.len(), self.len - offset);
        proof {
            reveal(round_up);
        }
        let (head, tail) = buf.split_at_mut(take);
        self.file.read_at(offset, head)
    }

    fn write_at(&mut self, offset: usize, buf: &[u8]) -> (r: Result<usize, DevError>)
        ensures
            offset >= old(self).contents().len() ==> r == Ok::<usize, DevError>(0),
            old(self).reliable() ==> r == Ok::<usize, DevError>(
                available(
                    old(self).contents().len() as int,
                    offset as int,
                    buf@.len() as int,
                ) as usize,
            ),
    {
        if offset >= self.len {
            assert(self.contents() =~= splice(
                self.contents(),
                offset as int,
                buf@.subrange(0, 0),
            ));
            return Ok(0);
        }
        let take: usize = min_usize(buf.len(), self.len - offset);
        proof {
            reveal(round_up);
        }
        let r = self.file.write_at(offset, &buf[0..take]);
        assert(forall|n: int|
            0 <= n <= take ==> #[trigger] buf@.subrange(0, take as int).subrange(0, n)
                =~= buf@.subrange(0, n));
        r
    }

    fn sync(&mut self) -> (r: Result<(), DevError>) {
        self.file.sync()
    }
}

} // verus!
