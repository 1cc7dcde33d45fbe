//! FAT file systems: the disk below the FAT driver, and the names above it.
use vstd::prelude::*;
use vstd::string::*;
use crate::bytes::{copy_into, splice};
use crate::device::{
    addressable, available, fits, lemma_round_down, lemma_round_up, lemma_round_up_le, round_down,
    round_up, BlockScheme, DevError, Device, SECTOR,
};
use crate::error::FsError;
use crate::file::{signed, SeekFrom};
use crate::mount_backend::{backend_size, MountBackend};
use crate::text::{
    chars_of, lowered, push_str, same_ignoring_case, string_of, text_is,
};
use crate::vfs::{epoch, FileType, FsInfo, Metadata, PollStatus, Timespec};

verus! {

/// One step of the hash of a path.
pub open spec fn fnv_step(hash: u64, b: u8) -> u64 {
    (((hash ^ b as u64) as nat * 0x100_0000_01b3) % 0x1_0000_0000_0000_0000) as u64
}

/// The hash of some bytes.
pub open spec fn fnv(bytes: Seq<u8>) -> u64
    decreases bytes.len(),
{
    if bytes.len() == 0 {
        0xcbf2_9ce4_8422_2325
    } else {
        fnv_step(fnv(bytes.drop_last()), bytes.last())
    }
}

/// The hash of a path, its number in the file system.
pub fn fnv1a_path(path: &str) -> (hash: u64)
    ensures
        hash == fnv(path.spec_bytes()),
{
    let bytes: &[u8] = path.as_bytes();
    let mut hash: u64 = 0xcbf2_9ce4_8422_2325;
    assert(bytes@.take(0) =~= Seq::empty());
    for i in 0..bytes.len()
        invariant
            hash == fnv(bytes@.take(i as int)),
    {
        assert(bytes@.take(i + 1).drop_last() =~= bytes@.take(i as int));
        let mixed: u64 = hash ^ (bytes[i] as u64);
        hash = mixed.wrapping_mul(0x0000_0100_0000_01b3);
    }
    assert(bytes@.take(bytes@.len() as int) =~= bytes@);
    hash
}

/// Reads bytes sector by sector.
pub fn read_sector_bytes<B: BlockScheme>(block: &B, offset: usize, buf: &mut [u8]) -> (r: Result<
    usize,
    DevError,
>)
    requires
        addressable(offset as int, old(buf)@.len() as int),
    ensures
        final(buf)@.len() == old(buf)@.len(),
        r matches Ok(n) ==> {
            &&& n == old(buf)@.len()
            &&& n > 0 ==> offset + n <= block.bytes().len() && final(buf)@
                == block.bytes().subrange(offset as int, offset + n)
        },
        block.reliable() && offset + old(buf)@.len() <= block.bytes().len() ==> r is Ok,
        old(buf)@.len() == 0 ==> r is Ok,
{
    let len: usize = buf.len();
    let ghost all = block.bytes();
    let mut done: usize = 0;
    proof {
        lemma_round_up(offset + len);
        block.whole_sectors();
    }
    while done < len
        invariant
            done <= len,
            len == buf@.len(),
            len == old(buf)@.len(),
            offset + len <= usize::MAX,
            all == block.bytes(),
            all.len() % 512 == 0,
            done > 0 ==> offset + done <= all.len(),
            forall|i: int| 0 <= i < done ==> #[trigger] buf@[i] == all[offset + i],
        decreases len - done,
    {
        let abs: usize = offset + done;
        let block_id: usize = abs / SECTOR;
        let block_off: usize = abs % SECTOR;
        let room: usize = SECTOR - block_off;
        let take: usize = if len - done < room {
            len - done
        } else {
            room
        };
        let mut temp: [u8; 512] = [0u8; 512];
        match block.read_block(block_id, &mut temp) {
            Err(_) => {
                return Err(DevError);
            },
            Ok(_) => {},
        }
        let ghost held = buf@;
        let sector: &[u8] = temp.as_slice();
        assert(sector@ == all.subrange(block_id * 512, block_id * 512 + 512));
        copy_into(buf, done, &sector[block_off..block_off + take]);
        proof {
            assert forall|i: int| 0 <= i < done + take implies #[trigger] buf@[i] == all[offset
                + i] by {
                if i < done {
                    assert(buf@[i] == held[i]);
                } else {
                    assert(buf@[i] == sector@[block_off + (i - done)]);
                }
            }
        }
        done = done + take;
    }
    assert(len > 0 ==> buf@ =~= all.subrange(offset as int, offset + len));
    Ok(done)
}

/// The sector of a byte of a request lies in the request's sectors.
proof fn lemma_sector_inside(offset: int, len: int, done: int, block_id: int)
    requires
        0 <= offset,
        0 <= done < len,
        block_id == (offset + done) / 512,
    ensures
        round_down(offset) <= block_id * 512,
        block_id * 512 + 512 <= round_up(offset + len),
{
    crate::device::lemma_round_down(offset);
    crate::device::lemma_round_up(offset + len);
    let low = round_down(offset) / 512;
    let high = round_up(offset + len) / 512;
    assert(round_down(offset) == low * 512);
    assert(round_up(offset + len) == high * 512);
}

/// Writing one more sector of a request is writing more of the request.
proof fn lemma_sector_written(
    all: Seq<u8>,
    before: Seq<u8>,
    sector: Seq<u8>,
    buf: Seq<u8>,
    offset: int,
    done: int,
    block_id: int,
    block_off: int,
    take: int,
)
    requires
        0 <= offset,
        0 <= done,
        0 < take,
        done + take <= buf.len(),
        offset + done == block_id * 512 + block_off,
        0 <= block_off,
        block_off + take <= 512,
        sector.len() == 512,
        block_id * 512 + 512 <= all.len(),
        before == splice(all, offset, buf.take(done)),
        (block_off == 0 && take == 512) || sector == before.subrange(
            block_id * 512,
            block_id * 512 + 512,
        ),
    ensures
        splice(
            before,
            block_id * 512,
            splice(sector, block_off, buf.subrange(done, done + take)),
        ) == splice(all, offset, buf.take(done + take)),
{
    let start = block_id * 512;
    let temp = splice(sector, block_off, buf.subrange(done, done + take));
    let left = splice(before, start, temp);
    let right = splice(all, offset, buf.take(done + take));
    assert forall|i: int| 0 <= i < all.len() implies #[trigger] left[i] == right[i] by {
        if start <= i < start + 512 {
            let k = i - start;
            assert(left[i] == temp[k]);
            if block_off <= k < block_off + take {
                assert(temp[k] == buf[done + (k - block_off)]);
            } else {
                assert(temp[k] == sector[k]);
                assert(sector[k] == before[i]);
            }
        } else {
            assert(left[i] == before[i]);
        }
    }
    assert(left =~= right);
}

/// Writes bytes sector by sector; a sector that is not written whole is read first.
pub fn write_sector_bytes<B: BlockScheme>(block: &mut B, offset: usize, buf: &[u8]) -> (r: Result<
    usize,
    DevError,
>)
    requires
        addressable(offset as int, buf@.len() as int),
    ensures
        final(block).bytes().len() == old(block).bytes().len(),
        final(block).reliable() == old(block).reliable(),
        r matches Ok(n) ==> {
            &&& n == buf@.len()
            &&& n > 0 ==> offset + n <= old(block).bytes().len()
            &&& final(block).bytes() == splice(old(block).bytes(), offset as int, buf@)
        },
        r is Err ==> forall|i: int|
            0 <= i < old(block).bytes().len() && !(round_down(offset as int) <= i < round_up(
                offset + buf@.len(),
            )) ==> #[trigger] final(block).bytes()[i] == old(block).bytes()[i],
        r is Err && old(block).spares() ==> forall|i: int|
            0 <= i < old(block).bytes().len() && !(offset <= i < offset + buf@.len())
                ==> #[trigger] final(block).bytes()[i] == old(block).bytes()[i],
        old(block).reliable() && offset + buf@.len() <= old(block).bytes().len() ==> r is Ok,
        buf@.len() == 0 ==> r is Ok,
{
    let len: usize = buf.len();
    let ghost all = block.bytes();
    let ghost steady = block.reliable();
    let mut done: usize = 0;
    proof {
        lemma_round_up(offset + len);
        lemma_round_down(offset as int);
        block.whole_sectors();
        assert(all =~= splice(all, offset as int, buf@.take(0)));
    }
    while done < len
        invariant
            done <= len,
            len == buf@.len(),
            offset + len <= usize::MAX,
            block.bytes().len() == all.len(),
            block.reliable() == steady,
            block.spares() == old(block).spares(),
            all == old(block).bytes(),
            steady == old(block).reliable(),
            all.len() % 512 == 0,
            done > 0 ==> offset + done <= all.len(),
            block.bytes() == splice(all, offset as int, buf@.take(done as int)),
            round_down(offset as int) <= offset,
            round_up(offset + len) >= offset + len,
        decreases len - done,
    {
        let ghost before = block.bytes();
        let abs: usize = offset + done;
        let block_id: usize = abs / SECTOR;
        let block_off: usize = abs % SECTOR;
        let room: usize = SECTOR - block_off;
        let take: usize = if len - done < room {
            len - done
        } else {
            room
        };
        let mut temp: [u8; 512] = [0u8; 512];
        if block_off != 0 || take != SECTOR {
            match block.read_block(block_id, &mut temp) {
                Err(_) => {
                    return Err(DevError);
                },
                Ok(_) => {},
            }
        }
        let ghost sector = temp@;
        copy_into(&mut temp, block_off, &buf[done..done + take]);
        proof {
            lemma_sector_inside(offset as int, len as int, done as int, block_id as int);
        }
        match block.write_block(block_id, &temp) {
            Err(_) => {
                return Err(DevError);
            },
            Ok(_) => {},
        }
        proof {
            lemma_sector_written(
                all,
                before,
                sector,
                buf@,
                offset as int,
                done as int,
                block_id as int,
                block_off as int,
                take as int,
            );
        }
        done = done + take;
    }
    assert(buf@.take(len as int) =~= buf@);
    Ok(done)
}

/// The disk that the FAT driver reads and writes, with a position.
pub struct FatDisk<B: BlockScheme, F: Device> {
    pub backend: MountBackend<B, F>,
    pub pos: u64,
}

/// Whether every request that fits the backend succeeds.
pub open spec fn backend_reliable<B: BlockScheme, F: Device>(m: MountBackend<B, F>) -> bool {
    match m {
        MountBackend::Block(b) => b.reliable(),
        MountBackend::File(f, _) => f.reliable(),
    }
}

/// Whether every read that has something to read gives some of it.
pub open spec fn backend_gives<B: BlockScheme, F: Device>(m: MountBackend<B, F>) -> bool {
    match m {
        MountBackend::Block(b) => b.reliable(),
        MountBackend::File(f, _) => f.gives(),
    }
}

/// Whether a write that fails leaves every byte outside its own range as it was.
pub open spec fn backend_spares<B: BlockScheme, F: Device>(m: MountBackend<B, F>) -> bool {
    match m {
        MountBackend::Block(b) => b.spares(),
        MountBackend::File(f, _) => f.spares(),
    }
}

/// Whether reads of a byte of the backend give what is stored there.
pub open spec fn backend_sound<B: BlockScheme, F: Device>(m: MountBackend<B, F>, i: int) -> bool {
    match m {
        MountBackend::Block(_) => true,
        MountBackend::File(f, _) => f.sound_at(i),
    }
}

/// Where a seek leads.
pub open spec fn disk_seek(pos: u64, len: u64, to: SeekFrom) -> u64 {
    match to {
        SeekFrom::Start(n) => n,
        SeekFrom::Current(n) => (signed(pos) + n) as u64,
        SeekFrom::End(n) => (signed(len) + n) as u64,
    }
}

/// Whether a relative seek stays among 64-bit numbers.
pub open spec fn seek_fits(pos: u64, len: u64, to: SeekFrom) -> bool {
    match to {
        SeekFrom::Start(_) => true,
        SeekFrom::Current(n) => i64::MIN <= signed(pos) + n <= i64::MAX,
        SeekFrom::End(n) => i64::MIN <= signed(len) + n <= i64::MAX,
    }
}

impl<B: BlockScheme, F: Device> FatDisk<B, F> {
    pub fn new(backend: MountBackend<B, F>) -> (d: Self)
        ensures
            d.backend == backend,
            d.pos == 0,
    {
        FatDisk { backend, pos: 0 }
    }

    /// How many bytes the disk has.
    pub fn len(&self) -> (n: u64)
        requires
            self.backend.ready(),
        ensures
            n == self.backend.contents().len(),
    {
        backend_size(&self.backend)
    }

    /// Reads bytes: from a block device all of them or none, from a file as far as it goes.
    pub fn read_block_bytes(&mut self, offset: usize, buf: &mut [u8]) -> (r: Result<usize, DevError>)
        requires
            old(self).backend.ready(),
            addressable(offset as int, old(buf)@.len() as int),
        ensures
            final(self).backend.ready(),
            final(self).backend.contents() == old(self).backend.contents(),
            final(self).backend is Block <==> old(self).backend is Block,
            final(self).pos == old(self).pos,
            final(buf)@.len() == old(buf)@.len(),
            r matches Ok(n) ==> {
                &&& n <= old(buf)@.len()
                &&& n > 0 ==> offset + n <= old(self).backend.contents().len()
                &&& old(self).backend is Block ==> n == old(buf)@.len()
                &&& forall|i: int|
                    0 <= i < n && backend_sound(old(self).backend, offset + i) ==> #[trigger] final(
                        buf)@[i] == old(self).backend.contents()[offset + i]
            },
            backend_reliable(old(self).backend) && (old(self).backend is File || offset
                + old(buf)@.len() <= old(self).backend.contents().len()) ==> r == Ok::<
                usize,
                DevError,
            >(
                available(
                    old(self).backend.contents().len() as int,
                    offset as int,
                    old(buf)@.len() as int,
                ) as usize,
            ),
            old(self).backend is File && offset >= old(self).backend.contents().len() ==> r == Ok::<
                usize,
                DevError,
            >(0),
            old(self).backend is File && backend_gives(old(self).backend) && offset < old(
                self).backend.contents().len() && 0 < old(buf)@.len() ==> r is Ok && 0 < r->Ok_0,
    {
        let len: usize = buf.len();
        match &mut self.backend {
            MountBackend::Block(block) => {
                let r = read_sector_bytes(block, offset, buf);
                r
            },
            MountBackend::File(file, size) => {
                if offset >= *size {
                    return Ok(0);
                }
                let left: usize = *size - offset;
                let take: usize = if len < left {
                    len
                } else {
                    left
                };
                proof {
                    lemma_round_up(offset + len);
                    lemma_round_up_le(offset + take, round_up(offset + len));
                    lemma_round_up(file.contents().len() as int);
                    lemma_round_up_le(offset + take, round_up(file.contents().len() as int));
                    assert(fits(file.contents().len() as int, offset as int, take as int));
                }
                let (head, tail) = buf.split_at_mut(take);
                let r = file.read_at(offset, head);
                assert(buf@ =~= head@ + tail@);
                r
            },
        }
    }

    /// Writes bytes: to a block device all of them or none, to a file as far as it goes.
    pub fn write_block_bytes(&mut self, offset: usize, buf: &[u8]) -> (r: Result<usize, DevError>)
        requires
            old(self).backend.ready(),
            addressable(offset as int, buf@.len() as int),
        ensures
            final(self).backend.ready(),
            final(self).backend.contents().len() == old(self).backend.contents().len(),
            final(self).backend is Block <==> old(self).backend is Block,
            final(self).pos == old(self).pos,
            r matches Ok(n) ==> {
                &&& n <= buf@.len()
                &&& n > 0 ==> offset + n <= old(self).backend.contents().len()
                &&& old(self).backend is Block ==> n == buf@.len()
                &&& final(self).backend.contents() == splice(
                    old(self).backend.contents(),
                    offset as int,
                    buf@.take(n as int),
                )
            },
            r is Err ==> forall|i: int|
                0 <= i < old(self).backend.contents().len() && !(round_down(offset as int) <= i
                    < round_up(offset + buf@.len())) ==> #[trigger] final(
                    self).backend.contents()[i] == old(self).backend.contents()[i],
            r is Err && backend_spares(old(self).backend) ==> forall|i: int|
                0 <= i < old(self).backend.contents().len() && !(offset <= i < offset + buf@.len())
                    ==> #[trigger] final(self).backend.contents()[i] == old(
                    self).backend.contents()[i],
            backend_reliable(old(self).backend) && (old(self).backend is File || offset + buf@.len()
                <= old(self).backend.contents().len()) ==> r == Ok::<usize, DevError>(
                available(
                    old(self).backend.contents().len() as int,
                    offset as int,
                    buf@.len() as int,
                ) as usize,
            ),
            old(self).backend is File && offset >= old(self).backend.contents().len() ==> r == Ok::<
                usize,
                DevError,
            >(0),
    {
        let len: usize = buf.len();
        assert(buf@.take(len as int) =~= buf@);
        let ghost all = self.backend.contents();
        match &mut self.backend {
            MountBackend::Block(block) => {
                let r = write_sector_bytes(block, offset, buf);
                r
            },
            MountBackend::File(file, size) => {
                if offset >= *size {
                    assert(all =~= splice(all, offset as int, buf@.take(0)));
                    return Ok(0);
                }
                let left: usize = *size - offset;
                let take: usize = if len < left {
                    len
                } else {
                    left
                };
                let part: &[u8] = &buf[0..take];
                proof {
                    lemma_round_up(offset + len);
                    lemma_round_up_le(offset + take, round_up(offset + len));
                    lemma_round_up(file.contents().len() as int);
                    lemma_round_up_le(offset + take, round_up(file.contents().len() as int));
                    assert(fits(file.contents().len() as int, offset as int, take as int));
                    assert forall|n: int| 0 <= n <= take implies #[trigger] part@.subrange(0, n)
                        =~= buf@.take(n) by {}
                }
                let r = file.write_at(offset, part);
                r
            },
        }
    }

    /// Reads from the position on and moves it behind what was read.
    pub fn read(&mut self, buf: &mut [u8]) -> (r: Result<usize, DevError>)
        requires
            old(self).backend.ready(),
            old(self).pos <= usize::MAX,
            addressable(old(self).pos as int, old(buf)@.len() as int),
        ensures
            final(self).backend.ready(),
            final(self).backend.contents() == old(self).backend.contents(),
            final(buf)@.len() == old(buf)@.len(),
            final(self).pos == old(self).pos + (match r {
                Ok(n) => n as int,
                Err(_) => 0,
            }),
            r matches Ok(n) ==> {
                &&& n <= old(buf)@.len()
                &&& n > 0 ==> old(self).pos + n <= old(self).backend.contents().len()
                &&& old(self).backend is Block ==> n == old(buf)@.len()
                &&& forall|i: int|
                    0 <= i < n && backend_sound(old(self).backend, old(self).pos + i)
                        ==> #[trigger] final(buf)@[i] == old(self).backend.contents()[old(self).pos
                        + i]
            },
            backend_reliable(old(self).backend) && (old(self).backend is File || old(self).pos
                + old(buf)@.len() <= old(self).backend.contents().len()) ==> r == Ok::<
                usize,
                DevError,
            >(
                available(
                    old(self).backend.contents().len() as int,
                    old(self).pos as int,
                    old(buf)@.len() as int,
                ) as usize,
            ),
            old(self).backend is File && old(self).pos >= old(self).backend.contents().len() ==> r
                == Ok::<usize, DevError>(0),
            old(self).backend is File && backend_gives(old(self).backend) && old(self).pos < old(
                self).backend.contents().len() && 0 < old(buf)@.len() ==> r is Ok && 0 < r->Ok_0,
    {
        proof {
            lemma_round_up(self.pos + buf@.len());
        }
        match self.read_block_bytes(self.pos as usize, buf) {
            Ok(n) => {
                self.pos = self.pos + n as u64;
                Ok(n)
            },
            Err(e) => Err(e),
        }
    }

    /// Writes from the position on and moves it behind what was written.
    pub fn write(&mut self, buf: &[u8]) -> (r: Result<usize, DevError>)
        requires
            old(self).backend.ready(),
            old(self).pos <= usize::MAX,
            addressable(old(self).pos as int, buf@.len() as int),
        ensures
            final(self).backend.ready(),
            final(self).backend.contents().len() == old(self).backend.contents().len(),
            final(self).pos == old(self).pos + (match r {
                Ok(n) => n as int,
                Err(_) => 0,
            }),
            r matches Ok(n) ==> {
                &&& n <= buf@.len()
                &&& old(self).backend is Block ==> n == buf@.len()
                &&& final(self).backend.contents() == splice(
                    old(self).backend.contents(),
                    old(self).pos as int,
                    buf@.take(n as int),
                )
            },
            r is Err ==> forall|i: int|
                0 <= i < old(self).backend.contents().len() && !(round_down(old(self).pos as int)
                    <= i < round_up(old(self).pos + buf@.len())) ==> #[trigger] final(
                    self).backend.contents()[i] == old(self).backend.contents()[i],
            r is Err && backend_spares(old(self).backend) ==> forall|i: int|
                0 <= i < old(self).backend.contents().len() && !(old(self).pos <= i < old(self).pos
                    + buf@.len()) ==> #[trigger] final(self).backend.contents()[i] == old(
                    self).backend.contents()[i],
            backend_reliable(old(self).backend) && (old(self).backend is File || old(self).pos
                + buf@.len() <= old(self).backend.contents().len()) ==> r == Ok::<usize, DevError>(
                available(
                    old(self).backend.contents().len() as int,
                    old(self).pos as int,
                    buf@.len() as int,
                ) as usize,
            ),
            old(self).backend is File && old(self).pos >= old(self).backend.contents().len() ==> r
                == Ok::<usize, DevError>(0),
    {
        proof {
            lemma_round_up(self.pos + buf@.len());
        }
        match self.write_block_bytes(self.pos as usize, buf) {
            Ok(n) => {
                self.pos = self.pos + n as u64;
                Ok(n)
            },
            Err(e) => Err(e),
        }
    }

    /// Moves the position.
    pub fn seek(&mut self, to: SeekFrom) -> (n: u64)
        requires
            old(self).backend.ready(),
            seek_fits(old(self).pos, old(self).backend.contents().len() as u64, to),
        ensures
            n == disk_seek(old(self).pos, old(self).backend.contents().len() as u64, to),
            final(self).pos == n,
            final(self).backend == old(self).backend,
    {
        let size: u64 = self.len();
        #[verifier::truncate]
        let pos: i64 = self.pos as i64;
        #[verifier::truncate]
        let len: i64 = size as i64;
        #[verifier::truncate]
        let n: u64 = match to {
            SeekFrom::Start(n) => n,
            SeekFrom::Current(d) => (pos + d) as u64,
            SeekFrom::End(d) => (len + d) as u64,
        };
        self.pos = n;
        n
    }
}

/// The number of the first FAT mount.
pub const FIRST_FAT_DEV: u64 = 0xFA70_0000;

/// A mounted FAT file system.
#[derive(Clone, Copy, PartialEq, Eq, Structural, Debug)]
pub struct FatMountFs {
    pub dev: u64,
}

/// What the FAT driver knows of a volume's size.
#[derive(Clone, Copy, PartialEq, Eq, Structural, Debug)]
pub struct FatStats {
    pub cluster_size: u32,
    pub total_clusters: u32,
    pub free_clusters: u32,
}

impl FatMountFs {
    /// A mount with a number of its own. `counter` holds the next one.
    pub fn open(counter: &mut u64) -> (f: Self)
        requires
            *old(counter) < u64::MAX,
        ensures
            f.dev == *old(counter),
            *final(counter) == *old(counter) + 1,
    {
        let dev: u64 = *counter;
        *counter = dev + 1;
        FatMountFs { dev }
    }

    pub fn root_inode(&self) -> (n: FatMountINode)
        ensures
            n.path@ == Seq::<char>::empty(),
            n.is_dir,
    {
        let none: Vec<char> = Vec::new();
        let path = string_of(none.as_slice());
        assert(path@ =~= Seq::empty());
        FatMountINode { path, is_dir: true }
    }

    /// The size of the volume, where the driver could tell it.
    pub fn info(&self, stats: Option<FatStats>) -> (i: FsInfo)
        ensures
            i == (match stats {
                Some(s) => volume_info(s),
                None => FsInfo {
                    bsize: 512,
                    frsize: 512,
                    blocks: 0,
                    bfree: 0,
                    bavail: 0,
                    files: 0,
                    ffree: 0,
                    namemax: 255,
                },
            }),
    {
        match stats {
            Some(s) => FsInfo {
                bsize: s.cluster_size as usize,
                frsize: s.cluster_size as usize,
                blocks: s.total_clusters as usize,
                bfree: s.free_clusters as usize,
                bavail: s.free_clusters as usize,
                files: 0,
                ffree: 0,
                namemax: 255,
            },
            None => FsInfo {
                bsize: 512,
                frsize: 512,
                blocks: 0,
                bfree: 0,
                bavail: 0,
                files: 0,
                ffree: 0,
                namemax: 255,
            },
        }
    }
}

/// A node of a FAT file system: its path below the root, empty for the root itself.
pub struct FatMountINode {
    pub path: String,
    pub is_dir: bool,
}

/// The path of a child.
pub open spec fn joined(path: Seq<char>, name: Seq<char>) -> Seq<char> {
    if path.len() == 0 {
        name
    } else {
        path + "/"@ + name
    }
}

/// What creating an entry of some type gives.
pub open spec fn created(
    path: Seq<char>,
    is_dir: bool,
    name: Seq<char>,
    type_: FileType,
    r: Result<FatMountINode, FsError>,
) -> bool {
    match r {
        Ok(n) => is_dir && (type_ == FileType::File || type_ == FileType::Dir) && n.path@ == joined(
            path,
            name,
        ) && n.is_dir == (type_ == FileType::Dir),
        Err(e) => if !is_dir {
            e == FsError::NotDir
        } else {
            e == FsError::NotSupported && type_ != FileType::File && type_ != FileType::Dir
        },
    }
}

/// An entry of a directory as the driver lists it, or a failure to read it.
pub enum FatEntry {
    Entry { name: String, is_dir: bool },
    Unreadable,
}

/// An entry of a directory, mathematically.
#[verifier::ext_equal]
pub enum Listed {
    Entry { name: Seq<char>, is_dir: bool },
    Unreadable,
}

impl View for FatEntry {
    type V = Listed;

    open spec fn view(&self) -> Listed {
        match self {
            FatEntry::Entry { name, is_dir } => Listed::Entry { name: name@, is_dir: *is_dir },
            FatEntry::Unreadable => Listed::Unreadable,
        }
    }
}

/// Entries by their contents.
pub open spec fn listing(v: Seq<FatEntry>) -> Seq<Listed> {
    Seq::new(v.len(), |i: int| v[i]@)
}

/// The entry from `i` on that a name means, whatever the case of its letters; an unreadable entry
/// before it is a failure.
pub open spec fn entry_named(s: Seq<Listed>, name: Seq<char>, i: int) -> Result<
    (Seq<char>, bool),
    FsError,
>
    decreases s.len() - i,
{
    if i < 0 || i >= s.len() {
        Err(FsError::EntryNotFound)
    } else {
        match s[i] {
            Listed::Unreadable => Err(FsError::DeviceError),
            Listed::Entry { name: n, is_dir } => if lowered(n) == lowered(name) {
                Ok((n, is_dir))
            } else {
                entry_named(s, name, i + 1)
            },
        }
    }
}

/// The names of entries that have one; nothing where one is unreadable.
pub open spec fn names_listed(s: Seq<Listed>) -> Option<Seq<Seq<char>>>
    decreases s.len(),
{
    if s.len() == 0 {
        Some(Seq::empty())
    } else {
        match (names_listed(s.drop_last()), s.last()) {
            (Some(h), Listed::Entry { name, .. }) => if name.len() > 0 {
                Some(h.push(name))
            } else {
                Some(h)
            },
            _ => None,
        }
    }
}

/// What resizing a file takes.
#[derive(Clone, Copy, PartialEq, Eq, Structural, Debug)]
pub enum FatResize {
    /// Write a zero at this offset, the last byte of the new size.
    Extend(usize),
    /// Cut the file off here.
    Truncate(usize),
    Nothing,
}

/// What the FAT driver failed at.
#[derive(Clone, Copy, PartialEq, Eq, Structural, Debug)]
pub enum FatFailure {
    /// Opening the file or the directory.
    Open,
    /// Moving in a file, reading or writing it, or listing a directory.
    Transfer,
    /// Making an entry.
    Create,
    /// Removing a directory that has entries.
    RemoveNotEmpty,
    /// Removing an entry that is not there.
    RemoveNotFound,
    /// Removing an entry for another reason.
    Remove,
}

impl FatMountINode {
    pub fn child_path(&self, name: &str) -> (s: String)
        ensures
            s@ == joined(self.path@, name@),
    {
        let cs = chars_of(self.path.as_str());
        if cs.len() == 0 {
            return name.to_owned();
        }
        let mut v: Vec<char> = Vec::new();
        push_str(&mut v, self.path.as_str());
        push_str(&mut v, "/");
        push_str(&mut v, name);
        assert(v@ =~= joined(self.path@, name@));
        string_of(v.as_slice())
    }

    /// Whether the node's bytes may be read or written: a directory has none.
    pub fn check_file(&self) -> (r: Result<(), FsError>)
        ensures
            r == (if self.is_dir {
                Err::<(), FsError>(FsError::IsDir)
            } else {
                Ok(())
            }),
    {
        if self.is_dir {
            return Err(FsError::IsDir);
        }
        Ok(())
    }

    /// Whether entries may be made or removed: only a directory has them.
    pub fn check_dir(&self) -> (r: Result<(), FsError>)
        ensures
            r == (if self.is_dir {
                Ok::<(), FsError>(())
            } else {
                Err(FsError::NotDir)
            }),
    {
        if !self.is_dir {
            return Err(FsError::NotDir);
        }
        Ok(())
    }

    pub fn poll(&self) -> (s: PollStatus)
        ensures
            s == (PollStatus { read: true, write: !self.is_dir, error: false }),
    {
        PollStatus { read: true, write: !self.is_dir, error: false }
    }

    /// Metadata of the node on the mount of number `dev`; `file_size` is the size of a file.
    pub fn metadata(&self, dev: u64, file_size: usize) -> (m: Metadata)
        requires
            file_size + 511 <= usize::MAX,
        ensures
            m == fat_metadata(self.path@, self.is_dir, dev, file_size),
    {
        let size: usize = if self.is_dir {
            0
        } else {
            file_size
        };
        let zero = Timespec { sec: 0, nsec: 0 };
        let hash: u64 = fnv1a_path(self.path.as_str());
        #[verifier::truncate]
        let inode: usize = hash as usize;
        #[verifier::truncate]
        let dev_number: usize = dev as usize;
        Metadata {
            dev: dev_number,
            inode,
            size,
            blk_size: 512,
            blocks: (size + 511) / 512,
            atime: zero,
            mtime: zero,
            ctime: zero,
            type_: if self.is_dir {
                FileType::Dir
            } else {
                FileType::File
            },
            mode: if self.is_dir {
                0o755
            } else {
                0o644
            },
            nlinks: 1,
            uid: 0,
            gid: 0,
            rdev: 0,
        }
    }

    /// The node that a name means. Letters match in either case, and the path is spelled as the
    /// directory has it.
    pub fn find(&self, name: &str, entries: &[FatEntry]) -> (r: Result<FatMountINode, FsError>)
        ensures
            match r {
                Ok(n) => found(self.path@, self.is_dir, name@, listing(entries@)) == Ok::<
                    (Seq<char>, bool),
                    FsError,
                >((n.path@, n.is_dir)),
                Err(e) => found(self.path@, self.is_dir, name@, listing(entries@)) == Err::<
                    (Seq<char>, bool),
                    FsError,
                >(e),
            },
    {
        let cs = chars_of(name);
        if text_is(cs.as_slice(), ".") {
            return Ok(FatMountINode { path: self.path.clone(), is_dir: self.is_dir });
        }
        if text_is(cs.as_slice(), "..") {
            return Err(FsError::EntryNotFound);
        }
        let ghost s = listing(entries@);
        let mut i: usize = 0;
        while i < entries.len()
            invariant
                i <= entries@.len(),
                s == listing(entries@),
                name@ != "."@,
                name@ != ".."@,
                entry_named(s, name@, 0) == entry_named(s, name@, i as int),
            decreases entries@.len() - i,
        {
            assert(s[i as int] == entries@[i as int]@);
            match &entries[i] {
                FatEntry::Unreadable => {
                    return Err(FsError::DeviceError);
                },
                FatEntry::Entry { name: n, is_dir } => {
                    let w = chars_of(n.as_str());
                    if same_ignoring_case(w.as_slice(), name) {
                        return Ok(
                            FatMountINode { path: self.child_path(n.as_str()), is_dir: *is_dir },
                        );
                    }
                },
            }
            i = i + 1;
        }
        Err(FsError::EntryNotFound)
    }

    /// The name of an entry, the two for the directory itself and its parent first.
    pub fn get_entry(&self, id: usize, entries: &[FatEntry]) -> (r: Result<String, FsError>)
        ensures
            match r {
                Ok(s) => entry_name(id as int, listing(entries@)) == Ok::<Seq<char>, FsError>(s@),
                Err(e) => entry_name(id as int, listing(entries@)) == Err::<Seq<char>, FsError>(e),
            },
    {
        if id == 0 {
            return Ok((".").to_owned());
        }
        if id == 1 {
            return Ok(("..").to_owned());
        }
        let ghost s = listing(entries@);
        let mut names: Vec<String> = Vec::new();
        let ghost mut held: Seq<Seq<char>> = Seq::empty();
        assert(s.take(0) =~= Seq::empty());
        for i in 0..entries.len()
            invariant
                s == listing(entries@),
                id >= 2,
                names_listed(s.take(i as int)) == Some(held),
                held.len() == names@.len(),
                forall|k: int| 0 <= k < held.len() ==> #[trigger] held[k] == names@[k]@,
        {
            assert(s.take(i + 1).drop_last() =~= s.take(i as int));
            assert(s[i as int] == entries@[i as int]@);
            match &entries[i] {
                FatEntry::Unreadable => {
                    proof {
                        lemma_unreadable(s, i as int, s.len() as int);
                        assert(s.take(s.len() as int) =~= s);
                    }
                    return Err(FsError::DeviceError);
                },
                FatEntry::Entry { name, is_dir: _ } => {
                    let n = chars_of(name.as_str());
                    if n.len() > 0 {
                        names.push(name.clone());
                        proof {
                            held = held.push(name@);
                        }
                    }
                },
            }
        }
        assert(s.take(s.len() as int) =~= s);
        if id - 2 < names.len() {
            Ok(names[id - 2].clone())
        } else {
            Err(FsError::EntryNotFound)
        }
    }

    /// Whether an entry of a type can be made here, and the node it will be.
    pub fn create(&self, name: &str, type_: FileType) -> (r: Result<FatMountINode, FsError>)
        ensures
            created(self.path@, self.is_dir, name@, type_, r),
    {
        if !self.is_dir {
            return Err(FsError::NotDir);
        }
        match type_ {
            FileType::File => Ok(FatMountINode { path: self.child_path(name), is_dir: false }),
            FileType::Dir => Ok(FatMountINode { path: self.child_path(name), is_dir: true }),
            _ => Err(FsError::NotSupported),
        }
    }
}

proof fn lemma_unreadable(s: Seq<Listed>, k: int, n: int)
    requires
        0 <= k < n <= s.len(),
        s[k] is Unreadable,
    ensures
        names_listed(s.take(n)) is None,
    decreases n,
{
    assert(s.take(n).drop_last() =~= s.take(n - 1));
    if k < n - 1 {
        lemma_unreadable(s, k, n - 1);
    }
}

/// The node that a name means.
pub open spec fn found(path: Seq<char>, is_dir: bool, name: Seq<char>, s: Seq<Listed>) -> Result<
    (Seq<char>, bool),
    FsError,
> {
    if name == "."@ {
        Ok((path, is_dir))
    } else if name == ".."@ {
        Err(FsError::EntryNotFound)
    } else {
        match entry_named(s, name, 0) {
            Ok((n, d)) => Ok((joined(path, n), d)),
            Err(e) => Err(e),
        }
    }
}

/// The name of an entry.
pub open spec fn entry_name(id: int, s: Seq<Listed>) -> Result<Seq<char>, FsError> {
    if id == 0 {
        Ok("."@)
    } else if id == 1 {
        Ok(".."@)
    } else {
        match names_listed(s) {
            None => Err(FsError::DeviceError),
            Some(n) => if id - 2 < n.len() {
                Ok(n[id - 2])
            } else {
                Err(FsError::EntryNotFound)
            },
        }
    }
}

/// Metadata of a node.
pub open spec fn fat_metadata(path: Seq<char>, is_dir: bool, dev: u64, file_size: usize) -> Metadata {
    let size = if is_dir {
        0usize
    } else {
        file_size
    };
    Metadata {
        dev: dev as usize,
        inode: fnv(vstd::utf8::encode_utf8(path)) as usize,
        size,
        blk_size: 512,
        blocks: ((size + 511) / 512) as usize,
        atime: epoch(),
        mtime: epoch(),
        ctime: epoch(),
        type_: if is_dir {
            FileType::Dir
        } else {
            FileType::File
        },
        mode: if is_dir {
            0o755
        } else {
            0o644
        },
        nlinks: 1,
        uid: 0,
        gid: 0,
        rdev: 0,
    }
}

/// What resizing a file of `cur` bytes takes.
pub fn resize(cur: usize, len: usize) -> (r: FatResize)
    ensures
        r == resized(cur, len),
{
    if len > cur {
        FatResize::Extend(len - 1)
    } else if len < cur {
        FatResize::Truncate(len)
    } else {
        FatResize::Nothing
    }
}

/// What a failure of the FAT driver answers.
pub fn fat_error(f: FatFailure) -> (e: FsError)
    ensures
        e == (match f {
            FatFailure::Open => FsError::EntryNotFound,
            FatFailure::Transfer => FsError::DeviceError,
            FatFailure::Create => FsError::NoDeviceSpace,
            FatFailure::RemoveNotEmpty => FsError::DirNotEmpty,
            FatFailure::RemoveNotFound => FsError::EntryNotFound,
            FatFailure::Remove => FsError::DeviceError,
        }),
{
    match f {
        FatFailure::Open => FsError::EntryNotFound,
        FatFailure::Transfer => FsError::DeviceError,
        FatFailure::Create => FsError::NoDeviceSpace,
        FatFailure::RemoveNotEmpty => FsError::DirNotEmpty,
        FatFailure::RemoveNotFound => FsError::EntryNotFound,
        FatFailure::Remove => FsError::DeviceError,
    }
}

/// Whether a name is found does not depend on the case of its letters.
pub proof fn law_find_ignores_case(s: Seq<Listed>, a: Seq<char>, b: Seq<char>, i: int)
    requires
        lowered(a) == lowered(b),
        0 <= i <= s.len(),
    ensures
        entry_named(s, a, i) == entry_named(s, b, i),
    decreases s.len() - i,
{
    if i < s.len() {
        law_find_ignores_case(s, a, b, i + 1);
    }
}

/// What changing the size of a file asks for.
pub open spec fn resized(cur: usize, len: usize) -> FatResize {
    if len > cur {
        FatResize::Extend((len - 1) as usize)
    } else if len < cur {
        FatResize::Truncate(len)
    } else {
        FatResize::Nothing
    }
}

/// The sizes of a volume, from what it says of its clusters.
pub open spec fn volume_info(s: FatStats) -> FsInfo {
    FsInfo {
        bsize: s.cluster_size as usize,
        frsize: s.cluster_size as usize,
        blocks: s.total_clusters as usize,
        bfree: s.free_clusters as usize,
        bavail: s.free_clusters as usize,
        files: 0,
        ffree: 0,
        namemax: 255,
    }
}

/// A volume counts its clusters: as many as there are, of the size that they have, and as many free.
pub proof fn law_clusters_counted(s: FatStats)
    ensures
        volume_info(s).bsize == s.cluster_size,
        volume_info(s).frsize == s.cluster_size,
        volume_info(s).blocks == s.total_clusters,
        volume_info(s).bfree == s.free_clusters,
        volume_info(s).bavail == s.free_clusters,
        volume_info(s).namemax == 255,
{
}

/// A file is made longer by writing its new last byte, cut where it is to be shorter, and left where it
/// has the size.
pub proof fn law_resize(cur: usize, len: usize)
    ensures
        cur < len ==> (resized(cur, len) matches FatResize::Extend(last) && last + 1 == len),
        len < cur ==> (resized(cur, len) matches FatResize::Truncate(at) && at == len),
        len == cur ==> resized(cur, len) is Nothing,
{
}

/// One more byte of a path goes into the number made of it: it is mixed in and multiplied, and what does
/// not fit is dropped.
pub proof fn law_path_number(bytes: Seq<u8>, b: u8)
    ensures
        fnv(bytes.push(b)) == ((fnv(bytes) ^ b as u64) * 0x100_0000_01b3) % 0x1_0000_0000_0000_0000,
        fnv(Seq::empty()) == 0xcbf2_9ce4_8422_2325,
{
    assert(bytes.push(b).drop_last() =~= bytes);
}

/// An entry is found as the first of its name, in either case of letters, under the directory's path; an
/// entry before it that cannot be read fails the search.
pub proof fn law_entry_found(s: Seq<Listed>, name: Seq<char>, i: int, k: int)
    requires
        0 <= i <= k < s.len(),
        forall|j: int|
            i <= j < k ==> ((#[trigger] s[j]) matches Listed::Entry { name: n, .. } && lowered(n)
                != lowered(name)),
    ensures
        s[k] matches Listed::Entry { name: n, is_dir } ==> (lowered(n) == lowered(name) ==> entry_named(
            s,
            name,
            i,
        ) == Ok::<(Seq<char>, bool), FsError>((n, is_dir))),
        s[k] is Unreadable ==> entry_named(s, name, i) == Err::<(Seq<char>, bool), FsError>(
            FsError::DeviceError,
        ),
    decreases k - i,
{
    if i < k {
        law_entry_found(s, name, i + 1, k);
    }
}

/// A name that no entry has is not found.
pub proof fn law_entry_missing(s: Seq<Listed>, name: Seq<char>, i: int)
    requires
        0 <= i <= s.len(),
        forall|j: int|
            i <= j < s.len() ==> ((#[trigger] s[j]) matches Listed::Entry { name: n, .. } && lowered(n)
                != lowered(name)),
    ensures
        entry_named(s, name, i) == Err::<(Seq<char>, bool), FsError>(FsError::EntryNotFound),
    decreases s.len() - i,
{
    if i < s.len() {
        law_entry_missing(s, name, i + 1);
    }
}

/// A directory finds itself as `.`, never what is above it, and an entry under its own path and name.
pub proof fn law_found_under_path(path: Seq<char>, is_dir: bool, name: Seq<char>, s: Seq<Listed>)
    ensures
        name == "."@ ==> found(path, is_dir, name, s) == Ok::<(Seq<char>, bool), FsError>((path, is_dir)),
        name == ".."@ ==> found(path, is_dir, name, s) == Err::<(Seq<char>, bool), FsError>(
            FsError::EntryNotFound,
        ),
        name != "."@ && name != ".."@ ==> (entry_named(s, name, 0) matches Ok(e) ==> (found(
            path,
            is_dir,
            name,
            s,
        ) matches Ok(f) && f.1 == e.1 && f.0 == (if path.len() == 0 {
            e.0
        } else {
            path.push('/') + e.0
        }))),
{
    reveal_strlit(".");
    reveal_strlit("..");
    reveal_strlit("/");
    assert("."@.len() == 1 && ".."@.len() == 2);
    match entry_named(s, name, 0) {
        Ok(e) => {
            assert("/"@ =~= seq!['/']);
            assert(path + "/"@ + e.0 =~= path.push('/') + e.0);
        },
        Err(_) => {},
    }
}

/// The names of a directory are those of its entries that have one, in order, behind the two that every
/// directory has; one entry that cannot be read spoils the list.
pub proof fn law_names_in_order(s: Seq<Listed>, e: Listed)
    ensures
        e is Unreadable ==> names_listed(s.push(e)) is None,
        names_listed(s) is None ==> names_listed(s.push(e)) is None,
        e matches Listed::Entry { name, .. } ==> (names_listed(s) matches Some(h) ==> names_listed(
            s.push(e),
        ) == Some(if name.len() > 0 {
            h.push(name)
        } else {
            h
        })),
        names_listed(Seq::empty()) == Some(Seq::<Seq<char>>::empty()),
        entry_name(0, s) == Ok::<Seq<char>, FsError>("."@),
        entry_name(1, s) == Ok::<Seq<char>, FsError>(".."@),
        names_listed(s) matches Some(h) ==> (h.len() > 0 ==> entry_name(2, s) == Ok::<Seq<char>, FsError>(
            h[0],
        )),
        names_listed(s) matches Some(h) ==> entry_name(h.len() as int + 2, s) == Err::<Seq<char>, FsError>(
            FsError::EntryNotFound,
        ),
{
    assert(s.push(e).drop_last() =~= s);
}

/// What is told of an entry: a directory has no size, a file its own, in blocks of 512 bytes.
pub proof fn law_entry_attributes(path: Seq<char>, is_dir: bool, dev: u64, file_size: usize)
    requires
        file_size + 511 <= usize::MAX,
    ensures
        ({
            let m = fat_metadata(path, is_dir, dev, file_size);
            &&& is_dir ==> m.type_ == FileType::Dir && m.mode == 0o755 && m.size == 0 && m.blocks == 0
            &&& !is_dir ==> m.type_ == FileType::File && m.mode == 0o644 && m.size == file_size
                && 512 * m.blocks >= file_size && 512 * m.blocks < file_size + 512
            &&& m.blk_size == 512 && m.nlinks == 1 && m.uid == 0 && m.gid == 0
        }),
{
}

/// Seeking moves from the start, the position or the end by what is given.
pub proof fn law_disk_seeks(pos: u64, len: u64, n: u64, d: i64)
    requires
        pos <= i64::MAX,
        len <= i64::MAX,
        0 <= pos + d <= i64::MAX,
        0 <= len + d <= i64::MAX,
    ensures
        disk_seek(pos, len, SeekFrom::Start(n)) == n,
        disk_seek(pos, len, SeekFrom::Current(d)) == pos + d,
        disk_seek(pos, len, SeekFrom::End(d)) == len + d,
        seek_fits(pos, len, SeekFrom::Current(d)) && seek_fits(pos, len, SeekFrom::End(d)),
{
    crate::file::lemma_signed(pos);
    crate::file::lemma_signed(len);
}

/// Files and directories are created, in directories only: what is created lies under the directory
/// by its name, and is a directory exactly where one was asked for.
pub proof fn law_entry_created(
    path: Seq<char>,
    is_dir: bool,
    name: Seq<char>,
    type_: FileType,
    r: Result<FatMountINode, FsError>,
)
    requires
        created(path, is_dir, name, type_, r),
    ensures
        r is Ok <==> is_dir && (type_ is File || type_ is Dir),
        r == Err::<FatMountINode, FsError>(FsError::NotDir) <==> !is_dir,
        is_dir && !(type_ is File) && !(type_ is Dir) ==> r == Err::<FatMountINode, FsError>(
            FsError::NotSupported,
        ),
        r matches Ok(n) ==> {
            &&& n.is_dir <==> type_ is Dir
            &&& n.path@.len() == (if path.len() == 0 {
                name.len()
            } else {
                path.len() + 1 + name.len()
            })
            &&& n.path@.skip(n.path@.len() - name.len()) == name
            &&& n.path@.take(path.len() as int) == path
            &&& path.len() > 0 ==> n.path@[path.len() as int] == '/'
        },
{
    reveal_strlit("/");
    if let Ok(n) = r {
        assert(n.path@.skip(n.path@.len() - name.len()) =~= name);
        assert(n.path@.take(path.len() as int) =~= path);
    }
}

} // verus!
