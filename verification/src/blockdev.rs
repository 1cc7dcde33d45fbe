//! Block device nodes, partitions of block devices, and partition tables.
use vstd::prelude::*;
use vstd::string::*;
use crate::block_mount::BlockByteDevice;
use crate::bytes::{get_u16, get_u32, get_u64, splice, u16_at, u32_at, u64_at};
use crate::device::{fits, in_device, round_down, round_up, BlockScheme, DeviceError};
use crate::error::{convert_error, fs_of_device, FsError};
use crate::vfs::{epoch, FileType, Metadata, PollStatus, Timespec};

verus! {

/// The major number of block nodes.
pub const BLOCK_MAJOR: usize = 3;

/// Total size in bytes.
pub const BLKGETSIZE64: u32 = 0x8008_1272;

/// Size in sectors.
pub const BLKGETSIZE: u32 = 0x0000_1260;

/// Flush the device's buffers.
pub const BLKFLSBUF: u32 = 0x0000_1261;

/// Read the partition table again.
pub const BLKRRPART: u32 = 0x0000_125f;

/// A partition of a block device: a run of its sectors.
pub struct PartitionBlock<B: BlockScheme> {
    pub parent: B,
    pub start_block: usize,
    pub block_count: usize,
}

impl<B: BlockScheme> PartitionBlock<B> {
    pub fn new(parent: B, start_block: usize, block_count: usize) -> (p: Self)
        ensures
            p.parent == parent,
            p.start_block == start_block,
            p.block_count == block_count,
    {
        PartitionBlock { parent, start_block, block_count }
    }

    /// Whether the partition lies on its device.
    pub open spec fn inside(&self) -> bool {
        &&& self.start_block + self.block_count <= usize::MAX
        &&& (self.start_block + self.block_count) * 512 <= self.parent.bytes().len()
    }
}

impl<B: BlockScheme> BlockScheme for PartitionBlock<B> {
    open spec fn bytes(&self) -> Seq<u8> {
        Seq::new(
            (self.block_count * 512) as nat,
            |i: int|
                if self.start_block * 512 + i < self.parent.bytes().len() {
                    self.parent.bytes()[self.start_block * 512 + i]
                } else {
                    0u8
                },
        )
    }

    open spec fn reliable(&self) -> bool {
        self.parent.reliable() && self.inside()
    }

    open spec fn spares(&self) -> bool {
        self.parent.spares()
    }

    proof fn whole_sectors(&self) {
    }

    fn block_count(&self) -> (n: usize) {
        self.block_count
    }

    fn read_block(&self, block_id: usize, buf: &mut [u8]) -> (r: Result<(), DeviceError>)
        ensures
            block_id + old(buf)@.len() / 512 > self.block_count ==> r == Err::<(), DeviceError>(
                DeviceError::InvalidParam,
            ),
    {
        let nsectors: usize = buf.len() / 512;
        if block_id > self.block_count || nsectors > self.block_count - block_id {
            return Err(DeviceError::InvalidParam);
        }
        if self.start_block > usize::MAX - block_id {
            return Err(DeviceError::InvalidParam);
        }
        let r = self.parent.read_block(self.start_block + block_id, buf);
        proof {
            if r is Ok {
                assert(buf@ =~= self.bytes().subrange(
                    block_id * 512,
                    block_id * 512 + buf@.len(),
                ));
            }
        }
        r
    }

    fn write_block(&mut self, block_id: usize, buf: &[u8]) -> (r: Result<(), DeviceError>)
        ensures
            block_id + buf@.len() / 512 > old(self).block_count ==> r == Err::<(), DeviceError>(
                DeviceError::InvalidParam,
            ) && *final(self) == *old(self),
            final(self).start_block == old(self).start_block,
            final(self).block_count == old(self).block_count,
            buf@.len() % 512 == 0 ==> forall|i: int|
                0 <= i < old(self).parent.bytes().len() && !(old(self).start_block * 512 <= i < (
                old(self).start_block + old(self).block_count) * 512)
                    ==> #[trigger] final(self).parent.bytes()[i] == old(self).parent.bytes()[i],
    {
        let nsectors: usize = buf.len() / 512;
        if block_id > self.block_count || nsectors > self.block_count - block_id {
            return Err(DeviceError::InvalidParam);
        }
        if self.start_block > usize::MAX - block_id {
            return Err(DeviceError::InvalidParam);
        }
        let ghost before = *self;
        let r = self.parent.write_block(self.start_block + block_id, buf);
        proof {
            if r is Ok {
                assert(self.bytes() =~= splice(before.bytes(), block_id * 512, buf@));
            } else if before.spares() && buf@.len() == 512 {
                assert(self.bytes() =~= before.bytes());
            }
        }
        r
    }

    fn flush(&mut self) -> (r: Result<(), DeviceError>) {
        let ghost before = *self;
        let r = self.parent.flush();
        assert(self.bytes() =~= before.bytes());
        r
    }
}

/// What a control of a block device hands back.
#[derive(Clone, Copy, PartialEq, Eq, Structural, Debug)]
pub enum BlkReply {
    Bytes(u64),
    Sectors(usize),
    /// The partition table is to be read again.
    Rescan,
    Flushed,
}

/// Node of a block device.
pub struct BlockDev<B: BlockScheme> {
    pub index: usize,
    pub inode_id: usize,
    pub device: BlockByteDevice<B>,
}

/// A product that stops at the largest 64-bit number.
pub open spec fn times_512(n: int, max: int) -> int {
    if n * 512 <= max {
        n * 512
    } else {
        max
    }
}

impl<B: BlockScheme> BlockDev<B> {
    pub fn new(index: usize, block: B, inode_id: usize) -> (d: Self)
        ensures
            d.index == index,
            d.inode_id == inode_id,
            d.device.block == block,
    {
        BlockDev { index, inode_id, device: BlockByteDevice::new(block) }
    }

    pub fn block_scheme(&self) -> (b: &B)
        ensures
            *b == self.device.block,
    {
        &self.device.block
    }

    /// Reads bytes. A failure is the driver's, as the file system names it.
    pub fn read_at(&self, offset: usize, buf: &mut [u8]) -> (r: Result<usize, FsError>)
        requires
            offset + old(buf)@.len() <= usize::MAX,
        ensures
            final(buf)@.len() == old(buf)@.len(),
            r matches Ok(n) ==> {
                &&& n == old(buf)@.len()
                &&& n > 0 ==> offset + n <= self.device.block.bytes().len()
                &&& forall|i: int|
                    0 <= i < n ==> #[trigger] final(buf)@[i] == self.device.block.bytes()[offset
                        + i]
            },
            r matches Err(e) ==> exists|d: DeviceError| e == #[trigger] fs_of_device(d),
            self.device.block.reliable() && fits(
                self.device.block.bytes().len() as int,
                offset as int,
                old(buf)@.len() as int,
            ) ==> r is Ok,
    {
        match self.device.read_bytes(offset, buf) {
            Ok(n) => Ok(n),
            Err(e) => Err(convert_error(e)),
        }
    }

    /// Writes bytes. A failure is the driver's, as the file system names it.
    pub fn write_at(&mut self, offset: usize, buf: &[u8]) -> (r: Result<usize, FsError>)
        requires
            offset + buf@.len() <= usize::MAX,
        ensures
            final(self).index == old(self).index,
            final(self).inode_id == old(self).inode_id,
            final(self).device.block.bytes().len() == old(self).device.block.bytes().len(),
            final(self).device.block.reliable() == old(self).device.block.reliable(),
            r matches Ok(n) ==> {
                &&& n == buf@.len()
                &&& n > 0 ==> offset + n <= old(self).device.block.bytes().len()
                &&& final(self).device.block.bytes() == splice(
                    old(self).device.block.bytes(),
                    offset as int,
                    buf@,
                )
            },
            r matches Err(e) ==> exists|d: DeviceError| e == #[trigger] fs_of_device(d),
            r is Err ==> forall|i: int|
                0 <= i < old(self).device.block.bytes().len() && !(round_down(offset as int) <= i
                    < round_up(offset + buf@.len()))
                    ==> #[trigger] final(self).device.block.bytes()[i] == old(
                    self,
                ).device.block.bytes()[i],
            old(self).device.block.reliable() && fits(
                old(self).device.block.bytes().len() as int,
                offset as int,
                buf@.len() as int,
            ) ==> r is Ok,
    {
        match self.device.write_bytes(offset, buf) {
            Ok(n) => Ok(n),
            Err(e) => Err(convert_error(e)),
        }
    }

    pub fn poll(&self) -> (p: PollStatus)
        ensures
            p == (PollStatus { read: true, write: true, error: false }),
    {
        PollStatus { read: true, write: true, error: false }
    }

    /// Metadata of the node, whose number is made of its major and minor number.
    pub fn metadata<F: Fn(usize, usize) -> usize>(&self, make_rdev: F) -> (m: Metadata)
        requires
            make_rdev.requires((BLOCK_MAJOR, self.index)),
        ensures
            make_rdev.ensures((BLOCK_MAJOR, self.index), m.rdev),
            m.blocks * 512 == self.device.block.bytes().len(),
            m == (Metadata {
                dev: 1,
                inode: self.inode_id,
                size: times_512(m.blocks as int, usize::MAX as int) as usize,
                blk_size: 512,
                blocks: m.blocks,
                atime: epoch(),
                mtime: epoch(),
                ctime: epoch(),
                type_: FileType::BlockDevice,
                mode: 0o660,
                nlinks: 1,
                uid: 0,
                gid: 0,
                rdev: m.rdev,
            }),
    {
        let blocks: usize = self.device.block.block_count();
        let zero = Timespec { sec: 0, nsec: 0 };
        let size: usize = if blocks <= usize::MAX / 512 {
            blocks * 512
        } else {
            usize::MAX
        };
        Metadata {
            dev: 1,
            inode: self.inode_id,
            size,
            blk_size: 512,
            blocks,
            atime: zero,
            mtime: zero,
            ctime: zero,
            type_: FileType::BlockDevice,
            mode: 0o660,
            nlinks: 1,
            uid: 0,
            gid: 0,
            rdev: make_rdev(BLOCK_MAJOR, self.index),
        }
    }

    /// Carries out a control; `null` says that the caller passed no place for an answer. What a
    /// flush of the driver reports is ignored.
    pub fn io_control(&mut self, cmd: u32, null: bool) -> (r: Result<BlkReply, FsError>)
        ensures
            final(self).device.block.bytes() == old(self).device.block.bytes(),
            final(self).device.block.reliable() == old(self).device.block.reliable(),
            final(self).index == old(self).index,
            final(self).inode_id == old(self).inode_id,
            r == block_answer(cmd, null, old(self).device.block.bytes().len() as int / 512),
    {
        let sectors: usize = self.device.block.block_count();
        assert(self.device.block.bytes().len() as int / 512 == sectors);
        if cmd == BLKGETSIZE64 {
            if null {
                return Err(FsError::InvalidParam);
            }
            let wide: u64 = sectors as u64;
            let size: u64 = if wide <= u64::MAX / 512 {
                wide * 512
            } else {
                u64::MAX
            };
            Ok(BlkReply::Bytes(size))
        } else if cmd == BLKGETSIZE {
            if null {
                return Err(FsError::InvalidParam);
            }
            Ok(BlkReply::Sectors(sectors))
        } else if cmd == BLKRRPART {
            Ok(BlkReply::Rescan)
        } else if cmd == BLKFLSBUF {
            let _ = self.device.block.flush();
            Ok(BlkReply::Flushed)
        } else {
            Err(FsError::NotSupported)
        }
    }

    /// Nothing is held back: the node has no cache of its own.
    pub fn sync_all(&self) -> (r: Result<(), FsError>)
        ensures
            r == Ok::<(), FsError>(()),
    {
        Ok(())
    }

    pub fn sync_data(&self) -> (r: Result<(), FsError>)
        ensures
            r == Ok::<(), FsError>(()),
    {
        Ok(())
    }
}

/// What a control of a block device of so many sectors answers.
pub open spec fn block_answer(cmd: u32, null: bool, sectors: int) -> Result<BlkReply, FsError> {
    if cmd == BLKGETSIZE64 {
        if null {
            Err(FsError::InvalidParam)
        } else {
            Ok(BlkReply::Bytes(times_512(sectors, u64::MAX as int) as u64))
        }
    } else if cmd == BLKGETSIZE {
        if null {
            Err(FsError::InvalidParam)
        } else {
            Ok(BlkReply::Sectors(sectors as usize))
        }
    } else if cmd == BLKRRPART {
        Ok(BlkReply::Rescan)
    } else if cmd == BLKFLSBUF {
        Ok(BlkReply::Flushed)
    } else {
        Err(FsError::NotSupported)
    }
}

/// What reading one sector gave: its bytes, or nothing. A reliable device gives every sector it
/// has.
pub open spec fn outcome<B: BlockScheme>(b: B, k: int, o: Option<Seq<u8>>) -> bool {
    match o {
        Some(s) => in_device(b.bytes().len() as int, k, 512) && s == b.bytes().subrange(
            k * 512,
            k * 512 + 512,
        ),
        None => !(b.reliable() && in_device(b.bytes().len() as int, k, 512)),
    }
}

/// What reading the first six sectors gave.
pub open spec fn outcomes<B: BlockScheme>(b: B, o: Seq<Option<Seq<u8>>>) -> bool {
    &&& o.len() == 6
    &&& forall|k: int| 0 <= k < 6 ==> outcome(b, k, #[trigger] o[k])
}

/// The partition that a GPT entry describes.
pub open spec fn gpt_entry(s: Seq<u8>, i: int) -> Option<(usize, usize)> {
    let start = u64_at(s, i * 128 + 32) as usize;
    let end = u64_at(s, i * 128 + 40) as usize;
    if all_zero(s, i * 128, i * 128 + 128) {
        None
    } else if end >= start && start > 0 {
        Some((start, (end - start + 1) as usize))
    } else {
        None
    }
}

/// Whether bytes are all zero.
pub open spec fn all_zero(s: Seq<u8>, from: int, to: int) -> bool {
    forall|k: int| from <= k < to ==> #[trigger] s[k] == 0
}

/// The partitions of the first `n` GPT entries of a sector.
pub open spec fn gpt_entries(s: Seq<u8>, n: int) -> Seq<(usize, usize)>
    decreases n,
{
    if n <= 0 {
        Seq::empty()
    } else {
        match gpt_entry(s, n - 1) {
            Some(p) => gpt_entries(s, n - 1).push(p),
            None => gpt_entries(s, n - 1),
        }
    }
}

/// The partition that an MBR entry describes.
pub open spec fn mbr_entry(s: Seq<u8>, i: int) -> Option<(usize, usize)> {
    let at = 446 + i * 16;
    let start = u32_at(s, at + 8) as usize;
    let size = u32_at(s, at + 12) as usize;
    if s[at + 4] != 0 && size > 0 && start > 0 {
        Some((start, size))
    } else {
        None
    }
}

/// The partitions of the first `n` MBR entries.
pub open spec fn mbr_entries(s: Seq<u8>, n: int) -> Seq<(usize, usize)>
    decreases n,
{
    if n <= 0 {
        Seq::empty()
    } else {
        match mbr_entry(s, n - 1) {
            Some(p) => mbr_entries(s, n - 1).push(p),
            None => mbr_entries(s, n - 1),
        }
    }
}

/// Whether all sectors from the second up to `k` were read.
pub open spec fn readable(o: Seq<Option<Seq<u8>>>, k: int) -> bool {
    forall|j: int| 2 <= j < k ==> #[trigger] o[j] is Some
}

/// The partitions of the GPT sectors below `k`; the first one that fails ends the table.
pub open spec fn gpt_table(o: Seq<Option<Seq<u8>>>, k: int) -> Seq<(usize, usize)>
    decreases k,
{
    if k <= 2 {
        Seq::empty()
    } else if readable(o, k) {
        gpt_table(o, k - 1) + gpt_entries(o[k - 1]->0, 4)
    } else {
        gpt_table(o, k - 1)
    }
}

/// Whether a first sector is a boot record.
pub open spec fn boot_record(s: Seq<u8>) -> bool {
    u16_at(s, 510) == 0xAA55
}

/// Whether the sectors announce a GPT: by a protective entry or by its header.
pub open spec fn announces_gpt(o: Seq<Option<Seq<u8>>>) -> bool {
    ||| o[0]->0[450] == 0xEE
    ||| o[1] is Some && o[1]->0.subrange(0, 8) == gpt_magic()
}

/// `EFI PART`
pub open spec fn gpt_magic() -> Seq<u8> {
    seq![0x45u8, 0x46u8, 0x49u8, 0x20u8, 0x50u8, 0x41u8, 0x52u8, 0x54u8]
}

/// The partitions that the first six sectors describe.
pub open spec fn table(o: Seq<Option<Seq<u8>>>) -> Seq<(usize, usize)> {
    if o[0] is None || !boot_record(o[0]->0) {
        Seq::empty()
    } else if announces_gpt(o) {
        gpt_table(o, 6)
    } else {
        mbr_entries(o[0]->0, 4)
    }
}

/// What reading a sector gives where nothing else is known of it.
spec fn guess<B: BlockScheme>(b: B, k: int) -> Option<Seq<u8>> {
    if in_device(b.bytes().len() as int, k, 512) {
        Some(b.bytes().subrange(k * 512, k * 512 + 512))
    } else {
        None
    }
}

fn read_sector<B: BlockScheme>(block: &B, k: usize) -> (r: Option<[u8; 512]>)
    requires
        k < 6,
    ensures
        outcome(
            *block,
            k as int,
            match r {
                Some(a) => Some(a@),
                None => None,
            },
        ),
{
    let mut buf: [u8; 512] = [0u8; 512];
    match block.read_block(k, &mut buf) {
        Ok(_) => Some(buf),
        Err(_) => None,
    }
}

fn zeroes(s: &[u8], from: usize, to: usize) -> (r: bool)
    requires
        from <= to <= s@.len(),
    ensures
        r == all_zero(s@, from as int, to as int),
{
    for i in from..to
        invariant
            to <= s@.len(),
            forall|k: int| from <= k < i ==> #[trigger] s@[k] == 0,
    {
        if s[i] != 0 {
            return false;
        }
    }
    true
}

/// Appends the partitions of a GPT sector.
fn parse_gpt(s: &[u8], parts: &mut Vec<(usize, usize)>)
    requires
        s@.len() == 512,
    ensures
        final(parts)@ == old(parts)@ + gpt_entries(s@, 4),
{
    assert(parts@ =~= old(parts)@ + gpt_entries(s@, 0));
    for i in 0..4usize
        invariant
            s@.len() == 512,
            parts@ == old(parts)@ + gpt_entries(s@, i as int),
    {
        let at: usize = i * 128;
        if !zeroes(s, at, at + 128) {
            let start: usize = get_u64(s, at + 32) as usize;
            let end: usize = get_u64(s, at + 40) as usize;
            if end >= start && start > 0 {
                parts.push((start, end - start + 1));
            }
        }
        assert(parts@ =~= old(parts)@ + gpt_entries(s@, i + 1));
    }
}

/// Appends the partitions of a boot record.
fn parse_mbr(s: &[u8], parts: &mut Vec<(usize, usize)>)
    requires
        s@.len() == 512,
    ensures
        final(parts)@ == old(parts)@ + mbr_entries(s@, 4),
{
    assert(parts@ =~= old(parts)@ + mbr_entries(s@, 0));
    for i in 0..4usize
        invariant
            s@.len() == 512,
            parts@ == old(parts)@ + mbr_entries(s@, i as int),
    {
        let at: usize = 446 + i * 16;
        if s[at + 4] != 0 {
            let start: usize = get_u32(s, at + 8) as usize;
            let size: usize = get_u32(s, at + 12) as usize;
            if size > 0 && start > 0 {
                parts.push((start, size));
            }
        }
        assert(parts@ =~= old(parts)@ + mbr_entries(s@, i + 1));
    }
}

fn has_gpt_magic(s: &[u8]) -> (r: bool)
    requires
        s@.len() == 512,
    ensures
        r == (s@.subrange(0, 8) == gpt_magic()),
{
    let r: bool = s[0] == 0x45 && s[1] == 0x46 && s[2] == 0x49 && s[3] == 0x20 && s[4] == 0x50
        && s[5] == 0x41 && s[6] == 0x52 && s[7] == 0x54;
    proof {
        let t = s@.subrange(0, 8);
        if r {
            assert(t =~= gpt_magic());
        } else {
            assert(t[0] == s@[0] && t[1] == s@[1] && t[2] == s@[2] && t[3] == s@[3]);
            assert(t[4] == s@[4] && t[5] == s@[5] && t[6] == s@[6] && t[7] == s@[7]);
        }
    }
    r
}

spec fn seen(r: Option<[u8; 512]>) -> Option<Seq<u8>> {
    match r {
        Some(a) => Some(a@),
        None => None,
    }
}

/// Looks for partitions: pairs of first sector and number of sectors, from a boot record or a
/// GPT of up to sixteen entries. What it finds is what the first six sectors describe, as far as
/// they can be read.
pub fn scan_partitions<B: BlockScheme>(block: &B) -> (parts: Vec<(usize, usize)>)
    ensures
        exists|o: Seq<Option<Seq<u8>>>| outcomes(*block, o) && parts@ == #[trigger] table(o),
{
    let ghost d = guesses(*block);
    proof {
        lemma_guesses(*block);
    }
    let mut parts: Vec<(usize, usize)> = Vec::new();
    let mbr: [u8; 512] = match read_sector(block, 0) {
        Some(a) => a,
        None => {
            proof {
                let o = d.update(0, None);
                assert(outcomes(*block, o));
                assert(parts@ =~= table(o));
            }
            return parts;
        },
    };
    let ghost o1 = d.update(0, Some(mbr@));
    assert(outcomes(*block, o1));
    if get_u16(mbr.as_slice(), 510) != 0xAA55 {
        assert(parts@ =~= table(o1));
        return parts;
    }
    let header = read_sector(block, 1);
    let ghost o2 = o1.update(1, seen(header));
    assert(outcomes(*block, o2));
    let has_header: bool = match header {
        Some(h) => has_gpt_magic(h.as_slice()),
        None => false,
    };
    if mbr[450] == 0xEE || has_header {
        assert(announces_gpt(o2));
        let ghost mut o = o2;
        let mut k: usize = 2;
        assert(parts@ =~= gpt_table(o, 2));
        while k <= 5
            invariant
                2 <= k <= 6,
                outcomes(*block, o),
                o[0] == o2[0],
                o[1] == o2[1],
                readable(o, k as int),
                parts@ == gpt_table(o, k as int),
                boot_record(o2[0]->0),
                o2[0] is Some,
                announces_gpt(o2),
            decreases 6 - k,
        {
            let s = read_sector(block, k);
            let ghost before = o;
            proof {
                o = o.update(k as int, seen(s));
                assert(outcomes(*block, o));
                lemma_gpt_prefix(before, o, k as int);
            }
            match s {
                Some(a) => {
                    parse_gpt(a.as_slice(), &mut parts);
                    assert(readable(o, k + 1));
                    k = k + 1;
                },
                None => {
                    proof {
                        lemma_gpt_ended(o, k as int, 6);
                        assert(parts@ == table(o));
                    }
                    return parts;
                },
            }
        }
        assert(parts@ == table(o));
    } else {
        parse_mbr(mbr.as_slice(), &mut parts);
        assert(!announces_gpt(o2));
        assert(parts@ =~= table(o2));
    }
    parts
}

spec fn guesses<B: BlockScheme>(b: B) -> Seq<Option<Seq<u8>>> {
    Seq::new(6, |k: int| guess(b, k))
}

proof fn lemma_guesses<B: BlockScheme>(b: B)
    ensures
        outcomes(b, guesses(b)),
{
    assert forall|k: int| 0 <= k < 6 implies outcome(b, k, #[trigger] guesses(b)[k]) by {
        assert(guesses(b)[k] == guess(b, k));
    }
}

proof fn lemma_gpt_prefix(a: Seq<Option<Seq<u8>>>, b: Seq<Option<Seq<u8>>>, k: int)
    requires
        a.len() == 6,
        b.len() == 6,
        2 <= k <= 6,
        forall|j: int| 0 <= j < k ==> #[trigger] a[j] == b[j],
    ensures
        gpt_table(a, k) == gpt_table(b, k),
        readable(a, k) == readable(b, k),
    decreases k,
{
    assert(forall|j: int| 2 <= j < k ==> #[trigger] a[j] == b[j]);
    assert(forall|j: int| 2 <= j < k ==> a[j] == #[trigger] b[j]);
    if k > 2 {
        lemma_gpt_prefix(a, b, k - 1);
        assert(a[k - 1] == b[k - 1]);
    }
}

proof fn lemma_gpt_ended(o: Seq<Option<Seq<u8>>>, k: int, upto: int)
    requires
        2 <= k < 6,
        k <= upto <= 6,
        o.len() == 6,
        o[k] is None,
    ensures
        gpt_table(o, upto) == gpt_table(o, k),
    decreases upto,
{
    if upto > k {
        assert(!readable(o, upto)) by {
            assert(o[k] is None);
        }
        lemma_gpt_ended(o, k, upto - 1);
    }
}

/// The first six sectors of a device.
pub open spec fn first_sectors<B: BlockScheme>(b: B) -> Seq<Option<Seq<u8>>> {
    Seq::new(6, |k: int| Some(b.bytes().subrange(k * 512, k * 512 + 512)))
}

/// What a reliable device of at least six sectors describes is found exactly.
pub proof fn law_reliable_scan_exact<B: BlockScheme>(b: B, o: Seq<Option<Seq<u8>>>)
    requires
        b.reliable(),
        b.bytes().len() >= 6 * 512,
        outcomes(b, o),
    ensures
        table(o) == table(first_sectors(b)),
{
    assert forall|k: int| 0 <= k < 6 implies #[trigger] o[k] == first_sectors(b)[k] by {
        assert(outcome(b, k, o[k]));
    }
    assert(o =~= first_sectors(b));
}

/// No partition starts at the table itself or is empty.
pub proof fn law_partitions_nonempty(o: Seq<Option<Seq<u8>>>, i: int)
    requires
        0 <= i < table(o).len(),
    ensures
        table(o)[i].0 > 0,
        table(o)[i].1 > 0,
{
    if announces_gpt(o) {
        lemma_gpt_nonempty(o, 6, i);
    } else {
        lemma_mbr_nonempty(o[0]->0, 4, i);
    }
}

proof fn lemma_mbr_nonempty(s: Seq<u8>, n: int, i: int)
    requires
        0 <= i < mbr_entries(s, n).len(),
    ensures
        mbr_entries(s, n)[i].0 > 0,
        mbr_entries(s, n)[i].1 > 0,
    decreases n,
{
    if i < mbr_entries(s, n - 1).len() {
        lemma_mbr_nonempty(s, n - 1, i);
    }
}

proof fn lemma_entries_nonempty(s: Seq<u8>, n: int, i: int)
    requires
        0 <= i < gpt_entries(s, n).len(),
    ensures
        gpt_entries(s, n)[i].0 > 0,
        gpt_entries(s, n)[i].1 > 0,
    decreases n,
{
    if i < gpt_entries(s, n - 1).len() {
        lemma_entries_nonempty(s, n - 1, i);
    }
}

proof fn lemma_gpt_nonempty(o: Seq<Option<Seq<u8>>>, k: int, i: int)
    requires
        0 <= i < gpt_table(o, k).len(),
    ensures
        gpt_table(o, k)[i].0 > 0,
        gpt_table(o, k)[i].1 > 0,
    decreases k,
{
    if i < gpt_table(o, k - 1).len() {
        lemma_gpt_nonempty(o, k - 1, i);
    } else {
        lemma_entries_nonempty(o[k - 1]->0, 4, i - gpt_table(o, k - 1).len());
    }
}

/// An entry of a partition table with long entries is used where it is not all zero and its last sector
/// is not before its first, which is not 0; it goes from the one to the other.
pub proof fn law_long_entry(s: Seq<u8>, i: int, k: int)
    requires
        0 <= i < 4,
        s.len() == 512,
        u64_at(s, 128 * i + 32) <= usize::MAX,
        u64_at(s, 128 * i + 40) < usize::MAX,
        128 * i <= k < 128 * i + 128,
        s[k] != 0,
    ensures
        gpt_entry(s, i) is Some <==> 0 < u64_at(s, 128 * i + 32) <= u64_at(s, 128 * i + 40),
        gpt_entry(s, i) matches Some(p) ==> p.0 == u64_at(s, 128 * i + 32) && p.0 + p.1 == u64_at(
            s,
            128 * i + 40,
        ) + 1,
{
    assert(!all_zero(s, i * 128, i * 128 + 128));
}

/// An entry that is all zero is not used.
pub proof fn law_blank_entry(s: Seq<u8>, i: int)
    requires
        forall|k: int| 128 * i <= k < 128 * i + 128 ==> #[trigger] s[k] == 0,
    ensures
        gpt_entry(s, i) is None,
{
    assert(all_zero(s, i * 128, i * 128 + 128));
}

/// An entry of a boot record is used where it has a kind, a size and a start; it starts and is as long
/// as it says.
pub proof fn law_short_entry(s: Seq<u8>, i: int)
    requires
        0 <= i < 4,
    ensures
        mbr_entry(s, i) is Some <==> s[450 + 16 * i] != 0 && u32_at(s, 454 + 16 * i) > 0 && u32_at(
            s,
            458 + 16 * i,
        ) > 0,
        mbr_entry(s, i) matches Some(p) ==> p.0 == u32_at(s, 454 + 16 * i) && p.1 == u32_at(
            s,
            458 + 16 * i,
        ),
{
}

/// The used entries of a table come in its order.
pub proof fn law_entries_in_order(s: Seq<u8>, n: int)
    requires
        0 <= n,
    ensures
        gpt_entry(s, n) matches Some(p) ==> gpt_entries(s, n + 1) == gpt_entries(s, n).push(p),
        gpt_entry(s, n) is None ==> gpt_entries(s, n + 1) == gpt_entries(s, n),
        mbr_entry(s, n) matches Some(p) ==> mbr_entries(s, n + 1) == mbr_entries(s, n).push(p),
        mbr_entry(s, n) is None ==> mbr_entries(s, n + 1) == mbr_entries(s, n),
        gpt_entries(s, 0).len() == 0 && mbr_entries(s, 0).len() == 0,
{
}

/// Which table counts: none without the mark of a boot record, the one with long entries where the
/// record or the sector after it announces one, and the record's own otherwise.
pub proof fn law_which_table(o: Seq<Option<Seq<u8>>>)
    requires
        o.len() == 6,
        o[0] is Some,
        o[0]->0.len() == 512,
    ensures
        o[0]->0[510] != 0x55 || o[0]->0[511] != 0xAA ==> table(o).len() == 0,
        o[0]->0[510] == 0x55 && o[0]->0[511] == 0xAA && (o[0]->0[450] == 0xEE || (o[1] is Some
            && o[1]->0.subrange(0, 8) == seq![0x45u8, 0x46u8, 0x49u8, 0x20u8, 0x50u8, 0x41u8, 0x52u8, 0x54u8]))
            ==> table(o) == gpt_table(o, 6),
        o[0]->0[510] == 0x55 && o[0]->0[511] == 0xAA && o[0]->0[450] != 0xEE && o[1] is None ==> table(o)
            == mbr_entries(o[0]->0, 4),
        o[0]->0[510] == 0x55 && o[0]->0[511] == 0xAA && o[0]->0[450] != 0xEE && o[1] is Some
            && o[1]->0.subrange(0, 8) != seq![0x45u8, 0x46u8, 0x49u8, 0x20u8, 0x50u8, 0x41u8, 0x52u8, 0x54u8]
            ==> table(o) == mbr_entries(o[0]->0, 4),
{
    let s = o[0]->0;
    assert(u16_at(s, 510) == s[510] + s[511] * 0x100);
}

/// A disk whose first sector cannot be read has no partitions.
pub proof fn law_unreadable_disk(o: Seq<Option<Seq<u8>>>)
    requires
        o[0] is None,
    ensures
        table(o).len() == 0,
{
}

/// The sectors of a table with long entries are read one after the other, up to the first that cannot
/// be read.
pub proof fn law_table_sectors(o: Seq<Option<Seq<u8>>>, k: int)
    requires
        2 <= k < 6,
    ensures
        (forall|j: int| 2 <= j <= k ==> #[trigger] o[j] is Some) ==> gpt_table(o, k + 1) == gpt_table(o, k)
            + gpt_entries(o[k]->0, 4),
        o[k] is None ==> gpt_table(o, k + 1) == gpt_table(o, k),
        gpt_table(o, 2).len() == 0,
{
    if o[k] is None {
        assert(!readable(o, k + 1));
    }
    if forall|j: int| 2 <= j <= k ==> #[trigger] o[j] is Some {
        assert(readable(o, k + 1));
    }
}

/// What a disk answers: its size in bytes or in sectors, where there is room for the answer, and that
/// the table is read again or that nothing is left to write; anything else is not known.
pub proof fn law_disk_answers(cmd: u32, null: bool, sectors: int)
    requires
        0 <= sectors <= usize::MAX,
    ensures
        cmd == 0x8008_1272 || cmd == 0x1260 ==> (block_answer(cmd, null, sectors) is Err <==> null),
        cmd == 0x8008_1272 && !null && sectors * 512 <= u64::MAX ==> (block_answer(
            cmd,
            null,
            sectors,
        ) matches Ok(BlkReply::Bytes(n)) && n == sectors * 512),
        cmd == 0x1260 && !null ==> (block_answer(cmd, null, sectors) matches Ok(BlkReply::Sectors(n)) && n
            == sectors),
        cmd == 0x125f ==> (block_answer(cmd, null, sectors) matches Ok(b) && b is Rescan),
        cmd == 0x1261 ==> (block_answer(cmd, null, sectors) matches Ok(b) && b is Flushed),
        cmd != 0x8008_1272 && cmd != 0x1260 && cmd != 0x125f && cmd != 0x1261 ==> block_answer(
            cmd,
            null,
            sectors,
        ) == Err::<BlkReply, FsError>(FsError::NotSupported),
        null && (cmd == 0x8008_1272 || cmd == 0x1260) ==> block_answer(cmd, null, sectors) == Err::<
            BlkReply,
            FsError,
        >(FsError::InvalidParam),
{
}

/// A partition holds the sectors of its disk from its start on.
pub proof fn law_partition_window<B: BlockScheme>(p: PartitionBlock<B>, i: int)
    requires
        p.inside(),
        0 <= i < 512 * p.block_count,
    ensures
        p.bytes().len() == 512 * p.block_count,
        p.bytes()[i] == p.parent.bytes()[512 * p.start_block + i],
        p.reliable() <==> p.parent.reliable(),
{
}

} // verus!
