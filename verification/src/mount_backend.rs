//! What a file system is mounted from.
use vstd::prelude::*;
use crate::block_mount::{BlockByteDevice, FileByteDevice};
use crate::cached_device::{CachedDevice, CACHE_CAPACITY_SECTORS};
use crate::device::{addressable, BlockScheme, DevError, Device};
use crate::error::FsError;
use crate::vfs::{FileType, Metadata};

verus! {

/// What a file system is mounted from: a block device, or a regular file of some size.
pub enum MountBackend<B: BlockScheme, F: Device> {
    Block(B),
    File(F, usize),
}

/// The backend that a file makes: a block device's node of this kernel is read in sectors, a
/// regular file in bytes, and nothing else is one.
pub open spec fn backend_of<B: BlockScheme, F: Device>(
    m: Result<Metadata, FsError>,
    block: Option<B>,
    file: F,
) -> Result<MountBackend<B, F>, FsError> {
    match m {
        Err(e) => Err(e),
        Ok(m) => match m.type_ {
            FileType::BlockDevice => match block {
                Some(b) => Ok(MountBackend::Block(b)),
                None => Err(FsError::NotSupported),
            },
            FileType::File => Ok(MountBackend::File(file, m.size)),
            _ => Err(FsError::NotSupported),
        },
    }
}

impl<B: BlockScheme, F: Device> MountBackend<B, F> {
    /// Makes a backend of a file with this metadata; `block` is the driver behind it, where it is
    /// a block device's node.
    pub fn from_inode(m: Result<Metadata, FsError>, block: Option<B>, file: F) -> (r: Result<
        Self,
        FsError,
    >)
        ensures
            r == backend_of(m, block, file),
    {
        match m {
            Err(e) => Err(e),
            Ok(m) => match m.type_ {
                FileType::BlockDevice => match block {
                    Some(b) => Ok(MountBackend::Block(b)),
                    None => Err(FsError::NotSupported),
                },
                FileType::File => Ok(MountBackend::File(file, m.size)),
                _ => Err(FsError::NotSupported),
            },
        }
    }

    /// Everything stored on the backend.
    pub open spec fn contents(&self) -> Seq<u8> {
        match self {
            MountBackend::Block(b) => b.bytes(),
            MountBackend::File(f, _) => f.contents(),
        }
    }

    /// Whether the backend is ready: a file's size is its size, and the end can be addressed.
    pub open spec fn ready(&self) -> bool {
        &&& addressable(self.contents().len() as int, 0)
        &&& match self {
            MountBackend::Block(_) => true,
            MountBackend::File(f, size) => f.inv() && *size == f.contents().len(),
        }
    }
}

/// How many bytes a backend has.
pub fn backend_size<B: BlockScheme, F: Device>(backend: &MountBackend<B, F>) -> (n: u64)
    requires
        backend.ready(),
    ensures
        n == backend.contents().len(),
{
    match backend {
        MountBackend::Block(block) => {
            proof {
                reveal(crate::device::round_up);
            }
            block.block_count() as u64 * 512
        },
        MountBackend::File(_, size) => *size as u64,
    }
}

/// The device of a mount, with its buffer cache.
pub enum MountedDevice<B: BlockScheme, F: Device> {
    Block(CachedDevice<BlockByteDevice<B>>),
    File(CachedDevice<FileByteDevice<F>>),
}

/// The device of a mount: the bytes of its backend, behind the buffer cache.
pub fn device_from_backend<B: BlockScheme, F: Device>(backend: MountBackend<B, F>) -> (d:
    MountedDevice<B, F>)
    requires
        backend.ready(),
    ensures
        d.contents() == backend.contents(),
        d.inv(),
        match (backend, d) {
            (MountBackend::Block(b), MountedDevice::Block(c)) => c.inner.block == b && c.cache.capacity
                == CACHE_CAPACITY_SECTORS,
            (MountBackend::File(f, n), MountedDevice::File(c)) => c.inner.file == f && c.inner.len == n
                && c.cache.capacity == CACHE_CAPACITY_SECTORS,
            _ => false,
        },
        forall|i: int|
            (backend matches MountBackend::File(f, _) ==> f.sound_at(i)) ==> #[trigger] d.sound_at(i),
{
    match backend {
        MountBackend::Block(block) => {
            proof {
                reveal(crate::device::round_up);
                block.whole_sectors();
            }
            let count: usize = block.block_count();
            let size: usize = count * 512;
            MountedDevice::Block(CachedDevice::new(BlockByteDevice::new(block), size))
        },
        MountBackend::File(file, size) => {
            MountedDevice::File(CachedDevice::new(FileByteDevice::new(file, size), size))
        },
    }
}

impl<B: BlockScheme, F: Device> Device for MountedDevice<B, F> {
    open spec fn contents(&self) -> Seq<u8> {
        match self {
            MountedDevice::Block(d) => d.contents(),
            MountedDevice::File(d) => d.contents(),
        }
    }

    open spec fn reliable(&self) -> bool {
        match self {
            MountedDevice::Block(d) => d.reliable(),
            MountedDevice::File(d) => d.reliable(),
        }
    }

    open spec fn takes(&self, n: int) -> bool {
        match self {
            MountedDevice::Block(d) => d.takes(n),
            MountedDevice::File(d) => d.takes(n),
        }
    }

    open spec fn gives(&self) -> bool {
        match self {
            MountedDevice::Block(d) => d.gives(),
            MountedDevice::File(d) => d.gives(),
        }
    }

    open spec fn spares(&self) -> bool {
        match self {
            MountedDevice::Block(d) => d.spares(),
            MountedDevice::File(d) => d.spares(),
        }
    }

    open spec fn misses(&self) -> int {
        match self {
            MountedDevice::Block(d) => d.misses(),
            MountedDevice::File(d) => d.misses(),
        }
    }

    open spec fn asked(&self) -> int {
        match self {
            MountedDevice::Block(d) => d.asked(),
            MountedDevice::File(d) => d.asked(),
        }
    }

    open spec fn sound_at(&self, i: int) -> bool {
        match self {
            MountedDevice::Block(d) => d.sound_at(i),
            MountedDevice::File(d) => d.sound_at(i),
        }
    }

    open spec fn inv(&self) -> bool {
        match self {
            MountedDevice::Block(d) => d.inv(),
            MountedDevice::File(d) => d.inv(),
        }
    }

    fn read_at(&mut self, offset: usize, buf: &mut [u8]) -> (r: Result<usize, DevError>) {
        match self {
            MountedDevice::Block(d) => d.read_at(offset, buf),
            MountedDevice::File(d) => d.read_at(offset, buf),
        }
    }

    fn write_at(&mut self, offset: usize, buf: &[u8]) -> (r: Result<usize, DevError>) {
        match self {
            MountedDevice::Block(d) => d.write_at(offset, buf),
            MountedDevice::File(d) => d.write_at(offset, buf),
        }
    }

    fn sync(&mut self) -> (r: Result<(), DevError>) {
        match self {
            MountedDevice::Block(d) => d.sync(),
            MountedDevice::File(d) => d.sync(),
        }
    }
}

/// A block device whose errors are all one.
pub struct Block<B: BlockScheme>(pub B);

impl<B: BlockScheme> Block<B> {
    pub fn new(block: B) -> (b: Self)
        ensures
            b.0 == block,
    {
        Block(block)
    }

    pub fn read_at(&self, block_id: usize, buf: &mut [u8]) -> (r: Result<(), DevError>)
        ensures
            final(buf)@.len() == old(buf)@.len(),
            r is Ok ==> crate::device::in_device(
                self.0.bytes().len() as int,
                block_id as int,
                old(buf)@.len() as int,
            ) && final(buf)@ == self.0.bytes().subrange(
                block_id * 512,
                block_id * 512 + old(buf)@.len(),
            ),
            self.0.reliable() && crate::device::in_device(
                self.0.bytes().len() as int,
                block_id as int,
                old(buf)@.len() as int,
            ) ==> r is Ok,
    {
        match self.0.read_block(block_id, buf) {
            Ok(_) => Ok(()),
            Err(_) => Err(DevError),
        }
    }

    pub fn write_at(&mut self, block_id: usize, buf: &[u8]) -> (r: Result<(), DevError>)
        ensures
            final(self).0.reliable() == old(self).0.reliable(),
            final(self).0.bytes().len() == old(self).0.bytes().len(),
            r is Ok ==> crate::device::in_device(
                old(self).0.bytes().len() as int,
                block_id as int,
                buf@.len() as int,
            ) && final(self).0.bytes() == crate::bytes::splice(
                old(self).0.bytes(),
                block_id * 512,
                buf@,
            ),
            r is Err ==> forall|i: int|
                0 <= i < old(self).0.bytes().len() && !(block_id * 512 <= i < block_id * 512
                    + buf@.len()) ==> #[trigger] final(self).0.bytes()[i] == old(
                    self).0.bytes()[i],
            r is Err && old(self).0.spares() && buf@.len() == 512 ==> final(self).0.bytes() == old(
                self).0.bytes(),
            old(self).0.reliable() && crate::device::in_device(
                old(self).0.bytes().len() as int,
                block_id as int,
                buf@.len() as int,
            ) ==> r is Ok,
    {
        match self.0.write_block(block_id, buf) {
            Ok(_) => Ok(()),
            Err(_) => Err(DevError),
        }
    }

    pub fn sync(&mut self) -> (r: Result<(), DevError>)
        ensures
            final(self).0.bytes() == old(self).0.bytes(),
            old(self).0.reliable() ==> r is Ok,
    {
        match self.0.flush() {
            Ok(_) => Ok(()),
            Err(_) => Err(DevError),
        }
    }
}

/// What can be mounted: a block device that has a driver, and a regular file, by its size. Nothing else
/// can, and what the file's attributes fail with is what the mount fails with.
pub proof fn law_mountable<B: BlockScheme, F: Device>(
    m: Result<Metadata, FsError>,
    block: Option<B>,
    file: F,
)
    ensures
        m matches Err(e) ==> backend_of(m, block, file) == Err::<MountBackend<B, F>, FsError>(e),
        m matches Ok(md) ==> {
            let r = backend_of(m, block, file);
            &&& r is Ok <==> md.type_ is File || (md.type_ is BlockDevice && block is Some)
            &&& md.type_ is File ==> r->Ok_0 == MountBackend::<B, F>::File(file, md.size)
            &&& md.type_ is BlockDevice && block is Some ==> r->Ok_0 == MountBackend::<B, F>::Block(
                block->0,
            )
            &&& r is Err ==> r->Err_0 == FsError::NotSupported
        },
{
}

} // verus!
