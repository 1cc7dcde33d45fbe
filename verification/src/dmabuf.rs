//! Shareable handles to graphics buffers.
use vstd::prelude::*;
use crate::error::LxError;
use crate::file::{signed, SeekFrom};
use crate::flags::{OpenFlags, O_CLOEXEC, O_RDWR};
use crate::vfs::PollStatus;

verus! {

/// A handle to a buffer's memory.
#[derive(Clone, Copy, PartialEq, Eq, Structural, Debug)]
pub struct DmaBuf {
    pub phys_addr: u64,
    pub size: usize,
    pub vmo: u64,
}

/// Where a seek leads: there is no position to start from but the start and the end.
pub open spec fn buffer_seek(size: usize, pos: SeekFrom) -> Result<u64, LxError> {
    let at = match pos {
        SeekFrom::Start(n) => signed(n),
        SeekFrom::End(n) => signed(size as u64) + n,
        SeekFrom::Current(n) => n as int,
    };
    if 0 <= at {
        Ok(at as u64)
    } else {
        Err(LxError::EINVAL)
    }
}

impl DmaBuf {
    pub fn new(phys_addr: u64, size: usize, vmo: u64) -> (d: Self)
        ensures
            d == (DmaBuf { phys_addr, size, vmo }),
    {
        DmaBuf { phys_addr, size, vmo }
    }

    pub fn vmo(&self) -> (v: u64)
        ensures
            v == self.vmo,
    {
        self.vmo
    }

    pub fn flags(&self) -> (f: OpenFlags)
        ensures
            f.bits == O_RDWR | O_CLOEXEC,
    {
        OpenFlags { bits: O_RDWR | O_CLOEXEC }
    }

    /// Seeks: the end is the size of the buffer.
    pub fn seek(&self, pos: SeekFrom) -> (r: Result<u64, LxError>)
        requires
            pos matches SeekFrom::End(n) ==> i64::MIN <= signed(self.size as u64) + n <= i64::MAX,
        ensures
            r == buffer_seek(self.size, pos),
    {
        let at: i64 = match pos {
            SeekFrom::Start(n) => {
                #[verifier::truncate]
                let at: i64 = n as i64;
                at
            },
            SeekFrom::End(n) => {
                #[verifier::truncate]
                let size: i64 = self.size as u64 as i64;
                size + n
            },
            SeekFrom::Current(n) => n,
        };
        if at < 0 {
            return Err(LxError::EINVAL);
        }
        Ok(at as u64)
    }

    pub fn read(&self) -> (r: Result<usize, LxError>)
        ensures
            r == Err::<usize, LxError>(LxError::ENOSYS),
    {
        Err(LxError::ENOSYS)
    }

    pub fn write(&self) -> (r: Result<usize, LxError>)
        ensures
            r == Err::<usize, LxError>(LxError::ENOSYS),
    {
        Err(LxError::ENOSYS)
    }

    pub fn poll(&self) -> (s: PollStatus)
        ensures
            s == (PollStatus { read: true, write: true, error: false }),
    {
        PollStatus { read: true, write: true, error: false }
    }
}

/// A seek to the end tells the size of the buffer.
pub proof fn law_seek_end_is_size(size: usize)
    requires
        size <= i64::MAX,
    ensures
        buffer_seek(size, SeekFrom::End(0)) == Ok::<u64, LxError>(size as u64),
{
    let n = size as u64;
    assert(n <= 0x7fff_ffff_ffff_ffff ==> (n as i64) as u64 == n && (n as i64) >= 0) by (bit_vector);
}

/// A seek goes from the start or the end of the buffer; there is no position, so that one from the
/// position goes from the start. None goes before the start.
pub proof fn law_buffer_seeks(size: usize, n: u64, d: i64)
    requires
        size <= i64::MAX,
        n <= i64::MAX,
    ensures
        buffer_seek(size, SeekFrom::Start(n)) == Ok::<u64, LxError>(n),
        d >= 0 ==> buffer_seek(size, SeekFrom::Current(d)) == Ok::<u64, LxError>(d as u64),
        d < 0 ==> buffer_seek(size, SeekFrom::Current(d)) == Err::<u64, LxError>(LxError::EINVAL),
        size + d < 0 ==> buffer_seek(size, SeekFrom::End(d)) == Err::<u64, LxError>(LxError::EINVAL),
        size + d >= 0 ==> buffer_seek(size, SeekFrom::End(d)) == Ok::<u64, LxError>((size + d) as u64),
{
    crate::file::lemma_signed(n);
    crate::file::lemma_signed(size as u64);
}

} // verus!
