//! Open files: offsets, flags, blocking, and the page cache behind mappings.
use vstd::prelude::*;
use crate::bytes::copy_into;
use crate::device::{addressable, available, fits, round_up, Device};
use crate::error::{lx_of_fs, FsError, LxError};
use crate::flags::{
    has_flag, mode_reads, mode_writes, with_flag, OpenFlags, O_APPEND, O_CLOEXEC,
    O_NON_BLOCK,
};
use crate::vfs::{bare_node, node_metadata, FileType, Metadata, PollStatus};

verus! {

pub const PAGE_SIZE: usize = 4096;

/// Where a seek starts from.
#[derive(Clone, Copy, PartialEq, Eq, Structural, Debug)]
pub enum SeekFrom {
    Start(u64),
    End(i64),
    Current(i64),
}

/// The position and flags of an open file.
#[derive(Clone, Copy, PartialEq, Eq, Structural, Debug)]
pub struct FileInner {
    pub offset: u64,
    pub flags: OpenFlags,
}

/// A position as a signed number of 64 bits.
pub open spec fn signed(n: u64) -> int {
    (n as i64) as int
}

/// Where a seek leads; nothing where that is no position.
pub open spec fn seek_target(offset: u64, pos: SeekFrom, size: u64) -> Option<u64> {
    let at = match pos {
        SeekFrom::Start(n) => signed(n),
        SeekFrom::End(n) => signed(size) + n,
        SeekFrom::Current(n) => signed(offset) + n,
    };
    if 0 <= at <= i64::MAX {
        Some(at as u64)
    } else {
        None
    }
}

fn checked_target(base: i64, delta: i64) -> (r: Option<u64>)
    ensures
        r == (if 0 <= base + delta <= i64::MAX {
            Some((base + delta) as u64)
        } else {
            None::<u64>
        }),
{
    match base.checked_add(delta) {
        Some(n) => {
            if n < 0 {
                None
            } else {
                Some(n as u64)
            }
        },
        None => None,
    }
}

/// What a read of the file system means for a reader.
#[derive(Clone, Copy, PartialEq, Eq, Structural, Debug)]
pub enum ReadStep {
    Done(usize),
    /// Wait for the file to become ready, then read again.
    Wait,
    Failed(LxError),
}

/// What a read of the file system means for a reader that blocks or does not.
pub open spec fn read_outcome(bits: usize, result: Result<usize, FsError>) -> ReadStep {
    match result {
        Ok(n) => ReadStep::Done(n),
        Err(e) => if e == FsError::Again && !has_flag(bits, O_NON_BLOCK) {
            ReadStep::Wait
        } else {
            ReadStep::Failed(lx_of_fs(e))
        },
    }
}

/// The flags that a caller can change of an open file.
pub open spec fn changed_flags(bits: usize, to: usize) -> usize {
    with_flag(
        with_flag(
            with_flag(bits, O_APPEND, has_flag(to, O_APPEND)),
            O_NON_BLOCK,
            has_flag(to, O_NON_BLOCK),
        ),
        O_CLOEXEC,
        has_flag(to, O_CLOEXEC),
    )
}

impl FileInner {
    pub fn new(flags: OpenFlags) -> (f: Self)
        ensures
            f.offset == 0,
            f.flags == flags,
    {
        FileInner { offset: 0, flags }
    }

    /// Moves the position; `size` is the size of the file.
    pub fn seek(&mut self, pos: SeekFrom, size: u64) -> (r: Result<u64, LxError>)
        ensures
            match seek_target(old(self).offset, pos, size) {
                Some(n) => r == Ok::<u64, LxError>(n) && *final(self) == (FileInner {
                    offset: n,
                    ..*old(self)
                }),
                None => r == Err::<u64, LxError>(LxError::EINVAL) && *final(self) == *old(self),
            },
    {
        #[verifier::truncate]
        let size_signed: i64 = size as i64;
        #[verifier::truncate]
        let offset_signed: i64 = self.offset as i64;
        let target = match pos {
            SeekFrom::Start(n) => {
                #[verifier::truncate]
                let at: i64 = n as i64;
                checked_target(at, 0)
            },
            SeekFrom::End(n) => checked_target(size_signed, n),
            SeekFrom::Current(n) => checked_target(offset_signed, n),
        };
        match target {
            Some(n) => {
                self.offset = n;
                Ok(n)
            },
            None => Err(LxError::EINVAL),
        }
    }

    /// Where a write goes: to the end of a file that is appended to, else to the position. `size`
    /// is the size of the file, or why it is not known.
    pub fn write_offset(&self, size: Result<u64, FsError>) -> (r: Result<u64, LxError>)
        ensures
            r == write_target(*self, size),
    {
        let offset: u64 = if self.flags.is_append() {
            match size {
                Ok(n) => n,
                Err(e) => {
                    return Err(LxError::from(e));
                },
            }
        } else {
            self.offset
        };
        if !self.flags.writable() {
            return Err(LxError::EBADF);
        }
        Ok(offset)
    }

    /// Moves the position behind what was written; a write that failed leaves it.
    pub fn write_done(&mut self, offset: u64, result: Result<usize, FsError>) -> (r: Result<
        usize,
        LxError,
    >)
        requires
            result matches Ok(n) ==> offset + n <= u64::MAX,
        ensures
            match result {
                Ok(n) => r == Ok::<usize, LxError>(n) && *final(self) == moved_past(
                    *old(self),
                    offset,
                    n,
                ),
                Err(e) => r == Err::<usize, LxError>(lx_of_fs(e)) && *final(self) == *old(self),
            },
    {
        match result {
            Ok(n) => {
                self.offset = offset + n as u64;
                Ok(n)
            },
            Err(e) => Err(LxError::from(e)),
        }
    }

    /// Whether the file may be written at a given place.
    pub fn check_writable(&self) -> (r: Result<(), LxError>)
        ensures
            r == (if mode_writes(self.flags.bits) {
                Ok::<(), LxError>(())
            } else {
                Err(LxError::EBADF)
            }),
    {
        if self.flags.writable() {
            Ok(())
        } else {
            Err(LxError::EBADF)
        }
    }

    /// Whether the file may be read.
    pub fn check_readable(&self) -> (r: Result<(), LxError>)
        ensures
            r == (if mode_reads(self.flags.bits) {
                Ok::<(), LxError>(())
            } else {
                Err(LxError::EBADF)
            }),
    {
        if self.flags.readable() {
            Ok(())
        } else {
            Err(LxError::EBADF)
        }
    }

    /// What a read of the file system means for the reader.
    pub fn read_step(&self, result: Result<usize, FsError>) -> (s: ReadStep)
        ensures
            s == read_outcome(self.flags.bits, result),
    {
        match result {
            Ok(n) => ReadStep::Done(n),
            Err(e) => {
                if e == FsError::Again && !self.flags.non_block() {
                    ReadStep::Wait
                } else {
                    ReadStep::Failed(LxError::from(e))
                }
            },
        }
    }

    /// Moves the position behind what was read.
    pub fn read_done(&mut self, n: usize)
        requires
            old(self).offset + n <= u64::MAX,
        ensures
            *final(self) == moved_past(*old(self), old(self).offset, n),
    {
        self.offset = self.offset + n as u64;
    }

    /// Changes appending, blocking and closing on exec; the rest of the flags stays.
    pub fn set_flags(&mut self, f: OpenFlags)
        ensures
            final(self).offset == old(self).offset,
            final(self).flags.bits == changed_flags(old(self).flags.bits, f.bits),
    {
        self.flags.set(O_APPEND, f.contains(O_APPEND));
        self.flags.set(O_NON_BLOCK, f.contains(O_NON_BLOCK));
        self.flags.set(O_CLOEXEC, f.contains(O_CLOEXEC));
    }

    /// The next entry of a directory. `entry` is what the file system gave for the position;
    /// where it failed, `name` says whether the name alone can be had: such an entry stands with
    /// the metadata of a bare directory, and only a missing name ends the listing.
    pub fn read_entry_with_metadata(
        &mut self,
        entry: Result<Metadata, FsError>,
        name_known: bool,
    ) -> (r: Result<Metadata, LxError>)
        requires
            old(self).offset < u64::MAX,
        ensures
            r == entry_outcome(old(self).flags.bits, entry, name_known),
            *final(self) == (FileInner {
                offset: if r is Ok {
                    (old(self).offset + 1) as u64
                } else {
                    old(self).offset
                },
                ..*old(self)
            }),
    {
        if !self.flags.readable() {
            return Err(LxError::EBADF);
        }
        match entry {
            Ok(m) => {
                self.offset = self.offset + 1;
                Ok(m)
            },
            Err(e) => {
                if !name_known {
                    return Err(LxError::from(e));
                }
                self.offset = self.offset + 1;
                Ok(node_metadata(0, 0, FileType::Dir, 0, 0))
            },
        }
    }
}

/// What the next entry of a directory is.
pub open spec fn entry_outcome(
    bits: usize,
    entry: Result<Metadata, FsError>,
    name_known: bool,
) -> Result<Metadata, LxError> {
    if !mode_reads(bits) {
        Err(LxError::EBADF)
    } else {
        match entry {
            Ok(m) => Ok(m),
            Err(e) => if name_known {
                Ok(bare_node(0, 0, FileType::Dir, 0, 0))
            } else {
                Err(lx_of_fs(e))
            },
        }
    }
}

/// An open file: the path it was opened by, its position and its flags.
pub struct File {
    pub path: String,
    pub inner: FileInner,
}

impl File {
    pub fn new(flags: OpenFlags, path: String) -> (f: Self)
        ensures
            f.path == path,
            f.inner == (FileInner { offset: 0, flags }),
    {
        File { path, inner: FileInner::new(flags) }
    }

    pub fn path(&self) -> (p: &String)
        ensures
            *p == self.path,
    {
        &self.path
    }

    pub fn flags(&self) -> (f: OpenFlags)
        ensures
            f == self.inner.flags,
    {
        self.inner.flags
    }

    /// Moves the position. `size` is the size of the file, where it could be had; only a seek from
    /// the end needs it.
    pub fn seek(&mut self, pos: SeekFrom, size: Result<u64, FsError>) -> (r: Result<u64, LxError>)
        ensures
            final(self).path == old(self).path,
            r == sought(old(self).inner, pos, size).0,
            final(self).inner == sought(old(self).inner, pos, size).1,
    {
        match (pos, size) {
            (SeekFrom::End(_), Err(e)) => Err(LxError::from(e)),
            (_, Ok(n)) => self.inner.seek(pos, n),
            (_, Err(_)) => self.inner.seek(pos, 0),
        }
    }

    /// Whether the file may be cut or extended.
    pub fn set_len(&self) -> (r: Result<(), LxError>)
        ensures
            r == (if mode_writes(self.inner.flags.bits) {
                Ok::<(), LxError>(())
            } else {
                Err(LxError::EBADF)
            }),
    {
        self.inner.check_writable()
    }

    pub fn set_flags(&mut self, f: OpenFlags)
        ensures
            final(self).path == old(self).path,
            final(self).inner.offset == old(self).inner.offset,
            final(self).inner.flags.bits == changed_flags(old(self).inner.flags.bits, f.bits),
    {
        self.inner.set_flags(f);
    }

    /// The file once more, with a position of its own.
    pub fn dup(&self) -> (f: Self)
        ensures
            f.path@ == self.path@,
            f.inner == self.inner,
    {
        File { path: self.path.clone(), inner: self.inner }
    }
}

/// The readiness of a named pipe by its attributes; other files answer for themselves.
pub open spec fn fifo_status(meta: Option<Metadata>) -> Option<PollStatus> {
    match meta {
        Some(m) => if m.type_ == FileType::NamedPipe {
            Some(PollStatus { read: m.size > 0, write: true, error: false })
        } else {
            None
        },
        None => None,
    }
}

/// What a seek answers, and the file afterwards. The size matters to a seek from the end alone.
pub open spec fn sought(f: FileInner, pos: SeekFrom, size: Result<u64, FsError>) -> (
    Result<u64, LxError>,
    FileInner,
) {
    match (pos, size) {
        (SeekFrom::End(_), Err(e)) => (Err(lx_of_fs(e)), f),
        _ => match seek_target(
            f.offset,
            pos,
            if size is Ok {
                size->Ok_0
            } else {
                0
            },
        ) {
            Some(n) => (Ok(n), FileInner { offset: n, ..f }),
            None => (Err(LxError::EINVAL), f),
        },
    }
}

/// The readiness of a named pipe opened from the file system: readable when it holds bytes. Other
/// files answer for themselves.
pub fn poll_override(meta: Option<Metadata>) -> (r: Option<PollStatus>)
    ensures
        r == fifo_status(meta),
{
    match meta {
        Some(m) => {
            if m.type_ == FileType::NamedPipe {
                Some(PollStatus { read: m.size > 0, write: true, error: false })
            } else {
                None
            }
        },
        None => None,
    }
}

/// A position that a seek gave is where the next seek from the current position starts.
pub proof fn law_seek_roundtrip(offset: u64, pos: SeekFrom, size: u64)
    requires
        seek_target(offset, pos, size) is Some,
    ensures
        seek_target(seek_target(offset, pos, size)->0, SeekFrom::Current(0), size) == seek_target(
            offset,
            pos,
            size,
        ),
        seek_target(offset, SeekFrom::Start(seek_target(offset, pos, size)->0), size)
            == seek_target(offset, pos, size),
{
    let n = seek_target(offset, pos, size)->0;
    assert(n <= i64::MAX);
    lemma_signed(n);
}

pub proof fn lemma_signed(n: u64)
    requires
        n <= i64::MAX,
    ensures
        signed(n) == n,
{
    assert(n <= 0x7fff_ffff_ffff_ffff ==> (n as i64) as u64 == n && (n as i64) >= 0) by (bit_vector);
}

/// No seek gives a negative position.
pub proof fn law_seek_never_negative(offset: u64, pos: SeekFrom, size: u64)
    ensures
        seek_target(offset, pos, size) matches Some(n) ==> n <= i64::MAX,
{
}

/// Where a write goes.
pub open spec fn write_target(f: FileInner, size: Result<u64, FsError>) -> Result<u64, LxError> {
    if has_flag(f.flags.bits, O_APPEND) && size is Err {
        Err(lx_of_fs(size->Err_0))
    } else if !mode_writes(f.flags.bits) {
        Err(LxError::EBADF)
    } else if has_flag(f.flags.bits, O_APPEND) {
        Ok(size->Ok_0)
    } else {
        Ok(f.offset)
    }
}

/// Writes to a file that is appended to go to its end, wherever the position is.
pub proof fn law_append_at_end(f: FileInner, size: u64)
    requires
        has_flag(f.flags.bits, O_APPEND),
        mode_writes(f.flags.bits),
    ensures
        write_target(f, Ok(size)) == Ok::<u64, LxError>(size),
{
}

/// A file that was not opened for writing is never written.
pub proof fn law_read_only_never_written(f: FileInner, size: Result<u64, FsError>)
    requires
        !mode_writes(f.flags.bits),
    ensures
        write_target(f, size) is Err,
{
}

/// Reads a page of a mapped file. `file_offset` is where the mapping starts in the file and
/// `source_len` how many bytes of the file it covers. Reading goes on after a short read, up to the
/// end of the file; what lies behind the mapping, and what was not read, stays as it was.
pub fn fill_page<D: Device>(
    inode: &mut D,
    file_offset: usize,
    source_len: usize,
    offset: usize,
    buf: &mut [u8],
) -> (done: usize)
    requires
        old(inode).inv(),
        addressable(file_offset as int, source_len as int),
    ensures
        final(inode).inv(),
        final(inode).contents() == old(inode).contents(),
        final(buf)@.len() == old(buf)@.len(),
        done <= page_want(source_len as int, offset as int, old(buf)@.len() as int),
        forall|i: int|
            0 <= i < done && old(inode).sound_at(file_offset + offset + i) ==> #[trigger] final(buf)@[i] == old(inode).contents()[file_offset + offset + i],
        forall|i: int|
            done <= i < old(buf)@.len() ==> #[trigger] final(buf)@[i] == old(buf)@[i],
        old(inode).reliable() && file_offset + source_len <= old(inode).contents().len() ==> done
            == page_want(source_len as int, offset as int, old(buf)@.len() as int),
        old(inode).gives() && fits(
            old(inode).contents().len() as int,
            file_offset + offset,
            page_want(source_len as int, offset as int, old(buf)@.len() as int),
        ) ==> done == available(
            old(inode).contents().len() as int,
            file_offset + offset,
            page_want(source_len as int, offset as int, old(buf)@.len() as int),
        ),
{
    if offset >= source_len {
        return 0;
    }
    let left: usize = source_len - offset;
    let want: usize = if left < buf.len() {
        left
    } else {
        buf.len()
    };
    let ghost size = buf@.len();
    let ghost all = inode.contents();
    let ghost first = *inode;
    let ghost start = buf@;
    let mut done: usize = 0;
    proof {
        crate::device::lemma_round_up(file_offset + source_len);
    }
    let base: usize = file_offset + offset;
    while done < want
        invariant
            done <= want,
            want == page_want(source_len as int, offset as int, size as int),
            base == file_offset + offset,
            offset + want <= source_len,
            want <= size,
            buf@.len() == size,
            size == old(buf)@.len(),
            first == *old(inode),
            start == old(buf)@,
            inode.inv(),
            inode.contents() == all,
            all == first.contents(),
            inode.reliable() == first.reliable(),
            inode.gives() == first.gives(),
            done > 0 ==> base + done <= all.len(),
            addressable(file_offset as int, source_len as int),
            forall|i: int| first.sound_at(i) ==> #[trigger] inode.sound_at(i),
            forall|i: int|
                0 <= i < done && first.sound_at(base + i) ==> #[trigger] buf@[i] == all[base + i],
            forall|i: int| done <= i < size ==> #[trigger] buf@[i] == start[i],
        ensures
            first.reliable() && file_offset + source_len <= all.len() ==> done == want,
            first.gives() && fits(all.len() as int, base as int, want as int) ==> done == available(
                all.len() as int,
                base as int,
                want as int,
            ),
        decreases want - done,
    {
        proof {
            crate::device::lemma_round_up(file_offset + source_len);
            crate::device::lemma_round_up_le(base + want, round_up(file_offset + source_len));
            crate::device::lemma_round_up(all.len() as int);
            crate::device::lemma_round_up_le(base + want, round_up(all.len() as int));
            assert(addressable(base + done, want - done));
        }
        let ghost before = *inode;
        let ghost bytes = buf@;
        let room: usize = want - done;
        let mut piece: Vec<u8> = vec![0u8; room];
        let r = inode.read_at(base + done, piece.as_mut_slice());
        proof {
            if file_offset + source_len <= all.len() || fits(
                all.len() as int,
                base as int,
                want as int,
            ) {
                assert(fits(all.len() as int, base + done, want - done));
            }
        }
        match r {
            Ok(n) => {
                if n == 0 {
                    break;
                }
                copy_into(buf, done, &piece.as_slice()[0..n]);
                proof {
                    assert forall|i: int|
                        0 <= i < done + n && first.sound_at(base + i) implies #[trigger] buf@[i]
                        == all[base + i] by {
                        if i < done {
                            assert(buf@[i] == bytes[i]);
                        } else {
                            assert(before.sound_at(base + i));
                            assert(buf@[i] == piece@[i - done]);
                            assert(base + done + (i - done) == base + i);
                        }
                    }
                }
                done = done + n;
            },
            Err(_) => {
                break;
            },
        }
    }
    done
}

/// How many bytes of a page the file has.
pub open spec fn page_want(source_len: int, offset: int, len: int) -> int {
    if offset >= source_len {
        0
    } else if source_len - offset < len {
        source_len - offset
    } else {
        len
    }
}

/// An open file whose position has gone past the bytes from an offset on.
pub open spec fn moved_past(f: FileInner, offset: u64, n: usize) -> FileInner {
    FileInner { offset: (offset + n) as u64, ..f }
}

/// A seek from the start, the end or the position goes as far as asked, where the place that it gives
/// is neither before the start nor past what a signed position can say, and fails otherwise.
pub proof fn law_seek_places(offset: u64, size: u64, n: u64, d: i64)
    requires
        offset <= i64::MAX,
        size <= i64::MAX,
    ensures
        n <= i64::MAX ==> seek_target(offset, SeekFrom::Start(n), size) == Some(n),
        n > i64::MAX ==> seek_target(offset, SeekFrom::Start(n), size) is None,
        seek_target(offset, SeekFrom::End(d), size) matches Some(p) ==> p == size + d,
        seek_target(offset, SeekFrom::Current(d), size) matches Some(p) ==> p == offset + d,
        seek_target(offset, SeekFrom::End(d), size) is None <==> size + d < 0 || size + d
            > 0x7fff_ffff_ffff_ffff,
        seek_target(offset, SeekFrom::Current(d), size) is None <==> offset + d < 0 || offset + d
            > 0x7fff_ffff_ffff_ffff,
{
    lemma_signed(offset);
    lemma_signed(size);
    if n <= i64::MAX {
        lemma_signed(n);
    } else {
        assert(n > 0x7fff_ffff_ffff_ffff ==> (n as i64) < 0) by (bit_vector);
    }
}

/// Where a write goes: to the end of a file opened for appending, and otherwise to the position; what
/// follows a write goes where that write ended.
pub proof fn law_writes_in_sequence(f: FileInner, size: u64, n: usize)
    requires
        f.flags.bits & 3 == 1 || f.flags.bits & 3 == 2,
        f.offset + n <= u64::MAX,
    ensures
        f.flags.bits & 0x400 != 0x400 ==> write_target(f, Ok(size)) == Ok::<u64, LxError>(f.offset),
        f.flags.bits & 0x400 == 0x400 ==> write_target(f, Ok(size)) == Ok::<u64, LxError>(size),
        f.flags.bits & 0x400 != 0x400 ==> write_target(moved_past(f, f.offset, n), Ok(size)) == Ok::<
            u64,
            LxError,
        >((f.offset + n) as u64),
        moved_past(f, f.offset, n).flags == f.flags,
{
}

/// A write to a file that was not opened for writing is refused; the size of a file opened for
/// appending is asked for first, and matters to no other.
pub proof fn law_write_refused(f: FileInner, size: Result<u64, FsError>)
    ensures
        size is Ok || f.flags.bits & 0x400 != 0x400 ==> (write_target(f, size) == Err::<u64, LxError>(
            LxError::EBADF,
        ) <==> f.flags.bits & 3 != 1 && f.flags.bits & 3 != 2),
        f.flags.bits & 0x400 == 0x400 ==> (size matches Err(e) ==> write_target(f, size) == Err::<
            u64,
            LxError,
        >(lx_of_fs(e))),
{
}

/// A read that finds nothing yet waits, unless the file is not to block; whatever else comes back ends
/// the read.
pub proof fn law_read_ends(bits: usize, result: Result<usize, FsError>)
    ensures
        read_outcome(bits, result) is Wait <==> result == Err::<usize, FsError>(FsError::Again)
            && bits & 0x800 != 0x800,
        result matches Ok(n) ==> read_outcome(bits, result) == ReadStep::Done(n),
        result matches Err(e) ==> read_outcome(bits, result) is Wait || read_outcome(bits, result)
            == ReadStep::Failed(lx_of_fs(e)),
{
}

/// Setting the flags of an open file sets appending, not blocking and closing on exec as given, and
/// leaves every other flag as it is.
pub proof fn law_settable_flags(bits: usize, to: usize)
    ensures
        changed_flags(bits, to) & 0x8_0c00 == to & 0x8_0c00,
        changed_flags(bits, to) & !0x8_0c00usize == bits & !0x8_0c00usize,
{
    let a = if to & 0x400 == 0x400 {
        bits | 0x400
    } else {
        bits & !0x400usize
    };
    let b = if to & 0x800 == 0x800 {
        a | 0x800
    } else {
        a & !0x800usize
    };
    let c = if to & 0x8_0000 == 0x8_0000 {
        b | 0x8_0000
    } else {
        b & !0x8_0000usize
    };
    assert(c & 0x8_0c00 == to & 0x8_0c00 && c & !0x8_0c00usize == bits & !0x8_0c00usize)
        by (bit_vector)
        requires
            a == (if to & 0x400 == 0x400 {
                bits | 0x400
            } else {
                bits & !0x400usize
            }),
            b == (if to & 0x800 == 0x800 {
                a | 0x800
            } else {
                a & !0x800usize
            }),
            c == (if to & 0x8_0000 == 0x8_0000 {
                b | 0x8_0000
            } else {
                b & !0x8_0000usize
            }),
    ;
}

/// What is read of a file for a page stays within the page and the part that is mapped, and stops short
/// of neither.
pub proof fn law_page_filled(source_len: int, offset: int, len: int)
    requires
        0 <= offset,
        0 <= len,
    ensures
        0 <= page_want(source_len, offset, len) <= len,
        offset + page_want(source_len, offset, len) <= source_len || page_want(
            source_len,
            offset,
            len,
        ) == 0,
        page_want(source_len, offset, len) == len || offset + page_want(source_len, offset, len)
            >= source_len,
{
}

/// An entry of a directory is read where the file is open for reading; one whose attributes cannot be
/// had is still listed where its name is known.
pub proof fn law_entries_read(bits: usize, entry: Result<Metadata, FsError>, name_known: bool)
    ensures
        bits & 3 != 0 && bits & 3 != 2 ==> entry_outcome(bits, entry, name_known) == Err::<
            Metadata,
            LxError,
        >(LxError::EBADF),
        bits & 3 == 0 || bits & 3 == 2 ==> {
            &&& entry matches Ok(m) ==> entry_outcome(bits, entry, name_known) == Ok::<
                Metadata,
                LxError,
            >(m)
            &&& entry is Err ==> (entry_outcome(bits, entry, name_known) is Ok <==> name_known)
            &&& !name_known ==> (entry matches Err(e) ==> entry_outcome(bits, entry, name_known)
                == Err::<Metadata, LxError>(lx_of_fs(e)))
        },
{
}

/// Only a named pipe is answered for here: it can always be written, and can be read exactly where it
/// holds bytes.
pub proof fn law_pipe_by_attributes(meta: Option<Metadata>)
    ensures
        fifo_status(meta) is Some <==> meta is Some && meta->0.type_ is NamedPipe,
        fifo_status(meta) matches Some(p) ==> p.write && !p.error && (p.read <==> meta->0.size != 0),
{
}

/// A seek that succeeds answers the place at which the file then stands, and changes nothing else;
/// one that fails leaves the file where it was. A size that could not be had matters to a seek from
/// the end alone, and is then told.
pub proof fn law_seek_answers(f: FileInner, pos: SeekFrom, size: Result<u64, FsError>)
    requires
        f.offset <= i64::MAX,
        size matches Ok(n) ==> n <= i64::MAX,
    ensures
        sought(f, pos, size).0 matches Ok(n) ==> sought(f, pos, size).1.offset == n,
        sought(f, pos, size).0 is Err ==> sought(f, pos, size).1 == f,
        sought(f, pos, size).1 == (FileInner { offset: sought(f, pos, size).1.offset, ..f }),
        pos matches SeekFrom::Start(n) ==> (n <= i64::MAX ==> sought(f, pos, size).0 == Ok::<
            u64,
            LxError,
        >(n)),
        pos matches SeekFrom::Current(d) ==> (0 <= f.offset + d <= i64::MAX ==> sought(f, pos, size).0
            == Ok::<u64, LxError>((f.offset + d) as u64)),
        pos matches SeekFrom::Current(d) ==> (f.offset + d < 0 ==> sought(f, pos, size).0 == Err::<
            u64,
            LxError,
        >(LxError::EINVAL)),
        pos matches SeekFrom::End(d) ==> (size matches Err(e) ==> sought(f, pos, size).0 == Err::<
            u64,
            LxError,
        >(lx_of_fs(e))),
        pos matches SeekFrom::End(d) ==> (size matches Ok(n) ==> (0 <= n + d <= i64::MAX ==> sought(
            f,
            pos,
            size,
        ).0 == Ok::<u64, LxError>((n + d) as u64))),
        !(pos is End) ==> sought(f, pos, size) == sought(f, pos, Ok(0)),
{
    match pos {
        SeekFrom::Start(n) => law_seek_places(f.offset, 0, n, 0),
        SeekFrom::Current(d) => law_seek_places(f.offset, 0, 0, d),
        SeekFrom::End(d) => if size is Ok {
            law_seek_places(f.offset, size->Ok_0, 0, d)
        },
    }
}

} // verus!
