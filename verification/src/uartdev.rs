//! The character device of a serial port.
use vstd::prelude::*;
use crate::device::DeviceError;
use crate::error::{convert_error, fs_of_device, FsError};
use crate::vfs::{node_metadata, FileType, Metadata, PollStatus};

verus! {

/// The major number of terminal nodes.
pub const TTY_MAJOR: usize = 4;

/// What a transfer does next.
#[derive(Clone, Copy, PartialEq, Eq, Structural, Debug)]
pub enum UartStep {
    /// Go on: so many bytes are done.
    More(usize),
    Done(usize),
    Failed(FsError),
}

/// A serial port's node.
pub struct UartDev {
    pub index: usize,
    pub inode_id: usize,
}

/// What a read does after the port gave a byte, none, or failed.
pub open spec fn read_next(room: int, len: int, got: Result<Option<u8>, DeviceError>) -> UartStep {
    match got {
        Err(e) => UartStep::Failed(fs_of_device(e)),
        Ok(None) => UartStep::Done(len as usize),
        Ok(Some(_)) => if len + 1 < room {
            UartStep::More((len + 1) as usize)
        } else {
            UartStep::Done((len + 1) as usize)
        },
    }
}

impl UartDev {
    pub fn new(index: usize, inode_id: usize) -> (d: Self)
        ensures
            d.index == index,
            d.inode_id == inode_id,
    {
        UartDev { index, inode_id }
    }

    /// Starts a transfer: one of nothing is done at once.
    pub fn start(&self, room: usize) -> (s: UartStep)
        ensures
            s == (if room == 0 {
                UartStep::Done(0)
            } else {
                UartStep::More(0)
            }),
    {
        if room == 0 {
            UartStep::Done(0)
        } else {
            UartStep::More(0)
        }
    }

    /// Takes in what the port gave, where `len` bytes were read before. A read ends when the port
    /// has nothing more.
    pub fn read_step(
        &self,
        buf: &mut [u8],
        len: usize,
        got: Result<Option<u8>, DeviceError>,
    ) -> (s: UartStep)
        requires
            len < old(buf)@.len(),
        ensures
            s == read_next(old(buf)@.len() as int, len as int, got),
            final(buf)@ == (match got {
                Ok(Some(b)) => old(buf)@.update(len as int, b),
                _ => old(buf)@,
            }),
    {
        match got {
            Err(e) => UartStep::Failed(convert_error(e)),
            Ok(None) => UartStep::Done(len),
            Ok(Some(b)) => {
                buf[len] = b;
                let room: usize = buf.len();
                if len + 1 < room {
                    UartStep::More(len + 1)
                } else {
                    UartStep::Done(len + 1)
                }
            },
        }
    }

    /// Goes on after byte `len` of `total` was sent, or not.
    pub fn write_step(&self, total: usize, len: usize, sent: Result<(), DeviceError>) -> (s: UartStep)
        requires
            len < total,
        ensures
            s == write_next(total as int, len as int, sent),
    {
        match sent {
            Err(e) => UartStep::Failed(convert_error(e)),
            Ok(_) => {
                if len + 1 < total {
                    UartStep::More(len + 1)
                } else {
                    UartStep::Done(total)
                }
            },
        }
    }

    pub fn poll(&self) -> (s: PollStatus)
        ensures
            s == (PollStatus { read: true, write: false, error: false }),
    {
        PollStatus { read: true, write: false, error: false }
    }

    /// No request does anything.
    pub fn io_control(&self, cmd: u32) -> (r: Result<usize, FsError>)
        ensures
            r == Ok::<usize, FsError>(0),
    {
        Ok(0)
    }

    /// The minor number of the node.
    pub fn minor(&self) -> (n: usize)
        ensures
            n == self.index,
    {
        self.index
    }

    /// Metadata of the node, whose number is made of its major and minor number.
    pub fn metadata<F: Fn(usize, usize) -> usize>(&self, make_rdev: F) -> (m: Metadata)
        requires
            make_rdev.requires((TTY_MAJOR, self.index)),
        ensures
            make_rdev.ensures((TTY_MAJOR, self.index), m.rdev),
            m == crate::vfs::bare_node(1, self.inode_id, FileType::CharDevice, 0o600, m.rdev),
    {
        node_metadata(1, self.inode_id, FileType::CharDevice, 0o600, make_rdev(TTY_MAJOR, self.index))
    }
}

/// A read that goes on has stored exactly what the port gave so far: each step adds the next byte.
pub proof fn law_read_in_order(
    before: Seq<u8>,
    room: int,
    len: int,
    b: u8,
)
    requires
        0 <= len < room == before.len(),
        room <= usize::MAX,
    ensures
        before.update(len, b).take(len + 1) == before.take(len).push(b),
        read_next(room, len, Ok(Some(b))) == UartStep::More((len + 1) as usize) || read_next(
            room,
            len,
            Ok(Some(b)),
        ) == UartStep::Done((len + 1) as usize),
{
    assert(before.update(len, b).take(len + 1) =~= before.take(len).push(b));
}

/// What follows after one byte of a write.
pub open spec fn write_next(total: int, len: int, sent: Result<(), DeviceError>) -> UartStep {
    match sent {
        Err(e) => UartStep::Failed(fs_of_device(e)),
        Ok(_) => if len + 1 < total {
            UartStep::More((len + 1) as usize)
        } else {
            UartStep::Done(total as usize)
        },
    }
}

/// A read goes on while there is room and bytes come; it ends with what came when none does, and fails
/// with the line.
pub proof fn law_line_read(room: int, len: int, b: u8, e: DeviceError)
    requires
        0 <= len < room <= usize::MAX,
    ensures
        len + 1 < room ==> (read_next(room, len, Ok(Some(b))) matches UartStep::More(n) && n == len + 1),
        len + 1 == room ==> (read_next(room, len, Ok(Some(b))) matches UartStep::Done(n) && n == room),
        read_next(room, len, Ok(None)) matches UartStep::Done(n) && n == len,
        read_next(room, len, Err(e)) == UartStep::Failed(fs_of_device(e)),
{
}

/// A write sends every byte, one after the other, or fails with the line.
pub proof fn law_line_written(total: int, len: int, e: DeviceError)
    requires
        0 <= len < total <= usize::MAX,
    ensures
        len + 1 < total ==> (write_next(total, len, Ok(())) matches UartStep::More(n) && n == len + 1),
        len + 1 == total ==> (write_next(total, len, Ok(())) matches UartStep::Done(n) && n == total),
        write_next(total, len, Err(e)) == UartStep::Failed(fs_of_device(e)),
{
}

} // verus!
