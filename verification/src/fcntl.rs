//! Numbers and flags of `fcntl(2)`.
use vstd::prelude::*;

verus! {

pub const F_LINUX_SPECIFIC_BASE: usize = 1024;

/// Commands of `fcntl(2)`.
#[derive(Clone, Copy, PartialEq, Eq, Structural, Debug)]
pub struct FcntlFlags {
    pub bits: usize,
}

pub const F_DUPFD: usize = 0;

pub const F_GETFD: usize = 1;

pub const F_SETFD: usize = 2;

pub const F_GETFL: usize = 3;

pub const F_SETFL: usize = 4;

pub const F_GETLK: usize = 5;

pub const F_SETLK: usize = 6;

pub const F_SETLKW: usize = 7;

/// The flag that closes a descriptor on exec.
pub const FD_CLOEXEC: usize = 1;

/// As `F_DUPFD`, and the new descriptor is closed on exec.
pub const F_DUPFD_CLOEXEC: usize = 1030;

/// Status flags of a file.
#[derive(Clone, Copy, PartialEq, Eq, Structural, Debug)]
pub struct FileFlags {
    pub bits: usize,
}

pub const FILE_O_NONBLOCK: usize = 0o4000;

pub const FILE_O_APPEND: usize = 0o2000;

pub const FILE_O_CLOEXEC: usize = 0o2000000;

/// All status flags that are known.
pub const FILE_O_ALL: usize = 0o2006000;

impl FileFlags {
    /// The known flags among some bits.
    pub fn from_bits_truncate(bits: usize) -> (f: FileFlags)
        ensures
            f.bits == bits & FILE_O_ALL,
    {
        FileFlags { bits: bits & FILE_O_ALL }
    }

    pub fn contains(self, flag: usize) -> (r: bool)
        ensures
            r == (self.bits & flag == flag),
    {
        self.bits & flag == flag
    }
}

} // verus!
