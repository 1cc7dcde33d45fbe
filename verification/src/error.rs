//! Linux error codes and the conversions into them.
use vstd::prelude::*;

verus! {

/// Result of a Linux-facing operation.
pub type LxResult<T> = Result<T, LxError>;

/// Result of a system call.
pub type SysResult = Result<usize, LxError>;

/// Linux error codes.
#[derive(Clone, Copy, PartialEq, Eq, Structural, Debug)]
pub enum LxError {
    /// Undefined
    EUNDEF,
    /// Operation not permitted
    EPERM,
    /// No such file or directory
    ENOENT,
    /// No such process
    ESRCH,
    /// Interrupted system call
    EINTR,
    /// I/O error
    EIO,
    /// No such device or address
    ENXIO,
    /// Arg list too long
    E2BIG,
    /// Exec format error
    ENOEXEC,
    /// Bad file number
    EBADF,
    /// No child processes
    ECHILD,
    /// Try again
    EAGAIN,
    /// Out of memory
    ENOMEM,
    /// Permission denied
    EACCES,
    /// Bad address
    EFAULT,
    /// Block device required
    ENOTBLK,
    /// Device or resource busy
    EBUSY,
    /// File exists
    EEXIST,
    /// Cross-device link
    EXDEV,
    /// No such device
    ENODEV,
    /// Not a directory
    ENOTDIR,
    /// Is a directory
    EISDIR,
    /// Invalid argument
    EINVAL,
    /// File table overflow
    ENFILE,
    /// Too many open files
    EMFILE,
    /// Not a tty device
    ENOTTY,
    /// Text file busy
    ETXTBSY,
    /// File too large
    EFBIG,
    /// No space left on device
    ENOSPC,
    /// Illegal seek
    ESPIPE,
    /// Read-only file system
    EROFS,
    /// Too many links
    EMLINK,
    /// Broken pipe
    EPIPE,
    /// Math argument out of domain
    EDOM,
    /// Math result not representable
    ERANGE,
    /// Resource deadlock would occur
    EDEADLK,
    /// Filename too long
    ENAMETOOLONG,
    /// No record locks available
    ENOLCK,
    /// Function not implemented
    ENOSYS,
    /// Directory not empty
    ENOTEMPTY,
    /// Too many symbolic links encountered
    ELOOP,
    /// Identifier removed
    EIDRM,
    /// Socket operation on non-socket
    ENOTSOCK,
    /// Protocol not available
    ENOPROTOOPT,
    /// Protocol family not supported
    EPFNOSUPPORT,
    /// Address family not supported by protocol
    EAFNOSUPPORT,
    /// No buffer space available
    ENOBUFS,
    /// Transport endpoint is already connected
    EISCONN,
    /// Transport endpoint is not connected
    ENOTCONN,
    /// Connection timeout
    ETIMEDOUT,
    /// Connection refused
    ECONNREFUSED,
}

/// The number user space sees for an error.
pub open spec fn errno_of(e: LxError) -> isize {
    match e {
        LxError::EUNDEF => 0,
        LxError::EPERM => 1,
        LxError::ENOENT => 2,
        LxError::ESRCH => 3,
        LxError::EINTR => 4,
        LxError::EIO => 5,
        LxError::ENXIO => 6,
        LxError::E2BIG => 7,
        LxError::ENOEXEC => 8,
        LxError::EBADF => 9,
        LxError::ECHILD => 10,
        LxError::EAGAIN => 11,
        LxError::ENOMEM => 12,
        LxError::EACCES => 13,
        LxError::EFAULT => 14,
        LxError::ENOTBLK => 15,
        LxError::EBUSY => 16,
        LxError::EEXIST => 17,
        LxError::EXDEV => 18,
        LxError::ENODEV => 19,
        LxError::ENOTDIR => 20,
        LxError::EISDIR => 21,
        LxError::EINVAL => 22,
        LxError::ENFILE => 23,
        LxError::EMFILE => 24,
        LxError::ENOTTY => 25,
        LxError::ETXTBSY => 26,
        LxError::EFBIG => 27,
        LxError::ENOSPC => 28,
        LxError::ESPIPE => 29,
        LxError::EROFS => 30,
        LxError::EMLINK => 31,
        LxError::EPIPE => 32,
        LxError::EDOM => 33,
        LxError::ERANGE => 34,
        LxError::EDEADLK => 35,
        LxError::ENAMETOOLONG => 36,
        LxError::ENOLCK => 37,
        LxError::ENOSYS => 38,
        LxError::ENOTEMPTY => 39,
        LxError::ELOOP => 40,
        LxError::EIDRM => 43,
        LxError::ENOTSOCK => 88,
        LxError::ENOPROTOOPT => 92,
        LxError::EPFNOSUPPORT => 96,
        LxError::EAFNOSUPPORT => 97,
        LxError::ENOBUFS => 105,
        LxError::EISCONN => 106,
        LxError::ENOTCONN => 107,
        LxError::ETIMEDOUT => 110,
        LxError::ECONNREFUSED => 111,
    }
}

/// The explanation printed for an error.
pub open spec fn explanation_of(e: LxError) -> Seq<char> {
    match e {
        LxError::EPERM => "Operation not permitted"@,
        LxError::ENOENT => "No such file or directory"@,
        LxError::ESRCH => "No such process"@,
        LxError::EINTR => "Interrupted system call"@,
        LxError::EIO => "I/O error"@,
        LxError::ENXIO => "No such device or address"@,
        LxError::E2BIG => "Argument list too long"@,
        LxError::ENOEXEC => "Exec format error"@,
        LxError::EBADF => "Bad file number"@,
        LxError::ECHILD => "No child processes"@,
        LxError::EAGAIN => "Try again"@,
        LxError::ENOMEM => "Out of memory"@,
        LxError::EACCES => "Permission denied"@,
        LxError::EFAULT => "Bad address"@,
        LxError::ENOTBLK => "Block device required"@,
        LxError::EBUSY => "Device or resource busy"@,
        LxError::EEXIST => "File exists"@,
        LxError::EXDEV => "Cross-device link"@,
        LxError::ENODEV => "No such device"@,
        LxError::ENOTDIR => "Not a directory"@,
        LxError::EISDIR => "Is a directory"@,
        LxError::EINVAL => "Invalid argument"@,
        LxError::ENFILE => "File table overflow"@,
        LxError::EMFILE => "Too many open files"@,
        LxError::ENOTTY => "Not a typewriter"@,
        LxError::ETXTBSY => "Text file busy"@,
        LxError::EFBIG => "File too large"@,
        LxError::ENOSPC => "No space left on device"@,
        LxError::ESPIPE => "Illegal seek"@,
        LxError::EROFS => "Read-only file system"@,
        LxError::EMLINK => "Too many links"@,
        LxError::EPIPE => "Broken pipe"@,
        LxError::EDOM => "Math argument out of domain of func"@,
        LxError::ERANGE => "Math result not representable"@,
        LxError::EDEADLK => "Resource deadlock would occur"@,
        LxError::ENAMETOOLONG => "File name too long"@,
        LxError::ENOLCK => "No record locks available"@,
        LxError::ENOSYS => "Function not implemented"@,
        LxError::ENOTEMPTY => "Directory not empty"@,
        LxError::ELOOP => "Too many symbolic links encountered"@,
        LxError::EIDRM => "Identifier removed"@,
        LxError::ENOTSOCK => "Socket operation on non-socket"@,
        LxError::ENOPROTOOPT => "Protocol not available"@,
        LxError::EPFNOSUPPORT => "Protocol family not supported"@,
        LxError::EAFNOSUPPORT => "Address family not supported by protocol"@,
        LxError::ENOBUFS => "No buffer space available"@,
        LxError::EISCONN => "Transport endpoint is already connected"@,
        LxError::ENOTCONN => "Transport endpoint is not connected"@,
        LxError::ETIMEDOUT => "Connection timeout"@,
        LxError::ECONNREFUSED => "Connection refused"@,
        LxError::EUNDEF => "Unknown error"@,
    }
}

impl LxError {
    /// The number of the error.
    pub fn errno(self) -> (n: isize)
        ensures
            n == errno_of(self),
    {
        match self {
            LxError::EUNDEF => 0,
            LxError::EPERM => 1,
            LxError::ENOENT => 2,
            LxError::ESRCH => 3,
            LxError::EINTR => 4,
            LxError::EIO => 5,
            LxError::ENXIO => 6,
            LxError::E2BIG => 7,
            LxError::ENOEXEC => 8,
            LxError::EBADF => 9,
            LxError::ECHILD => 10,
            LxError::EAGAIN => 11,
            LxError::ENOMEM => 12,
            LxError::EACCES => 13,
            LxError::EFAULT => 14,
            LxError::ENOTBLK => 15,
            LxError::EBUSY => 16,
            LxError::EEXIST => 17,
            LxError::EXDEV => 18,
            LxError::ENODEV => 19,
            LxError::ENOTDIR => 20,
            LxError::EISDIR => 21,
            LxError::EINVAL => 22,
            LxError::ENFILE => 23,
            LxError::EMFILE => 24,
            LxError::ENOTTY => 25,
            LxError::ETXTBSY => 26,
            LxError::EFBIG => 27,
            LxError::ENOSPC => 28,
            LxError::ESPIPE => 29,
            LxError::EROFS => 30,
            LxError::EMLINK => 31,
            LxError::EPIPE => 32,
            LxError::EDOM => 33,
            LxError::ERANGE => 34,
            LxError::EDEADLK => 35,
            LxError::ENAMETOOLONG => 36,
            LxError::ENOLCK => 37,
            LxError::ENOSYS => 38,
            LxError::ENOTEMPTY => 39,
            LxError::ELOOP => 40,
            LxError::EIDRM => 43,
            LxError::ENOTSOCK => 88,
            LxError::ENOPROTOOPT => 92,
            LxError::EPFNOSUPPORT => 96,
            LxError::EAFNOSUPPORT => 97,
            LxError::ENOBUFS => 105,
            LxError::EISCONN => 106,
            LxError::ENOTCONN => 107,
            LxError::ETIMEDOUT => 110,
            LxError::ECONNREFUSED => 111,
        }
    }

    /// The text of the error.
    pub fn explain(self) -> (s: &'static str)
        ensures
            s@ == explanation_of(self),
    {
        match self {
            LxError::EPERM => "Operation not permitted",
            LxError::ENOENT => "No such file or directory",
            LxError::ESRCH => "No such process",
            LxError::EINTR => "Interrupted system call",
            LxError::EIO => "I/O error",
            LxError::ENXIO => "No such device or address",
            LxError::E2BIG => "Argument list too long",
            LxError::ENOEXEC => "Exec format error",
            LxError::EBADF => "Bad file number",
            LxError::ECHILD => "No child processes",
            LxError::EAGAIN => "Try again",
            LxError::ENOMEM => "Out of memory",
            LxError::EACCES => "Permission denied",
            LxError::EFAULT => "Bad address",
            LxError::ENOTBLK => "Block device required",
            LxError::EBUSY => "Device or resource busy",
            LxError::EEXIST => "File exists",
            LxError::EXDEV => "Cross-device link",
            LxError::ENODEV => "No such device",
            LxError::ENOTDIR => "Not a directory",
            LxError::EISDIR => "Is a directory",
            LxError::EINVAL => "Invalid argument",
            LxError::ENFILE => "File table overflow",
            LxError::EMFILE => "Too many open files",
            LxError::ENOTTY => "Not a typewriter",
            LxError::ETXTBSY => "Text file busy",
            LxError::EFBIG => "File too large",
            LxError::ENOSPC => "No space left on device",
            LxError::ESPIPE => "Illegal seek",
            LxError::EROFS => "Read-only file system",
            LxError::EMLINK => "Too many links",
            LxError::EPIPE => "Broken pipe",
            LxError::EDOM => "Math argument out of domain of func",
            LxError::ERANGE => "Math result not representable",
            LxError::EDEADLK => "Resource deadlock would occur",
            LxError::ENAMETOOLONG => "File name too long",
            LxError::ENOLCK => "No record locks available",
            LxError::ENOSYS => "Function not implemented",
            LxError::ENOTEMPTY => "Directory not empty",
            LxError::ELOOP => "Too many symbolic links encountered",
            LxError::EIDRM => "Identifier removed",
            LxError::ENOTSOCK => "Socket operation on non-socket",
            LxError::ENOPROTOOPT => "Protocol not available",
            LxError::EPFNOSUPPORT => "Protocol family not supported",
            LxError::EAFNOSUPPORT => "Address family not supported by protocol",
            LxError::ENOBUFS => "No buffer space available",
            LxError::EISCONN => "Transport endpoint is already connected",
            LxError::ENOTCONN => "Transport endpoint is not connected",
            LxError::ETIMEDOUT => "Connection timeout",
            LxError::ECONNREFUSED => "Connection refused",
            LxError::EUNDEF => "Unknown error",
        }
    }
}

/// Every error but the undefined one has a text of its own kind.
pub proof fn law_errors_explained(e: LxError)
    requires
        e != LxError::EUNDEF,
    ensures
        explanation_of(e) != "Unknown error"@,
        explanation_of(e).len() > 0,
{
    reveal_strlit("Unknown error");
    assert("Unknown error"@[0] == 'U');
    match e {
        LxError::EPERM => {
            reveal_strlit("Operation not permitted");
        },
        LxError::ENOENT => {
            reveal_strlit("No such file or directory");
        },
        LxError::ESRCH => {
            reveal_strlit("No such process");
        },
        LxError::EINTR => {
            reveal_strlit("Interrupted system call");
        },
        LxError::EIO => {
            reveal_strlit("I/O error");
        },
        LxError::ENXIO => {
            reveal_strlit("No such device or address");
        },
        LxError::E2BIG => {
            reveal_strlit("Argument list too long");
        },
        LxError::ENOEXEC => {
            reveal_strlit("Exec format error");
        },
        LxError::EBADF => {
            reveal_strlit("Bad file number");
        },
        LxError::ECHILD => {
            reveal_strlit("No child processes");
        },
        LxError::EAGAIN => {
            reveal_strlit("Try again");
        },
        LxError::ENOMEM => {
            reveal_strlit("Out of memory");
        },
        LxError::EACCES => {
            reveal_strlit("Permission denied");
        },
        LxError::EFAULT => {
            reveal_strlit("Bad address");
        },
        LxError::ENOTBLK => {
            reveal_strlit("Block device required");
        },
        LxError::EBUSY => {
            reveal_strlit("Device or resource busy");
        },
        LxError::EEXIST => {
            reveal_strlit("File exists");
        },
        LxError::EXDEV => {
            reveal_strlit("Cross-device link");
        },
        LxError::ENODEV => {
            reveal_strlit("No such device");
        },
        LxError::ENOTDIR => {
            reveal_strlit("Not a directory");
        },
        LxError::EISDIR => {
            reveal_strlit("Is a directory");
        },
        LxError::EINVAL => {
            reveal_strlit("Invalid argument");
        },
        LxError::ENFILE => {
            reveal_strlit("File table overflow");
        },
        LxError::EMFILE => {
            reveal_strlit("Too many open files");
        },
        LxError::ENOTTY => {
            reveal_strlit("Not a typewriter");
        },
        LxError::ETXTBSY => {
            reveal_strlit("Text file busy");
        },
        LxError::EFBIG => {
            reveal_strlit("File too large");
        },
        LxError::ENOSPC => {
            reveal_strlit("No space left on device");
        },
        LxError::ESPIPE => {
            reveal_strlit("Illegal seek");
        },
        LxError::EROFS => {
            reveal_strlit("Read-only file system");
        },
        LxError::EMLINK => {
            reveal_strlit("Too many links");
        },
        LxError::EPIPE => {
            reveal_strlit("Broken pipe");
        },
        LxError::EDOM => {
            reveal_strlit("Math argument out of domain of func");
        },
        LxError::ERANGE => {
            reveal_strlit("Math result not representable");
        },
        LxError::EDEADLK => {
            reveal_strlit("Resource deadlock would occur");
        },
        LxError::ENAMETOOLONG => {
            reveal_strlit("File name too long");
        },
        LxError::ENOLCK => {
            reveal_strlit("No record locks available");
        },
        LxError::ENOSYS => {
            reveal_strlit("Function not implemented");
        },
        LxError::ENOTEMPTY => {
            reveal_strlit("Directory not empty");
        },
        LxError::ELOOP => {
            reveal_strlit("Too many symbolic links encountered");
        },
        LxError::EIDRM => {
            reveal_strlit("Identifier removed");
        },
        LxError::ENOTSOCK => {
            reveal_strlit("Socket operation on non-socket");
        },
        LxError::ENOPROTOOPT => {
            reveal_strlit("Protocol not available");
        },
        LxError::EPFNOSUPPORT => {
            reveal_strlit("Protocol family not supported");
        },
        LxError::EAFNOSUPPORT => {
            reveal_strlit("Address family not supported by protocol");
        },
        LxError::ENOBUFS => {
            reveal_strlit("No buffer space available");
        },
        LxError::EISCONN => {
            reveal_strlit("Transport endpoint is already connected");
        },
        LxError::ENOTCONN => {
            reveal_strlit("Transport endpoint is not connected");
        },
        LxError::ETIMEDOUT => {
            reveal_strlit("Connection timeout");
        },
        LxError::ECONNREFUSED => {
            reveal_strlit("Connection refused");
        },
        LxError::EUNDEF => {},
    }
    assert(explanation_of(e)[0] != 'U');
}

/// Different errors have different numbers.
pub proof fn law_errno_injective(a: LxError, b: LxError)
    ensures
        errno_of(a) == errno_of(b) <==> a == b,
{
}

/// Errors of the file-system layer.
#[derive(Clone, Copy, PartialEq, Eq, Structural, Debug)]
pub enum FsError {
    NotSupported,
    NotFile,
    IsDir,
    NotDir,
    EntryNotFound,
    EntryExist,
    NotSameFs,
    InvalidParam,
    NoDeviceSpace,
    DirRemoved,
    DirNotEmpty,
    WrongFs,
    DeviceError,
    IOCTLError,
    NoDevice,
    Again,
    SymLoop,
    Busy,
    Interrupted,
    ReadOnly,
    NoPermission,
    OpNotSupported,
}

/// The Linux error of a file-system error.
pub open spec fn lx_of_fs(e: FsError) -> LxError {
    match e {
        FsError::NotSupported => LxError::ENOSYS,
        FsError::NotFile => LxError::EISDIR,
        FsError::IsDir => LxError::EISDIR,
        FsError::NotDir => LxError::ENOTDIR,
        FsError::EntryNotFound => LxError::ENOENT,
        FsError::EntryExist => LxError::EEXIST,
        FsError::NotSameFs => LxError::EXDEV,
        FsError::InvalidParam => LxError::EINVAL,
        FsError::NoDeviceSpace => LxError::ENOMEM,
        FsError::DirRemoved => LxError::ENOENT,
        FsError::DirNotEmpty => LxError::ENOTEMPTY,
        FsError::WrongFs => LxError::EINVAL,
        FsError::DeviceError => LxError::EIO,
        FsError::IOCTLError => LxError::EINVAL,
        FsError::NoDevice => LxError::EINVAL,
        FsError::Again => LxError::EAGAIN,
        FsError::SymLoop => LxError::ELOOP,
        FsError::Busy => LxError::EBUSY,
        FsError::Interrupted => LxError::EINTR,
        FsError::ReadOnly => LxError::EROFS,
        FsError::NoPermission => LxError::EACCES,
        FsError::OpNotSupported => LxError::ENOSYS,
    }
}

impl From<FsError> for LxError {
    fn from(error: FsError) -> (r: LxError) {
        match error {
            FsError::NotSupported => LxError::ENOSYS,
            FsError::NotFile => LxError::EISDIR,
            FsError::IsDir => LxError::EISDIR,
            FsError::NotDir => LxError::ENOTDIR,
            FsError::EntryNotFound => LxError::ENOENT,
            FsError::EntryExist => LxError::EEXIST,
            FsError::NotSameFs => LxError::EXDEV,
            FsError::InvalidParam => LxError::EINVAL,
            FsError::NoDeviceSpace => LxError::ENOMEM,
            FsError::DirRemoved => LxError::ENOENT,
            FsError::DirNotEmpty => LxError::ENOTEMPTY,
            FsError::WrongFs => LxError::EINVAL,
            FsError::DeviceError => LxError::EIO,
            FsError::IOCTLError => LxError::EINVAL,
            FsError::NoDevice => LxError::EINVAL,
            FsError::Again => LxError::EAGAIN,
            FsError::SymLoop => LxError::ELOOP,
            FsError::Busy => LxError::EBUSY,
            FsError::Interrupted => LxError::EINTR,
            FsError::ReadOnly => LxError::EROFS,
            FsError::NoPermission => LxError::EACCES,
            FsError::OpNotSupported => LxError::ENOSYS,
        }
    }
}

impl vstd::std_specs::convert::FromSpecImpl<FsError> for LxError {
    open spec fn obeys_from_spec() -> bool {
        true
    }

    open spec fn from_spec(error: FsError) -> LxError {
        lx_of_fs(error)
    }
}

/// Errors of the kernel object layer; those without a Linux meaning keep their number.
#[derive(Clone, Copy, PartialEq, Eq, Structural, Debug)]
#[allow(non_camel_case_types)]
pub enum ZxError {
    INVALID_ARGS,
    NOT_SUPPORTED,
    ALREADY_EXISTS,
    SHOULD_WAIT,
    PEER_CLOSED,
    BAD_HANDLE,
    TIMED_OUT,
    STOP,
    BAD_STATE,
    OTHER(i32),
}

/// The Linux error of a kernel object error, where there is one.
pub open spec fn lx_of_zx(e: ZxError) -> Option<LxError> {
    match e {
        ZxError::INVALID_ARGS => Some(LxError::EINVAL),
        ZxError::NOT_SUPPORTED => Some(LxError::ENOSYS),
        ZxError::ALREADY_EXISTS => Some(LxError::EEXIST),
        ZxError::SHOULD_WAIT => Some(LxError::EAGAIN),
        ZxError::PEER_CLOSED => Some(LxError::EPIPE),
        ZxError::BAD_HANDLE => Some(LxError::EBADF),
        ZxError::TIMED_OUT => Some(LxError::ETIMEDOUT),
        ZxError::STOP => Some(LxError::ESRCH),
        ZxError::BAD_STATE => Some(LxError::EAGAIN),
        ZxError::OTHER(_) => None,
    }
}

/// Converts a kernel object error that has a Linux meaning.
pub fn lx_from_zx(e: ZxError) -> (r: LxError)
    requires
        lx_of_zx(e) is Some,
    ensures
        Some(r) == lx_of_zx(e),
{
    match e {
        ZxError::INVALID_ARGS => LxError::EINVAL,
        ZxError::NOT_SUPPORTED => LxError::ENOSYS,
        ZxError::ALREADY_EXISTS => LxError::EEXIST,
        ZxError::SHOULD_WAIT => LxError::EAGAIN,
        ZxError::PEER_CLOSED => LxError::EPIPE,
        ZxError::BAD_HANDLE => LxError::EBADF,
        ZxError::TIMED_OUT => LxError::ETIMEDOUT,
        ZxError::STOP => LxError::ESRCH,
        ZxError::BAD_STATE => LxError::EAGAIN,
        ZxError::OTHER(_) => LxError::EUNDEF,
    }
}

/// Errors of accesses to user memory.
#[derive(Clone, Copy, PartialEq, Eq, Structural, Debug)]
pub enum UserError {
    InvalidUtf8,
    InvalidPointer,
    BufferTooSmall,
    InvalidLength,
    InvalidVectorAddress,
}

/// The Linux error of a failed access to user memory.
pub open spec fn lx_of_user(e: UserError) -> LxError {
    match e {
        UserError::InvalidUtf8 => LxError::EINVAL,
        UserError::InvalidPointer => LxError::EFAULT,
        UserError::BufferTooSmall => LxError::ENOBUFS,
        UserError::InvalidLength => LxError::EINVAL,
        UserError::InvalidVectorAddress => LxError::EINVAL,
    }
}

impl From<UserError> for LxError {
    fn from(e: UserError) -> (r: LxError) {
        match e {
            UserError::InvalidUtf8 => LxError::EINVAL,
            UserError::InvalidPointer => LxError::EFAULT,
            UserError::BufferTooSmall => LxError::ENOBUFS,
            UserError::InvalidLength => LxError::EINVAL,
            UserError::InvalidVectorAddress => LxError::EINVAL,
        }
    }
}

impl vstd::std_specs::convert::FromSpecImpl<UserError> for LxError {
    open spec fn obeys_from_spec() -> bool {
        true
    }

    open spec fn from_spec(e: UserError) -> LxError {
        lx_of_user(e)
    }
}

/// The file-system error of a failed driver request.
pub open spec fn fs_of_device(e: crate::device::DeviceError) -> FsError {
    match e {
        crate::device::DeviceError::NotSupported => FsError::NotSupported,
        crate::device::DeviceError::NotReady => FsError::Busy,
        crate::device::DeviceError::InvalidParam => FsError::InvalidParam,
        _ => FsError::DeviceError,
    }
}

/// Converts a driver error for the file-system layer.
pub fn convert_error(e: crate::device::DeviceError) -> (r: FsError)
    ensures
        r == fs_of_device(e),
{
    match e {
        crate::device::DeviceError::NotSupported => FsError::NotSupported,
        crate::device::DeviceError::NotReady => FsError::Busy,
        crate::device::DeviceError::InvalidParam => FsError::InvalidParam,
        crate::device::DeviceError::BufferTooSmall | crate::device::DeviceError::DmaError
        | crate::device::DeviceError::IoError | crate::device::DeviceError::AlreadyExists
        | crate::device::DeviceError::NoResources => FsError::DeviceError,
    }
}

/// Which errors of a file system a program sees as which: all but these few have a number of their own.
pub proof fn law_file_errors_told(e: FsError)
    ensures
        lx_of_fs(e) == LxError::EINVAL <==> e is InvalidParam || e is WrongFs || e is IOCTLError || e
            is NoDevice,
        lx_of_fs(e) == LxError::ENOENT <==> e is EntryNotFound || e is DirRemoved,
        lx_of_fs(e) == LxError::EISDIR <==> e is IsDir || e is NotFile,
        lx_of_fs(e) == LxError::ENOSYS <==> e is NotSupported || e is OpNotSupported,
        lx_of_fs(e) == LxError::ENOTDIR <==> e is NotDir,
        lx_of_fs(e) == LxError::EEXIST <==> e is EntryExist,
        lx_of_fs(e) == LxError::EXDEV <==> e is NotSameFs,
        lx_of_fs(e) == LxError::ENOMEM <==> e is NoDeviceSpace,
        lx_of_fs(e) == LxError::ENOTEMPTY <==> e is DirNotEmpty,
        lx_of_fs(e) == LxError::EIO <==> e is DeviceError,
        lx_of_fs(e) == LxError::EAGAIN <==> e is Again,
        lx_of_fs(e) == LxError::ELOOP <==> e is SymLoop,
        lx_of_fs(e) == LxError::EBUSY <==> e is Busy,
        lx_of_fs(e) == LxError::EINTR <==> e is Interrupted,
        lx_of_fs(e) == LxError::EROFS <==> e is ReadOnly,
        lx_of_fs(e) == LxError::EACCES <==> e is NoPermission,
{
}

/// Which errors of a device are told as what: a device that is not ready is busy, and what has no name of
/// its own is the device's.
pub proof fn law_device_errors_told(e: crate::device::DeviceError)
    ensures
        fs_of_device(e) == FsError::NotSupported <==> e is NotSupported,
        fs_of_device(e) == FsError::Busy <==> e is NotReady,
        fs_of_device(e) == FsError::InvalidParam <==> e is InvalidParam,
        fs_of_device(e) == FsError::DeviceError <==> !(e is NotSupported || e is NotReady || e
            is InvalidParam),
{
}

/// Which errors of kernel objects and of user memory are told as what.
pub proof fn law_other_errors_told(z: ZxError, u: UserError)
    ensures
        lx_of_zx(z) == Some(LxError::EAGAIN) <==> z is SHOULD_WAIT || z is BAD_STATE,
        lx_of_zx(z) == Some(LxError::EPIPE) <==> z is PEER_CLOSED,
        lx_of_zx(z) == Some(LxError::ETIMEDOUT) <==> z is TIMED_OUT,
        lx_of_zx(z) == Some(LxError::ESRCH) <==> z is STOP,
        lx_of_zx(z) == Some(LxError::EBADF) <==> z is BAD_HANDLE,
        lx_of_zx(z) is None <==> z is OTHER,
        lx_of_user(u) == LxError::EFAULT <==> u is InvalidPointer,
        lx_of_user(u) == LxError::ENOBUFS <==> u is BufferTooSmall,
        lx_of_user(u) == LxError::EINVAL <==> u is InvalidUtf8 || u is InvalidLength || u
            is InvalidVectorAddress,
{
}

} // verus!
