//! Error codes, as the system call interface numbers them.

use vstd::prelude::*;

verus! {

/// The error conditions that the kernel reports.
#[derive(Clone, Copy, Debug, PartialEq, Eq, Structural)]
pub enum Errno {
    /// Operation not permitted.
    EPERM,
    /// No such file or directory.
    ENOENT,
    /// Bad file number.
    EBADF,
    /// Out of memory.
    ENOMEM,
    /// Permission denied.
    EACCES,
    /// File exists.
    EEXIST,
    /// Not a directory.
    ENOTDIR,
    /// Is a directory.
    EISDIR,
    /// Invalid argument.
    EINVAL,
    /// No space left on device.
    ENOSPC,
    /// Function not implemented.
    ENOSYS,
}

/// The number of each error.
pub open spec fn errno_number(e: Errno) -> i32 {
    match e {
        Errno::EPERM => 1,
        Errno::ENOENT => 2,
        Errno::EBADF => 9,
        Errno::ENOMEM => 12,
        Errno::EACCES => 13,
        Errno::EEXIST => 17,
        Errno::ENOTDIR => 20,
        Errno::EISDIR => 21,
        Errno::EINVAL => 22,
        Errno::ENOSPC => 28,
        Errno::ENOSYS => 38,
    }
}

/// The numbers of the errors, in the order in which [`Errno`] lists them.
pub open spec fn errno_numbers() -> Seq<i32> {
    seq![1i32, 2i32, 9i32, 12i32, 13i32, 17i32, 20i32, 21i32, 22i32, 28i32, 38i32]
}

/// The constants of `syscalls::Errno`, and `Errno::into_raw`: the numbers
/// under which the `syscalls` crate knows the errors that [`Errno`] lists,
/// in that order.
#[verifier::external_body]
fn raw_errnos() -> (codes: [i32; 11])
    ensures
        codes@ == errno_numbers(),
{
    [
        syscalls::Errno::EPERM.into_raw(),
        syscalls::Errno::ENOENT.into_raw(),
        syscalls::Errno::EBADF.into_raw(),
        syscalls::Errno::ENOMEM.into_raw(),
        syscalls::Errno::EACCES.into_raw(),
        syscalls::Errno::EEXIST.into_raw(),
        syscalls::Errno::ENOTDIR.into_raw(),
        syscalls::Errno::EISDIR.into_raw(),
        syscalls::Errno::EINVAL.into_raw(),
        syscalls::Errno::ENOSPC.into_raw(),
        syscalls::Errno::ENOSYS.into_raw(),
    ]
}

impl Errno {
    /// The number of the error.
    pub fn into_raw(self) -> (code: i32)
        ensures
            code == errno_number(self),
            1 <= code <= 38,
    {
        let codes = raw_errnos();
        match self {
            Errno::EPERM => codes[0],
            Errno::ENOENT => codes[1],
            Errno::EBADF => codes[2],
            Errno::ENOMEM => codes[3],
            Errno::EACCES => codes[4],
            Errno::EEXIST => codes[5],
            Errno::ENOTDIR => codes[6],
            Errno::EISDIR => codes[7],
            Errno::EINVAL => codes[8],
            Errno::ENOSPC => codes[9],
            Errno::ENOSYS => codes[10],
        }
    }

    /// What a system call returns for the error: the negated number, as
    /// an unsigned machine word.
    pub fn to_ret(self) -> (ret: u64)
        ensures
            ret == 0x1_0000_0000_0000_0000 - errno_number(self),
    {
        let code = self.into_raw();
        u64::MAX - (code as u64 - 1)
    }
}

} // verus!
