//! Error numbers of the operating system.

use vstd::prelude::*;

verus! {

/// Operation not permitted: a capability is missing.
pub const EPERM: i32 = 1;

/// No such file or directory.
pub const ENOENT: i32 = 2;

/// Permission denied: the file belongs to another user.
pub const EACCES: i32 = 13;

/// The device or resource is busy.
pub const EBUSY: i32 = 16;

/// The file system is read-only.
pub const EROFS: i32 = 30;

/// The operation is not supported, by its number in the generic Linux table.
pub const EOPNOTSUPP: i32 = 95;

/// The error that a raw number stands for: itself where Linux defines an error
/// of that number, and 0, the unknown error, where it does not. Linux numbers
/// its errors from 1 to 133 and leaves out 41 and 58.
pub open spec fn known_errno(raw: i32) -> i32 {
    if 1 <= raw <= 133 && raw != 41 && raw != 58 {
        raw
    } else {
        0
    }
}

/// Calls `nix::errno::Errno::from_raw` and gives the number of the error that
/// comes back.
///
/// Trusted: a number that Linux defines an error for comes back as it is, any
/// other becomes that of `Errno::UnknownErrno`, which is 0. The numbers are
/// those of the generic Linux table, which every Linux target but MIPS and
/// SPARC follows. On Android the function does not know the last two of them.
#[verifier::external_body]
pub(crate) fn errno_of(raw: i32) -> (code: i32)
    ensures
        code == known_errno(raw),
{
    nix::errno::Errno::from_raw(raw) as i32
}

/// Gives the number of `nix::errno::Errno::EOPNOTSUPP` on the target. It is the
/// only one of the numbers above that is not the same on every Linux target, so
/// what runs takes it from there.
///
/// Trusted: it is the number of the generic Linux table, which every Linux
/// target but MIPS and SPARC follows.
#[verifier::external_body]
pub(crate) fn eopnotsupp() -> (code: i32)
    ensures
        code == EOPNOTSUPP,
{
    nix::errno::Errno::EOPNOTSUPP as i32
}

} // verus!
