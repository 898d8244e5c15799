//! The kinds of failure that the tree and the file system report.

use vstd::prelude::*;

verus! {

/// Why an operation failed.
#[derive(Clone, Copy, Debug, PartialEq, Eq, Structural)]
pub enum SysError {
    /// A directory operation on an inode that is no directory.
    NotDir,
    /// No child or attribute of that name.
    NotFound,
    /// The operation is not offered by design.
    NotSupported,
    /// The operation is forbidden, or the attribute lacks the flag it needs.
    NotPermitted,
    /// A malformed argument, or an operation on the wrong kind of inode.
    Invalid,
    /// A branch already has a child of that name.
    AlreadyExists,
}

} // verus!
