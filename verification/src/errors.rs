//! The failure conditions the tool distinguishes.

use vstd::prelude::*;

verus! {

/// Why an operation could not be carried out.
#[derive(Clone, Copy, Debug, PartialEq, Eq, Structural)]
pub enum TrashError {
    /// The mount table or a source file does not exist.
    NotFound,
    /// A generic read, write or rename failure.
    IoError,
    /// No mount point or home directory is a prefix of the target file,
    /// so no trash directory can be chosen for it.
    UnresolvableTrashLocation,
    /// The history file exists but cannot be parsed.
    CorruptHistory,
    /// The operating system's mount model is not recognized.
    UnsupportedEnvironment,
}

} // verus!
