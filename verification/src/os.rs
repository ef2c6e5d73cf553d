//! The platforms the tool distinguishes.

use vstd::prelude::*;

verus! {

/// Which trash-resolution strategy applies: mount-aware on Linux, a fixed
/// home-relative directory on MacOS, unsupported elsewhere.
#[derive(Clone, Copy, Debug, PartialEq, Eq, Structural)]
pub enum OperatingSystem {
    Windows,
    Linux,
    MacOS,
    Unknown,
}

} // verus!
