//! One file relocation.

use vstd::prelude::*;
use vstd::string::StringExecFns;

verus! {

/// Where a file was and where it goes inside the trash directory.
/// Execution of the move itself is a single rename performed by the
/// process wrapper; only a move that succeeded is kept for the history.
#[derive(Clone, Debug, PartialEq, Eq)]
pub struct Move {
    pub src: String,
    pub dest: String,
}

/// The mathematical content of a `Move`.
#[verifier::ext_equal]
pub ghost struct MoveV {
    pub src: Seq<char>,
    pub dest: Seq<char>,
}

impl View for Move {
    type V = MoveV;

    open spec fn view(&self) -> MoveV {
        MoveV { src: self.src@, dest: self.dest@ }
    }
}

impl Move {
    /// A move of `src` to `dest`.
    pub fn new(src: &str, dest: &str) -> (r: Move)
        ensures
            r@.src == src@,
            r@.dest == dest@,
    {
        Move { src: String::from_str(src), dest: String::from_str(dest) }
    }
}

} // verus!
