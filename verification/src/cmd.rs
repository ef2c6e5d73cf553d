//! The arguments of a remove invocation, as the process wrapper parsed
//! them from the command line.

use vstd::prelude::*;

use crate::strutil::views_of;

verus! {

/// The mathematical content of a `RemoveArgs`.
#[verifier::ext_equal]
pub ghost struct RemoveArgsV {
    pub files: Seq<Seq<char>>,
    pub dry_run: bool,
}

/// The file paths to trash and whether to only simulate the moves.
#[derive(Debug)]
pub struct RemoveArgs {
    files: Vec<String>,
    dry_run: bool,
}

impl View for RemoveArgs {
    type V = RemoveArgsV;

    closed spec fn view(&self) -> RemoveArgsV {
        RemoveArgsV { files: views_of(self.files@), dry_run: self.dry_run }
    }
}

impl RemoveArgs {
    /// Arguments naming `files`, simulating only when `dry_run` holds.
    pub fn new(files: Vec<String>, dry_run: bool) -> (r: RemoveArgs)
        ensures
            r@.files == views_of(files@),
            r@.dry_run == dry_run,
    {
        RemoveArgs { files, dry_run }
    }

    /// Whether the moves are only to be simulated.
    pub fn dry_run(&self) -> (r: bool)
        ensures
            r == self@.dry_run,
    {
        self.dry_run
    }

    /// The file paths to trash, as given on the command line.
    pub fn files(&self) -> (r: &Vec<String>)
        ensures
            views_of(r@) == self@.files,
    {
        &self.files
    }
}

} // verus!
