//! Process-level configuration, read once at startup and passed in
//! explicitly so that the core logic never consults the environment.

use vstd::prelude::*;

use crate::paths::path_join;
use crate::paths::spec_path_join;

verus! {

/// The working directory and the user's home directory, as the process
/// wrapper found them.
pub struct Environment {
    pub cwd: String,
    pub home: String,
}

/// The reserved name of the trash directory under a chosen root.
pub open spec fn spec_trash_dir_name() -> Seq<char> {
    seq!['.', 'r', 't', 'r', 'a', 's', 'h']
}

/// The fixed per-user trash directory: `.rtrash` under the home directory.
pub fn trash_dir(home: &str) -> (r: String)
    ensures
        r@ == spec_path_join(home@, spec_trash_dir_name()),
{
    let out = path_join(home, ".rtrash");
    proof {
        reveal_strlit(".rtrash");
        assert(".rtrash"@ =~= spec_trash_dir_name());
    }
    out
}

} // verus!
