//! Path arithmetic: absolutizing user input, joining path components and
//! synthesizing the versioned names that trashed files are stored under.

use vstd::prelude::*;
use vstd::string::StringExecFns;
use vstd::string::StrSliceExecFns;

use crate::strutil::spec_u64_string;
use crate::strutil::str_concat;
use crate::strutil::u64_to_string;

verus! {

/// An absolute path begins with a slash.
pub open spec fn is_absolute(p: Seq<char>) -> bool {
    p.len() > 0 && p[0] == '/'
}

/// `base` and `name` joined with exactly one slash in between.
pub open spec fn spec_path_concat(base: Seq<char>, name: Seq<char>) -> Seq<char> {
    base + seq!['/'] + name
}

/// `base/name`, without doubling the slash when `base` ends in one.
pub open spec fn spec_path_join(base: Seq<char>, name: Seq<char>) -> Seq<char> {
    if base.len() > 0 && base[base.len() - 1] == '/' {
        base + name
    } else {
        spec_path_concat(base, name)
    }
}

/// What `make_absolute` returns: a path that is already absolute is kept,
/// anything else is interpreted relative to `cwd`.
pub open spec fn spec_make_absolute(cwd: Seq<char>, path: Seq<char>) -> Seq<char> {
    if is_absolute(path) {
        path
    } else {
        spec_path_concat(cwd, path)
    }
}

/// The part of `p` after its last slash; all of `p` when it has none.
pub open spec fn spec_basename(p: Seq<char>) -> Seq<char>
    decreases p.len(),
{
    if p.len() == 0 {
        p
    } else if p[p.len() - 1] == '/' {
        Seq::<char>::empty()
    } else {
        spec_basename(p.drop_last()).push(p[p.len() - 1])
    }
}

/// The name a trashed file is stored under: a `v1` format tag, the time of
/// trashing, and the original base name, joined by dashes.
pub open spec fn spec_new_name(p: Seq<char>, t: u64) -> Seq<char> {
    seq!['v', '1', '-'] + spec_u64_string(t) + seq!['-'] + spec_basename(p)
}

/// Interpret `path` relative to the working directory `cwd`.
/// An already-absolute path is returned unchanged.
pub fn make_absolute(cwd: &str, path: &str) -> (r: String)
    ensures
        r@ == spec_make_absolute(cwd@, path@),
{
    if path.unicode_len() > 0 && path.get_char(0) == '/' {
        String::from_str(path)
    } else {
        let mut out = String::from_str(cwd);
        out.append("/");
        out.append(path);
        proof {
            reveal_strlit("/");
            assert("/"@ =~= seq!['/']);
            assert(out@ =~= spec_path_concat(cwd@, path@));
        }
        out
    }
}

/// Join a directory and an entry name with a single slash.
pub fn path_join(base: &str, name: &str) -> (r: String)
    ensures
        r@ == spec_path_join(base@, name@),
{
    let n = base.unicode_len();
    if n > 0 && base.get_char(n - 1) == '/' {
        str_concat(base, name)
    } else {
        let mut out = String::from_str(base);
        out.append("/");
        out.append(name);
        proof {
            reveal_strlit("/");
            assert("/"@ =~= seq!['/']);
            assert(out@ =~= spec_path_concat(base@, name@));
        }
        out
    }
}

/// `spec_basename` picks out the suffix that follows the last slash.
proof fn lemma_basename_at(p: Seq<char>, k: int)
    requires
        0 <= k <= p.len(),
        k == 0 || p[k - 1] == '/',
        forall|j: int| k <= j < p.len() ==> p[j] != '/',
    ensures
        spec_basename(p) == p.skip(k),
    decreases p.len(),
{
    if p.len() == k {
        if k == 0 {
            assert(p.skip(0) =~= p);
        } else {
            assert(p.skip(k) =~= Seq::<char>::empty());
        }
    } else {
        assert(p[p.len() - 1] != '/');
        lemma_basename_at(p.drop_last(), k);
        assert(p.drop_last().skip(k).push(p[p.len() - 1]) =~= p.skip(k));
    }
}

/// The base name of `path`: everything after the last slash.
pub fn basename(path: &str) -> (r: String)
    ensures
        r@ == spec_basename(path@),
{
    let n = path.unicode_len();
    let mut cut: usize = 0;
    let mut i: usize = 0;
    while i < n
        invariant
            cut <= i <= n,
            n == path@.len(),
            cut == 0 || path@[cut - 1] == '/',
            forall|j: int| cut <= j < i ==> path@[j] != '/',
        decreases n - i,
    {
        if path.get_char(i) == '/' {
            cut = i + 1;
        }
        i += 1;
    }
    let tail = path.substring_char(cut, n);
    proof {
        lemma_basename_at(path@, cut as int);
    }
    String::from_str(tail)
}

/// The versioned, timestamped name given to `path` inside the trash
/// directory: `v1-<timestamp>-<basename>`.
pub fn gen_new_name(path: &str, current_time_unix: u64) -> (r: String)
    ensures
        r@ == spec_new_name(path@, current_time_unix),
{
    let base = basename(path);
    let stamp = u64_to_string(current_time_unix);
    let mut out = String::from_str("v1-");
    out.append(stamp.as_str());
    out.append("-");
    out.append(base.as_str());
    proof {
        reveal_strlit("v1-");
        reveal_strlit("-");
        assert("v1-"@ =~= seq!['v', '1', '-']);
        assert("-"@ =~= seq!['-']);
        assert(out@ =~= spec_new_name(path@, current_time_unix));
    }
    out
}

} // verus!
