//! Choosing the trash directory for a file.
//!
//! On a mount-aware system every mount point and the home directory are
//! candidate roots; the longest candidate that prefixes the file path wins,
//! so a file always lands in the trash of its own volume and a move never
//! crosses devices.  On a single-volume system the home directory is the
//! only root.

use vstd::prelude::*;
use vstd::string::StringExecFns;
use vstd::string::StrSliceExecFns;

use crate::environment;
use crate::environment::spec_trash_dir_name;
use crate::errors::TrashError;
use crate::mtab_parser::DriveV;
use crate::mtab_parser::MountedDrive;
use crate::os::OperatingSystem;
use crate::paths::path_join;
use crate::paths::spec_path_join;
use crate::strutil::str_starts_with;
use crate::strutil::views_of;

verus! {

/// The candidate trash roots: every mount point, then the home directory.
pub open spec fn spec_candidates(drives: Seq<DriveV>, home: Seq<char>) -> Seq<Seq<char>> {
    drives.map_values(|d: DriveV| d.mount_point).push(home)
}

/// Keep the better of the root found so far and one more candidate: a
/// candidate is kept when it prefixes the file and is strictly longer.
pub open spec fn spec_better(
    acc: Option<Seq<char>>,
    c: Seq<char>,
    file: Seq<char>,
) -> Option<Seq<char>> {
    match acc {
        Option::None => if c.is_prefix_of(file) {
            Some(c)
        } else {
            None
        },
        Option::Some(b) => if c.is_prefix_of(file) && c.len() > b.len() {
            Some(c)
        } else {
            Some(b)
        },
    }
}

/// The best root among `cands`, starting from `acc`.
pub open spec fn spec_best_from(
    cands: Seq<Seq<char>>,
    file: Seq<char>,
    acc: Option<Seq<char>>,
) -> Option<Seq<char>>
    decreases cands.len(),
{
    if cands.len() == 0 {
        acc
    } else {
        spec_best_from(cands.skip(1), file, spec_better(acc, cands[0], file))
    }
}

/// The longest candidate that prefixes `file`, if any does.
pub open spec fn spec_best(cands: Seq<Seq<char>>, file: Seq<char>) -> Option<Seq<char>> {
    spec_best_from(cands, file, Option::None)
}

/// What mount-aware resolution returns: the trash directory under the
/// best matching root.
pub open spec fn spec_resolve(drives: Seq<DriveV>, home: Seq<char>, file: Seq<char>) -> Option<
    Seq<char>,
> {
    match spec_best(spec_candidates(drives, home), file) {
        Option::None => Option::None,
        Option::Some(root) => Some(spec_path_join(root, spec_trash_dir_name())),
    }
}

/// `spec_best_from` yields a matching candidate of maximal length — or
/// nothing, exactly when no candidate (and no starting root) matches.
proof fn lemma_best_from(cands: Seq<Seq<char>>, file: Seq<char>, acc: Option<Seq<char>>)
    requires
        match acc {
            Option::None => true,
            Option::Some(b) => b.is_prefix_of(file),
        },
    ensures
        ({
            let r = spec_best_from(cands, file, acc);
            &&& (r is None <==> acc is None && (forall|i: int|
                0 <= i < cands.len() ==> !(#[trigger] cands[i]).is_prefix_of(file)))
            &&& match r {
                Option::Some(b) => {
                    &&& (cands.contains(b) || acc == Some(b))
                    &&& b.is_prefix_of(file)
                    &&& (forall|i: int|
                        0 <= i < cands.len() && (#[trigger] cands[i]).is_prefix_of(file)
                            ==> cands[i].len() <= b.len())
                    &&& match acc {
                        Option::Some(a) => a.len() <= b.len(),
                        Option::None => true,
                    }
                },
                Option::None => true,
            }
        }),
    decreases cands.len(),
{
    if cands.len() == 0 {
    } else {
        let acc2 = spec_better(acc, cands[0], file);
        lemma_best_from(cands.skip(1), file, acc2);
        let r = spec_best_from(cands, file, acc);
        assert(r == spec_best_from(cands.skip(1), file, acc2));
        assert(forall|i: int| 1 <= i < cands.len() ==> (#[trigger] cands[i]) == cands.skip(1)[i
            - 1]);
        if r is None {
            assert(acc2 is None);
            assert(forall|i: int|
                0 <= i < cands.len() ==> !(#[trigger] cands[i]).is_prefix_of(file));
        }
        if acc is None && (forall|i: int|
            0 <= i < cands.len() ==> !(#[trigger] cands[i]).is_prefix_of(file)) {
            assert(!cands[0].is_prefix_of(file));
            assert(acc2 is None);
            assert(r is None);
        }
        match r {
            Option::Some(b) => {
                if cands.skip(1).contains(b) {
                    let j = choose|j: int|
                        0 <= j < cands.skip(1).len() && cands.skip(1)[j] == b;
                    assert(cands[j + 1] == b);
                    assert(cands.contains(b));
                } else {
                    assert(acc2 == Some(b));
                    if acc != Some(b) {
                        assert(cands[0] == b);
                        assert(cands.contains(b));
                    }
                }
                assert(match acc2 {
                    Option::Some(a2) => a2.len() <= b.len(),
                    Option::None => true,
                });
                assert(cands[0].is_prefix_of(file) ==> cands[0].len() <= b.len());
                assert(forall|i: int|
                    0 <= i < cands.len() && (#[trigger] cands[i]).is_prefix_of(file) ==> cands[
                        i
                    ].len() <= b.len());
            },
            Option::None => {},
        }
    }
}

/// The best root is a matching candidate of maximal length; none exists
/// exactly when no candidate prefixes the file.  Two matching candidates
/// of equal length are equal (both are the same prefix of the file), so
/// this pins the chosen root completely.
pub proof fn lemma_best_longest_prefix(cands: Seq<Seq<char>>, file: Seq<char>)
    ensures
        (spec_best(cands, file) is None <==> (forall|i: int|
            0 <= i < cands.len() ==> !(#[trigger] cands[i]).is_prefix_of(file))),
        match spec_best(cands, file) {
            Option::Some(b) => {
                &&& cands.contains(b)
                &&& b.is_prefix_of(file)
                &&& (forall|i: int|
                    0 <= i < cands.len() && (#[trigger] cands[i]).is_prefix_of(file)
                        ==> cands[i].len() <= b.len())
            },
            Option::None => true,
        },
{
    lemma_best_from(cands, file, Option::None);
}

/// Resolve the trash directory for `file` from the mount table: the
/// longest mount point (or the home directory) that prefixes `file`
/// becomes the root, and the trash directory sits directly under it.
pub fn get_trash_dir_for_file_linux(file: &str, drives: &Vec<MountedDrive>, home: &str) -> (r:
    Option<String>)
    ensures
        ({
            let rv = spec_resolve(drives@.map_values(|d: MountedDrive| d@), home@, file@);
            match r {
                Option::Some(t) => rv == Some(t@),
                Option::None => rv is None,
            }
        }),
{
    let ghost dv = drives@.map_values(|d: MountedDrive| d@);
    let mut cands: Vec<String> = Vec::new();
    let mut i: usize = 0;
    while i < drives.len()
        invariant
            i <= drives@.len(),
            dv == drives@.map_values(|d: MountedDrive| d@),
            views_of(cands@) == dv.map_values(|d: DriveV| d.mount_point).take(i as int),
        decreases drives@.len() - i,
    {
        let mp = drives[i].mount_point.clone();
        proof {
            assert(views_of(cands@.push(mp)) =~= views_of(cands@).push(mp@));
            assert(dv.map_values(|d: DriveV| d.mount_point).take(i + 1) =~= dv.map_values(
                |d: DriveV| d.mount_point,
            ).take(i as int).push(mp@));
        }
        cands.push(mp);
        i += 1;
    }
    let home_owned = String::from_str(home);
    proof {
        assert(dv.map_values(|d: DriveV| d.mount_point).take(dv.len() as int) =~= dv.map_values(
            |d: DriveV| d.mount_point,
        ));
        assert(views_of(cands@.push(home_owned)) =~= views_of(cands@).push(home@));
    }
    cands.push(home_owned);
    let ghost cv = spec_candidates(dv, home@);
    let n = cands.len();
    let mut best: Option<String> = None;
    let mut j: usize = 0;
    proof {
        assert(cv.skip(0) =~= cv);
    }
    while j < n
        invariant
            j <= n,
            n == cands@.len(),
            views_of(cands@) == cv,
            spec_best(cv, file@) == spec_best_from(
                cv.skip(j as int),
                file@,
                match best {
                    Option::Some(ref b) => Some(b@),
                    Option::None => Option::None,
                },
            ),
        decreases n - j,
    {
        let c = &cands[j];
        let ghost accv: Option<Seq<char>> = match best {
            Option::Some(ref b) => Some(b@),
            Option::None => Option::None,
        };
        let matches_prefix = str_starts_with(file, c.as_str());
        let replace = matches_prefix && (match &best {
            Option::None => true,
            Option::Some(b) => c.unicode_len() > b.unicode_len(),
        });
        proof {
            assert(cv.skip(j as int)[0] == c@);
            assert(cv.skip(j as int).skip(1) =~= cv.skip(j + 1));
        }
        if replace {
            best = Some(c.clone());
        }
        proof {
            let new_accv: Option<Seq<char>> = match best {
                Option::Some(ref b) => Some(b@),
                Option::None => Option::None,
            };
            assert(new_accv == spec_better(accv, c@, file@));
        }
        j += 1;
    }
    proof {
        assert(cv.skip(n as int) =~= Seq::<Seq<char>>::empty());
    }
    match best {
        Option::Some(root) => {
            let t = path_join(root.as_str(), ".rtrash");
            proof {
                reveal_strlit(".rtrash");
                assert(".rtrash"@ =~= spec_trash_dir_name());
            }
            Some(t)
        },
        Option::None => None,
    }
}

/// What `trash_dir` returns for each platform: the resolver's choice on
/// Linux, the home trash on MacOS, an error anywhere else.
pub open spec fn spec_trash_dir_for(
    os: OperatingSystem,
    drives: Seq<DriveV>,
    home: Seq<char>,
    file: Seq<char>,
) -> Result<Seq<char>, TrashError> {
    match os {
        OperatingSystem::Linux => match spec_resolve(drives, home, file) {
            Option::Some(t) => Ok(t),
            Option::None => Err(TrashError::UnresolvableTrashLocation),
        },
        OperatingSystem::MacOS => Ok(spec_path_join(home, spec_trash_dir_name())),
        _ => Err(TrashError::UnsupportedEnvironment),
    }
}

/// The fixed trash directory on a single-volume system: `.rtrash` under
/// the home directory.
pub fn get_trash_dir_for_file_macos(home: &str) -> (r: String)
    ensures
        r@ == spec_path_join(home@, spec_trash_dir_name()),
{
    environment::trash_dir(home)
}

/// Choose the trash directory for `file` under the platform's strategy.
/// Fails with `UnresolvableTrashLocation` when no candidate root matches
/// and with `UnsupportedEnvironment` on unrecognized platforms.
pub fn trash_dir(file: &str, os: OperatingSystem, drives: &Vec<MountedDrive>, home: &str) -> (r:
    Result<String, TrashError>)
    ensures
        ({
            let rv = spec_trash_dir_for(os, drives@.map_values(|d: MountedDrive| d@), home@, file@);
            match r {
                Result::Ok(t) => rv == Ok::<Seq<char>, TrashError>(t@),
                Result::Err(e) => rv == Err::<Seq<char>, TrashError>(e),
            }
        }),
{
    match os {
        OperatingSystem::Linux => match get_trash_dir_for_file_linux(file, drives, home) {
            Option::Some(t) => Ok(t),
            Option::None => Err(TrashError::UnresolvableTrashLocation),
        },
        OperatingSystem::MacOS => Ok(get_trash_dir_for_file_macos(home)),
        _ => Err(TrashError::UnsupportedEnvironment),
    }
}

} // verus!
