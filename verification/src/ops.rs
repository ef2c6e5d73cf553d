//! The lifecycle operations: planning a remove batch, recording what was
//! executed, and choosing what an empty operation deletes.
//!
//! Everything here is pure computation on plain values.  The process
//! wrapper performs the renames and deletions the plans call for and
//! hands the outcomes back.

use vstd::prelude::*;

use crate::cmd::RemoveArgs;
use crate::cmd::RemoveArgsV;
use crate::errors::TrashError;
use crate::history::Command;
use crate::history::History;
use crate::mtab_parser::DriveV;
use crate::mtab_parser::MountedDrive;
use crate::mv::Move;
use crate::mv::MoveV;
use crate::os::OperatingSystem;
use crate::paths::gen_new_name;
use crate::paths::make_absolute;
use crate::paths::spec_make_absolute;
use crate::paths::spec_new_name;
use crate::strutil::str_eq;
use crate::strutil::views_of;
use crate::trash_dir::spec_trash_dir_for;
use crate::trash_dir::trash_dir;

verus! {

/// The destination a file is moved to: the versioned name under the trash
/// directory of its volume — or the reason none can be chosen.
pub open spec fn spec_gen_out_path(
    os: OperatingSystem,
    drives: Seq<DriveV>,
    home: Seq<char>,
    src: Seq<char>,
    t: u64,
) -> Result<Seq<char>, TrashError> {
    match spec_trash_dir_for(os, drives, home, src) {
        Result::Ok(trash) => Ok(spec_make_absolute(trash, spec_new_name(src, t))),
        Result::Err(e) => Err(e),
    }
}

/// The move planned for one named file: its absolutized path, and the
/// destination inside the trash of its volume.
pub open spec fn spec_planned_move(
    os: OperatingSystem,
    drives: Seq<DriveV>,
    home: Seq<char>,
    cwd: Seq<char>,
    path: Seq<char>,
    t: u64,
) -> Result<MoveV, TrashError> {
    let src = spec_make_absolute(cwd, path);
    match spec_gen_out_path(os, drives, home, src, t) {
        Result::Ok(dest) => Ok(MoveV { src: src, dest: dest }),
        Result::Err(e) => Err(e),
    }
}

/// The whole plan of a remove batch: one planned move or error per named
/// file, in order.  The dry-run flag plays no part here.
pub open spec fn spec_plan(
    args: RemoveArgsV,
    cwd: Seq<char>,
    now: u64,
    os: OperatingSystem,
    drives: Seq<DriveV>,
    home: Seq<char>,
) -> Seq<Result<MoveV, TrashError>> {
    Seq::new(args.files.len(), |i: int| spec_planned_move(os, drives, home, cwd, args.files[i], now))
}

/// The view of a planned move or error.
pub open spec fn plan_view(r: Result<Move, TrashError>) -> Result<MoveV, TrashError> {
    match r {
        Result::Ok(m) => Ok(m@),
        Result::Err(e) => Err(e),
    }
}

/// Compute the destination for `src` at time `current_time_unix`.
pub fn gen_out_path(
    src: &str,
    current_time_unix: u64,
    os: OperatingSystem,
    drives: &Vec<MountedDrive>,
    home: &str,
) -> (r: Result<String, TrashError>)
    ensures
        ({
            let rv = spec_gen_out_path(
                os,
                drives@.map_values(|d: MountedDrive| d@),
                home@,
                src@,
                current_time_unix,
            );
            match r {
                Result::Ok(d) => rv == Ok::<Seq<char>, TrashError>(d@),
                Result::Err(e) => rv == Err::<Seq<char>, TrashError>(e),
            }
        }),
{
    match trash_dir(src, os, drives, home) {
        Result::Ok(trash) => {
            let name = gen_new_name(src, current_time_unix);
            Ok(make_absolute(trash.as_str(), name.as_str()))
        },
        Result::Err(e) => Err(e),
    }
}

/// Plan the moves for every file named in `args`: each path is made
/// absolute against `cwd` and given a destination in the trash of its
/// volume.  A file whose trash directory cannot be resolved yields its
/// error and leaves the rest of the batch untouched.
pub fn get_files(
    args: &RemoveArgs,
    cwd: &str,
    now: u64,
    os: OperatingSystem,
    drives: &Vec<MountedDrive>,
    home: &str,
) -> (r: Vec<Result<Move, TrashError>>)
    ensures
        r@.map_values(|x: Result<Move, TrashError>| plan_view(x)) == spec_plan(
            args@,
            cwd@,
            now,
            os,
            drives@.map_values(|d: MountedDrive| d@),
            home@,
        ),
{
    let ghost dv = drives@.map_values(|d: MountedDrive| d@);
    let ghost goal = spec_plan(args@, cwd@, now, os, dv, home@);
    let files = args.files();
    let mut out: Vec<Result<Move, TrashError>> = Vec::new();
    let mut i: usize = 0;
    while i < files.len()
        invariant
            i <= files@.len(),
            views_of(files@) == args@.files,
            dv == drives@.map_values(|d: MountedDrive| d@),
            goal == spec_plan(args@, cwd@, now, os, dv, home@),
            goal.len() == files@.len(),
            out@.len() == i,
            forall|k: int|
                0 <= k < i ==> plan_view(#[trigger] out@[k]) == goal[k],
        decreases files@.len() - i,
    {
        let path = &files[i];
        let src = make_absolute(cwd, path.as_str());
        let entry = match gen_out_path(src.as_str(), now, os, drives, home) {
            Result::Ok(dest) => Ok(Move::new(src.as_str(), dest.as_str())),
            Result::Err(e) => Err(e),
        };
        proof {
            assert(args@.files[i as int] == path@);
            assert(plan_view(entry) == goal[i as int]);
        }
        out.push(entry);
        i += 1;
    }
    proof {
        assert(out@.map_values(|x: Result<Move, TrashError>| plan_view(x)) =~= goal);
    }
    out
}

/// Record one executed batch: the moves that succeeded become one command
/// appended to the history.  The caller persists the history afterwards;
/// in dry-run mode it never calls this at all.
pub fn remove(hist: &mut History, moved: Vec<Move>)
    ensures
        final(hist)@ == old(hist)@.push(moved@.map_values(|m: Move| m@)),
{
    let ghost movedv = moved@.map_values(|m: Move| m@);
    let mut c = Command::new();
    let mut rest = moved;
    proof {
        assert(c@ + rest@.map_values(|m: Move| m@) =~= movedv);
    }
    while rest.len() > 0
        invariant
            c@ + rest@.map_values(|m: Move| m@) == movedv,
        decreases rest@.len(),
    {
        let ghost before = rest@;
        let m = rest.remove(0);
        proof {
            assert(rest@ =~= before.skip(1));
            assert(before.map_values(|mm: Move| mm@) =~= seq![m@] + rest@.map_values(
                |mm: Move| mm@,
            ));
            assert(c@.push(m@) + rest@.map_values(|mm: Move| mm@) =~= c@ + before.map_values(
                |mm: Move| mm@,
            ));
        }
        c.add_file(m);
    }
    proof {
        assert(rest@.map_values(|m: Move| m@) =~= Seq::<MoveV>::empty());
        assert(c@ =~= movedv);
    }
    hist.add_command(c);
}

/// Choose what the empty operation deletes: every entry of the trash
/// directory except the history file itself.
pub fn empty(entries: &Vec<String>, history_path: &str) -> (r: Vec<String>)
    ensures
        views_of(r@) == views_of(entries@).filter(|e: Seq<char>| e != history_path@),
{
    let ghost ev = views_of(entries@);
    let ghost keep = |e: Seq<char>| e != history_path@;
    let mut out: Vec<String> = Vec::new();
    let mut i: usize = 0;
    proof {
        reveal(Seq::filter);
        assert(ev.take(0) =~= Seq::<Seq<char>>::empty());
        assert(views_of(out@) =~= ev.take(0).filter(keep));
    }
    while i < entries.len()
        invariant
            i <= entries@.len(),
            ev == views_of(entries@),
            keep == (|e: Seq<char>| e != history_path@),
            views_of(out@) == ev.take(i as int).filter(keep),
        decreases entries@.len() - i,
    {
        let entry = &entries[i];
        proof {
            reveal(Seq::filter);
            assert(ev.take(i + 1) =~= ev.take(i as int).push(entry@));
            assert(ev.take(i + 1).drop_last() =~= ev.take(i as int));
            assert(ev.take(i + 1).last() == entry@);
        }
        if !str_eq(entry.as_str(), history_path) {
            let owned = entry.clone();
            proof {
                assert(views_of(out@.push(owned)) =~= views_of(out@).push(entry@));
            }
            out.push(owned);
        }
        i += 1;
    }
    proof {
        assert(ev.take(entries@.len() as int) =~= ev);
    }
    out
}

/// Dry-run idempotence: the planned moves depend only on the files named,
/// the working directory, the clock, the platform and the mount table —
/// never on the dry-run flag.  Planning mutates nothing, so two dry runs
/// over the same inputs report the same source and destination pairs.
pub proof fn lemma_dry_run_idempotent(
    a1: RemoveArgsV,
    a2: RemoveArgsV,
    cwd: Seq<char>,
    now: u64,
    os: OperatingSystem,
    drives: Seq<DriveV>,
    home: Seq<char>,
)
    requires
        a1.files == a2.files,
    ensures
        spec_plan(a1, cwd, now, os, drives, home) == spec_plan(a2, cwd, now, os, drives, home),
{
    assert(spec_plan(a1, cwd, now, os, drives, home) =~= spec_plan(
        a2,
        cwd,
        now,
        os,
        drives,
        home,
    ));
}

} // verus!
