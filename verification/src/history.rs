//! The durable history of executed move batches.
//!
//! The history is persisted as line-oriented text inside the trash root.
//! Every command starts with a marker line holding a single `C`; the moves
//! of the command follow as pairs of lines, source then destination.  A
//! path line always begins with a slash, so no path can be mistaken for a
//! marker, and the whole file parses back to exactly the history that was
//! written (`lemma_history_round_trip`).  The process wrapper only reads
//! and writes the file; every byte of its content is decided here.

use vstd::prelude::*;
use vstd::string::StrSliceExecFns;

use crate::errors::TrashError;
use crate::mv::Move;
use crate::mv::MoveV;
use crate::paths::is_absolute;
use crate::paths::path_join;
use crate::paths::spec_path_join;
use crate::strutil::join_lines;
use crate::strutil::lemma_join_elems;
use crate::strutil::lemma_join_push;
use crate::strutil::lemma_split_chunk;
use crate::strutil::lemma_split_len;
use crate::strutil::lemma_split_no_delim;
use crate::strutil::lemma_split_of_join;
use crate::strutil::spec_join;
use crate::strutil::spec_split;
use crate::strutil::split_str;
use crate::strutil::views_of;

verus! {

/// The reserved name of the history file inside the trash root.
pub open spec fn spec_hist_file_name() -> Seq<char> {
    seq!['.', 'h', 'i', 's', 't', 'o', 'r', 'y']
}

/// The line that starts a command in the persisted form.
pub open spec fn spec_marker() -> Seq<char> {
    seq!['C']
}

/// Whether a path may be persisted: absolute (so it can never be mistaken
/// for a command marker) and free of line breaks.
pub open spec fn spec_path_storable(p: Seq<char>) -> bool {
    is_absolute(p) && !p.contains('\n')
}

/// Whether both paths of a move may be persisted.
pub open spec fn spec_move_storable(m: MoveV) -> bool {
    spec_path_storable(m.src) && spec_path_storable(m.dest)
}

/// Whether every move of every command may be persisted.
pub open spec fn spec_history_storable(h: Seq<Seq<MoveV>>) -> bool {
    forall|i: int, j: int|
        0 <= i < h.len() && 0 <= j < h[i].len() ==> spec_move_storable(#[trigger] h[i][j])
}

/// The lines of one command's body: source and destination of each move.
pub open spec fn spec_body_lines(ms: Seq<MoveV>) -> Seq<Seq<char>>
    decreases ms.len(),
{
    if ms.len() == 0 {
        Seq::<Seq<char>>::empty()
    } else {
        seq![ms[0].src, ms[0].dest] + spec_body_lines(ms.skip(1))
    }
}

/// The line groups of a history: one leading empty group, then one body
/// per command.  Joining them with the marker yields the file's lines.
pub open spec fn spec_history_groups(h: Seq<Seq<MoveV>>) -> Seq<Seq<Seq<char>>> {
    seq![Seq::<Seq<char>>::empty()] + h.map_values(|ms: Seq<MoveV>| spec_body_lines(ms))
}

/// The lines of the persisted history.
pub open spec fn spec_history_lines(h: Seq<Seq<MoveV>>) -> Seq<Seq<char>> {
    spec_join(spec_history_groups(h), spec_marker())
}

/// The full text of the persisted history.
pub open spec fn spec_history_text(h: Seq<Seq<MoveV>>) -> Seq<char> {
    spec_join(spec_history_lines(h), '\n')
}

/// The moves encoded by one command body: pairs of absolute-path lines.
pub open spec fn spec_moves_of_body(b: Seq<Seq<char>>) -> Option<Seq<MoveV>>
    decreases b.len(),
{
    if b.len() == 0 {
        Some(Seq::<MoveV>::empty())
    } else if b.len() == 1 {
        Option::<Seq<MoveV>>::None
    } else if is_absolute(b[0]) && is_absolute(b[1]) {
        match spec_moves_of_body(b.skip(2)) {
            Option::Some(ms) => Some(seq![MoveV { src: b[0], dest: b[1] }] + ms),
            Option::None => Option::None,
        }
    } else {
        Option::None
    }
}

/// The commands encoded by the groups that follow the leading empty one.
pub open spec fn spec_cmds_of_groups(gs: Seq<Seq<Seq<char>>>) -> Option<Seq<Seq<MoveV>>>
    decreases gs.len(),
{
    if gs.len() == 0 {
        Some(Seq::<Seq<MoveV>>::empty())
    } else {
        match spec_moves_of_body(gs[0]) {
            Option::Some(ms) => match spec_cmds_of_groups(gs.skip(1)) {
                Option::Some(cs) => Some(seq![ms] + cs),
                Option::None => Option::None,
            },
            Option::None => Option::None,
        }
    }
}

/// What parsing a history file yields: its commands, or nothing when the
/// text is not a well-formed history.
pub open spec fn spec_parse_history(s: Seq<char>) -> Option<Seq<Seq<MoveV>>> {
    if s.len() == 0 {
        Some(Seq::<Seq<MoveV>>::empty())
    } else {
        let lines = spec_split(s, '\n');
        let groups = spec_split(lines, spec_marker());
        if groups[0].len() == 0 {
            spec_cmds_of_groups(groups.skip(1))
        } else {
            Option::None
        }
    }
}

/// One batch of moves performed by a single invocation of the tool.
#[derive(Debug, PartialEq, Eq)]
pub struct Command {
    files: Vec<Move>,
}

impl View for Command {
    type V = Seq<MoveV>;

    closed spec fn view(&self) -> Seq<MoveV> {
        self.files@.map_values(|m: Move| m@)
    }
}

impl Command {
    /// An empty command.
    pub fn new() -> (r: Command)
        ensures
            r@ == Seq::<MoveV>::empty(),
    {
        let files: Vec<Move> = Vec::new();
        proof {
            assert(files@.map_values(|m: Move| m@) =~= Seq::<MoveV>::empty());
        }
        Command { files }
    }

    /// Record one more completed move.
    pub fn add_file(&mut self, file: Move)
        ensures
            final(self)@ == old(self)@.push(file@),
    {
        proof {
            assert(self.files@.push(file).map_values(|m: Move| m@) =~= self.files@.map_values(
                |m: Move| m@,
            ).push(file@));
        }
        self.files.push(file);
    }
}

/// The ordered record of every command the tool has executed.
#[derive(Debug, PartialEq, Eq)]
pub struct History {
    history: Vec<Command>,
}

impl View for History {
    type V = Seq<Seq<MoveV>>;

    closed spec fn view(&self) -> Seq<Seq<MoveV>> {
        self.history@.map_values(|c: Command| c@)
    }
}

impl History {
    /// The full path of the history file inside `trash_root`.
    pub fn path(trash_root: &str) -> (r: String)
        ensures
            r@ == spec_path_join(trash_root@, spec_hist_file_name()),
    {
        let out = path_join(trash_root, ".history");
        proof {
            reveal_strlit(".history");
            assert(".history"@ =~= spec_hist_file_name());
        }
        out
    }

    /// An empty history, for the first run.
    pub fn new() -> (r: History)
        ensures
            r@ == Seq::<Seq<MoveV>>::empty(),
    {
        let history: Vec<Command> = Vec::new();
        proof {
            assert(history@.map_values(|c: Command| c@) =~= Seq::<Seq<MoveV>>::empty());
        }
        History { history }
    }

    /// Append one executed command to the record.
    pub fn add_command(&mut self, cmd: Command)
        ensures
            final(self)@ == old(self)@.push(cmd@),
    {
        proof {
            assert(self.history@.push(cmd).map_values(|c: Command| c@) =~= self.history@.map_values(
                |c: Command| c@,
            ).push(cmd@));
        }
        self.history.push(cmd);
    }

    /// Serialize the whole history into its persisted text form.
    pub fn to_text(&self) -> (r: String)
        ensures
            r@ == spec_history_text(self@),
    {
        let ghost h = self@;
        let ghost m = spec_marker();
        let ghost groups = spec_history_groups(h);
        let mut lines: Vec<String> = Vec::new();
        let mut i: usize = 0;
        proof {
            assert(groups.take(1) =~= seq![Seq::<Seq<char>>::empty()]);
            assert(spec_join(seq![Seq::<Seq<char>>::empty()], m) == Seq::<Seq<char>>::empty());
            assert(views_of(lines@) =~= Seq::<Seq<char>>::empty());
        }
        while i < self.history.len()
            invariant
                i <= self.history@.len(),
                h == self@,
                m == spec_marker(),
                groups == spec_history_groups(h),
                h.len() == self.history@.len(),
                views_of(lines@) == spec_join(groups.take(i + 1), m),
            decreases self.history@.len() - i,
        {
            let cmd = &self.history[i];
            let ghost cmdv = cmd@;
            let marker_line = String::from_str("C");
            proof {
                reveal_strlit("C");
                assert(marker_line@ =~= m);
                assert(views_of(lines@.push(marker_line)) =~= views_of(lines@) + seq![m]);
            }
            lines.push(marker_line);
            let ghost pre = views_of(lines@);
            let mut j: usize = 0;
            proof {
                assert(cmdv.take(0) =~= Seq::<MoveV>::empty());
                assert(spec_body_lines(Seq::<MoveV>::empty()) =~= Seq::<Seq<char>>::empty());
                assert(pre + spec_body_lines(cmdv.take(0)) =~= pre);
            }
            while j < cmd.files.len()
                invariant
                    j <= cmd.files@.len(),
                    cmdv == cmd@,
                    cmdv.len() == cmd.files@.len(),
                    views_of(lines@) == pre + spec_body_lines(cmdv.take(j as int)),
                decreases cmd.files@.len() - j,
            {
                let src_line = cmd.files[j].src.clone();
                let dest_line = cmd.files[j].dest.clone();
                proof {
                    assert(cmdv[j as int] == cmd.files@[j as int]@);
                    lemma_body_lines_push(cmdv.take(j as int), cmdv[j as int]);
                    assert(cmdv.take(j + 1) =~= cmdv.take(j as int).push(cmdv[j as int]));
                    assert(views_of(lines@.push(src_line).push(dest_line)) =~= views_of(lines@)
                        + seq![cmdv[j as int].src, cmdv[j as int].dest]);
                    assert((pre + spec_body_lines(cmdv.take(j as int))) + seq![
                        cmdv[j as int].src,
                        cmdv[j as int].dest,
                    ] =~= pre + (spec_body_lines(cmdv.take(j as int)) + seq![
                        cmdv[j as int].src,
                        cmdv[j as int].dest,
                    ]));
                }
                lines.push(src_line);
                lines.push(dest_line);
                j += 1;
            }
            proof {
                assert(cmdv.take(cmdv.len() as int) =~= cmdv);
                lemma_join_push(groups.take(i + 1), groups[i + 1], m);
                assert(groups.take(i + 2) =~= groups.take(i + 1).push(groups[i + 1]));
                assert(h[i as int] == cmdv);
                assert(groups[i + 1] == spec_body_lines(h[i as int]));
            }
            i += 1;
        }
        proof {
            assert(groups.take(groups.len() as int) =~= groups);
            assert(groups.len() == h.len() + 1);
        }
        join_lines(&lines)
    }
}

/// The views of a sequence of owned line groups.
pub open spec fn groups_view(gs: Seq<Vec<String>>) -> Seq<Seq<Seq<char>>> {
    gs.map_values(|g: Vec<String>| views_of(g@))
}

/// Whether `line` is the command marker.
fn is_marker(line: &str) -> (r: bool)
    ensures
        r == (line@ == spec_marker()),
{
    if line.unicode_len() == 1 && line.get_char(0) == 'C' {
        proof {
            assert(line@ =~= spec_marker());
        }
        true
    } else {
        false
    }
}

/// Whether `line` begins with a slash.
fn is_absolute_line(line: &str) -> (r: bool)
    ensures
        r == is_absolute(line@),
{
    line.unicode_len() > 0 && line.get_char(0) == '/'
}

/// Divide the file's lines into groups at the marker lines.
fn group_by_marker(lines: &Vec<String>) -> (r: Vec<Vec<String>>)
    ensures
        groups_view(r@) == spec_split(views_of(lines@), spec_marker()),
{
    let ghost lv = views_of(lines@);
    let ghost m = spec_marker();
    let mut out: Vec<Vec<String>> = Vec::new();
    let mut cur: Vec<String> = Vec::new();
    let mut i: usize = 0;
    proof {
        assert(lv.skip(0) =~= lv);
        assert(views_of(cur@) =~= Seq::<Seq<char>>::empty());
        assert(views_of(cur@) + lv =~= lv);
        assert(groups_view(out@) + spec_split(lv, m) =~= spec_split(lv, m));
    }
    while i < lines.len()
        invariant
            i <= lines@.len(),
            lv == views_of(lines@),
            m == spec_marker(),
            !views_of(cur@).contains(m),
            spec_split(lv, m) == groups_view(out@) + spec_split(
                views_of(cur@) + lv.skip(i as int),
                m,
            ),
        decreases lines@.len() - i,
    {
        let line = &lines[i];
        proof {
            assert(lv.skip(i as int)[0] == line@);
        }
        if is_marker(line.as_str()) {
            proof {
                assert(views_of(cur@) + lv.skip(i as int) =~= (views_of(cur@) + seq![m]) + lv.skip(
                    i + 1,
                ));
                assert((views_of(cur@) + seq![m]) + lv.skip(i + 1) =~= views_of(cur@) + seq![m]
                    + lv.skip(i + 1));
                lemma_split_chunk(views_of(cur@), lv.skip(i + 1), m);
                assert(groups_view(out@.push(cur)) =~= groups_view(out@) + seq![views_of(cur@)]);
                assert((groups_view(out@) + seq![views_of(cur@)]) + spec_split(lv.skip(i + 1), m)
                    =~= groups_view(out@) + (seq![views_of(cur@)] + spec_split(lv.skip(i + 1), m)));
            }
            out.push(cur);
            cur = Vec::new();
            proof {
                assert(views_of(cur@) =~= Seq::<Seq<char>>::empty());
                assert(views_of(cur@) + lv.skip(i + 1) =~= lv.skip(i + 1));
            }
        } else {
            let owned = line.clone();
            proof {
                assert(views_of(cur@.push(owned)) =~= views_of(cur@).push(line@));
                assert(views_of(cur@).push(line@) + lv.skip(i + 1) =~= views_of(cur@) + lv.skip(
                    i as int,
                ));
                assert(!views_of(cur@.push(owned)).contains(m)) by {
                    let newv = views_of(cur@.push(owned));
                    if newv.contains(m) {
                        let k = choose|k: int| 0 <= k < newv.len() && newv[k] == m;
                        if k < views_of(cur@).len() {
                            assert(views_of(cur@)[k] == m);
                        } else {
                            assert(line@ == m);
                        }
                    }
                }
            }
            cur.push(owned);
        }
        i += 1;
    }
    proof {
        assert(lv.skip(lines@.len() as int) =~= Seq::<Seq<char>>::empty());
        assert(views_of(cur@) + Seq::<Seq<char>>::empty() =~= views_of(cur@));
        lemma_split_no_delim(views_of(cur@), m);
        assert(groups_view(out@.push(cur)) =~= groups_view(out@) + seq![views_of(cur@)]);
    }
    out.push(cur);
    out
}

impl History {
    /// Parse the persisted text form back into a history.  Exactly the
    /// texts that encode a history are accepted; anything else is a
    /// `CorruptHistory` error.
    #[verifier::loop_isolation(false)]
    pub fn parse(s: &str) -> (r: Result<History, TrashError>)
        ensures
            match r {
                Result::Ok(h) => spec_parse_history(s@) == Some(h@),
                Result::Err(e) => spec_parse_history(s@) is None && e
                    == TrashError::CorruptHistory,
            },
    {
        let ghost m = spec_marker();
        if s.unicode_len() == 0 {
            let h = History::new();
            return Ok(h);
        }
        let lines = split_str(s, '\n');
        let groups = group_by_marker(&lines);
        let ghost gv = spec_split(views_of(lines@), m);
        proof {
            lemma_split_len(views_of(lines@), m);
            assert(gv[0] == groups_view(groups@)[0]);
        }
        if groups[0].len() > 0 {
            proof {
                assert(gv[0].len() > 0);
            }
            return Err(TrashError::CorruptHistory);
        }
        let mut hist = History::new();
        let mut i: usize = 1;
        proof {
            assert(hist@ =~= Seq::<Seq<MoveV>>::empty());
        }
        while i < groups.len()
            invariant
                1 <= i <= groups@.len(),
                gv == groups_view(groups@),
                match spec_cmds_of_groups(gv.skip(i as int)) {
                    Option::Some(cs) => spec_cmds_of_groups(gv.skip(1)) == Some(hist@ + cs),
                    Option::None => spec_cmds_of_groups(gv.skip(1)) is None,
                },
            decreases groups@.len() - i,
        {
            let body = &groups[i];
            let ghost bv = views_of(body@);
            proof {
                assert(gv.skip(i as int)[0] == bv);
                assert(gv.skip(i as int).skip(1) =~= gv.skip(i + 1));
            }
            let mut cmd = Command::new();
            let mut j: usize = 0;
            proof {
                assert(bv.skip(0) =~= bv);
                assert(cmd@ =~= Seq::<MoveV>::empty());
            }
            while j < body.len()
                invariant
                    j <= body@.len(),
                    bv == views_of(body@),
                    match spec_moves_of_body(bv.skip(j as int)) {
                        Option::Some(ms) => spec_moves_of_body(bv) == Some(cmd@ + ms),
                        Option::None => spec_moves_of_body(bv) is None,
                    },
                decreases body@.len() - j,
            {
                if j + 1 >= body.len() {
                    proof {
                        assert(bv.skip(j as int).len() == 1);
                        assert(spec_moves_of_body(bv) is None);
                        assert(spec_cmds_of_groups(gv.skip(i as int)) is None);
                    }
                    return Err(TrashError::CorruptHistory);
                }
                let src_ok = is_absolute_line(body[j].as_str());
                let dest_ok = is_absolute_line(body[j + 1].as_str());
                proof {
                    assert(bv.skip(j as int)[0] == bv[j as int]);
                    assert(bv.skip(j as int)[1] == bv[j + 1]);
                    assert(bv[j as int] == body@[j as int]@);
                    assert(bv[j + 1] == body@[j + 1]@);
                }
                if !src_ok || !dest_ok {
                    proof {
                        assert(spec_moves_of_body(bv) is None);
                        assert(spec_cmds_of_groups(gv.skip(i as int)) is None);
                    }
                    return Err(TrashError::CorruptHistory);
                }
                let mv = Move::new(body[j].as_str(), body[j + 1].as_str());
                proof {
                    assert(bv.skip(j as int).skip(2) =~= bv.skip(j + 2));
                    let ghost mvv = MoveV { src: bv[j as int], dest: bv[j + 1] };
                    assert(mv@ =~~= mvv);
                    if spec_moves_of_body(bv.skip(j + 2)) is Some {
                        let ms = spec_moves_of_body(bv.skip(j + 2))->0;
                        assert(spec_moves_of_body(bv.skip(j as int)) == Some(seq![mvv] + ms));
                        assert(cmd@ + (seq![mvv] + ms) =~= cmd@.push(mvv) + ms);
                    } else {
                        assert(spec_moves_of_body(bv.skip(j as int)) is None);
                    }
                }
                cmd.add_file(mv);
                j += 2;
            }
            proof {
                assert(bv.skip(body@.len() as int) =~= Seq::<Seq<char>>::empty());
                assert(spec_moves_of_body(Seq::<Seq<char>>::empty()) == Some(
                    Seq::<MoveV>::empty(),
                ));
                assert(cmd@ + Seq::<MoveV>::empty() =~= cmd@);
                assert(spec_moves_of_body(bv) == Some(cmd@));
                if spec_cmds_of_groups(gv.skip(i + 1)) is Some {
                    let cs = spec_cmds_of_groups(gv.skip(i + 1))->0;
                    assert(spec_cmds_of_groups(gv.skip(i as int)) == Some(seq![cmd@] + cs));
                    assert(hist@ + (seq![cmd@] + cs) =~= hist@.push(cmd@) + cs);
                } else {
                    assert(spec_cmds_of_groups(gv.skip(i as int)) is None);
                }
            }
            hist.add_command(cmd);
            i += 1;
        }
        proof {
            assert(gv.skip(groups@.len() as int) =~= Seq::<Seq<Seq<char>>>::empty());
            assert(spec_cmds_of_groups(Seq::<Seq<Seq<char>>>::empty()) == Some(
                Seq::<Seq<MoveV>>::empty(),
            ));
            assert(hist@ + Seq::<Seq<MoveV>>::empty() =~= hist@);
        }
        Ok(hist)
    }
}

/// One more move at the end of a command contributes its two lines at the
/// end of the body.
proof fn lemma_body_lines_push(ms: Seq<MoveV>, mv: MoveV)
    ensures
        spec_body_lines(ms.push(mv)) == spec_body_lines(ms) + seq![mv.src, mv.dest],
    decreases ms.len(),
{
    if ms.len() == 0 {
        assert(ms.push(mv)[0] == mv);
        assert(ms.push(mv).skip(1) =~= Seq::<MoveV>::empty());
        assert(spec_body_lines(Seq::<MoveV>::empty()) =~= Seq::<Seq<char>>::empty());
        assert(spec_body_lines(ms.push(mv)) =~= spec_body_lines(ms) + seq![mv.src, mv.dest]);
    } else {
        lemma_body_lines_push(ms.skip(1), mv);
        assert(ms.push(mv).skip(1) =~= ms.skip(1).push(mv));
        assert(ms.push(mv)[0] == ms[0]);
        assert(spec_body_lines(ms.push(mv)) == seq![ms[0].src, ms[0].dest] + spec_body_lines(
            ms.skip(1).push(mv),
        ));
        assert(spec_body_lines(ms) == seq![ms[0].src, ms[0].dest] + spec_body_lines(ms.skip(1)));
        assert(spec_body_lines(ms.push(mv)) =~= spec_body_lines(ms) + seq![mv.src, mv.dest]);
    }
}

/// A body built from storable moves holds twice as many lines, all of
/// them storable paths.
proof fn lemma_body_lines_storable(ms: Seq<MoveV>)
    requires
        forall|j: int| 0 <= j < ms.len() ==> spec_move_storable(#[trigger] ms[j]),
    ensures
        spec_body_lines(ms).len() == 2 * ms.len(),
        forall|k: int|
            0 <= k < spec_body_lines(ms).len() ==> spec_path_storable(
                #[trigger] spec_body_lines(ms)[k],
            ),
    decreases ms.len(),
{
    if ms.len() == 0 {
    } else {
        assert forall|j: int|
            0 <= j < ms.skip(1).len() implies spec_move_storable(#[trigger] ms.skip(1)[j]) by {
            assert(ms.skip(1)[j] == ms[j + 1]);
        }
        lemma_body_lines_storable(ms.skip(1));
        let b = spec_body_lines(ms);
        assert(b == seq![ms[0].src, ms[0].dest] + spec_body_lines(ms.skip(1)));
        assert(spec_move_storable(ms[0]));
        assert forall|k: int| 0 <= k < b.len() implies spec_path_storable(b[k]) by {
            if k == 0 {
                assert(b[k] == ms[0].src);
            } else if k == 1 {
                assert(b[k] == ms[0].dest);
            } else {
                assert(b[k] == spec_body_lines(ms.skip(1))[k - 2]);
            }
        }
    }
}

/// A body built from storable moves parses back to exactly those moves.
proof fn lemma_moves_of_body_inverse(ms: Seq<MoveV>)
    requires
        forall|j: int| 0 <= j < ms.len() ==> spec_move_storable(#[trigger] ms[j]),
    ensures
        spec_moves_of_body(spec_body_lines(ms)) == Some(ms),
    decreases ms.len(),
{
    if ms.len() == 0 {
        assert(Seq::<MoveV>::empty() =~= ms);
    } else {
        assert forall|j: int|
            0 <= j < ms.skip(1).len() implies spec_move_storable(#[trigger] ms.skip(1)[j]) by {
            assert(ms.skip(1)[j] == ms[j + 1]);
        }
        lemma_moves_of_body_inverse(ms.skip(1));
        lemma_body_lines_storable(ms);
        let b = spec_body_lines(ms);
        assert(b == seq![ms[0].src, ms[0].dest] + spec_body_lines(ms.skip(1)));
        assert(b.len() >= 2);
        assert(b[0] == ms[0].src);
        assert(b[1] == ms[0].dest);
        assert(spec_move_storable(ms[0]));
        assert(b.skip(2) =~= spec_body_lines(ms.skip(1)));
        assert(MoveV { src: b[0], dest: b[1] } =~~= ms[0]);
        assert(seq![MoveV { src: b[0], dest: b[1] }] + ms.skip(1) =~= ms);
    }
}

/// The groups built from a storable history parse back to exactly its
/// commands.
proof fn lemma_cmds_of_groups_inverse(h: Seq<Seq<MoveV>>)
    requires
        spec_history_storable(h),
    ensures
        spec_cmds_of_groups(h.map_values(|ms: Seq<MoveV>| spec_body_lines(ms))) == Some(h),
    decreases h.len(),
{
    let body = |ms: Seq<MoveV>| spec_body_lines(ms);
    let gs = h.map_values(body);
    if h.len() == 0 {
        assert(gs.len() == 0);
        assert(Seq::<Seq<MoveV>>::empty() =~= h);
    } else {
        assert(spec_history_storable(h.skip(1))) by {
            assert forall|i: int, j: int|
                0 <= i < h.skip(1).len() && 0 <= j < h.skip(1)[i].len() implies spec_move_storable(
                #[trigger] h.skip(1)[i][j],
            ) by {
                assert(h.skip(1)[i] == h[i + 1]);
                assert(spec_move_storable(h[i + 1][j]));
            }
        }
        lemma_cmds_of_groups_inverse(h.skip(1));
        assert(gs[0] == spec_body_lines(h[0]));
        assert forall|j: int| 0 <= j < h[0].len() implies spec_move_storable(#[trigger] h[0][j]) by {
        }
        lemma_moves_of_body_inverse(h[0]);
        assert(gs.skip(1) =~= h.skip(1).map_values(body));
        assert(spec_cmds_of_groups(gs) == Some(seq![h[0]] + h.skip(1)));
        assert(seq![h[0]] + h.skip(1) =~= h);
    }
}

/// Round trip: parsing the persisted text of any storable history yields
/// exactly that history.  (A history made by this tool is storable: every
/// recorded path is absolute, and no path holds a line break.)
pub proof fn lemma_history_round_trip(h: Seq<Seq<MoveV>>)
    requires
        spec_history_storable(h),
    ensures
        spec_parse_history(spec_history_text(h)) == Some(h),
{
    let m = spec_marker();
    let groups = spec_history_groups(h);
    let lines = spec_history_lines(h);
    let text = spec_history_text(h);
    assert(groups[0].len() == 0);
    if h.len() == 0 {
        assert(groups =~= seq![Seq::<Seq<char>>::empty()]);
        assert(lines == spec_join(seq![Seq::<Seq<char>>::empty()], m));
        assert(lines =~= Seq::<Seq<char>>::empty());
        assert(text =~= Seq::<char>::empty());
        assert(Seq::<Seq<MoveV>>::empty() =~= h);
    } else {
        let storable_line = |l: Seq<char>| l == m || spec_path_storable(l);
        assert forall|i: int, j: int|
            0 <= i < groups.len() && 0 <= j < groups[i].len() implies spec_path_storable(
            #[trigger] groups[i][j],
        ) by {
            assert(i != 0);
            assert(groups[i] == spec_body_lines(h[i - 1]));
            assert forall|k: int|
                0 <= k < h[i - 1].len() implies spec_move_storable(#[trigger] h[i - 1][k]) by {}
            lemma_body_lines_storable(h[i - 1]);
        }
        assert forall|i: int, j: int|
            0 <= i < groups.len() && 0 <= j < groups[i].len() implies storable_line(
            #[trigger] groups[i][j],
        ) by {
            assert(spec_path_storable(groups[i][j]));
        }
        lemma_join_elems(groups, m, storable_line);
        // the first line is the first command's marker
        assert(groups.len() >= 2);
        assert(lines == groups[0] + seq![m] + spec_join(groups.skip(1), m));
        assert(lines.len() >= 1);
        assert(lines[0] == m);
        // lines never contain a line break, so splitting the text undoes
        // the join
        assert(!m.contains('\n')) by {
            if m.contains('\n') {
                let k = choose|k: int| 0 <= k < m.len() && m[k] == '\n';
                assert(m[0] == 'C');
            }
        }
        assert forall|k: int| 0 <= k < lines.len() implies !(#[trigger] lines[k]).contains('\n') by {
            assert(storable_line(lines[k]));
        }
        lemma_split_of_join(lines, '\n');
        // the text is not empty, so parsing takes the non-trivial branch
        assert(text.len() > 0) by {
            if lines.len() == 1 {
                assert(text == lines[0]);
            } else {
                assert(text == lines[0] + seq!['\n'] + spec_join(lines.skip(1), '\n'));
            }
        }
        // no group holds the marker as a line, so splitting the lines
        // undoes the group join
        assert forall|i: int| 0 <= i < groups.len() implies !(#[trigger] groups[i]).contains(m) by {
            if groups[i].contains(m) {
                let j = choose|j: int| 0 <= j < groups[i].len() && groups[i][j] == m;
                assert(storable_line(groups[i][j]));
                assert(spec_path_storable(m));
                assert(m[0] == 'C');
            }
        }
        lemma_split_of_join(groups, m);
        assert(groups.skip(1) =~= h.map_values(|ms: Seq<MoveV>| spec_body_lines(ms)));
        lemma_cmds_of_groups_inverse(h);
    }
}

} // verus!
