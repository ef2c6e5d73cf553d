//! Reading the system mount table.
//!
//! The table is a line-oriented text file.  Every non-comment line with at
//! least four whitespace-separated fields describes one mounted volume;
//! comment lines (first non-blank character `#`) and shorter lines are
//! skipped.  The caller reads the file and hands its contents in as a
//! string; parsing itself touches no filesystem state.

use vstd::prelude::*;
use vstd::string::StringExecFns;
use vstd::string::StrSliceExecFns;

use crate::strutil::spec_split;
use crate::strutil::split_str;
use crate::strutil::views_of;

verus! {

/// One entry of the mount table.
pub struct MountedDrive {
    pub device: String,
    pub mount_point: String,
    pub file_system: String,
    pub options: String,
}

/// The mathematical content of a `MountedDrive`.
#[verifier::ext_equal]
pub ghost struct DriveV {
    pub device: Seq<char>,
    pub mount_point: Seq<char>,
    pub file_system: Seq<char>,
    pub options: Seq<char>,
}

impl View for MountedDrive {
    type V = DriveV;

    open spec fn view(&self) -> DriveV {
        DriveV {
            device: self.device@,
            mount_point: self.mount_point@,
            file_system: self.file_system@,
            options: self.options@,
        }
    }
}

/// The whitespace characters that separate fields within a line.
pub open spec fn is_space(c: char) -> bool {
    c == ' ' || c == '\t' || c == '\n' || c == '\r' || c == '\u{b}' || c == '\u{c}'
}

/// The maximal whitespace-free runs of `s`, in order.
pub open spec fn spec_fields(s: Seq<char>) -> Seq<Seq<char>>
    decreases s.len(),
{
    if s.len() == 0 {
        Seq::<Seq<char>>::empty()
    } else if is_space(s[0]) {
        spec_fields(s.skip(1))
    } else {
        let rest = spec_fields(s.skip(1));
        if s.len() >= 2 && !is_space(s[1]) {
            seq![seq![s[0]] + rest[0]] + rest.skip(1)
        } else {
            seq![seq![s[0]]] + rest
        }
    }
}

/// Whether the first non-blank character of `s` is a comment mark.
pub open spec fn spec_is_comment(s: Seq<char>) -> bool
    decreases s.len(),
{
    if s.len() == 0 {
        false
    } else if is_space(s[0]) {
        spec_is_comment(s.skip(1))
    } else {
        s[0] == '#'
    }
}

/// A line that yields a record: not a comment, at least four fields.
pub open spec fn spec_line_good(l: Seq<char>) -> bool {
    !spec_is_comment(l) && spec_fields(l).len() >= 4
}

/// The record a good line yields: its first four fields.
pub open spec fn spec_record_of(l: Seq<char>) -> DriveV {
    let fs = spec_fields(l);
    DriveV { device: fs[0], mount_point: fs[1], file_system: fs[2], options: fs[3] }
}

/// The records of a good line, and nothing of any other line.
pub open spec fn spec_line_records(l: Seq<char>) -> Seq<DriveV> {
    if spec_line_good(l) {
        seq![spec_record_of(l)]
    } else {
        Seq::<DriveV>::empty()
    }
}

/// The records of a sequence of lines, in order.
pub open spec fn spec_mtab_lines(ls: Seq<Seq<char>>) -> Seq<DriveV>
    decreases ls.len(),
{
    if ls.len() == 0 {
        Seq::<DriveV>::empty()
    } else {
        spec_line_records(ls[0]) + spec_mtab_lines(ls.skip(1))
    }
}

/// What parsing a whole mount-table file yields.
pub open spec fn spec_parse_mtab(content: Seq<char>) -> Seq<DriveV> {
    spec_mtab_lines(spec_split(content, '\n'))
}

/// Whether `c` separates fields.
fn is_space_char(c: char) -> (r: bool)
    ensures
        r == is_space(c),
{
    c == ' ' || c == '\t' || c == '\n' || c == '\r' || c == '\u{b}' || c == '\u{c}'
}

/// A token runs from a boundary to the next separator or the end.
proof fn lemma_fields_token(s: Seq<char>, m: int)
    requires
        0 < m <= s.len(),
        forall|k: int| 0 <= k < m ==> !is_space(#[trigger] s[k]),
        m == s.len() || is_space(s[m]),
    ensures
        spec_fields(s) == seq![s.take(m)] + spec_fields(s.skip(m)),
    decreases m,
{
    if m == 1 {
        assert(s.take(1) =~= seq![s[0]]);
        if s.len() == 1 {
            assert(s.skip(1) =~= Seq::<char>::empty());
            assert(spec_fields(s) =~~= seq![s.take(1)] + spec_fields(s.skip(1)));
        } else {
            assert(is_space(s[1]));
            assert(spec_fields(s) =~~= seq![s.take(1)] + spec_fields(s.skip(1)));
        }
    } else {
        assert(!is_space(s[1]));
        lemma_fields_token(s.skip(1), m - 1);
        let rest = spec_fields(s.skip(1));
        assert(rest[0] == s.skip(1).take(m - 1));
        assert(seq![s[0]] + s.skip(1).take(m - 1) =~= s.take(m));
        assert(rest.skip(1) =~= spec_fields(s.skip(1).skip(m - 1)));
        assert(s.skip(1).skip(m - 1) =~= s.skip(m));
        assert(spec_fields(s) =~~= seq![s.take(m)] + spec_fields(s.skip(m)));
    }
}

/// The whitespace-separated fields of `line`, in order.
pub fn fields(line: &str) -> (r: Vec<String>)
    ensures
        views_of(r@) == spec_fields(line@),
{
    let n = line.unicode_len();
    let mut out: Vec<String> = Vec::new();
    let mut i: usize = 0;
    proof {
        assert(line@.skip(0) =~= line@);
        assert(views_of(out@) + spec_fields(line@) =~= spec_fields(line@));
    }
    while i < n
        invariant
            i <= n,
            n == line@.len(),
            spec_fields(line@) == views_of(out@) + spec_fields(line@.skip(i as int)),
        decreases n - i,
    {
        if is_space_char(line.get_char(i)) {
            proof {
                assert(line@.skip(i as int).skip(1) =~= line@.skip(i + 1));
            }
            i += 1;
        } else {
            let start = i;
            let mut j: usize = i + 1;
            while j < n && !is_space_char(line.get_char(j))
                invariant
                    start < j <= n,
                    n == line@.len(),
                    forall|k: int| start <= k < j ==> !is_space(#[trigger] line@[k]),
                decreases n - j,
            {
                j += 1;
            }
            let token = line.substring_char(start, j);
            let owned = String::from_str(token);
            proof {
                let s = line@.skip(start as int);
                let m = j - start;
                assert(forall|k: int| 0 <= k < m ==> !is_space(#[trigger] s[k]));
                assert(m == s.len() || is_space(s[m]));
                lemma_fields_token(s, m);
                assert(s.take(m) =~= line@.subrange(start as int, j as int));
                assert(s.skip(m) =~= line@.skip(j as int));
                assert(views_of(out@.push(owned)) =~= views_of(out@) + seq![owned@]);
                assert(views_of(out@) + (seq![owned@] + spec_fields(line@.skip(j as int)))
                    =~= (views_of(out@) + seq![owned@]) + spec_fields(line@.skip(j as int)));
            }
            out.push(owned);
            i = j;
        }
    }
    proof {
        assert(line@.skip(n as int) =~= Seq::<char>::empty());
        assert(views_of(out@) + spec_fields(Seq::<char>::empty()) =~= views_of(out@));
    }
    out
}

/// Whether `line` is a comment: its first non-blank character is `#`.
pub fn is_comment(line: &str) -> (r: bool)
    ensures
        r == spec_is_comment(line@),
{
    let n = line.unicode_len();
    let mut i: usize = 0;
    proof {
        assert(line@.skip(0) =~= line@);
    }
    while i < n && is_space_char(line.get_char(i))
        invariant
            i <= n,
            n == line@.len(),
            spec_is_comment(line@) == spec_is_comment(line@.skip(i as int)),
        decreases n - i,
    {
        proof {
            assert(line@.skip(i as int).skip(1) =~= line@.skip(i + 1));
        }
        i += 1;
    }
    if i == n {
        proof {
            assert(line@.skip(n as int) =~= Seq::<char>::empty());
        }
        false
    } else {
        line.get_char(i) == '#'
    }
}

/// Parse the contents of a mount-table file.  Each non-comment line with
/// at least four fields yields one record built from its first four
/// fields; every other line is skipped.  An empty file yields no records.
pub fn parse_mtab(content: &str) -> (r: Vec<MountedDrive>)
    ensures
        r@.map_values(|m: MountedDrive| m@) == spec_parse_mtab(content@),
{
    let lines = split_str(content, '\n');
    let ghost lsv = spec_split(content@, '\n');
    let mut out: Vec<MountedDrive> = Vec::new();
    let mut i: usize = 0;
    proof {
        assert(lsv.skip(0) =~= lsv);
        assert(out@.map_values(|m: MountedDrive| m@) + spec_mtab_lines(lsv) =~= spec_mtab_lines(
            lsv,
        ));
    }
    while i < lines.len()
        invariant
            i <= lines@.len(),
            views_of(lines@) == lsv,
            spec_mtab_lines(lsv) == out@.map_values(|m: MountedDrive| m@) + spec_mtab_lines(
                lsv.skip(i as int),
            ),
        decreases lines@.len() - i,
    {
        let line = &lines[i];
        let fs = fields(line.as_str());
        let comment = is_comment(line.as_str());
        proof {
            assert(lsv.skip(i as int)[0] == line@);
            assert(lsv.skip(i as int).skip(1) =~= lsv.skip(i + 1));
        }
        if !comment && fs.len() >= 4 {
            let drive = MountedDrive {
                device: fs[0].clone(),
                mount_point: fs[1].clone(),
                file_system: fs[2].clone(),
                options: fs[3].clone(),
            };
            proof {
                assert(drive@ =~~= spec_record_of(line@));
                assert(out@.push(drive).map_values(|m: MountedDrive| m@) =~= out@.map_values(
                    |m: MountedDrive| m@,
                ) + seq![drive@]);
                assert(out@.map_values(|m: MountedDrive| m@) + (seq![drive@] + spec_mtab_lines(
                    lsv.skip(i + 1),
                )) =~= (out@.map_values(|m: MountedDrive| m@) + seq![drive@]) + spec_mtab_lines(
                    lsv.skip(i + 1),
                ));
            }
            out.push(drive);
        }
        i += 1;
    }
    proof {
        assert(lsv.skip(lines@.len() as int) =~= Seq::<Seq<char>>::empty());
        assert(out@.map_values(|m: MountedDrive| m@) + spec_mtab_lines(
            Seq::<Seq<char>>::empty(),
        ) =~= out@.map_values(|m: MountedDrive| m@));
    }
    out
}

/// One more line at the end contributes its records at the end.
proof fn lemma_mtab_lines_push(ls: Seq<Seq<char>>, l: Seq<char>)
    ensures
        spec_mtab_lines(ls.push(l)) == spec_mtab_lines(ls) + spec_line_records(l),
    decreases ls.len(),
{
    if ls.len() == 0 {
        assert(ls.push(l)[0] == l);
        assert(ls.push(l).skip(1) =~= Seq::<Seq<char>>::empty());
        assert(spec_mtab_lines(Seq::<Seq<char>>::empty()) =~= Seq::<DriveV>::empty());
        assert(spec_mtab_lines(ls.push(l)) =~= spec_mtab_lines(ls) + spec_line_records(l));
    } else {
        lemma_mtab_lines_push(ls.skip(1), l);
        assert(ls.push(l).skip(1) =~= ls.skip(1).push(l));
        assert(ls.push(l)[0] == ls[0]);
        assert(spec_mtab_lines(ls.push(l)) == spec_line_records(ls[0]) + spec_mtab_lines(
            ls.skip(1).push(l),
        ));
        assert(spec_mtab_lines(ls) == spec_line_records(ls[0]) + spec_mtab_lines(ls.skip(1)));
        assert(spec_mtab_lines(ls.push(l)) =~= spec_mtab_lines(ls) + spec_line_records(l));
    }
}

/// Exactly the good lines yield records, in order: parsing a sequence of
/// lines gives the records of its good lines and nothing else.
pub proof fn lemma_mtab_records(ls: Seq<Seq<char>>)
    ensures
        spec_mtab_lines(ls) == ls.filter(|l: Seq<char>| spec_line_good(l)).map_values(
            |l: Seq<char>| spec_record_of(l),
        ),
    decreases ls.len(),
{
    reveal(Seq::filter);
    let good = |l: Seq<char>| spec_line_good(l);
    let rec = |l: Seq<char>| spec_record_of(l);
    if ls.len() == 0 {
        assert(ls.filter(good) =~= Seq::<Seq<char>>::empty());
        assert(spec_mtab_lines(ls) =~= ls.filter(good).map_values(rec));
    } else {
        let l = ls.last();
        let front = ls.drop_last();
        lemma_mtab_records(front);
        assert(front.push(l) =~= ls);
        lemma_mtab_lines_push(front, l);
        if good(l) {
            assert(ls.filter(good) == front.filter(good).push(l));
            assert(front.filter(good).push(l).map_values(rec) =~= front.filter(good).map_values(
                rec,
            ) + seq![rec(l)]);
        } else {
            assert(ls.filter(good) == front.filter(good));
            assert(spec_mtab_lines(front) + spec_line_records(l) =~= spec_mtab_lines(front));
        }
        assert(spec_mtab_lines(ls) =~= ls.filter(good).map_values(rec));
    }
}

} // verus!
