//! Sequence splitting and joining, plus small executable string helpers.
//!
//! The mount-table reader splits file contents into lines and lines into
//! fields; the history store joins records into lines and splits them back.
//! Both sides are specified with the generic `spec_split` / `spec_join`
//! pair below, related by `lemma_split_of_join`.

use vstd::prelude::*;
use vstd::string::StringExecFns;
use vstd::string::StrSliceExecFns;

verus! {

/// `s` divided at every occurrence of `d`; the delimiters themselves are
/// dropped.  The result always has at least one (possibly empty) chunk.
pub open spec fn spec_split<A>(s: Seq<A>, d: A) -> Seq<Seq<A>>
    decreases s.len(),
{
    if s.len() == 0 {
        seq![Seq::<A>::empty()]
    } else if s[0] == d {
        seq![Seq::<A>::empty()] + spec_split(s.skip(1), d)
    } else {
        let rest = spec_split(s.skip(1), d);
        seq![seq![s[0]] + rest[0]] + rest.skip(1)
    }
}

/// The chunks glued back together with a single `d` between neighbours.
pub open spec fn spec_join<A>(chunks: Seq<Seq<A>>, d: A) -> Seq<A>
    decreases chunks.len(),
{
    if chunks.len() == 0 {
        Seq::<A>::empty()
    } else if chunks.len() == 1 {
        chunks[0]
    } else {
        chunks[0] + seq![d] + spec_join(chunks.skip(1), d)
    }
}

/// The views of a sequence of owned strings.
pub open spec fn views_of(v: Seq<String>) -> Seq<Seq<char>> {
    v.map_values(|s: String| s@)
}

pub proof fn lemma_split_len<A>(s: Seq<A>, d: A)
    ensures
        spec_split(s, d).len() >= 1,
    decreases s.len(),
{
    if s.len() != 0 {
        lemma_split_len(s.skip(1), d);
    }
}

/// Splitting a delimiter-free sequence yields that sequence alone.
pub proof fn lemma_split_no_delim<A>(s: Seq<A>, d: A)
    requires
        !s.contains(d),
    ensures
        spec_split(s, d) == seq![s],
    decreases s.len(),
{
    if s.len() == 0 {
        assert(spec_split(s, d) =~~= seq![s]);
    } else {
        assert(s[0] != d);
        assert(!s.skip(1).contains(d)) by {
            if s.skip(1).contains(d) {
                let i = choose|i: int| 0 <= i < s.skip(1).len() && s.skip(1)[i] == d;
                assert(s[i + 1] == d);
            }
        }
        lemma_split_no_delim(s.skip(1), d);
        assert(seq![s[0]] + s.skip(1) =~= s);
        assert(spec_split(s, d) =~~= seq![s]);
    }
}

/// Splitting consumes a delimiter-free chunk and the delimiter after it.
pub proof fn lemma_split_chunk<A>(c: Seq<A>, t: Seq<A>, d: A)
    requires
        !c.contains(d),
    ensures
        spec_split(c + seq![d] + t, d) == seq![c] + spec_split(t, d),
    decreases c.len(),
{
    let s = c + seq![d] + t;
    if c.len() == 0 {
        assert(s[0] == d);
        assert(s.skip(1) =~= t);
        assert(spec_split(s, d) =~~= seq![c] + spec_split(t, d));
    } else {
        assert(s[0] == c[0]);
        assert(c[0] != d);
        assert(!c.skip(1).contains(d)) by {
            if c.skip(1).contains(d) {
                let i = choose|i: int| 0 <= i < c.skip(1).len() && c.skip(1)[i] == d;
                assert(c[i + 1] == d);
            }
        }
        assert(s.skip(1) =~= c.skip(1) + seq![d] + t);
        lemma_split_chunk(c.skip(1), t, d);
        let rest = spec_split(s.skip(1), d);
        lemma_split_len(t, d);
        assert(rest[0] == c.skip(1));
        assert(seq![s[0]] + rest[0] =~= c);
        assert(rest.skip(1) =~= spec_split(t, d));
        assert(spec_split(s, d) =~~= seq![c] + spec_split(t, d));
    }
}

/// Splitting inverts joining, as long as no chunk contains the delimiter.
pub proof fn lemma_split_of_join<A>(chunks: Seq<Seq<A>>, d: A)
    requires
        chunks.len() >= 1,
        forall|i: int| 0 <= i < chunks.len() ==> !(#[trigger] chunks[i]).contains(d),
    ensures
        spec_split(spec_join(chunks, d), d) == chunks,
    decreases chunks.len(),
{
    if chunks.len() == 1 {
        lemma_split_no_delim(chunks[0], d);
        assert(spec_split(spec_join(chunks, d), d) =~~= chunks);
    } else {
        lemma_split_of_join(chunks.skip(1), d);
        lemma_split_chunk(chunks[0], spec_join(chunks.skip(1), d), d);
        assert(spec_split(spec_join(chunks, d), d) =~~= chunks);
    }
}

/// A property shared by the delimiter and every chunk element holds of
/// every element of the join.
pub proof fn lemma_join_elems<A>(chunks: Seq<Seq<A>>, d: A, p: spec_fn(A) -> bool)
    requires
        p(d),
        forall|i: int, j: int|
            0 <= i < chunks.len() && 0 <= j < chunks[i].len() ==> p(#[trigger] chunks[i][j]),
    ensures
        forall|k: int|
            0 <= k < spec_join(chunks, d).len() ==> p(#[trigger] spec_join(chunks, d)[k]),
    decreases chunks.len(),
{
    if chunks.len() == 0 {
    } else if chunks.len() == 1 {
        assert forall|k: int|
            0 <= k < spec_join(chunks, d).len() implies p(spec_join(chunks, d)[k]) by {
            assert(spec_join(chunks, d)[k] == chunks[0][k]);
        }
    } else {
        assert forall|i: int, j: int|
            0 <= i < chunks.skip(1).len() && 0 <= j < chunks.skip(1)[i].len() implies p(
            #[trigger] chunks.skip(1)[i][j],
        ) by {
            assert(chunks.skip(1)[i] == chunks[i + 1]);
            assert(p(chunks[i + 1][j]));
        }
        lemma_join_elems(chunks.skip(1), d, p);
        let c0 = chunks[0];
        let rest = spec_join(chunks.skip(1), d);
        assert(spec_join(chunks, d) == c0 + seq![d] + rest);
        assert forall|k: int|
            0 <= k < spec_join(chunks, d).len() implies p(spec_join(chunks, d)[k]) by {
            if k < c0.len() {
                assert(spec_join(chunks, d)[k] == c0[k]);
                assert(p(chunks[0][k]));
            } else if k == c0.len() {
                assert(spec_join(chunks, d)[k] == d);
            } else {
                assert(spec_join(chunks, d)[k] == rest[k - c0.len() - 1]);
            }
        }
    }
}

/// Appending one more chunk extends the join by a delimiter and that chunk.
pub proof fn lemma_join_push<A>(chunks: Seq<Seq<A>>, c: Seq<A>, d: A)
    requires
        chunks.len() >= 1,
    ensures
        spec_join(chunks.push(c), d) == spec_join(chunks, d) + seq![d] + c,
    decreases chunks.len(),
{
    if chunks.len() == 1 {
        assert(chunks.push(c).skip(1) =~= seq![c]);
        assert(spec_join(seq![c], d) == seq![c][0]);
        assert(spec_join(chunks.push(c), d) == chunks.push(c)[0] + seq![d] + spec_join(
            seq![c],
            d,
        ));
        assert(spec_join(chunks.push(c), d) =~= spec_join(chunks, d) + seq![d] + c);
    } else {
        lemma_join_push(chunks.skip(1), c, d);
        assert(chunks.push(c).skip(1) =~= chunks.skip(1).push(c));
        assert(chunks.push(c)[0] == chunks[0]);
        assert(spec_join(chunks.push(c), d) == chunks[0] + seq![d] + spec_join(
            chunks.skip(1).push(c),
            d,
        ));
        assert(spec_join(chunks.skip(1).push(c), d) == spec_join(chunks.skip(1), d) + seq![d] + c);
        assert(spec_join(chunks.push(c), d) =~= spec_join(chunks, d) + seq![d] + c);
    }
}

/// `s` divided at every occurrence of the character `d`.
pub fn split_str(s: &str, d: char) -> (r: Vec<String>)
    ensures
        views_of(r@) == spec_split(s@, d),
{
    let n = s.unicode_len();
    let mut out: Vec<String> = Vec::new();
    let mut start: usize = 0;
    let mut i: usize = 0;
    proof {
        assert(s@.skip(0) =~= s@);
        assert(views_of(out@) + spec_split(s@, d) =~= spec_split(s@, d));
    }
    while i < n
        invariant
            start <= i <= n,
            n == s@.len(),
            forall|j: int| start <= j < i ==> s@[j] != d,
            spec_split(s@, d) == views_of(out@) + spec_split(s@.skip(start as int), d),
        decreases n - i,
    {
        if s.get_char(i) == d {
            let chunk = s.substring_char(start, i);
            let owned = String::from_str(chunk);
            proof {
                let cur = s@.subrange(start as int, i as int);
                assert(!cur.contains(d)) by {
                    if cur.contains(d) {
                        let j = choose|j: int| 0 <= j < cur.len() && cur[j] == d;
                        assert(s@[start + j] == d);
                    }
                }
                assert(s@.skip(start as int) =~= cur + seq![d] + s@.skip(i + 1));
                lemma_split_chunk(cur, s@.skip(i + 1), d);
                assert(views_of(out@.push(owned)) =~= views_of(out@) + seq![cur]);
                assert((views_of(out@) + seq![cur]) + spec_split(s@.skip(i + 1), d) =~= views_of(
                    out@,
                ) + (seq![cur] + spec_split(s@.skip(i + 1), d)));
            }
            out.push(owned);
            start = i + 1;
        }
        i += 1;
    }
    let chunk = s.substring_char(start, n);
    let owned = String::from_str(chunk);
    proof {
        let cur = s@.subrange(start as int, n as int);
        assert(s@.skip(start as int) =~= cur);
        assert(!cur.contains(d)) by {
            if cur.contains(d) {
                let j = choose|j: int| 0 <= j < cur.len() && cur[j] == d;
                assert(s@[start + j] == d);
            }
        }
        lemma_split_no_delim(cur, d);
        assert(views_of(out@.push(owned)) =~= views_of(out@) + seq![cur]);
    }
    out.push(owned);
    out
}

/// The strings of `parts` joined with a newline between neighbours.
pub fn join_lines(parts: &Vec<String>) -> (r: String)
    ensures
        r@ == spec_join(views_of(parts@), '\n'),
{
    let n = parts.len();
    if n == 0 {
        let out = String::new();
        proof {
            assert(views_of(parts@).len() == 0);
        }
        return out;
    }
    let mut out: String = parts[0].clone();
    let mut i: usize = 1;
    proof {
        let vs = views_of(parts@);
        assert(vs.take(1) =~= seq![vs[0]]);
        assert(spec_join(vs.take(1), '\n') == vs[0]);
    }
    while i < n
        invariant
            1 <= i <= n,
            n == parts@.len(),
            out@ == spec_join(views_of(parts@).take(i as int), '\n'),
        decreases n - i,
    {
        let ghost vs = views_of(parts@);
        out.append("\n");
        out.append(parts[i].as_str());
        proof {
            reveal_strlit("\n");
            assert("\n"@ =~= seq!['\n']);
            lemma_join_push(vs.take(i as int), vs[i as int], '\n');
            assert(vs.take(i + 1) =~= vs.take(i as int).push(vs[i as int]));
            assert(out@ =~= spec_join(vs.take(i + 1), '\n'));
        }
        i += 1;
    }
    proof {
        assert(views_of(parts@).take(n as int) =~= views_of(parts@));
    }
    out
}

/// The two strings glued together.
pub fn str_concat(a: &str, b: &str) -> (r: String)
    ensures
        r@ == a@ + b@,
{
    let mut out = String::from_str(a);
    out.append(b);
    out
}

/// Whether the two strings hold the same characters.
pub fn str_eq(a: &str, b: &str) -> (r: bool)
    ensures
        r == (a@ == b@),
{
    let n = a.unicode_len();
    if n != b.unicode_len() {
        return false;
    }
    let mut i: usize = 0;
    while i < n
        invariant
            i <= n,
            n == a@.len(),
            n == b@.len(),
            forall|j: int| 0 <= j < i ==> a@[j] == b@[j],
        decreases n - i,
    {
        if a.get_char(i) != b.get_char(i) {
            return false;
        }
        i += 1;
    }
    proof {
        assert(a@ =~= b@);
    }
    true
}

/// Whether `s` begins with the characters of `prefix`.
pub fn str_starts_with(s: &str, prefix: &str) -> (r: bool)
    ensures
        r == prefix@.is_prefix_of(s@),
{
    let n = prefix.unicode_len();
    let m = s.unicode_len();
    if n > m {
        return false;
    }
    let mut i: usize = 0;
    while i < n
        invariant
            i <= n,
            n == prefix@.len(),
            m == s@.len(),
            n <= m,
            forall|j: int| 0 <= j < i ==> s@[j] == prefix@[j],
        decreases n - i,
    {
        if s.get_char(i) != prefix.get_char(i) {
            proof {
                assert(s@.subrange(0, n as int)[i as int] == s@[i as int]);
            }
            return false;
        }
        i += 1;
    }
    proof {
        assert(prefix@ =~= s@.subrange(0, n as int));
    }
    true
}

/// The decimal digit character for `d`.
pub open spec fn digit_char(d: int) -> char {
    if d == 0 { '0' }
    else if d == 1 { '1' }
    else if d == 2 { '2' }
    else if d == 3 { '3' }
    else if d == 4 { '4' }
    else if d == 5 { '5' }
    else if d == 6 { '6' }
    else if d == 7 { '7' }
    else if d == 8 { '8' }
    else { '9' }
}

/// The base-ten digits of `n`, most significant first; empty for zero.
pub open spec fn spec_u64_digits(n: int) -> Seq<char>
    decreases n,
{
    if n <= 0 {
        Seq::<char>::empty()
    } else {
        spec_u64_digits(n / 10).push(digit_char(n % 10))
    }
}

/// The usual decimal rendering of `n`.
pub open spec fn spec_u64_string(n: u64) -> Seq<char> {
    if n == 0 {
        seq!['0']
    } else {
        spec_u64_digits(n as int)
    }
}

/// Relies on the standard library's decimal formatting of `u64`
/// (`core::fmt::Display`): the base-ten digits of `n`, most significant
/// first, with no sign, padding or separators, and `"0"` for zero.
#[verifier::external_body]
pub(crate) fn u64_to_string(n: u64) -> (r: String)
    ensures
        r@ == spec_u64_string(n),
{
    format!("{}", n)
}

} // verus!
