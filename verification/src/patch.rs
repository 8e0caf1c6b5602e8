//! Applying the hunks of a unified diff to a file's lines, as the
//! `patch:` protocol does.

use crate::paths::{join_path, join_path_spec};
use crate::patchshape::{patch_text_shaped, patch_text_shaped_exec};
use crate::text::{owned, push_char, slice, split_char, split_char_spec};
use vstd::prelude::*;
use vstd::string::StrSliceExecFns;

verus! {

/// One line of a hunk.
#[derive(Debug)]
pub enum HunkLine {
    /// A line the patch adds.
    Add(String),
    /// A line the patch removes.
    Remove(String),
    /// A line the patch keeps.
    Context(String),
}

/// A hunk: where it starts in the old file (counted from 1) and its lines.
#[derive(Debug)]
pub struct Hunk {
    pub old_start: u64,
    pub lines: Vec<HunkLine>,
}

/// The patch of one file.
#[derive(Debug)]
pub struct FilePatch {
    pub old_path: String,
    pub new_path: String,
    pub hunks: Vec<Hunk>,
}

/// The lines of a text as `str::lines` splits it: at each `\n`, dropping a
/// `\r` before it; a last empty piece (after a final `\n`) is no line.
pub open spec fn lines_spec(s: Seq<char>) -> Seq<Seq<char>> {
    let pieces = split_char_spec(s, '\n');
    let ended = Seq::new(
        (pieces.len() - 1) as nat,
        |i: int|
            if pieces[i].len() > 0 && pieces[i].last() == '\r' {
                pieces[i].drop_last()
            } else {
                pieces[i]
            },
    );
    if pieces.last().len() == 0 {
        ended
    } else {
        ended.push(pieces.last())
    }
}

/// The lines of a text, as `str::lines` gives them.
pub fn text_lines(s: &str) -> (r: Vec<String>)
    ensures
        r@.map_values(|l: String| l@) == lines_spec(s@),
{
    let pieces = split_char(s, '\n');
    proof {
        lemma_split_nonempty(s@, '\n');
    }
    let n = pieces.len();
    let mut out: Vec<String> = Vec::new();
    let mut i: usize = 0;
    while i + 1 < n
        invariant
            n == split_char_spec(s@, '\n').len(),
            n >= 1,
            pieces@.len() == n,
            forall|j: int| 0 <= j < n ==> #[trigger] pieces@[j]@ == split_char_spec(s@, '\n')[j],
            i + 1 <= n,
            out@.len() == i,
            forall|j: int|
                0 <= j < i ==> (#[trigger] out@[j])@ == (if pieces@[j]@.len() > 0 && pieces@[j]@.last() == '\r' {
                    pieces@[j]@.drop_last()
                } else {
                    pieces@[j]@
                }),
        decreases n - i,
    {
        let p = pieces[i];
        let m = p.unicode_len();
        if m > 0 && p.get_char(m - 1) == '\r' {
            let q = slice(p, 0, m - 1);
            proof {
                assert(q@ =~= p@.drop_last());
            }
            out.push(owned(q));
        } else {
            out.push(owned(p));
        }
        i = i + 1;
    }
    let last = pieces[n - 1];
    if last.unicode_len() > 0 {
        out.push(owned(last));
    }
    proof {
        assert(out@.map_values(|l: String| l@) =~= lines_spec(s@));
    }
    out
}

proof fn lemma_split_nonempty(s: Seq<char>, c: char)
    ensures
        split_char_spec(s, c).len() >= 1,
    decreases s.len(),
{
    match crate::text::find_spec(s, c) {
        None => {},
        Some(i) => {
            if 0 <= i < s.len() {
                lemma_split_nonempty(s.skip(i + 1), c);
            }
        },
    }
}

/// Where the old file is read from, and the lines written so far.
pub type Progress = (int, Seq<Seq<char>>);

/// The effect of one hunk line: an added line is written; a removed line
/// is skipped in the old file; a kept line is written, and skipped in the
/// old file only when it is the line there.
pub open spec fn step_line(old: Seq<Seq<char>>, st: Progress, l: HunkLine) -> Progress {
    match l {
        HunkLine::Add(s) => (st.0, st.1.push(s@)),
        HunkLine::Remove(_) => (st.0 + 1, st.1),
        HunkLine::Context(s) => if 0 <= st.0 < old.len() && old[st.0] == s@ {
            (st.0 + 1, st.1.push(s@))
        } else {
            (st.0, st.1.push(s@))
        },
    }
}

/// The effect of a run of hunk lines.
pub open spec fn run_lines(old: Seq<Seq<char>>, st: Progress, ls: Seq<HunkLine>) -> Progress
    decreases ls.len(),
{
    if ls.len() == 0 {
        st
    } else {
        step_line(old, run_lines(old, st, ls.drop_last()), ls.last())
    }
}

/// Entering a hunk: the old lines before its start are copied over first.
pub open spec fn enter_hunk(old: Seq<Seq<char>>, st: Progress, start: int) -> Progress {
    if start > st.0 {
        (start, st.1 + old.subrange(st.0, if start < old.len() { start } else { old.len() as int }))
    } else {
        st
    }
}

/// The first line a hunk touches, counted from 0.
pub open spec fn hunk_start(h: Hunk) -> int {
    if h.old_start == 0 {
        0
    } else {
        h.old_start - 1
    }
}

/// The effect of a run of hunks.
pub open spec fn run_hunks(old: Seq<Seq<char>>, hs: Seq<Hunk>) -> Progress
    decreases hs.len(),
{
    if hs.len() == 0 {
        (0, seq![])
    } else {
        let h = hs.last();
        run_lines(old, enter_hunk(old, run_hunks(old, hs.drop_last()), hunk_start(h)), h.lines@)
    }
}

/// The lines of the patched file: what the hunks wrote, then the old lines
/// after the last place the hunks read.
pub open spec fn patched_lines(old: Seq<Seq<char>>, hs: Seq<Hunk>) -> Seq<Seq<char>> {
    let st = run_hunks(old, hs);
    if st.0 < old.len() {
        st.1 + old.subrange(st.0, old.len() as int)
    } else {
        st.1
    }
}

/// Lines joined, each followed by `\n`.
pub open spec fn with_newlines(ls: Seq<Seq<char>>) -> Seq<char>
    decreases ls.len(),
{
    if ls.len() == 0 {
        seq![]
    } else {
        with_newlines(ls.drop_last()) + ls.last() + seq!['\n']
    }
}

/// The total number of hunk lines.
pub open spec fn total_lines(hs: Seq<Hunk>) -> int
    decreases hs.len(),
{
    if hs.len() == 0 {
        0
    } else {
        total_lines(hs.drop_last()) + hs.last().lines@.len()
    }
}

/// The hunks can be applied: no hunk starts past the old file while the
/// read position has already run beyond its end, and positions fit in `u64`.
#[verifier::opaque]
pub open spec fn applicable(old: Seq<Seq<char>>, hs: Seq<Hunk>) -> bool {
    &&& forall|i: int|
        #![trigger hs[i]]
        0 <= i < hs.len() ==> (hunk_start(hs[i]) > run_hunks(old, hs.take(i)).0 ==> run_hunks(
            old,
            hs.take(i),
        ).0 <= old.len())
    &&& forall|i: int| 0 <= i < hs.len() ==> (#[trigger] hs[i]).old_start + total_lines(hs) <= u64::MAX
}

proof fn lemma_applicable_at(old: Seq<Seq<char>>, hs: Seq<Hunk>, i: int)
    requires
        applicable(old, hs),
        0 <= i < hs.len(),
    ensures
        hunk_start(hs[i]) > run_hunks(old, hs.take(i)).0 ==> run_hunks(old, hs.take(i)).0 <= old.len(),
        hs[i].old_start + total_lines(hs) <= u64::MAX,
{
    reveal(applicable);
}

proof fn lemma_not_applicable_bound(old: Seq<Seq<char>>, hs: Seq<Hunk>, i: int)
    requires
        0 <= i < hs.len(),
        hs[i].old_start + total_lines(hs) > u64::MAX,
    ensures
        !applicable(old, hs),
{
    reveal(applicable);
}

proof fn lemma_not_applicable_overrun(old: Seq<Seq<char>>, hs: Seq<Hunk>, i: int)
    requires
        0 <= i < hs.len(),
        hunk_start(hs[i]) > run_hunks(old, hs.take(i)).0,
        run_hunks(old, hs.take(i)).0 > old.len(),
    ensures
        !applicable(old, hs),
{
    reveal(applicable);
}

proof fn lemma_applicable_intro(old: Seq<Seq<char>>, hs: Seq<Hunk>)
    requires
        forall|t: int| 0 <= t < hs.len() ==> (#[trigger] hs[t]).old_start + total_lines(hs) <= u64::MAX,
        forall|t: int|
            #![trigger hs[t]]
            0 <= t < hs.len() ==> (hunk_start(hs[t]) > run_hunks(old, hs.take(t)).0 ==> run_hunks(old, hs.take(t)).0
                <= old.len()),
    ensures
        applicable(old, hs),
{
    reveal(applicable);
}

proof fn lemma_run_lines_bound(old: Seq<Seq<char>>, st: Progress, ls: Seq<HunkLine>)
    ensures
        st.0 <= run_lines(old, st, ls).0 <= st.0 + ls.len(),
    decreases ls.len(),
{
    if ls.len() > 0 {
        lemma_run_lines_bound(old, st, ls.drop_last());
    }
}

proof fn lemma_total_lines_take(hs: Seq<Hunk>, i: int)
    requires
        0 <= i < hs.len(),
    ensures
        total_lines(hs.take(i + 1)) == total_lines(hs.take(i)) + hs[i].lines@.len(),
        total_lines(hs.take(i + 1)) <= total_lines(hs),
    decreases hs.len() - i,
{
    assert(hs.take(i + 1).drop_last() =~= hs.take(i));
    if i + 1 < hs.len() {
        lemma_total_lines_take(hs, i + 1);
    } else {
        assert(hs.take(i + 1) =~= hs);
    }
}

proof fn lemma_total_lines_nonneg(hs: Seq<Hunk>)
    ensures
        total_lines(hs) >= 0,
    decreases hs.len(),
{
    if hs.len() > 0 {
        lemma_total_lines_nonneg(hs.drop_last());
    }
}

/// Writes a line and its `\n`.
fn push_line(out: &mut String, line: &str)
    ensures
        final(out)@ == old(out)@ + line@ + seq!['\n'],
{
    out.append(line);
    push_char(out, '\n');
}

proof fn lemma_with_newlines_concat(a: Seq<Seq<char>>, b: Seq<Seq<char>>)
    ensures
        with_newlines(a + b) == with_newlines(a) + with_newlines(b),
    decreases b.len(),
{
    if b.len() == 0 {
        assert(a + b =~= a);
        assert(with_newlines(a) + with_newlines(b) =~= with_newlines(a));
    } else {
        lemma_with_newlines_concat(a, b.drop_last());
        assert((a + b).drop_last() =~= a + b.drop_last());
        assert((a + b).last() == b.last());
        assert(with_newlines(a + b) =~= with_newlines(a) + with_newlines(b));
    }
}

proof fn lemma_run_lines_written(old: Seq<Seq<char>>, p: int, w: Seq<Seq<char>>, ls: Seq<HunkLine>)
    ensures
        run_lines(old, (p, w), ls) == (run_lines(old, (p, seq![]), ls).0, w + run_lines(old, (p, seq![]), ls).1),
    decreases ls.len(),
{
    if ls.len() == 0 {
        assert(w + Seq::<Seq<char>>::empty() =~= w);
    } else {
        lemma_run_lines_written(old, p, w, ls.drop_last());
        let a = run_lines(old, (p, seq![]), ls.drop_last());
        match ls.last() {
            HunkLine::Add(t) => {
                assert(w + a.1.push(t@) =~= (w + a.1).push(t@));
            },
            HunkLine::Remove(_) => {},
            HunkLine::Context(t) => {
                assert(w + a.1.push(t@) =~= (w + a.1).push(t@));
            },
        }
    }
}

/// Writes the old lines `from..to`, each with its `\n`.
fn push_old_lines(out: &mut String, old_lines: &Vec<String>, from: usize, to: usize)
    requires
        from <= to <= old_lines@.len(),
    ensures
        final(out)@ == old(out)@ + with_newlines(old_lines@.map_values(|l: String| l@).subrange(from as int, to as int)),
{
    let ghost old = old_lines@.map_values(|l: String| l@);
    let ghost o0 = out@;
    let mut k: usize = from;
    proof {
        assert(old.subrange(from as int, from as int) =~= Seq::<Seq<char>>::empty());
        assert(o0 + with_newlines(Seq::<Seq<char>>::empty()) =~= o0);
    }
    while k < to
        invariant
            old == old_lines@.map_values(|l: String| l@),
            from <= k <= to,
            to <= old_lines@.len(),
            out@ == o0 + with_newlines(old.subrange(from as int, k as int)),
        decreases to - k,
    {
        push_line(out, old_lines[k].as_str());
        proof {
            let acc = old.subrange(from as int, k as int);
            assert(old.subrange(from as int, k + 1) =~= acc.push(old[k as int]));
            assert(acc.push(old[k as int]).drop_last() =~= acc);
        }
        k = k + 1;
    }
}

/// Applies one hunk's lines from read position `pos`; gives the new
/// position.
fn apply_lines(out: &mut String, old_lines: &Vec<String>, lines: &Vec<HunkLine>, pos: u64) -> (r: u64)
    requires
        pos + lines@.len() <= u64::MAX,
    ensures
        r == run_lines(old_lines@.map_values(|l: String| l@), (pos as int, seq![]), lines@).0,
        final(out)@ == old(out)@ + with_newlines(
            run_lines(old_lines@.map_values(|l: String| l@), (pos as int, seq![]), lines@).1,
        ),
{
    let ghost old = old_lines@.map_values(|l: String| l@);
    let ghost o0 = out@;
    let ghost start = (pos as int, Seq::<Seq<char>>::empty());
    let mut p: u64 = pos;
    let mut j: usize = 0;
    proof {
        assert(lines@.take(0) =~= Seq::<HunkLine>::empty());
        assert(o0 + with_newlines(Seq::<Seq<char>>::empty()) =~= o0);
    }
    while j < lines.len()
        invariant
            old == old_lines@.map_values(|l: String| l@),
            start == (pos as int, Seq::<Seq<char>>::empty()),
            j <= lines@.len(),
            p as int == run_lines(old, start, lines@.take(j as int)).0,
            out@ == o0 + with_newlines(run_lines(old, start, lines@.take(j as int)).1),
            p <= pos + j,
            pos + lines@.len() <= u64::MAX,
        decreases lines@.len() - j,
    {
        let ghost st = run_lines(old, start, lines@.take(j as int));
        proof {
            assert(lines@.take(j + 1).drop_last() =~= lines@.take(j as int));
            assert(lines@.take(j + 1).last() == lines@[j as int]);
        }
        match &lines[j] {
            HunkLine::Add(s) => {
                push_line(out, s.as_str());
                proof {
                    assert(st.1.push(s@).drop_last() =~= st.1);
                }
            },
            HunkLine::Remove(_) => {
                p = p + 1;
            },
            HunkLine::Context(s) => {
                let same = p < old_lines.len() as u64 && crate::text::str_eq(old_lines[p as usize].as_str(), s.as_str());
                push_line(out, s.as_str());
                proof {
                    assert(st.1.push(s@).drop_last() =~= st.1);
                }
                if same {
                    p = p + 1;
                }
            },
        }
        j = j + 1;
    }
    proof {
        assert(lines@.take(lines@.len() as int) =~= lines@);
    }
    p
}

/// Applies a file's hunks to its old lines and gives the new content, each
/// line ended by `\n`: the old lines before a hunk are kept, the hunk's
/// lines applied, and the old lines after the last hunk kept.
pub fn apply_hunks(old_lines: &Vec<String>, hunks: &Vec<Hunk>) -> (r: String)
    requires
        applicable(old_lines@.map_values(|l: String| l@), hunks@),
    ensures
        r@ == with_newlines(patched_lines(old_lines@.map_values(|l: String| l@), hunks@)),
{
    let ghost old = old_lines@.map_values(|l: String| l@);
    let ghost hs = hunks@;
    let mut out = String::new();
    let mut pos: u64 = 0;
    let ghost mut written: Seq<Seq<char>> = seq![];
    let ghost mut bound: int = 0;
    let mut h: usize = 0;
    proof {
        assert(hs.take(0) =~= Seq::<Hunk>::empty());
        lemma_total_lines_nonneg(hs);
        if hs.len() > 0 {
            lemma_applicable_at(old, hs, 0);
        }
    }
    while h < hunks.len()
        invariant
            old == old_lines@.map_values(|l: String| l@),
            old.len() == old_lines@.len(),
            hs == hunks@,
            applicable(old, hs),
            h <= hs.len(),
            run_hunks(old, hs.take(h as int)) == (pos as int, written),
            out@ == with_newlines(written),
            0 <= bound,
            pos <= bound + total_lines(hs.take(h as int)),
            bound + total_lines(hs) <= u64::MAX,
        decreases hs.len() - h,
    {
        let hunk = &hunks[h];
        let start: u64 = if hunk.old_start == 0 { 0 } else { hunk.old_start - 1 };
        proof {
            assert(hs[h as int] == *hunk);
            lemma_total_lines_take(hs, h as int);
            lemma_applicable_at(old, hs, h as int);
            lemma_total_lines_nonneg(hs.take(h as int));
            assert(total_lines(hs.take(h + 1)) == total_lines(hs.take(h as int)) + hunk.lines@.len());
        }
        let ghost before = (pos as int, written);
        if start > pos {
            proof {
                assert(hunk_start(hs[h as int]) > run_hunks(old, hs.take(h as int)).0);
            }
            let end: u64 = if start < old_lines.len() as u64 { start } else { old_lines.len() as u64 };
            push_old_lines(&mut out, old_lines, pos as usize, end as usize);
            proof {
                lemma_with_newlines_concat(written, old.subrange(pos as int, end as int));
                written = written + old.subrange(pos as int, end as int);
                bound = start as int;
            }
            pos = start;
        }
        proof {
            assert((pos as int, written) == enter_hunk(old, before, hunk_start(*hunk)));
        }
        let ghost entered = (pos as int, written);
        proof {
            assert(pos + hunk.lines@.len() <= bound + total_lines(hs.take(h + 1)));
        }
        let next = apply_lines(&mut out, old_lines, &hunk.lines, pos);
        proof {
            let run = run_lines(old, (pos as int, seq![]), hunk.lines@);
            lemma_run_lines_written(old, pos as int, written, hunk.lines@);
            lemma_with_newlines_concat(written, run.1);
            lemma_run_lines_bound(old, (pos as int, seq![]), hunk.lines@);
            written = written + run.1;
            assert(hs.take(h + 1).drop_last() =~= hs.take(h as int));
            assert(hs.take(h + 1).last() == *hunk);
            assert(run_hunks(old, hs.take(h + 1)) == run_lines(old, entered, hunk.lines@));
        }
        pos = next;
        h = h + 1;
    }
    proof {
        assert(hs.take(hs.len() as int) =~= hs);
    }
    if pos < old_lines.len() as u64 {
        let n = old_lines.len();
        push_old_lines(&mut out, old_lines, pos as usize, n);
        proof {
            lemma_with_newlines_concat(written, old.subrange(pos as int, n as int));
        }
    }
    out
}

/// The read position after a hunk's lines, without writing anything.
fn advance(old_lines: &Vec<String>, lines: &Vec<HunkLine>, pos: u64) -> (r: u64)
    requires
        pos + lines@.len() <= u64::MAX,
    ensures
        r == run_lines(old_lines@.map_values(|l: String| l@), (pos as int, seq![]), lines@).0,
{
    let ghost old = old_lines@.map_values(|l: String| l@);
    let ghost start = (pos as int, Seq::<Seq<char>>::empty());
    let mut p: u64 = pos;
    let mut j: usize = 0;
    proof {
        assert(lines@.take(0) =~= Seq::<HunkLine>::empty());
    }
    while j < lines.len()
        invariant
            old == old_lines@.map_values(|l: String| l@),
            start == (pos as int, Seq::<Seq<char>>::empty()),
            j <= lines@.len(),
            p as int == run_lines(old, start, lines@.take(j as int)).0,
            p <= pos + j,
            pos + lines@.len() <= u64::MAX,
        decreases lines@.len() - j,
    {
        proof {
            assert(lines@.take(j + 1).drop_last() =~= lines@.take(j as int));
            assert(lines@.take(j + 1).last() == lines@[j as int]);
        }
        match &lines[j] {
            HunkLine::Add(_) => {},
            HunkLine::Remove(_) => {
                p = p + 1;
            },
            HunkLine::Context(s) => {
                if p < old_lines.len() as u64 && crate::text::str_eq(old_lines[p as usize].as_str(), s.as_str()) {
                    p = p + 1;
                }
            },
        }
        j = j + 1;
    }
    proof {
        assert(lines@.take(lines@.len() as int) =~= lines@);
    }
    p
}

/// No hunk before the `n`-th starts past the old file once the read
/// position ran beyond its end.
#[verifier::opaque]
pub open spec fn no_overrun_before(old: Seq<Seq<char>>, hs: Seq<Hunk>, n: int) -> bool {
    forall|t: int|
        #![trigger hs[t]]
        0 <= t < n ==> (hunk_start(hs[t]) > run_hunks(old, hs.take(t)).0 ==> run_hunks(old, hs.take(t)).0
            <= old.len())
}

#[verifier::spinoff_prover]
proof fn lemma_no_overrun_step(old: Seq<Seq<char>>, hs: Seq<Hunk>, h: int)
    requires
        0 <= h < hs.len(),
        no_overrun_before(old, hs, h),
        hunk_start(hs[h]) > run_hunks(old, hs.take(h)).0 ==> run_hunks(old, hs.take(h)).0 <= old.len(),
    ensures
        no_overrun_before(old, hs, h + 1),
{
    reveal(no_overrun_before);
    assert forall|t: int| #![trigger hs[t]] 0 <= t < h + 1 implies (hunk_start(hs[t]) > run_hunks(
        old,
        hs.take(t),
    ).0 ==> run_hunks(old, hs.take(t)).0 <= old.len()) by {
        if t < h {
            assert(0 <= t < h);
        }
    }
}

proof fn lemma_run_hunks_step(old: Seq<Seq<char>>, hs: Seq<Hunk>, h: int, entered: int)
    requires
        0 <= h < hs.len(),
        entered == enter_hunk(old, run_hunks(old, hs.take(h)), hunk_start(hs[h])).0,
    ensures
        run_hunks(old, hs.take(h + 1)).0 == run_lines(old, (entered, seq![]), hs[h].lines@).0,
{
    let st = enter_hunk(old, run_hunks(old, hs.take(h)), hunk_start(hs[h]));
    lemma_run_lines_written(old, entered, st.1, hs[h].lines@);
    assert(hs.take(h + 1).drop_last() =~= hs.take(h));
    assert(hs.take(h + 1).last() == hs[h]);
}

/// Whether [`apply_hunks`] may be called: positions fit in `u64`, and no
/// hunk starts past the old file once the read position ran beyond its end.
pub fn hunks_applicable(old_lines: &Vec<String>, hunks: &Vec<Hunk>) -> (r: bool)
    ensures
        r == applicable(old_lines@.map_values(|l: String| l@), hunks@),
{
    let ghost old = old_lines@.map_values(|l: String| l@);
    let ghost hs = hunks@;
    let mut total: u64 = 0;
    let mut h: usize = 0;
    proof {
        assert(hs.take(0) =~= Seq::<Hunk>::empty());
    }
    while h < hunks.len()
        invariant
            old == old_lines@.map_values(|l: String| l@),
            hs == hunks@,
            h <= hs.len(),
            total as int == total_lines(hs.take(h as int)),
        decreases hs.len() - h,
    {
        proof {
            assert(hs.take(h + 1).drop_last() =~= hs.take(h as int));
            assert(hs.take(h + 1).last() == hs[h as int]);
        }
        let n = hunks[h].lines.len() as u64;
        proof {
            assert(n as int == hs[h as int].lines@.len());
        }
        if total > u64::MAX - n {
            proof {
                lemma_total_lines_take(hs, h as int);
                assert(hs[0].old_start + total_lines(hs) > u64::MAX);
                lemma_not_applicable_bound(old, hs, 0);
            }
            return false;
        }
        total = total + n;
        h = h + 1;
    }
    proof {
        assert(hs.take(hs.len() as int) =~= hs);
    }
    let mut i: usize = 0;
    while i < hunks.len()
        invariant
            old == old_lines@.map_values(|l: String| l@),
            hs == hunks@,
            i <= hs.len(),
            total as int == total_lines(hs),
            forall|t: int| 0 <= t < i ==> (#[trigger] hs[t]).old_start + total_lines(hs) <= u64::MAX,
        decreases hs.len() - i,
    {
        if hunks[i].old_start > u64::MAX - total {
            proof {
                assert(hs[i as int].old_start + total_lines(hs) > u64::MAX);
                lemma_not_applicable_bound(old, hs, i as int);
            }
            return false;
        }
        i = i + 1;
    }
    let mut pos: u64 = 0;
    let ghost mut bound: int = 0;
    let mut h: usize = 0;
    proof {
        lemma_total_lines_nonneg(hs);
        assert(hs.take(0) =~= Seq::<Hunk>::empty());
        reveal(no_overrun_before);
    }
    while h < hunks.len()
        invariant
            old == old_lines@.map_values(|l: String| l@),
            hs == hunks@,
            h <= hs.len(),
            total as int == total_lines(hs),
            forall|t: int| 0 <= t < hs.len() ==> (#[trigger] hs[t]).old_start + total_lines(hs) <= u64::MAX,
            pos as int == run_hunks(old, hs.take(h as int)).0,
            0 <= bound,
            pos <= bound + total_lines(hs.take(h as int)),
            bound + total_lines(hs) <= u64::MAX,
            no_overrun_before(old, hs, h as int),
        decreases hs.len() - h,
    {
        let hunk = &hunks[h];
        let start: u64 = if hunk.old_start == 0 { 0 } else { hunk.old_start - 1 };
        proof {
            assert(hs[h as int] == *hunk);
            lemma_total_lines_take(hs, h as int);
            lemma_total_lines_nonneg(hs.take(h as int));
        }
        if start > pos && pos > old_lines.len() as u64 {
            proof {
                assert(hunk_start(hs[h as int]) > run_hunks(old, hs.take(h as int)).0);
                lemma_not_applicable_overrun(old, hs, h as int);
            }
            return false;
        }
        let entered = if start > pos { start } else { pos };
        proof {
            if start > pos {
                bound = start as int;
            }
            assert(entered + hunk.lines@.len() <= bound + total_lines(hs.take(h + 1)));
        }
        let next = advance(old_lines, &hunk.lines, entered);
        proof {
            lemma_run_lines_bound(old, (entered as int, seq![]), hunk.lines@);
            lemma_run_hunks_step(old, hs, h as int, entered as int);
            lemma_no_overrun_step(old, hs, h as int);
        }
        pos = next;
        h = h + 1;
    }
    proof {
        assert(hs.take(hs.len() as int) =~= hs);
        reveal(no_overrun_before);
        lemma_applicable_intro(old, hs);
    }
    true
}


/// A hunk line as plain values: its kind (0 added, 1 removed, 2 kept) and
/// its text.
pub open spec fn line_view(l: HunkLine) -> (u8, Seq<char>) {
    match l {
        HunkLine::Add(s) => (0u8, s@),
        HunkLine::Remove(s) => (1u8, s@),
        HunkLine::Context(s) => (2u8, s@),
    }
}

/// A hunk as plain values: its 1-based old start line and its lines.
pub open spec fn hunk_view(h: Hunk) -> (u64, Seq<(u8, Seq<char>)>) {
    (h.old_start, h.lines@.map_values(|l: HunkLine| line_view(l)))
}

/// A file patch as plain values: old path, new path, hunks.
pub type FilePatchView = (Seq<char>, Seq<char>, Seq<(u64, Seq<(u8, Seq<char>)>)>);

pub open spec fn file_patch_view(p: FilePatch) -> FilePatchView {
    (p.old_path@, p.new_path@, p.hunks@.map_values(|h: Hunk| hunk_view(h)))
}

pub open spec fn patches_view(v: Seq<FilePatch>) -> Seq<FilePatchView> {
    v.map_values(|p: FilePatch| file_patch_view(p))
}

pub open spec fn opt_patches_view(r: Option<Vec<FilePatch>>) -> Option<Seq<FilePatchView>> {
    match r {
        Some(v) => Some(patches_view(v@)),
        None => None,
    }
}

/// The file patches the `patch` crate reads from a text, or `None` where it
/// reports a parse error.
pub uninterp spec fn patch_parse(text: Seq<char>) -> Option<Seq<FilePatchView>>;

/// `patch::Patch::from_multiple`: the unified diff's file patches, each
/// with its old and new path and its hunks (start of the old range, lines),
/// or `None` on a parse error; the contract claims that the result is the
/// one `patch_parse` names for the text. The crate panics on a text whose
/// end its parser does not reach, and on a hunk line number past
/// `u64::MAX`; a text in the shape `patch_text_shaped` describes has
/// neither, so it is required.
#[verifier::external_body]
fn parse_patch_text(text: &str) -> (r: Option<Vec<FilePatch>>)
    requires
        patch_text_shaped(text@),
    ensures
        opt_patches_view(r) == patch_parse(text@),
{
    let file = |p: &patch::Patch| FilePatch {
        old_path: p.old.path.to_string(),
        new_path: p.new.path.to_string(),
        hunks: p.hunks.iter().map(|h| Hunk { old_start: h.old_range.start, lines: h.lines.iter().map(|l| match l {
            patch::Line::Add(s) => HunkLine::Add(s.to_string()),
            patch::Line::Remove(s) => HunkLine::Remove(s.to_string()),
            patch::Line::Context(s) => HunkLine::Context(s.to_string()),
        }).collect() }).collect(),
    };
    patch::Patch::from_multiple(text).ok().map(|ps| ps.iter().map(file).collect())
}

/// Why a patch file cannot be applied.
#[derive(Debug, Clone, Copy, PartialEq, Eq)]
pub enum PatchError {
    /// The text is no unified diff.
    Invalid,
    /// The text parses but holds no file patch.
    NoPatches,
}

/// The file patches of a patch file's text: an error when it is not in the
/// shape the library reads or does not parse, or when it holds none.
pub fn parse_patches(text: &str) -> (r: Result<Vec<FilePatch>, PatchError>)
    ensures
        match r {
            Ok(v) => patch_text_shaped(text@) && patch_parse(text@) == Some(patches_view(v@))
                && v@.len() > 0,
            Err(PatchError::NoPatches) => patch_text_shaped(text@) && patch_parse(text@) == Some(
                Seq::<FilePatchView>::empty(),
            ),
            Err(PatchError::Invalid) => !patch_text_shaped(text@) || patch_parse(text@) is None,
        },
{
    if !patch_text_shaped_exec(text) {
        return Err(PatchError::Invalid);
    }
    match parse_patch_text(text) {
        None => Err(PatchError::Invalid),
        Some(v) => {
            if v.len() == 0 {
                proof {
                    assert(patches_view(v@) =~= Seq::<FilePatchView>::empty());
                }
                Err(PatchError::NoPatches)
            } else {
                Ok(v)
            }
        },
    }
}

/// Where a file patch reads the old file and writes the new one, below the
/// package directory `dir`.
pub fn file_patch_paths(dir: &str, fp: &FilePatch) -> (r: (String, String))
    ensures
        r.0@ == join_path_spec(dir@, fp.old_path@),
        r.1@ == join_path_spec(dir@, fp.new_path@),
{
    (join_path(dir, fp.old_path.as_str()), join_path(dir, fp.new_path.as_str()))
}

/// The new text of a file under a file patch: the patched lines of the old
/// text, each ended by a newline; `None` where the hunks run past what the
/// old text holds.
pub fn patched_file_text(old_text: &str, fp: &FilePatch) -> (r: Option<String>)
    ensures
        match r {
            Some(t) => applicable(lines_spec(old_text@), fp.hunks@) && t@ == with_newlines(
                patched_lines(lines_spec(old_text@), fp.hunks@),
            ),
            None => !applicable(lines_spec(old_text@), fp.hunks@),
        },
{
    let lines = text_lines(old_text);
    if hunks_applicable(&lines, &fp.hunks) {
        Some(apply_hunks(&lines, &fp.hunks))
    } else {
        None
    }
}

} // verus!
