//! The shape of a patch file that the library hands to the diff parser: a
//! line-structured unified diff, every line ended by `\n`, read file patch
//! by file patch. Text outside this shape is refused before parsing, so
//! that the parser only ever sees text it reads to its end.

use crate::patch::{lines_spec, text_lines};
use crate::text::{contains_char, contains_char_spec, find_str, occurs_at, occurs_at_exec, slice, str_eq};
use vstd::prelude::*;
use vstd::string::StrSliceExecFns;

verus! {

/// Where a reader of a patch file stands after a line.
#[derive(Debug, Clone, Copy, PartialEq, Eq, Structural)]
pub enum ShapeState {
    /// Free text before a file patch.
    Preamble,
    /// After the `--- ` line: the `+++ ` line comes next.
    NewHeader,
    /// After the `+++ ` line: the first hunk header comes next.
    FirstHunk,
    /// After a hunk header: a hunk line comes next.
    HunkStart,
    /// Inside a hunk, after at least one of its lines.
    HunkBody,
    /// After a file patch's end marker or blank lines.
    Trailer,
    /// The text left the shape; nothing brings it back.
    Malformed,
}

pub open spec fn ascii_digit(c: char) -> bool {
    '0' <= c && c <= '9'
}

/// Number of leading ASCII digits.
pub open spec fn digit_run(s: Seq<char>) -> nat
    decreases s.len(),
{
    if s.len() > 0 && ascii_digit(s[0]) {
        1 + digit_run(s.drop_first())
    } else {
        0
    }
}

/// Length of a hunk range (`start` or `start,count`, each at most 19
/// digits, so that it fits a `u64`) at the head of `s`.
pub open spec fn range_len(s: Seq<char>) -> Option<int> {
    let a = digit_run(s) as int;
    if a == 0 || a > 19 {
        None
    } else if a < s.len() && s[a as int] == ',' {
        let b = digit_run(s.skip(a + 1)) as int;
        if 1 <= b <= 19 {
            Some(a + 1 + b)
        } else {
            None
        }
    } else {
        Some(a as int)
    }
}

/// A hunk header: `@@ -<range> +<range> @@`, then anything.
pub open spec fn hunk_header_ok(c: Seq<char>) -> bool {
    occurs_at(c, "@@ -"@, 0) && match range_len(c.skip(4)) {
        Some(n) => occurs_at(c, " +"@, 4 + n) && match range_len(c.skip(6 + n)) {
            Some(m) => occurs_at(c, " @@"@, 6 + n + m),
            None => false,
        },
        None => false,
    }
}

/// The name part of a `--- ` or `+++ ` line: not empty, not led by a tab,
/// and unquoted.
pub open spec fn header_name_ok(h: Seq<char>) -> bool {
    h.len() > 0 && h[0] != '\t' && !contains_char_spec(h, '"')
}

/// A line of a hunk: added, removed or kept, but no file header.
pub open spec fn hunk_line(c: Seq<char>) -> bool {
    c.len() > 0 && ((c[0] == '+' && !occurs_at(c, "+++ "@, 0)) || (c[0] == '-' && !occurs_at(
        c,
        "--- "@,
        0,
    )) || c[0] == ' ')
}

pub open spec fn no_newline_marker() -> Seq<char> {
    "\\ No newline at end of file"@
}

/// A line read where a file patch may begin.
pub open spec fn preamble_step(st: ShapeState, c: Seq<char>) -> ShapeState {
    if st == ShapeState::Trailer && c.len() == 0 {
        ShapeState::Trailer
    } else if exists|i: int| occurs_at(c, "---"@, i) {
        if occurs_at(c, "--- "@, 0) && header_name_ok(c.skip(4)) {
            ShapeState::NewHeader
        } else {
            ShapeState::Malformed
        }
    } else {
        ShapeState::Preamble
    }
}

/// The state after line `c` read in state `st`.
pub open spec fn shape_step(st: ShapeState, c: Seq<char>) -> ShapeState {
    match st {
        ShapeState::Preamble | ShapeState::Trailer => preamble_step(st, c),
        ShapeState::NewHeader => if occurs_at(c, "+++ "@, 0) && header_name_ok(c.skip(4)) {
            ShapeState::FirstHunk
        } else {
            ShapeState::Malformed
        },
        ShapeState::FirstHunk => if hunk_header_ok(c) {
            ShapeState::HunkStart
        } else {
            ShapeState::Malformed
        },
        ShapeState::HunkStart => if hunk_line(c) {
            ShapeState::HunkBody
        } else {
            ShapeState::Malformed
        },
        ShapeState::HunkBody => if hunk_line(c) {
            ShapeState::HunkBody
        } else if occurs_at(c, "@@ -"@, 0) {
            if hunk_header_ok(c) {
                ShapeState::HunkStart
            } else {
                ShapeState::Malformed
            }
        } else if c.len() == 0 || c == no_newline_marker() {
            ShapeState::Trailer
        } else {
            preamble_step(ShapeState::Preamble, c)
        },
        ShapeState::Malformed => ShapeState::Malformed,
    }
}

/// The state after reading the lines `ls` from the start.
pub open spec fn run_shape(ls: Seq<Seq<char>>) -> ShapeState
    decreases ls.len(),
{
    if ls.len() == 0 {
        ShapeState::Preamble
    } else {
        shape_step(run_shape(ls.drop_last()), ls.last())
    }
}

/// Every `\r` stands right before a `\n`.
pub open spec fn lone_cr_free(s: Seq<char>) -> bool {
    forall|i: int| 0 <= i < s.len() && #[trigger] s[i] == '\r' ==> i + 1 < s.len() && s[i + 1] == '\n'
}

/// A patch text in the shape this library reads: not empty, ended by a
/// newline, no stray carriage return, and its lines end inside a hunk or
/// after one, with every file patch complete.
pub open spec fn patch_text_shaped(s: Seq<char>) -> bool {
    &&& s.len() > 0
    &&& s.last() == '\n'
    &&& lone_cr_free(s)
    &&& (run_shape(lines_spec(s)) == ShapeState::HunkBody || run_shape(lines_spec(s))
        == ShapeState::Trailer)
}

proof fn lemma_digit_run_unique(s: Seq<char>, k: int)
    requires
        0 <= k <= s.len(),
        forall|i: int| 0 <= i < k ==> ascii_digit(#[trigger] s[i]),
        k < s.len() ==> !ascii_digit(s[k]),
    ensures
        digit_run(s) == k,
    decreases s.len(),
{
    if k > 0 {
        assert(ascii_digit(s[0]));
        assert forall|i: int| 0 <= i < k - 1 implies ascii_digit(#[trigger] s.drop_first()[i]) by {
            assert(s.drop_first()[i] == s[i + 1]);
        }
        if k - 1 < s.len() - 1 {
            assert(s.drop_first()[k - 1] == s[k]);
        }
        lemma_digit_run_unique(s.drop_first(), k - 1);
    }
}

/// Number of ASCII digits in `s` from character `from` on.
fn digit_run_at(s: &str, from: usize) -> (r: usize)
    requires
        from <= s@.len(),
    ensures
        r == digit_run(s@.skip(from as int)),
        from + r <= s@.len(),
{
    let n = s.unicode_len();
    let mut k: usize = from;
    while k < n && '0' <= s.get_char(k) && s.get_char(k) <= '9'
        invariant
            n == s@.len(),
            from <= k <= n,
            forall|j: int| from <= j < k ==> ascii_digit(#[trigger] s@[j]),
        decreases n - k,
    {
        k = k + 1;
    }
    proof {
        let t = s@.skip(from as int);
        assert forall|i: int| 0 <= i < k - from implies ascii_digit(#[trigger] t[i]) by {
            assert(t[i] == s@[from + i]);
        }
        if k < n {
            assert(t[k - from] == s@[k as int]);
        }
        lemma_digit_run_unique(t, k - from);
    }
    k - from
}

/// Length of the hunk range at character `from` of `s`.
fn range_len_at(s: &str, from: usize) -> (r: Option<usize>)
    requires
        from <= s@.len(),
    ensures
        match r {
            Some(n) => range_len(s@.skip(from as int)) == Some(n as int) && from + n <= s@.len(),
            None => range_len(s@.skip(from as int)) is None,
        },
{
    let ghost t = s@.skip(from as int);
    let n = s.unicode_len();
    let a = digit_run_at(s, from);
    if a == 0 || a > 19 {
        return None;
    }
    if from + a < n && s.get_char(from + a) == ',' {
        assert(t[a as int] == s@[from + a]);
        let b = digit_run_at(s, from + a + 1);
        assert(t.skip(a + 1) =~= s@.skip(from + a + 1));
        if 1 <= b && b <= 19 {
            Some(a + 1 + b)
        } else {
            None
        }
    } else {
        if from + a < n {
            assert(t[a as int] == s@[from + a]);
        }
        Some(a)
    }
}

fn hunk_header_ok_exec(c: &str) -> (r: bool)
    ensures
        r == hunk_header_ok(c@),
{
    proof {
        reveal_strlit("@@ -");
        reveal_strlit(" +");
    }
    if !occurs_at_exec(c, "@@ -", 0) {
        return false;
    }
    match range_len_at(c, 4) {
        None => false,
        Some(n) => {
            if !occurs_at_exec(c, " +", 4 + n) {
                return false;
            }
            match range_len_at(c, 6 + n) {
                None => false,
                Some(m) => {
                    assert(c@.skip(6 + n) =~= c@.skip(6 + n as int));
                    occurs_at_exec(c, " @@", 6 + n + m)
                },
            }
        },
    }
}

fn header_name_ok_exec(c: &str) -> (r: bool)
    requires
        4 <= c@.len(),
    ensures
        r == header_name_ok(c@.skip(4)),
{
    let n = c.unicode_len();
    let h = slice(c, 4, n);
    assert(h@ =~= c@.skip(4));
    h.unicode_len() > 0 && h.get_char(0) != '\t' && !contains_char(h, '"')
}

fn hunk_line_exec(c: &str) -> (r: bool)
    ensures
        r == hunk_line(c@),
{
    if c.unicode_len() == 0 {
        return false;
    }
    let first = c.get_char(0);
    (first == '+' && !occurs_at_exec(c, "+++ ", 0)) || (first == '-' && !occurs_at_exec(c, "--- ", 0))
        || first == ' '
}

fn preamble_step_exec(st: ShapeState, c: &str) -> (r: ShapeState)
    ensures
        r == preamble_step(st, c@),
{
    if st == ShapeState::Trailer && c.unicode_len() == 0 {
        return ShapeState::Trailer;
    }
    match find_str(c, "---") {
        None => ShapeState::Preamble,
        Some(_) => {
            proof {
                reveal_strlit("--- ");
            }
            if occurs_at_exec(c, "--- ", 0) && header_name_ok_exec(c) {
                ShapeState::NewHeader
            } else {
                ShapeState::Malformed
            }
        },
    }
}

fn shape_step_exec(st: ShapeState, c: &str) -> (r: ShapeState)
    ensures
        r == shape_step(st, c@),
{
    match st {
        ShapeState::Preamble | ShapeState::Trailer => preamble_step_exec(st, c),
        ShapeState::NewHeader => {
            proof {
                reveal_strlit("+++ ");
            }
            if occurs_at_exec(c, "+++ ", 0) && header_name_ok_exec(c) {
                ShapeState::FirstHunk
            } else {
                ShapeState::Malformed
            }
        },
        ShapeState::FirstHunk => if hunk_header_ok_exec(c) {
            ShapeState::HunkStart
        } else {
            ShapeState::Malformed
        },
        ShapeState::HunkStart => if hunk_line_exec(c) {
            ShapeState::HunkBody
        } else {
            ShapeState::Malformed
        },
        ShapeState::HunkBody => {
            if hunk_line_exec(c) {
                ShapeState::HunkBody
            } else if occurs_at_exec(c, "@@ -", 0) {
                if hunk_header_ok_exec(c) {
                    ShapeState::HunkStart
                } else {
                    ShapeState::Malformed
                }
            } else if c.unicode_len() == 0 || str_eq(c, "\\ No newline at end of file") {
                ShapeState::Trailer
            } else {
                preamble_step_exec(ShapeState::Preamble, c)
            }
        },
        ShapeState::Malformed => ShapeState::Malformed,
    }
}

/// Whether a patch text is in the shape the library reads.
pub fn patch_text_shaped_exec(text: &str) -> (r: bool)
    ensures
        r == patch_text_shaped(text@),
{
    let n = text.unicode_len();
    if n == 0 || text.get_char(n - 1) != '\n' {
        return false;
    }
    let mut i: usize = 0;
    while i < n
        invariant
            n == text@.len(),
            i <= n,
            forall|j: int|
                0 <= j < i && #[trigger] text@[j] == '\r' ==> j + 1 < text@.len() && text@[j + 1] == '\n',
        decreases n - i,
    {
        if text.get_char(i) == '\r' && (i + 1 >= n || text.get_char(i + 1) != '\n') {
            return false;
        }
        i = i + 1;
    }
    let lines = text_lines(text);
    let ghost ls = lines_spec(text@);
    assert(lines@.len() == ls.len()) by {
        assert(lines@.map_values(|l: String| l@).len() == lines@.len());
    }
    let mut st = ShapeState::Preamble;
    let mut k: usize = 0;
    while k < lines.len()
        invariant
            lines@.map_values(|l: String| l@) == ls,
            lines@.len() == ls.len(),
            k <= lines@.len(),
            st == run_shape(ls.take(k as int)),
        decreases lines@.len() - k,
    {
        assert(lines@.map_values(|l: String| l@)[k as int] == lines@[k as int]@);
        st = shape_step_exec(st, lines[k].as_str());
        assert(ls.take(k + 1).drop_last() =~= ls.take(k as int));
        k = k + 1;
    }
    assert(ls.take(k as int) =~= ls);
    st == ShapeState::HunkBody || st == ShapeState::Trailer
}

} // verus!
