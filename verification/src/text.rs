//! Character-level helpers over `&str`, each tied to a specification over
//! `Seq<char>`.

use vstd::prelude::*;
use vstd::string::StrSliceExecFns;
use vstd::string::StringExecFns;

verus! {

/// Unicode `White_Space` property, as used by `str::trim` and
/// `str::split_whitespace`.
pub open spec fn is_ws(c: char) -> bool {
    let u = c as u32;
    (0x09 <= u <= 0x0d) || u == 0x20 || u == 0x85 || u == 0xa0 || u == 0x1680 || (0x2000 <= u
        <= 0x200a) || u == 0x2028 || u == 0x2029 || u == 0x202f || u == 0x205f || u == 0x3000
}

/// Unicode general category `Cc`, as used by `char::is_control`.
pub open spec fn is_ctrl(c: char) -> bool {
    let u = c as u32;
    u <= 0x1f || (0x7f <= u <= 0x9f)
}

pub fn char_is_ws(c: char) -> (r: bool)
    ensures
        r == is_ws(c),
{
    let u = c as u32;
    (0x09 <= u && u <= 0x0d) || u == 0x20 || u == 0x85 || u == 0xa0 || u == 0x1680 || (0x2000
        <= u && u <= 0x200a) || u == 0x2028 || u == 0x2029 || u == 0x202f || u == 0x205f || u
        == 0x3000
}

pub fn char_is_ctrl(c: char) -> (r: bool)
    ensures
        r == is_ctrl(c),
{
    let u = c as u32;
    u <= 0x1f || (0x7f <= u && u <= 0x9f)
}

/// Number of leading whitespace characters.
pub open spec fn lead_ws(s: Seq<char>) -> nat
    decreases s.len(),
{
    if s.len() > 0 && is_ws(s[0]) {
        1 + lead_ws(s.drop_first())
    } else {
        0
    }
}

/// Number of trailing whitespace characters.
pub open spec fn trail_ws(s: Seq<char>) -> nat
    decreases s.len(),
{
    if s.len() > 0 && is_ws(s.last()) {
        1 + trail_ws(s.drop_last())
    } else {
        0
    }
}

/// `str::trim`: leading and trailing whitespace removed.
pub open spec fn trim_spec(s: Seq<char>) -> Seq<char> {
    let t = s.skip(lead_ws(s) as int);
    t.take(t.len() - trail_ws(t))
}

pub proof fn lemma_lead_ws(s: Seq<char>)
    ensures
        lead_ws(s) <= s.len(),
        forall|i: int| 0 <= i < lead_ws(s) ==> is_ws(#[trigger] s[i]),
        lead_ws(s) < s.len() ==> !is_ws(s[lead_ws(s) as int]),
    decreases s.len(),
{
    if s.len() > 0 && is_ws(s[0]) {
        lemma_lead_ws(s.drop_first());
        assert forall|i: int| 0 <= i < lead_ws(s) implies is_ws(#[trigger] s[i]) by {
            if i > 0 {
                assert(s[i] == s.drop_first()[i - 1]);
            }
        }
    }
}

pub proof fn lemma_trail_ws(s: Seq<char>)
    ensures
        trail_ws(s) <= s.len(),
        forall|i: int| s.len() - trail_ws(s) <= i < s.len() ==> is_ws(#[trigger] s[i]),
        trail_ws(s) < s.len() ==> !is_ws(s[s.len() - trail_ws(s) - 1]),
    decreases s.len(),
{
    if s.len() > 0 && is_ws(s.last()) {
        lemma_trail_ws(s.drop_last());
        assert forall|i: int| s.len() - trail_ws(s) <= i < s.len() implies is_ws(
            #[trigger] s[i],
        ) by {
            if i < s.len() - 1 {
                assert(s[i] == s.drop_last()[i]);
            }
        }
    }
}

/// The count of leading characters that satisfy the whitespace test, from the
/// characteristic properties.
pub proof fn lemma_lead_ws_unique(s: Seq<char>, k: int)
    requires
        0 <= k <= s.len(),
        forall|i: int| 0 <= i < k ==> is_ws(#[trigger] s[i]),
        k < s.len() ==> !is_ws(s[k]),
    ensures
        lead_ws(s) == k,
    decreases s.len(),
{
    if k > 0 {
        assert(is_ws(s[0]));
        assert forall|i: int| 0 <= i < k - 1 implies is_ws(#[trigger] s.drop_first()[i]) by {
            assert(s.drop_first()[i] == s[i + 1]);
        }
        if k - 1 < s.len() - 1 {
            assert(s.drop_first()[k - 1] == s[k]);
        }
        lemma_lead_ws_unique(s.drop_first(), k - 1);
    } else if s.len() > 0 {
        assert(!is_ws(s[0]));
    }
}

pub proof fn lemma_trail_ws_unique(s: Seq<char>, k: int)
    requires
        0 <= k <= s.len(),
        forall|i: int| s.len() - k <= i < s.len() ==> is_ws(#[trigger] s[i]),
        k < s.len() ==> !is_ws(s[s.len() - k - 1]),
    ensures
        trail_ws(s) == k,
    decreases s.len(),
{
    if k > 0 {
        assert(is_ws(s[s.len() - 1]));
        let d = s.drop_last();
        assert forall|i: int| d.len() - (k - 1) <= i < d.len() implies is_ws(#[trigger] d[i]) by {
            assert(d[i] == s[i]);
        }
        if k - 1 < d.len() {
            assert(d[d.len() - (k - 1) - 1] == s[s.len() - k - 1]);
        }
        lemma_trail_ws_unique(d, k - 1);
    } else if s.len() > 0 {
        assert(!is_ws(s.last()));
    }
}

/// `str::trim`.
pub fn trim(s: &str) -> (r: &str)
    ensures
        r@ == trim_spec(s@),
{
    let n = s.unicode_len();
    let mut a: usize = 0;
    while a < n && char_is_ws(s.get_char(a))
        invariant
            n == s@.len(),
            a <= n,
            forall|i: int| 0 <= i < a ==> is_ws(#[trigger] s@[i]),
        decreases n - a,
    {
        a = a + 1;
    }
    proof {
        lemma_lead_ws_unique(s@, a as int);
    }
    let mut b: usize = n;
    while b > a && char_is_ws(s.get_char(b - 1))
        invariant
            n == s@.len(),
            a <= b <= n,
            forall|i: int| b <= i < n ==> is_ws(#[trigger] s@[i]),
        decreases b,
    {
        b = b - 1;
    }
    proof {
        let t = s@.skip(a as int);
        assert forall|i: int| t.len() - (n - b) <= i < t.len() implies is_ws(#[trigger] t[i]) by {
            assert(t[i] == s@[i + a]);
        }
        if n - b < t.len() {
            assert(t[t.len() - (n - b) - 1] == s@[b - 1]);
        }
        lemma_trail_ws_unique(t, (n - b) as int);
        assert(t.take(t.len() - (n - b)) =~= s@.subrange(a as int, b as int));
    }
    s.substring_char(a, b)
}

/// First position of `c` in `s`.
pub open spec fn find_spec(s: Seq<char>, c: char) -> Option<int>
    decreases s.len(),
{
    if s.len() == 0 {
        None
    } else if s[0] == c {
        Some(0)
    } else {
        match find_spec(s.drop_first(), c) {
            Some(i) => Some(i + 1),
            None => None,
        }
    }
}

/// Last position of `c` in `s`.
pub open spec fn rfind_spec(s: Seq<char>, c: char) -> Option<int>
    decreases s.len(),
{
    if s.len() == 0 {
        None
    } else if s.last() == c {
        Some(s.len() - 1)
    } else {
        rfind_spec(s.drop_last(), c)
    }
}

pub proof fn lemma_find(s: Seq<char>, c: char)
    ensures
        match find_spec(s, c) {
            Some(i) => 0 <= i < s.len() && s[i] == c && forall|j: int|
                0 <= j < i ==> #[trigger] s[j] != c,
            None => forall|j: int| 0 <= j < s.len() ==> #[trigger] s[j] != c,
        },
    decreases s.len(),
{
    if s.len() > 0 && s[0] != c {
        lemma_find(s.drop_first(), c);
        match find_spec(s.drop_first(), c) {
            Some(i) => {
                assert(s[i + 1] == s.drop_first()[i]);
                assert forall|j: int| 0 <= j < i + 1 implies #[trigger] s[j] != c by {
                    if j > 0 {
                        assert(s[j] == s.drop_first()[j - 1]);
                    }
                }
            },
            None => {
                assert forall|j: int| 0 <= j < s.len() implies #[trigger] s[j] != c by {
                    if j > 0 {
                        assert(s[j] == s.drop_first()[j - 1]);
                    }
                }
            },
        }
    }
}

pub proof fn lemma_rfind(s: Seq<char>, c: char)
    ensures
        match rfind_spec(s, c) {
            Some(i) => 0 <= i < s.len() && s[i] == c && forall|j: int|
                i < j < s.len() ==> #[trigger] s[j] != c,
            None => forall|j: int| 0 <= j < s.len() ==> #[trigger] s[j] != c,
        },
    decreases s.len(),
{
    if s.len() > 0 && s.last() != c {
        lemma_rfind(s.drop_last(), c);
        match rfind_spec(s.drop_last(), c) {
            Some(i) => {
                assert(s[i] == s.drop_last()[i]);
                assert forall|j: int| i < j < s.len() implies #[trigger] s[j] != c by {
                    if j < s.len() - 1 {
                        assert(s[j] == s.drop_last()[j]);
                    }
                }
            },
            None => {
                assert forall|j: int| 0 <= j < s.len() implies #[trigger] s[j] != c by {
                    if j < s.len() - 1 {
                        assert(s[j] == s.drop_last()[j]);
                    }
                }
            },
        }
    }
}

/// The characteristic properties of the first position determine it.
pub proof fn lemma_find_unique(s: Seq<char>, c: char, k: Option<int>)
    requires
        match k {
            Some(i) => 0 <= i < s.len() && s[i] == c && forall|j: int|
                0 <= j < i ==> #[trigger] s[j] != c,
            None => forall|j: int| 0 <= j < s.len() ==> #[trigger] s[j] != c,
        },
    ensures
        find_spec(s, c) == k,
{
    lemma_find(s, c);
    match find_spec(s, c) {
        Some(i) => {
            match k {
                Some(i2) => {
                    if i < i2 {
                        assert(s[i] != c);
                    }
                    if i2 < i {
                        assert(s[i2] != c);
                    }
                },
                None => {
                    assert(s[i] != c);
                },
            }
        },
        None => {
            match k {
                Some(i2) => {
                    assert(s[i2] != c);
                },
                None => {},
            }
        },
    }
}

pub proof fn lemma_rfind_unique(s: Seq<char>, c: char, k: Option<int>)
    requires
        match k {
            Some(i) => 0 <= i < s.len() && s[i] == c && forall|j: int|
                i < j < s.len() ==> #[trigger] s[j] != c,
            None => forall|j: int| 0 <= j < s.len() ==> #[trigger] s[j] != c,
        },
    ensures
        rfind_spec(s, c) == k,
{
    lemma_rfind(s, c);
    match rfind_spec(s, c) {
        Some(i) => {
            match k {
                Some(i2) => {
                    if i < i2 {
                        assert(s[i2] != c);
                    }
                    if i2 < i {
                        assert(s[i] != c);
                    }
                },
                None => {
                    assert(s[i] != c);
                },
            }
        },
        None => {
            match k {
                Some(i2) => {
                    assert(s[i2] != c);
                },
                None => {},
            }
        },
    }
}

/// `str::find` with a `char` pattern, counted in characters.
pub fn find_char(s: &str, c: char) -> (r: Option<usize>)
    ensures
        match r {
            Some(i) => find_spec(s@, c) == Some(i as int),
            None => find_spec(s@, c) is None,
        },
{
    let n = s.unicode_len();
    let mut i: usize = 0;
    while i < n
        invariant
            n == s@.len(),
            i <= n,
            forall|j: int| 0 <= j < i ==> #[trigger] s@[j] != c,
        decreases n - i,
    {
        if s.get_char(i) == c {
            proof {
                lemma_find_unique(s@, c, Some(i as int));
            }
            return Some(i);
        }
        i = i + 1;
    }
    proof {
        lemma_find_unique(s@, c, None);
    }
    None
}

/// `str::rfind` with a `char` pattern, counted in characters.
pub fn rfind_char(s: &str, c: char) -> (r: Option<usize>)
    ensures
        match r {
            Some(i) => rfind_spec(s@, c) == Some(i as int),
            None => rfind_spec(s@, c) is None,
        },
{
    let n = s.unicode_len();
    let mut i: usize = n;
    while i > 0
        invariant
            n == s@.len(),
            i <= n,
            forall|j: int| i <= j < n ==> #[trigger] s@[j] != c,
        decreases i,
    {
        if s.get_char(i - 1) == c {
            proof {
                lemma_rfind_unique(s@, c, Some(i - 1));
            }
            return Some(i - 1);
        }
        i = i - 1;
    }
    proof {
        lemma_rfind_unique(s@, c, None);
    }
    None
}

pub open spec fn contains_char_spec(s: Seq<char>, c: char) -> bool {
    exists|i: int| 0 <= i < s.len() && s[i] == c
}

pub fn contains_char(s: &str, c: char) -> (r: bool)
    ensures
        r == contains_char_spec(s@, c),
{
    let f = find_char(s, c);
    proof {
        lemma_find(s@, c);
    }
    f.is_some()
}

/// The text of `s` from character `from` up to character `to`.
pub fn slice(s: &str, from: usize, to: usize) -> (r: &str)
    requires
        from <= to <= s@.len(),
    ensures
        r@ == s@.subrange(from as int, to as int),
{
    s.substring_char(from, to)
}

/// An owned copy of `s`.
pub fn owned(s: &str) -> (r: String)
    ensures
        r@ == s@,
{
    String::from_str(s)
}

/// Equality of two strings by their characters.
pub fn str_eq(a: &str, b: &str) -> (r: bool)
    ensures
        r == (a@ == b@),
{
    let n = a.unicode_len();
    let m = b.unicode_len();
    if n != m {
        return false;
    }
    let mut i: usize = 0;
    while i < n
        invariant
            n == a@.len(),
            m == b@.len(),
            n == m,
            i <= n,
            forall|j: int| 0 <= j < i ==> a@[j] == b@[j],
        decreases n - i,
    {
        if a.get_char(i) != b.get_char(i) {
            return false;
        }
        i = i + 1;
    }
    assert(a@ =~= b@);
    true
}

/// `p` occurs in `s` at character position `i`.
pub open spec fn occurs_at(s: Seq<char>, p: Seq<char>, i: int) -> bool {
    0 <= i && i + p.len() <= s.len() && s.subrange(i, i + p.len()) == p
}

/// Whether `p` occurs in `s` at character position `i`.
pub fn occurs_at_exec(s: &str, p: &str, i: usize) -> (r: bool)
    ensures
        r == occurs_at(s@, p@, i as int),
{
    let n = s.unicode_len();
    let m = p.unicode_len();
    if i > n || m > n - i {
        return false;
    }
    let mut k: usize = 0;
    while k < m
        invariant
            n == s@.len(),
            m == p@.len(),
            i + m <= n,
            k <= m,
            forall|j: int| 0 <= j < k ==> s@[i + j] == p@[j],
        decreases m - k,
    {
        if s.get_char(i + k) != p.get_char(k) {
            assert(s@.subrange(i as int, i + m)[k as int] != p@[k as int]);
            return false;
        }
        k = k + 1;
    }
    assert(s@.subrange(i as int, i + m) =~= p@);
    true
}

/// `str::starts_with` with a string pattern.
pub fn starts_with(s: &str, p: &str) -> (r: bool)
    ensures
        r == occurs_at(s@, p@, 0),
{
    occurs_at_exec(s, p, 0)
}

/// First position at which `p` occurs in `s`.
pub open spec fn find_str_spec(s: Seq<char>, p: Seq<char>) -> Option<int> {
    if exists|i: int| occurs_at(s, p, i) {
        Some(choose|i: int| occurs_at(s, p, i) && forall|j: int| 0 <= j < i ==> !occurs_at(s, p, j))
    } else {
        None
    }
}

/// Last position at which `p` occurs in `s`.
pub open spec fn rfind_str_spec(s: Seq<char>, p: Seq<char>) -> Option<int> {
    if exists|i: int| occurs_at(s, p, i) {
        Some(
            choose|i: int| occurs_at(s, p, i) && forall|j: int| i < j ==> !occurs_at(s, p, j),
        )
    } else {
        None
    }
}

/// `str::find` with a string pattern, counted in characters.
pub fn find_str(s: &str, p: &str) -> (r: Option<usize>)
    ensures
        r matches Some(i) ==> find_str_spec(s@, p@) == Some(i as int),
        r is None ==> find_str_spec(s@, p@) is None,
        r matches Some(i) ==> occurs_at(s@, p@, i as int) && forall|j: int|
            0 <= j < i ==> !occurs_at(s@, p@, j),
        r is None ==> forall|j: int| !occurs_at(s@, p@, j),
{
    let n = s.unicode_len();
    if p.unicode_len() == 0 {
        assert(s@.subrange(0, 0) =~= p@);
        proof {
            let c = choose|k: int|
                occurs_at(s@, p@, k) && forall|j: int| 0 <= j < k ==> !occurs_at(s@, p@, j);
            assert(occurs_at(s@, p@, 0));
        }
        return Some(0);
    }
    let mut i: usize = 0;
    while i < n
        invariant
            n == s@.len(),
            p@.len() > 0,
            forall|j: int| 0 <= j < i ==> !occurs_at(s@, p@, j),
        decreases n - i,
    {
        if occurs_at_exec(s, p, i) {
            proof {
                let c = choose|k: int|
                    occurs_at(s@, p@, k) && forall|j: int| 0 <= j < k ==> !occurs_at(s@, p@, j);
                assert(occurs_at(s@, p@, i as int));
                if c < i {
                } else if c > i {
                }
            }
            return Some(i);
        }
        i = i + 1;
    }
    None
}

/// `str::rfind` with a string pattern, counted in characters.
pub fn rfind_str(s: &str, p: &str) -> (r: Option<usize>)
    ensures
        r matches Some(i) ==> rfind_str_spec(s@, p@) == Some(i as int),
        r is None ==> rfind_str_spec(s@, p@) is None,
        r matches Some(i) ==> occurs_at(s@, p@, i as int) && forall|j: int|
            i < j ==> !occurs_at(s@, p@, j),
        r is None ==> forall|j: int| !occurs_at(s@, p@, j),
{
    let n = s.unicode_len();
    if p.unicode_len() == 0 {
        assert(s@.subrange(n as int, n as int) =~= p@);
        proof {
            let c = choose|k: int|
                occurs_at(s@, p@, k) && forall|j: int| k < j ==> !occurs_at(s@, p@, j);
            assert(occurs_at(s@, p@, n as int));
        }
        return Some(n);
    }
    let mut i: usize = n;
    while i > 0
        invariant
            n == s@.len(),
            p@.len() > 0,
            i <= n,
            forall|j: int| i <= j ==> !occurs_at(s@, p@, j),
        decreases i,
    {
        if occurs_at_exec(s, p, i - 1) {
            proof {
                let c = choose|k: int|
                    occurs_at(s@, p@, k) && forall|j: int| k < j ==> !occurs_at(s@, p@, j);
                assert(occurs_at(s@, p@, i - 1));
            }
            return Some(i - 1);
        }
        i = i - 1;
    }
    None
}

/// `str::strip_prefix` with a string pattern.
pub fn strip_prefix<'a>(s: &'a str, p: &str) -> (r: Option<&'a str>)
    ensures
        r matches Some(t) ==> occurs_at(s@, p@, 0) && t@ == s@.skip(p@.len() as int),
        r is None ==> !occurs_at(s@, p@, 0),
{
    if starts_with(s, p) {
        let n = s.unicode_len();
        let m = p.unicode_len();
        Some(s.substring_char(m, n))
    } else {
        None
    }
}

/// `str::trim_start_matches` with a `char` pattern: every leading `c` removed.
pub open spec fn lead_count(s: Seq<char>, c: char) -> nat
    decreases s.len(),
{
    if s.len() > 0 && s[0] == c {
        1 + lead_count(s.drop_first(), c)
    } else {
        0
    }
}

pub open spec fn trim_start_char_spec(s: Seq<char>, c: char) -> Seq<char> {
    s.skip(lead_count(s, c) as int)
}

pub proof fn lemma_lead_count_unique(s: Seq<char>, c: char, k: int)
    requires
        0 <= k <= s.len(),
        forall|i: int| 0 <= i < k ==> #[trigger] s[i] == c,
        k < s.len() ==> s[k] != c,
    ensures
        lead_count(s, c) == k,
    decreases s.len(),
{
    if k > 0 {
        assert(s[0] == c);
        assert forall|i: int| 0 <= i < k - 1 implies #[trigger] s.drop_first()[i] == c by {
            assert(s.drop_first()[i] == s[i + 1]);
        }
        if k - 1 < s.len() - 1 {
            assert(s.drop_first()[k - 1] == s[k]);
        }
        lemma_lead_count_unique(s.drop_first(), c, k - 1);
    } else if s.len() > 0 {
        assert(s[0] != c);
    }
}

pub fn trim_start_char(s: &str, c: char) -> (r: &str)
    ensures
        r@ == trim_start_char_spec(s@, c),
{
    let n = s.unicode_len();
    let mut i: usize = 0;
    while i < n && s.get_char(i) == c
        invariant
            n == s@.len(),
            i <= n,
            forall|j: int| 0 <= j < i ==> #[trigger] s@[j] == c,
        decreases n - i,
    {
        i = i + 1;
    }
    proof {
        lemma_lead_count_unique(s@, c, i as int);
    }
    s.substring_char(i, n)
}

} // verus!

verus! {

/// Number of leading characters that are not whitespace.
pub open spec fn lead_nonws(s: Seq<char>) -> nat
    decreases s.len(),
{
    if s.len() > 0 && !is_ws(s[0]) {
        1 + lead_nonws(s.drop_first())
    } else {
        0
    }
}

pub proof fn lemma_lead_nonws_unique(s: Seq<char>, k: int)
    requires
        0 <= k <= s.len(),
        forall|i: int| 0 <= i < k ==> !is_ws(#[trigger] s[i]),
        k < s.len() ==> is_ws(s[k]),
    ensures
        lead_nonws(s) == k,
    decreases s.len(),
{
    if k > 0 {
        assert(!is_ws(s[0]));
        assert forall|i: int| 0 <= i < k - 1 implies !is_ws(#[trigger] s.drop_first()[i]) by {
            assert(s.drop_first()[i] == s[i + 1]);
        }
        if k - 1 < s.len() - 1 {
            assert(s.drop_first()[k - 1] == s[k]);
        }
        lemma_lead_nonws_unique(s.drop_first(), k - 1);
    } else if s.len() > 0 {
        assert(is_ws(s[0]));
    }
}

pub proof fn lemma_lead_nonws_bound(s: Seq<char>)
    ensures
        lead_nonws(s) <= s.len(),
        s.len() > 0 && !is_ws(s[0]) ==> lead_nonws(s) > 0,
    decreases s.len(),
{
    if s.len() > 0 && !is_ws(s[0]) {
        lemma_lead_nonws_bound(s.drop_first());
    }
}

/// `str::split_whitespace`: the maximal runs of non-whitespace characters.
pub open spec fn ws_tokens(s: Seq<char>) -> Seq<Seq<char>>
    decreases s.len(),
{
    if s.len() == 0 {
        seq![]
    } else if is_ws(s[0]) {
        ws_tokens(s.drop_first())
    } else {
        let k = lead_nonws(s);
        if 0 < k <= s.len() {
            seq![s.take(k as int)] + ws_tokens(s.skip(k as int))
        } else {
            seq![]
        }
    }
}

pub fn split_whitespace(s: &str) -> (r: Vec<&str>)
    ensures
        r@.len() == ws_tokens(s@).len(),
        forall|i: int| 0 <= i < r@.len() ==> #[trigger] r@[i]@ == ws_tokens(s@)[i],
{
    let n = s.unicode_len();
    let mut toks: Vec<&str> = Vec::new();
    let ghost mut done: Seq<Seq<char>> = seq![];
    let mut i: usize = 0;
    assert(s@.skip(0) =~= s@);
    while i < n
        invariant
            n == s@.len(),
            i <= n,
            toks@.len() == done.len(),
            forall|j: int| 0 <= j < toks@.len() ==> #[trigger] toks@[j]@ == done[j],
            ws_tokens(s@) == done + ws_tokens(s@.skip(i as int)),
        decreases n - i,
    {
        let c = s.get_char(i);
        if char_is_ws(c) {
            proof {
                let t = s@.skip(i as int);
                assert(t[0] == c);
                assert(t.drop_first() =~= s@.skip(i + 1));
            }
            i = i + 1;
        } else {
            let start = i;
            while i < n && !char_is_ws(s.get_char(i))
                invariant
                    n == s@.len(),
                    start <= i <= n,
                    forall|j: int| start <= j < i ==> !is_ws(#[trigger] s@[j]),
                decreases n - i,
            {
                i = i + 1;
            }
            let tok = s.substring_char(start, i);
            proof {
                let t = s@.skip(start as int);
                assert forall|j: int| 0 <= j < i - start implies !is_ws(#[trigger] t[j]) by {
                    assert(t[j] == s@[start + j]);
                }
                if i < n {
                    assert(t[i - start] == s@[i as int]);
                }
                lemma_lead_nonws_unique(t, i - start);
                assert(t[0] == c);
                assert(t.take(i - start) =~= tok@);
                assert(t.skip(i - start) =~= s@.skip(i as int));
                assert(ws_tokens(t) == seq![tok@] + ws_tokens(s@.skip(i as int)));
                done = done.push(tok@);
                assert(done == (done.drop_last()) + seq![tok@]);
                assert(ws_tokens(s@) =~= done + ws_tokens(s@.skip(i as int)));
            }
            toks.push(tok);
        }
    }
    proof {
        assert(s@.skip(n as int).len() == 0);
        assert(done + seq![] =~= done);
    }
    toks
}

} // verus!

verus! {

/// `str::split` with a `char` separator.
pub open spec fn split_char_spec(s: Seq<char>, c: char) -> Seq<Seq<char>>
    decreases s.len(),
{
    match find_spec(s, c) {
        None => seq![s],
        Some(i) => if 0 <= i < s.len() {
            seq![s.take(i)] + split_char_spec(s.skip(i + 1), c)
        } else {
            seq![s]
        },
    }
}

pub fn split_char(s: &str, c: char) -> (r: Vec<&str>)
    ensures
        r@.len() == split_char_spec(s@, c).len(),
        forall|i: int| 0 <= i < r@.len() ==> #[trigger] r@[i]@ == split_char_spec(s@, c)[i],
{
    let mut out: Vec<&str> = Vec::new();
    let ghost mut done: Seq<Seq<char>> = seq![];
    let mut rest: &str = s;
    loop
        invariant
            out@.len() == done.len(),
            forall|j: int| 0 <= j < out@.len() ==> #[trigger] out@[j]@ == done[j],
            split_char_spec(s@, c) == done + split_char_spec(rest@, c),
        decreases rest@.len(),
    {
        match find_char(rest, c) {
            None => {
                proof {
                    done = done.push(rest@);
                }
                out.push(rest);
                assert(split_char_spec(s@, c) =~= done);
                return out;
            },
            Some(i) => {
                proof {
                    lemma_find(rest@, c);
                }
                let n = rest.unicode_len();
                let head = rest.substring_char(0, i);
                let tail = rest.substring_char(i + 1, n);
                proof {
                    assert(head@ =~= rest@.take(i as int));
                    assert(tail@ =~= rest@.skip(i + 1));
                    done = done.push(head@);
                    assert(split_char_spec(s@, c) =~= done + split_char_spec(tail@, c));
                }
                out.push(head);
                rest = tail;
            },
        }
    }
}

/// `str::split` with a non-empty string separator.
pub open spec fn split_str_spec(s: Seq<char>, p: Seq<char>) -> Seq<Seq<char>>
    decreases s.len(),
{
    match find_str_spec(s, p) {
        None => seq![s],
        Some(i) => if 0 <= i && p.len() > 0 && i + p.len() <= s.len() {
            seq![s.take(i)] + split_str_spec(s.skip(i + p.len()), p)
        } else {
            seq![s]
        },
    }
}

proof fn lemma_split_str_step(s: Seq<char>, p: Seq<char>, i: int)
    requires
        find_str_spec(s, p) == Some(i),
        p.len() > 0,
        occurs_at(s, p, i),
    ensures
        split_str_spec(s, p) == seq![s.take(i)] + split_str_spec(s.skip(i + p.len()), p),
{
}

proof fn lemma_split_str_last(s: Seq<char>, p: Seq<char>)
    requires
        find_str_spec(s, p) is None,
    ensures
        split_str_spec(s, p) == seq![s],
{
}

#[verifier::rlimit(30)]
pub fn split_str<'a>(s: &'a str, p: &str) -> (r: Vec<&'a str>)
    requires
        p@.len() > 0,
    ensures
        r@.len() == split_str_spec(s@, p@).len(),
        forall|i: int| 0 <= i < r@.len() ==> #[trigger] r@[i]@ == split_str_spec(s@, p@)[i],
{
    let m = p.unicode_len();
    let mut out: Vec<&str> = Vec::new();
    let ghost mut done: Seq<Seq<char>> = seq![];
    let mut rest: &str = s;
    loop
        invariant
            m == p@.len(),
            m > 0,
            out@.len() == done.len(),
            forall|j: int| 0 <= j < out@.len() ==> #[trigger] out@[j]@ == done[j],
            split_str_spec(s@, p@) == done + split_str_spec(rest@, p@),
        decreases rest@.len(),
    {
        match find_str(rest, p) {
            None => {
                proof {
                    lemma_split_str_last(rest@, p@);
                    done = done.push(rest@);
                }
                out.push(rest);
                assert(split_str_spec(s@, p@) =~= done);
                return out;
            },
            Some(i) => {
                let n = rest.unicode_len();
                let head = rest.substring_char(0, i);
                let tail = rest.substring_char(i + m, n);
                proof {
                    assert(head@ =~= rest@.take(i as int));
                    assert(tail@ =~= rest@.skip(i + m));
                    lemma_split_str_step(rest@, p@, i as int);
                    done = done.push(head@);
                    assert(split_str_spec(s@, p@) =~= done + split_str_spec(tail@, p@));
                }
                out.push(head);
                rest = tail;
            },
        }
    }
}

/// `[..].join(sep)`.
pub open spec fn join_spec(parts: Seq<Seq<char>>, sep: Seq<char>) -> Seq<char>
    decreases parts.len(),
{
    if parts.len() == 0 {
        seq![]
    } else if parts.len() == 1 {
        parts[0]
    } else {
        join_spec(parts.drop_last(), sep) + sep + parts.last()
    }
}

pub fn join(parts: &Vec<String>, sep: &str) -> (r: String)
    ensures
        r@ == join_spec(parts@.map_values(|p: String| p@), sep@),
{
    let ghost views = parts@.map_values(|p: String| p@);
    let mut out = String::new();
    let mut i: usize = 0;
    while i < parts.len()
        invariant
            views == parts@.map_values(|p: String| p@),
            i <= parts@.len(),
            out@ == join_spec(views.take(i as int), sep@),
        decreases parts@.len() - i,
    {
        proof {
            assert(views.take(i + 1).drop_last() =~= views.take(i as int));
            assert(views.take(i + 1).last() == parts@[i as int]@);
        }
        if i > 0 {
            out.append(sep);
        }
        out.append(parts[i].as_str());
        proof {
            if i == 0 {
                assert(views.take(1)[0] == parts@[0]@);
                assert(out@ =~= parts@[0]@);
            }
        }
        i = i + 1;
    }
    assert(views.take(parts@.len() as int) =~= views);
    out
}

/// `String::push`: appends one character (std documents it as appending
/// the given `char` to the end of the string).
#[verifier::external_body]
pub(crate) fn push_char(s: &mut String, c: char)
    ensures
        final(s)@ == old(s)@.push(c),
{
    s.push(c);
}

/// Concatenation of two strings into a new one.
pub fn cat(a: &str, b: &str) -> (r: String)
    ensures
        r@ == a@ + b@,
{
    let mut s = String::from_str(a);
    s.append(b);
    s
}


/// Trimming twice trims no more than once.
pub proof fn lemma_trim_idempotent(s: Seq<char>)
    ensures
        trim_spec(trim_spec(s)) == trim_spec(s),
{
    let l = lead_ws(s);
    lemma_lead_ws(s);
    let u = s.skip(l as int);
    lemma_trail_ws(u);
    let t = trim_spec(s);
    if t.len() > 0 {
        assert(l < s.len());
        assert(t[0] == u[0]);
        assert(u[0] == s[l as int]);
        assert(t.last() == u[u.len() - trail_ws(u) - 1]);
        lemma_lead_ws_unique(t, 0);
        lemma_trail_ws_unique(t, 0);
        assert(trim_spec(t) =~= t);
    } else {
        assert(trim_spec(t) =~= t);
    }
}

} // verus!
