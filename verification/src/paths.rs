//! Paths as text: the component rules of `std::path::Path` on Unix (`/`
//! separators), joining, relative paths, and the Windows drive and verbatim
//! prefixes that the linker recognizes.

use crate::text::{
    cat, find_char, join, join_spec, occurs_at, owned, slice, split_char, split_char_spec,
    starts_with, str_eq, trim, trim_spec,
};
use vstd::prelude::*;
use vstd::string::StrSliceExecFns;
use vstd::string::StringExecFns;

verus! {

/// A component of a path, as `Path::components` yields it.
pub enum Comp {
    /// Nothing: an empty piece, or a `.` that is not the first piece.
    Skip,
    /// `.` at the start of a relative path.
    Cur,
    /// `..`
    Parent,
    /// Any other piece.
    Normal(Seq<char>),
}

pub open spec fn dot() -> Seq<char> {
    seq!['.']
}

pub open spec fn dotdot() -> Seq<char> {
    seq!['.', '.']
}

/// The component the `i`-th `/`-separated piece stands for.
pub open spec fn comp_of(piece: Seq<char>, i: int) -> Comp {
    if piece.len() == 0 {
        Comp::Skip
    } else if piece == dot() {
        if i == 0 {
            Comp::Cur
        } else {
            Comp::Skip
        }
    } else if piece == dotdot() {
        Comp::Parent
    } else {
        Comp::Normal(piece)
    }
}

/// The normal and parent components of a path, as text (`..` for a parent).
pub open spec fn normal_components_spec(pieces: Seq<Seq<char>>, from: int) -> Seq<Seq<char>>
    decreases pieces.len() - from,
{
    if from >= pieces.len() || from < 0 {
        seq![]
    } else {
        let rest = normal_components_spec(pieces, from + 1);
        match comp_of(pieces[from], from) {
            Comp::Normal(p) => seq![p] + rest,
            Comp::Parent => seq![dotdot()] + rest,
            _ => rest,
        }
    }
}

/// Components as the lockfile writes them: `.` kept, root dropped.
pub open spec fn lockfile_components_spec(pieces: Seq<Seq<char>>, from: int) -> Seq<Seq<char>>
    decreases pieces.len() - from,
{
    if from >= pieces.len() || from < 0 {
        seq![]
    } else {
        let rest = lockfile_components_spec(pieces, from + 1);
        match comp_of(pieces[from], from) {
            Comp::Normal(p) => seq![p] + rest,
            Comp::Parent => seq![dotdot()] + rest,
            Comp::Cur => seq![dot()] + rest,
            Comp::Skip => rest,
        }
    }
}

pub open spec fn normal_components_of(path: Seq<char>) -> Seq<Seq<char>> {
    normal_components_spec(split_char_spec(path, '/'), 0)
}

pub open spec fn world() -> Seq<char> {
    seq!['w', 'o', 'r', 'l', 'd']
}

/// A display name, trimmed; `world` when nothing is left.
pub fn normalize_name(input: &str) -> (r: String)
    ensures
        r@ == (if trim_spec(input@).len() == 0 {
            world()
        } else {
            trim_spec(input@)
        }),
{
    let t = trim(input);
    if t.unicode_len() == 0 {
        let w = "world";
        proof {
            reveal_strlit("world");
            assert(w@ =~= world());
        }
        owned(w)
    } else {
        owned(t)
    }
}

fn is_dot(p: &str) -> (r: bool)
    ensures
        r == (p@ == dot()),
{
    let d = ".";
    proof {
        reveal_strlit(".");
        assert(d@ =~= dot());
    }
    str_eq(p, d)
}

fn is_dotdot(p: &str) -> (r: bool)
    ensures
        r == (p@ == dotdot()),
{
    let d = "..";
    proof {
        reveal_strlit("..");
        assert(d@ =~= dotdot());
    }
    str_eq(p, d)
}

/// The normal and parent components of a path (`..` for a parent; the root
/// and `.` dropped).
pub fn normal_components(path: &str) -> (r: Vec<String>)
    ensures
        r@.map_values(|s: String| s@) == normal_components_of(path@),
{
    let pieces = split_char(path, '/');
    let ghost ps = split_char_spec(path@, '/');
    let mut out: Vec<String> = Vec::new();
    let mut i: usize = pieces.len();
    proof {
        assert(out@.map_values(|s: String| s@) =~= normal_components_spec(ps, i as int));
    }
    while i > 0
        invariant
            pieces@.len() == ps.len(),
            forall|j: int| 0 <= j < pieces@.len() ==> #[trigger] pieces@[j]@ == ps[j],
            ps == split_char_spec(path@, '/'),
            i <= pieces@.len(),
            out@.map_values(|s: String| s@) == normal_components_spec(ps, i as int),
        decreases i,
    {
        let p = pieces[i - 1];
        let ghost before = out@.map_values(|s: String| s@);
        let n = p.unicode_len();
        if n == 0 {
        } else if is_dot(p) {
        } else if is_dotdot(p) {
            let dd = "..";
            proof {
                reveal_strlit("..");
                assert(dd@ =~= dotdot());
            }
            out.insert(0, owned(dd));
            proof {
                assert(out@.map_values(|s: String| s@) =~= seq![dotdot()] + before);
            }
        } else {
            out.insert(0, owned(p));
            proof {
                assert(out@.map_values(|s: String| s@) =~= seq![p@] + before);
            }
        }
        i = i - 1;
    }
    out
}

/// The components of a path: the root dropped, `.` kept when it comes
/// first, `..` kept.
pub fn lockfile_components(path: &str) -> (r: Vec<String>)
    ensures
        r@.map_values(|s: String| s@) == lockfile_components_spec(split_char_spec(path@, '/'), 0),
{
    let pieces = split_char(path, '/');
    let ghost ps = split_char_spec(path@, '/');
    let mut out: Vec<String> = Vec::new();
    let mut i: usize = pieces.len();
    proof {
        assert(out@.map_values(|s: String| s@) =~= lockfile_components_spec(ps, i as int));
    }
    while i > 0
        invariant
            pieces@.len() == ps.len(),
            forall|j: int| 0 <= j < pieces@.len() ==> #[trigger] pieces@[j]@ == ps[j],
            ps == split_char_spec(path@, '/'),
            i <= pieces@.len(),
            out@.map_values(|s: String| s@) == lockfile_components_spec(ps, i as int),
        decreases i,
    {
        let p = pieces[i - 1];
        let ghost before = out@.map_values(|s: String| s@);
        let n = p.unicode_len();
        if n == 0 {
        } else if is_dot(p) {
            if i - 1 == 0 {
                out.insert(0, owned(p));
                proof {
                    assert(out@.map_values(|s: String| s@) =~= seq![dot()] + before);
                }
            }
        } else if is_dotdot(p) {
            out.insert(0, owned(p));
            proof {
                assert(out@.map_values(|s: String| s@) =~= seq![dotdot()] + before);
            }
        } else {
            out.insert(0, owned(p));
            proof {
                assert(out@.map_values(|s: String| s@) =~= seq![p@] + before);
            }
        }
        i = i - 1;
    }
    out
}

/// A path as the lockfile writes it: components joined by `/`, the root
/// dropped, `.` and `..` kept.
pub fn normalize_path_for_lockfile(path: &str) -> (r: String)
    ensures
        r@ == join_spec(lockfile_components_spec(split_char_spec(path@, '/'), 0), seq!['/']),
{
    let out = lockfile_components(path);
    let slash = "/";
    proof {
        reveal_strlit("/");
        assert(slash@ =~= seq!['/']);
    }
    join(&out, slash)
}

/// Length of the common prefix of two component lists.
pub open spec fn common_len(a: Seq<Seq<char>>, b: Seq<Seq<char>>, k: int) -> bool {
    &&& 0 <= k <= a.len()
    &&& k <= b.len()
    &&& forall|j: int| 0 <= j < k ==> a[j] == b[j]
    &&& (k < a.len() && k < b.len() ==> a[k] != b[k])
}

/// The pieces of the relative path from `f` to `t`: a `..` for each
/// component of `f` past the common prefix, then the rest of `t`.
pub open spec fn relative_pieces(f: Seq<Seq<char>>, t: Seq<Seq<char>>, k: int) -> Seq<Seq<char>> {
    Seq::new((f.len() - k) as nat, |_i: int| dotdot()) + t.skip(k)
}

/// The relative path from directory `from_dir` to `to_path`, by their normal
/// components; `.` when they are the same.
pub fn relative_path(from_dir: &str, to_path: &str) -> (r: String)
    ensures
        exists|k: int|
            common_len(normal_components_of(from_dir@), normal_components_of(to_path@), k) && {
                let pieces = relative_pieces(
                    normal_components_of(from_dir@),
                    normal_components_of(to_path@),
                    k,
                );
                r@ == (if pieces.len() == 0 {
                    dot()
                } else {
                    join_spec(pieces, seq!['/'])
                })
            },
{
    let f = normal_components(from_dir);
    let t = normal_components(to_path);
    let ghost fv = f@.map_values(|s: String| s@);
    let ghost tv = t@.map_values(|s: String| s@);
    let mut k: usize = 0;
    while k < f.len() && k < t.len() && str_eq(f[k].as_str(), t[k].as_str())
        invariant
            fv == f@.map_values(|s: String| s@),
            tv == t@.map_values(|s: String| s@),
            k <= f@.len(),
            k <= t@.len(),
            forall|j: int| 0 <= j < k ==> fv[j] == tv[j],
        decreases f@.len() - k,
    {
        k = k + 1;
    }
    assert(common_len(fv, tv, k as int));
    let mut pieces: Vec<String> = Vec::new();
    let mut j: usize = k;
    let dd = "..";
    proof {
        reveal_strlit("..");
        assert(dd@ =~= dotdot());
    }
    while j < f.len()
        invariant
            k <= j <= f@.len(),
            pieces@.len() == j - k,
            forall|i: int| 0 <= i < pieces@.len() ==> #[trigger] pieces@[i]@ == dotdot(),
            dd@ == dotdot(),
        decreases f@.len() - j,
    {
        pieces.push(owned(dd));
        j = j + 1;
    }
    let mut m: usize = k;
    let ghost h: int = f@.len() - k;
    while m < t.len()
        invariant
            fv == f@.map_values(|s: String| s@),
            tv == t@.map_values(|s: String| s@),
            k <= m <= t@.len(),
            k <= f@.len(),
            h == f@.len() - k,
            pieces@.len() == h + (m - k),
            forall|i: int| 0 <= i < h ==> #[trigger] pieces@[i]@ == dotdot(),
            forall|i: int| h <= i < pieces@.len() ==> #[trigger] pieces@[i]@ == tv[k + i - h],
        decreases t@.len() - m,
    {
        pieces.push(owned(t[m].as_str()));
        m = m + 1;
    }
    proof {
        assert(pieces@.map_values(|s: String| s@) =~= relative_pieces(fv, tv, k as int));
    }
    if pieces.len() == 0 {
        let d = ".";
        proof {
            reveal_strlit(".");
            assert(d@ =~= dot());
        }
        owned(d)
    } else {
        let slash = "/";
        proof {
            reveal_strlit("/");
            assert(slash@ =~= seq!['/']);
        }
        join(&pieces, slash)
    }
}

/// `Path::join` on text: an absolute `p` replaces `root`; otherwise `p` is
/// appended after a separator.
pub open spec fn join_path_spec(root: Seq<char>, p: Seq<char>) -> Seq<char> {
    if p.len() > 0 && p[0] == '/' {
        p
    } else if root.len() == 0 {
        p
    } else if root.last() == '/' {
        root + p
    } else {
        root + seq!['/'] + p
    }
}

pub fn join_path(root: &str, p: &str) -> (r: String)
    ensures
        r@ == join_path_spec(root@, p@),
{
    let n = root.unicode_len();
    if p.unicode_len() > 0 && p.get_char(0) == '/' {
        owned(p)
    } else if n == 0 {
        owned(p)
    } else if root.get_char(n - 1) == '/' {
        cat(root, p)
    } else {
        let slash = "/";
        proof {
            reveal_strlit("/");
        }
        let mut s = cat(root, slash);
        s.append(p);
        s
    }
}

/// `root` joined with each `/`-separated part of a package name.
pub open spec fn fold_join(root: Seq<char>, parts: Seq<Seq<char>>) -> Seq<char>
    decreases parts.len(),
{
    if parts.len() == 0 {
        root
    } else {
        join_path_spec(fold_join(root, parts.drop_last()), parts.last())
    }
}

/// The location of a package under a `node_modules` root (scoped names become
/// two directories).
pub fn package_path_in_node_modules(root: &str, package_name: &str) -> (r: String)
    ensures
        r@ == fold_join(root@, split_char_spec(package_name@, '/')),
{
    let parts = split_char(package_name, '/');
    let ghost ps = split_char_spec(package_name@, '/');
    let mut acc = owned(root);
    let mut i: usize = 0;
    while i < parts.len()
        invariant
            parts@.len() == ps.len(),
            forall|j: int| 0 <= j < parts@.len() ==> #[trigger] parts@[j]@ == ps[j],
            i <= parts@.len(),
            acc@ == fold_join(root@, ps.take(i as int)),
        decreases parts@.len() - i,
    {
        let next = join_path(acc.as_str(), parts[i]);
        proof {
            assert(ps.take(i + 1).drop_last() =~= ps.take(i as int));
        }
        acc = next;
        i = i + 1;
    }
    assert(ps.take(parts@.len() as int) =~= ps);
    acc
}

/// The text with every trailing `\` and `/` removed.
pub open spec fn trim_end_seps(s: Seq<char>) -> Seq<char>
    decreases s.len(),
{
    if s.len() > 0 && (s.last() == '\\' || s.last() == '/') {
        trim_end_seps(s.drop_last())
    } else {
        s
    }
}

pub open spec fn is_ascii_alpha(c: char) -> bool {
    ('a' <= c <= 'z') || ('A' <= c <= 'Z')
}

/// A drive letter and a colon, nothing else (trailing separators aside).
pub open spec fn bare_drive_spec(s: Seq<char>) -> bool {
    let t = trim_end_seps(s);
    t.len() == 2 && is_ascii_alpha(t[0]) && t[1] == ':'
}

/// True for paths like `D:` that make Node resolve modules to a drive root.
pub fn is_bare_drive_path(path: &str) -> (r: bool)
    ensures
        r == bare_drive_spec(path@),
{
    let mut n = path.unicode_len();
    proof {
        assert(path@.take(n as int) =~= path@);
    }
    while n > 0 && (path.get_char(n - 1) == '\\' || path.get_char(n - 1) == '/')
        invariant
            n <= path@.len(),
            trim_end_seps(path@) == trim_end_seps(path@.take(n as int)),
        decreases n,
    {
        proof {
            assert(path@.take(n as int).drop_last() =~= path@.take(n - 1));
        }
        n = n - 1;
    }
    proof {
        assert(trim_end_seps(path@.take(n as int)) == path@.take(n as int));
    }
    if n != 2 {
        return false;
    }
    let c0 = path.get_char(0);
    let c1 = path.get_char(1);
    (('a' <= c0 && c0 <= 'z') || ('A' <= c0 && c0 <= 'Z')) && c1 == ':'
}

/// The volume root of a Windows path (`D:` or `D:\`), if it starts with one.
pub open spec fn volume_root_spec(s: Seq<char>) -> Option<Seq<char>> {
    if s.len() >= 2 && (s[0] as u32) < 0x80 && s[1] == ':' {
        if s.len() >= 3 && s[2] == '\\' {
            Some(s.take(3))
        } else {
            Some(s.take(2))
        }
    } else {
        None
    }
}

pub fn volume_root(path: &str) -> (r: Option<String>)
    ensures
        match r {
            Some(s) => volume_root_spec(path@) == Some(s@),
            None => volume_root_spec(path@) is None,
        },
{
    let n = path.unicode_len();
    if n >= 2 && (path.get_char(0) as u32) < 0x80 && path.get_char(1) == ':' {
        let len: usize = if n >= 3 && path.get_char(2) == '\\' {
            3
        } else {
            2
        };
        Some(owned(slice(path, 0, len)))
    } else {
        None
    }
}

pub open spec fn verbatim_unc_chars() -> Seq<char> {
    seq!['\\', '\\', '?', '\\', 'U', 'N', 'C', '\\']
}

pub open spec fn verbatim_chars() -> Seq<char> {
    seq!['\\', '\\', '?', '\\']
}

/// A path `cmd.exe` accepts: `\\?\UNC\server\share` becomes
/// `\\server\share`, `\\?\D:\x` becomes `D:\x`, other paths stay.
pub open spec fn cmd_path_spec(s: Seq<char>) -> Seq<char> {
    if occurs_at(s, verbatim_unc_chars(), 0) {
        seq!['\\', '\\'] + s.skip(8)
    } else if occurs_at(s, verbatim_chars(), 0) {
        s.skip(4)
    } else {
        s
    }
}

pub fn cmd_compatible_path(path: &str) -> (r: String)
    ensures
        r@ == cmd_path_spec(path@),
{
    let unc = "\\\\?\\UNC\\";
    let verbatim = "\\\\?\\";
    let two = "\\\\";
    proof {
        reveal_strlit("\\\\?\\UNC\\");
        reveal_strlit("\\\\?\\");
        reveal_strlit("\\\\");
        assert(unc@ =~= verbatim_unc_chars());
        assert(verbatim@ =~= verbatim_chars());
        assert(two@ =~= seq!['\\', '\\']);
    }
    let n = path.unicode_len();
    if starts_with(path, unc) {
        cat(two, slice(path, 8, n))
    } else if starts_with(path, verbatim) {
        owned(slice(path, 4, n))
    } else {
        owned(path)
    }
}

/// Whether the normal components of `prefix` begin those of `path`.
pub fn path_starts_with_lexically(path: &str, prefix: &str) -> (r: bool)
    ensures
        r == (normal_components_of(prefix@).len() <= normal_components_of(path@).len()
            && normal_components_of(path@).take(normal_components_of(prefix@).len() as int)
            == normal_components_of(prefix@)),
{
    let a = normal_components(path);
    let b = normal_components(prefix);
    let ghost av = a@.map_values(|s: String| s@);
    let ghost bv = b@.map_values(|s: String| s@);
    if b.len() > a.len() {
        return false;
    }
    let mut i: usize = 0;
    while i < b.len()
        invariant
            av == a@.map_values(|s: String| s@),
            bv == b@.map_values(|s: String| s@),
            av == normal_components_of(path@),
            bv == normal_components_of(prefix@),
            b@.len() <= a@.len(),
            i <= b@.len(),
            forall|j: int| 0 <= j < i ==> av[j] == bv[j],
        decreases b@.len() - i,
    {
        if !str_eq(a[i].as_str(), b[i].as_str()) {
            assert(av[i as int] == a@[i as int]@);
            assert(bv[i as int] == b@[i as int]@);
            assert(av.take(bv.len() as int)[i as int] == av[i as int]);
            assert(av.take(bv.len() as int) != bv);
            return false;
        }
        i = i + 1;
    }
    assert(av.take(bv.len() as int) =~= bv);
    true
}

} // verus!
