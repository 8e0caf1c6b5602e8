//! The content-addressable store's layout and records.

use crate::package::{id_key, PackageId};
use crate::paths::{join_path, join_path_spec, lockfile_components, lockfile_components_spec};
use crate::strmap::StrMap;
use crate::text::{lemma_find_unique, split_char_spec};
use crate::fetch::is_hex_digit;
use crate::version::{version_text, VersionView};
use crate::binplan::{replace_char, replace_char_spec};
use crate::importplan::LinkFailure;
use crate::text::{cat, occurs_at, occurs_at_exec, owned, slice, str_eq};
use vstd::prelude::*;
use vstd::string::StrSliceExecFns;

verus! {

/// The integrity record the store keeps for each package.
#[derive(Debug, Clone)]
pub struct IntegrityMeta {
    /// Package name.
    pub name: String,
    /// Package version.
    pub version: String,
    /// Content integrity hash.
    pub integrity: String,
    /// Files of the package with their hashes.
    pub files: Vec<(String, String)>,
    /// Dependency node keys the package declares.
    pub depnodes: Vec<String>,
}

/// Report from a store prune operation.
#[derive(Debug, Clone)]
pub struct PruneReport {
    /// Number of packages removed.
    pub packages_removed: usize,
    /// Number of files removed.
    pub files_removed: usize,
    /// Number of bytes reclaimed.
    pub bytes_reclaimed: u64,
}

/// Errors of store operations.
#[derive(Debug, Clone, PartialEq, Eq)]
pub enum StoreError {
    /// A store error with a message.
    Other(String),
}

pub open spec fn store_version_chars() -> Seq<char> {
    seq!['v', '1']
}

/// The last `/`-separated piece of a path (trailing separators ignored).
pub open spec fn last_piece(path: Seq<char>) -> Seq<char>
    decreases path.len(),
{
    if path.len() == 0 {
        seq![]
    } else if path.last() == '/' {
        last_piece(path.drop_last())
    } else {
        last_piece_from(path, path.len() as int)
    }
}

/// The piece ending at `end`: back to the previous `/`.
pub open spec fn last_piece_from(path: Seq<char>, end: int) -> Seq<char>
    decreases end,
{
    if end <= 0 {
        path.take(end)
    } else if path[end - 1] == '/' {
        seq![]
    } else {
        last_piece_from(path, end - 1) + seq![path[end - 1]]
    }
}

/// Where the store lives and keeps files and packages.
#[derive(Debug, Clone)]
pub struct StoreLayout {
    /// The versioned store root.
    pub root: String,
    /// Content files, by SHA-256.
    pub files_root: String,
    /// Package entries.
    pub packages_root: String,
}

pub open spec fn files_chars() -> Seq<char> {
    seq!['f', 'i', 'l', 'e', 's']
}

pub open spec fn sha256_dir_chars() -> Seq<char> {
    seq!['s', 'h', 'a', '2', '5', '6']
}

pub open spec fn packages_chars() -> Seq<char> {
    seq!['p', 'a', 'c', 'k', 'a', 'g', 'e', 's']
}

pub open spec fn integrity_json_chars() -> Seq<char> {
    seq!['i', 'n', 't', 'e', 'g', 'r', 'i', 't', 'y', '.', 'j', 's', 'o', 'n']
}

/// The versioned root: `root` itself when its last piece is `v1`, else
/// `root/v1`.
pub open spec fn store_root_spec(root: Seq<char>) -> Seq<char> {
    if last_piece(root) == store_version_chars() {
        root
    } else {
        join_path_spec(root, store_version_chars())
    }
}

fn last_piece_exec(path: &str) -> (r: String)
    ensures
        r@ == last_piece(path@),
{
    let mut n = path.unicode_len();
    proof {
        assert(path@.take(n as int) =~= path@);
    }
    while n > 0 && path.get_char(n - 1) == '/'
        invariant
            n <= path@.len(),
            last_piece(path@) == last_piece(path@.take(n as int)),
        decreases n,
    {
        proof {
            assert(path@.take(n as int).drop_last() =~= path@.take(n - 1));
        }
        n = n - 1;
    }
    let t = slice(path, 0, n);
    proof {
        assert(t@ =~= path@.take(n as int));
    }
    let mut s = n;
    while s > 0 && t.get_char(s - 1) != '/'
        invariant
            s <= n == t@.len(),
            n > 0 ==> t@[n - 1] != '/',
            n > 0 ==> last_piece(t@) == last_piece_from(t@, n as int),
            n > 0 ==> last_piece_from(t@, n as int) == last_piece_from(t@, s as int) + t@.subrange(s as int, n as int),
            forall|j: int| s <= j < n ==> t@[j] != '/',
        decreases s,
    {
        proof {
            assert(t@.subrange(s - 1, n as int) =~= seq![t@[s - 1]] + t@.subrange(s as int, n as int));
        }
        s = s - 1;
    }
    proof {
        if n == 0 {
            assert(t@.len() == 0);
        } else {
            if s > 0 {
                assert(last_piece_from(t@, s as int) =~= seq![]);
            } else {
                assert(last_piece_from(t@, 0) =~= seq![]);
            }
        }
    }
    owned(slice(t, s, n))
}

impl StoreLayout {
    /// The layout of a store opened at `root`.
    pub fn new(root: &str) -> (r: Self)
        ensures
            r.root@ == store_root_spec(root@),
            r.files_root@ == join_path_spec(
                join_path_spec(store_root_spec(root@), files_chars()),
                sha256_dir_chars(),
            ),
            r.packages_root@ == join_path_spec(store_root_spec(root@), packages_chars()),
    {
        let v1 = "v1";
        let files = "files";
        let sha = "sha256";
        let packages = "packages";
        proof {
            reveal_strlit("v1");
            reveal_strlit("files");
            reveal_strlit("sha256");
            reveal_strlit("packages");
            assert(v1@ =~= store_version_chars());
            assert(files@ =~= files_chars());
            assert(sha@ =~= sha256_dir_chars());
            assert(packages@ =~= packages_chars());
        }
        let last = last_piece_exec(root);
        let vroot = if str_eq(last.as_str(), v1) {
            owned(root)
        } else {
            join_path(root, v1)
        };
        let f = join_path(vroot.as_str(), files);
        let files_root = join_path(f.as_str(), sha);
        let packages_root = join_path(vroot.as_str(), packages);
        StoreLayout { root: vroot, files_root, packages_root }
    }

    /// Where the content file of a hash lives: its first two characters
    /// name a directory, the rest the file.
    pub fn file_path(&self, hash: &str) -> (r: String)
        requires
            hash@.len() >= 2,
        ensures
            r@ == join_path_spec(
                join_path_spec(self.files_root@, hash@.take(2)),
                hash@.skip(2),
            ),
    {
        let n = hash.unicode_len();
        let prefix = slice(hash, 0, 2);
        let rest = slice(hash, 2, n);
        proof {
            assert(prefix@ =~= hash@.take(2));
            assert(rest@ =~= hash@.skip(2));
        }
        let d = join_path(self.files_root.as_str(), prefix);
        join_path(d.as_str(), rest)
    }

    /// Where a package's files live.
    pub fn package_path(&self, pkg_id: &PackageId) -> (r: String)
        ensures
            r@ == join_path_spec(self.packages_root@, id_key(pkg_id.name@, pkg_id.version@)),
    {
        let key = pkg_id.key();
        join_path(self.packages_root.as_str(), key.as_str())
    }

    /// Where a package's integrity record lives; the package is in the store
    /// exactly when this file exists.
    pub fn integrity_path(&self, pkg_id: &PackageId) -> (r: String)
        ensures
            r@ == join_path_spec(
                join_path_spec(self.packages_root@, id_key(pkg_id.name@, pkg_id.version@)),
                integrity_json_chars(),
            ),
    {
        let p = self.package_path(pkg_id);
        let f = "integrity.json";
        proof {
            reveal_strlit("integrity.json");
            assert(f@ =~= integrity_json_chars());
        }
        join_path(p.as_str(), f)
    }
}

/// Report from checking the store against its integrity records.
#[derive(Debug, Clone)]
pub struct VerifyReport {
    /// Packages looked at.
    pub packages_checked: usize,
    /// Files looked at.
    pub files_checked: usize,
    /// What is missing.
    pub missing: Vec<String>,
    /// What does not match its record.
    pub corrupted: Vec<String>,
}

impl Default for VerifyReport {
    fn default() -> (r: Self)
        ensures
            r.packages_checked == 0,
            r.files_checked == 0,
            r.missing@.len() == 0,
            r.corrupted@.len() == 0,
    {
        VerifyReport { packages_checked: 0, files_checked: 0, missing: Vec::new(), corrupted: Vec::new() }
    }
}

pub open spec fn sha256_prefix() -> Seq<char> {
    seq!['s', 'h', 'a', '2', '5', '6', ':']
}

/// A recorded hash without its leading `sha256:` prefixes.
pub open spec fn bare_hash(s: Seq<char>) -> Seq<char>
    decreases s.len(),
{
    if s.len() >= 7 && occurs_at(s, sha256_prefix(), 0) {
        bare_hash(s.skip(7))
    } else {
        s
    }
}

/// The hash a file record names: the record with every leading `sha256:`
/// removed.
pub fn expected_hash(recorded: &str) -> (r: &str)
    ensures
        r@ == bare_hash(recorded@),
{
    let prefix = "sha256:";
    proof {
        reveal_strlit("sha256:");
        assert(prefix@ =~= sha256_prefix());
    }
    let mut rest = recorded;
    while rest.unicode_len() >= 7 && occurs_at_exec(rest, prefix, 0)
        invariant
            bare_hash(rest@) == bare_hash(recorded@),
            prefix@ == sha256_prefix(),
        decreases rest@.len(),
    {
        let n = rest.unicode_len();
        let next = slice(rest, 7, n);
        proof {
            assert(next@ =~= rest@.skip(7));
        }
        rest = next;
    }
    rest
}

impl VerifyReport {
    /// True when nothing is missing or corrupted.
    pub fn is_ok(&self) -> (r: bool)
        ensures
            r == (self.missing@.len() == 0 && self.corrupted@.len() == 0),
    {
        self.missing.len() == 0 && self.corrupted.len() == 0
    }

    /// Counts a package about to be checked.
    pub fn record_package(&mut self)
        requires
            old(self).packages_checked < usize::MAX,
        ensures
            final(self).packages_checked == old(self).packages_checked + 1,
            final(self).files_checked == old(self).files_checked,
            final(self).missing@ == old(self).missing@,
            final(self).corrupted@ == old(self).corrupted@,
    {
        self.packages_checked = self.packages_checked + 1;
    }

    /// Counts a package whose integrity record could not be read, with the
    /// reason.
    pub fn record_unreadable(&mut self, pkg: &str, error: &str)
        requires
            old(self).packages_checked < usize::MAX,
        ensures
            final(self).packages_checked == old(self).packages_checked + 1,
            final(self).files_checked == old(self).files_checked,
            final(self).missing@ == old(self).missing@,
            final(self).corrupted@.len() == old(self).corrupted@.len() + 1,
            forall|i: int| 0 <= i < old(self).corrupted@.len() ==> final(self).corrupted@[i] == old(self).corrupted@[i],
            final(self).corrupted@.last()@ == pkg@ + ": "@ + error@,
    {
        self.packages_checked = self.packages_checked + 1;
        let mut m = cat(pkg, ": ");
        m.append(error);
        proof {
            reveal_strlit(": ");
        }
        self.corrupted.push(m);
    }

    /// Checks one recorded file of a package, given the hashes of the
    /// package's copy and of the store's content file (`None` where the file
    /// is missing): a missing package file is reported and nothing more; a
    /// mismatching one is reported, and so is a missing or mismatching
    /// content file.
    pub fn record_file_check(
        &mut self,
        pkg: &str,
        rel_path: &str,
        expected: &str,
        package_file_hash: Option<&str>,
        content_file_hash: Option<&str>,
    )
        requires
            old(self).files_checked < usize::MAX,
        ensures
            final(self).files_checked == old(self).files_checked + 1,
            final(self).packages_checked == old(self).packages_checked,
            strs_view_of(final(self).missing@) == strs_view_of(old(self).missing@) + missing_messages(
                pkg@,
                rel_path@,
                expected@,
                package_file_hash,
                content_file_hash,
            ),
            strs_view_of(final(self).corrupted@) == strs_view_of(old(self).corrupted@) + corrupted_messages(
                pkg@,
                rel_path@,
                expected@,
                package_file_hash,
                content_file_hash,
            ),
    {
        self.files_checked = self.files_checked + 1;
        let ghost m0 = self.missing@;
        let ghost c0 = self.corrupted@;
        proof {
            reveal_strlit(": missing package file ");
            reveal_strlit(": package file ");
            reveal_strlit(" hash mismatch");
            reveal_strlit(": missing content file sha256:");
            reveal_strlit(": content file sha256:");
        }
        match package_file_hash {
            None => {
                let mut m = cat(pkg, ": missing package file ");
                m.append(rel_path);
                self.missing.push(m);
                proof {
                    assert(strs_view_of(self.missing@) =~= strs_view_of(m0) + missing_messages(pkg@, rel_path@, expected@, package_file_hash, content_file_hash));
                    assert(strs_view_of(self.corrupted@) =~= strs_view_of(c0) + corrupted_messages(pkg@, rel_path@, expected@, package_file_hash, content_file_hash));
                }
            },
            Some(actual) => {
                if !str_eq(actual, expected) {
                    let mut m = cat(pkg, ": package file ");
                    m.append(rel_path);
                    m.append(" hash mismatch");
                    self.corrupted.push(m);
                }
                match content_file_hash {
                    None => {
                        let mut m = cat(pkg, ": missing content file sha256:");
                        m.append(expected);
                        self.missing.push(m);
                    },
                    Some(c) => {
                        if !str_eq(c, expected) {
                            let mut m = cat(pkg, ": content file sha256:");
                            m.append(expected);
                            m.append(" hash mismatch");
                            self.corrupted.push(m);
                        }
                    },
                }
                proof {
                    assert(strs_view_of(self.missing@) =~= strs_view_of(m0) + missing_messages(pkg@, rel_path@, expected@, package_file_hash, content_file_hash));
                    assert(strs_view_of(self.corrupted@) =~= strs_view_of(c0) + corrupted_messages(pkg@, rel_path@, expected@, package_file_hash, content_file_hash));
                }
            },
        }
    }
}

/// Texts by their characters.
pub open spec fn strs_view_of(v: Seq<String>) -> Seq<Seq<char>> {
    v.map_values(|s: String| s@)
}

/// What a file check reports missing.
pub open spec fn missing_messages(
    pkg: Seq<char>,
    rel: Seq<char>,
    expected: Seq<char>,
    package_file: Option<&str>,
    content_file: Option<&str>,
) -> Seq<Seq<char>> {
    match package_file {
        None => seq![pkg + ": missing package file "@ + rel],
        Some(_) => match content_file {
            None => seq![pkg + ": missing content file sha256:"@ + expected],
            Some(_) => seq![],
        },
    }
}

/// What a file check reports corrupted.
pub open spec fn corrupted_messages(
    pkg: Seq<char>,
    rel: Seq<char>,
    expected: Seq<char>,
    package_file: Option<&str>,
    content_file: Option<&str>,
) -> Seq<Seq<char>> {
    match package_file {
        None => seq![],
        Some(actual) => (if actual@ != expected {
            seq![pkg + ": package file "@ + rel + " hash mismatch"@]
        } else {
            seq![]
        }) + match content_file {
            Some(c) => if c@ != expected {
                seq![pkg + ": content file sha256:"@ + expected + " hash mismatch"@]
            } else {
                seq![]
            },
            None => seq![],
        },
    }
}


/// A package identity by its name and version.
pub open spec fn id_view(p: PackageId) -> (Seq<char>, VersionView) {
    (p.name@, p.version@)
}

pub open spec fn ids_view(s: Seq<PackageId>) -> Seq<(Seq<char>, VersionView)> {
    s.map_values(|p: PackageId| id_view(p))
}

/// Some identity of `refs` has the key `k`.
pub open spec fn key_referenced(refs: Seq<(Seq<char>, VersionView)>, k: Seq<char>) -> bool {
    exists|j: int| 0 <= j < refs.len() && id_key(refs[j].0, refs[j].1) == k
}

/// The stored packages, in order, whose key no referenced package has: what
/// a prune removes.
pub open spec fn unreferenced_spec(all: Seq<(Seq<char>, VersionView)>, refs: Seq<(Seq<char>, VersionView)>) -> Seq<(Seq<char>, VersionView)>
    decreases all.len(),
{
    if all.len() == 0 {
        seq![]
    } else {
        let rest = unreferenced_spec(all.drop_last(), refs);
        let p = all.last();
        if key_referenced(refs, id_key(p.0, p.1)) {
            rest
        } else {
            rest.push(p)
        }
    }
}

/// Whether some package of `refs` has key `k`.
fn key_in(refs: &Vec<PackageId>, k: &str) -> (r: bool)
    ensures
        r == key_referenced(ids_view(refs@), k@),
{
    let ghost rv = ids_view(refs@);
    let mut j: usize = 0;
    while j < refs.len()
        invariant
            j <= refs@.len(),
            rv == ids_view(refs@),
            forall|i: int| 0 <= i < j ==> id_key(#[trigger] rv[i].0, rv[i].1) != k@,
        decreases refs@.len() - j,
    {
        let rk = refs[j].key();
        assert(rv[j as int] == id_view(refs@[j as int]));
        if str_eq(rk.as_str(), k) {
            return true;
        }
        j = j + 1;
    }
    false
}

/// The stored packages that a prune removes: those no referenced package
/// shares a key with, in the order they were listed.
pub fn unreferenced_packages(all: &Vec<PackageId>, referenced: &Vec<PackageId>) -> (r: Vec<PackageId>)
    ensures
        ids_view(r@) == unreferenced_spec(ids_view(all@), ids_view(referenced@)),
{
    let ghost av = ids_view(all@);
    let ghost rv = ids_view(referenced@);
    let mut out: Vec<PackageId> = Vec::new();
    let mut i: usize = 0;
    proof {
        assert(ids_view(out@) =~= unreferenced_spec(av.take(0), rv));
    }
    while i < all.len()
        invariant
            i <= all@.len(),
            av == ids_view(all@),
            rv == ids_view(referenced@),
            ids_view(out@) == unreferenced_spec(av.take(i as int), rv),
        decreases all@.len() - i,
    {
        let p = &all[i];
        proof {
            assert(av.take(i as int + 1).drop_last() =~= av.take(i as int));
            assert(av.take(i as int + 1).last() == id_view(*p));
        }
        let k = p.key();
        let ghost before = ids_view(out@);
        if !key_in(referenced, k.as_str()) {
            out.push(p.copy());
            proof {
                assert(ids_view(out@) =~= before.push(id_view(*p)));
            }
        }
        i = i + 1;
    }
    proof {
        assert(av.take(all@.len() as int) =~= av);
    }
    out
}

/// `h` is the bare hash of a file recorded for one of the packages.
pub open spec fn hash_listed(metas: Seq<IntegrityMeta>, h: Seq<char>) -> bool {
    exists|i: int, j: int|
        0 <= i < metas.len() && 0 <= j < metas[i].files@.len() && bare_hash(
            #[trigger] metas[i].files@[j].1@,
        ) == h
}

/// The content hashes the given packages' records still name.
pub fn referenced_content_hashes(metas: &Vec<IntegrityMeta>) -> (r: StrMap<bool>)
    ensures
        r.wf(),
        forall|h: Seq<char>| r.has(h) <==> hash_listed(metas@, h),
{
    let mut out: StrMap<bool> = StrMap::new();
    let mut i: usize = 0;
    while i < metas.len()
        invariant
            i <= metas@.len(),
            out.wf(),
            forall|h: Seq<char>|
                out.has(h) <==> exists|a: int, b: int|
                    0 <= a < i && 0 <= b < metas@[a].files@.len() && bare_hash(
                        #[trigger] metas@[a].files@[b].1@,
                    ) == h,
        decreases metas@.len() - i,
    {
        let files = &metas[i].files;
        let mut j: usize = 0;
        while j < files.len()
            invariant
                i < metas@.len(),
                files == &metas@[i as int].files,
                j <= files@.len(),
                out.wf(),
                forall|h: Seq<char>|
                    out.has(h) <==> (exists|a: int, b: int|
                        0 <= a < i && 0 <= b < metas@[a].files@.len() && bare_hash(
                            #[trigger] metas@[a].files@[b].1@,
                        ) == h) || (exists|b: int| 0 <= b < j && bare_hash(#[trigger] files@[b].1@) == h),
            decreases files@.len() - j,
        {
            let h = expected_hash(files[j].1.as_str());
            let ghost old_out = out;
            out.insert(owned(h), true);
            proof {
                assert forall|q: Seq<char>|
                    out.has(q) <==> (exists|a: int, b: int|
                        0 <= a < i && 0 <= b < metas@[a].files@.len() && bare_hash(
                            #[trigger] metas@[a].files@[b].1@,
                        ) == q) || (exists|b: int| 0 <= b < j + 1 && bare_hash(#[trigger] files@[b].1@) == q) by {
                    if q == h@ {
                        assert(bare_hash(files@[j as int].1@) == q);
                    } else {
                        if exists|b: int| 0 <= b < j + 1 && bare_hash(#[trigger] files@[b].1@) == q {
                            let b = choose|b: int| 0 <= b < j + 1 && bare_hash(#[trigger] files@[b].1@) == q;
                            assert(b < j);
                        }
                    }
                }
            }
            j = j + 1;
        }
        proof {
            assert forall|q: Seq<char>|
                out.has(q) <==> exists|a: int, b: int|
                    0 <= a < i + 1 && 0 <= b < metas@[a].files@.len() && bare_hash(
                        #[trigger] metas@[a].files@[b].1@,
                    ) == q by {
                if exists|b: int| 0 <= b < files@.len() && bare_hash(#[trigger] files@[b].1@) == q {
                    let b = choose|b: int| 0 <= b < files@.len() && bare_hash(#[trigger] files@[b].1@) == q;
                    assert(bare_hash(metas@[i as int].files@[b].1@) == q);
                }
                if exists|a: int, b: int|
                    0 <= a < i + 1 && 0 <= b < metas@[a].files@.len() && bare_hash(
                        #[trigger] metas@[a].files@[b].1@,
                    ) == q {
                    let (a, b) = choose|a: int, b: int|
                        0 <= a < i + 1 && 0 <= b < metas@[a].files@.len() && bare_hash(
                            #[trigger] metas@[a].files@[b].1@,
                        ) == q;
                    if a == i {
                        assert(bare_hash(files@[b].1@) == q);
                    }
                }
            }
        }
        i = i + 1;
    }
    out
}

/// The content hash a file of the store's files directory stands for, given
/// its path below that directory: a two-level path `ab/cdef…` names the hash
/// `abcdef…`; any other shape names none.
pub open spec fn content_hash_spec(rel: Seq<char>) -> Option<Seq<char>> {
    let cs = lockfile_components_spec(split_char_spec(rel, '/'), 0);
    if cs.len() == 2 {
        Some(cs[0] + cs[1])
    } else {
        None
    }
}

/// The content hash of a file below the files directory.
pub fn content_hash_for_entry(rel: &str) -> (r: Option<String>)
    ensures
        match r {
            Some(h) => content_hash_spec(rel@) == Some(h@),
            None => content_hash_spec(rel@) is None,
        },
{
    let cs = lockfile_components(rel);
    let ghost v = cs@.map_values(|s: String| s@);
    if cs.len() == 2 {
        assert(v[0] == cs@[0]@ && v[1] == cs@[1]@);
        Some(cat(cs[0].as_str(), cs[1].as_str()))
    } else {
        None
    }
}

/// A file below the files directory is orphaned when it stands for a hash
/// that no kept record names.
pub open spec fn orphaned_spec(rel: Seq<char>, referenced: StrMap<bool>) -> bool {
    match content_hash_spec(rel) {
        Some(h) => !referenced.has(h),
        None => false,
    }
}

/// Whether a content file is orphaned.
pub fn is_orphaned(rel: &str, referenced: &StrMap<bool>) -> (r: bool)
    ensures
        r == orphaned_spec(rel@, *referenced),
{
    match content_hash_for_entry(rel) {
        Some(h) => !referenced.contains_key(h.as_str()),
        None => false,
    }
}


/// How a newly stored file is recorded: its path with `\` written `/`, and
/// its hexadecimal SHA-256 behind `sha256:`.
pub open spec fn file_record_spec(rel: Seq<char>, hex: Seq<char>) -> (Seq<char>, Seq<char>) {
    (replace_char_spec(rel, '\\', '/'), sha256_prefix() + hex)
}

/// The integrity record of a newly stored package: its name and version,
/// the top-level integrity (empty when there is none), its files as
/// `(path, hexadecimal hash)` pairs recorded in the order given, and the
/// dependency keys it declares.
pub fn integrity_record(
    pkg_id: &PackageId,
    files: &Vec<(String, String)>,
    depnodes: Vec<String>,
    top_integrity: &Option<String>,
) -> (r: IntegrityMeta)
    ensures
        r.name@ == pkg_id.name@,
        r.version@ == version_text(pkg_id.version@),
        r.integrity@ == match top_integrity {
            Some(t) => t@,
            None => Seq::<char>::empty(),
        },
        r.files@.len() == files@.len(),
        forall|i: int|
            0 <= i < files@.len() ==> ((#[trigger] r.files@[i]).0@, r.files@[i].1@) == file_record_spec(
                files@[i].0@,
                files@[i].1@,
            ),
        r.depnodes@ == depnodes@,
{
    let prefix = "sha256:";
    proof {
        reveal_strlit("sha256:");
        assert(prefix@ =~= sha256_prefix());
    }
    let mut out: Vec<(String, String)> = Vec::new();
    let mut i: usize = 0;
    while i < files.len()
        invariant
            i <= files@.len(),
            prefix@ == sha256_prefix(),
            out@.len() == i,
            forall|j: int|
                0 <= j < i ==> ((#[trigger] out@[j]).0@, out@[j].1@) == file_record_spec(
                    files@[j].0@,
                    files@[j].1@,
                ),
        decreases files@.len() - i,
    {
        let rel = replace_char(files[i].0.as_str(), '\\', '/');
        let hash = cat(prefix, files[i].1.as_str());
        out.push((rel, hash));
        i = i + 1;
    }
    let integrity = match top_integrity {
        Some(t) => owned(t.as_str()),
        None => String::new(),
    };
    IntegrityMeta {
        name: owned(pkg_id.name.as_str()),
        version: pkg_id.version.to_text(),
        integrity,
        files: out,
        depnodes,
    }
}

/// Whether the store copies a file whose hard link from the content file
/// failed: it does unless the failure is of another kind than a missing
/// file, a refusal or a crossing of devices.
pub fn store_link_fallback(f: LinkFailure) -> (r: bool)
    ensures
        r == !(f is Other),
{
    match f {
        LinkFailure::Other => false,
        _ => true,
    }
}


/// A prune removes exactly the stored packages that no referenced package
/// shares a key with: no referenced package, and every unreferenced one.
pub proof fn lemma_prune_removes_exactly_unreferenced(
    all: Seq<(Seq<char>, VersionView)>,
    refs: Seq<(Seq<char>, VersionView)>,
)
    ensures
        forall|p: (Seq<char>, VersionView)|
            #[trigger] unreferenced_spec(all, refs).contains(p) <==> (all.contains(p) && !key_referenced(
                refs,
                id_key(p.0, p.1),
            )),
    decreases all.len(),
{
    if all.len() > 0 {
        let init = all.drop_last();
        lemma_prune_removes_exactly_unreferenced(init, refs);
        let rest = unreferenced_spec(init, refs);
        let r = unreferenced_spec(all, refs);
        assert forall|p: (Seq<char>, VersionView)|
            #[trigger] r.contains(p) <==> (all.contains(p) && !key_referenced(refs, id_key(p.0, p.1))) by {
            assert(all =~= init.push(all.last()));
            if r.contains(p) {
                let k = choose|k: int| 0 <= k < r.len() && r[k] == p;
                if k < rest.len() {
                    assert(rest.contains(p));
                    let j = choose|j: int| 0 <= j < init.len() && init[j] == p;
                    assert(all[j] == p);
                } else {
                    assert(all[all.len() - 1] == p);
                }
            }
            if all.contains(p) && !key_referenced(refs, id_key(p.0, p.1)) {
                let j = choose|j: int| 0 <= j < all.len() && all[j] == p;
                if j < init.len() {
                    assert(init[j] == p);
                    assert(rest.contains(p));
                    let k = choose|k: int| 0 <= k < rest.len() && rest[k] == p;
                    if key_referenced(refs, id_key(all.last().0, all.last().1)) {
                        assert(r[k] == p);
                    } else {
                        assert(r[k] == p);
                    }
                } else {
                    assert(r[r.len() - 1] == p);
                }
            }
        }
    }
}


/// The content file the store writes for a hexadecimal hash, `ab/cdef…`
/// below the files directory, is read back by a prune as standing for that
/// same hash; so a content file whose hash a kept record names is never
/// taken for an orphan.
pub proof fn lemma_content_file_names_its_hash(h: Seq<char>)
    requires
        h.len() >= 3,
        forall|i: int| 0 <= i < h.len() ==> is_hex_digit(#[trigger] h[i]),
    ensures
        content_hash_spec(join_path_spec(h.take(2), h.skip(2))) == Some(h),
{
    let a = h.take(2);
    let b = h.skip(2);
    assert(a.last() == h[1]);
    assert(b[0] == h[2]);
    let t = join_path_spec(a, b);
    assert(t =~= a + seq!['/'] + b);
    assert forall|j: int| 0 <= j < 2 implies #[trigger] t[j] != '/' by {
        assert(t[j] == h[j]);
    }
    lemma_find_unique(t, '/', Some(2));
    assert(t.take(2) =~= a);
    assert(t.skip(3) =~= b);
    assert forall|j: int| 0 <= j < b.len() implies #[trigger] b[j] != '/' by {
        assert(b[j] == h[j + 2]);
    }
    lemma_find_unique(b, '/', None);
    assert(split_char_spec(b, '/') =~= seq![b]);
    let pieces = split_char_spec(t, '/');
    assert(pieces =~= seq![a, b]);
    assert(a != seq!['.']);
    assert(a != seq!['.', '.']) by {
        assert(is_hex_digit(h[0]));
    }
    assert(b != seq!['.']) by {
        assert(is_hex_digit(h[2]));
        assert(b[0] == h[2]);
    }
    assert(b != seq!['.', '.']) by {
        assert(is_hex_digit(h[2]));
    }
    assert(lockfile_components_spec(pieces, 2) =~= seq![]);
    assert(lockfile_components_spec(pieces, 1) =~= seq![b]);
    assert(lockfile_components_spec(pieces, 0) =~= seq![a, b]);
    assert(a + b =~= h);
}


/// The permission bits of a file mode: the mode without the bits above
/// `0o777`.
pub fn permission_bits(mode: u32) -> (r: u32)
    ensures
        r == mode & 0o777u32,
{
    mode & 0o777u32
}

} // verus!
