//! Reading pnpm lockfiles: the format version, the package keys, and the
//! conversion to this library's lockfile.

use crate::num::{decimal, decimal_string};
use crate::lockfile::{
    strmap_view, ImporterLock, Lockfile, PackageLock, PackageLockView, PackageResolution,
    PackageResolutionView, ResolvedDep, LOCKFILE_VERSION,
};
use crate::referenced::{key_name_spec, package_key_name};
use crate::strmap::StrMap;
use crate::strs::{copy_opt, opt_strs_view, opt_view, strs_view};
use crate::text::{
    cat, owned, rfind_char, rfind_spec, rfind_str, rfind_str_spec, slice, starts_with, str_eq,
    trim_start_char, trim_start_char_spec, occurs_at,
};
use vstd::prelude::*;
use vstd::string::StrSliceExecFns;

verus! {

/// pnpm lockfile format version.
#[derive(Debug, Clone, PartialEq, Eq)]
pub enum PnpmLockfileVersion {
    /// pnpm v6 lockfile (lockfileVersion 6.x).
    V6,
    /// pnpm v9 lockfile (lockfileVersion 9.x).
    V9,
    /// Any other version, as written.
    Unknown(String),
}

/// The `lockfileVersion` value as the YAML reader found it.
#[derive(Debug, Clone)]
pub enum PnpmVersionScalar {
    /// A number that is an integer.
    Integer(i64),
    /// A number that is not an integer, with its text.
    OtherNumber(String),
    /// A string.
    Text(String),
    /// Anything else.
    Other,
}

/// Decimal text of a signed integer, as `Display` writes it.
pub open spec fn signed_decimal(i: int) -> Seq<char> {
    if i < 0 {
        seq!['-'] + decimal((-i) as nat)
    } else {
        decimal(i as nat)
    }
}

pub fn signed_decimal_string(i: i64) -> (r: String)
    ensures
        r@ == signed_decimal(i as int),
{
    if i < 0 {
        let m: u64 = (-(i + 1)) as u64 + 1;
        let minus = "-";
        proof {
            reveal_strlit("-");
        }
        let d = decimal_string(m);
        let r = cat(minus, d.as_str());
        proof {
            assert(m as int == -(i as int));
        }
        r
    } else {
        decimal_string(i as u64)
    }
}

pub open spec fn v6_texts(s: Seq<char>) -> bool {
    s == seq!['6', '.', '0'] || s == seq!['6', '.', '1'] || s == seq!['6', '.', '2'] || s == seq![
        '6',
        '.',
        '3',
    ] || s == seq!['6']
}

pub open spec fn v9_text(s: Seq<char>) -> bool {
    (s.len() >= 2 && s[0] == '9' && s[1] == '.') || s == seq!['9']
}

pub open spec fn unknown_chars() -> Seq<char> {
    seq!['u', 'n', 'k', 'n', 'o', 'w', 'n']
}

/// The version a `lockfileVersion` value stands for.
pub open spec fn version_of_scalar(v: PnpmVersionScalar, r: PnpmLockfileVersion) -> bool {
    match v {
        PnpmVersionScalar::Integer(i) => if i == 6 {
            r == PnpmLockfileVersion::V6
        } else if i == 9 {
            r == PnpmLockfileVersion::V9
        } else {
            r matches PnpmLockfileVersion::Unknown(t) && t@ == signed_decimal(i as int)
        },
        PnpmVersionScalar::OtherNumber(t0) => r matches PnpmLockfileVersion::Unknown(t) && t@ == t0@,
        PnpmVersionScalar::Text(s) => if v6_texts(s@) {
            r == PnpmLockfileVersion::V6
        } else if v9_text(s@) {
            r == PnpmLockfileVersion::V9
        } else {
            r matches PnpmLockfileVersion::Unknown(t) && t@ == s@
        },
        PnpmVersionScalar::Other => r matches PnpmLockfileVersion::Unknown(t) && t@ == unknown_chars(),
    }
}

impl PnpmLockfileVersion {
    /// The version a `lockfileVersion` value stands for.
    pub fn from_scalar(v: &PnpmVersionScalar) -> (r: Self)
        ensures
            version_of_scalar(*v, r),
    {
        match v {
            PnpmVersionScalar::Integer(i) => {
                if *i == 6 {
                    PnpmLockfileVersion::V6
                } else if *i == 9 {
                    PnpmLockfileVersion::V9
                } else {
                    PnpmLockfileVersion::Unknown(signed_decimal_string(*i))
                }
            },
            PnpmVersionScalar::OtherNumber(t) => PnpmLockfileVersion::Unknown(owned(t.as_str())),
            PnpmVersionScalar::Text(s) => {
                let t = s.as_str();
                let a = "6.0";
                let b = "6.1";
                let c = "6.2";
                let d = "6.3";
                let e = "6";
                let nine = "9";
                proof {
                    reveal_strlit("6.0");
                    reveal_strlit("6.1");
                    reveal_strlit("6.2");
                    reveal_strlit("6.3");
                    reveal_strlit("6");
                    reveal_strlit("9");
                    assert(a@ =~= seq!['6', '.', '0']);
                    assert(b@ =~= seq!['6', '.', '1']);
                    assert(c@ =~= seq!['6', '.', '2']);
                    assert(d@ =~= seq!['6', '.', '3']);
                    assert(e@ =~= seq!['6']);
                    assert(nine@ =~= seq!['9']);
                }
                let n = t.unicode_len();
                if str_eq(t, a) || str_eq(t, b) || str_eq(t, c) || str_eq(t, d) || str_eq(t, e) {
                    PnpmLockfileVersion::V6
                } else if (n >= 2 && t.get_char(0) == '9' && t.get_char(1) == '.') || str_eq(t, nine) {
                    PnpmLockfileVersion::V9
                } else {
                    PnpmLockfileVersion::Unknown(owned(t))
                }
            },
            PnpmVersionScalar::Other => {
                let u = "unknown";
                proof {
                    reveal_strlit("unknown");
                    assert(u@ =~= unknown_chars());
                }
                PnpmLockfileVersion::Unknown(owned(u))
            },
        }
    }
}

pub open spec fn node_modules_chars() -> Seq<char> {
    seq!['n', 'o', 'd', 'e', '_', 'm', 'o', 'd', 'u', 'l', 'e', 's', '/']
}

/// A pnpm package key in this library's form `/<name>@<version>`: leading
/// slashes dropped, everything up to the last `node_modules/` before the
/// version dropped, and one `/` put in front.
pub open spec fn normalize_key_spec(key: Seq<char>) -> Seq<char> {
    let k = trim_start_char_spec(key, '/');
    match rfind_spec(k, '@') {
        Some(at) => {
            let name_part = k.take(at);
            let ver_part = k.skip(at);
            let name = match rfind_str_spec(name_part, node_modules_chars()) {
                Some(p) => name_part.skip(p + 13),
                None => name_part,
            };
            seq!['/'] + trim_start_char_spec(name, '/') + ver_part
        },
        None => seq!['/'] + k,
    }
}

/// Normalizes a pnpm package key to `/<name>@<version>`.
pub fn normalize_package_key(key: &str) -> (r: String)
    ensures
        r@ == normalize_key_spec(key@),
{
    let k = trim_start_char(key, '/');
    let kn = k.unicode_len();
    let slash = "/";
    proof {
        reveal_strlit("/");
    }
    match rfind_char(k, '@') {
        Some(at) => {
            proof {
                crate::text::lemma_rfind(k@, '@');
            }
            let name_part = slice(k, 0, at);
            let ver_part = slice(k, at, kn);
            let nm = "node_modules/";
            proof {
                reveal_strlit("node_modules/");
                assert(nm@ =~= node_modules_chars());
            }
            let name = match rfind_str(name_part, nm) {
                Some(p) => {
                    proof {
                        let q = choose|i: int|
                            occurs_at(name_part@, nm@, i) && forall|j: int| i < j ==> !occurs_at(name_part@, nm@, j);
                        assert(occurs_at(name_part@, nm@, q));
                    }
                    slice(name_part, p + 13, name_part.unicode_len())
                },
                None => name_part,
            };
            let name = trim_start_char(name, '/');
            let mut s = cat(slash, name);
            s.append(ver_part);
            proof {
                assert(s@ =~= normalize_key_spec(key@));
            }
            s
        },
        None => {
            let s = cat(slash, k);
            proof {
                assert(s@ =~= normalize_key_spec(key@));
            }
            s
        },
    }
}

/// The package name in a normalized key (text before the last `@`, which
/// must not be empty).
pub fn extract_name_from_key(key: &str) -> (r: Option<String>)
    ensures
        opt_view(r) == key_name_spec(key@),
{
    package_key_name(key)
}

/// The version in a normalized key (text after the last `@`, if not empty).
pub open spec fn key_version_spec(key: Seq<char>) -> Option<Seq<char>> {
    let k = trim_start_char_spec(key, '/');
    match rfind_spec(k, '@') {
        Some(at) => if at + 1 == k.len() {
            None
        } else {
            Some(k.skip(at + 1))
        },
        None => None,
    }
}

/// The version in a normalized key.
pub fn extract_version_from_key(key: &str) -> (r: Option<String>)
    ensures
        opt_view(r) == key_version_spec(key@),
{
    let k = trim_start_char(key, '/');
    let kn = k.unicode_len();
    match rfind_char(k, '@') {
        Some(at) => {
            proof {
                crate::text::lemma_rfind(k@, '@');
            }
            if at + 1 == kn {
                None
            } else {
                Some(owned(slice(k, at + 1, kn)))
            }
        },
        None => None,
    }
}

/// Resolution details of a pnpm package.
#[derive(Debug, Clone)]
pub struct PnpmResolution {
    /// Tarball URL.
    pub tarball: Option<String>,
    /// Integrity hash.
    pub integrity: Option<String>,
    /// Local path (for workspace packages).
    pub path: Option<String>,
    /// Snapshot directory.
    pub dir: Option<String>,
}

/// Peer dependency metadata.
#[derive(Debug, Clone)]
pub struct PnpmPeerDepMeta {
    /// Whether this peer dependency is optional.
    pub optional: Option<bool>,
}

/// A package entry of a pnpm lockfile.
#[derive(Debug, Clone)]
pub struct PnpmPackage {
    /// Where the package comes from.
    pub resolution: PnpmResolution,
    /// Peer dependencies.
    pub peer_dependencies: StrMap<String>,
    /// Peer dependency metadata.
    pub peer_dependencies_meta: StrMap<PnpmPeerDepMeta>,
    /// Dependencies of this package.
    pub dependencies: StrMap<String>,
    /// Optional dependencies of this package.
    pub optional_dependencies: StrMap<String>,
    /// Transitive peer dependencies.
    pub transitive_peer_dependencies: Vec<String>,
    /// Engines constraint.
    pub engines: Option<String>,
    /// OS constraints.
    pub os: Vec<String>,
    /// CPU constraints.
    pub cpu: Vec<String>,
    /// Whether this package has no peer dependencies.
    pub has_no_peer_dependencies: Option<bool>,
}

/// A snapshot entry of a pnpm lockfile.
#[derive(Debug, Clone)]
pub struct PnpmSnapshot {
    /// Where the package comes from.
    pub resolution: PnpmResolution,
    /// Dependencies.
    pub dependencies: StrMap<String>,
}

/// A resolved dependency of a pnpm importer.
#[derive(Debug, Clone)]
pub struct PnpmResolvedDep {
    /// Resolved version.
    pub version: String,
    /// Original specifier.
    pub specifier: Option<String>,
    /// Optional flag.
    pub optional: Option<bool>,
    /// Engines constraint.
    pub engines: Option<String>,
    /// OS constraints.
    pub os: Option<Vec<String>>,
    /// CPU constraints.
    pub cpu: Option<Vec<String>>,
    /// Whether this is a dev dependency.
    pub dev: Option<bool>,
}

/// An importer of a pnpm lockfile.
#[derive(Debug, Clone)]
pub struct PnpmImporter {
    /// Resolved dependencies.
    pub dependencies: StrMap<PnpmResolvedDep>,
    /// Resolved dev dependencies.
    pub dev_dependencies: StrMap<PnpmResolvedDep>,
    /// Resolved optional dependencies.
    pub optional_dependencies: StrMap<PnpmResolvedDep>,
    /// Dependency specifiers.
    pub specifiers: StrMap<String>,
}

/// Errors of importing a pnpm lockfile.
#[derive(Debug, Clone, PartialEq, Eq)]
pub enum PnpmImportError {
    /// Unsupported pnpm lockfile version.
    UnsupportedVersion(String),
    /// The content could not be parsed.
    ParseError(String),
    /// The file is empty.
    Empty,
    /// The importers section is missing.
    MissingImporters,
}

/// A pnpm lockfile.
#[derive(Debug, Clone)]
pub struct PnpmLockfile {
    /// The `lockfileVersion` value.
    pub lockfile_version: PnpmVersionScalar,
    /// Importers (one per package.json).
    pub importers: StrMap<PnpmImporter>,
    /// Resolved packages.
    pub packages: StrMap<PnpmPackage>,
    /// Snapshots.
    pub snapshots: StrMap<PnpmSnapshot>,
    /// Patched dependencies, each with its entry's text.
    pub patched_dependencies: StrMap<String>,
}

/// A list of strings, or nothing when it is empty.
pub open spec fn non_empty_view(v: Seq<String>) -> Option<Seq<Seq<char>>> {
    if v.len() == 0 {
        None
    } else {
        Some(strs_view(v))
    }
}

/// A converted package keeps the pnpm package's dependency groups in place:
/// its regular dependencies are the pnpm dependencies, its optional ones the
/// pnpm optional dependencies, and it has no peer dependencies.
pub proof fn lemma_converted_package_keeps_groups(k: Seq<char>, p: PnpmPackage)
    ensures
        converted_package(k, p).dependencies == strmap_view(p.dependencies),
        converted_package(k, p).optional_dependencies == strmap_view(p.optional_dependencies),
        converted_package(k, p).peer_dependencies.0.len() == 0,
{
}

/// The entry this library's lockfile holds for pnpm package `p` under the
/// normalized key `k`.
pub open spec fn converted_package(k: Seq<char>, p: PnpmPackage) -> PackageLockView {
    PackageLockView {
        id: None,
        local: opt_view(p.resolution.path),
        integrity: opt_view(p.resolution.integrity),
        name: key_name_spec(k),
        version: key_version_spec(k),
        resolution: Some(
            PackageResolutionView {
                tarball: opt_view(p.resolution.tarball),
                integrity: opt_view(p.resolution.integrity),
                resolution_type: None,
                path: opt_view(p.resolution.path),
            },
        ),
        dependencies: strmap_view(p.dependencies),
        optional_dependencies: strmap_view(p.optional_dependencies),
        peer_dependencies: (seq![], seq![]),
        engines: opt_view(p.engines),
        os: non_empty_view(p.os@),
        cpu: non_empty_view(p.cpu@),
    }
}

fn non_empty(v: Vec<String>) -> (r: Option<Vec<String>>)
    ensures
        opt_strs_view(r) == non_empty_view(v@),
{
    if v.len() == 0 {
        None
    } else {
        Some(v)
    }
}

fn convert_package(k: &str, p: PnpmPackage) -> (r: PackageLock)
    ensures
        r@ == converted_package(k@, p),
        r.dependencies == p.dependencies,
        r.optional_dependencies == p.optional_dependencies,
{
    let resolution = PackageResolution {
        tarball: p.resolution.tarball,
        integrity: copy_opt(&p.resolution.integrity),
        resolution_type: None,
        path: copy_opt(&p.resolution.path),
    };
    let r = PackageLock {
        id: None,
        local: p.resolution.path,
        integrity: p.resolution.integrity,
        name: extract_name_from_key(k),
        version: extract_version_from_key(k),
        resolution: Some(resolution),
        dependencies: p.dependencies,
        optional_dependencies: p.optional_dependencies,
        peer_dependencies: StrMap::new(),
        engines: p.engines,
        os: non_empty(p.os),
        cpu: non_empty(p.cpu),
    };
    proof {
        assert(r.peer_dependencies.keys() =~= seq![]);
        assert(r.peer_dependencies.str_vals() =~= seq![]);
    }
    r
}

/// The dependency this library's lockfile holds for pnpm dependency `d`
/// named `name`, with the group's defaults for the `dev` and `optional`
/// flags.
pub open spec fn converted_dep(
    r: ResolvedDep,
    name: Seq<char>,
    d: PnpmResolvedDep,
    dev_default: bool,
    optional_default: bool,
) -> bool {
    &&& r.version@ == d.version@
    &&& r.specifier@ == (match d.specifier {
        Some(s) => s@,
        None => d.version@,
    })
    &&& opt_view(r.id) == Some(seq!['/'] + name + seq!['@'] + d.version@)
    &&& r.dev == (match d.dev {
        Some(b) => Some(b),
        None => Some(dev_default),
    })
    &&& r.optional == (match d.optional {
        Some(b) => Some(b),
        None => Some(optional_default),
    })
    &&& opt_view(r.engines) == opt_view(d.engines)
    &&& opt_strs_view(r.os) == opt_strs_view(d.os)
    &&& opt_strs_view(r.cpu) == opt_strs_view(d.cpu)
    &&& r.dependencies.keys().len() == 0
    &&& r.optional_dependencies.keys().len() == 0
    &&& r.peer_dependencies.keys().len() == 0
}

fn convert_dep(name: &str, d: PnpmResolvedDep, dev_default: bool, optional_default: bool) -> (r: ResolvedDep)
    ensures
        converted_dep(r, name@, d, dev_default, optional_default),
{
    let slash = "/";
    let at = "@";
    proof {
        reveal_strlit("/");
        reveal_strlit("@");
    }
    let mut id = cat(slash, name);
    id.append(at);
    id.append(d.version.as_str());
    proof {
        assert(id@ =~= seq!['/'] + name@ + seq!['@'] + d.version@);
    }
    let specifier = match d.specifier {
        Some(s) => s,
        None => owned(d.version.as_str()),
    };
    let dev = match d.dev {
        Some(b) => Some(b),
        None => Some(dev_default),
    };
    let optional = match d.optional {
        Some(b) => Some(b),
        None => Some(optional_default),
    };
    ResolvedDep {
        version: d.version,
        specifier,
        id: Some(id),
        dev,
        optional,
        engines: d.engines,
        os: d.os,
        cpu: d.cpu,
        dependencies: StrMap::new(),
        optional_dependencies: StrMap::new(),
        peer_dependencies: StrMap::new(),
    }
}

/// `out` holds the converted entries of the pnpm group `g`, under the same
/// names.
pub open spec fn converted_group(
    out: StrMap<ResolvedDep>,
    g: StrMap<PnpmResolvedDep>,
    dev_default: bool,
    optional_default: bool,
) -> bool {
    &&& forall|n: Seq<char>| out.has(n) <==> g.has(n)
    &&& forall|n: Seq<char>|
        out.has(n) ==> converted_dep(#[trigger] out.at(n), n, g.at(n), dev_default, optional_default)
}

fn convert_group(g: StrMap<PnpmResolvedDep>, dev_default: bool, optional_default: bool) -> (r: StrMap<ResolvedDep>)
    ensures
        converted_group(r, g, dev_default, optional_default),
{
    let ghost og = g;
    let n = g.len();
    let mut es = g.into_entries();
    let mut out: StrMap<ResolvedDep> = StrMap::new();
    while es.len() > 0
        invariant
            og.wf(),
            es@.len() <= n,
            n == og.keys().len(),
            forall|i: int|
                0 <= i < es@.len() ==> (#[trigger] es@[i]).0@ == og.keys()[i] && es@[i].1
                    == og.vals()[i],
            forall|q: Seq<char>|
                out.has(q) <==> exists|i: int| es@.len() <= i < n && og.keys()[i] == q,
            forall|q: Seq<char>|
                out.has(q) ==> converted_dep(#[trigger] out.at(q), q, og.at(q), dev_default, optional_default),
        decreases es@.len(),
    {
        let ghost j = (es@.len() - 1) as int;
        let (k, v) = es.pop().unwrap();
        proof {
            og.lemma_index(k@, j);
        }
        let kv = k.as_str();
        let d = convert_dep(kv, v, dev_default, optional_default);
        out.insert(k, d);
        proof {
            assert forall|q: Seq<char>|
                out.has(q) <==> exists|i: int| j <= i < n && og.keys()[i] == q by {
                if exists|i: int| j <= i < n && og.keys()[i] == q {
                    let i = choose|i: int| j <= i < n && og.keys()[i] == q;
                    if i > j {
                        assert(exists|i2: int| es@.len() + 1 <= i2 < n && og.keys()[i2] == q) by {
                            assert(es@.len() + 1 <= i < n);
                        }
                    }
                }
            }
        }
    }
    proof {
        assert forall|q: Seq<char>| out.has(q) <==> og.has(q) by {
            if og.has(q) {
                let i = choose|i: int| 0 <= i < og.keys().len() && og.keys()[i] == q;
                assert(0 <= i < n && og.keys()[i] == q);
            }
        }
    }
    out
}

/// `out` is pnpm importer `p` in this library's form.
pub open spec fn converted_importer(out: ImporterLock, p: PnpmImporter) -> bool {
    &&& converted_group(out.dependencies, p.dependencies, false, false)
    &&& converted_group(out.dev_dependencies, p.dev_dependencies, true, false)
    &&& converted_group(out.optional_dependencies, p.optional_dependencies, false, true)
    &&& out.specifiers == p.specifiers
}

fn convert_importer(p: PnpmImporter) -> (r: ImporterLock)
    ensures
        converted_importer(r, p),
{
    ImporterLock {
        dependencies: convert_group(p.dependencies, false, false),
        dev_dependencies: convert_group(p.dev_dependencies, true, false),
        optional_dependencies: convert_group(p.optional_dependencies, false, true),
        specifiers: p.specifiers,
    }
}

/// The last position whose normalized key is `k`.
pub open spec fn last_position(norms: Seq<Seq<char>>, k: Seq<char>) -> int {
    choose|i: int| 0 <= i < norms.len() && norms[i] == k && forall|t: int| i < t < norms.len() ==> norms[t] != k
}

proof fn lemma_last_position(norms: Seq<Seq<char>>, k: Seq<char>, i: int)
    requires
        0 <= i < norms.len(),
        norms[i] == k,
        forall|t: int| i < t < norms.len() ==> norms[t] != k,
    ensures
        last_position(norms, k) == i,
{
    let c = last_position(norms, k);
    assert(0 <= c < norms.len() && norms[c] == k && forall|t: int| c < t < norms.len() ==> norms[t] != k);
    if c < i {
        assert(norms[i] != k);
    } else if c > i {
        assert(norms[c] != k);
    }
}

/// The normalized keys of a pnpm packages section, in its key order.
pub open spec fn normalized_keys(keys: Seq<Seq<char>>) -> Seq<Seq<char>> {
    keys.map_values(|k: Seq<char>| normalize_key_spec(k))
}

impl PnpmLockfile {
    /// The format version of the lockfile.
    pub fn version(&self) -> (r: PnpmLockfileVersion)
        ensures
            version_of_scalar(self.lockfile_version, r),
    {
        PnpmLockfileVersion::from_scalar(&self.lockfile_version)
    }

    /// Whether the format version is 6 or 9.
    pub fn is_supported(&self) -> (r: bool)
        ensures
            forall|v: PnpmLockfileVersion|
                version_of_scalar(self.lockfile_version, v) ==> (r == (v is V6 || v is V9)),
    {
        let v = self.version();
        match v {
            PnpmLockfileVersion::V6 => true,
            PnpmLockfileVersion::V9 => true,
            PnpmLockfileVersion::Unknown(_) => false,
        }
    }

    /// Converts the lockfile: each package under its normalized key (the
    /// last of several that normalize alike wins), each importer with its
    /// groups converted; no snapshots.
    pub fn into_orix_lockfile(self) -> (r: Lockfile)
        ensures
            r.version == LOCKFILE_VERSION,
            r.save_remote_cache_urls,
            r.graph_hash is None,
            r.snapshots.keys().len() == 0,
            forall|k: Seq<char>|
                r.packages.has(k) <==> normalized_keys(self.packages.keys()).contains(k),
            forall|k: Seq<char>|
                r.packages.has(k) ==> (#[trigger] r.packages.at(k))@ == converted_package(
                    k,
                    self.packages.vals()[last_position(normalized_keys(self.packages.keys()), k)],
                ),
            forall|k: Seq<char>|
                r.packages.has(k) ==> {
                    let src = self.packages.vals()[last_position(normalized_keys(self.packages.keys()), k)];
                    &&& strmap_view((#[trigger] r.packages.at(k)).dependencies) == strmap_view(src.dependencies)
                    &&& strmap_view(r.packages.at(k).optional_dependencies) == strmap_view(
                        src.optional_dependencies,
                    )
                    &&& r.packages.at(k).peer_dependencies.keys().len() == 0
                },
            forall|id: Seq<char>| r.importers.has(id) <==> self.importers.has(id),
            forall|id: Seq<char>|
                r.importers.has(id) ==> converted_importer(
                    #[trigger] r.importers.at(id),
                    self.importers.at(id),
                ),
    {
        let ghost orig = self;
        let ghost norms = normalized_keys(self.packages.keys());
        let n = self.packages.len();
        let mut pes = self.packages.into_entries();
        let mut packages: StrMap<PackageLock> = StrMap::new();
        while pes.len() > 0
            invariant
                orig.packages.wf(),
                norms == normalized_keys(orig.packages.keys()),
                n == orig.packages.keys().len(),
                pes@.len() <= n,
                forall|i: int|
                    0 <= i < pes@.len() ==> (#[trigger] pes@[i]).0@ == orig.packages.keys()[i]
                        && pes@[i].1 == orig.packages.vals()[i],
                forall|q: Seq<char>|
                    packages.has(q) <==> exists|i: int| pes@.len() <= i < n && norms[i] == q,
                forall|q: Seq<char>|
                    packages.has(q) ==> (#[trigger] packages.at(q))@ == converted_package(
                        q,
                        orig.packages.vals()[last_position(norms, q)],
                    ),
            decreases pes@.len(),
        {
            let ghost j = (pes@.len() - 1) as int;
            let (k, v) = pes.pop().unwrap();
            let nk = normalize_package_key(k.as_str());
            proof {
                assert(norms[j] == nk@);
            }
            if !packages.contains_key(nk.as_str()) {
                proof {
                    assert forall|t: int| j < t < norms.len() implies norms[t] != nk@ by {
                        if norms[t] == nk@ {
                            assert(exists|i: int| j + 1 <= i < n && norms[i] == nk@);
                        }
                    }
                    lemma_last_position(norms, nk@, j);
                }
                let pl = convert_package(nk.as_str(), v);
                packages.insert(nk, pl);
            }
            proof {
                assert forall|q: Seq<char>|
                    packages.has(q) <==> exists|i: int| j <= i < n && norms[i] == q by {
                    if exists|i: int| j <= i < n && norms[i] == q {
                        let i = choose|i: int| j <= i < n && norms[i] == q;
                        if i > j {
                            assert(exists|i2: int| j + 1 <= i2 < n && norms[i2] == q);
                        }
                    }
                }
            }
        }
        proof {
            assert forall|q: Seq<char>| packages.has(q) <==> norms.contains(q) by {
                if norms.contains(q) {
                    let i = choose|i: int| 0 <= i < norms.len() && norms[i] == q;
                    assert(0 <= i < n && norms[i] == q);
                }
            }
        }

        let m = self.importers.len();
        let mut ies = self.importers.into_entries();
        let mut importers: StrMap<ImporterLock> = StrMap::new();
        while ies.len() > 0
            invariant
                orig.importers.wf(),
                m == orig.importers.keys().len(),
                ies@.len() <= m,
                forall|i: int|
                    0 <= i < ies@.len() ==> (#[trigger] ies@[i]).0@ == orig.importers.keys()[i]
                        && ies@[i].1 == orig.importers.vals()[i],
                forall|q: Seq<char>|
                    importers.has(q) <==> exists|i: int| ies@.len() <= i < m && orig.importers.keys()[i] == q,
                forall|q: Seq<char>|
                    importers.has(q) ==> converted_importer(#[trigger] importers.at(q), orig.importers.at(q)),
            decreases ies@.len(),
        {
            let ghost j = (ies@.len() - 1) as int;
            let (id, imp) = ies.pop().unwrap();
            proof {
                orig.importers.lemma_index(id@, j);
            }
            let converted = convert_importer(imp);
            importers.insert(id, converted);
            proof {
                assert forall|q: Seq<char>|
                    importers.has(q) <==> exists|i: int| j <= i < m && orig.importers.keys()[i] == q by {
                    if exists|i: int| j <= i < m && orig.importers.keys()[i] == q {
                        let i = choose|i: int| j <= i < m && orig.importers.keys()[i] == q;
                        if i > j {
                            assert(exists|i2: int| j + 1 <= i2 < m && orig.importers.keys()[i2] == q);
                        }
                    }
                }
            }
        }
        proof {
            assert forall|q: Seq<char>| importers.has(q) <==> orig.importers.has(q) by {
                if orig.importers.has(q) {
                    let i = choose|i: int| 0 <= i < orig.importers.keys().len() && orig.importers.keys()[i] == q;
                    assert(0 <= i < m && orig.importers.keys()[i] == q);
                }
            }
        }
        Lockfile {
            version: LOCKFILE_VERSION,
            save_remote_cache_urls: true,
            importers,
            packages,
            snapshots: StrMap::new(),
            graph_hash: None,
        }
    }
}

} // verus!
