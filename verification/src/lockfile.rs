//! The lockfile: importers, packages and snapshots, and the operations that
//! compare and prune it.

use crate::strmap::{lemma_take_all_contains, lemma_take_push_contains, sorted_keys, StrMap};
use crate::manifest::Manifest;
use crate::strs::{opt_eq, opt_strs_eq, opt_strs_view, opt_view, strs_view};
use crate::name::PackageName;
use crate::package::PackageId;
use crate::text::{owned, rfind_char, rfind_spec, slice, str_eq, trim_start_char, trim_start_char_spec};
use crate::version::{semver_parse, strip_v, Version, VersionView};
use vstd::prelude::*;
use vstd::string::StrSliceExecFns;

verus! {

/// Lockfile format version.
pub const LOCKFILE_VERSION: i32 = 4;

/// Resolution details for a package.
#[derive(Debug, Clone)]
pub struct PackageResolution {
    /// Tarball URL.
    pub tarball: Option<String>,
    /// Integrity hash.
    pub integrity: Option<String>,
    /// Resolution type.
    pub resolution_type: Option<String>,
    /// Local file path (for workspace packages).
    pub path: Option<String>,
}

/// A resolution by the characters of its fields.
pub struct PackageResolutionView {
    pub tarball: Option<Seq<char>>,
    pub integrity: Option<Seq<char>>,
    pub resolution_type: Option<Seq<char>>,
    pub path: Option<Seq<char>>,
}

impl View for PackageResolution {
    type V = PackageResolutionView;

    open spec fn view(&self) -> PackageResolutionView {
        PackageResolutionView {
            tarball: opt_view(self.tarball),
            integrity: opt_view(self.integrity),
            resolution_type: opt_view(self.resolution_type),
            path: opt_view(self.path),
        }
    }
}

pub open spec fn opt_resolution_view(o: Option<PackageResolution>) -> Option<PackageResolutionView> {
    match o {
        Some(r) => Some(r@),
        None => None,
    }
}

/// A resolved package entry in the lockfile.
#[derive(Debug, Clone)]
pub struct PackageLock {
    /// Registry package ID.
    pub id: Option<String>,
    /// Local path (for workspace packages).
    pub local: Option<String>,
    /// Integrity hash.
    pub integrity: Option<String>,
    /// Package name.
    pub name: Option<String>,
    /// Package version.
    pub version: Option<String>,
    /// Resolution details.
    pub resolution: Option<PackageResolution>,
    /// Dependencies of the package.
    pub dependencies: StrMap<String>,
    /// Optional dependencies of the package.
    pub optional_dependencies: StrMap<String>,
    /// Peer dependencies of the package.
    pub peer_dependencies: StrMap<String>,
    /// Node engine constraint.
    pub engines: Option<String>,
    /// Supported OS constraints.
    pub os: Option<Vec<String>>,
    /// Supported CPU constraints.
    pub cpu: Option<Vec<String>>,
}

/// A string map by its keys and values, in key order.
pub open spec fn strmap_view(m: StrMap<String>) -> (Seq<Seq<char>>, Seq<Seq<char>>) {
    (m.keys(), m.str_vals())
}

/// A package entry by the characters of its fields.
pub struct PackageLockView {
    pub id: Option<Seq<char>>,
    pub local: Option<Seq<char>>,
    pub integrity: Option<Seq<char>>,
    pub name: Option<Seq<char>>,
    pub version: Option<Seq<char>>,
    pub resolution: Option<PackageResolutionView>,
    pub dependencies: (Seq<Seq<char>>, Seq<Seq<char>>),
    pub optional_dependencies: (Seq<Seq<char>>, Seq<Seq<char>>),
    pub peer_dependencies: (Seq<Seq<char>>, Seq<Seq<char>>),
    pub engines: Option<Seq<char>>,
    pub os: Option<Seq<Seq<char>>>,
    pub cpu: Option<Seq<Seq<char>>>,
}

impl View for PackageLock {
    type V = PackageLockView;

    open spec fn view(&self) -> PackageLockView {
        PackageLockView {
            id: opt_view(self.id),
            local: opt_view(self.local),
            integrity: opt_view(self.integrity),
            name: opt_view(self.name),
            version: opt_view(self.version),
            resolution: opt_resolution_view(self.resolution),
            dependencies: strmap_view(self.dependencies),
            optional_dependencies: strmap_view(self.optional_dependencies),
            peer_dependencies: strmap_view(self.peer_dependencies),
            engines: opt_view(self.engines),
            os: opt_strs_view(self.os),
            cpu: opt_strs_view(self.cpu),
        }
    }
}

/// Whether two resolutions are equal field by field.
pub fn resolution_eq(a: &PackageResolution, b: &PackageResolution) -> (r: bool)
    ensures
        r == (a@ == b@),
{
    opt_eq(&a.tarball, &b.tarball) && opt_eq(&a.integrity, &b.integrity) && opt_eq(
        &a.resolution_type,
        &b.resolution_type,
    ) && opt_eq(&a.path, &b.path)
}

/// Whether two package entries are equal field by field.
pub fn package_lock_eq(a: &PackageLock, b: &PackageLock) -> (r: bool)
    ensures
        r == (a@ == b@),
{
    let res_eq = match (&a.resolution, &b.resolution) {
        (Some(x), Some(y)) => resolution_eq(x, y),
        (None, None) => true,
        _ => false,
    };
    opt_eq(&a.id, &b.id) && opt_eq(&a.local, &b.local) && opt_eq(&a.integrity, &b.integrity)
        && opt_eq(&a.name, &b.name) && opt_eq(&a.version, &b.version) && res_eq
        && a.dependencies.same_entries(&b.dependencies) && a.optional_dependencies.same_entries(
        &b.optional_dependencies,
    ) && a.peer_dependencies.same_entries(&b.peer_dependencies) && opt_eq(
        &a.engines,
        &b.engines,
    ) && opt_strs_eq(&a.os, &b.os) && opt_strs_eq(&a.cpu, &b.cpu)
}

/// A single resolved dependency entry.
#[derive(Debug, Clone)]
pub struct ResolvedDep {
    /// Resolved version string.
    pub version: String,
    /// Original specifier from package.json.
    pub specifier: String,
    /// Registry package ID.
    pub id: Option<String>,
    /// Whether this is a dev dependency.
    pub dev: Option<bool>,
    /// Whether this is an optional dependency.
    pub optional: Option<bool>,
    /// Node engine constraint.
    pub engines: Option<String>,
    /// Supported OS constraints.
    pub os: Option<Vec<String>>,
    /// Supported CPU constraints.
    pub cpu: Option<Vec<String>>,
    /// Transitive dependencies of this package.
    pub dependencies: StrMap<String>,
    /// Transitive optional dependencies.
    pub optional_dependencies: StrMap<String>,
    /// Peer dependencies visible from this dependency.
    pub peer_dependencies: StrMap<String>,
}

/// Dependency edges for one logical package instance.
#[derive(Debug, Clone)]
pub struct SnapshotLock {
    /// Transitive dependencies.
    pub dependencies: StrMap<String>,
    /// Transitive optional dependencies.
    pub optional_dependencies: StrMap<String>,
    /// Peer dependencies.
    pub peer_dependencies: StrMap<String>,
    /// Resolved peer context for peer-aware package instances.
    pub peer_context: StrMap<String>,
}

/// Dependency resolutions for one importer (root or workspace package).
#[derive(Debug, Clone)]
pub struct ImporterLock {
    /// Resolved production dependencies.
    pub dependencies: StrMap<ResolvedDep>,
    /// Resolved development dependencies.
    pub dev_dependencies: StrMap<ResolvedDep>,
    /// Resolved optional dependencies.
    pub optional_dependencies: StrMap<ResolvedDep>,
    /// Original dependency specifiers (for diffing).
    pub specifiers: StrMap<String>,
}

/// The lockfile root.
#[derive(Debug, Clone)]
pub struct Lockfile {
    /// Lockfile version number.
    pub version: i32,
    /// Whether to save remote cache URLs.
    pub save_remote_cache_urls: bool,
    /// Per-importer dependency resolutions.
    pub importers: StrMap<ImporterLock>,
    /// Resolved packages keyed by package ID.
    pub packages: StrMap<PackageLock>,
    /// Logical dependency snapshots keyed by package instance ID.
    pub snapshots: StrMap<SnapshotLock>,
    /// Hash of the dependency graph the lockfile was written from.
    pub graph_hash: Option<String>,
}

/// The diff between two lockfile states.
#[derive(Debug, Clone)]
pub struct LockfileDiff {
    /// Packages added since the old lockfile.
    pub added: Vec<String>,
    /// Packages removed since the old lockfile.
    pub removed: Vec<String>,
    /// Packages whose entry changed while keeping the same package key.
    pub changed: Vec<String>,
    /// Importers whose specifiers changed.
    pub importers_changed: Vec<String>,
}

/// `v` lists, in increasing order and once each, the strings satisfying `p`.
pub open spec fn lists_exactly(v: Seq<Seq<char>>, p: spec_fn(Seq<char>) -> bool) -> bool {
    &&& sorted_keys(v)
    &&& forall|k: Seq<char>| v.contains(k) <==> p(k)
}

/// An importer's specifiers, if the importer is present.
pub open spec fn specifiers_of(importers: StrMap<ImporterLock>, id: Seq<char>) -> Option<
    (Seq<Seq<char>>, Seq<Seq<char>>),
> {
    if importers.has(id) {
        Some((importers.at(id).specifiers.keys(), importers.at(id).specifiers.str_vals()))
    } else {
        None
    }
}

pub open spec fn package_added(old: Lockfile, new: Lockfile, k: Seq<char>) -> bool {
    new.packages.has(k) && !old.packages.has(k)
}

pub open spec fn package_changed(old: Lockfile, new: Lockfile, k: Seq<char>) -> bool {
    old.packages.has(k) && new.packages.has(k) && old.packages.at(k)@ != new.packages.at(k)@
}

pub open spec fn importer_changed(old: Lockfile, new: Lockfile, id: Seq<char>) -> bool {
    (old.importers.has(id) || new.importers.has(id)) && specifiers_of(old.importers, id)
        != specifiers_of(new.importers, id)
}

/// Whether the diff holds any package or importer change.
pub open spec fn diff_nonempty(d: LockfileDiff) -> bool {
    d.added@.len() > 0 || d.removed@.len() > 0 || d.changed@.len() > 0
        || d.importers_changed@.len() > 0
}

/// The keys of `new` that `old` lacks, as a set.
fn keys_missing_from<V, W>(new: &StrMap<V>, old: &StrMap<W>) -> (r: StrMap<bool>)
    ensures
        r.wf(),
        forall|q: Seq<char>| r.has(q) <==> (new.has(q) && !old.has(q)),
{
    let mut set: StrMap<bool> = StrMap::new();
    let n = new.len();
    let mut i: usize = 0;
    while i < n
        invariant
            set.wf(),
            new.wf(),
            n == new.keys().len(),
            i <= n,
            forall|q: Seq<char>|
                set.has(q) <==> (new.keys().take(i as int).contains(q) && !old.has(q)),
        decreases n - i,
    {
        let k = new.key_at(i);
        let present = old.contains_key(k);
        if !present {
            set.insert(owned(k), true);
        }
        proof {
            assert forall|q: Seq<char>|
                set.has(q) <==> (new.keys().take(i + 1).contains(q) && !old.has(q)) by {
                lemma_take_push_contains(new.keys(), i as int, q);
            }
        }
        i = i + 1;
    }
    proof {
        assert forall|q: Seq<char>| set.has(q) <==> (new.has(q) && !old.has(q)) by {
            lemma_take_all_contains(new.keys(), q);
            new.lemma_has_contains(q);
        }
    }
    set
}

impl Lockfile {
    /// Creates an empty lockfile of the current version.
    pub fn empty() -> (r: Self)
        ensures
            r.version == LOCKFILE_VERSION,
            r.save_remote_cache_urls,
            r.importers.keys().len() == 0,
            r.packages.keys().len() == 0,
            r.snapshots.keys().len() == 0,
            r.graph_hash is None,
    {
        Lockfile {
            version: LOCKFILE_VERSION,
            save_remote_cache_urls: true,
            importers: StrMap::new(),
            packages: StrMap::new(),
            snapshots: StrMap::new(),
            graph_hash: None,
        }
    }

    /// The packages added, removed and changed between `old` and `new`, and
    /// the importers whose specifiers differ; each list sorted.
    pub fn diff(old: &Lockfile, new: &Lockfile) -> (r: LockfileDiff)
        ensures
            lists_exactly(strs_view(r.added@), |k: Seq<char>| package_added(*old, *new, k)),
            lists_exactly(strs_view(r.removed@), |k: Seq<char>| package_added(*new, *old, k)),
            lists_exactly(strs_view(r.changed@), |k: Seq<char>| package_changed(*old, *new, k)),
            lists_exactly(
                strs_view(r.importers_changed@),
                |k: Seq<char>| importer_changed(*old, *new, k),
            ),
    {
        let added_set = keys_missing_from(&new.packages, &old.packages);
        let removed_set = keys_missing_from(&old.packages, &new.packages);

        let mut changed_set: StrMap<bool> = StrMap::new();
        let n = old.packages.len();
        let mut i: usize = 0;
        while i < n
            invariant
                changed_set.wf(),
                old.packages.wf(),
                n == old.packages.keys().len(),
                i <= n,
                forall|q: Seq<char>|
                    changed_set.has(q) <==> (old.packages.keys().take(i as int).contains(q)
                        && package_changed(*old, *new, q)),
            decreases n - i,
        {
            let k = old.packages.key_at(i);
            let ov = old.packages.value_at(i);
            proof {
                old.packages.lemma_index(k@, i as int);
            }
            match new.packages.get(k) {
                Some(nv) => {
                    if !package_lock_eq(ov, nv) {
                        changed_set.insert(owned(k), true);
                    }
                },
                None => {},
            }
            proof {
                assert forall|q: Seq<char>|
                    changed_set.has(q) <==> (old.packages.keys().take(i + 1).contains(q)
                        && package_changed(*old, *new, q)) by {
                    lemma_take_push_contains(old.packages.keys(), i as int, q);
                }
            }
            i = i + 1;
        }
        proof {
            assert forall|q: Seq<char>|
                changed_set.has(q) <==> package_changed(*old, *new, q) by {
                lemma_take_all_contains(old.packages.keys(), q);
                old.packages.lemma_has_contains(q);
            }
        }

        let mut imp_set: StrMap<bool> = StrMap::new();
        let m = old.importers.len();
        let mut i: usize = 0;
        while i < m
            invariant
                imp_set.wf(),
                old.importers.wf(),
                m == old.importers.keys().len(),
                i <= m,
                forall|q: Seq<char>|
                    imp_set.has(q) <==> (old.importers.keys().take(i as int).contains(q)
                        && importer_changed(*old, *new, q)),
            decreases m - i,
        {
            let id = old.importers.key_at(i);
            let oi = old.importers.value_at(i);
            proof {
                old.importers.lemma_index(id@, i as int);
            }
            match new.importers.get(id) {
                Some(ni) => {
                    if !oi.specifiers.same_entries(&ni.specifiers) {
                        imp_set.insert(owned(id), true);
                    }
                },
                None => {
                    imp_set.insert(owned(id), true);
                },
            }
            proof {
                assert forall|q: Seq<char>|
                    imp_set.has(q) <==> (old.importers.keys().take(i + 1).contains(q)
                        && importer_changed(*old, *new, q)) by {
                    lemma_take_push_contains(old.importers.keys(), i as int, q);
                }
            }
            i = i + 1;
        }
        proof {
            assert forall|q: Seq<char>|
                imp_set.has(q) <==> (old.importers.has(q) && importer_changed(*old, *new, q)) by {
                lemma_take_all_contains(old.importers.keys(), q);
                old.importers.lemma_has_contains(q);
            }
        }
        let p = new.importers.len();
        let mut j: usize = 0;
        while j < p
            invariant
                imp_set.wf(),
                new.importers.wf(),
                p == new.importers.keys().len(),
                j <= p,
                forall|q: Seq<char>|
                    imp_set.has(q) <==> ((old.importers.has(q) && importer_changed(*old, *new, q))
                        || (new.importers.keys().take(j as int).contains(q)
                        && !old.importers.has(q))),
            decreases p - j,
        {
            let id = new.importers.key_at(j);
            if !old.importers.contains_key(id) {
                imp_set.insert(owned(id), true);
            }
            proof {
                assert forall|q: Seq<char>|
                    imp_set.has(q) <==> ((old.importers.has(q) && importer_changed(*old, *new, q))
                        || (new.importers.keys().take(j + 1).contains(q)
                        && !old.importers.has(q))) by {
                    lemma_take_push_contains(new.importers.keys(), j as int, q);
                }
            }
            j = j + 1;
        }
        proof {
            assert forall|q: Seq<char>| imp_set.has(q) <==> importer_changed(*old, *new, q) by {
                lemma_take_all_contains(new.importers.keys(), q);
                new.importers.lemma_has_contains(q);
            }
        }
        let added = added_set.keys_vec();
        let removed = removed_set.keys_vec();
        let changed = changed_set.keys_vec();
        let importers_changed = imp_set.keys_vec();
        proof {
            assert forall|q: Seq<char>| strs_view(added@).contains(q) <==> package_added(*old, *new, q) by {
                added_set.lemma_has_contains(q);
            }
            assert forall|q: Seq<char>| strs_view(removed@).contains(q) <==> package_added(*new, *old, q) by {
                removed_set.lemma_has_contains(q);
            }
            assert forall|q: Seq<char>| strs_view(changed@).contains(q) <==> package_changed(*old, *new, q) by {
                changed_set.lemma_has_contains(q);
            }
            assert forall|q: Seq<char>| strs_view(importers_changed@).contains(q) <==> importer_changed(*old, *new, q) by {
                imp_set.lemma_has_contains(q);
            }
        }

        LockfileDiff { added, removed, changed, importers_changed }
    }

    /// Whether the diff holds any package or importer change.
    pub fn diff_has_changes(diff: &LockfileDiff) -> (r: bool)
        ensures
            r == diff_nonempty(*diff),
    {
        !diff.added.is_empty() || !diff.removed.is_empty() || !diff.changed.is_empty()
            || !diff.importers_changed.is_empty()
    }
}

impl Default for ImporterLock {
    fn default() -> (r: Self)
        ensures
            r.dependencies.keys().len() == 0,
            r.dev_dependencies.keys().len() == 0,
            r.optional_dependencies.keys().len() == 0,
            r.specifiers.keys().len() == 0,
    {
        ImporterLock {
            dependencies: StrMap::new(),
            dev_dependencies: StrMap::new(),
            optional_dependencies: StrMap::new(),
            specifiers: StrMap::new(),
        }
    }
}

impl Default for SnapshotLock {
    fn default() -> (r: Self)
        ensures
            r.dependencies.keys().len() == 0,
            r.optional_dependencies.keys().len() == 0,
            r.peer_dependencies.keys().len() == 0,
            r.peer_context.keys().len() == 0,
    {
        SnapshotLock {
            dependencies: StrMap::new(),
            optional_dependencies: StrMap::new(),
            peer_dependencies: StrMap::new(),
            peer_context: StrMap::new(),
        }
    }
}

/// Why a lockfile does not fit a manifest.
#[derive(Debug, Clone, PartialEq, Eq)]
pub enum LockfileError {
    /// The lockfile was written by another format version.
    UnsupportedVersion(i32),
    /// The importer has no entry in the lockfile.
    MissingImporter(String),
    /// A declared dependency is not in the lockfile.
    NotLocked { name: String, group: String, importer: String },
    /// The locked specifier differs from the declared one.
    SpecifierChanged { name: String, locked: String, declared: String },
    /// A locked dependency is not declared in the manifest.
    NotDeclared { name: String, group: String, importer: String },
    /// A package key without an `@` before its version.
    InvalidPackageKey(String),
    /// A package key whose version is not a valid semantic version.
    InvalidVersion(String),
}

/// The declared dependency at position `i` is missing from, or locked with
/// another specifier in, `locked`.
pub open spec fn declared_fault(declared: StrMap<String>, locked: StrMap<ResolvedDep>, i: int) -> bool {
    let name = declared.keys()[i];
    !locked.has(name) || locked.at(name).specifier@ != declared.str_vals()[i]
}

/// `i` is the first faulty declared position.
pub open spec fn first_declared_fault(declared: StrMap<String>, locked: StrMap<ResolvedDep>, i: int) -> bool {
    &&& 0 <= i < declared.keys().len()
    &&& declared_fault(declared, locked, i)
    &&& forall|j: int| 0 <= j < i ==> !declared_fault(declared, locked, j)
}

/// `t` is the first locked position that is not declared.
pub open spec fn first_undeclared(declared: StrMap<String>, locked: StrMap<ResolvedDep>, t: int) -> bool {
    &&& 0 <= t < locked.keys().len()
    &&& !declared.has(locked.keys()[t])
    &&& forall|j: int| 0 <= j < t ==> declared.has(#[trigger] locked.keys()[j])
}

/// The outcome of checking one dependency group, as the original checks it:
/// declared entries in key order first, then locked entries in key order.
pub open spec fn group_outcome(
    group: Seq<char>,
    declared: StrMap<String>,
    locked: StrMap<ResolvedDep>,
    importer: Seq<char>,
    r: Result<(), LockfileError>,
) -> bool {
    match r {
        Ok(()) => (forall|i: int| 0 <= i < declared.keys().len() ==> !declared_fault(declared, locked, i))
            && (forall|k: Seq<char>| locked.has(k) ==> declared.has(k)),
        Err(LockfileError::NotLocked { name, group: g, importer: imp }) => exists|i: int|
            first_declared_fault(declared, locked, i) && !locked.has(declared.keys()[i])
                && name@ == declared.keys()[i] && g@ == group && imp@ == importer,
        Err(LockfileError::SpecifierChanged { name, locked: l, declared: d }) => exists|i: int|
            first_declared_fault(declared, locked, i) && locked.has(declared.keys()[i])
                && name@ == declared.keys()[i] && l@ == locked.at(declared.keys()[i]).specifier@
                && d@ == declared.str_vals()[i],
        Err(LockfileError::NotDeclared { name, group: g, importer: imp }) =>
            (forall|i: int| 0 <= i < declared.keys().len() ==> !declared_fault(declared, locked, i))
            && exists|t: int| first_undeclared(declared, locked, t) && name@ == locked.keys()[t]
                && g@ == group && imp@ == importer,
        Err(_) => false,
    }
}

/// Checks that `locked` holds exactly the declared dependencies, each with
/// the declared specifier.
pub fn validate_dependency_group(
    group_name: &str,
    manifest_deps: &StrMap<String>,
    locked_deps: &StrMap<ResolvedDep>,
    importer_id: &str,
) -> (r: Result<(), LockfileError>)
    ensures
        group_outcome(group_name@, *manifest_deps, *locked_deps, importer_id@, r),
{
    let n = manifest_deps.len();
    let mut i: usize = 0;
    while i < n
        invariant
            manifest_deps.wf(),
            n == manifest_deps.keys().len(),
            i <= n,
            forall|j: int| 0 <= j < i ==> !declared_fault(*manifest_deps, *locked_deps, j),
        decreases n - i,
    {
        let name = manifest_deps.key_at(i);
        let constraint = manifest_deps.value_at(i);
        match locked_deps.get(name) {
            None => {
                return Err(
                    LockfileError::NotLocked {
                        name: owned(name),
                        group: owned(group_name),
                        importer: owned(importer_id),
                    },
                );
            },
            Some(locked) => {
                if !str_eq(locked.specifier.as_str(), constraint.as_str()) {
                    proof {
                        assert(manifest_deps.str_vals()[i as int] == constraint@);
                    }
                    return Err(
                        LockfileError::SpecifierChanged {
                            name: owned(name),
                            locked: owned(locked.specifier.as_str()),
                            declared: owned(constraint.as_str()),
                        },
                    );
                }
            },
        }
        i = i + 1;
    }
    let m = locked_deps.len();
    let mut t: usize = 0;
    while t < m
        invariant
            locked_deps.wf(),
            m == locked_deps.keys().len(),
            t <= m,
            forall|j: int| 0 <= j < n ==> !declared_fault(*manifest_deps, *locked_deps, j),
            n == manifest_deps.keys().len(),
            forall|j: int| 0 <= j < t ==> manifest_deps.has(#[trigger] locked_deps.keys()[j]),
        decreases m - t,
    {
        let name = locked_deps.key_at(t);
        if !manifest_deps.contains_key(name) {
            proof {
                assert(first_undeclared(*manifest_deps, *locked_deps, t as int));
            }
            return Err(
                LockfileError::NotDeclared {
                    name: owned(name),
                    group: owned(group_name),
                    importer: owned(importer_id),
                },
            );
        }
        t = t + 1;
    }
    proof {
        assert forall|k: Seq<char>| locked_deps.has(k) implies manifest_deps.has(k) by {
            let j = choose|j: int| 0 <= j < locked_deps.keys().len() && locked_deps.keys()[j] == k;
        }
    }
    Ok(())
}

/// The names the three dependency groups are reported under.
pub open spec fn deps_group_chars() -> Seq<char> {
    seq!['d', 'e', 'p', 'e', 'n', 'd', 'e', 'n', 'c', 'i', 'e', 's']
}

pub open spec fn dev_group_chars() -> Seq<char> {
    seq!['d', 'e', 'v', 'D', 'e', 'p', 'e', 'n', 'd', 'e', 'n', 'c', 'i', 'e', 's']
}

pub open spec fn optional_group_chars() -> Seq<char> {
    seq![
        'o', 'p', 't', 'i', 'o', 'n', 'a', 'l', 'D', 'e', 'p', 'e', 'n', 'd', 'e', 'n', 'c',
        'i', 'e', 's',
    ]
}

/// The outcome of `validate_frozen`: version, importer, then the three
/// groups in order, stopping at the first error.
pub open spec fn frozen_outcome(lf: Lockfile, m: Manifest, importer: Seq<char>, r: Result<(), LockfileError>) -> bool {
    if lf.version != LOCKFILE_VERSION {
        r == Err::<(), LockfileError>(LockfileError::UnsupportedVersion(lf.version))
    } else if !lf.importers.has(importer) {
        r matches Err(LockfileError::MissingImporter(id)) && id@ == importer
    } else {
        let imp = lf.importers.at(importer);
        exists|r1: Result<(), LockfileError>|
            #[trigger] group_outcome(deps_group_chars(), m.dependencies, imp.dependencies, importer, r1)
                && (r1 is Err ==> r == r1) && (r1 is Ok ==> exists|r2: Result<(), LockfileError>|
                #[trigger] group_outcome(dev_group_chars(), m.dev_dependencies, imp.dev_dependencies, importer, r2)
                    && (r2 is Err ==> r == r2) && (r2 is Ok ==> group_outcome(
                    optional_group_chars(),
                    m.optional_dependencies,
                    imp.optional_dependencies,
                    importer,
                    r,
                )))
    }
}

impl Lockfile {
    /// Checks that the lockfile is of the current version and locks exactly
    /// the manifest's dependency specifiers for `importer_id`.
    pub fn validate_frozen(&self, manifest: &Manifest, importer_id: &str) -> (r: Result<(), LockfileError>)
        ensures
            frozen_outcome(*self, *manifest, importer_id@, r),
    {
        if self.version != LOCKFILE_VERSION {
            return Err(LockfileError::UnsupportedVersion(self.version));
        }
        let importer = match self.importers.get(importer_id) {
            Some(imp) => imp,
            None => {
                return Err(LockfileError::MissingImporter(owned(importer_id)));
            },
        };
        let deps = "dependencies";
        let dev = "devDependencies";
        let optional = "optionalDependencies";
        proof {
            reveal_strlit("dependencies");
            reveal_strlit("devDependencies");
            reveal_strlit("optionalDependencies");
            assert(deps@ =~= deps_group_chars());
            assert(dev@ =~= dev_group_chars());
            assert(optional@ =~= optional_group_chars());
        }
        let r1 = validate_dependency_group(deps, &manifest.dependencies, &importer.dependencies, importer_id);
        if r1.is_err() {
            return r1;
        }
        let r2 = validate_dependency_group(dev, &manifest.dev_dependencies, &importer.dev_dependencies, importer_id);
        if r2.is_err() {
            return r2;
        }
        let r3 = validate_dependency_group(
            optional,
            &manifest.optional_dependencies,
            &importer.optional_dependencies,
            importer_id,
        );
        r3
    }

    /// Checks only that the lockfile is of the current version and has an
    /// entry for `importer_id`; the manifest's specifiers are not compared.
    pub fn validate(&self, _manifest: &Manifest, importer_id: &str) -> (r: Result<(), LockfileError>)
        ensures
            self.version != LOCKFILE_VERSION ==> r == Err::<(), LockfileError>(
                LockfileError::UnsupportedVersion(self.version),
            ),
            self.version == LOCKFILE_VERSION && self.importers.has(importer_id@) ==> r is Ok,
            self.version == LOCKFILE_VERSION && !self.importers.has(importer_id@) ==> (r matches Err(
                LockfileError::MissingImporter(id),
            ) && id@ == importer_id@),
    {
        if self.version != LOCKFILE_VERSION {
            return Err(LockfileError::UnsupportedVersion(self.version));
        }
        if self.importers.contains_key(importer_id) {
            Ok(())
        } else {
            Err(LockfileError::MissingImporter(owned(importer_id)))
        }
    }
}

/// A package key split at its last `@` (leading `/` dropped).
pub open spec fn key_parts(k: Seq<char>) -> Option<(Seq<char>, Seq<char>)> {
    let t = trim_start_char_spec(k, '/');
    match rfind_spec(t, '@') {
        Some(at) => Some((t.take(at), t.skip(at + 1))),
        None => None,
    }
}

/// The name and version a package key stands for, if its version parses.
pub open spec fn key_id(k: Seq<char>) -> Option<(Seq<char>, VersionView)> {
    match key_parts(k) {
        Some((n, v)) => match semver_parse(strip_v(v)) {
            Some(x) => Some((n, x)),
            None => None,
        },
        None => None,
    }
}

/// The error reported for a package key that does not stand for an id.
pub open spec fn key_error(k: Seq<char>, e: LockfileError) -> bool {
    match key_parts(k) {
        None => e matches LockfileError::InvalidPackageKey(t) && t@ == trim_start_char_spec(k, '/'),
        Some((_n, v)) => e matches LockfileError::InvalidVersion(t) && t@ == v,
    }
}

impl Lockfile {
    /// The package IDs of the package keys, in key order; the first key that
    /// is not `name@version` with a valid version is reported.
    pub fn package_ids(&self) -> (r: Result<Vec<PackageId>, LockfileError>)
        ensures
            package_ids_outcome(self.packages.keys(), r),
    {
        let n = self.packages.len();
        let mut ids: Vec<PackageId> = Vec::new();
        let mut i: usize = 0;
        while i < n
            invariant
                self.packages.wf(),
                n == self.packages.keys().len(),
                i <= n,
                ids@.len() == i,
                forall|j: int|
                    0 <= j < i ==> key_id(self.packages.keys()[j]) == Some(
                        ((#[trigger] ids@[j]).name@, ids@[j].version@),
                    ),
            decreases n - i,
        {
            let key = self.packages.key_at(i);
            let t = trim_start_char(key, '/');
            let tn = t.unicode_len();
            proof {
                assert forall|j: int| 0 <= j < i implies #[trigger] key_id(
                    self.packages.keys()[j],
                ) is Some by {
                    assert(key_id(self.packages.keys()[j]) == Some((ids@[j].name@, ids@[j].version@)));
                }
            }
            match rfind_char(t, '@') {
                None => {
                    return Err(LockfileError::InvalidPackageKey(owned(t)));
                },
                Some(at) => {
                    proof {
                        crate::text::lemma_rfind(t@, '@');
                    }
                    let name = slice(t, 0, at);
                    let ver = slice(t, at + 1, tn);
                    match Version::parse(ver) {
                        Some(v) => {
                            ids.push(PackageId::new(PackageName::new(owned(name)), v));
                        },
                        None => {
                            return Err(LockfileError::InvalidVersion(owned(ver)));
                        },
                    }
                },
            }
            i = i + 1;
        }
        Ok(ids)
    }
}

/// The message of a lockfile error.
pub open spec fn lockfile_error_text(e: LockfileError) -> Seq<char> {
    match e {
        LockfileError::UnsupportedVersion(v) => "Lockfile version "@ + crate::pnpm::signed_decimal(
            v as int,
        ) + " is not supported by this orix version (expected 4)"@,
        LockfileError::MissingImporter(id) => "Lockfile mismatch: importer '"@ + id@
            + "' is missing from lockfile"@,
        LockfileError::NotLocked { name, group, importer } => "Lockfile mismatch: '"@ + name@
            + "' is declared in "@ + group@ + " for importer '"@ + importer@
            + "' but not in lockfile"@,
        LockfileError::SpecifierChanged { name, locked, declared } => "Lockfile mismatch: '"@
            + name@ + "' specifier is '"@ + locked@ + "' in lockfile but '"@ + declared@
            + "' in package.json"@,
        LockfileError::NotDeclared { name, group, importer } => "Lockfile mismatch: '"@ + name@
            + "' exists in "@ + group@ + " for importer '"@ + importer@
            + "' but is not declared in package.json"@,
        LockfileError::InvalidPackageKey(k) => "invalid lockfile package key '"@ + k@ + "'"@,
        LockfileError::InvalidVersion(v) => "invalid version '"@ + v@ + "'"@,
    }
}

fn append_all(s: &mut String, parts: &[&str])
    ensures
        final(s)@ == old(s)@ + parts@.fold_left(Seq::<char>::empty(), |acc: Seq<char>, p: &str| acc + p@),
{
    let mut i: usize = 0;
    while i < parts.len()
        invariant
            i <= parts@.len(),
            s@ == old(s)@ + parts@.take(i as int).fold_left(Seq::<char>::empty(), |acc: Seq<char>, p: &str| acc + p@),
        decreases parts@.len() - i,
    {
        s.append(parts[i]);
        proof {
            let f = |acc: Seq<char>, p: &str| acc + p@;
            assert(parts@.take(i + 1).drop_last() =~= parts@.take(i as int));
            assert(parts@.take(i + 1).fold_left(Seq::<char>::empty(), f) == parts@.take(i as int).fold_left(Seq::<char>::empty(), f) + parts@[i as int]@);
        }
        i = i + 1;
    }
    proof {
        assert(parts@.take(i as int) =~= parts@);
    }
}

impl LockfileError {
    /// The error's message.
    pub fn message(&self) -> (r: String)
        ensures
            r@ == lockfile_error_text(*self),
    {
        let mut s = String::new();
        match self {
            LockfileError::UnsupportedVersion(v) => {
                let d = crate::pnpm::signed_decimal_string(*v as i64);
                append_all(&mut s, &["Lockfile version ", d.as_str(), " is not supported by this orix version (expected 4)"]);
            },
            LockfileError::MissingImporter(id) => {
                append_all(&mut s, &["Lockfile mismatch: importer '", id.as_str(), "' is missing from lockfile"]);
            },
            LockfileError::NotLocked { name, group, importer } => {
                append_all(&mut s, &["Lockfile mismatch: '", name.as_str(), "' is declared in ", group.as_str(), " for importer '", importer.as_str(), "' but not in lockfile"]);
            },
            LockfileError::SpecifierChanged { name, locked, declared } => {
                append_all(&mut s, &["Lockfile mismatch: '", name.as_str(), "' specifier is '", locked.as_str(), "' in lockfile but '", declared.as_str(), "' in package.json"]);
            },
            LockfileError::NotDeclared { name, group, importer } => {
                append_all(&mut s, &["Lockfile mismatch: '", name.as_str(), "' exists in ", group.as_str(), " for importer '", importer.as_str(), "' but is not declared in package.json"]);
            },
            LockfileError::InvalidPackageKey(k) => {
                append_all(&mut s, &["invalid lockfile package key '", k.as_str(), "'"]);
            },
            LockfileError::InvalidVersion(v) => {
                append_all(&mut s, &["invalid version '", v.as_str(), "'"]);
            },
        }
        proof {
            reveal_with_fuel(Seq::fold_left, 8);
        }
        s
    }
}

/// The outcome of listing the package IDs of the keys `keys`: one ID per
/// key, in order; or the error of the first key that stands for no ID.
pub open spec fn package_ids_outcome(keys: Seq<Seq<char>>, r: Result<Vec<PackageId>, LockfileError>) -> bool {
    match r {
        Ok(ids) => ids@.len() == keys.len() && forall|i: int|
            0 <= i < ids@.len() ==> key_id(keys[i]) == Some(((#[trigger] ids@[i]).name@, ids@[i].version@)),
        Err(e) => exists|i: int|
            0 <= i < keys.len() && key_id(keys[i]) is None && key_error(keys[i], e) && forall|j: int|
                0 <= j < i ==> #[trigger] key_id(keys[j]) is Some,
    }
}

/// Listing package IDs succeeds exactly when every key stands for an ID.
pub proof fn lemma_package_ids_law(keys: Seq<Seq<char>>, r: Result<Vec<PackageId>, LockfileError>)
    requires
        package_ids_outcome(keys, r),
    ensures
        r is Ok <==> forall|i: int| 0 <= i < keys.len() ==> #[trigger] key_id(keys[i]) is Some,
{
    if let Ok(ids) = r {
        assert forall|i: int| 0 <= i < keys.len() implies #[trigger] key_id(keys[i]) is Some by {
            assert(key_id(keys[i]) == Some((ids@[i].name@, ids@[i].version@)));
        }
    }
}

/// The report of a diff has changes exactly when the two lockfiles differ
/// in a package (added, removed or changed) or in an importer's
/// specifiers; so the diff of a lockfile with itself has none.
pub proof fn lemma_diff_has_changes_law(old: Lockfile, new: Lockfile, d: LockfileDiff)
    requires
        lists_exactly(strs_view(d.added@), |k: Seq<char>| package_added(old, new, k)),
        lists_exactly(strs_view(d.removed@), |k: Seq<char>| package_added(new, old, k)),
        lists_exactly(strs_view(d.changed@), |k: Seq<char>| package_changed(old, new, k)),
        lists_exactly(strs_view(d.importers_changed@), |k: Seq<char>| importer_changed(old, new, k)),
    ensures
        diff_nonempty(d) <==> exists|k: Seq<char>|
            package_added(old, new, k) || package_added(new, old, k) || package_changed(old, new, k)
                || importer_changed(old, new, k),
        old == new ==> !diff_nonempty(d),
{
    let a = strs_view(d.added@);
    let rm = strs_view(d.removed@);
    let c = strs_view(d.changed@);
    let im = strs_view(d.importers_changed@);
    if d.added@.len() > 0 {
        assert(a.contains(a[0]));
        assert(package_added(old, new, a[0]));
    }
    if d.removed@.len() > 0 {
        assert(rm.contains(rm[0]));
        assert(package_added(new, old, rm[0]));
    }
    if d.changed@.len() > 0 {
        assert(c.contains(c[0]));
        assert(package_changed(old, new, c[0]));
    }
    if d.importers_changed@.len() > 0 {
        assert(im.contains(im[0]));
        assert(importer_changed(old, new, im[0]));
    }
    if exists|k: Seq<char>|
        package_added(old, new, k) || package_added(new, old, k) || package_changed(old, new, k)
            || importer_changed(old, new, k) {
        let k = choose|k: Seq<char>|
            package_added(old, new, k) || package_added(new, old, k) || package_changed(old, new, k)
                || importer_changed(old, new, k);
        if package_added(old, new, k) {
            assert(a.contains(k));
        } else if package_added(new, old, k) {
            assert(rm.contains(k));
        } else if package_changed(old, new, k) {
            assert(c.contains(k));
        } else {
            assert(im.contains(k));
        }
    }
}

} // verus!
