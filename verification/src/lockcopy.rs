//! Lockfile entries by value, and copies that keep them.

use crate::lockfile::{
    strmap_view, ImporterLock, Lockfile, PackageLock, PackageLockView, PackageResolution,
    ResolvedDep, SnapshotLock,
};
use crate::strmap::StrMap;
use crate::strs::{copy_opt, copy_opt_strs, opt_strs_view, opt_view};
use crate::text::owned;
use vstd::prelude::*;

verus! {

/// A resolved dependency by the characters of its fields.
pub struct ResolvedDepView {
    pub version: Seq<char>,
    pub specifier: Seq<char>,
    pub id: Option<Seq<char>>,
    pub dev: Option<bool>,
    pub optional: Option<bool>,
    pub engines: Option<Seq<char>>,
    pub os: Option<Seq<Seq<char>>>,
    pub cpu: Option<Seq<Seq<char>>>,
    pub dependencies: (Seq<Seq<char>>, Seq<Seq<char>>),
    pub optional_dependencies: (Seq<Seq<char>>, Seq<Seq<char>>),
    pub peer_dependencies: (Seq<Seq<char>>, Seq<Seq<char>>),
}

impl View for ResolvedDep {
    type V = ResolvedDepView;

    open spec fn view(&self) -> ResolvedDepView {
        ResolvedDepView {
            version: self.version@,
            specifier: self.specifier@,
            id: opt_view(self.id),
            dev: self.dev,
            optional: self.optional,
            engines: opt_view(self.engines),
            os: opt_strs_view(self.os),
            cpu: opt_strs_view(self.cpu),
            dependencies: strmap_view(self.dependencies),
            optional_dependencies: strmap_view(self.optional_dependencies),
            peer_dependencies: strmap_view(self.peer_dependencies),
        }
    }
}

/// A snapshot by its four maps.
pub struct SnapshotLockView {
    pub dependencies: (Seq<Seq<char>>, Seq<Seq<char>>),
    pub optional_dependencies: (Seq<Seq<char>>, Seq<Seq<char>>),
    pub peer_dependencies: (Seq<Seq<char>>, Seq<Seq<char>>),
    pub peer_context: (Seq<Seq<char>>, Seq<Seq<char>>),
}

impl View for SnapshotLock {
    type V = SnapshotLockView;

    open spec fn view(&self) -> SnapshotLockView {
        SnapshotLockView {
            dependencies: strmap_view(self.dependencies),
            optional_dependencies: strmap_view(self.optional_dependencies),
            peer_dependencies: strmap_view(self.peer_dependencies),
            peer_context: strmap_view(self.peer_context),
        }
    }
}

/// A map of resolved dependencies as a map of their views.
pub open spec fn deps_view(m: StrMap<ResolvedDep>) -> Map<Seq<char>, ResolvedDepView> {
    Map::new(|k: Seq<char>| m.has(k), |k: Seq<char>| m.at(k)@)
}

/// An importer by value.
pub struct ImporterLockView {
    pub dependencies: Map<Seq<char>, ResolvedDepView>,
    pub dev_dependencies: Map<Seq<char>, ResolvedDepView>,
    pub optional_dependencies: Map<Seq<char>, ResolvedDepView>,
    pub specifiers: (Seq<Seq<char>>, Seq<Seq<char>>),
}

impl View for ImporterLock {
    type V = ImporterLockView;

    open spec fn view(&self) -> ImporterLockView {
        ImporterLockView {
            dependencies: deps_view(self.dependencies),
            dev_dependencies: deps_view(self.dev_dependencies),
            optional_dependencies: deps_view(self.optional_dependencies),
            specifiers: strmap_view(self.specifiers),
        }
    }
}

pub fn copy_resolution(x: &PackageResolution) -> (r: PackageResolution)
    ensures
        r@ == x@,
{
    PackageResolution {
        tarball: copy_opt(&x.tarball),
        integrity: copy_opt(&x.integrity),
        resolution_type: copy_opt(&x.resolution_type),
        path: copy_opt(&x.path),
    }
}

pub fn copy_package_lock(x: &PackageLock) -> (r: PackageLock)
    ensures
        r@ == x@,
{
    let resolution = match &x.resolution {
        Some(res) => Some(copy_resolution(res)),
        None => None,
    };
    PackageLock {
        id: copy_opt(&x.id),
        local: copy_opt(&x.local),
        integrity: copy_opt(&x.integrity),
        name: copy_opt(&x.name),
        version: copy_opt(&x.version),
        resolution,
        dependencies: x.dependencies.copy(),
        optional_dependencies: x.optional_dependencies.copy(),
        peer_dependencies: x.peer_dependencies.copy(),
        engines: copy_opt(&x.engines),
        os: copy_opt_strs(&x.os),
        cpu: copy_opt_strs(&x.cpu),
    }
}

pub fn copy_resolved_dep(x: &ResolvedDep) -> (r: ResolvedDep)
    ensures
        r@ == x@,
{
    ResolvedDep {
        version: owned(x.version.as_str()),
        specifier: owned(x.specifier.as_str()),
        id: copy_opt(&x.id),
        dev: x.dev,
        optional: x.optional,
        engines: copy_opt(&x.engines),
        os: copy_opt_strs(&x.os),
        cpu: copy_opt_strs(&x.cpu),
        dependencies: x.dependencies.copy(),
        optional_dependencies: x.optional_dependencies.copy(),
        peer_dependencies: x.peer_dependencies.copy(),
    }
}

pub fn copy_snapshot(x: &SnapshotLock) -> (r: SnapshotLock)
    ensures
        r@ == x@,
{
    SnapshotLock {
        dependencies: x.dependencies.copy(),
        optional_dependencies: x.optional_dependencies.copy(),
        peer_dependencies: x.peer_dependencies.copy(),
        peer_context: x.peer_context.copy(),
    }
}

pub fn copy_deps(m: &StrMap<ResolvedDep>) -> (r: StrMap<ResolvedDep>)
    ensures
        deps_view(r) == deps_view(*m),
{
    let n = m.len();
    let mut out: StrMap<ResolvedDep> = StrMap::new();
    let mut i: usize = 0;
    while i < n
        invariant
            m.wf(),
            n == m.keys().len(),
            i <= n,
            forall|q: Seq<char>| out.has(q) <==> (m.has(q) && m.index_of(q) < i),
            forall|q: Seq<char>| out.has(q) ==> (#[trigger] out.at(q))@ == m.at(q)@,
        decreases n - i,
    {
        let k = m.key_at(i);
        proof {
            m.lemma_index(k@, i as int);
        }
        let v = copy_resolved_dep(m.value_at(i));
        out.insert(owned(k), v);
        proof {
            assert forall|q: Seq<char>| out.has(q) <==> (m.has(q) && m.index_of(q) < i + 1) by {
                if m.has(q) {
                    let t = choose|t: int| 0 <= t < m.keys().len() && m.keys()[t] == q;
                    m.lemma_index(q, t);
                }
            }
        }
        i = i + 1;
    }
    proof {
        assert forall|q: Seq<char>| out.has(q) <==> m.has(q) by {
            if m.has(q) {
                let t = choose|t: int| 0 <= t < m.keys().len() && m.keys()[t] == q;
                m.lemma_index(q, t);
            }
        }
        assert(deps_view(out) =~= deps_view(*m));
    }
    out
}

pub fn copy_importer(x: &ImporterLock) -> (r: ImporterLock)
    ensures
        r@ == x@,
{
    ImporterLock {
        dependencies: copy_deps(&x.dependencies),
        dev_dependencies: copy_deps(&x.dev_dependencies),
        optional_dependencies: copy_deps(&x.optional_dependencies),
        specifiers: x.specifiers.copy(),
    }
}

/// `out` holds the entries of `m`, each by an equal view.
pub open spec fn same_packages(out: StrMap<PackageLock>, m: StrMap<PackageLock>) -> bool {
    &&& forall|q: Seq<char>| out.has(q) <==> m.has(q)
    &&& forall|q: Seq<char>| out.has(q) ==> (#[trigger] out.at(q))@ == m.at(q)@
}

pub open spec fn same_snapshots(out: StrMap<SnapshotLock>, m: StrMap<SnapshotLock>) -> bool {
    &&& forall|q: Seq<char>| out.has(q) <==> m.has(q)
    &&& forall|q: Seq<char>| out.has(q) ==> (#[trigger] out.at(q))@ == m.at(q)@
}

pub open spec fn same_importers(out: StrMap<ImporterLock>, m: StrMap<ImporterLock>) -> bool {
    &&& forall|q: Seq<char>| out.has(q) <==> m.has(q)
    &&& forall|q: Seq<char>| out.has(q) ==> (#[trigger] out.at(q))@ == m.at(q)@
}

pub fn copy_packages(m: &StrMap<PackageLock>) -> (r: StrMap<PackageLock>)
    ensures
        r.wf(),
        same_packages(r, *m),
{
    let n = m.len();
    let mut out: StrMap<PackageLock> = StrMap::new();
    let mut i: usize = 0;
    while i < n
        invariant
            m.wf(),
            out.wf(),
            n == m.keys().len(),
            i <= n,
            forall|q: Seq<char>| out.has(q) <==> (m.has(q) && m.index_of(q) < i),
            forall|q: Seq<char>| out.has(q) ==> (#[trigger] out.at(q))@ == m.at(q)@,
        decreases n - i,
    {
        let k = m.key_at(i);
        proof {
            m.lemma_index(k@, i as int);
        }
        let v = copy_package_lock(m.value_at(i));
        out.insert(owned(k), v);
        proof {
            assert forall|q: Seq<char>| out.has(q) <==> (m.has(q) && m.index_of(q) < i + 1) by {
                if m.has(q) {
                    let t = choose|t: int| 0 <= t < m.keys().len() && m.keys()[t] == q;
                    m.lemma_index(q, t);
                }
            }
        }
        i = i + 1;
    }
    proof {
        assert forall|q: Seq<char>| out.has(q) <==> m.has(q) by {
            if m.has(q) {
                let t = choose|t: int| 0 <= t < m.keys().len() && m.keys()[t] == q;
                m.lemma_index(q, t);
            }
        }
    }
    out
}

pub fn copy_snapshots(m: &StrMap<SnapshotLock>) -> (r: StrMap<SnapshotLock>)
    ensures
        r.wf(),
        same_snapshots(r, *m),
{
    let n = m.len();
    let mut out: StrMap<SnapshotLock> = StrMap::new();
    let mut i: usize = 0;
    while i < n
        invariant
            m.wf(),
            out.wf(),
            n == m.keys().len(),
            i <= n,
            forall|q: Seq<char>| out.has(q) <==> (m.has(q) && m.index_of(q) < i),
            forall|q: Seq<char>| out.has(q) ==> (#[trigger] out.at(q))@ == m.at(q)@,
        decreases n - i,
    {
        let k = m.key_at(i);
        proof {
            m.lemma_index(k@, i as int);
        }
        let v = copy_snapshot(m.value_at(i));
        out.insert(owned(k), v);
        proof {
            assert forall|q: Seq<char>| out.has(q) <==> (m.has(q) && m.index_of(q) < i + 1) by {
                if m.has(q) {
                    let t = choose|t: int| 0 <= t < m.keys().len() && m.keys()[t] == q;
                    m.lemma_index(q, t);
                }
            }
        }
        i = i + 1;
    }
    proof {
        assert forall|q: Seq<char>| out.has(q) <==> m.has(q) by {
            if m.has(q) {
                let t = choose|t: int| 0 <= t < m.keys().len() && m.keys()[t] == q;
                m.lemma_index(q, t);
            }
        }
    }
    out
}

pub fn copy_importers(m: &StrMap<ImporterLock>) -> (r: StrMap<ImporterLock>)
    ensures
        r.wf(),
        same_importers(r, *m),
{
    let n = m.len();
    let mut out: StrMap<ImporterLock> = StrMap::new();
    let mut i: usize = 0;
    while i < n
        invariant
            m.wf(),
            out.wf(),
            n == m.keys().len(),
            i <= n,
            forall|q: Seq<char>| out.has(q) <==> (m.has(q) && m.index_of(q) < i),
            forall|q: Seq<char>| out.has(q) ==> (#[trigger] out.at(q))@ == m.at(q)@,
        decreases n - i,
    {
        let k = m.key_at(i);
        proof {
            m.lemma_index(k@, i as int);
        }
        let v = copy_importer(m.value_at(i));
        out.insert(owned(k), v);
        proof {
            assert forall|q: Seq<char>| out.has(q) <==> (m.has(q) && m.index_of(q) < i + 1) by {
                if m.has(q) {
                    let t = choose|t: int| 0 <= t < m.keys().len() && m.keys()[t] == q;
                    m.lemma_index(q, t);
                }
            }
        }
        i = i + 1;
    }
    proof {
        assert forall|q: Seq<char>| out.has(q) <==> m.has(q) by {
            if m.has(q) {
                let t = choose|t: int| 0 <= t < m.keys().len() && m.keys()[t] == q;
                m.lemma_index(q, t);
            }
        }
    }
    out
}

} // verus!
