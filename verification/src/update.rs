//! Writing a resolved dependency graph into a lockfile.

use crate::fetch::{hex_text, sha256_of};
use crate::graph::{keys_text, DependencyGraph, ResolvedPackage};
use crate::lockcopy::{
    copy_importers, copy_packages, copy_snapshots, same_importers, same_packages, same_snapshots,
    ResolvedDepView,
};
use crate::lockfile::{
    declared_fault, deps_group_chars, dev_group_chars, frozen_outcome, group_outcome,
    optional_group_chars, ImporterLock, Lockfile, LockfileError, PackageLock, PackageLockView,
    PackageResolution, PackageResolutionView, ResolvedDep, SnapshotLock, LOCKFILE_VERSION,
};
use crate::manifest::Manifest;
use crate::name::PackageName;
use crate::pnpm::non_empty_view;
use crate::strmap::StrMap;
use crate::strs::{copy_opt, copy_strs, opt_view, strs_view};
use crate::text::{cat, owned, str_eq};
use crate::version::{version_text, VersionView};
use vstd::prelude::*;

verus! {

/// The lockfile key of a package: `/<name>@<version>`.
pub open spec fn lock_key(name: Seq<char>, version: VersionView) -> Seq<char> {
    seq!['/'] + name + seq!['@'] + version_text(version)
}

pub open spec fn pkg_lock_key(p: ResolvedPackage) -> Seq<char> {
    lock_key(p.id.name@, p.id.version@)
}

/// The package entry the lockfile holds for a resolved package.
pub open spec fn lock_entry_of(p: ResolvedPackage) -> PackageLockView {
    let name = p.id.name@;
    let v = version_text(p.id.version@);
    PackageLockView {
        id: Some("registry.npmjs.org/"@ + name + "/"@ + v),
        local: None,
        integrity: Some(p.integrity@),
        name: Some(name),
        version: Some(v),
        resolution: Some(
            PackageResolutionView {
                tarball: Some(p.tarball@),
                integrity: Some(p.integrity@),
                resolution_type: None,
                path: None,
            },
        ),
        dependencies: (seq![], seq![]),
        optional_dependencies: (seq![], seq![]),
        peer_dependencies: (seq![], seq![]),
        engines: opt_view(p.engines),
        os: non_empty_view(p.os@),
        cpu: non_empty_view(p.cpu@),
    }
}

/// The last position of a pair named `n`, or -1 when there is none.
pub open spec fn last_pair(v: Seq<(PackageName, String)>, n: Seq<char>) -> int
    decreases v.len(),
{
    if v.len() == 0 {
        -1
    } else if v.last().0@ == n {
        v.len() - 1
    } else {
        last_pair(v.drop_last(), n)
    }
}

/// `m` maps each name of the pairs to the range of its last pair.
pub open spec fn map_of_pairs(m: StrMap<String>, v: Seq<(PackageName, String)>) -> bool {
    &&& forall|n: Seq<char>| m.has(n) <==> exists|i: int| 0 <= i < v.len() && (#[trigger] v[i]).0@ == n
    &&& forall|n: Seq<char>| m.has(n) ==> (#[trigger] m.at(n))@ == v[last_pair(v, n)].1@
}

/// The snapshot the lockfile holds for a resolved package.
pub open spec fn snapshot_of(s: SnapshotLock, p: ResolvedPackage) -> bool {
    &&& map_of_pairs(s.dependencies, p.dependencies@)
    &&& map_of_pairs(s.optional_dependencies, p.optional_dependencies@)
    &&& map_of_pairs(s.peer_dependencies, p.peer_dependencies@)
    &&& s.peer_context.keys().len() == 0
}

/// The last graph position whose lockfile key is `k`, or -1 when there is none.
pub open spec fn last_keyed(ps: Seq<ResolvedPackage>, k: Seq<char>) -> int
    decreases ps.len(),
{
    if ps.len() == 0 {
        -1
    } else if pkg_lock_key(ps.last()) == k {
        ps.len() - 1
    } else {
        last_keyed(ps.drop_last(), k)
    }
}

pub open spec fn keyed(ps: Seq<ResolvedPackage>, k: Seq<char>) -> bool {
    exists|i: int| 0 <= i < ps.len() && #[trigger] pkg_lock_key(ps[i]) == k
}

/// The first graph position of a package named `n`.
pub open spec fn first_named(ps: Seq<ResolvedPackage>, n: Seq<char>) -> int {
    choose|i: int| 0 <= i < ps.len() && ps[i].id.name@ == n && forall|t: int| 0 <= t < i ==> ps[t].id.name@ != n
}

pub open spec fn named(ps: Seq<ResolvedPackage>, n: Seq<char>) -> bool {
    exists|i: int| 0 <= i < ps.len() && (#[trigger] ps[i]).id.name@ == n
}

/// The importer entry of a declared dependency resolved to `version`.
pub open spec fn importer_dep_view(version: Seq<char>, specifier: Seq<char>) -> ResolvedDepView {
    ResolvedDepView {
        version,
        specifier,
        id: None,
        dev: None,
        optional: None,
        engines: None,
        os: None,
        cpu: None,
        dependencies: (seq![], seq![]),
        optional_dependencies: (seq![], seq![]),
        peer_dependencies: (seq![], seq![]),
    }
}

/// `out` locks the declared group `declared` against the graph: each
/// declared name that some package has, at the first such package's
/// version.
pub open spec fn locked_group(out: StrMap<ResolvedDep>, declared: StrMap<String>, ps: Seq<ResolvedPackage>) -> bool {
    &&& forall|n: Seq<char>| out.has(n) <==> (declared.has(n) && named(ps, n))
    &&& forall|n: Seq<char>|
        out.has(n) ==> (#[trigger] out.at(n))@ == importer_dep_view(
            version_text(ps[first_named(ps, n)].id.version@),
            declared.at(n)@,
        )
}

/// The specifiers of an importer: every declared name, the optional group
/// winning over the dev group, and that over the production group.
pub open spec fn all_specifiers(out: StrMap<String>, m: Manifest) -> bool {
    &&& forall|n: Seq<char>|
        out.has(n) <==> (m.dependencies.has(n) || m.dev_dependencies.has(n) || m.optional_dependencies.has(n))
    &&& forall|n: Seq<char>|
        out.has(n) ==> (#[trigger] out.at(n))@ == (if m.optional_dependencies.has(n) {
            m.optional_dependencies.at(n)@
        } else if m.dev_dependencies.has(n) {
            m.dev_dependencies.at(n)@
        } else {
            m.dependencies.at(n)@
        })
}

/// The importer `update` writes for a manifest and graph.
pub open spec fn updated_importer(imp: ImporterLock, m: Manifest, ps: Seq<ResolvedPackage>) -> bool {
    &&& all_specifiers(imp.specifiers, m)
    &&& locked_group(imp.dependencies, m.dependencies, ps)
    &&& locked_group(imp.dev_dependencies, m.dev_dependencies, ps)
    &&& locked_group(imp.optional_dependencies, m.optional_dependencies, ps)
}

/// The packages of `m` are those of `base` with every package of `ps`
/// written under its key, later packages winning.
pub open spec fn packages_written(
    m: StrMap<PackageLock>,
    base: StrMap<PackageLock>,
    ps: Seq<ResolvedPackage>,
) -> bool {
    &&& forall|k: Seq<char>| m.has(k) <==> (base.has(k) || keyed(ps, k))
    &&& forall|k: Seq<char>|
        keyed(ps, k) ==> (#[trigger] m.at(k))@ == lock_entry_of(ps[last_keyed(ps, k)])
    &&& forall|k: Seq<char>| !keyed(ps, k) && base.has(k) ==> (#[trigger] m.at(k))@ == base.at(k)@
}

/// The snapshots of `m` are those of `base` with a snapshot of every
/// package of `ps` written under its key, later packages winning.
pub open spec fn snapshots_written(
    m: StrMap<SnapshotLock>,
    base: StrMap<SnapshotLock>,
    ps: Seq<ResolvedPackage>,
) -> bool {
    &&& forall|k: Seq<char>| m.has(k) <==> (base.has(k) || keyed(ps, k))
    &&& forall|k: Seq<char>| keyed(ps, k) ==> snapshot_of(#[trigger] m.at(k), ps[last_keyed(ps, k)])
    &&& forall|k: Seq<char>| !keyed(ps, k) && base.has(k) ==> (#[trigger] m.at(k))@ == base.at(k)@
}

proof fn lemma_last_pair_step(v: Seq<(PackageName, String)>, i: int, n: Seq<char>)
    requires
        0 <= i < v.len(),
    ensures
        last_pair(v.take(i + 1), n) == (if v[i].0@ == n {
            i
        } else {
            last_pair(v.take(i), n)
        }),
{
    assert(v.take(i + 1).drop_last() =~= v.take(i));
    assert(v.take(i + 1).last() == v[i]);
}

/// The last position keyed `k` lies in the sequence exactly when some
/// package is keyed `k`.
pub proof fn lemma_last_keyed(ps: Seq<ResolvedPackage>, k: Seq<char>)
    ensures
        -1 <= last_keyed(ps, k) < ps.len(),
        keyed(ps, k) <==> last_keyed(ps, k) >= 0,
    decreases ps.len(),
{
    if ps.len() > 0 {
        let d = ps.drop_last();
        lemma_last_keyed(d, k);
        if keyed(ps, k) && pkg_lock_key(ps.last()) != k {
            let t = choose|t: int| 0 <= t < ps.len() && #[trigger] pkg_lock_key(ps[t]) == k;
            assert(t < d.len());
            assert(d[t] == ps[t]);
        }
        if keyed(d, k) {
            let t = choose|t: int| 0 <= t < d.len() && #[trigger] pkg_lock_key(d[t]) == k;
            assert(d[t] == ps[t]);
        }
        if pkg_lock_key(ps.last()) == k {
            assert(pkg_lock_key(ps[ps.len() - 1]) == k);
        }
    }
}

/// For every key some package has, its last position lies in the sequence.
proof fn lemma_keyed_in_range(ps: Seq<ResolvedPackage>)
    ensures
        forall|k: Seq<char>| #[trigger] keyed(ps, k) ==> 0 <= last_keyed(ps, k) < ps.len(),
{
    assert forall|k: Seq<char>| #[trigger] keyed(ps, k) implies 0 <= last_keyed(ps, k) < ps.len() by {
        lemma_last_keyed(ps, k);
    }
}

proof fn lemma_keyed_step(ps: Seq<ResolvedPackage>, x: int)
    requires
        0 <= x < ps.len(),
    ensures
        forall|k: Seq<char>|
            #![trigger keyed(ps.take(x + 1), k)]
            keyed(ps.take(x + 1), k) <==> (keyed(ps.take(x), k) || k == pkg_lock_key(ps[x])),
        forall|k: Seq<char>|
            #![trigger last_keyed(ps.take(x + 1), k)]
            last_keyed(ps.take(x + 1), k) == (if k == pkg_lock_key(ps[x]) {
                x
            } else {
                last_keyed(ps.take(x), k)
            }),
{
    let w = ps.take(x + 1);
    let u = ps.take(x);
    assert(w.drop_last() =~= u);
    assert(w.last() == ps[x]);
    assert forall|k: Seq<char>| keyed(w, k) <==> (keyed(u, k) || k == pkg_lock_key(ps[x])) by {
        if keyed(w, k) {
            let t = choose|t: int| 0 <= t < w.len() && #[trigger] pkg_lock_key(w[t]) == k;
            if t < x {
                assert(u[t] == w[t]);
            }
        }
        if keyed(u, k) {
            let t = choose|t: int| 0 <= t < u.len() && #[trigger] pkg_lock_key(u[t]) == k;
            assert(w[t] == u[t]);
        }
        if k == pkg_lock_key(ps[x]) {
            assert(pkg_lock_key(w[x]) == k);
        }
    }
}

proof fn lemma_packages_step(
    m: StrMap<PackageLock>,
    m2: StrMap<PackageLock>,
    base: StrMap<PackageLock>,
    ps: Seq<ResolvedPackage>,
    x: int,
)
    requires
        0 <= x < ps.len(),
        packages_written(m, base, ps.take(x)),
        m2.has(pkg_lock_key(ps[x])),
        m2.at(pkg_lock_key(ps[x]))@ == lock_entry_of(ps[x]),
        forall|q: Seq<char>| q != pkg_lock_key(ps[x]) ==> (m2.has(q) == m.has(q)),
        forall|q: Seq<char>| q != pkg_lock_key(ps[x]) && m.has(q) ==> m2.at(q) == m.at(q),
    ensures
        packages_written(m2, base, ps.take(x + 1)),
{
    let w = ps.take(x + 1);
    let u = ps.take(x);
    let kk = pkg_lock_key(ps[x]);
    lemma_keyed_step(ps, x);
    assert(w[x] == ps[x]);
    assert forall|k: Seq<char>| m2.has(k) <==> (base.has(k) || keyed(w, k)) by {
        if k != kk {
            assert(keyed(w, k) == keyed(u, k));
        }
    }
    lemma_keyed_in_range(u);
    assert forall|k: Seq<char>| keyed(w, k) implies (#[trigger] m2.at(k))@ == lock_entry_of(w[last_keyed(w, k)]) by {
        if k != kk {
            assert(keyed(u, k));
            assert(w[last_keyed(u, k)] == u[last_keyed(u, k)]);
        }
    }
    assert forall|k: Seq<char>| !keyed(w, k) && base.has(k) implies (#[trigger] m2.at(k))@ == base.at(k)@ by {
        assert(k != kk);
        assert(!keyed(u, k));
    }
}

proof fn lemma_snapshots_step(
    m: StrMap<SnapshotLock>,
    m2: StrMap<SnapshotLock>,
    base: StrMap<SnapshotLock>,
    ps: Seq<ResolvedPackage>,
    x: int,
)
    requires
        0 <= x < ps.len(),
        snapshots_written(m, base, ps.take(x)),
        m2.has(pkg_lock_key(ps[x])),
        snapshot_of(m2.at(pkg_lock_key(ps[x])), ps[x]),
        forall|q: Seq<char>| q != pkg_lock_key(ps[x]) ==> (m2.has(q) == m.has(q)),
        forall|q: Seq<char>| q != pkg_lock_key(ps[x]) && m.has(q) ==> m2.at(q) == m.at(q),
    ensures
        snapshots_written(m2, base, ps.take(x + 1)),
{
    let w = ps.take(x + 1);
    let u = ps.take(x);
    let kk = pkg_lock_key(ps[x]);
    lemma_keyed_step(ps, x);
    assert(w[x] == ps[x]);
    assert forall|k: Seq<char>| m2.has(k) <==> (base.has(k) || keyed(w, k)) by {
        if k != kk {
            assert(keyed(w, k) == keyed(u, k));
        }
    }
    lemma_keyed_in_range(u);
    assert forall|k: Seq<char>| keyed(w, k) implies snapshot_of(#[trigger] m2.at(k), w[last_keyed(w, k)]) by {
        if k != kk {
            assert(keyed(u, k));
            assert(w[last_keyed(u, k)] == u[last_keyed(u, k)]);
        }
    }
    assert forall|k: Seq<char>| !keyed(w, k) && base.has(k) implies (#[trigger] m2.at(k))@ == base.at(k)@ by {
        assert(k != kk);
        assert(!keyed(u, k));
    }
}

/// Copies every entry of `src` into `dst`, replacing values.
fn put_all(dst: &mut StrMap<String>, src: &StrMap<String>)
    ensures
        final(dst).wf(),
        forall|n: Seq<char>| #[trigger] final(dst).has(n) <==> (old(dst).has(n) || src.has(n)),
        forall|n: Seq<char>|
            final(dst).has(n) ==> (#[trigger] final(dst).at(n))@ == (if src.has(n) {
                src.at(n)@
            } else {
                old(dst).at(n)@
            }),
{
    let n = src.len();
    let _ = dst.len();
    let ghost d0 = *dst;
    let mut i: usize = 0;
    while i < n
        invariant
            src.wf(),
            dst.wf(),
            n == src.keys().len(),
            i <= n,
            forall|q: Seq<char>| dst.has(q) <==> (d0.has(q) || (src.has(q) && src.index_of(q) < i)),
            forall|q: Seq<char>|
                dst.has(q) ==> (#[trigger] dst.at(q))@ == (if src.has(q) && src.index_of(q) < i {
                    src.at(q)@
                } else {
                    d0.at(q)@
                }),
        decreases n - i,
    {
        let k = src.key_at(i);
        proof {
            src.lemma_index(k@, i as int);
        }
        dst.insert(owned(k), owned(src.value_at(i).as_str()));
        proof {
            assert forall|q: Seq<char>| src.has(q) && q != k@ implies (src.index_of(q) < i + 1 <==> src.index_of(q) < i) by {
                let t = choose|t: int| 0 <= t < src.keys().len() && src.keys()[t] == q;
                src.lemma_index(q, t);
            }
        }
        i = i + 1;
    }
    proof {
        assert forall|q: Seq<char>| src.has(q) implies src.index_of(q) < n by {
            let t = choose|t: int| 0 <= t < src.keys().len() && src.keys()[t] == q;
            src.lemma_index(q, t);
        }
    }
}

/// The first package named `name`, in graph order.
fn find_named(ps: &Vec<ResolvedPackage>, name: &str) -> (r: Option<usize>)
    ensures
        match r {
            Some(x) => x < ps@.len() && named(ps@, name@) && first_named(ps@, name@) == x,
            None => !named(ps@, name@),
        },
{
    let mut x: usize = 0;
    while x < ps.len()
        invariant
            x <= ps@.len(),
            forall|t: int| 0 <= t < x ==> ps@[t].id.name@ != name@,
        decreases ps@.len() - x,
    {
        if str_eq(ps[x].id.name.as_str(), name) {
            proof {
                let c = first_named(ps@, name@);
                assert(ps@[x as int].id.name@ == name@);
                assert(0 <= c < ps@.len() && ps@[c].id.name@ == name@ && forall|t: int| 0 <= t < c ==> ps@[t].id.name@ != name@);
                if c < x {
                } else if c > x {
                    assert(ps@[x as int].id.name@ != name@);
                }
            }
            return Some(x);
        }
        x = x + 1;
    }
    None
}

/// Locks one declared group against the graph's packages.
fn lock_group(declared: &StrMap<String>, ps: &Vec<ResolvedPackage>) -> (r: StrMap<ResolvedDep>)
    ensures
        r.wf(),
        locked_group(r, *declared, ps@),
{
    let n = declared.len();
    let mut out: StrMap<ResolvedDep> = StrMap::new();
    let mut i: usize = 0;
    while i < n
        invariant
            declared.wf(),
            out.wf(),
            n == declared.keys().len(),
            i <= n,
            forall|q: Seq<char>| out.has(q) <==> (declared.has(q) && declared.index_of(q) < i && named(ps@, q)),
            forall|q: Seq<char>|
                out.has(q) ==> (#[trigger] out.at(q))@ == importer_dep_view(
                    version_text(ps@[first_named(ps@, q)].id.version@),
                    declared.at(q)@,
                ),
        decreases n - i,
    {
        let name = declared.key_at(i);
        let raw = declared.value_at(i);
        proof {
            declared.lemma_index(name@, i as int);
        }
        match find_named(ps, name) {
            Some(x) => {
                let dep = ResolvedDep {
                    version: ps[x].id.version.to_text(),
                    specifier: owned(raw.as_str()),
                    id: None,
                    dev: None,
                    optional: None,
                    engines: None,
                    os: None,
                    cpu: None,
                    dependencies: StrMap::new(),
                    optional_dependencies: StrMap::new(),
                    peer_dependencies: StrMap::new(),
                };
                proof {
                    assert(dep.dependencies.keys() =~= seq![]);
                    assert(dep.dependencies.str_vals() =~= seq![]);
                    assert(dep.optional_dependencies.keys() =~= seq![]);
                    assert(dep.optional_dependencies.str_vals() =~= seq![]);
                    assert(dep.peer_dependencies.keys() =~= seq![]);
                    assert(dep.peer_dependencies.str_vals() =~= seq![]);
                }
                out.insert(owned(name), dep);
            },
            None => {},
        }
        proof {
            assert forall|q: Seq<char>| declared.has(q) && q != name@ implies (declared.index_of(q) < i + 1 <==> declared.index_of(q) < i) by {
                let t = choose|t: int| 0 <= t < declared.keys().len() && declared.keys()[t] == q;
                declared.lemma_index(q, t);
            }
        }
        i = i + 1;
    }
    proof {
        assert forall|q: Seq<char>| declared.has(q) implies declared.index_of(q) < n by {
            let t = choose|t: int| 0 <= t < declared.keys().len() && declared.keys()[t] == q;
            declared.lemma_index(q, t);
        }
    }
    out
}

/// The map of `(name, range)` pairs, later pairs winning.
fn map_from_pairs(v: &Vec<(PackageName, String)>) -> (r: StrMap<String>)
    ensures
        r.wf(),
        map_of_pairs(r, v@),
{
    let mut out: StrMap<String> = StrMap::new();
    let mut i: usize = 0;
    while i < v.len()
        invariant
            out.wf(),
            i <= v@.len(),
            forall|n: Seq<char>| out.has(n) <==> exists|t: int| 0 <= t < i && (#[trigger] v@[t]).0@ == n,
            forall|n: Seq<char>|
                out.has(n) ==> (#[trigger] out.at(n))@ == v@[last_pair(v@.take(i as int), n)].1@,
        decreases v@.len() - i,
    {
        out.insert(owned(v[i].0.as_str()), owned(v[i].1.as_str()));
        proof {
            let nm = v@[i as int].0@;
            assert forall|n: Seq<char>| out.has(n) <==> exists|t: int| 0 <= t < i + 1 && (#[trigger] v@[t]).0@ == n by {
                if n == nm {
                    assert(v@[i as int].0@ == n);
                }
            }
            assert forall|n: Seq<char>| out.has(n) implies (#[trigger] out.at(n))@ == v@[last_pair(v@.take(i + 1), n)].1@ by {
                lemma_last_pair_step(v@, i as int, n);
            }
        }
        i = i + 1;
    }
    proof {
        assert(v@.take(i as int) =~= v@);
    }
    out
}

/// The lockfile entry of a resolved package.
fn lock_entry(p: &ResolvedPackage) -> (r: PackageLock)
    ensures
        r@ == lock_entry_of(*p),
{
    let name = p.id.name.as_str();
    let v = p.id.version.to_text();
    let mut id = String::from_str("registry.npmjs.org/");
    id.append(name);
    id.append("/");
    id.append(v.as_str());
    let os = if p.os.len() == 0 {
        None
    } else {
        Some(copy_strs(&p.os))
    };
    let cpu = if p.cpu.len() == 0 {
        None
    } else {
        Some(copy_strs(&p.cpu))
    };
    let r = PackageLock {
        id: Some(id),
        local: None,
        integrity: Some(owned(p.integrity.as_str())),
        name: Some(owned(name)),
        version: Some(owned(v.as_str())),
        resolution: Some(
            PackageResolution {
                tarball: Some(owned(p.tarball.as_str())),
                integrity: Some(owned(p.integrity.as_str())),
                resolution_type: None,
                path: None,
            },
        ),
        dependencies: StrMap::new(),
        optional_dependencies: StrMap::new(),
        peer_dependencies: StrMap::new(),
        engines: copy_opt(&p.engines),
        os,
        cpu,
    };
    proof {
        assert(r.dependencies.keys() =~= seq![]);
        assert(r.dependencies.str_vals() =~= seq![]);
        assert(r.optional_dependencies.keys() =~= seq![]);
        assert(r.optional_dependencies.str_vals() =~= seq![]);
        assert(r.peer_dependencies.keys() =~= seq![]);
        assert(r.peer_dependencies.str_vals() =~= seq![]);
        assert(r@ =~= lock_entry_of(*p));
    }
    r
}

/// The lockfile key of a resolved package.
fn package_key(p: &ResolvedPackage) -> (r: String)
    ensures
        r@ == pkg_lock_key(*p),
{
    let mut s = cat("/", p.id.name.as_str());
    s.append("@");
    let v = p.id.version.to_text();
    s.append(v.as_str());
    proof {
        reveal_strlit("/");
        reveal_strlit("@");
        assert(s@ =~= pkg_lock_key(*p));
    }
    s
}

proof fn lemma_written_same_base(
    m: StrMap<PackageLock>,
    copy: StrMap<PackageLock>,
    base: StrMap<PackageLock>,
    ps: Seq<ResolvedPackage>,
)
    requires
        packages_written(m, copy, ps),
        same_packages(copy, base),
    ensures
        packages_written(m, base, ps),
{
    assert forall|k: Seq<char>| !keyed(ps, k) && base.has(k) implies (#[trigger] m.at(k))@ == base.at(k)@ by {
        assert(copy.has(k));
    }
}

proof fn lemma_snapshots_same_base(
    m: StrMap<SnapshotLock>,
    copy: StrMap<SnapshotLock>,
    base: StrMap<SnapshotLock>,
    ps: Seq<ResolvedPackage>,
)
    requires
        snapshots_written(m, copy, ps),
        same_snapshots(copy, base),
    ensures
        snapshots_written(m, base, ps),
{
    assert forall|k: Seq<char>| !keyed(ps, k) && base.has(k) implies (#[trigger] m.at(k))@ == base.at(k)@ by {
        assert(copy.has(k));
    }
}

/// The specifiers of every declared dependency of a manifest.
fn specifiers_of(manifest: &Manifest) -> (r: StrMap<String>)
    ensures
        all_specifiers(r, *manifest),
{
    let mut specifiers: StrMap<String> = StrMap::new();
    let ghost s0 = specifiers;
    put_all(&mut specifiers, &manifest.dependencies);
    let ghost s1 = specifiers;
    put_all(&mut specifiers, &manifest.dev_dependencies);
    let ghost s2 = specifiers;
    put_all(&mut specifiers, &manifest.optional_dependencies);
    proof {
        let m = *manifest;
        assert forall|n: Seq<char>| !s0.has(n) by {}
        assert forall|n: Seq<char>|
            specifiers.has(n) <==> (m.dependencies.has(n) || m.dev_dependencies.has(n)
                || m.optional_dependencies.has(n)) by {
            assert(s1.has(n) <==> (s0.has(n) || m.dependencies.has(n)));
            assert(s2.has(n) <==> (s1.has(n) || m.dev_dependencies.has(n)));
            assert(specifiers.has(n) <==> (s2.has(n) || m.optional_dependencies.has(n)));
        }
        assert forall|n: Seq<char>| specifiers.has(n) implies (#[trigger] specifiers.at(n))@ == (if m.optional_dependencies.has(n) {
            m.optional_dependencies.at(n)@
        } else if m.dev_dependencies.has(n) {
            m.dev_dependencies.at(n)@
        } else {
            m.dependencies.at(n)@
        }) by {
            assert(s1.has(n) <==> (s0.has(n) || m.dependencies.has(n)));
            assert(s2.has(n) <==> (s1.has(n) || m.dev_dependencies.has(n)));
            if !m.optional_dependencies.has(n) {
                assert(s2.has(n));
                if !m.dev_dependencies.has(n) {
                    assert(s1.has(n));
                    assert(m.dependencies.has(n));
                }
            }
        }
    }
    specifiers
}

/// The importer entry for a manifest against the graph's packages.
fn importer_for(manifest: &Manifest, ps: &Vec<ResolvedPackage>) -> (r: ImporterLock)
    ensures
        updated_importer(r, *manifest, ps@),
{
    ImporterLock {
        dependencies: lock_group(&manifest.dependencies, ps),
        dev_dependencies: lock_group(&manifest.dev_dependencies, ps),
        optional_dependencies: lock_group(&manifest.optional_dependencies, ps),
        specifiers: specifiers_of(manifest),
    }
}

/// Writes every package of `ps`, and its snapshot, under its key.
fn write_packages(
    ps: &Vec<ResolvedPackage>,
    packages: &mut StrMap<PackageLock>,
    snapshots: &mut StrMap<SnapshotLock>,
)
    ensures
        packages_written(*final(packages), *old(packages), ps@),
        snapshots_written(*final(snapshots), *old(snapshots), ps@),
{
    let ghost p0 = *packages;
    let ghost s0 = *snapshots;
    let ghost pv = ps@;
    proof {
        assert(pv.take(0) =~= seq![]);
    }
    let mut x: usize = 0;
    while x < ps.len()
        invariant
            pv == ps@,
            x <= pv.len(),
            packages_written(*packages, p0, pv.take(x as int)),
            snapshots_written(*snapshots, s0, pv.take(x as int)),
        decreases pv.len() - x,
    {
        let p = &ps[x];
        let key = package_key(p);
        let entry = lock_entry(p);
        let snap = SnapshotLock {
            dependencies: map_from_pairs(&p.dependencies),
            optional_dependencies: map_from_pairs(&p.optional_dependencies),
            peer_dependencies: map_from_pairs(&p.peer_dependencies),
            peer_context: StrMap::new(),
        };
        let key2 = owned(key.as_str());
        let ghost m1 = *packages;
        let ghost s1 = *snapshots;
        packages.insert(key, entry);
        snapshots.insert(key2, snap);
        proof {
            lemma_packages_step(m1, *packages, p0, pv, x as int);
            lemma_snapshots_step(s1, *snapshots, s0, pv, x as int);
        }
        x = x + 1;
    }
    proof {
        assert(pv.take(pv.len() as int) =~= pv);
    }
}

impl Lockfile {
    /// The lockfile with `importer_id`'s entry rewritten from the manifest
    /// and the graph, and every graph package (and its snapshot) written
    /// under its key; the graph's hash recorded.
    pub fn update(&self, manifest: &Manifest, graph: &DependencyGraph, importer_id: &str) -> (r: Lockfile)
        ensures
            r.version == LOCKFILE_VERSION,
            r.save_remote_cache_urls == self.save_remote_cache_urls,
            r.importers.has(importer_id@),
            updated_importer(r.importers.at(importer_id@), *manifest, graph.packages_view()),
            forall|id: Seq<char>| id != importer_id@ ==> (r.importers.has(id) <==> self.importers.has(id)),
            forall|id: Seq<char>|
                id != importer_id@ && r.importers.has(id) ==> (#[trigger] r.importers.at(id))@
                    == self.importers.at(id)@,
            packages_written(r.packages, self.packages, graph.packages_view()),
            snapshots_written(r.snapshots, self.snapshots, graph.packages_view()),
            opt_view(r.graph_hash) == Some(
                hex_text(sha256_of(vstd::utf8::encode_utf8(keys_text(graph.packages_view())))),
            ),
    {
        let ps = graph.packages();
        let mut importers = copy_importers(&self.importers);
        let mut packages = copy_packages(&self.packages);
        let mut snapshots = copy_snapshots(&self.snapshots);
        let ghost p0 = packages;
        let ghost s0 = snapshots;
        importers.insert(owned(importer_id), importer_for(manifest, ps));
        write_packages(ps, &mut packages, &mut snapshots);
        proof {
            lemma_written_same_base(packages, p0, self.packages, ps@);
            lemma_snapshots_same_base(snapshots, s0, self.snapshots, ps@);
        }
        Lockfile {
            version: LOCKFILE_VERSION,
            save_remote_cache_urls: self.save_remote_cache_urls,
            importers,
            packages,
            snapshots,
            graph_hash: Some(graph.graph_hash()),
        }
    }
}

/// Every name `declared` holds is the name of a package of `ps`.
pub open spec fn all_named(declared: StrMap<String>, ps: Seq<ResolvedPackage>) -> bool {
    forall|n: Seq<char>| declared.has(n) ==> named(ps, n)
}

/// A group locked against the graph passes its check exactly when every
/// declared name is in the graph.
pub proof fn lemma_locked_group_outcome(
    out: StrMap<ResolvedDep>,
    declared: StrMap<String>,
    ps: Seq<ResolvedPackage>,
    group: Seq<char>,
    importer: Seq<char>,
    r: Result<(), LockfileError>,
)
    requires
        declared.wf(),
        locked_group(out, declared, ps),
    ensures
        all_named(declared, ps) ==> group_outcome(group, declared, out, importer, Ok(())),
        group_outcome(group, declared, out, importer, r) ==> (r is Ok <==> all_named(declared, ps)),
{
    assert forall|i: int| 0 <= i < declared.keys().len() implies (!declared_fault(declared, out, i)
        <==> named(ps, declared.keys()[i])) by {
        declared.lemma_index(declared.keys()[i], i);
    }
    if all_named(declared, ps) {
        assert forall|i: int| 0 <= i < declared.keys().len() implies !declared_fault(declared, out, i) by {
            declared.lemma_index(declared.keys()[i], i);
        }
    } else {
        let n = choose|n: Seq<char>| declared.has(n) && !named(ps, n);
        let i = choose|i: int| 0 <= i < declared.keys().len() && declared.keys()[i] == n;
        assert(declared_fault(declared, out, i));
    }
    if group_outcome(group, declared, out, importer, r) && r is Ok {
        assert forall|n: Seq<char>| declared.has(n) implies named(ps, n) by {
            let i = choose|i: int| 0 <= i < declared.keys().len() && declared.keys()[i] == n;
            assert(!declared_fault(declared, out, i));
        }
    }
}

/// A lockfile just updated from a manifest passes the frozen check against
/// that manifest exactly when the graph holds every declared dependency:
/// whatever the check answers is a success then, and a failure otherwise.
pub proof fn lemma_updated_lockfile_frozen(
    lf: Lockfile,
    m: Manifest,
    ps: Seq<ResolvedPackage>,
    importer: Seq<char>,
    r: Result<(), LockfileError>,
)
    requires
        m.dependencies.wf(),
        m.dev_dependencies.wf(),
        m.optional_dependencies.wf(),
        lf.version == LOCKFILE_VERSION,
        lf.importers.has(importer),
        updated_importer(lf.importers.at(importer), m, ps),
        frozen_outcome(lf, m, importer, r),
    ensures
        r is Ok <==> (all_named(m.dependencies, ps) && all_named(m.dev_dependencies, ps) && all_named(
            m.optional_dependencies,
            ps,
        )),
{
    let imp = lf.importers.at(importer);
    let r1 = choose|r1: Result<(), LockfileError>|
        #[trigger] group_outcome(deps_group_chars(), m.dependencies, imp.dependencies, importer, r1)
            && (r1 is Err ==> r == r1) && (r1 is Ok ==> exists|r2: Result<(), LockfileError>|
            #[trigger] group_outcome(dev_group_chars(), m.dev_dependencies, imp.dev_dependencies, importer, r2)
                && (r2 is Err ==> r == r2) && (r2 is Ok ==> group_outcome(
                optional_group_chars(),
                m.optional_dependencies,
                imp.optional_dependencies,
                importer,
                r,
            )));
    lemma_locked_group_outcome(imp.dependencies, m.dependencies, ps, deps_group_chars(), importer, r1);
    if r1 is Ok {
        let r2 = choose|r2: Result<(), LockfileError>|
            #[trigger] group_outcome(dev_group_chars(), m.dev_dependencies, imp.dev_dependencies, importer, r2)
                && (r2 is Err ==> r == r2) && (r2 is Ok ==> group_outcome(
                optional_group_chars(),
                m.optional_dependencies,
                imp.optional_dependencies,
                importer,
                r,
            ));
        lemma_locked_group_outcome(imp.dev_dependencies, m.dev_dependencies, ps, dev_group_chars(), importer, r2);
        if r2 is Ok {
            lemma_locked_group_outcome(
                imp.optional_dependencies,
                m.optional_dependencies,
                ps,
                optional_group_chars(),
                importer,
                r,
            );
        }
    }
}

} // verus!
