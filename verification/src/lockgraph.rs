//! Between the lockfile and the dependency graph: building a graph from
//! locked packages, and writing a resolved graph into a lockfile.

use crate::graph::{key_same, lowercase_of, pkg_key, DependencyGraph, ResolvedPackage};
use crate::lockfile::{Lockfile, PackageLock};
use crate::name::PackageName;
use crate::package::PackageId;
use crate::strmap::StrMap;
use crate::strs::{copy_opt, copy_strs, opt_view, strs_view};
use crate::text::{owned, rfind_char, rfind_spec, slice, trim_start_char, trim_start_char_spec};
use crate::version::{semver_parse, strip_v, Version, VersionView};
use vstd::prelude::*;
use vstd::string::StrSliceExecFns;

verus! {

/// `(name, range)` pairs that list a string map's entries in key order.
pub open spec fn pairs_of(v: Seq<(PackageName, String)>, m: StrMap<String>) -> bool {
    &&& v.len() == m.keys().len()
    &&& forall|i: int| 0 <= i < v.len() ==> (#[trigger] v[i]).0@ == m.keys()[i] && v[i].1@ == m.str_vals()[i]
}

/// A string map's entries as `(name, range)` pairs, in key order.
fn dep_pairs(m: &StrMap<String>) -> (r: Vec<(PackageName, String)>)
    ensures
        pairs_of(r@, *m),
{
    let n = m.len();
    let mut out: Vec<(PackageName, String)> = Vec::new();
    let mut i: usize = 0;
    while i < n
        invariant
            m.wf(),
            n == m.keys().len(),
            i <= n,
            out@.len() == i,
            forall|j: int| 0 <= j < i ==> (#[trigger] out@[j]).0@ == m.keys()[j] && out@[j].1@ == m.str_vals()[j],
        decreases n - i,
    {
        let k = m.key_at(i);
        let v = m.value_at(i);
        out.push((PackageName::new(owned(k)), owned(v.as_str())));
        i = i + 1;
    }
    out
}

/// The name and version text of a package key: split at the last `@`
/// (leading `/` dropped); without an `@`, the whole key and no version.
pub open spec fn lock_key_parts(k: Seq<char>) -> (Seq<char>, Seq<char>) {
    let t = trim_start_char_spec(k, '/');
    match rfind_spec(t, '@') {
        Some(at) => (t.take(at), t.skip(at + 1)),
        None => (t, seq![]),
    }
}

/// The tarball URL of a locked package, if it has one.
pub open spec fn lock_tarball(pl: PackageLock) -> Option<Seq<char>> {
    match pl.resolution {
        Some(r) => opt_view(r.tarball),
        None => None,
    }
}

/// The identity a locked package enters the graph with: packages without a
/// tarball, or whose key's version does not parse, stay out.
pub open spec fn lock_entry_id(k: Seq<char>, pl: PackageLock) -> Option<(Seq<char>, VersionView)> {
    if lock_tarball(pl) is Some {
        match semver_parse(strip_v(lock_key_parts(k).1)) {
            Some(v) => Some((lock_key_parts(k).0, v)),
            None => None,
        }
    } else {
        None
    }
}

/// The identity key of a locked entry that enters the graph.
pub open spec fn lock_entry_key(k: Seq<char>, pl: PackageLock) -> (Seq<char>, VersionView) {
    let id = lock_entry_id(k, pl)->0;
    (lowercase_of(id.0), id.1)
}

/// `rp` is the graph package made of locked entry `(k, pl)`.
#[verifier::opaque]
pub open spec fn from_lock_entry(rp: ResolvedPackage, k: Seq<char>, pl: PackageLock) -> bool {
    &&& lock_entry_id(k, pl) == Some((rp.id.name@, rp.id.version@))
    &&& rp.integrity@ == (match opt_view(pl.integrity) {
        Some(s) => s,
        None => seq![],
    })
    &&& Some(rp.tarball@) == lock_tarball(pl)
    &&& pairs_of(rp.dependencies@, pl.dependencies)
    &&& rp.dev_dependencies@.len() == 0
    &&& pairs_of(rp.optional_dependencies@, pl.optional_dependencies)
    &&& pairs_of(rp.peer_dependencies@, pl.peer_dependencies)
    &&& opt_view(rp.engines) == opt_view(pl.engines)
    &&& strs_view(rp.os@) == (match pl.os {
        Some(v) => strs_view(v@),
        None => seq![],
    })
    &&& strs_view(rp.cpu@) == (match pl.cpu {
        Some(v) => strs_view(v@),
        None => seq![],
    })
    &&& strs_view(rp.depnodes@) == pl.dependencies.keys() + pl.optional_dependencies.keys()
        + pl.peer_dependencies.keys()
    &&& rp.patch is None
}

fn copy_or_empty(o: &Option<Vec<String>>) -> (r: Vec<String>)
    ensures
        strs_view(r@) == (match *o {
            Some(v) => strs_view(v@),
            None => seq![],
        }),
{
    match o {
        Some(v) => copy_strs(v),
        None => {
            let r: Vec<String> = Vec::new();
            proof {
                assert(strs_view(r@) =~= seq![]);
            }
            r
        },
    }
}

fn append_keys(out: &mut Vec<String>, m: &StrMap<String>)
    ensures
        strs_view(final(out)@) == strs_view(old(out)@) + m.keys(),
{
    let n = m.len();
    let mut i: usize = 0;
    while i < n
        invariant
            m.wf(),
            n == m.keys().len(),
            i <= n,
            strs_view(out@) == strs_view(old(out)@) + m.keys().take(i as int),
        decreases n - i,
    {
        let ghost before = out@;
        out.push(owned(m.key_at(i)));
        proof {
            assert(strs_view(out@) =~= strs_view(before).push(m.keys()[i as int]));
            assert(m.keys().take(i + 1) =~= m.keys().take(i as int).push(m.keys()[i as int]));
        }
        i = i + 1;
    }
    proof {
        assert(m.keys().take(n as int) =~= m.keys());
    }
}

/// The graph package of a locked entry, if it enters the graph.
fn package_from_lock_entry(k: &str, pl: &PackageLock) -> (r: Option<ResolvedPackage>)
    ensures
        match r {
            Some(rp) => from_lock_entry(rp, k@, *pl),
            None => lock_entry_id(k@, *pl) is None,
        },
{
    let tarball = match &pl.resolution {
        Some(res) => match &res.tarball {
            Some(t) => owned(t.as_str()),
            None => {
                return None;
            },
        },
        None => {
            return None;
        },
    };
    let integrity = match &pl.integrity {
        Some(s) => owned(s.as_str()),
        None => String::new(),
    };
    let t = trim_start_char(k, '/');
    let tn = t.unicode_len();
    let (name_str, ver_str): (&str, &str) = match rfind_char(t, '@') {
        Some(at) => {
            proof {
                crate::text::lemma_rfind(t@, '@');
            }
            (slice(t, 0, at), slice(t, at + 1, tn))
        },
        None => {
            let e = "";
            proof {
                reveal_strlit("");
                assert(e@ =~= seq![]);
            }
            (t, e)
        },
    };
    let version = match Version::parse(ver_str) {
        Some(v) => v,
        None => {
            return None;
        },
    };
    let id = PackageId::new(PackageName::new(owned(name_str)), version);
    let mut depnodes: Vec<String> = Vec::new();
    proof {
        assert(strs_view(depnodes@) =~= seq![]);
    }
    append_keys(&mut depnodes, &pl.dependencies);
    append_keys(&mut depnodes, &pl.optional_dependencies);
    append_keys(&mut depnodes, &pl.peer_dependencies);
    proof {
        assert(strs_view(depnodes@) =~= pl.dependencies.keys() + pl.optional_dependencies.keys()
            + pl.peer_dependencies.keys());
    }
    let rp = ResolvedPackage {
            id,
            integrity,
            tarball,
            dependencies: dep_pairs(&pl.dependencies),
            dev_dependencies: Vec::new(),
            optional_dependencies: dep_pairs(&pl.optional_dependencies),
            peer_dependencies: dep_pairs(&pl.peer_dependencies),
            engines: copy_opt(&pl.engines),
            os: copy_or_empty(&pl.os),
            cpu: copy_or_empty(&pl.cpu),
            depnodes,
            patch: None,
        };
    proof {
        reveal(from_lock_entry);
    }
    Some(rp)
}

/// A graph package's identity key is its entry's.
proof fn lemma_entry_key(rp: ResolvedPackage, k: Seq<char>, pl: PackageLock)
    requires
        from_lock_entry(rp, k, pl),
    ensures
        lock_entry_id(k, pl) is Some,
        pkg_key(rp) == lock_entry_key(k, pl),
{
    reveal(from_lock_entry);
}

/// `rp` is made of one of the first `i` entries.
pub open spec fn has_source(rp: ResolvedPackage, ks: Seq<Seq<char>>, vs: Seq<PackageLock>, i: int) -> bool {
    exists|t: int| 0 <= t < i && #[trigger] from_lock_entry(rp, ks[t], vs[t])
}

/// Some package of `ps` is made of entry `(k, v)`.
pub open spec fn in_graph(ps: Seq<ResolvedPackage>, k: Seq<char>, v: PackageLock) -> bool {
    exists|x: int| 0 <= x < ps.len() && #[trigger] from_lock_entry(ps[x], k, v)
}

/// Every graph package comes from one of the first `i` entries.
pub open spec fn from_entries(ps: Seq<ResolvedPackage>, ks: Seq<Seq<char>>, vs: Seq<PackageLock>, i: int) -> bool {
    forall|x: int| 0 <= x < ps.len() ==> #[trigger] has_source(ps[x], ks, vs, i)
}

/// Entry `t` enters the graph and no entry after it, up to `i`, has its
/// identity.
pub open spec fn survives(ks: Seq<Seq<char>>, vs: Seq<PackageLock>, t: int, i: int) -> bool {
    &&& lock_entry_id(ks[t], vs[t]) is Some
    &&& forall|j: int|
        t < j < i && lock_entry_id(ks[j], vs[j]) is Some ==> !key_same(
            #[trigger] lock_entry_key(ks[j], vs[j]),
            lock_entry_key(ks[t], vs[t]),
        )
}

/// Every surviving entry among the first `i` is in the graph.
pub open spec fn keeps_survivors(ps: Seq<ResolvedPackage>, ks: Seq<Seq<char>>, vs: Seq<PackageLock>, i: int) -> bool {
    forall|t: int| 0 <= t < i && #[trigger] survives(ks, vs, t, i) ==> in_graph(ps, ks[t], vs[t])
}

proof fn lemma_insert_step(
    before: Seq<ResolvedPackage>,
    after: Seq<ResolvedPackage>,
    p: ResolvedPackage,
    ks: Seq<Seq<char>>,
    vs: Seq<PackageLock>,
    i: int,
)
    requires
        0 <= i < ks.len(),
        ks.len() == vs.len(),
        crate::graph::inserted_into(before, p, after),
        from_lock_entry(p, ks[i], vs[i]),
        from_entries(before, ks, vs, i),
        keeps_survivors(before, ks, vs, i),
    ensures
        from_entries(after, ks, vs, i + 1),
        keeps_survivors(after, ks, vs, i + 1),
{
    lemma_entry_key(p, ks[i], vs[i]);
    let w = choose|w: int|
        0 <= w <= before.len() && ((w < before.len() && key_same(pkg_key(p), pkg_key(before[w]))
            && key_same(pkg_key(before[w]), pkg_key(p)) && after == before.update(w, p)) || ((
        forall|j: int| 0 <= j < before.len() ==> !key_same(pkg_key(p), #[trigger] pkg_key(before[j])))
            && after == before.insert(w, p)));
    let replaced = w < before.len() && after == before.update(w, p);
    assert forall|x: int| 0 <= x < after.len() implies #[trigger] has_source(after[x], ks, vs, i + 1) by {
        if x == w {
            assert(from_lock_entry(after[x], ks[i], vs[i]));
        } else {
            let y = if replaced || x < w {
                x
            } else {
                x - 1
            };
            assert(after[x] == before[y]);
            assert(has_source(before[y], ks, vs, i));
            let t = choose|t: int| 0 <= t < i && #[trigger] from_lock_entry(before[y], ks[t], vs[t]);
            assert(from_lock_entry(after[x], ks[t], vs[t]));
        }
    }
    assert forall|t: int| 0 <= t < i + 1 && #[trigger] survives(ks, vs, t, i + 1) implies in_graph(after, ks[t], vs[t]) by {
        if t == i {
            assert(from_lock_entry(after[w], ks[t], vs[t]));
        } else {
            assert(!key_same(lock_entry_key(ks[i], vs[i]), lock_entry_key(ks[t], vs[t])));
            assert(survives(ks, vs, t, i));
            assert(in_graph(before, ks[t], vs[t]));
            let x0 = choose|x0: int| 0 <= x0 < before.len() && #[trigger] from_lock_entry(before[x0], ks[t], vs[t]);
            lemma_entry_key(before[x0], ks[t], vs[t]);
            if replaced {
                if x0 == w {
                    assert(false);
                } else {
                    assert(after[x0] == before[x0]);
                }
            } else if x0 < w {
                assert(after[x0] == before[x0]);
            } else {
                assert(after[x0 + 1] == before[x0]);
            }
        }
    }
}

proof fn lemma_skip_step(ps: Seq<ResolvedPackage>, ks: Seq<Seq<char>>, vs: Seq<PackageLock>, i: int)
    requires
        0 <= i < ks.len(),
        ks.len() == vs.len(),
        lock_entry_id(ks[i], vs[i]) is None,
        from_entries(ps, ks, vs, i),
        keeps_survivors(ps, ks, vs, i),
    ensures
        from_entries(ps, ks, vs, i + 1),
        keeps_survivors(ps, ks, vs, i + 1),
{
    assert forall|x: int| 0 <= x < ps.len() implies #[trigger] has_source(ps[x], ks, vs, i + 1) by {
        assert(has_source(ps[x], ks, vs, i));
        let t = choose|t: int| 0 <= t < i && #[trigger] from_lock_entry(ps[x], ks[t], vs[t]);
        assert(0 <= t < i + 1 && from_lock_entry(ps[x], ks[t], vs[t]));
    }
    assert forall|t: int| 0 <= t < i + 1 && #[trigger] survives(ks, vs, t, i + 1) implies in_graph(ps, ks[t], vs[t]) by {
        assert(survives(ks, vs, t, i));
    }
}

/// Builds the dependency graph of a lockfile's packages section: each
/// package with a tarball and a parseable version, in key order (a later
/// entry of the same identity takes the place of an earlier one).
pub fn resolve_from_lockfile_packages(packages: &StrMap<PackageLock>) -> (g: DependencyGraph)
    ensures
        g.wf(),
        from_entries(g.packages_view(), packages.keys(), packages.vals(), packages.keys().len() as int),
        keeps_survivors(g.packages_view(), packages.keys(), packages.vals(), packages.keys().len() as int),
{
    let n = packages.len();
    let ghost ks = packages.keys();
    let ghost vs = packages.vals();
    let mut graph = DependencyGraph::new();
    let mut i: usize = 0;
    while i < n
        invariant
            packages.wf(),
            ks == packages.keys(),
            vs == packages.vals(),
            n == ks.len(),
            i <= n,
            graph.wf(),
            from_entries(graph.packages_view(), ks, vs, i as int),
            keeps_survivors(graph.packages_view(), ks, vs, i as int),
        decreases n - i,
    {
        let k = packages.key_at(i);
        let pl = packages.value_at(i);
        let ghost before = graph.packages_view();
        match package_from_lock_entry(k, pl) {
            Some(rp) => {
                let ghost p = rp;
                graph.insert(rp);
                proof {
                    lemma_insert_step(before, graph.packages_view(), p, ks, vs, i as int);
                }
            },
            None => {
                proof {
                    lemma_skip_step(before, ks, vs, i as int);
                }
            },
        }
        i = i + 1;
    }
    graph
}

} // verus!
