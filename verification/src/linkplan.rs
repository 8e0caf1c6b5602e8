//! The linker's decisions: which key a package name links to, which
//! dependency links a package gets, and which entries of an old layout are
//! stale.

use crate::graph::{DependencyGraph, ResolvedPackage};
use crate::constraint::{constraint_spec, ConstraintError, VersionConstraint};
use crate::link::{last_candidate, link_candidate, select_dependency_key};
use crate::name::PackageName;
use crate::package::id_key;
use crate::strmap::StrMap;
use crate::strs::strs_view;
use crate::text::{cat, owned, str_eq};
use vstd::prelude::*;

verus! {

/// Which names a name-to-key map takes: every name, or those a list holds.
pub struct NameFilter {
    pub all: bool,
    pub names: Seq<Seq<char>>,
}

pub open spec fn keeps_name(keep: NameFilter, n: Seq<char>) -> bool {
    keep.all || keep.names.contains(n)
}

/// The lockfile-style key of the package at position `i`.
pub open spec fn key_at(ps: Seq<ResolvedPackage>, i: int) -> Seq<char> {
    id_key(ps[i].id.name@, ps[i].id.version@)
}

/// The last position of a package named `n` (among those `keep` admits), or -1.
pub open spec fn last_named(ps: Seq<ResolvedPackage>, n: Seq<char>, keep: NameFilter) -> int
    decreases ps.len(),
{
    if ps.len() == 0 {
        -1
    } else if ps.last().id.name@ == n && keeps_name(keep, n) {
        ps.len() - 1
    } else {
        last_named(ps.drop_last(), n, keep)
    }
}

/// `m` maps each name of a package `keep` admits to the key of the last
/// such package in graph order.
pub open spec fn keys_by_name(m: StrMap<String>, ps: Seq<ResolvedPackage>, keep: NameFilter) -> bool {
    &&& forall|n: Seq<char>| #[trigger] m.has(n) <==> last_named(ps, n, keep) >= 0
    &&& forall|n: Seq<char>| m.has(n) ==> (#[trigger] m.at(n))@ == key_at(ps, last_named(ps, n, keep))
}

proof fn lemma_last_named_step(ps: Seq<ResolvedPackage>, i: int, n: Seq<char>, keep: NameFilter)
    requires
        0 <= i < ps.len(),
    ensures
        last_named(ps.take(i + 1), n, keep) == (if ps[i].id.name@ == n && keeps_name(keep, n) {
            i
        } else {
            last_named(ps.take(i), n, keep)
        }),
{
    assert(ps.take(i + 1).drop_last() =~= ps.take(i));
    assert(ps.take(i + 1).last() == ps[i]);
}

proof fn lemma_last_named_range(ps: Seq<ResolvedPackage>, n: Seq<char>, keep: NameFilter)
    ensures
        -1 <= last_named(ps, n, keep) < ps.len(),
    decreases ps.len(),
{
    if ps.len() > 0 {
        lemma_last_named_range(ps.drop_last(), n, keep);
    }
}

/// Whether `name` is among the texts of `v`.
fn contains_text(v: &Vec<String>, name: &str) -> (r: bool)
    ensures
        r == strs_view(v@).contains(name@),
{
    let mut i: usize = 0;
    while i < v.len()
        invariant
            i <= v@.len(),
            forall|t: int| 0 <= t < i ==> v@[t]@ != name@,
        decreases v@.len() - i,
    {
        if str_eq(v[i].as_str(), name) {
            proof {
                assert(strs_view(v@)[i as int] == name@);
            }
            return true;
        }
        i = i + 1;
    }
    proof {
        if strs_view(v@).contains(name@) {
            let t = choose|t: int| 0 <= t < strs_view(v@).len() && strs_view(v@)[t] == name@;
            assert(v@[t]@ == name@);
        }
    }
    false
}

/// The packages' keys by name, keeping every name when `all` holds, else
/// those `direct` holds; the last package of a name wins.
fn keys_by_name_from(graph: &DependencyGraph, all: bool, direct: &Vec<String>) -> (r: StrMap<String>)
    ensures
        keys_by_name(r, graph.packages_view(), NameFilter { all, names: strs_view(direct@) }),
{
    let ghost keep = NameFilter { all, names: strs_view(direct@) };
    let ps = graph.packages();
    let mut out: StrMap<String> = StrMap::new();
    let mut i: usize = 0;
    proof {
        assert(ps@.take(0) =~= Seq::<ResolvedPackage>::empty());
    }
    while i < ps.len()
        invariant
            i <= ps@.len(),
            ps@ == graph.packages_view(),
            keep == (NameFilter { all, names: strs_view(direct@) }),
            keys_by_name(out, ps@.take(i as int), keep),
        decreases ps@.len() - i,
    {
        let p = &ps[i];
        let take = all || contains_text(direct, p.id.name.as_str());
        let ghost before = out;
        if take {
            out.insert(owned(p.id.name.as_str()), p.id.key());
        }
        proof {
            let w = ps@.take(i + 1);
            let u = ps@.take(i as int);
            assert(w[i as int] == ps@[i as int]);
            assert forall|n: Seq<char>| #[trigger] out.has(n) <==> last_named(w, n, keep) >= 0 by {
                lemma_last_named_step(ps@, i as int, n, keep);
            }
            assert forall|n: Seq<char>| out.has(n) implies (#[trigger] out.at(n))@ == key_at(w, last_named(w, n, keep)) by {
                lemma_last_named_step(ps@, i as int, n, keep);
                if !(ps@[i as int].id.name@ == n && keeps_name(keep, n)) {
                    lemma_last_named_range(u, n, keep);
                    assert(w[last_named(u, n, keep)] == u[last_named(u, n, keep)]);
                }
            }
        }
        i = i + 1;
    }
    proof {
        assert(ps@.take(ps@.len() as int) =~= ps@);
    }
    out
}

/// Each package name of the graph with the key of the last package so named.
pub fn name_to_key(graph: &DependencyGraph) -> (r: StrMap<String>)
    ensures
        keys_by_name(r, graph.packages_view(), NameFilter { all: true, names: Seq::empty() }),
{
    let none: Vec<String> = Vec::new();
    proof {
        assert(strs_view(none@) =~= Seq::<Seq<char>>::empty());
    }
    keys_by_name_from(graph, true, &none)
}

/// The direct dependencies' names with the key of the last package so named.
pub fn direct_name_to_key(graph: &DependencyGraph, direct_deps: &Vec<String>) -> (r: StrMap<String>)
    ensures
        keys_by_name(r, graph.packages_view(), NameFilter { all: false, names: strs_view(direct_deps@) }),
{
    keys_by_name_from(graph, false, direct_deps)
}

/// `k` is the key of the last package matching the constraint `raw`
/// parses to, for a dependency named `name`.
pub open spec fn selected_key(ps: Seq<ResolvedPackage>, name: Seq<char>, raw: Seq<char>, k: Seq<char>) -> bool {
    exists|c: VersionConstraint|
        constraint_spec(raw, Ok(c)) && exists|i: int| last_candidate(ps, name, &c, i) && k == key_at(ps, i)
}

/// `raw` is no constraint, or no package named `name` matches it.
pub open spec fn nothing_selected(ps: Seq<ResolvedPackage>, name: Seq<char>, raw: Seq<char>) -> bool {
    ||| exists|e: ConstraintError| constraint_spec(raw, Err(e))
    ||| exists|c: VersionConstraint|
        constraint_spec(raw, Ok(c)) && forall|i: int|
            0 <= i < ps.len() ==> !link_candidate(#[trigger] ps[i], name, &c)
}

/// The key a package's dependency links to: the last package that matches
/// the dependency's constraint, else the last package of that name.
pub fn dependency_link_key(
    graph: &DependencyGraph,
    names: &StrMap<String>,
    dep_name: &PackageName,
    raw: &str,
) -> (r: Option<String>)
    ensures
        match r {
            Some(x) => selected_key(graph.packages_view(), dep_name@, raw@, x@) || (nothing_selected(
                graph.packages_view(),
                dep_name@,
                raw@,
            ) && names.has(dep_name@) && x@ == names.at(dep_name@)@),
            None => nothing_selected(graph.packages_view(), dep_name@, raw@) && !names.has(dep_name@),
        },
{
    match select_dependency_key(graph, dep_name, raw) {
        Some(k) => {
            proof {
                let ps = graph.packages_view();
                let c = choose|c: VersionConstraint|
                    constraint_spec(raw@, Ok(c)) && exists|i: int|
                        last_candidate(ps, dep_name@, &c, i) && k@ == id_key(ps[i].id.name@, ps[i].id.version@);
                let i = choose|i: int|
                    last_candidate(ps, dep_name@, &c, i) && k@ == id_key(ps[i].id.name@, ps[i].id.version@);
                assert(k@ == key_at(ps, i));
                assert(selected_key(ps, dep_name@, raw@, k@));
            }
            Some(k)
        },
        None => match names.get(dep_name.as_str()) {
            Some(k) => Some(owned(k.as_str())),
            None => None,
        },
    }
}

/// What [`dependency_link_key`] may give for a dependency `name` with
/// constraint text `raw`.
pub open spec fn link_key_ok(
    ps: Seq<ResolvedPackage>,
    names: StrMap<String>,
    name: Seq<char>,
    raw: Seq<char>,
    r: Option<Seq<char>>,
) -> bool {
    match r {
        Some(x) => selected_key(ps, name, raw, x) || (nothing_selected(ps, name, raw) && names.has(name)
            && x == names.at(name)@),
        None => nothing_selected(ps, name, raw) && !names.has(name),
    }
}

pub open spec fn opt_str_view(o: Option<String>) -> Option<Seq<char>> {
    match o {
        Some(s) => Some(s@),
        None => None,
    }
}

/// The dependencies a package links in its `node_modules`, in order:
/// regular, optional, then peer dependencies.
pub open spec fn link_requests(p: ResolvedPackage) -> Seq<(PackageName, String)> {
    p.dependencies@ + p.optional_dependencies@ + p.peer_dependencies@
}

/// The link key of each request of `reqs`, in order.
fn request_link_keys(
    graph: &DependencyGraph,
    names: &StrMap<String>,
    reqs: &Vec<(PackageName, String)>,
) -> (r: Vec<Option<String>>)
    ensures
        r@.len() == reqs@.len(),
        forall|j: int|
            0 <= j < r@.len() ==> link_key_ok(
                graph.packages_view(),
                *names,
                reqs@[j].0@,
                reqs@[j].1@,
                opt_str_view(#[trigger] r@[j]),
            ),
{
    let mut out: Vec<Option<String>> = Vec::new();
    let mut j: usize = 0;
    while j < reqs.len()
        invariant
            j <= reqs@.len(),
            out@.len() == j,
            forall|t: int|
                0 <= t < j ==> link_key_ok(
                    graph.packages_view(),
                    *names,
                    reqs@[t].0@,
                    reqs@[t].1@,
                    opt_str_view(#[trigger] out@[t]),
                ),
        decreases reqs@.len() - j,
    {
        let k = dependency_link_key(graph, names, &reqs[j].0, reqs[j].1.as_str());
        out.push(k);
        j = j + 1;
    }
    out
}

/// For each package of the graph, in order, the key each of its link
/// requests ([`link_requests`]) links to, or `None` where nothing does.
pub fn dependency_links(graph: &DependencyGraph, names: &StrMap<String>) -> (r: Vec<Vec<Option<String>>>)
    ensures
        r@.len() == graph.packages_view().len(),
        forall|i: int|
            0 <= i < r@.len() ==> (#[trigger] r@[i])@.len() == link_requests(graph.packages_view()[i]).len(),
        forall|i: int, j: int|
            0 <= i < r@.len() && 0 <= j < r@[i]@.len() ==> link_key_ok(
                graph.packages_view(),
                *names,
                link_requests(graph.packages_view()[i])[j].0@,
                link_requests(graph.packages_view()[i])[j].1@,
                opt_str_view(#[trigger] r@[i]@[j]),
            ),
{
    let pkgs = graph.packages();
    let ghost ps = graph.packages_view();
    let mut out: Vec<Vec<Option<String>>> = Vec::new();
    let mut i: usize = 0;
    while i < pkgs.len()
        invariant
            pkgs@ == ps,
            ps == graph.packages_view(),
            i <= ps.len(),
            out@.len() == i,
            forall|t: int| 0 <= t < i ==> (#[trigger] out@[t])@.len() == link_requests(ps[t]).len(),
            forall|t: int, j: int|
                0 <= t < i && 0 <= j < out@[t]@.len() ==> link_key_ok(
                    ps,
                    *names,
                    link_requests(ps[t])[j].0@,
                    link_requests(ps[t])[j].1@,
                    opt_str_view(#[trigger] out@[t]@[j]),
                ),
        decreases ps.len() - i,
    {
        let p = &pkgs[i];
        let mut keys = request_link_keys(graph, names, &p.dependencies);
        let mut opt = request_link_keys(graph, names, &p.optional_dependencies);
        let mut peer = request_link_keys(graph, names, &p.peer_dependencies);
        let ghost (a, b, c) = (keys@, opt@, peer@);
        keys.append(&mut opt);
        keys.append(&mut peer);
        proof {
            let reqs = link_requests(ps[i as int]);
            let (da, db, dc) = (p.dependencies@, p.optional_dependencies@, p.peer_dependencies@);
            assert(keys@ == a + b + c);
            assert(reqs == da + db + dc);
            assert forall|j: int| 0 <= j < keys@.len() implies link_key_ok(
                ps,
                *names,
                reqs[j].0@,
                reqs[j].1@,
                opt_str_view(#[trigger] keys@[j]),
            ) by {
                if j < da.len() {
                    assert(keys@[j] == a[j]);
                    assert(reqs[j] == da[j]);
                } else if j < da.len() + db.len() {
                    assert(keys@[j] == b[j - da.len()]);
                    assert(reqs[j] == db[j - da.len()]);
                } else {
                    assert(keys@[j] == c[j - da.len() - db.len()]);
                    assert(reqs[j] == dc[j - da.len() - db.len()]);
                }
            }
        }
        out.push(keys);
        i = i + 1;
    }
    out
}

/// Whether a package's bins are linked into the top-level `.bin`: when it is
/// the package its direct dependency name links to.
pub fn links_global_bins(direct: &StrMap<String>, pkg: &ResolvedPackage) -> (r: bool)
    ensures
        r == (direct.has(pkg.id.name@) && direct.at(pkg.id.name@)@ == id_key(pkg.id.name@, pkg.id.version@)),
{
    match direct.get(pkg.id.name.as_str()) {
        Some(k) => {
            let key = pkg.id.key();
            str_eq(k.as_str(), key.as_str())
        },
        None => false,
    }
}

/// The directory under `node_modules` that holds the virtual store.
pub const VIRTUAL_STORE_DIR: &'static str = ".orix";

/// The layout marker file inside the virtual store.
pub const METADATA_FILE: &'static str = "metadata.json";

/// The keys of the graph's packages, as a set.
pub fn expected_keys(graph: &DependencyGraph) -> (r: StrMap<bool>)
    ensures
        forall|k: Seq<char>|
            #[trigger] r.has(k) <==> exists|i: int| 0 <= i < graph.packages_view().len() && key_at(graph.packages_view(), i) == k,
{
    let ps = graph.packages();
    let mut out: StrMap<bool> = StrMap::new();
    let mut i: usize = 0;
    while i < ps.len()
        invariant
            i <= ps@.len(),
            ps@ == graph.packages_view(),
            forall|k: Seq<char>| #[trigger] out.has(k) <==> exists|t: int| 0 <= t < i && key_at(ps@, t) == k,
        decreases ps@.len() - i,
    {
        let key = ps[i].id.key();
        let ghost kv = key@;
        out.insert(key, true);
        proof {
            assert forall|k: Seq<char>| #[trigger] out.has(k) <==> exists|t: int| 0 <= t < i + 1 && key_at(ps@, t) == k by {
                if k == kv {
                    assert(key_at(ps@, i as int) == k);
                }
            }
        }
        i = i + 1;
    }
    out
}

/// Whether an entry of the virtual store is stale: a directory that is not
/// the marker, not a scope directory (whose entries are decided one by one
/// with `prune_virtual_scoped_entry`), and holds no package of the graph.
pub fn prune_virtual_entry(name: &str, is_dir: bool, expected: &StrMap<bool>) -> (r: bool)
    ensures
        r == (name@ != "metadata.json"@ && is_dir && !(name@.len() > 0 && name@[0] == '@') && !expected.has(
            name@,
        )),
{
    if str_eq(name, METADATA_FILE) {
        return false;
    }
    if name.unicode_len() > 0 && name.get_char(0) == '@' {
        return false;
    }
    is_dir && !expected.contains_key(name)
}

/// Whether an entry `name` of the scope directory `scope` of the virtual
/// store is stale: a directory whose key `scope/name` no package of the
/// graph has.
pub fn prune_virtual_scoped_entry(scope: &str, name: &str, is_dir: bool, expected: &StrMap<bool>) -> (r: bool)
    ensures
        r == (is_dir && !expected.has(scope@ + "/"@ + name@)),
{
    let mut full = cat(scope, "/");
    full.append(name);
    is_dir && !expected.contains_key(full.as_str())
}

/// What becomes of an entry directly under `node_modules`.
#[derive(Debug, Clone, Copy, PartialEq, Eq)]
pub enum TopLevelEntry {
    /// Left alone.
    Keep,
    /// A stale link, removed.
    Remove,
    /// A scope directory, whose entries are decided one by one.
    Scope,
}

/// The fate of an entry under `node_modules`: `.bin` and the virtual store
/// stay; a scope directory is looked into (a scope-named file stays); a
/// direct dependency stays; anything else is a stale link.
pub fn top_level_entry(name: &str, is_dir: bool, direct_deps: &Vec<String>) -> (r: TopLevelEntry)
    ensures
        r == (if name@ == ".bin"@ || name@ == ".orix"@ {
            TopLevelEntry::Keep
        } else if name@.len() > 0 && name@[0] == '@' {
            if is_dir {
                TopLevelEntry::Scope
            } else {
                TopLevelEntry::Keep
            }
        } else if strs_view(direct_deps@).contains(name@) {
            TopLevelEntry::Keep
        } else {
            TopLevelEntry::Remove
        }),
{
    if str_eq(name, ".bin") || str_eq(name, VIRTUAL_STORE_DIR) {
        return TopLevelEntry::Keep;
    }
    if name.unicode_len() > 0 && name.get_char(0) == '@' {
        if is_dir {
            return TopLevelEntry::Scope;
        } else {
            return TopLevelEntry::Keep;
        }
    }
    if contains_text(direct_deps, name) {
        TopLevelEntry::Keep
    } else {
        TopLevelEntry::Remove
    }
}

/// Whether an entry of a scope directory is a stale link: its full name
/// `scope/name` is no direct dependency.
pub fn prune_scoped_entry(scope: &str, name: &str, direct_deps: &Vec<String>) -> (r: bool)
    ensures
        r == !strs_view(direct_deps@).contains(scope@ + "/"@ + name@),
{
    let mut full = cat(scope, "/");
    full.append(name);
    !contains_text(direct_deps, full.as_str())
}

} // verus!
