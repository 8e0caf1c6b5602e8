//! Which lockfile packages the importers still reach, and the pruning of the
//! rest.

use crate::lockfile::{ImporterLock, Lockfile, PackageLock, ResolvedDep, SnapshotLock};
use crate::strmap::StrMap;
use crate::strs::opt_view;
use crate::text::{cat, owned, rfind_char, rfind_spec, slice, str_eq, trim_start_char, trim_start_char_spec};
use vstd::prelude::*;

verus! {

/// The package name in a package key `/<name>@<version>`: leading slashes
/// dropped, text up to the last `@`, which must not be the first character.
pub open spec fn key_name_spec(key: Seq<char>) -> Option<Seq<char>> {
    let k = trim_start_char_spec(key, '/');
    match rfind_spec(k, '@') {
        Some(at) => if at == 0 {
            None
        } else {
            Some(k.take(at))
        },
        None => None,
    }
}

/// The package name in a package key.
pub fn package_key_name(key: &str) -> (r: Option<String>)
    ensures
        opt_view(r) == key_name_spec(key@),
{
    let k = trim_start_char(key, '/');
    match rfind_char(k, '@') {
        Some(at) => {
            if at == 0 {
                None
            } else {
                proof {
                    crate::text::lemma_rfind(k@, '@');
                }
                Some(owned(slice(k, 0, at)))
            }
        },
        None => None,
    }
}

/// The package key `/<name>@<version>` of a dependency.
pub open spec fn dep_key(name: Seq<char>, version: Seq<char>) -> Seq<char> {
    seq!['/'] + name + seq!['@'] + version
}

pub fn make_dep_key(name: &str, version: &str) -> (r: String)
    ensures
        r@ == dep_key(name@, version@),
{
    let slash = "/";
    let at = "@";
    proof {
        reveal_strlit("/");
        reveal_strlit("@");
    }
    let mut s = cat(slash, name);
    s.append(at);
    s.append(version);
    proof {
        assert(s@ =~= dep_key(name@, version@));
    }
    s
}

/// `k` is the key of an entry of the dependency group `g`.
pub open spec fn group_seed(g: StrMap<ResolvedDep>, k: Seq<char>) -> bool {
    exists|j: int| 0 <= j < g.keys().len() && k == dep_key(g.keys()[j], #[trigger] g.vals()[j].version@)
}

pub open spec fn importer_seed(imp: ImporterLock, k: Seq<char>) -> bool {
    group_seed(imp.dependencies, k) || group_seed(imp.dev_dependencies, k) || group_seed(
        imp.optional_dependencies,
        k,
    )
}

/// `k` is the key of a dependency some importer declares.
pub open spec fn is_seed(lf: Lockfile, k: Seq<char>) -> bool {
    exists|i: int| 0 <= i < lf.importers.vals().len() && importer_seed(#[trigger] lf.importers.vals()[i], k)
}

/// `d` names a dependency, optional dependency or peer of the snapshot.
pub open spec fn snapshot_names(s: SnapshotLock, d: Seq<char>) -> bool {
    s.dependencies.has(d) || s.optional_dependencies.has(d) || s.peer_dependencies.has(d)
}

/// A package key named by one of the snapshot's dependencies.
pub open spec fn names_hit(s: SnapshotLock, name: Option<Seq<char>>) -> bool {
    match name {
        Some(d) => snapshot_names(s, d),
        None => false,
    }
}

/// Package `p` is an edge out of key `k`: `k` has a snapshot, and `p` is a
/// package whose name that snapshot depends on.
pub open spec fn succ(lf: Lockfile, k: Seq<char>, p: Seq<char>) -> bool {
    lf.snapshots.has(k) && lf.packages.has(p) && names_hit(lf.snapshots.at(k), key_name_spec(p))
}

/// One edge further than the keys `prev` holds.
pub open spec fn step(lf: Lockfile, prev: Set<Seq<char>>) -> Set<Seq<char>> {
    Set::new(
        |k: Seq<char>|
            prev.contains(k) || exists|k2: Seq<char>| #[trigger] prev.contains(k2) && succ(lf, k2, k),
    )
}

/// The keys reached from the importers in at most `n` edges.
pub open spec fn reach(lf: Lockfile, n: nat) -> Set<Seq<char>>
    decreases n,
{
    if n == 0 {
        Set::new(|k: Seq<char>| is_seed(lf, k))
    } else {
        step(lf, reach(lf, (n - 1) as nat))
    }
}

/// `k` is transitively referenced by some importer.
pub open spec fn referenced(lf: Lockfile, k: Seq<char>) -> bool {
    exists|n: nat| #[trigger] reach(lf, n).contains(k)
}

proof fn lemma_step(lf: Lockfile, k: Seq<char>, p: Seq<char>)
    requires
        referenced(lf, k),
        succ(lf, k, p),
    ensures
        referenced(lf, p),
{
    let n = choose|n: nat| #[trigger] reach(lf, n).contains(k);
    let m: nat = n + 1;
    assert(reach(lf, m) == step(lf, reach(lf, n)));
    assert(reach(lf, m).contains(p));
}

proof fn lemma_seed(lf: Lockfile, k: Seq<char>)
    requires
        is_seed(lf, k),
    ensures
        referenced(lf, k),
{
    assert(reach(lf, 0).contains(k));
}

/// Number of unmarked positions.
pub open spec fn unmarked(m: Seq<bool>) -> nat
    decreases m.len(),
{
    if m.len() == 0 {
        0
    } else {
        unmarked(m.drop_last()) + if m.last() {
            0nat
        } else {
            1nat
        }
    }
}

proof fn lemma_unmarked_set(m: Seq<bool>, i: int)
    requires
        0 <= i < m.len(),
        !m[i],
    ensures
        unmarked(m.update(i, true)) + 1 == unmarked(m),
    decreases m.len(),
{
    if i == m.len() - 1 {
        assert(m.update(i, true).drop_last() =~= m.drop_last());
    } else {
        lemma_unmarked_set(m.drop_last(), i);
        assert(m.update(i, true).drop_last() =~= m.drop_last().update(i, true));
    }
}

/// `m1` marks every position `m0` marks.
pub open spec fn grows(m0: Seq<bool>, m1: Seq<bool>) -> bool {
    m1.len() == m0.len() && forall|p: int| 0 <= p < m0.len() && m0[p] ==> m1[p]
}

/// Whether `d` is named in `map`.
pub open spec fn map_hit(map: StrMap<String>, name: Option<Seq<char>>) -> bool {
    match name {
        Some(d) => map.has(d),
        None => false,
    }
}

/// Marks and queues every unmarked position whose name is a key of `map`.
fn mark_named(
    map: &StrMap<String>,
    names: &Vec<Option<String>>,
    mark: &mut Vec<bool>,
    work: &mut Vec<usize>,
)
    requires
        names@.len() == old(mark)@.len(),
    ensures
        grows(old(mark)@, final(mark)@),
        final(work)@.len() >= old(work)@.len(),
        final(work)@.take(old(work)@.len() as int) == old(work)@,
        forall|t: int|
            old(work)@.len() <= t < final(work)@.len() ==> (#[trigger] final(work)@[t]
                < final(mark)@.len() && final(mark)@[final(work)@[t] as int]),
        forall|q: int|
            0 <= q < final(mark)@.len() && #[trigger] final(mark)@[q] && !old(mark)@[q]
                ==> map_hit(*map, opt_view(names@[q])) && final(work)@.contains(q as usize),
        forall|q: int|
            0 <= q < final(mark)@.len() && map_hit(*map, opt_view(#[trigger] names@[q]))
                ==> final(mark)@[q],
        final(work)@.len() + unmarked(final(mark)@) == old(work)@.len() + unmarked(old(mark)@),
{
    let n = mark.len();
    let m = map.len();
    let ghost mark0 = mark@;
    let ghost work0 = work@;
    let mut i: usize = 0;
    while i < m
        invariant
            map.wf(),
            m == map.keys().len(),
            n == mark@.len(),
            names@.len() == n,
            mark0.len() == n,
            i <= m,
            grows(mark0, mark@),
            work@.len() >= work0.len(),
            work@.take(work0.len() as int) == work0,
            forall|t: int|
                work0.len() <= t < work@.len() ==> (#[trigger] work@[t] < n && mark@[work@[t] as int]),
            forall|q: int|
                0 <= q < n && #[trigger] mark@[q] && !mark0[q] ==> map_hit(*map, opt_view(names@[q]))
                    && work@.contains(q as usize),
            forall|q: int, t: int|
                0 <= q < n && 0 <= t < i && opt_view(#[trigger] names@[q]) == Some(#[trigger] map.keys()[t])
                    ==> mark@[q],
            work@.len() + unmarked(mark@) == work0.len() + unmarked(mark0),
        decreases m - i,
    {
        let d = map.key_at(i);
        proof {
            map.lemma_index(d@, i as int);
        }
        let mut q: usize = 0;
        while q < n
            invariant
                map.wf(),
                m == map.keys().len(),
                i < m,
                d@ == map.keys()[i as int],
                map.has(d@),
                n == mark@.len(),
                names@.len() == n,
                mark0.len() == n,
                q <= n,
                grows(mark0, mark@),
                work@.len() >= work0.len(),
                work@.take(work0.len() as int) == work0,
                forall|t: int|
                    work0.len() <= t < work@.len() ==> (#[trigger] work@[t] < n && mark@[work@[t] as int]),
                forall|x: int|
                    0 <= x < n && #[trigger] mark@[x] && !mark0[x] ==> map_hit(*map, opt_view(names@[x]))
                        && work@.contains(x as usize),
                forall|x: int, t: int|
                    0 <= x < n && 0 <= t < i && opt_view(#[trigger] names@[x]) == Some(#[trigger] map.keys()[t])
                        ==> mark@[x],
                forall|x: int| 0 <= x < q && opt_view(#[trigger] names@[x]) == Some(d@) ==> mark@[x],
                work@.len() + unmarked(mark@) == work0.len() + unmarked(mark0),
            decreases n - q,
        {
            let hit = match &names[q] {
                Some(nm) => str_eq(nm.as_str(), d),
                None => false,
            };
            if hit && !mark[q] {
                let ghost before = mark@;
                let ghost wbefore = work@;
                proof {
                    lemma_unmarked_set(mark@, q as int);
                }
                mark.set(q, true);
                work.push(q);
                proof {
                    assert(work@.take(work0.len() as int) =~= wbefore.take(work0.len() as int));
                    assert(work@[wbefore.len() as int] == q);
                    assert forall|x: int|
                        0 <= x < n && #[trigger] mark@[x] && !mark0[x] implies work@.contains(
                            x as usize,
                        ) by {
                        if x != q {
                            let t = choose|t: int|
                                0 <= t < wbefore.len() && wbefore[t] == x as usize;
                            assert(work@[t] == x as usize);
                        }
                    }
                }
            }
            q = q + 1;
        }
        i = i + 1;
    }
    proof {
        assert forall|q: int|
            0 <= q < mark@.len() && map_hit(*map, opt_view(#[trigger] names@[q])) implies mark@[q] by {
            let d = opt_view(names@[q])->0;
            let t = choose|t: int| 0 <= t < map.keys().len() && map.keys()[t] == d;
            assert(opt_view(names@[q]) == Some(map.keys()[t]));
        }
    }
}

/// Marks and queues every unmarked package a snapshot depends on by name.
fn mark_dependencies(
    snap: &SnapshotLock,
    names: &Vec<Option<String>>,
    mark: &mut Vec<bool>,
    work: &mut Vec<usize>,
)
    requires
        names@.len() == old(mark)@.len(),
    ensures
        grows(old(mark)@, final(mark)@),
        final(work)@.len() >= old(work)@.len(),
        final(work)@.take(old(work)@.len() as int) == old(work)@,
        forall|t: int|
            old(work)@.len() <= t < final(work)@.len() ==> (#[trigger] final(work)@[t]
                < final(mark)@.len() && final(mark)@[final(work)@[t] as int]),
        forall|q: int|
            0 <= q < final(mark)@.len() && #[trigger] final(mark)@[q] && !old(mark)@[q]
                ==> names_hit(*snap, opt_view(names@[q])) && final(work)@.contains(q as usize),
        forall|q: int|
            0 <= q < final(mark)@.len() && names_hit(*snap, opt_view(#[trigger] names@[q]))
                ==> final(mark)@[q],
        final(work)@.len() + unmarked(final(mark)@) == old(work)@.len() + unmarked(old(mark)@),
{
    let ghost m0 = mark@;
    let ghost w0 = work@;
    mark_named(&snap.dependencies, names, mark, work);
    let ghost m1 = mark@;
    let ghost w1 = work@;
    mark_named(&snap.optional_dependencies, names, mark, work);
    let ghost m2 = mark@;
    let ghost w2 = work@;
    mark_named(&snap.peer_dependencies, names, mark, work);
    proof {
        assert forall|q: int|
            0 <= q < mark@.len() && #[trigger] mark@[q] && !m0[q] implies work@.contains(
                q as usize,
            ) by {
            if m2[q] {
                let t = choose|t: int| 0 <= t < w2.len() && w2[t] == q as usize;
                assert(work@[t] == work@.take(w2.len() as int)[t]);
                if m1[q] {
                } else {
                }
                assert(work@[t] == q as usize);
            }
        }
        assert(work@.take(w0.len() as int) =~= w2.take(w1.len() as int).take(w0.len() as int));
        assert(work@.take(w0.len() as int) =~= w0) by {
            assert(work@.take(w1.len() as int) =~= w1) by {
                assert(work@.take(w1.len() as int) =~= work@.take(w2.len() as int).take(
                    w1.len() as int,
                ));
            }
            assert(w1.take(w0.len() as int) == w0);
        }
        assert forall|t: int| w0.len() <= t < work@.len() implies (#[trigger] work@[t]
            < mark@.len() && mark@[work@[t] as int]) by {
            if t < w1.len() {
                assert(work@[t] == work@.take(w2.len() as int)[t]);
                assert(work@.take(w2.len() as int)[t] == w2[t]);
                assert(w2[t] == w2.take(w1.len() as int)[t]);
                assert(w1[t] < m1.len() && m1[w1[t] as int]);
            } else if t < w2.len() {
                assert(work@[t] == work@.take(w2.len() as int)[t]);
                assert(w2[t] < m2.len() && m2[w2[t] as int]);
            }
        }
    }
}

/// Every marked package is referenced.
pub open spec fn sound(lf: Lockfile, mark: Seq<bool>) -> bool {
    forall|p: int| 0 <= p < mark.len() && #[trigger] mark[p] ==> referenced(lf, lf.packages.keys()[p])
}

/// Every queued position is a marked package.
pub open spec fn queued_marked(mark: Seq<bool>, work: Seq<usize>) -> bool {
    forall|t: int| 0 <= t < work.len() ==> #[trigger] work[t] < mark.len() && mark[work[t] as int]
}

/// Every marked package that is not queued has its dependencies marked.
pub open spec fn closed_except(lf: Lockfile, mark: Seq<bool>, work: Seq<usize>) -> bool {
    forall|p: int, q: int|
        0 <= p < mark.len() && 0 <= q < mark.len() && #[trigger] mark[p] && !work.contains(
            p as usize,
        ) && #[trigger] succ(lf, lf.packages.keys()[p], lf.packages.keys()[q]) ==> mark[q]
}

/// Like `closed_except`, with position `e` exempt.
pub open spec fn closed_but(lf: Lockfile, mark: Seq<bool>, work: Seq<usize>, e: int) -> bool {
    forall|p: int, q: int|
        0 <= p < mark.len() && 0 <= q < mark.len() && #[trigger] mark[p] && !work.contains(
            p as usize,
        ) && p != e && #[trigger] succ(lf, lf.packages.keys()[p], lf.packages.keys()[q]) ==> mark[q]
}

/// A key the importers declare: marked if it is a package, and its
/// dependencies marked if it is not.
pub open spec fn seed_covered(lf: Lockfile, mark: Seq<bool>, k: Seq<char>) -> bool {
    &&& forall|p: int| 0 <= p < mark.len() && lf.packages.keys()[p] == k ==> #[trigger] mark[p]
    &&& !lf.packages.has(k) ==> forall|q: int|
        0 <= q < mark.len() && #[trigger] succ(lf, k, lf.packages.keys()[q]) ==> mark[q]
}

/// The state the marking keeps: sizes, names, soundness, queue and closure.
pub open spec fn marking_ok(
    lf: Lockfile,
    names: Seq<Option<String>>,
    mark: Seq<bool>,
    work: Seq<usize>,
) -> bool {
    &&& lf.packages.wf()
    &&& lf.snapshots.wf()
    &&& mark.len() == lf.packages.keys().len()
    &&& names.len() == mark.len()
    &&& forall|p: int| 0 <= p < names.len() ==> opt_view(#[trigger] names[p]) == key_name_spec(lf.packages.keys()[p])
    &&& sound(lf, mark)
    &&& queued_marked(mark, work)
    &&& closed_except(lf, mark, work)
}

proof fn lemma_key_present(lf: Lockfile, q: int)
    requires
        lf.packages.wf(),
        0 <= q < lf.packages.keys().len(),
    ensures
        lf.packages.has(lf.packages.keys()[q]),
        lf.packages.index_of(lf.packages.keys()[q]) == q,
{
    lf.packages.lemma_index(lf.packages.keys()[q], q);
}

/// Marking the dependencies of a referenced key keeps the marking sound and
/// covers that key's edges.
proof fn lemma_after_mark(
    lf: Lockfile,
    k: Seq<char>,
    e: int,
    names: Seq<Option<String>>,
    m0: Seq<bool>,
    m1: Seq<bool>,
    w0: Seq<usize>,
    w1: Seq<usize>,
)
    requires
        lf.packages.wf(),
        lf.snapshots.wf(),
        m0.len() == lf.packages.keys().len(),
        names.len() == m0.len(),
        forall|p: int| 0 <= p < names.len() ==> opt_view(#[trigger] names[p]) == key_name_spec(lf.packages.keys()[p]),
        sound(lf, m0),
        queued_marked(m0, w0),
        closed_but(lf, m0, w0, e),
        e == -1 || (0 <= e < m0.len() && lf.packages.keys()[e] == k),
        referenced(lf, k),
        lf.snapshots.has(k),
        grows(m0, m1),
        w1.len() >= w0.len(),
        w1.take(w0.len() as int) == w0,
        forall|t: int| w0.len() <= t < w1.len() ==> (#[trigger] w1[t] < m1.len() && m1[w1[t] as int]),
        forall|q: int|
            0 <= q < m1.len() && #[trigger] m1[q] && !m0[q] ==> names_hit(lf.snapshots.at(k), opt_view(names[q]))
                && w1.contains(q as usize),
        forall|q: int|
            0 <= q < m1.len() && names_hit(lf.snapshots.at(k), opt_view(#[trigger] names[q])) ==> m1[q],
    ensures
        marking_ok(lf, names, m1, w1),
        forall|q: int| 0 <= q < m1.len() && #[trigger] succ(lf, k, lf.packages.keys()[q]) ==> m1[q],
{
    let keys = lf.packages.keys();
    assert forall|p: int| 0 <= p < m1.len() && #[trigger] m1[p] implies referenced(lf, keys[p]) by {
        if !m0[p] {
            lemma_key_present(lf, p);
            assert(opt_view(names[p]) == key_name_spec(keys[p]));
            lemma_step(lf, k, keys[p]);
        }
    }
    assert forall|t: int| 0 <= t < w1.len() implies #[trigger] w1[t] < m1.len() && m1[w1[t] as int] by {
        if t < w0.len() {
            assert(w1[t] == w1.take(w0.len() as int)[t]);
            assert(w0[t] < m0.len() && m0[w0[t] as int]);
        }
    }
    assert forall|p: int, q: int|
        0 <= p < m1.len() && 0 <= q < m1.len() && #[trigger] m1[p] && !w1.contains(p as usize)
            && #[trigger] succ(lf, keys[p], keys[q]) implies m1[q] by {
        if p == e {
            assert(opt_view(names[q]) == key_name_spec(keys[q]));
        } else if m0[p] {
            if w0.contains(p as usize) {
                let t = choose|t: int| 0 <= t < w0.len() && w0[t] == p as usize;
                assert(w1[t] == w1.take(w0.len() as int)[t]);
                assert(w1.contains(p as usize));
            }
        } else {
            assert(m1[p] && !m0[p]);
        }
    }
    assert forall|q: int| 0 <= q < m1.len() && #[trigger] succ(lf, k, keys[q]) implies m1[q] by {
        assert(opt_view(names[q]) == key_name_spec(keys[q]));
    }
}

/// A larger marking covers what a smaller one covered.
proof fn lemma_covered_grows(lf: Lockfile, m0: Seq<bool>, m1: Seq<bool>, k: Seq<char>)
    requires
        seed_covered(lf, m0, k),
        grows(m0, m1),
    ensures
        seed_covered(lf, m1, k),
{
}

/// Marks an importer's dependency key: the package itself if the key is a
/// package, else the packages its snapshot depends on.
fn visit_seed(
    lf: &Lockfile,
    key: &str,
    names: &Vec<Option<String>>,
    mark: &mut Vec<bool>,
    work: &mut Vec<usize>,
)
    requires
        marking_ok(*lf, names@, old(mark)@, old(work)@),
        is_seed(*lf, key@),
    ensures
        marking_ok(*lf, names@, final(mark)@, final(work)@),
        grows(old(mark)@, final(mark)@),
        final(work)@.len() >= old(work)@.len(),
        final(work)@.take(old(work)@.len() as int) == old(work)@,
        seed_covered(*lf, final(mark)@, key@),
{
    proof {
        lemma_seed(*lf, key@);
    }
    let ghost m0 = mark@;
    let ghost w0 = work@;
    match lf.packages.find(key) {
        Some(p) => {
            if !mark[p] {
                mark.set(p, true);
                work.push(p);
                proof {
                    assert(work@.take(w0.len() as int) =~= w0);
                    let keys = lf.packages.keys();
                    assert forall|t: int| 0 <= t < work@.len() implies #[trigger] work@[t]
                        < mark@.len() && mark@[work@[t] as int] by {
                        if t < w0.len() {
                            assert(work@[t] == w0[t]);
                        }
                    }
                    assert forall|x: int, q: int|
                        0 <= x < mark@.len() && 0 <= q < mark@.len() && #[trigger] mark@[x]
                            && !work@.contains(x as usize) && #[trigger] succ(
                            *lf,
                            keys[x],
                            keys[q],
                        ) implies mark@[q] by {
                        if x == p as int {
                            assert(work@[w0.len() as int] == p);
                        } else if w0.contains(x as usize) {
                            let t = choose|t: int| 0 <= t < w0.len() && w0[t] == x as usize;
                            assert(work@[t] == x as usize);
                        }
                    }
                }
            }
            proof {
                let keys = lf.packages.keys();
                assert forall|x: int| 0 <= x < mark@.len() && keys[x] == key@ implies #[trigger] mark@[x] by {
                    lf.packages.lemma_index(key@, x);
                }
            }
        },
        None => {
            match lf.snapshots.get(key) {
                Some(snap) => {
                    mark_dependencies(snap, names, mark, work);
                    proof {
                        lemma_after_mark(*lf, key@, -1, names@, m0, mark@, w0, work@);
                    }
                },
                None => {},
            }
            proof {
                let keys = lf.packages.keys();
                assert forall|x: int| 0 <= x < mark@.len() && keys[x] == key@ implies #[trigger] mark@[x] by {
                    lf.packages.lemma_index(key@, x);
                }
            }
        },
    }
}

/// Visits every dependency key of one group.
fn visit_group(
    lf: &Lockfile,
    group: &StrMap<ResolvedDep>,
    names: &Vec<Option<String>>,
    mark: &mut Vec<bool>,
    work: &mut Vec<usize>,
)
    requires
        marking_ok(*lf, names@, old(mark)@, old(work)@),
        forall|k: Seq<char>| group_seed(*group, k) ==> is_seed(*lf, k),
    ensures
        marking_ok(*lf, names@, final(mark)@, final(work)@),
        grows(old(mark)@, final(mark)@),
        final(work)@.len() >= old(work)@.len(),
        final(work)@.take(old(work)@.len() as int) == old(work)@,
        forall|k: Seq<char>| group_seed(*group, k) ==> seed_covered(*lf, final(mark)@, k),
{
    let ghost m0 = mark@;
    let ghost w0 = work@;
    let n = group.len();
    let mut j: usize = 0;
    while j < n
        invariant
            group.wf(),
            n == group.keys().len(),
            j <= n,
            forall|k: Seq<char>| group_seed(*group, k) ==> is_seed(*lf, k),
            marking_ok(*lf, names@, mark@, work@),
            grows(m0, mark@),
            work@.len() >= w0.len(),
            work@.take(w0.len() as int) == w0,
            forall|t: int|
                0 <= t < j ==> seed_covered(
                    *lf,
                    mark@,
                    dep_key(group.keys()[t], #[trigger] group.vals()[t].version@),
                ),
        decreases n - j,
    {
        let name = group.key_at(j);
        let dep = group.value_at(j);
        let key = make_dep_key(name, dep.version.as_str());
        proof {
            assert(group_seed(*group, key@));
        }
        let ghost m1 = mark@;
        let ghost w1 = work@;
        visit_seed(lf, key.as_str(), names, mark, work);
        proof {
            assert(work@.take(w0.len() as int) =~= work@.take(w1.len() as int).take(w0.len() as int));
            assert forall|t: int|
                0 <= t < j + 1 implies seed_covered(
                *lf,
                mark@,
                dep_key(group.keys()[t], #[trigger] group.vals()[t].version@),
            ) by {
                if t < j {
                    lemma_covered_grows(
                        *lf,
                        m1,
                        mark@,
                        dep_key(group.keys()[t], group.vals()[t].version@),
                    );
                }
            }
        }
        j = j + 1;
    }
}

/// The package name of each package key, in key order.
fn package_names(packages: &StrMap<PackageLock>) -> (r: Vec<Option<String>>)
    ensures
        packages.wf(),
        r@.len() == packages.keys().len(),
        forall|p: int|
            0 <= p < r@.len() ==> opt_view(#[trigger] r@[p]) == key_name_spec(packages.keys()[p]),
{
    let n = packages.len();
    let mut out: Vec<Option<String>> = Vec::new();
    let mut i: usize = 0;
    while i < n
        invariant
            packages.wf(),
            n == packages.keys().len(),
            i <= n,
            out@.len() == i,
            forall|p: int|
                0 <= p < i ==> opt_view(#[trigger] out@[p]) == key_name_spec(packages.keys()[p]),
        decreases n - i,
    {
        out.push(package_key_name(packages.key_at(i)));
        i = i + 1;
    }
    out
}

/// Every declared key's reach is marked.
pub open spec fn seeds_covered(lf: Lockfile, mark: Seq<bool>) -> bool {
    forall|k: Seq<char>| is_seed(lf, k) ==> #[trigger] seed_covered(lf, mark, k)
}

/// A key whose package, if any, is marked, and whose edges all lead to
/// marked packages.
pub open spec fn covered(lf: Lockfile, mark: Seq<bool>, k: Seq<char>) -> bool {
    &&& forall|p: int| 0 <= p < mark.len() && lf.packages.keys()[p] == k ==> #[trigger] mark[p]
    &&& forall|q: int|
        0 <= q < mark.len() && #[trigger] succ(lf, k, lf.packages.keys()[q]) ==> mark[q]
}

/// With nothing left to expand, everything reached is covered.
proof fn lemma_complete(lf: Lockfile, names: Seq<Option<String>>, mark: Seq<bool>, n: nat)
    requires
        marking_ok(lf, names, mark, Seq::<usize>::empty()),
        seeds_covered(lf, mark),
    ensures
        forall|k: Seq<char>| #[trigger] reach(lf, n).contains(k) ==> covered(lf, mark, k),
    decreases n,
{
    let keys = lf.packages.keys();
    assert forall|p: int, q: int|
        0 <= p < mark.len() && 0 <= q < mark.len() && #[trigger] mark[p] && #[trigger] succ(
            lf,
            keys[p],
            keys[q],
        ) implies mark[q] by {
        assert(!Seq::<usize>::empty().contains(p as usize));
    }
    if n == 0 {
        assert forall|k: Seq<char>| #[trigger] reach(lf, n).contains(k) implies covered(
            lf,
            mark,
            k,
        ) by {
            assert(seed_covered(lf, mark, k));
            if lf.packages.has(k) {
                let p0 = choose|p0: int| 0 <= p0 < keys.len() && keys[p0] == k;
                assert(mark[p0]);
            }
        }
    } else {
        lemma_complete(lf, names, mark, (n - 1) as nat);
        let prev = reach(lf, (n - 1) as nat);
        assert forall|k: Seq<char>| #[trigger] reach(lf, n).contains(k) implies covered(
            lf,
            mark,
            k,
        ) by {
            assert(reach(lf, n) == step(lf, prev));
            if !prev.contains(k) {
                let k2 = choose|k2: Seq<char>| #[trigger] prev.contains(k2) && succ(lf, k2, k);
                let q0 = choose|q0: int| 0 <= q0 < keys.len() && keys[q0] == k;
                assert(covered(lf, mark, k2));
                assert(succ(lf, k2, keys[q0]));
                assert(mark[q0]);
                assert forall|p: int| 0 <= p < mark.len() && keys[p] == k implies #[trigger] mark[p] by {
                    lf.packages.lemma_index(k, p);
                    lf.packages.lemma_index(k, q0);
                }
            }
        }
    }
}

impl Lockfile {
    /// Removes the packages that no importer reaches, through the snapshots'
    /// dependency names, and the snapshots of removed packages; returns how
    /// many packages were removed.
    pub fn retain_only_referenced_packages(&mut self) -> (r: usize)
        ensures
            final(self).version == old(self).version,
            final(self).save_remote_cache_urls == old(self).save_remote_cache_urls,
            final(self).importers == old(self).importers,
            final(self).graph_hash == old(self).graph_hash,
            forall|k: Seq<char>|
                final(self).packages.has(k) <==> (old(self).packages.has(k) && referenced(
                    *old(self),
                    k,
                )),
            forall|k: Seq<char>|
                final(self).packages.has(k) ==> final(self).packages.at(k) == old(
                    self,
                ).packages.at(k),
            forall|k: Seq<char>|
                final(self).snapshots.has(k) <==> (old(self).snapshots.has(k) && (referenced(
                    *old(self),
                    k,
                ) || !old(self).packages.has(k))),
            forall|k: Seq<char>|
                final(self).snapshots.has(k) ==> final(self).snapshots.at(k) == old(
                    self,
                ).snapshots.at(k),
            r == old(self).packages.keys().len() - final(self).packages.keys().len(),
            (forall|k: Seq<char>| old(self).packages.has(k) ==> referenced(*old(self), k)) ==> r == 0,
            retained_from(*old(self), *final(self)),
    {
        let n = self.packages.len();
        let ns = self.snapshots.len();
        let names = package_names(&self.packages);
        let ghost lf = *self;
        let mut mark: Vec<bool> = Vec::new();
        let mut i: usize = 0;
        while i < n
            invariant
                i <= n,
                mark@.len() == i,
                forall|p: int| 0 <= p < i ==> !#[trigger] mark@[p],
            decreases n - i,
        {
            mark.push(false);
            i = i + 1;
        }
        let mut work: Vec<usize> = Vec::new();
        let m = self.importers.len();
        let mut i: usize = 0;
        while i < m
            invariant
                lf == *self,
                m == self.importers.keys().len(),
                self.importers.wf(),
                i <= m,
                marking_ok(lf, names@, mark@, work@),
                forall|k: Seq<char>|
                    (exists|t: int|
                        0 <= t < i && importer_seed(#[trigger] lf.importers.vals()[t], k))
                        ==> seed_covered(lf, mark@, k),
            decreases m - i,
        {
            let imp = self.importers.value_at(i);
            let ghost m0 = mark@;
            proof {
                assert forall|k: Seq<char>| group_seed(imp.dependencies, k) implies is_seed(lf, k) by {
                    assert(importer_seed(lf.importers.vals()[i as int], k));
                }
                assert forall|k: Seq<char>| group_seed(imp.dev_dependencies, k) implies is_seed(lf, k) by {
                    assert(importer_seed(lf.importers.vals()[i as int], k));
                }
                assert forall|k: Seq<char>| group_seed(imp.optional_dependencies, k) implies is_seed(lf, k) by {
                    assert(importer_seed(lf.importers.vals()[i as int], k));
                }
            }
            visit_group(&*self, &imp.dependencies, &names, &mut mark, &mut work);
            let ghost m1 = mark@;
            visit_group(&*self, &imp.dev_dependencies, &names, &mut mark, &mut work);
            let ghost m2 = mark@;
            visit_group(&*self, &imp.optional_dependencies, &names, &mut mark, &mut work);
            proof {
                assert forall|k: Seq<char>|
                    (exists|t: int|
                        0 <= t < i + 1 && importer_seed(#[trigger] lf.importers.vals()[t], k))
                        implies seed_covered(lf, mark@, k) by {
                    let t = choose|t: int|
                        0 <= t < i + 1 && importer_seed(#[trigger] lf.importers.vals()[t], k);
                    if t < i {
                        lemma_covered_grows(lf, m0, mark@, k);
                    } else if group_seed(imp.dependencies, k) {
                        lemma_covered_grows(lf, m1, mark@, k);
                    } else if group_seed(imp.dev_dependencies, k) {
                        lemma_covered_grows(lf, m2, mark@, k);
                    }
                }
            }
            i = i + 1;
        }
        proof {
            assert forall|k: Seq<char>| is_seed(lf, k) implies #[trigger] seed_covered(
                lf,
                mark@,
                k,
            ) by {
                let t = choose|t: int|
                    0 <= t < lf.importers.vals().len() && importer_seed(
                        #[trigger] lf.importers.vals()[t],
                        k,
                    );
            }
        }
        while work.len() > 0
            invariant
                lf == *self,
                marking_ok(lf, names@, mark@, work@),
                seeds_covered(lf, mark@),
            decreases work@.len() + unmarked(mark@),
        {
            let ghost wfull = work@;
            let p = work.pop().unwrap();
            let ghost m0 = mark@;
            let ghost w0 = work@;
            let ml = mark.len();
            proof {
                assert(wfull == w0.push(p));
                assert(wfull[w0.len() as int] == p);
                let keys = lf.packages.keys();
                assert forall|x: int, q: int|
                    0 <= x < m0.len() && 0 <= q < m0.len() && #[trigger] m0[x] && !w0.contains(
                        x as usize,
                    ) && x != p as int && #[trigger] succ(lf, keys[x], keys[q]) implies m0[q] by {
                    if wfull.contains(x as usize) {
                        let t = choose|t: int| 0 <= t < wfull.len() && wfull[t] == x as usize;
                        if t < w0.len() {
                            assert(w0[t] == wfull[t]);
                        } else {
                            assert(x < ml);
                            assert(x as usize == p);
                        }
                    }
                }
                assert forall|t: int| 0 <= t < w0.len() implies #[trigger] w0[t] < m0.len() && m0[w0[t] as int] by {
                    assert(w0[t] == wfull[t]);
                }
            }
            let key = self.packages.key_at(p);
            match self.snapshots.get(key) {
                Some(snap) => {
                    proof {
                        assert(mark@[p as int]);
                    }
                    mark_dependencies(snap, &names, &mut mark, &mut work);
                    proof {
                        lemma_after_mark(lf, key@, p as int, names@, m0, mark@, w0, work@);
                        assert forall|k: Seq<char>| is_seed(lf, k) implies #[trigger] seed_covered(
                            lf,
                            mark@,
                            k,
                        ) by {
                            lemma_covered_grows(lf, m0, mark@, k);
                        }
                    }
                },
                None => {
                    proof {
                        let keys = lf.packages.keys();
                        assert forall|x: int, q: int|
                            0 <= x < m0.len() && 0 <= q < m0.len() && #[trigger] m0[x]
                                && !w0.contains(x as usize) && #[trigger] succ(
                                lf,
                                keys[x],
                                keys[q],
                            ) implies m0[q] by {
                            if x == p as int {
                                assert(!lf.snapshots.has(keys[x]));
                            }
                        }
                    }
                },
            }
        }
        proof {
            assert(work@ =~= Seq::<usize>::empty());
            let keys = lf.packages.keys();
            assert forall|p: int| 0 <= p < mark@.len() implies (#[trigger] mark@[p] <==> referenced(
                lf,
                keys[p],
            )) by {
                if referenced(lf, keys[p]) {
                    let k = keys[p];
                    let j = choose|j: nat| #[trigger] reach(lf, j).contains(k);
                    lemma_complete(lf, names@, mark@, j);
                    assert(covered(lf, mark@, k));
                }
            }
        }
        let mut keep: Vec<bool> = Vec::new();
        let mut s: usize = 0;
        while s < ns
            invariant
                lf == *self,
                ns == self.snapshots.keys().len(),
                self.snapshots.wf(),
                self.packages.wf(),
                mark@.len() == self.packages.keys().len(),
                s <= ns,
                keep@.len() == s,
                forall|p: int| 0 <= p < mark@.len() ==> (#[trigger] mark@[p] <==> referenced(
                    lf,
                    lf.packages.keys()[p],
                )),
                forall|t: int|
                    0 <= t < s ==> (#[trigger] keep@[t] <==> (referenced(lf, lf.snapshots.keys()[t])
                        || !lf.packages.has(lf.snapshots.keys()[t]))),
            decreases ns - s,
        {
            let key = self.snapshots.key_at(s);
            match self.packages.find(key) {
                Some(p) => {
                    keep.push(mark[p]);
                },
                None => {
                    keep.push(true);
                },
            }
            s = s + 1;
        }
        let ghost k_old = self.packages;
        proof {
            if forall|k: Seq<char>| lf.packages.has(k) ==> referenced(lf, k) {
                assert forall|t: int| 0 <= t < mark@.len() implies #[trigger] mark@[t] by {
                    assert(lf.packages.has(lf.packages.keys()[t]));
                }
            }
        }
        self.packages.retain_marked(&mark);
        self.snapshots.retain_marked(&keep);
        proof {
            assert forall|k: Seq<char>|
                self.packages.has(k) <==> (lf.packages.has(k) && referenced(lf, k)) by {
                if lf.packages.has(k) {
                    let p = choose|p: int| 0 <= p < lf.packages.keys().len() && lf.packages.keys()[p] == k;
                    lf.packages.lemma_index(k, p);
                }
            }
            assert forall|k: Seq<char>|
                self.snapshots.has(k) <==> (lf.snapshots.has(k) && (referenced(lf, k)
                    || !lf.packages.has(k))) by {
                if lf.snapshots.has(k) {
                    let t = choose|t: int| 0 <= t < lf.snapshots.keys().len() && lf.snapshots.keys()[t] == k;
                    lf.snapshots.lemma_index(k, t);
                }
            }
        }
        n - self.packages.len()
    }
}

/// `l2` is what retaining the referenced packages leaves of `l1`: the same
/// importers, the referenced packages, and the snapshots of referenced or
/// unknown packages, unchanged.
pub open spec fn retained_from(l1: Lockfile, l2: Lockfile) -> bool {
    &&& l2.importers == l1.importers
    &&& forall|k: Seq<char>| l2.packages.has(k) <==> (l1.packages.has(k) && referenced(l1, k))
    &&& forall|k: Seq<char>|
        l2.snapshots.has(k) <==> (l1.snapshots.has(k) && (referenced(l1, k) || !l1.packages.has(k)))
    &&& forall|k: Seq<char>| l2.snapshots.has(k) ==> l2.snapshots.at(k) == l1.snapshots.at(k)
}

/// Every key reached from the importers in `n` edges of `l1` is reached in
/// `n` edges of `l2`, when `l2` is what retaining leaves of `l1`.
proof fn lemma_reach_kept(l1: Lockfile, l2: Lockfile, n: nat)
    requires
        retained_from(l1, l2),
    ensures
        forall|k: Seq<char>| reach(l1, n).contains(k) ==> #[trigger] reach(l2, n).contains(k),
    decreases n,
{
    if n == 0 {
        assert forall|k: Seq<char>| reach(l1, 0).contains(k) implies #[trigger] reach(l2, 0).contains(k) by {
            assert(is_seed(l1, k));
            let i = choose|i: int| 0 <= i < l1.importers.vals().len() && importer_seed(#[trigger] l1.importers.vals()[i], k);
            assert(importer_seed(l2.importers.vals()[i], k));
        }
    } else {
        let m = (n - 1) as nat;
        lemma_reach_kept(l1, l2, m);
        assert forall|k: Seq<char>| reach(l1, n).contains(k) implies #[trigger] reach(l2, n).contains(k) by {
            if reach(l1, m).contains(k) {
                assert(reach(l2, m).contains(k));
            } else {
                let k2 = choose|k2: Seq<char>| #[trigger] reach(l1, m).contains(k2) && succ(l1, k2, k);
                assert(referenced(l1, k2));
                lemma_step(l1, k2, k);
                assert(reach(l2, m).contains(k2));
                assert(succ(l2, k2, k));
            }
        }
    }
}

/// Retaining is idempotent: every package the first retain keeps is still
/// referenced in the lockfile it leaves, so a second retain keeps every
/// package and removes none.
pub proof fn lemma_retain_idempotent(l1: Lockfile, l2: Lockfile)
    requires
        retained_from(l1, l2),
    ensures
        forall|k: Seq<char>| l2.packages.has(k) ==> referenced(l2, k),
{
    assert forall|k: Seq<char>| l2.packages.has(k) implies referenced(l2, k) by {
        assert(referenced(l1, k));
        let n = choose|n: nat| #[trigger] reach(l1, n).contains(k);
        lemma_reach_kept(l1, l2, n);
        assert(reach(l2, n).contains(k));
    }
}

/// A package named in any dependency group of the snapshot of a referenced
/// key (regular, optional or peer dependencies) is referenced too.
pub proof fn lemma_snapshot_dependency_referenced(lf: Lockfile, k: Seq<char>, p: Seq<char>, d: Seq<char>)
    requires
        referenced(lf, k),
        lf.snapshots.has(k),
        lf.packages.has(p),
        key_name_spec(p) == Some(d),
        lf.snapshots.at(k).dependencies.has(d) || lf.snapshots.at(k).optional_dependencies.has(d)
            || lf.snapshots.at(k).peer_dependencies.has(d),
    ensures
        referenced(lf, p),
{
    assert(succ(lf, k, p));
    lemma_step(lf, k, p);
}

/// Retaining keeps every package that a kept package's snapshot depends
/// on, optionally or as a peer included: where `k` stays with its snapshot
/// and that snapshot names `d`, the package `p` named `d` stays too.
pub proof fn lemma_retain_keeps_snapshot_dependencies(
    l1: Lockfile,
    l2: Lockfile,
    k: Seq<char>,
    p: Seq<char>,
    d: Seq<char>,
)
    requires
        retained_from(l1, l2),
        l2.packages.has(k),
        l1.snapshots.has(k),
        l1.packages.has(p),
        key_name_spec(p) == Some(d),
        l1.snapshots.at(k).dependencies.has(d) || l1.snapshots.at(k).optional_dependencies.has(d)
            || l1.snapshots.at(k).peer_dependencies.has(d),
    ensures
        l2.packages.has(p),
        l2.snapshots.has(k),
{
    assert(referenced(l1, k));
    lemma_snapshot_dependency_referenced(l1, k, p, d);
}

} // verus!
