//! The bookkeeping of concurrent dependency resolution: which requests are
//! answered, which are being fetched, which packages are known, and what a
//! finished fetch adds to the graph and the queue.

use crate::constraint::{constraint_spec, ConstraintError, ConstraintKind, PatchSpec, VersionConstraint};
use crate::graph::{inserted_into, lowercase_of, to_lowercase, DependencyGraph, ResolvedPackage};
use crate::link::{matches_constraint, package_matches_constraint};
use crate::manifest::Manifest;
use crate::name::PackageName;
use crate::package::PackageId;
use crate::registry::{select_spec, select_version, Dist, PackageMetadata, Packument, PeerDepMeta, SelectError};
use crate::strmap::StrMap;
use crate::strs::{copy_opt, copy_strs, opt_view, strs_view};
use crate::text::{
    contains_char, contains_char_spec, lemma_rfind, owned, rfind_char, rfind_spec, slice, str_eq, trim,
    trim_spec,
};
use crate::version::{semver_parse, strip_v, version_text, Version, VersionView};
use vstd::prelude::*;

verus! {

/// A package identity by the characters of its name and its version.
pub open spec fn id_view(id: PackageId) -> (Seq<char>, VersionView) {
    (id.name@, id.version@)
}

/// The bookkeeping of one resolution run.
#[derive(Debug)]
pub struct ResolverState {
    /// The packages resolved so far.
    pub graph: DependencyGraph,
    /// Answered requests: (lowercased name, constraint text, package).
    pub memo: Vec<(String, String, PackageId)>,
    /// Requests being fetched: (name, constraint text).
    pub in_flight: Vec<(PackageName, String)>,
    /// Every package identity resolved so far.
    pub resolved_ids: Vec<PackageId>,
    /// Requests discovered so far.
    pub discovered: usize,
    /// Packages resolved so far.
    pub resolved: usize,
}

/// The key of a memo entry at position `i`.
pub open spec fn memo_key_at(m: Seq<(String, String, PackageId)>, i: int) -> (Seq<char>, Seq<char>) {
    (m[i].0@, m[i].1@)
}

impl ResolverState {
    /// Answered requests, keyed by lowercased name and constraint text.
    pub open spec fn memo_view(&self) -> Map<(Seq<char>, Seq<char>), (Seq<char>, VersionView)> {
        memo_map(self.memo@)
    }

    /// Requests being fetched, by name and constraint text.
    pub open spec fn in_flight_view(&self) -> Set<(Seq<char>, Seq<char>)> {
        pairs_set(self.in_flight@)
    }

    /// The identities of the packages resolved so far.
    pub open spec fn resolved_view(&self) -> Set<(Seq<char>, VersionView)> {
        Set::new(|k: (Seq<char>, VersionView)| ids_have(self.resolved_ids@, k))
    }

    /// Some resolved package is named `name` and satisfies `c`.
    pub open spec fn has_matching(&self, name: Seq<char>, c: &VersionConstraint) -> bool {
        exists|k: (Seq<char>, VersionView)|
            #[trigger] self.resolved_view().contains(k) && k.0 == name && matches_constraint(k.1, c)
    }

    /// The state's invariant: a well-formed graph, one memo entry per key
    /// and one in-flight entry per request.
    pub open spec fn wf(&self) -> bool {
        &&& self.graph.wf()
        &&& forall|i: int, j: int|
            0 <= i < j < self.memo@.len() ==> memo_key_at(self.memo@, i) != memo_key_at(self.memo@, j)
        &&& pairs_distinct(self.in_flight@)
    }

    /// The memo key of a request.
    pub open spec fn memo_key(name: Seq<char>, raw: Seq<char>) -> (Seq<char>, Seq<char>) {
        (lowercase_of(name), raw)
    }

    /// A fresh state: nothing resolved, nothing in flight.
    pub fn new() -> (r: Self)
        ensures
            r.wf(),
            r.memo_view() == Map::<(Seq<char>, Seq<char>), (Seq<char>, VersionView)>::empty(),
            r.in_flight_view() == Set::<(Seq<char>, Seq<char>)>::empty(),
            r.resolved_view() == Set::<(Seq<char>, VersionView)>::empty(),
            r.graph.packages_view().len() == 0,
            r.discovered == 0,
            r.resolved == 0,
    {
        let r = ResolverState {
            graph: DependencyGraph::new(),
            memo: Vec::new(),
            in_flight: Vec::new(),
            resolved_ids: Vec::new(),
            discovered: 0,
            resolved: 0,
        };
        proof {
            assert(r.memo_view() =~= Map::empty());
            assert(r.in_flight_view() =~= Set::empty());
            assert(r.resolved_view() =~= Set::empty());
        }
        r
    }

    /// The position of the memo entry for a lowercased name and constraint text.
    fn memo_index(&self, lower: &str, raw: &str) -> (r: Option<usize>)
        ensures
            match r {
                Some(i) => i < self.memo@.len() && memo_key_at(self.memo@, i as int) == (lower@, raw@),
                None => forall|i: int| 0 <= i < self.memo@.len() ==> memo_key_at(self.memo@, i) != (lower@, raw@),
            },
    {
        let mut i: usize = 0;
        while i < self.memo.len()
            invariant
                i <= self.memo@.len(),
                forall|t: int| 0 <= t < i ==> memo_key_at(self.memo@, t) != (lower@, raw@),
            decreases self.memo@.len() - i,
        {
            if str_eq(self.memo[i].0.as_str(), lower) && str_eq(self.memo[i].1.as_str(), raw) {
                return Some(i);
            }
            i = i + 1;
        }
        None
    }

    /// The package that answered a request, if it was answered.
    pub fn memo_get(&self, name: &PackageName, raw: &str) -> (r: Option<&PackageId>)
        requires
            self.wf(),
        ensures
            match r {
                Some(id) => self.memo_view().contains_key(Self::memo_key(name@, raw@))
                    && self.memo_view()[Self::memo_key(name@, raw@)] == id_view(*id),
                None => !self.memo_view().contains_key(Self::memo_key(name@, raw@)),
            },
    {
        let lower = to_lowercase(name.as_str());
        match self.memo_index(lower.as_str(), raw) {
            Some(i) => {
                proof {
                    let k = Self::memo_key(name@, raw@);
                    assert(memo_key_at(self.memo@, i as int) == k);
                    let c = choose|t: int| 0 <= t < self.memo@.len() && memo_key_at(self.memo@, t) == k;
                    assert(c == i);
                }
                Some(&self.memo[i].2)
            },
            None => None,
        }
    }

    /// Whether a request is answered.
    pub fn memo_contains(&self, name: &PackageName, raw: &str) -> (r: bool)
        ensures
            r == self.memo_view().contains_key(Self::memo_key(name@, raw@)),
    {
        let lower = to_lowercase(name.as_str());
        self.memo_index(lower.as_str(), raw).is_some()
    }

    /// Records the answer to a request, replacing an earlier one.
    fn memo_insert(&mut self, lower: String, raw: String, id: PackageId)
        requires
            old(self).wf(),
        ensures
            final(self).wf(),
            final(self).memo_view() == old(self).memo_view().insert((lower@, raw@), id_view(id)),
            final(self).in_flight_view() == old(self).in_flight_view(),
            final(self).resolved_view() == old(self).resolved_view(),
            final(self).graph == old(self).graph,
            final(self).discovered == old(self).discovered,
            final(self).resolved == old(self).resolved,
    {
        let ghost k = (lower@, raw@);
        let ghost old_memo = self.memo@;
        let ghost old_view = self.memo_view();
        match self.memo_index(lower.as_str(), raw.as_str()) {
            Some(i) => {
                self.memo.set(i, (lower, raw, id));
                proof {
                    let m = self.memo@;
                    assert forall|a: int, b: int| 0 <= a < b < m.len() implies memo_key_at(m, a) != memo_key_at(m, b) by {
                        assert(memo_key_at(m, a) == memo_key_at(old_memo, a));
                        assert(memo_key_at(m, b) == memo_key_at(old_memo, b));
                    }
                    assert forall|t: int| 0 <= t < m.len() implies memo_key_at(m, t) == memo_key_at(old_memo, t) by {}
                    lemma_memo_same_keys_set(old_memo, m, i as int, k, id_view(id));
                }
            },
            None => {
                self.memo.push((lower, raw, id));
                proof {
                    lemma_memo_push(old_memo, self.memo@, k, id_view(id));
                }
            },
        }
    }

    /// Whether a request is being fetched.
    pub fn in_flight_contains(&self, name: &PackageName, raw: &str) -> (r: bool)
        ensures
            r == self.in_flight_view().contains((name@, raw@)),
    {
        let mut i: usize = 0;
        while i < self.in_flight.len()
            invariant
                i <= self.in_flight@.len(),
                forall|t: int| 0 <= t < i ==> (self.in_flight@[t].0@, self.in_flight@[t].1@) != (name@, raw@),
            decreases self.in_flight@.len() - i,
        {
            if str_eq(self.in_flight[i].0.as_str(), name.as_str()) && str_eq(self.in_flight[i].1.as_str(), raw) {
                proof {
                    assert((self.in_flight@[i as int].0@, self.in_flight@[i as int].1@) == (name@, raw@));
                    assert(pairs_have(self.in_flight@, (name@, raw@)));
                }
                return true;
            }
            i = i + 1;
        }
        false
    }

    /// The number of requests being fetched.
    pub fn in_flight_len(&self) -> (r: usize)
        requires
            self.wf(),
        ensures
            r == self.in_flight_view().len(),
    {
        proof {
            lemma_pairs_set_len(self.in_flight@);
        }
        self.in_flight.len()
    }

    /// Marks a request as being fetched.
    fn in_flight_insert(&mut self, name: PackageName, raw: String)
        requires
            pairs_distinct(old(self).in_flight@),
            !old(self).in_flight_view().contains((name@, raw@)),
        ensures
            pairs_distinct(final(self).in_flight@),
            final(self).in_flight_view() == old(self).in_flight_view().insert((name@, raw@)),
            final(self).memo == old(self).memo,
            final(self).resolved_ids == old(self).resolved_ids,
            final(self).graph == old(self).graph,
            final(self).discovered == old(self).discovered,
            final(self).resolved == old(self).resolved,
    {
        let ghost before = self.in_flight@;
        let ghost k = (name@, raw@);
        let ghost e = (name, raw);
        self.in_flight.push((name, raw));
        proof {
            lemma_pairs_push(before, e);
            assert(self.in_flight@ == before.push(e));
            assert(self.in_flight_view() =~= old(self).in_flight_view().insert(k));
            assert forall|a: int, b: int| 0 <= a < b < self.in_flight@.len() implies pair_key(
                self.in_flight@,
                a,
            ) != pair_key(self.in_flight@, b) by {
                assert(self.in_flight@[a] == before[a]);
                if b == before.len() {
                    assert(self.in_flight@[b] == e);
                    if pair_key(self.in_flight@, a) == pair_key(self.in_flight@, b) {
                        assert((before[a].0@, before[a].1@) == k);
                        assert(pairs_have(before, k));
                    }
                } else {
                    assert(self.in_flight@[b] == before[b]);
                    assert(pair_key(before, a) != pair_key(before, b));
                }
            }
        }
    }

    /// Forgets that a request is being fetched.
    fn in_flight_remove(&mut self, name: &str, raw: &str)
        requires
            pairs_distinct(old(self).in_flight@),
        ensures
            pairs_distinct(final(self).in_flight@),
            final(self).in_flight_view() == old(self).in_flight_view().remove((name@, raw@)),
            final(self).memo == old(self).memo,
            final(self).resolved_ids == old(self).resolved_ids,
            final(self).graph == old(self).graph,
            final(self).discovered == old(self).discovered,
            final(self).resolved == old(self).resolved,
    {
        let ghost k = (name@, raw@);
        let mut kept: Vec<(PackageName, String)> = Vec::new();
        let mut rest: Vec<(PackageName, String)> = Vec::new();
        std::mem::swap(&mut rest, &mut self.in_flight);
        let ghost src = rest@;
        let mut i: usize = 0;
        proof {
            assert(src.take(0) =~= Seq::<(PackageName, String)>::empty());
        }
        while i < rest.len()
            invariant
                i <= src.len(),
                rest@ == src,
                k == (name@, raw@),
                pairs_distinct(src),
                pairs_distinct(kept@),
                forall|q: (Seq<char>, Seq<char>)|
                    #[trigger] pairs_have(kept@, q) <==> (q != k && pairs_have(src.take(i as int), q)),
            decreases src.len() - i,
        {
            let entry = &rest[i];
            let ghost before = kept@;
            let same_name = str_eq(entry.0.as_str(), name);
            let same_raw = str_eq(entry.1.as_str(), raw);
            let keep = !(same_name && same_raw);
            if keep {
                kept.push((PackageName::new(owned(entry.0.as_str())), owned(entry.1.as_str())));
            }
            proof {
                let e = (src[i as int].0@, src[i as int].1@);
                assert(src[i as int] == *entry);
                assert(src.take(i + 1) =~= src.take(i as int).push(src[i as int]));
                lemma_pairs_push(src.take(i as int), src[i as int]);
                if keep {
                    assert(kept@ =~= before.push(kept@[before.len() as int]));
                    lemma_pairs_push(before, kept@[before.len() as int]);
                    assert(!pairs_have(src.take(i as int), e)) by {
                        if pairs_have(src.take(i as int), e) {
                            let t = choose|t: int|
                                0 <= t < src.take(i as int).len() && (src.take(i as int)[t].0@, src.take(
                                    i as int,
                                )[t].1@) == e;
                            assert(src.take(i as int)[t] == src[t]);
                            assert(pair_key(src, t) != pair_key(src, i as int));
                        }
                    }
                    assert(!pairs_have(before, e));
                    assert forall|a: int, b: int| 0 <= a < b < kept@.len() implies pair_key(kept@, a)
                        != pair_key(kept@, b) by {
                        assert(kept@[a] == before[a]);
                        if b == before.len() {
                            assert(pair_key(kept@, b) == e);
                            if pair_key(kept@, a) == pair_key(kept@, b) {
                                assert((before[a].0@, before[a].1@) == e);
                                assert(pairs_have(before, e));
                            }
                        } else {
                            assert(kept@[b] == before[b]);
                            assert(pair_key(before, a) != pair_key(before, b));
                        }
                    }
                } else {
                    assert(kept@ == before);
                    assert(entry.0@ == name@);
                    assert(entry.1@ == raw@);
                    assert(e == k);
                }
                assert forall|q: (Seq<char>, Seq<char>)|
                    #[trigger] pairs_have(kept@, q) <==> (q != k && pairs_have(src.take(i + 1), q)) by {
                    if keep {
                        assert((kept@[before.len() as int].0@, kept@[before.len() as int].1@) == e);
                    }
                }
            }
            i = i + 1;
        }
        self.in_flight = kept;
        proof {
            assert(src.take(src.len() as int) =~= src);
            assert(self.in_flight_view() =~= old(self).in_flight_view().remove(k));
        }
    }
}

/// Some identity of `v` has the view `k`.
pub open spec fn ids_have(v: Seq<PackageId>, k: (Seq<char>, VersionView)) -> bool {
    exists|i: int| 0 <= i < v.len() && id_view(v[i]) == k
}

impl ResolverState {
    /// Whether a package identity is among the resolved ones.
    fn resolved_index(&self, id: &PackageId) -> (r: Option<usize>)
        ensures
            match r {
                Some(i) => i < self.resolved_ids@.len() && id_view(self.resolved_ids@[i as int]) == id_view(*id),
                None => !ids_have(self.resolved_ids@, id_view(*id)),
            },
    {
        let mut i: usize = 0;
        while i < self.resolved_ids.len()
            invariant
                i <= self.resolved_ids@.len(),
                forall|t: int| 0 <= t < i ==> id_view(self.resolved_ids@[t]) != id_view(*id),
            decreases self.resolved_ids@.len() - i,
        {
            if str_eq(self.resolved_ids[i].name.as_str(), id.name.as_str()) && self.resolved_ids[i].version.same(&id.version) {
                return Some(i);
            }
            i = i + 1;
        }
        None
    }

    /// Records that a request was answered by `pkg_id`: the request is
    /// memoized and no longer in flight, and the identity joins the resolved
    /// ones. True when the identity was not resolved before.
    pub fn record_resolved_package(&mut self, name: PackageName, raw: String, pkg_id: PackageId) -> (r: bool)
        requires
            old(self).wf(),
        ensures
            final(self).wf(),
            final(self).memo_view() == old(self).memo_view().insert(
                Self::memo_key(name@, raw@),
                id_view(pkg_id),
            ),
            final(self).in_flight_view() == old(self).in_flight_view().remove((name@, raw@)),
            r == !old(self).resolved_view().contains(id_view(pkg_id)),
            final(self).resolved_view() == old(self).resolved_view().insert(id_view(pkg_id)),
            final(self).graph == old(self).graph,
            final(self).discovered == old(self).discovered,
            final(self).resolved == old(self).resolved,
    {
        let lower = to_lowercase(name.as_str());
        self.in_flight_remove(name.as_str(), raw.as_str());
        let stored = pkg_id.copy();
        self.memo_insert(lower, raw, stored);
        let ghost before = self.resolved_ids@;
        let fresh = match self.resolved_index(&pkg_id) {
            Some(_) => false,
            None => true,
        };
        if fresh {
            self.resolved_ids.push(pkg_id);
        }
        proof {
            let k = id_view(pkg_id);
            if fresh {
                assert forall|q: (Seq<char>, VersionView)| #[trigger] ids_have(self.resolved_ids@, q) <==> (ids_have(before, q) || q == k) by {
                    let after = self.resolved_ids@;
                    if ids_have(after, q) {
                        let t = choose|t: int| 0 <= t < after.len() && id_view(after[t]) == q;
                        if t < before.len() {
                            assert(after[t] == before[t]);
                        }
                    }
                    if ids_have(before, q) {
                        let t = choose|t: int| 0 <= t < before.len() && id_view(before[t]) == q;
                        assert(after[t] == before[t]);
                    }
                    if q == k {
                        assert(id_view(after[before.len() as int]) == k);
                    }
                }
            }
            assert(self.resolved_view() =~= old(self).resolved_view().insert(k));
        }
        fresh
    }

    /// A resolved package named `name` that satisfies the constraint, so
    /// that a request can reuse it instead of fetching.
    pub fn find_resolved_matching_package(&self, name: &PackageName, constraint: &VersionConstraint) -> (r: Option<PackageId>)
        ensures
            match r {
                Some(id) => self.resolved_view().contains(id_view(id)) && id.name@ == name@
                    && matches_constraint(id.version@, constraint),
                None => !self.has_matching(name@, constraint),
            },
    {
        let mut i: usize = 0;
        while i < self.resolved_ids.len()
            invariant
                i <= self.resolved_ids@.len(),
                forall|t: int|
                    0 <= t < i ==> !((#[trigger] self.resolved_ids@[t]).name@ == name@ && matches_constraint(
                        self.resolved_ids@[t].version@,
                        constraint,
                    )),
            decreases self.resolved_ids@.len() - i,
        {
            let id = &self.resolved_ids[i];
            if str_eq(id.name.as_str(), name.as_str()) && package_matches_constraint(id, constraint) {
                proof {
                    assert(ids_have(self.resolved_ids@, id_view(*id)));
                }
                return Some(id.copy());
            }
            i = i + 1;
        }
        proof {
            if self.has_matching(name@, constraint) {
                let k = choose|k: (Seq<char>, VersionView)|
                    #[trigger] self.resolved_view().contains(k) && k.0 == name@ && matches_constraint(k.1, constraint);
                let t = choose|t: int| 0 <= t < self.resolved_ids@.len() && id_view(self.resolved_ids@[t]) == k;
                assert(self.resolved_ids@[t].name@ == name@);
            }
        }
        None
    }

    /// Decides what to do with a request taken from the queue: skip it when
    /// it is answered or in flight; answer it from a resolved package that
    /// satisfies it; else mark it in flight. True when it is to be fetched.
    pub fn schedule(&mut self, name: &PackageName, constraint: &VersionConstraint) -> (r: bool)
        requires
            old(self).wf(),
        ensures
            final(self).wf(),
            final(self).resolved_view() == old(self).resolved_view(),
            final(self).graph == old(self).graph,
            final(self).discovered == old(self).discovered,
            final(self).resolved == old(self).resolved,
            ({
                let mk = Self::memo_key(name@, constraint.raw@);
                let fk = (name@, constraint.raw@);
                if old(self).memo_view().contains_key(mk) || old(self).in_flight_view().contains(fk) {
                    &&& !r
                    &&& final(self).memo_view() == old(self).memo_view()
                    &&& final(self).in_flight_view() == old(self).in_flight_view()
                } else if old(self).has_matching(name@, constraint) {
                    &&& !r
                    &&& final(self).in_flight_view() == old(self).in_flight_view()
                    &&& final(self).memo_view().dom() == old(self).memo_view().dom().insert(mk)
                    &&& final(self).memo_view() == old(self).memo_view().insert(mk, final(self).memo_view()[mk])
                    &&& old(self).resolved_view().contains(final(self).memo_view()[mk])
                    &&& final(self).memo_view()[mk].0 == name@
                    &&& matches_constraint(final(self).memo_view()[mk].1, constraint)
                } else {
                    &&& r
                    &&& final(self).memo_view() == old(self).memo_view()
                    &&& final(self).in_flight_view() == old(self).in_flight_view().insert(fk)
                }
            }),
    {
        if self.memo_contains(name, constraint.raw.as_str()) || self.in_flight_contains(name, constraint.raw.as_str()) {
            return false;
        }
        match self.find_resolved_matching_package(name, constraint) {
            Some(id) => {
                let lower = to_lowercase(name.as_str());
                let ghost v = id_view(id);
                self.memo_insert(lower, owned(constraint.raw.as_str()), id);
                proof {
                    assert(self.memo_view()[Self::memo_key(name@, constraint.raw@)] == v);
                    assert(self.memo_view().dom() =~= old(self).memo_view().dom().insert(Self::memo_key(name@, constraint.raw@)));
                    assert(old(self).has_matching(name@, constraint));
                }
                false
            },
            None => {
                self.in_flight_insert(PackageName::new(owned(name.as_str())), owned(constraint.raw.as_str()));
                proof {
                    assert(self.wf());
                }
                true
            },
        }
    }
}

/// The name and text of the pair at position `i`.
pub open spec fn pair_key(v: Seq<(PackageName, String)>, i: int) -> (Seq<char>, Seq<char>) {
    (v[i].0@, v[i].1@)
}

/// No two pairs of `v` have the same name and text.
pub open spec fn pairs_distinct(v: Seq<(PackageName, String)>) -> bool {
    forall|i: int, j: int| 0 <= i < j < v.len() ==> pair_key(v, i) != pair_key(v, j)
}

/// The names and texts of the pairs of `v`.
pub open spec fn pairs_set(v: Seq<(PackageName, String)>) -> Set<(Seq<char>, Seq<char>)> {
    Set::new(|k: (Seq<char>, Seq<char>)| pairs_have(v, k))
}

proof fn lemma_pairs_set_len(v: Seq<(PackageName, String)>)
    requires
        pairs_distinct(v),
    ensures
        pairs_set(v).finite(),
        pairs_set(v).len() == v.len(),
    decreases v.len(),
{
    if v.len() == 0 {
        assert(pairs_set(v) =~= Set::<(Seq<char>, Seq<char>)>::empty());
    } else {
        let w = v.drop_last();
        let e = v.last();
        assert forall|i: int, j: int| 0 <= i < j < w.len() implies pair_key(w, i) != pair_key(w, j) by {
            assert(w[i] == v[i]);
            assert(w[j] == v[j]);
            assert(pair_key(v, i) != pair_key(v, j));
        }
        lemma_pairs_set_len(w);
        assert(w.push(e) =~= v);
        lemma_pairs_push(w, e);
        assert(pairs_set(v) =~= pairs_set(w).insert((e.0@, e.1@)));
        assert(!pairs_set(w).contains((e.0@, e.1@))) by {
            if pairs_have(w, (e.0@, e.1@)) {
                let t = choose|t: int| 0 <= t < w.len() && (w[t].0@, w[t].1@) == (e.0@, e.1@);
                assert(w[t] == v[t]);
                assert(pair_key(v, t) == pair_key(v, v.len() - 1));
            }
        }
    }
}

/// Some pair of `v` has the name and text `k`.
pub open spec fn pairs_have(v: Seq<(PackageName, String)>, k: (Seq<char>, Seq<char>)) -> bool {
    exists|i: int| 0 <= i < v.len() && (v[i].0@, v[i].1@) == k
}

proof fn lemma_pairs_push(v: Seq<(PackageName, String)>, e: (PackageName, String))
    ensures
        forall|k: (Seq<char>, Seq<char>)|
            #[trigger] pairs_have(v.push(e), k) <==> (pairs_have(v, k) || (e.0@, e.1@) == k),
{
    let w = v.push(e);
    assert forall|k: (Seq<char>, Seq<char>)| #[trigger] pairs_have(w, k) <==> (pairs_have(v, k) || (e.0@, e.1@) == k) by {
        if pairs_have(w, k) {
            let t = choose|t: int| 0 <= t < w.len() && (w[t].0@, w[t].1@) == k;
            if t < v.len() {
                assert(w[t] == v[t]);
            }
        }
        if pairs_have(v, k) {
            let t = choose|t: int| 0 <= t < v.len() && (v[t].0@, v[t].1@) == k;
            assert(w[t] == v[t]);
        }
        if (e.0@, e.1@) == k {
            assert(w[v.len() as int] == e);
        }
    }
}

/// The memo view of a memo whose keys are those of another, with one value replaced.
proof fn lemma_memo_same_keys_set(
    a: Seq<(String, String, PackageId)>,
    b: Seq<(String, String, PackageId)>,
    i: int,
    k: (Seq<char>, Seq<char>),
    v: (Seq<char>, VersionView),
)
    requires
        a.len() == b.len(),
        0 <= i < a.len(),
        memo_key_at(a, i) == k,
        id_view(b[i].2) == v,
        forall|t: int| 0 <= t < a.len() ==> memo_key_at(b, t) == memo_key_at(a, t),
        forall|t: int| 0 <= t < a.len() && t != i ==> b[t] == a[t],
        forall|x: int, y: int| 0 <= x < y < a.len() ==> memo_key_at(a, x) != memo_key_at(a, y),
    ensures
        memo_map(b) == memo_map(a).insert(k, v),
{
    let ma = memo_map(a);
    let mb = memo_map(b);
    assert forall|q: (Seq<char>, Seq<char>)| mb.contains_key(q) == ma.insert(k, v).contains_key(q) by {
        if ma.contains_key(q) {
            let t = choose|t: int| 0 <= t < a.len() && memo_key_at(a, t) == q;
            assert(memo_key_at(b, t) == q);
        }
        if mb.contains_key(q) {
            let t = choose|t: int| 0 <= t < b.len() && memo_key_at(b, t) == q;
            assert(memo_key_at(a, t) == q);
        }
        if q == k {
            assert(memo_key_at(b, i) == q);
        }
    }
    assert forall|q: (Seq<char>, Seq<char>)| #[trigger] mb.contains_key(q) implies mb[q] == ma.insert(k, v)[q] by {
        let tb = choose|t: int| 0 <= t < b.len() && memo_key_at(b, t) == q;
        assert(memo_key_at(a, tb) == q);
        if q == k {
            if tb != i {
                if tb < i {
                    assert(memo_key_at(a, tb) != memo_key_at(a, i));
                } else {
                    assert(memo_key_at(a, i) != memo_key_at(a, tb));
                }
            }
        } else {
            let ta = choose|t: int| 0 <= t < a.len() && memo_key_at(a, t) == q;
            if ta != tb {
                if ta < tb {
                    assert(memo_key_at(a, ta) != memo_key_at(a, tb));
                } else {
                    assert(memo_key_at(a, tb) != memo_key_at(a, ta));
                }
            }
            assert(tb != i);
        }
    }
    assert(mb =~= ma.insert(k, v));
}

/// The memo view after appending an entry whose key is new.
proof fn lemma_memo_push(
    a: Seq<(String, String, PackageId)>,
    b: Seq<(String, String, PackageId)>,
    k: (Seq<char>, Seq<char>),
    v: (Seq<char>, VersionView),
)
    requires
        b.len() == a.len() + 1,
        forall|t: int| 0 <= t < a.len() ==> b[t] == a[t],
        memo_key_at(b, a.len() as int) == k,
        id_view(b[a.len() as int].2) == v,
        forall|t: int| 0 <= t < a.len() ==> memo_key_at(a, t) != k,
        forall|x: int, y: int| 0 <= x < y < a.len() ==> memo_key_at(a, x) != memo_key_at(a, y),
    ensures
        memo_map(b) == memo_map(a).insert(k, v),
        forall|x: int, y: int| 0 <= x < y < b.len() ==> memo_key_at(b, x) != memo_key_at(b, y),
{
    let ma = memo_map(a);
    let mb = memo_map(b);
    let n = a.len() as int;
    assert forall|x: int, y: int| 0 <= x < y < b.len() implies memo_key_at(b, x) != memo_key_at(b, y) by {
        assert(memo_key_at(b, x) == memo_key_at(a, x));
        if y < n {
            assert(memo_key_at(b, y) == memo_key_at(a, y));
        }
    }
    assert forall|q: (Seq<char>, Seq<char>)| mb.contains_key(q) == ma.insert(k, v).contains_key(q) by {
        if ma.contains_key(q) {
            let t = choose|t: int| 0 <= t < a.len() && memo_key_at(a, t) == q;
            assert(memo_key_at(b, t) == q);
        }
        if mb.contains_key(q) && q != k {
            let t = choose|t: int| 0 <= t < b.len() && memo_key_at(b, t) == q;
            assert(t < n);
            assert(memo_key_at(a, t) == q);
        }
        if q == k {
            assert(memo_key_at(b, n) == q);
        }
    }
    assert forall|q: (Seq<char>, Seq<char>)| #[trigger] mb.contains_key(q) implies mb[q] == ma.insert(k, v)[q] by {
        let tb = choose|t: int| 0 <= t < b.len() && memo_key_at(b, t) == q;
        if q == k {
            if tb < n {
                assert(memo_key_at(a, tb) == k);
            }
        } else {
            assert(tb < n);
            let ta = choose|t: int| 0 <= t < a.len() && memo_key_at(a, t) == q;
            if ta != tb {
                if ta < tb {
                    assert(memo_key_at(a, ta) != memo_key_at(a, tb));
                } else {
                    assert(memo_key_at(a, tb) != memo_key_at(a, ta));
                }
            }
        }
    }
    assert(mb =~= ma.insert(k, v));
}

/// The answered requests a memo holds.
pub open spec fn memo_map(m: Seq<(String, String, PackageId)>) -> Map<(Seq<char>, Seq<char>), (Seq<char>, VersionView)> {
    Map::new(
        |k: (Seq<char>, Seq<char>)| exists|i: int| 0 <= i < m.len() && memo_key_at(m, i) == k,
        |k: (Seq<char>, Seq<char>)|
            id_view(m[choose|i: int| 0 <= i < m.len() && memo_key_at(m, i) == k].2),
    )
}

/// Progress reported each time a new package is resolved.
#[derive(Debug)]
pub struct ResolveProgressEvent {
    /// Resolved package id.
    pub id: PackageId,
    /// Requests discovered so far (a running estimate).
    pub discovered: usize,
    /// Packages resolved so far.
    pub resolved: usize,
}

/// How one call of [`ResolverState::complete`] counts and reports: a task
/// whose package was not resolved yet adds it to the resolved ones, counts
/// it, and reports it with the new count; any other task changes neither
/// and reports nothing.
pub open spec fn progress_step(s0: ResolverState, t: ResolveTaskResult, o: TaskOutcome, s1: ResolverState) -> bool {
    &&& o.new_package == !s0.resolved_view().contains(id_view(t.pkg_id))
    &&& s1.resolved_view() == s0.resolved_view().insert(id_view(t.pkg_id))
    &&& o.new_package ==> (s1.resolved == s0.resolved + 1 && (o.progress matches Some(e) && id_view(e.id)
        == id_view(t.pkg_id) && e.resolved == s1.resolved))
    &&& !o.new_package ==> (s1.resolved == s0.resolved && o.progress is None)
}

/// The progress events of a run of outcomes, in order.
pub open spec fn progress_events(os: Seq<TaskOutcome>) -> Seq<ResolveProgressEvent>
    decreases os.len(),
{
    if os.len() == 0 {
        Seq::empty()
    } else {
        match os.last().progress {
            Some(e) => progress_events(os.drop_last()).push(e),
            None => progress_events(os.drop_last()),
        }
    }
}

/// A resolution run reports its packages as they are resolved: from a
/// state with nothing resolved, the progress events of a run of
/// [`ResolverState::complete`] calls count 1, 2, ... up to the number of
/// packages resolved, and name pairwise distinct packages, each of them
/// resolved.
pub proof fn lemma_progress_sequence(
    ss: Seq<ResolverState>,
    ts: Seq<ResolveTaskResult>,
    os: Seq<TaskOutcome>,
)
    requires
        ss.len() == os.len() + 1,
        ts.len() == os.len(),
        ss[0].resolved == 0,
        ss[0].resolved_view() == Set::<(Seq<char>, VersionView)>::empty(),
        forall|i: int| 0 <= i < os.len() ==> #[trigger] progress_step(ss[i], ts[i], os[i], ss[i + 1]),
    ensures
        progress_events(os).len() == ss.last().resolved,
        forall|j: int| 0 <= j < progress_events(os).len() ==> #[trigger] progress_events(os)[j].resolved == j + 1,
        forall|j: int, k: int|
            0 <= j < k < progress_events(os).len() ==> id_view(#[trigger] progress_events(os)[j].id) != id_view(
                #[trigger] progress_events(os)[k].id,
            ),
        forall|j: int|
            0 <= j < progress_events(os).len() ==> ss.last().resolved_view().contains(
                id_view(#[trigger] progress_events(os)[j].id),
            ),
    decreases os.len(),
{
    if os.len() > 0 {
        let n = os.len() - 1;
        let ss1 = ss.drop_last();
        let ts1 = ts.drop_last();
        let os1 = os.drop_last();
        assert forall|i: int| 0 <= i < os1.len() implies #[trigger] progress_step(ss1[i], ts1[i], os1[i], ss1[i + 1]) by {
            assert(progress_step(ss[i], ts[i], os[i], ss[i + 1]));
        }
        lemma_progress_sequence(ss1, ts1, os1);
        let prev = progress_events(os1);
        assert(progress_step(ss[n], ts[n], os[n], ss[n + 1]));
        assert(ss1.last() == ss[n]);
        assert(os.last() == os[n]);
        match os.last().progress {
            Some(e) => {
                assert(progress_events(os) == prev.push(e));
                assert forall|j: int| 0 <= j < prev.len() implies id_view(#[trigger] prev[j].id) != id_view(e.id) by {
                    assert(ss[n].resolved_view().contains(id_view(prev[j].id)));
                }
            },
            None => {
                assert(progress_events(os) == prev);
            },
        }
    }
}

/// An optional dependency that was skipped on this platform.
#[derive(Debug)]
pub struct SkippedOptionalDep {
    /// The name of the skipped optional dependency.
    pub name: PackageName,
    /// Why it was skipped.
    pub reason: String,
}

/// What a finished fetch found for one request.
#[derive(Debug)]
pub struct ResolveTaskResult {
    /// The package the request resolved to.
    pub pkg_id: PackageId,
    /// The constraint text of the request.
    pub constraint: String,
    /// Whether the package's peer dependencies are to be resolved too.
    pub resolve_peer_dependencies: bool,
    /// Regular dependencies.
    pub deps: Vec<(PackageName, String)>,
    /// Optional dependencies.
    pub opt_deps: Vec<(PackageName, String)>,
    /// Required peer dependencies.
    pub peer_deps: Vec<(PackageName, String)>,
    /// Tarball URL.
    pub tarball: String,
    /// Integrity string.
    pub integrity: String,
    /// Node engine constraint.
    pub engines: Option<String>,
    /// Supported operating systems.
    pub os: Vec<String>,
    /// Supported CPU architectures.
    pub cpu: Vec<String>,
    /// Patch applied to the package, if any.
    pub patch: Option<PatchSpec>,
}

/// What the state made of a finished fetch.
#[derive(Debug)]
pub struct TaskOutcome {
    /// The package was not resolved before.
    pub new_package: bool,
    /// The requests to queue next.
    pub queued: Vec<(PackageName, String)>,
    /// Progress to report, for a new package.
    pub progress: Option<ResolveProgressEvent>,
}

/// Name-and-text pairs by their characters.
pub open spec fn pair_views(v: Seq<(PackageName, String)>) -> Seq<(Seq<char>, Seq<char>)> {
    v.map_values(|p: (PackageName, String)| (p.0@, p.1@))
}

/// The package a finished fetch resolves to: its fields, no dev
/// dependencies, and as children the names of the regular and the optional
/// dependencies (peers are not children).
pub open spec fn resolved_from(p: ResolvedPackage, t: ResolveTaskResult) -> bool {
    &&& p.id == t.pkg_id
    &&& p.integrity == t.integrity
    &&& p.tarball == t.tarball
    &&& p.dependencies == t.deps
    &&& p.dev_dependencies@.len() == 0
    &&& p.optional_dependencies == t.opt_deps
    &&& p.peer_dependencies == t.peer_deps
    &&& p.engines == t.engines
    &&& p.os == t.os
    &&& p.cpu == t.cpu
    &&& p.patch == t.patch
    &&& p.depnodes@.map_values(|s: String| s@) == (t.deps@ + t.opt_deps@).map_values(
        |q: (PackageName, String)| q.0@,
    )
}

/// The requests a finished fetch may queue: its regular, then optional,
/// then (when asked for) peer dependencies.
pub open spec fn candidates(t: ResolveTaskResult) -> Seq<(Seq<char>, Seq<char>)> {
    pair_views(t.deps@) + pair_views(t.opt_deps@) + (if t.resolve_peer_dependencies {
        pair_views(t.peer_deps@)
    } else {
        Seq::empty()
    })
}

impl ResolveTaskResult {
    /// The resolved package this result describes.
    pub fn into_resolved_package(self) -> (r: ResolvedPackage)
        ensures
            resolved_from(r, self),
    {
        let mut depnodes: Vec<String> = Vec::new();
        let ghost all = self.deps@ + self.opt_deps@;
        let mut i: usize = 0;
        while i < self.deps.len()
            invariant
                i <= self.deps@.len(),
                all == self.deps@ + self.opt_deps@,
                depnodes@.len() == i,
                forall|t: int| 0 <= t < i ==> (#[trigger] depnodes@[t])@ == all[t].0@,
            decreases self.deps@.len() - i,
        {
            depnodes.push(owned(self.deps[i].0.as_str()));
            i = i + 1;
        }
        let mut j: usize = 0;
        let n = self.deps.len();
        while j < self.opt_deps.len()
            invariant
                j <= self.opt_deps@.len(),
                n == self.deps@.len(),
                all == self.deps@ + self.opt_deps@,
                depnodes@.len() == n + j,
                forall|t: int| 0 <= t < n + j ==> (#[trigger] depnodes@[t])@ == all[t].0@,
            decreases self.opt_deps@.len() - j,
        {
            depnodes.push(owned(self.opt_deps[j].0.as_str()));
            proof {
                assert(all[n + j] == self.opt_deps@[j as int]);
            }
            j = j + 1;
        }
        proof {
            assert(depnodes@.map_values(|s: String| s@) =~= all.map_values(|q: (PackageName, String)| q.0@));
        }
        ResolvedPackage {
            id: self.pkg_id,
            integrity: self.integrity,
            tarball: self.tarball,
            dependencies: self.deps,
            dev_dependencies: Vec::new(),
            optional_dependencies: self.opt_deps,
            peer_dependencies: self.peer_deps,
            engines: self.engines,
            os: self.os,
            cpu: self.cpu,
            depnodes,
            patch: self.patch,
        }
    }
}

impl ResolverState {
    /// A request neither answered nor in flight.
    pub open spec fn unseen(&self, q: (Seq<char>, Seq<char>)) -> bool {
        !self.memo_view().contains_key(Self::memo_key(q.0, q.1)) && !self.in_flight_view().contains(q)
    }

    /// Appends to `out` the requests of `v` that are unseen, counting each
    /// as discovered.
    fn queue_unseen(&mut self, v: &Vec<(PackageName, String)>, out: &mut Vec<(PackageName, String)>)
        requires
            old(self).discovered + v@.len() <= usize::MAX,
        ensures
            pair_views(final(out)@) == pair_views(old(out)@) + pair_views(v@).filter(
                |q: (Seq<char>, Seq<char>)| old(self).unseen(q),
            ),
            final(self).discovered == old(self).discovered + final(out)@.len() - old(out)@.len(),
            final(out)@.len() <= old(out)@.len() + v@.len(),
            final(self).memo == old(self).memo,
            final(self).in_flight == old(self).in_flight,
            final(self).resolved_ids == old(self).resolved_ids,
            final(self).graph == old(self).graph,
            final(self).resolved == old(self).resolved,
    {
        let ghost st = *self;
        let ghost pred = |q: (Seq<char>, Seq<char>)| st.unseen(q);
        let ghost out0 = out@;
        let ghost pv = pair_views(v@);
        let mut i: usize = 0;
        proof {
            assert(pv.take(0) =~= Seq::<(Seq<char>, Seq<char>)>::empty());
            reveal(Seq::filter);
            assert(pair_views(out@) =~= pair_views(out0) + pv.take(0).filter(pred));
        }
        while i < v.len()
            invariant
                i <= v@.len(),
                pv == pair_views(v@),
                pred == (|q: (Seq<char>, Seq<char>)| st.unseen(q)),
                self.memo == st.memo,
                self.in_flight == st.in_flight,
                self.resolved_ids == st.resolved_ids,
                self.graph == st.graph,
                self.resolved == st.resolved,
                st.discovered + v@.len() <= usize::MAX,
                out@.len() >= out0.len(),
                self.discovered == st.discovered + out@.len() - out0.len(),
                out@.len() - out0.len() <= i,
                pair_views(out@) == pair_views(out0) + pv.take(i as int).filter(pred),
            decreases v@.len() - i,
        {
            let name = &v[i].0;
            let raw = v[i].1.as_str();
            let ghost q = (name@, raw@);
            let ghost before = out@;
            proof {
                assert(pv[i as int] == q);
                assert(self.memo_view() == st.memo_view());
                assert(self.in_flight_view() =~= st.in_flight_view());
            }
            let keep = !self.memo_contains(name, raw) && !self.in_flight_contains(name, raw);
            if keep {
                self.discovered = self.discovered + 1;
                out.push((PackageName::new(owned(name.as_str())), owned(raw)));
            }
            proof {
                assert(pv.take(i + 1) =~= pv.take(i as int).push(q));
                pv.take(i as int).lemma_filter_push(q, pred);
                if keep {
                    assert(pair_views(out@) =~= pair_views(before).push(q));
                } else {
                    assert(out@ == before);
                }
            }
            i = i + 1;
        }
        proof {
            assert(pv.take(v@.len() as int) =~= pv);
        }
    }

    /// Takes in a finished fetch: the request is answered; a package not
    /// resolved before joins the graph, is counted, and its unseen
    /// dependencies (and, when asked, peers) are queued and counted as
    /// discovered, with a progress report.
    pub fn complete(&mut self, task: ResolveTaskResult) -> (r: TaskOutcome)
        requires
            old(self).wf(),
            old(self).resolved < usize::MAX,
            old(self).discovered + task.deps@.len() + task.opt_deps@.len() + task.peer_deps@.len()
                <= usize::MAX,
        ensures
            final(self).wf(),
            final(self).memo_view() == old(self).memo_view().insert(
                Self::memo_key(task.pkg_id.name@, task.constraint@),
                id_view(task.pkg_id),
            ),
            final(self).in_flight_view() == old(self).in_flight_view().remove(
                (task.pkg_id.name@, task.constraint@),
            ),
            r.new_package == !old(self).resolved_view().contains(id_view(task.pkg_id)),
            final(self).resolved_view() == old(self).resolved_view().insert(id_view(task.pkg_id)),
            progress_step(*old(self), task, r, *final(self)),
            r.new_package ==> {
                &&& exists|p: ResolvedPackage|
                    resolved_from(p, task) && inserted_into(
                        old(self).graph.packages_view(),
                        p,
                        final(self).graph.packages_view(),
                    )
                &&& final(self).graph.diagnostics_view() == old(self).graph.diagnostics_view()
                &&& final(self).resolved == old(self).resolved + 1
                &&& pair_views(r.queued@) == candidates(task).filter(
                    |q: (Seq<char>, Seq<char>)| final(self).unseen(q),
                )
                &&& final(self).discovered == old(self).discovered + r.queued@.len()
                &&& r.progress matches Some(e) && id_view(e.id) == id_view(task.pkg_id)
                    && e.discovered == final(self).discovered && e.resolved == final(self).resolved
            },
            !r.new_package ==> {
                &&& final(self).graph == old(self).graph
                &&& final(self).resolved == old(self).resolved
                &&& final(self).discovered == old(self).discovered
                &&& r.queued@.len() == 0
                &&& r.progress is None
            },
    {
        let name = PackageName::new(owned(task.pkg_id.name.as_str()));
        let raw = owned(task.constraint.as_str());
        let fresh = self.record_resolved_package(name, raw, task.pkg_id.copy());
        if !fresh {
            return TaskOutcome { new_package: false, queued: Vec::new(), progress: None };
        }
        let ghost st = *self;
        let ghost pred = |q: (Seq<char>, Seq<char>)| st.unseen(q);
        let mut queued: Vec<(PackageName, String)> = Vec::new();
        self.queue_unseen(&task.deps, &mut queued);
        let ghost st2 = *self;
        proof {
            assert(st2.memo_view() == st.memo_view());
            assert(st2.in_flight_view() =~= st.in_flight_view());
            assert((|q: (Seq<char>, Seq<char>)| st2.unseen(q)) =~= pred);
        }
        self.queue_unseen(&task.opt_deps, &mut queued);
        let ghost st3 = *self;
        proof {
            assert(st3.memo_view() == st.memo_view());
            assert(st3.in_flight_view() =~= st.in_flight_view());
            assert((|q: (Seq<char>, Seq<char>)| st3.unseen(q)) =~= pred);
        }
        if task.resolve_peer_dependencies {
            self.queue_unseen(&task.peer_deps, &mut queued);
        }
        proof {
            let a = pair_views(task.deps@);
            let b = pair_views(task.opt_deps@);
            let c = if task.resolve_peer_dependencies { pair_views(task.peer_deps@) } else { Seq::empty() };
            Seq::filter_distributes_over_add(a + b, c, pred);
            Seq::filter_distributes_over_add(a, b, pred);
            if !task.resolve_peer_dependencies {
                reveal(Seq::filter);
                assert(c.filter(pred) =~= Seq::<(Seq<char>, Seq<char>)>::empty());
            }
            assert(pair_views(Seq::<(PackageName, String)>::empty()) =~= Seq::<(Seq<char>, Seq<char>)>::empty());
            assert(pair_views(queued@) =~= candidates(task).filter(pred));
            assert(self.memo_view() == st.memo_view());
            assert(self.in_flight_view() =~= st.in_flight_view());
            assert(pred == (|q: (Seq<char>, Seq<char>)| self.unseen(q)));
        }
        let id = task.pkg_id.copy();
        let ghost t = task;
        let pkg = task.into_resolved_package();
        let ghost p = pkg;
        self.graph.insert(pkg);
        self.resolved = self.resolved + 1;
        proof {
            assert(resolved_from(p, t));
            assert(self.memo_view() == st.memo_view());
            assert(self.in_flight_view() =~= st.in_flight_view());
            assert((|q: (Seq<char>, Seq<char>)| self.unseen(q)) =~= pred);
        }
        let progress = ResolveProgressEvent { id, discovered: self.discovered, resolved: self.resolved };
        TaskOutcome { new_package: true, queued, progress: Some(progress) }
    }
}

/// The entries of a map of strings as name-and-text pairs, in key order.
pub open spec fn entry_pairs(m: StrMap<String>) -> Seq<(Seq<char>, Seq<char>)> {
    Seq::new(m.keys().len(), |i: int| (m.keys()[i], m.str_vals()[i]))
}

/// A peer the metadata marks optional.
pub open spec fn optional_peer(meta: StrMap<PeerDepMeta>, name: Seq<char>) -> bool {
    meta.has(name) && meta.at(name).optional
}

/// The peer dependencies a package requires: those not marked optional.
pub open spec fn required_peers(md: PackageMetadata) -> Seq<(Seq<char>, Seq<char>)> {
    entry_pairs(md.peer_dependencies).filter(
        |q: (Seq<char>, Seq<char>)| !optional_peer(md.peer_dependencies_meta, q.0),
    )
}

/// The entries of a map of strings as (name, text) pairs.
fn dependency_pairs(m: &StrMap<String>) -> (r: Vec<(PackageName, String)>)
    ensures
        pair_views(r@) == entry_pairs(*m),
{
    let raw = m.pairs();
    let mut out: Vec<(PackageName, String)> = Vec::new();
    let mut i: usize = 0;
    while i < raw.len()
        invariant
            i <= raw@.len(),
            raw@.len() == m.keys().len(),
            forall|j: int|
                0 <= j < raw@.len() ==> (#[trigger] raw@[j]).0@ == m.keys()[j] && raw@[j].1@ == m.str_vals()[j],
            out@.len() == i,
            forall|j: int| 0 <= j < i ==> (#[trigger] out@[j]).0@ == raw@[j].0@ && out@[j].1@ == raw@[j].1@,
        decreases raw@.len() - i,
    {
        out.push((PackageName::new(owned(raw[i].0.as_str())), owned(raw[i].1.as_str())));
        i = i + 1;
    }
    proof {
        assert(pair_views(out@) =~= entry_pairs(*m));
    }
    out
}

/// The peer dependencies a package requires, skipping those its metadata
/// marks optional.
pub fn collect_required_peer_deps(metadata: &PackageMetadata) -> (r: Vec<(PackageName, String)>)
    ensures
        pair_views(r@) == required_peers(*metadata),
{
    let all = dependency_pairs(&metadata.peer_dependencies);
    let ghost pv = pair_views(all@);
    let ghost pred = |q: (Seq<char>, Seq<char>)| !optional_peer(metadata.peer_dependencies_meta, q.0);
    let mut out: Vec<(PackageName, String)> = Vec::new();
    let mut i: usize = 0;
    proof {
        reveal(Seq::filter);
        assert(pv.take(0) =~= Seq::<(Seq<char>, Seq<char>)>::empty());
        assert(pair_views(out@) =~= pv.take(0).filter(pred));
    }
    while i < all.len()
        invariant
            i <= all@.len(),
            pv == pair_views(all@),
            pred == (|q: (Seq<char>, Seq<char>)| !optional_peer(metadata.peer_dependencies_meta, q.0)),
            pair_views(out@) == pv.take(i as int).filter(pred),
        decreases all@.len() - i,
    {
        let name = all[i].0.as_str();
        let ghost q = pv[i as int];
        let ghost before = out@;
        let optional = match metadata.peer_dependencies_meta.get(name) {
            Some(meta) => meta.optional,
            None => false,
        };
        if !optional {
            out.push((PackageName::new(owned(name)), owned(all[i].1.as_str())));
        }
        proof {
            assert(pv.take(i + 1) =~= pv.take(i as int).push(q));
            pv.take(i as int).lemma_filter_push(q, pred);
            if !optional {
                assert(pair_views(out@) =~= pair_views(before).push(q));
            }
        }
        i = i + 1;
    }
    proof {
        assert(pv.take(all@.len() as int) =~= pv);
    }
    out
}

/// The name a request is fetched under: the aliased package for an alias,
/// else the requested name.
pub fn fetch_name<'a>(name: &'a PackageName, constraint: &'a VersionConstraint) -> (r: &'a PackageName)
    ensures
        r@ == (match constraint.kind {
            ConstraintKind::Alias { package, .. } => package@,
            _ => name@,
        }),
{
    match &constraint.kind {
        ConstraintKind::Alias { package, .. } => package,
        _ => name,
    }
}

/// Why a fetched packument could not answer a request.
#[derive(Debug)]
pub enum TaskError {
    /// No version could be selected.
    Select(SelectError),
    /// The selected version (by its text) has no entry in the packument.
    VersionNotInPackument(String),
    /// The selected version has no dist info.
    NoDist { name: String, version: String },
}

/// The integrity a dist carries: the integrity string, else the shasum,
/// else nothing.
pub open spec fn dist_integrity(d: Dist) -> Seq<char> {
    match d.integrity {
        Some(s) => s@,
        None => match d.shasum {
            Some(s) => s@,
            None => Seq::empty(),
        },
    }
}

/// A patch by the characters of its fields.
pub open spec fn patch_view(p: PatchSpec) -> (Seq<char>, VersionView, Seq<char>) {
    (p.package_name@, p.package_version@, p.patch_path@)
}

fn copy_patch(p: &PatchSpec) -> (r: PatchSpec)
    ensures
        patch_view(r) == patch_view(*p),
{
    PatchSpec {
        package_name: p.package_name.clone(),
        package_version: p.package_version.clone(),
        patch_path: owned(p.patch_path.as_str()),
    }
}

/// `t` is what a request for `name` under constraint `c` finds when the
/// selected version is `v` and its metadata `md` has dist `d`.
pub open spec fn task_from(
    t: ResolveTaskResult,
    name: Seq<char>,
    c: &VersionConstraint,
    peers: bool,
    v: VersionView,
    md: PackageMetadata,
    d: Dist,
) -> bool {
    &&& id_view(t.pkg_id) == (name, v)
    &&& t.constraint@ == c.raw@
    &&& t.resolve_peer_dependencies == peers
    &&& pair_views(t.deps@) == entry_pairs(md.dependencies)
    &&& pair_views(t.opt_deps@) == entry_pairs(md.optional_dependencies)
    &&& pair_views(t.peer_deps@) == required_peers(md)
    &&& t.tarball@ == d.tarball@
    &&& t.integrity@ == dist_integrity(d)
    &&& opt_view(t.engines) == (match md.engines {
        Some(e) => opt_view(e.node),
        None => None,
    })
    &&& strs_view(t.os@) == strs_view(md.os@)
    &&& strs_view(t.cpu@) == strs_view(md.cpu@)
    &&& match c.kind {
        ConstraintKind::Patch(s) => t.patch matches Some(q) && patch_view(q) == patch_view(s),
        _ => t.patch is None,
    }
}

/// What a fetched packument answers to a request: the selected version's
/// identity, its dependencies, required peers, dist and platform fields.
pub fn task_result(
    name: &PackageName,
    constraint: &VersionConstraint,
    resolve_peer_dependencies: bool,
    packument: &Packument,
) -> (r: Result<ResolveTaskResult, TaskError>)
    ensures
        match r {
            Ok(t) => exists|v: Version|
                select_spec(packument, constraint, Ok(v)) && packument.versions.has(version_text(v@))
                    && (packument.versions.at(version_text(v@)).dist matches Some(d) && task_from(
                    t,
                    name@,
                    constraint,
                    resolve_peer_dependencies,
                    v@,
                    packument.versions.at(version_text(v@)),
                    d,
                )),
            Err(TaskError::Select(e)) => select_spec(packument, constraint, Err(e)),
            Err(TaskError::VersionNotInPackument(s)) => exists|v: Version|
                select_spec(packument, constraint, Ok(v)) && !packument.versions.has(version_text(v@))
                    && s@ == version_text(v@),
            Err(TaskError::NoDist { name: n, version: s }) => exists|v: Version|
                select_spec(packument, constraint, Ok(v)) && packument.versions.has(version_text(v@))
                    && packument.versions.at(version_text(v@)).dist is None && n@ == name@ && s@
                    == version_text(v@),
        },
{
    let version = match select_version(packument, constraint) {
        Ok(v) => v,
        Err(e) => {
            return Err(TaskError::Select(e));
        },
    };
    let text = version.to_text();
    let metadata = match packument.versions.get(text.as_str()) {
        Some(m) => m,
        None => {
            return Err(TaskError::VersionNotInPackument(text));
        },
    };
    let dist = match &metadata.dist {
        Some(d) => d,
        None => {
            return Err(TaskError::NoDist { name: owned(name.as_str()), version: text });
        },
    };
    let integrity = match &dist.integrity {
        Some(s) => owned(s.as_str()),
        None => match &dist.shasum {
            Some(s) => owned(s.as_str()),
            None => String::new(),
        },
    };
    let engines = match &metadata.engines {
        Some(e) => copy_opt(&e.node),
        None => None,
    };
    let patch = match &constraint.kind {
        ConstraintKind::Patch(spec) => Some(copy_patch(spec)),
        _ => None,
    };
    let ghost v = version;
    let t = ResolveTaskResult {
        pkg_id: PackageId::new(name.clone(), version),
        constraint: owned(constraint.raw.as_str()),
        resolve_peer_dependencies,
        deps: dependency_pairs(&metadata.dependencies),
        opt_deps: dependency_pairs(&metadata.optional_dependencies),
        peer_deps: collect_required_peer_deps(metadata),
        tarball: owned(dist.tarball.as_str()),
        integrity,
        engines,
        os: copy_strs(&metadata.os),
        cpu: copy_strs(&metadata.cpu),
        patch,
    };
    proof {
        assert(task_from(t, name@, constraint, resolve_peer_dependencies, v@, *metadata, *dist));
    }
    Ok(t)
}

/// How a package spec such as `react@^18` or `@scope/pkg@1.2.3` splits
/// into a name and a constraint text: at its last `@`, when that `@` is not
/// the first character, a scoped name has its `/` before it, and text
/// follows it; else the whole (trimmed) spec is the name and the
/// constraint is `*`.
pub open spec fn spec_parts(spec: Seq<char>) -> (Seq<char>, Seq<char>) {
    let t = trim_spec(spec);
    match rfind_spec(t, '@') {
        Some(at) => if at > 0 && (t[0] != '@' || contains_char_spec(t.take(at), '/')) && at + 1 < t.len() {
            (t.take(at), t.skip(at + 1))
        } else {
            (t, seq!['*'])
        },
        None => (t, seq!['*']),
    }
}

/// Parses a package spec such as "react@^18.2.0" into a name and a
/// constraint; a spec without a version asks for any version.
pub fn parse_package_spec(spec: &str) -> (r: Result<(PackageName, VersionConstraint), ConstraintError>)
    ensures
        match r {
            Ok((n, c)) => n@ == spec_parts(spec@).0 && constraint_spec(spec_parts(spec@).1, Ok(c)),
            Err(e) => constraint_spec(spec_parts(spec@).1, Err(e)),
        },
{
    let t = trim(spec);
    let n = t.unicode_len();
    let star = "*";
    proof {
        reveal_strlit("*");
        lemma_rfind(t@, '@');
    }
    let (name, version) = match rfind_char(t, '@') {
        Some(at) => {
            let head = slice(t, 0, at);
            if at > 0 && (t.get_char(0) != '@' || contains_char(head, '/')) && at + 1 < n {
                proof {
                    assert(head@ =~= t@.take(at as int));
                }
                (head, slice(t, at + 1, n))
            } else {
                (t, star)
            }
        },
        None => (t, star),
    };
    proof {
        assert(star@ =~= seq!['*']);
        if let Some(at) = rfind_spec(t@, '@') {
            assert(t@.subrange(at + 1, n as int) =~= t@.skip(at + 1));
        }
    }
    let constraint = VersionConstraint::parse(version)?;
    Ok((PackageName::new(owned(name)), constraint))
}

impl ResolverState {
    /// Appends to `out` the requests of `v` that are not answered yet.
    fn push_unanswered(&self, v: &Vec<(PackageName, String)>, out: &mut Vec<(PackageName, String)>)
        ensures
            pair_views(final(out)@) == pair_views(old(out)@) + pair_views(v@).filter(
                |q: (Seq<char>, Seq<char>)| !self.memo_view().contains_key(Self::memo_key(q.0, q.1)),
            ),
    {
        let ghost pred = |q: (Seq<char>, Seq<char>)| !self.memo_view().contains_key(Self::memo_key(q.0, q.1));
        let ghost out0 = out@;
        let ghost pv = pair_views(v@);
        let mut i: usize = 0;
        proof {
            assert(pv.take(0) =~= Seq::<(Seq<char>, Seq<char>)>::empty());
            reveal(Seq::filter);
            assert(pair_views(out@) =~= pair_views(out0) + pv.take(0).filter(pred));
        }
        while i < v.len()
            invariant
                i <= v@.len(),
                pv == pair_views(v@),
                pred == (|q: (Seq<char>, Seq<char>)| !self.memo_view().contains_key(Self::memo_key(q.0, q.1))),
                pair_views(out@) == pair_views(out0) + pv.take(i as int).filter(pred),
            decreases v@.len() - i,
        {
            let name = &v[i].0;
            let raw = v[i].1.as_str();
            let ghost q = (name@, raw@);
            let ghost before = out@;
            let answered = self.memo_contains(name, raw);
            if !answered {
                out.push((PackageName::new(owned(name.as_str())), owned(raw)));
            }
            proof {
                assert(pv[i as int] == q);
                assert(pv.take(i + 1) =~= pv.take(i as int).push(q));
                pv.take(i as int).lemma_filter_push(q, pred);
                if !answered {
                    assert(pair_views(out@) =~= pair_views(before).push(q));
                }
            }
            i = i + 1;
        }
        proof {
            assert(pv.take(v@.len() as int) =~= pv);
        }
    }

    /// The requests a manifest starts resolution with: its production, dev
    /// and optional dependencies, in that order, less those already answered.
    pub fn manifest_requests(&self, manifest: &Manifest) -> (r: Vec<(PackageName, String)>)
        ensures
            pair_views(r@) == (entry_pairs(manifest.dependencies) + entry_pairs(manifest.dev_dependencies)
                + entry_pairs(manifest.optional_dependencies)).filter(
                |q: (Seq<char>, Seq<char>)| !self.memo_view().contains_key(Self::memo_key(q.0, q.1)),
            ),
    {
        let ghost pred = |q: (Seq<char>, Seq<char>)| !self.memo_view().contains_key(Self::memo_key(q.0, q.1));
        let mut out: Vec<(PackageName, String)> = Vec::new();
        let deps = dependency_pairs(&manifest.dependencies);
        let dev = dependency_pairs(&manifest.dev_dependencies);
        let opt = dependency_pairs(&manifest.optional_dependencies);
        self.push_unanswered(&deps, &mut out);
        self.push_unanswered(&dev, &mut out);
        self.push_unanswered(&opt, &mut out);
        proof {
            let a = entry_pairs(manifest.dependencies);
            let b = entry_pairs(manifest.dev_dependencies);
            let c = entry_pairs(manifest.optional_dependencies);
            Seq::filter_distributes_over_add(a + b, c, pred);
            Seq::filter_distributes_over_add(a, b, pred);
            assert(pair_views(Seq::<(PackageName, String)>::empty()) =~= Seq::<(Seq<char>, Seq<char>)>::empty());
            assert(pair_views(out@) =~= (a + b + c).filter(pred));
        }
        out
    }
}

/// The version a workspace package is resolved at: its manifest's version
/// when that parses, else 0.0.0.
pub open spec fn workspace_version(m: Manifest) -> VersionView {
    match m.version {
        Some(v) => match semver_parse(strip_v(v@)) {
            Some(x) => x,
            None => (0, 0, 0, Seq::empty(), Seq::empty()),
        },
        None => (0, 0, 0, Seq::empty(), Seq::empty()),
    }
}

/// The package a workspace member resolves to: no tarball or integrity
/// (it lives on disk), its manifest's dependencies, engines and platforms.
pub fn workspace_package(name: &PackageName, manifest: &Manifest) -> (r: ResolvedPackage)
    ensures
        id_view(r.id) == (name@, workspace_version(*manifest)),
        r.integrity@.len() == 0,
        r.tarball@.len() == 0,
        pair_views(r.dependencies@) == entry_pairs(manifest.dependencies),
        pair_views(r.dev_dependencies@) == entry_pairs(manifest.dev_dependencies),
        pair_views(r.optional_dependencies@) == entry_pairs(manifest.optional_dependencies),
        r.peer_dependencies@.len() == 0,
        opt_view(r.engines) == (match manifest.engines {
            Some(e) => opt_view(e.node),
            None => None,
        }),
        strs_view(r.os@) == strs_view(manifest.os@),
        strs_view(r.cpu@) == strs_view(manifest.cpu@),
        r.depnodes@.len() == 0,
        r.patch is None,
{
    let version = match manifest.version_as_version() {
        Some(v) => v,
        None => Version { major: 0, minor: 0, patch: 0, pre: String::new(), build: String::new() },
    };
    let engines = match &manifest.engines {
        Some(e) => copy_opt(&e.node),
        None => None,
    };
    ResolvedPackage {
        id: PackageId::new(name.clone(), version),
        integrity: String::new(),
        tarball: String::new(),
        dependencies: dependency_pairs(&manifest.dependencies),
        dev_dependencies: dependency_pairs(&manifest.dev_dependencies),
        optional_dependencies: dependency_pairs(&manifest.optional_dependencies),
        peer_dependencies: Vec::new(),
        engines,
        os: copy_strs(&manifest.os),
        cpu: copy_strs(&manifest.cpu),
        depnodes: Vec::new(),
        patch: None,
    }
}

} // verus!
