//! An ordered map keyed by strings: the entries are kept sorted by key, as a
//! `BTreeMap<String, V>` walks them.

use crate::order::{compare_str, lemma_lt_asymmetric, lemma_lt_irreflexive, lemma_lt_total, lemma_lt_transitive, seq_lt};
use crate::strs::strs_view;
use crate::text::{owned, str_eq};
use crate::version::Order;
use vstd::prelude::*;

verus! {

/// A prefix one longer holds what the shorter one holds and the next key.
pub proof fn lemma_take_push_contains(s: Seq<Seq<char>>, i: int, q: Seq<char>)
    requires
        0 <= i < s.len(),
    ensures
        s.take(i + 1).contains(q) <==> (s.take(i).contains(q) || q == s[i]),
{
    let w = s.take(i);
    if w.contains(q) {
        let t = choose|t: int| 0 <= t < w.len() && w[t] == q;
        assert(s.take(i + 1)[t] == q);
    }
    if q == s[i] {
        assert(s.take(i + 1)[i] == q);
    }
    let u = s.take(i + 1);
    if u.contains(q) {
        let t = choose|t: int| 0 <= t < u.len() && u[t] == q;
        if t < i {
            assert(s.take(i)[t] == q);
        }
    }
}

/// The whole prefix is the sequence itself.
pub proof fn lemma_take_all_contains(s: Seq<Seq<char>>, q: Seq<char>)
    ensures
        s.take(s.len() as int).contains(q) == s.contains(q),
{
    assert(s.take(s.len() as int) =~= s);
}

/// Keys strictly increasing.
pub open spec fn sorted_keys(ks: Seq<Seq<char>>) -> bool {
    forall|i: int, j: int| 0 <= i < j < ks.len() ==> seq_lt(#[trigger] ks[i], #[trigger] ks[j])
}

/// A map from strings to values whose entries are kept in increasing key
/// order.
#[derive(Debug)]
pub struct StrMap<V> {
    entries: Vec<(String, V)>,
}

impl<V> StrMap<V> {
    /// The keys, in increasing order.
    pub closed spec fn keys(&self) -> Seq<Seq<char>> {
        self.entries@.map_values(|e: (String, V)| e.0@)
    }

    /// The values, in the order of their keys.
    pub closed spec fn vals(&self) -> Seq<V> {
        self.entries@.map_values(|e: (String, V)| e.1)
    }

    #[verifier::type_invariant]
    closed spec fn keys_in_order(&self) -> bool {
        sorted_keys(self.keys())
    }

    /// The map's invariant: keys strictly increasing, one value per key.
    pub open spec fn wf(&self) -> bool {
        &&& sorted_keys(self.keys())
        &&& self.keys().len() == self.vals().len()
    }

    /// Position of `k` among the keys.
    pub open spec fn index_of(&self, k: Seq<char>) -> int {
        choose|i: int| 0 <= i < self.keys().len() && self.keys()[i] == k
    }

    pub open spec fn has(&self, k: Seq<char>) -> bool {
        exists|i: int| 0 <= i < self.keys().len() && self.keys()[i] == k
    }

    /// The value stored under `k`.
    pub open spec fn at(&self, k: Seq<char>) -> V {
        self.vals()[self.index_of(k)]
    }

    /// Presence of a key is membership in the key sequence.
    pub proof fn lemma_has_contains(&self, q: Seq<char>)
        ensures
            self.has(q) == self.keys().contains(q),
    {
    }

    /// Creates an empty map.
    pub fn new() -> (r: Self)
        ensures
            r.wf(),
            r.keys().len() == 0,
    {
        StrMap { entries: Vec::new() }
    }

    /// Number of entries.
    pub fn len(&self) -> (r: usize)
        ensures
            self.wf(),
            r == self.keys().len(),
    {
        proof {
            use_type_invariant(self);
        }
        self.entries.len()
    }

    pub fn is_empty(&self) -> (r: bool)
        ensures
            self.wf(),
            r == (self.keys().len() == 0),
    {
        proof {
            use_type_invariant(self);
        }
        self.entries.len() == 0
    }

    /// The key at position `i`.
    pub fn key_at(&self, i: usize) -> (r: &str)
        requires
            i < self.keys().len(),
        ensures
            self.wf(),
            r@ == self.keys()[i as int],
    {
        proof {
            use_type_invariant(self);
        }
        self.entries[i].0.as_str()
    }

    /// The value at position `i`.
    pub fn value_at(&self, i: usize) -> (r: &V)
        requires
            i < self.keys().len(),
        ensures
            self.wf(),
            *r == self.vals()[i as int],
    {
        proof {
            use_type_invariant(self);
        }
        &self.entries[i].1
    }

    /// Position of the first key not below `k`, and whether it equals `k`.
    fn search(&self, k: &str) -> (r: (usize, bool))
        ensures
            self.wf(),
            r.0 <= self.keys().len(),
            forall|j: int| 0 <= j < r.0 ==> seq_lt(#[trigger] self.keys()[j], k@),
            r.0 < self.keys().len() ==> !seq_lt(self.keys()[r.0 as int], k@),
            r.1 == (r.0 < self.keys().len() && self.keys()[r.0 as int] == k@),
    {
        proof {
            use_type_invariant(self);
        }
        let n = self.entries.len();
        let mut i: usize = 0;
        while i < n
            invariant
                n == self.keys().len(),
                self.wf(),
                i <= n,
                forall|j: int| 0 <= j < i ==> seq_lt(#[trigger] self.keys()[j], k@),
            decreases n - i,
        {
            let c = compare_str(self.entries[i].0.as_str(), k);
            match c {
                Order::Less => {},
                Order::Equal => {
                    return (i, true);
                },
                Order::Greater => {
                    proof {
                        lemma_lt_asymmetric(k@, self.keys()[i as int]);
                        lemma_lt_irreflexive(k@);
                    }
                    return (i, false);
                },
            }
            i = i + 1;
        }
        (i, false)
    }

    /// Where `k` sits among the keys, if present.
    pub proof fn lemma_index(&self, k: Seq<char>, i: int)
        requires
            self.wf(),
            0 <= i < self.keys().len(),
            self.keys()[i] == k,
        ensures
            self.has(k),
            self.index_of(k) == i,
            self.at(k) == self.vals()[i],
    {
        let c = self.index_of(k);
        if c != i {
            if c < i {
                lemma_lt_irreflexive(k);
            } else {
                lemma_lt_irreflexive(k);
            }
        }
    }

    /// Looks up the value stored under `k`.
    pub fn get(&self, k: &str) -> (r: Option<&V>)
        ensures
            self.wf(),
            match r {
                Some(v) => self.has(k@) && *v == self.at(k@),
                None => !self.has(k@),
            },
    {
        let (i, found) = self.search(k);
        if found {
            proof {
                self.lemma_index(k@, i as int);
            }
            Some(&self.entries[i].1)
        } else {
            proof {
                if self.has(k@) {
                    let j = choose|j: int| 0 <= j < self.keys().len() && self.keys()[j] == k@;
                    if j < i {
                        lemma_lt_irreflexive(k@);
                    } else if j > i {
                        lemma_lt_total(self.keys()[i as int], k@);
                        lemma_lt_asymmetric(self.keys()[i as int], k@);
                    }
                }
            }
            None
        }
    }

    /// Position of `k` among the keys, if present.
    pub fn find(&self, k: &str) -> (r: Option<usize>)
        ensures
            self.wf(),
            match r {
                Some(i) => i < self.keys().len() && self.keys()[i as int] == k@ && self.has(k@)
                    && self.index_of(k@) == i,
                None => !self.has(k@),
            },
    {
        let (i, found) = self.search(k);
        if found {
            proof {
                self.lemma_index(k@, i as int);
            }
            Some(i)
        } else {
            proof {
                if self.has(k@) {
                    let j = choose|j: int| 0 <= j < self.keys().len() && self.keys()[j] == k@;
                    if j < i {
                        lemma_lt_irreflexive(k@);
                    } else if j > i {
                        lemma_lt_total(self.keys()[i as int], k@);
                        lemma_lt_asymmetric(self.keys()[i as int], k@);
                    }
                }
            }
            None
        }
    }

    /// Whether `k` is a key.
    pub fn contains_key(&self, k: &str) -> (r: bool)
        ensures
            self.wf(),
            r == self.has(k@),
    {
        self.get(k).is_some()
    }

    /// Inserts `v` under `k`, replacing the value stored there.
    pub fn insert(&mut self, k: String, v: V)
        ensures
            final(self).wf(),
            final(self).has(k@),
            final(self).at(k@) == v,
            forall|q: Seq<char>| q != k@ ==> (final(self).has(q) == old(self).has(q)),
            forall|q: Seq<char>| q != k@ && old(self).has(q) ==> final(self).at(q) == old(self).at(q),
            old(self).has(k@) ==> final(self).keys().len() == old(self).keys().len(),
            !old(self).has(k@) ==> final(self).keys().len() == old(self).keys().len() + 1,
    {
        proof {
            use_type_invariant(&*self);
        }
        let (i, found) = self.search(k.as_str());
        let ghost ok = self.keys();
        let ghost ov = self.vals();
        let mut es: Vec<(String, V)> = Vec::new();
        std::mem::swap(&mut es, &mut self.entries);
        if found {
            es.remove(i);
            es.insert(i, (k, v));
        } else {
            es.insert(i, (k, v));
        }
        proof {
            let nk = es@.map_values(|e: (String, V)| e.0@);
            if found {
                assert(nk =~= ok.update(i as int, k@));
            } else {
                assert(nk =~= ok.insert(i as int, k@));
                assert forall|a: int, b: int| 0 <= a < b < nk.len() implies seq_lt(
                    #[trigger] nk[a],
                    #[trigger] nk[b],
                ) by {
                    if a < i && b == i {
                    } else if a == i && b > i {
                        if b - 1 > i {
                            lemma_lt_total(ok[i as int], k@);
                            lemma_lt_transitive(k@, ok[i as int], ok[b - 1]);
                        } else {
                            lemma_lt_total(ok[i as int], k@);
                        }
                    }
                }
            }
            assert(sorted_keys(nk));
        }
        self.entries = es;
        proof {
            let nk = self.keys();
            let nv = self.vals();
            if found {
                assert(nk =~= ok.update(i as int, k@));
                assert(nv =~= ov.update(i as int, v));
            } else {
                assert(nk =~= ok.insert(i as int, k@));
                assert(nv =~= ov.insert(i as int, v));
                assert forall|a: int, b: int| 0 <= a < b < nk.len() implies seq_lt(
                    #[trigger] nk[a],
                    #[trigger] nk[b],
                ) by {
                    if a < i && b == i {
                    } else if a == i && b > i {
                        if b - 1 > i {
                            lemma_lt_total(ok[i as int], k@);
                            lemma_lt_transitive(k@, ok[i as int], ok[b - 1]);
                        } else {
                            lemma_lt_total(ok[i as int], k@);
                        }
                    }
                }
            }
            assert(sorted_keys(nk));
            assert(nk.len() == nv.len());
            self.lemma_index(k@, i as int);
            assert forall|q: Seq<char>| q != k@ implies (self.has(q) == old(self).has(q)) by {
                if self.has(q) {
                    let j = choose|j: int| 0 <= j < nk.len() && nk[j] == q;
                    if found {
                        assert(ok[j] == q);
                    } else if j < i {
                        assert(ok[j] == q);
                    } else {
                        assert(ok[j - 1] == q);
                    }
                }
                if old(self).has(q) {
                    let j = choose|j: int| 0 <= j < ok.len() && ok[j] == q;
                    if found || j < i {
                        assert(nk[j] == q);
                    } else {
                        assert(nk[j + 1] == q);
                    }
                }
            }
            assert forall|q: Seq<char>| q != k@ && old(self).has(q) implies self.at(q) == old(
                self,
            ).at(q) by {
                let j = choose|j: int| 0 <= j < ok.len() && ok[j] == q;
                old(self).lemma_index(q, j);
                if found || j < i {
                    self.lemma_index(q, j);
                } else {
                    self.lemma_index(q, j + 1);
                }
            }
            if old(self).has(k@) {
                let j = choose|j: int| 0 <= j < ok.len() && ok[j] == k@;
                if !found {
                    if j < i {
                        lemma_lt_irreflexive(k@);
                    } else {
                        lemma_lt_total(ok[i as int], k@);
                        if j > i {
                            lemma_lt_transitive(k@, ok[i as int], ok[j]);
                        }
                        lemma_lt_irreflexive(k@);
                    }
                }
            }
        }
    }

    /// Removes the entry at position `i`.
    pub fn remove_at(&mut self, i: usize) -> (r: (String, V))
        requires
            i < old(self).keys().len(),
        ensures
            final(self).wf(),
            final(self).keys() == old(self).keys().remove(i as int),
            final(self).vals() == old(self).vals().remove(i as int),
            r.0@ == old(self).keys()[i as int],
            r.1 == old(self).vals()[i as int],
    {
        proof {
            use_type_invariant(&*self);
        }
        let ghost ok = self.keys();
        let ghost ov = self.vals();
        let mut es: Vec<(String, V)> = Vec::new();
        std::mem::swap(&mut es, &mut self.entries);
        let r = es.remove(i);
        proof {
            let nk = es@.map_values(|e: (String, V)| e.0@);
            assert(nk =~= ok.remove(i as int));
            assert forall|a: int, b: int| 0 <= a < b < nk.len() implies seq_lt(
                #[trigger] nk[a],
                #[trigger] nk[b],
            ) by {
                let x = if a < i {
                    a
                } else {
                    a + 1
                };
                let y = if b < i {
                    b
                } else {
                    b + 1
                };
                assert(seq_lt(ok[x], ok[y]));
            }
        }
        self.entries = es;
        proof {
            assert(self.keys() =~= ok.remove(i as int));
            assert(self.vals() =~= ov.remove(i as int));
        }
        r
    }

    /// The keys, as owned strings in increasing order.
    pub fn keys_vec(&self) -> (r: Vec<String>)
        ensures
            self.wf(),
            r@.map_values(|s: String| s@) == self.keys(),
    {
        proof {
            use_type_invariant(self);
        }
        let mut out: Vec<String> = Vec::new();
        let mut i: usize = 0;
        while i < self.entries.len()
            invariant
                self.wf(),
                i <= self.keys().len(),
                self.entries@.len() == self.keys().len(),
                out@.map_values(|s: String| s@) == self.keys().take(i as int),
            decreases self.keys().len() - i,
        {
            let k = String::from_str(self.entries[i].0.as_str());
            assert(k@ == self.keys()[i as int]);
            let ghost before = out@;
            out.push(k);
            proof {
                assert(out@ == before.push(k));
                assert(self.keys().take(i + 1) =~= self.keys().take(i as int).push(k@));
                assert(out@.map_values(|s: String| s@) =~= before.map_values(|s: String| s@).push(k@));
                assert(out@.map_values(|s: String| s@) =~= self.keys().take(i + 1));
            }
            i = i + 1;
        }
        proof {
            assert(self.keys().take(i as int) =~= self.keys());
        }
        out
    }

    /// After removing position `p`, a key is present exactly when it was and
    /// differs from the removed one, and keeps its value.
    proof fn lemma_removed(before: Self, after: Self, p: int)
        requires
            before.wf(),
            after.wf(),
            0 <= p < before.keys().len(),
            after.keys() == before.keys().remove(p),
            after.vals() == before.vals().remove(p),
        ensures
            forall|q: Seq<char>| after.has(q) <==> (before.has(q) && q != before.keys()[p]),
            forall|q: Seq<char>| after.has(q) ==> after.at(q) == before.at(q),
    {
        let bk = before.keys();
        assert forall|q: Seq<char>| after.has(q) <==> (before.has(q) && q != bk[p]) by {
            if after.has(q) {
                let t = choose|t: int| 0 <= t < after.keys().len() && after.keys()[t] == q;
                if t < p {
                    assert(bk[t] == q);
                    lemma_lt_irreflexive(q);
                    assert(seq_lt(bk[t], bk[p]));
                } else {
                    assert(bk[t + 1] == q);
                    lemma_lt_irreflexive(q);
                    assert(seq_lt(bk[p], bk[t + 1]));
                }
            }
            if before.has(q) && q != bk[p] {
                let t = choose|t: int| 0 <= t < bk.len() && bk[t] == q;
                if t < p {
                    assert(after.keys()[t] == q);
                } else {
                    assert(after.keys()[t - 1] == q);
                }
            }
        }
        assert forall|q: Seq<char>| after.has(q) implies after.at(q) == before.at(q) by {
            let t = choose|t: int| 0 <= t < after.keys().len() && after.keys()[t] == q;
            after.lemma_index(q, t);
            if t < p {
                before.lemma_index(q, t);
            } else {
                before.lemma_index(q, t + 1);
            }
        }
    }

    /// Whether `q` is still present after positions from `j` on were
    /// filtered by `keep`.
    pub open spec fn kept(&self, keep: Seq<bool>, j: int, q: Seq<char>) -> bool {
        self.has(q) && (self.index_of(q) < j || keep[self.index_of(q)])
    }

    /// Keeps the entries whose position is marked in `keep`, drops the rest.
    pub fn retain_marked(&mut self, keep: &Vec<bool>)
        requires
            keep@.len() == old(self).keys().len(),
        ensures
            final(self).wf(),
            final(self).keys().len() <= old(self).keys().len(),
            (forall|t: int| 0 <= t < keep@.len() ==> #[trigger] keep@[t]) ==> final(self).keys().len()
                == old(self).keys().len(),
            forall|q: Seq<char>|
                final(self).has(q) <==> (old(self).has(q) && keep@[old(self).index_of(q)]),
            forall|q: Seq<char>| final(self).has(q) ==> final(self).at(q) == old(self).at(q),
    {
        let n = self.len();
        let ghost o = *self;
        let ghost ok = self.keys();
        let ghost ov = self.vals();
        let mut j: usize = n;
        while j > 0
            invariant
                o.wf(),
                self.wf(),
                ok == o.keys(),
                ov == o.vals(),
                keep@.len() == ok.len(),
                j <= self.keys().len(),
                j <= ok.len(),
                self.keys().len() <= ok.len(),
                (forall|t: int| 0 <= t < keep@.len() ==> #[trigger] keep@[t]) ==> self.keys().len()
                    == ok.len(),
                self.keys().take(j as int) == ok.take(j as int),
                self.vals().take(j as int) == ov.take(j as int),
                forall|q: Seq<char>| #[trigger] self.has(q) == o.kept(keep@, j as int, q),
                forall|q: Seq<char>| self.has(q) ==> self.at(q) == o.at(q),
            decreases j,
        {
            let ghost p: int = j - 1;
            if !keep[j - 1] {
                let ghost before = *self;
                assert(before.keys()[p] == before.keys().take(j as int)[p]);
                assert(ok[p] == ok.take(j as int)[p]);
                self.remove_at(j - 1);
                proof {
                    Self::lemma_removed(before, *self, p);
                    o.lemma_index(ok[p], p);
                    assert(self.keys().take(p) =~= ok.take(p));
                    assert(self.vals().take(p) =~= ov.take(p));
                    assert forall|q: Seq<char>| #[trigger] self.has(q) == o.kept(keep@, p, q) by {
                        if q != ok[p] && o.has(q) {
                            let t = choose|t: int| 0 <= t < ok.len() && ok[t] == q;
                            o.lemma_index(q, t);
                        }
                    }
                }
            } else {
                proof {
                    assert(self.keys().take(p) =~= self.keys().take(j as int).take(p));
                    assert(ok.take(p) =~= ok.take(j as int).take(p));
                    assert(self.vals().take(p) =~= self.vals().take(j as int).take(p));
                    assert(ov.take(p) =~= ov.take(j as int).take(p));
                    assert forall|q: Seq<char>| #[trigger] self.has(q) == o.kept(keep@, p, q) by {
                        if o.has(q) {
                            let t = choose|t: int| 0 <= t < ok.len() && ok[t] == q;
                            o.lemma_index(q, t);
                        }
                    }
                }
            }
            j = j - 1;
        }
        proof {
            assert(o == *old(self));
            assert forall|q: Seq<char>|
                self.has(q) <==> (o.has(q) && keep@[o.index_of(q)]) by {
                assert(self.has(q) == o.kept(keep@, 0, q));
                if o.has(q) {
                    let t = choose|t: int| 0 <= t < ok.len() && ok[t] == q;
                    o.lemma_index(q, t);
                }
            }
        }
    }

    /// The entries, moved out in key order.
    pub fn into_entries(self) -> (r: Vec<(String, V)>)
        ensures
            self.wf(),
            r@.len() == self.keys().len(),
            forall|i: int|
                0 <= i < r@.len() ==> (#[trigger] r@[i]).0@ == self.keys()[i] && r@[i].1
                    == self.vals()[i],
    {
        proof {
            use_type_invariant(&self);
        }
        self.entries
    }

    /// Removes every entry.
    pub fn clear(&mut self)
        ensures
            final(self).wf(),
            final(self).keys().len() == 0,
    {
        self.entries = Vec::new();
        assert(self.keys() =~= Seq::<Seq<char>>::empty());
    }
}

impl StrMap<String> {
    /// The values' characters, in the order of their keys.
    pub open spec fn str_vals(&self) -> Seq<Seq<char>> {
        strs_view(self.vals())
    }

    /// Whether both maps hold the same keys with the same values.
    pub fn same_entries(&self, other: &Self) -> (r: bool)
        ensures
            self.wf(),
            other.wf(),
            r == (self.keys() == other.keys() && self.str_vals() == other.str_vals()),
    {
        proof {
            use_type_invariant(self);
            use_type_invariant(other);
        }
        let n = self.entries.len();
        if n != other.entries.len() {
            proof {
                assert(self.keys().len() != other.keys().len());
            }
            return false;
        }
        let mut i: usize = 0;
        while i < n
            invariant
                n == self.entries@.len(),
                n == other.entries@.len(),
                self.wf(),
                other.wf(),
                i <= n,
                forall|j: int| 0 <= j < i ==> self.keys()[j] == other.keys()[j],
                forall|j: int| 0 <= j < i ==> self.str_vals()[j] == other.str_vals()[j],
            decreases n - i,
        {
            if !str_eq(self.entries[i].0.as_str(), other.entries[i].0.as_str()) {
                proof {
                    assert(self.keys()[i as int] != other.keys()[i as int]);
                }
                return false;
            }
            if !str_eq(self.entries[i].1.as_str(), other.entries[i].1.as_str()) {
                proof {
                    assert(self.str_vals()[i as int] != other.str_vals()[i as int]);
                }
                return false;
            }
            i = i + 1;
        }
        proof {
            assert(self.keys() =~= other.keys());
            assert(self.str_vals() =~= other.str_vals());
        }
        true
    }

    /// The entries as owned `(key, value)` pairs, in key order.
    pub fn pairs(&self) -> (r: Vec<(String, String)>)
        ensures
            self.wf(),
            r@.len() == self.keys().len(),
            forall|i: int|
                0 <= i < r@.len() ==> (#[trigger] r@[i]).0@ == self.keys()[i] && r@[i].1@
                    == self.str_vals()[i],
    {
        proof {
            use_type_invariant(self);
        }
        let mut out: Vec<(String, String)> = Vec::new();
        let mut i: usize = 0;
        while i < self.entries.len()
            invariant
                self.wf(),
                i <= self.entries@.len(),
                self.entries@.len() == self.keys().len(),
                out@.len() == i,
                forall|j: int|
                    0 <= j < i ==> (#[trigger] out@[j]).0@ == self.keys()[j] && out@[j].1@
                        == self.str_vals()[j],
            decreases self.entries@.len() - i,
        {
            let k = owned(self.entries[i].0.as_str());
            let v = owned(self.entries[i].1.as_str());
            out.push((k, v));
            i = i + 1;
        }
        out
    }

    /// A copy of the map.
    pub fn copy(&self) -> (r: Self)
        ensures
            self.wf(),
            r.wf(),
            r.keys() == self.keys(),
            r.str_vals() == self.str_vals(),
    {
        proof {
            use_type_invariant(self);
        }
        let mut es: Vec<(String, String)> = Vec::new();
        let mut i: usize = 0;
        while i < self.entries.len()
            invariant
                self.wf(),
                i <= self.entries@.len(),
                self.entries@.len() == self.keys().len(),
                es@.len() == i,
                forall|j: int| 0 <= j < i ==> #[trigger] es@[j].0@ == self.keys()[j],
                forall|j: int| 0 <= j < i ==> #[trigger] es@[j].1@ == self.str_vals()[j],
            decreases self.entries@.len() - i,
        {
            let k = owned(self.entries[i].0.as_str());
            let v = owned(self.entries[i].1.as_str());
            es.push((k, v));
            i = i + 1;
        }
        proof {
            assert(es@.map_values(|e: (String, String)| e.0@) =~= self.keys());
        }
        let r = StrMap { entries: es };
        proof {
            assert(r.keys() =~= self.keys());
            assert(r.str_vals() =~= self.str_vals());
        }
        r
    }
}

impl<V: Clone> Clone for StrMap<V> {
    /// A copy with the same keys; each value is cloned.
    fn clone(&self) -> (r: Self)
        ensures
            r.keys() == self.keys(),
    {
        proof {
            use_type_invariant(self);
        }
        let mut es: Vec<(String, V)> = Vec::new();
        let mut i: usize = 0;
        while i < self.entries.len()
            invariant
                sorted_keys(self.keys()),
                i <= self.entries@.len(),
                self.entries@.len() == self.keys().len(),
                es@.len() == i,
                forall|j: int| 0 <= j < i ==> #[trigger] es@[j].0@ == self.keys()[j],
            decreases self.entries@.len() - i,
        {
            let k = owned(self.entries[i].0.as_str());
            let v = self.entries[i].1.clone();
            es.push((k, v));
            i = i + 1;
        }
        proof {
            assert(es@.map_values(|e: (String, V)| e.0@) =~= self.keys());
        }
        StrMap { entries: es }
    }
}

} // verus!
