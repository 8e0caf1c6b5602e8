//! Resolved packages and the dependency graph that holds them, ordered by
//! package identity.

use crate::constraint::{PatchSpec, VersionConstraint};
use crate::fetch::{hex_text, sha256_hex, sha256_of};
use crate::name::PackageName;
use crate::order::{compare_str, lemma_lt_irreflexive, lemma_lt_transitive, seq_lt};
use crate::package::{id_key, PackageId};
use crate::version::{semver_order, Order, Version, VersionView};
use vstd::prelude::*;

verus! {

/// A package resolved from the registry with all metadata needed for
/// install.
#[derive(Debug, Clone)]
pub struct ResolvedPackage {
    /// Package identity.
    pub id: PackageId,
    /// Integrity string.
    pub integrity: String,
    /// Tarball URL; empty for workspace packages.
    pub tarball: String,
    /// Regular dependencies.
    pub dependencies: Vec<(PackageName, String)>,
    /// Dev dependencies.
    pub dev_dependencies: Vec<(PackageName, String)>,
    /// Optional dependencies.
    pub optional_dependencies: Vec<(PackageName, String)>,
    /// Peer dependencies.
    pub peer_dependencies: Vec<(PackageName, String)>,
    /// Engine constraint.
    pub engines: Option<String>,
    /// Supported operating systems.
    pub os: Vec<String>,
    /// Supported CPU architectures.
    pub cpu: Vec<String>,
    /// Dependency node keys the package declares.
    pub depnodes: Vec<String>,
    /// Patch applied to this package, if any.
    pub patch: Option<PatchSpec>,
}

/// Diagnostic messages produced during dependency resolution.
#[derive(Debug)]
pub enum ResolverDiagnostic {
    /// A required peer dependency was not found.
    MissingPeer { requester: PackageId, peer_name: PackageName, range: VersionConstraint },
    /// An optional peer dependency was not found.
    OptionalPeerMissing { requester: PackageId, peer_name: PackageName, range: VersionConstraint },
    /// A peer dependency resolved to a version outside the requested range.
    PeerVersionConflict {
        requester: PackageId,
        peer_name: PackageName,
        requested_range: VersionConstraint,
        found_version: Version,
    },
}

/// What `str::to_lowercase` makes of a text.
pub uninterp spec fn lowercase_of(text: Seq<char>) -> Seq<char>;

/// `str::to_lowercase`: the text with every character mapped to its
/// Unicode lowercase.
#[verifier::external_body]
pub(crate) fn to_lowercase(s: &str) -> (r: String)
    ensures
        r@ == lowercase_of(s@),
{
    s.to_lowercase()
}

/// The key packages are ordered and identified by: the lowercased name and
/// the version.
pub open spec fn id_order_key(id: PackageId) -> (Seq<char>, VersionView) {
    (lowercase_of(id.name@), id.version@)
}

pub open spec fn pkg_key(p: ResolvedPackage) -> (Seq<char>, VersionView) {
    id_order_key(p.id)
}

/// `a` comes before `b`.
pub open spec fn key_lt(a: (Seq<char>, VersionView), b: (Seq<char>, VersionView)) -> bool {
    seq_lt(a.0, b.0) || (a.0 == b.0 && semver_order(a.1, b.1) == Order::Less)
}

/// `a` compares equal to `b`.
pub open spec fn key_same(a: (Seq<char>, VersionView), b: (Seq<char>, VersionView)) -> bool {
    a.0 == b.0 && semver_order(a.1, b.1) == Order::Equal
}

/// Packages in strictly increasing key order.
pub open spec fn sorted_packages(ps: Seq<ResolvedPackage>) -> bool {
    forall|i: int, j: int|
        0 <= i < j < ps.len() ==> key_lt(pkg_key(#[trigger] ps[i]), pkg_key(#[trigger] ps[j]))
}

/// `after` is `before` with `pkg` put in: in place of the package of the
/// same identity, or inserted where no package has it.
pub open spec fn inserted_into(
    before: Seq<ResolvedPackage>,
    pkg: ResolvedPackage,
    after: Seq<ResolvedPackage>,
) -> bool {
    exists|i: int|
        0 <= i <= before.len() && ((i < before.len() && key_same(pkg_key(pkg), pkg_key(before[i]))
            && key_same(pkg_key(before[i]), pkg_key(pkg)) && after == before.update(i, pkg)) || ((
        forall|j: int|
            0 <= j < before.len() ==> !key_same(pkg_key(pkg), #[trigger] pkg_key(before[j])))
            && after == before.insert(i, pkg)))
}

/// The resolved dependency graph: packages kept in identity order, one per
/// identity.
#[derive(Debug)]
pub struct DependencyGraph {
    lowers: Vec<String>,
    pkgs: Vec<ResolvedPackage>,
    /// Diagnostic messages collected during resolution.
    pub diagnostics: Vec<ResolverDiagnostic>,
}

/// The `name@version` keys of the packages, concatenated in order.
pub open spec fn keys_text(ps: Seq<ResolvedPackage>) -> Seq<char>
    decreases ps.len(),
{
    if ps.len() == 0 {
        seq![]
    } else {
        keys_text(ps.drop_last()) + id_key(ps.last().id.name@, ps.last().id.version@)
    }
}

impl DependencyGraph {
    /// The packages, in order.
    pub closed spec fn packages_view(&self) -> Seq<ResolvedPackage> {
        self.pkgs@
    }

    /// The diagnostics collected so far.
    pub closed spec fn diagnostics_view(&self) -> Seq<ResolverDiagnostic> {
        self.diagnostics@
    }

    /// The graph's invariant: packages in strictly increasing key order.
    pub closed spec fn wf(&self) -> bool {
        &&& self.lowers@.len() == self.pkgs@.len()
        &&& forall|i: int|
            0 <= i < self.pkgs@.len() ==> (#[trigger] self.lowers@[i])@ == lowercase_of(
                self.pkgs@[i].id.name@,
            )
        &&& sorted_packages(self.pkgs@)
    }

    /// A graph with a valid invariant orders its packages.
    pub proof fn lemma_sorted(&self)
        requires
            self.wf(),
        ensures
            sorted_packages(self.packages_view()),
    {
    }

    /// Creates an empty graph.
    pub fn new() -> (r: Self)
        ensures
            r.wf(),
            r.packages_view().len() == 0,
            r.diagnostics_view().len() == 0,
    {
        DependencyGraph { lowers: Vec::new(), pkgs: Vec::new(), diagnostics: Vec::new() }
    }

    /// Inserts a package: it replaces the package of the same identity, or
    /// takes its place in order.
    pub fn insert(&mut self, pkg: ResolvedPackage)
        requires
            old(self).wf(),
        ensures
            final(self).wf(),
            final(self).diagnostics_view() == old(self).diagnostics_view(),
            inserted_into(old(self).packages_view(), pkg, final(self).packages_view()),
    {
        let lx = to_lowercase(pkg.id.name.as_str());
        let n = self.pkgs.len();
        let ghost old_ps = self.pkgs@;
        let ghost kx = pkg_key(pkg);
        let mut i: usize = 0;
        let mut same = false;
        while i < n
            invariant_except_break
                n == self.pkgs@.len(),
                self.wf(),
                self.pkgs@ == old_ps,
                lx@ == kx.0,
                kx == pkg_key(pkg),
                i <= n,
                forall|j: int| 0 <= j < i ==> key_lt(pkg_key(#[trigger] old_ps[j]), kx),
                forall|j: int| 0 <= j < i ==> !key_same(kx, #[trigger] pkg_key(old_ps[j])),
                !same,
            ensures
                n == self.pkgs@.len(),
                self.wf(),
                self.pkgs@ == old_ps,
                i <= n,
                forall|j: int| 0 <= j < i ==> key_lt(pkg_key(#[trigger] old_ps[j]), kx),
                forall|j: int| 0 <= j < i ==> !key_same(kx, #[trigger] pkg_key(old_ps[j])),
                same ==> i < n && key_same(kx, pkg_key(old_ps[i as int])) && key_same(
                    pkg_key(old_ps[i as int]),
                    kx,
                ) && forall|c: VersionView|
                    semver_order(kx.1, c) == semver_order(old_ps[i as int].id.version@, c),
                !same && i < n ==> key_lt(kx, pkg_key(old_ps[i as int])) && (forall|c: VersionView|
                    kx.0 == pkg_key(old_ps[i as int]).0 ==> (semver_order(
                        old_ps[i as int].id.version@,
                        c,
                    ) != Order::Greater ==> semver_order(kx.1, c) == Order::Less)),
            decreases n - i,
        {
            let c = compare_str(lx.as_str(), self.lowers[i].as_str());
            match c {
                Order::Less => {
                    break;
                },
                Order::Greater => {},
                Order::Equal => {
                    let v = pkg.id.version.compare(&self.pkgs[i].id.version);
                    match v {
                        Order::Less => {
                            break;
                        },
                        Order::Equal => {
                            same = true;
                            break;
                        },
                        Order::Greater => {},
                    }
                },
            }
            i = i + 1;
        }
        proof {
            if !same && i < n {
                assert forall|k: int| i < k < n implies key_lt(kx, pkg_key(#[trigger] old_ps[k])) by {
                    let ki = pkg_key(old_ps[i as int]);
                    let kk = pkg_key(old_ps[k]);
                    assert(key_lt(ki, kk));
                    if seq_lt(kx.0, ki.0) {
                        if seq_lt(ki.0, kk.0) {
                            lemma_lt_transitive(kx.0, ki.0, kk.0);
                        }
                    }
                }
                assert forall|k: int| i <= k < n implies !key_same(kx, #[trigger] pkg_key(old_ps[k])) by {
                    let kk = pkg_key(old_ps[k]);
                    assert(key_lt(kx, kk));
                    if kx.0 == kk.0 {
                        lemma_lt_irreflexive(kx.0);
                    }
                }
            }
            if same {
                assert forall|k: int| i < k < n implies key_lt(kx, pkg_key(#[trigger] old_ps[k])) by {
                    let ki = pkg_key(old_ps[i as int]);
                    let kk = pkg_key(old_ps[k]);
                    assert(key_lt(ki, kk));
                }
            }
        }
        if same {
            self.lowers.set(i, lx);
            self.pkgs.set(i, pkg);
            proof {
                assert(self.pkgs@ == old_ps.update(i as int, pkg));
                assert forall|a: int, b: int|
                    0 <= a < b < self.pkgs@.len() implies key_lt(
                    pkg_key(#[trigger] self.pkgs@[a]),
                    pkg_key(#[trigger] self.pkgs@[b]),
                ) by {
                    if a != i && b != i {
                        assert(key_lt(pkg_key(old_ps[a]), pkg_key(old_ps[b])));
                    }
                }
            }
        } else {
            self.lowers.insert(i, lx);
            self.pkgs.insert(i, pkg);
            proof {
                assert(self.pkgs@ == old_ps.insert(i as int, pkg));
                assert forall|a: int, b: int|
                    0 <= a < b < self.pkgs@.len() implies key_lt(
                    pkg_key(#[trigger] self.pkgs@[a]),
                    pkg_key(#[trigger] self.pkgs@[b]),
                ) by {
                    if a < i && b < i {
                        assert(key_lt(pkg_key(old_ps[a]), pkg_key(old_ps[b])));
                    } else if a < i && b > i {
                        assert(key_lt(pkg_key(old_ps[a]), pkg_key(old_ps[b - 1])));
                    } else if a > i && b > i {
                        assert(key_lt(pkg_key(old_ps[a - 1]), pkg_key(old_ps[b - 1])));
                    }
                }
                assert forall|t: int|
                    0 <= t < self.pkgs@.len() implies (#[trigger] self.lowers@[t])@ == lowercase_of(
                    self.pkgs@[t].id.name@,
                ) by {
                    if t < i {
                    } else if t > i {
                        assert(self.lowers@[t] == old(self).lowers@[t - 1]);
                    }
                }
            }
        }
    }

    /// Looks up the package of an identity.
    pub fn get(&self, id: &PackageId) -> (r: Option<&ResolvedPackage>)
        requires
            self.wf(),
        ensures
            match r {
                Some(p) => exists|i: int|
                    0 <= i < self.packages_view().len() && self.packages_view()[i] == *p
                        && key_same(id_order_key(*id), pkg_key(self.packages_view()[i])),
                None => forall|i: int|
                    0 <= i < self.packages_view().len() ==> !key_same(
                        id_order_key(*id),
                        #[trigger] pkg_key(self.packages_view()[i]),
                    ),
            },
    {
        let lx = to_lowercase(id.name.as_str());
        let n = self.pkgs.len();
        let mut i: usize = 0;
        while i < n
            invariant
                n == self.pkgs@.len(),
                self.wf(),
                lx@ == lowercase_of(id.name@),
                i <= n,
                forall|j: int|
                    0 <= j < i ==> !key_same(id_order_key(*id), #[trigger] pkg_key(self.pkgs@[j])),
            decreases n - i,
        {
            proof {
                assert(self.lowers@[i as int]@ == lowercase_of(self.pkgs@[i as int].id.name@));
            }
            if crate::text::str_eq(lx.as_str(), self.lowers[i].as_str()) {
                let v = id.version.compare(&self.pkgs[i].id.version);
                match v {
                    Order::Equal => {
                        proof {
                            assert(self.packages_view()[i as int] == self.pkgs@[i as int]);
                            assert(key_same(
                                id_order_key(*id),
                                pkg_key(self.packages_view()[i as int]),
                            ));
                        }
                        return Some(&self.pkgs[i]);
                    },
                    _ => {},
                }
            }
            i = i + 1;
        }
        None
    }

    /// Whether a package of that identity is in the graph.
    pub fn contains(&self, id: &PackageId) -> (r: bool)
        requires
            self.wf(),
        ensures
            r == exists|i: int|
                0 <= i < self.packages_view().len() && key_same(
                    id_order_key(*id),
                    #[trigger] pkg_key(self.packages_view()[i]),
                ),
    {
        let g = self.get(id);
        g.is_some()
    }

    /// The packages, in order.
    pub fn packages(&self) -> (r: &Vec<ResolvedPackage>)
        ensures
            r@ == self.packages_view(),
    {
        &self.pkgs
    }

    /// The package IDs, in order.
    pub fn package_ids(&self) -> (r: Vec<PackageId>)
        ensures
            r@.len() == self.packages_view().len(),
            forall|i: int|
                0 <= i < r@.len() ==> (#[trigger] r@[i]).name@ == self.packages_view()[i].id.name@
                    && r@[i].version@ == self.packages_view()[i].id.version@,
    {
        let mut out: Vec<PackageId> = Vec::new();
        let mut i: usize = 0;
        while i < self.pkgs.len()
            invariant
                i <= self.pkgs@.len(),
                out@.len() == i,
                forall|j: int|
                    0 <= j < i ==> (#[trigger] out@[j]).name@ == self.pkgs@[j].id.name@
                        && out@[j].version@ == self.pkgs@[j].id.version@,
            decreases self.pkgs@.len() - i,
        {
            out.push(self.pkgs[i].id.copy());
            i = i + 1;
        }
        out
    }

    /// Inserts every package of `other`, in its order.
    pub fn merge(&mut self, other: DependencyGraph)
        requires
            old(self).wf(),
            other.wf(),
        ensures
            final(self).wf(),
            forall|p: ResolvedPackage|
                other.packages_view().contains(p) ==> final(self).packages_view().contains(p),
            forall|q: ResolvedPackage|
                old(self).packages_view().contains(q) && (forall|j: int|
                    0 <= j < other.packages_view().len() ==> !key_same(
                        #[trigger] pkg_key(other.packages_view()[j]),
                        pkg_key(q),
                    )) ==> final(self).packages_view().contains(q),
            forall|r: ResolvedPackage|
                final(self).packages_view().contains(r) ==> old(self).packages_view().contains(r)
                    || other.packages_view().contains(r),
    {
        let ghost ops = other.pkgs@;
        let ghost start = self.pkgs@;
        let mut rest = other.pkgs;
        proof {
            assert(ops.skip(0) =~= ops);
        }
        while rest.len() > 0
            invariant
                self.wf(),
                sorted_packages(ops),
                rest@.len() <= ops.len(),
                rest@ == ops.skip(ops.len() - rest@.len()),
                forall|t: int|
                    0 <= t < ops.len() - rest@.len() ==> self.pkgs@.contains(#[trigger] ops[t]),
                forall|q: ResolvedPackage|
                    start.contains(q) && (forall|j: int|
                        0 <= j < ops.len() ==> !key_same(#[trigger] pkg_key(ops[j]), pkg_key(q)))
                        ==> self.pkgs@.contains(q),
                forall|r: ResolvedPackage|
                    self.pkgs@.contains(r) ==> start.contains(r) || ops.contains(r),
            decreases rest@.len(),
        {
            let ghost k: int = ops.len() - rest@.len();
            let ghost before = self.pkgs@;
            let ghost before_rest = rest@;
            let p = rest.remove(0);
            proof {
                assert(before_rest[0] == ops.skip(k)[0]);
                assert(p == ops[k]);
                assert(rest@ =~= ops.skip(k + 1));
            }
            self.insert(p);
            proof {
                let after = self.pkgs@;
                let i = choose|i: int|
                    0 <= i <= before.len() && ((i < before.len() && key_same(
                        pkg_key(p),
                        pkg_key(before[i]),
                    ) && key_same(pkg_key(before[i]), pkg_key(p)) && after == before.update(i, p))
                        || ((forall|j: int|
                        0 <= j < before.len() ==> !key_same(pkg_key(p), #[trigger] pkg_key(before[j])))
                        && after == before.insert(i, p)));
                let replaced = i < before.len() && after == before.update(i, p) && key_same(
                    pkg_key(before[i]),
                    pkg_key(p),
                );
                assert(after[i] == p);
                assert forall|t: int| 0 <= t < k + 1 implies after.contains(#[trigger] ops[t]) by {
                    if t < k {
                        let w = choose|w: int| 0 <= w < before.len() && before[w] == ops[t];
                        if replaced {
                            if w == i {
                                assert(key_lt(pkg_key(ops[t]), pkg_key(ops[k])));
                                lemma_lt_irreflexive(pkg_key(ops[t]).0);
                                assert(false);
                            } else {
                                assert(after[w] == ops[t]);
                            }
                        } else {
                            if w < i {
                                assert(after[w] == ops[t]);
                            } else {
                                assert(after[w + 1] == ops[t]);
                            }
                        }
                    } else {
                        assert(after[i] == ops[t]);
                    }
                }
                assert forall|q: ResolvedPackage|
                    start.contains(q) && (forall|j: int|
                        0 <= j < ops.len() ==> !key_same(#[trigger] pkg_key(ops[j]), pkg_key(q)))
                        implies after.contains(q) by {
                    assert(before.contains(q));
                    let w = choose|w: int| 0 <= w < before.len() && before[w] == q;
                    if replaced {
                        if w == i {
                            assert(!key_same(pkg_key(ops[k]), pkg_key(q)));
                        } else {
                            assert(after[w] == q);
                        }
                    } else {
                        if w < i {
                            assert(after[w] == q);
                        } else {
                            assert(after[w + 1] == q);
                        }
                    }
                }
                assert forall|r: ResolvedPackage| after.contains(r) implies start.contains(r)
                    || ops.contains(r) by {
                    let w = choose|w: int| 0 <= w < after.len() && after[w] == r;
                    if w == i {
                        assert(ops[k] == r);
                    } else if replaced {
                        assert(before[w] == r);
                    } else if w < i {
                        assert(before[w] == r);
                    } else {
                        assert(before[w - 1] == r);
                    }
                }
            }
        }
        proof {
            assert forall|p: ResolvedPackage| ops.contains(p) implies self.pkgs@.contains(p) by {
                let t = choose|t: int| 0 <= t < ops.len() && ops[t] == p;
            }
            assert forall|q: ResolvedPackage|
                start.contains(q) && (forall|j: int|
                    0 <= j < other.packages_view().len() ==> !key_same(
                        #[trigger] pkg_key(other.packages_view()[j]),
                        pkg_key(q),
                    )) implies self.pkgs@.contains(q) by {
                assert forall|j: int| 0 <= j < ops.len() implies !key_same(
                    #[trigger] pkg_key(ops[j]),
                    pkg_key(q),
                ) by {
                    assert(ops[j] == other.packages_view()[j]);
                }
            }
        }
    }

    /// Number of packages.
    pub fn len(&self) -> (r: usize)
        ensures
            r == self.packages_view().len(),
    {
        self.pkgs.len()
    }

    /// Whether the graph holds no package.
    pub fn is_empty(&self) -> (r: bool)
        ensures
            r == (self.packages_view().len() == 0),
    {
        self.pkgs.len() == 0
    }

    /// The hex SHA-256 of the packages' `name@version` keys, concatenated
    /// in order.
    pub fn graph_hash(&self) -> (r: String)
        ensures
            r@ == hex_text(sha256_of(vstd::utf8::encode_utf8(keys_text(self.packages_view())))),
    {
        let mut text = String::new();
        let mut i: usize = 0;
        while i < self.pkgs.len()
            invariant
                i <= self.pkgs@.len(),
                text@ == keys_text(self.pkgs@.take(i as int)),
            decreases self.pkgs@.len() - i,
        {
            let k = self.pkgs[i].id.key();
            text.append(k.as_str());
            proof {
                assert(self.pkgs@.take(i + 1).drop_last() =~= self.pkgs@.take(i as int));
            }
            i = i + 1;
        }
        proof {
            assert(self.pkgs@.take(i as int) =~= self.pkgs@);
        }
        sha256_hex(text.as_str().as_bytes())
    }
}

} // verus!
