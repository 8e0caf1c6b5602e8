//! What the linker reports, and which package versions its dependency links
//! point at.

use crate::constraint::{ConstraintKind, VersionConstraint};
use crate::graph::{DependencyGraph, ResolvedPackage};
use crate::name::PackageName;
use crate::package::{id_key, PackageId};
use crate::paths::{bare_drive_spec, is_bare_drive_path, normal_components, normal_components_of};
use crate::strs::strs_view;
use crate::text::{cat, str_eq};
use crate::registry::{admits, admits_exec};
use crate::constraint::constraint_spec;
use crate::version::VersionView;
use vstd::prelude::*;

verus! {

/// Report from a link operation.
#[derive(Debug, Clone)]
pub struct LinkReport {
    /// Number of files hardlinked.
    pub hardlinked_files: u64,
    /// Number of files copied (fallback).
    pub copied_files: u64,
    /// Number of symlinks created.
    pub symlinks_created: u64,
    /// Estimated bytes saved by hardlinking.
    pub bytes_saved: u64,
    /// Why the link phase was skipped, if it was.
    pub skipped: Option<String>,
}

/// Report from validating a generated node_modules layout.
#[derive(Debug, Clone)]
pub struct LayoutReport {
    /// Broken links or missing expected package entries.
    pub broken: Vec<String>,
    /// Non-fatal layout observations.
    pub warnings: Vec<String>,
}

impl Default for LayoutReport {
    fn default() -> (r: Self)
        ensures
            r.broken@.len() == 0,
            r.warnings@.len() == 0,
    {
        LayoutReport { broken: Vec::new(), warnings: Vec::new() }
    }
}

/// What the layout check reports when `node_modules` is missing.
pub open spec fn missing_root_message(node_modules: Seq<char>) -> Seq<char> {
    "missing "@ + node_modules
}

/// ... when a direct dependency is missing at `path`.
pub open spec fn missing_direct_message(path: Seq<char>) -> Seq<char> {
    "missing direct dependency "@ + path
}

/// ... when a binary of direct dependency `dep` has no shim at `shim`.
pub open spec fn missing_shim_message(dep: Seq<char>, shim: Seq<char>) -> Seq<char> {
    "missing bin shim for "@ + dep + ": "@ + shim
}

/// ... when a link resolves to a bare drive root.
pub open spec fn unsafe_link_message(link: Seq<char>, resolved: Seq<char>) -> Seq<char> {
    "unsafe directory link "@ + link + " -> "@ + resolved + " (bare drive root)"@
}

/// ... when a link points at nothing.
pub open spec fn broken_link_message(link: Seq<char>, resolved: Seq<char>) -> Seq<char> {
    "broken symlink "@ + link + " -> "@ + resolved
}

/// The problem a link of the virtual store shows, if any: a target that is
/// only a drive root is unsafe, a target that does not exist is broken.
pub open spec fn link_problem(link: Seq<char>, resolved: Seq<char>, root_only: bool, exists: bool) -> Option<Seq<char>> {
    if root_only {
        Some(unsafe_link_message(link, resolved))
    } else if !exists {
        Some(broken_link_message(link, resolved))
    } else {
        None
    }
}

/// Whether a link target is a bare drive (`D:`) or resolves to a volume
/// root: given its canonical form where it has one, a target that is not a
/// directory or has no normal component.
pub open spec fn drive_root_only_spec(path: Seq<char>, canonical: Option<Seq<char>>, canonical_is_dir: bool) -> bool {
    bare_drive_spec(path) || match canonical {
        Some(c) => !canonical_is_dir || normal_components_of(c).len() == 0,
        None => false,
    }
}

/// Whether a link target resolves to nothing but a drive root.
pub fn resolves_to_drive_root_only(path: &str, canonical: &Option<String>, canonical_is_dir: bool) -> (r: bool)
    ensures
        r == drive_root_only_spec(
            path@,
            match canonical {
                Some(c) => Some(c@),
                None => None,
            },
            canonical_is_dir,
        ),
{
    if is_bare_drive_path(path) {
        return true;
    }
    match canonical {
        Some(c) => !canonical_is_dir || normal_components(c.as_str()).len() == 0,
        None => false,
    }
}

impl LayoutReport {
    /// Whether no broken layout entry was found.
    pub fn is_ok(&self) -> (r: bool)
        ensures
            r == (self.broken@.len() == 0),
    {
        self.broken.len() == 0
    }

    /// Records that `node_modules` is missing.
    pub fn record_missing_root(&mut self, node_modules: &str)
        ensures
            strs_view(final(self).broken@) == strs_view(old(self).broken@).push(missing_root_message(node_modules@)),
            final(self).warnings@ == old(self).warnings@,
    {
        let m = cat("missing ", node_modules);
        self.broken.push(m);
        proof {
            assert(strs_view(self.broken@) =~= strs_view(old(self).broken@).push(missing_root_message(node_modules@)));
        }
    }

    /// Records a direct dependency missing at `path`.
    pub fn record_missing_direct(&mut self, path: &str)
        ensures
            strs_view(final(self).broken@) == strs_view(old(self).broken@).push(missing_direct_message(path@)),
            final(self).warnings@ == old(self).warnings@,
    {
        let m = cat("missing direct dependency ", path);
        self.broken.push(m);
        proof {
            assert(strs_view(self.broken@) =~= strs_view(old(self).broken@).push(missing_direct_message(path@)));
        }
    }

    /// Records a missing shim of a binary of direct dependency `dep`.
    pub fn record_missing_shim(&mut self, dep: &str, shim: &str)
        ensures
            strs_view(final(self).broken@) == strs_view(old(self).broken@).push(missing_shim_message(dep@, shim@)),
            final(self).warnings@ == old(self).warnings@,
    {
        let mut m = cat("missing bin shim for ", dep);
        m.append(": ");
        m.append(shim);
        self.broken.push(m);
        proof {
            assert(strs_view(self.broken@) =~= strs_view(old(self).broken@).push(missing_shim_message(dep@, shim@)));
        }
    }

    /// Records what a link of the virtual store shows: `root_only` when its
    /// target resolves to a drive root, `exists` when its target exists.
    pub fn record_link(&mut self, link: &str, resolved: &str, root_only: bool, exists: bool)
        ensures
            strs_view(final(self).broken@) == match link_problem(link@, resolved@, root_only, exists) {
                Some(m) => strs_view(old(self).broken@).push(m),
                None => strs_view(old(self).broken@),
            },
            final(self).warnings@ == old(self).warnings@,
    {
        if root_only {
            let mut m = cat("unsafe directory link ", link);
            m.append(" -> ");
            m.append(resolved);
            m.append(" (bare drive root)");
            self.broken.push(m);
            proof {
                assert(strs_view(self.broken@) =~= strs_view(old(self).broken@).push(unsafe_link_message(link@, resolved@)));
            }
        } else if !exists {
            let mut m = cat("broken symlink ", link);
            m.append(" -> ");
            m.append(resolved);
            self.broken.push(m);
            proof {
                assert(strs_view(self.broken@) =~= strs_view(old(self).broken@).push(broken_link_message(link@, resolved@)));
            }
        }
    }
}

/// A named script entry from package.json scripts.
#[derive(Debug, Clone)]
pub struct ScriptRef<'a> {
    /// Script name (e.g., "prebuild", "build", "postbuild").
    pub name: String,
    /// Script command string.
    pub command: &'a str,
}

/// Whether a version satisfies a constraint, as the linker reads it:
/// dist-tags, `latest` and catalogs match any version.
pub open spec fn matches_constraint(v: VersionView, c: &VersionConstraint) -> bool
    decreases c,
{
    match &c.kind {
        ConstraintKind::Exact(x) => v == x@,
        ConstraintKind::Range(_) | ConstraintKind::AnyRange(_) => admits(c.kind, v),
        ConstraintKind::Alias { constraint, .. } => matches_constraint(v, constraint),
        ConstraintKind::Patch(s) => v == s.package_version@,
        ConstraintKind::Latest | ConstraintKind::Tag(_) | ConstraintKind::Catalog(_) => true,
    }
}

/// Whether a package's version satisfies a constraint.
pub fn package_matches_constraint(pkg_id: &PackageId, constraint: &VersionConstraint) -> (r: bool)
    ensures
        r == matches_constraint(pkg_id.version@, constraint),
        constraint.kind matches ConstraintKind::Exact(x) ==> (r <==> pkg_id.version@ == x@),
        constraint.kind matches ConstraintKind::Patch(s) ==> (r <==> pkg_id.version@
            == s.package_version@),
    decreases constraint,
{
    match &constraint.kind {
        ConstraintKind::Exact(version) => pkg_id.version.same(version),
        ConstraintKind::Range(_) | ConstraintKind::AnyRange(_) => admits_exec(&constraint.kind, &pkg_id.version),
        ConstraintKind::Alias { constraint: inner, .. } => package_matches_constraint(pkg_id, inner),
        ConstraintKind::Patch(spec) => pkg_id.version.same(&spec.package_version),
        ConstraintKind::Latest => true,
        ConstraintKind::Tag(_) => true,
        ConstraintKind::Catalog(_) => true,
    }
}

/// An exact version constraint (or a patch of a version) matches that
/// version and no other: every part, pre-release and build included, must
/// be equal; a dist-tag, `latest` or a catalog matches every version.
pub proof fn lemma_exact_constraint_matches_only_its_version(v: VersionView, c: &VersionConstraint)
    ensures
        c.kind matches ConstraintKind::Exact(x) ==> (matches_constraint(v, c) <==> v == x@),
        c.kind matches ConstraintKind::Patch(s) ==> (matches_constraint(v, c) <==> v
            == s.package_version@),
        (c.kind is Latest || c.kind is Tag || c.kind is Catalog) ==> matches_constraint(v, c),
{
}

/// Package `p` is named `name` and satisfies `c`.
pub open spec fn link_candidate(p: ResolvedPackage, name: Seq<char>, c: &VersionConstraint) -> bool {
    p.id.name@ == name && matches_constraint(p.id.version@, c)
}

/// `i` is the last candidate position.
pub open spec fn last_candidate(ps: Seq<ResolvedPackage>, name: Seq<char>, c: &VersionConstraint, i: int) -> bool {
    &&& 0 <= i < ps.len()
    &&& link_candidate(ps[i], name, c)
    &&& forall|j: int| i < j < ps.len() ==> !link_candidate(#[trigger] ps[j], name, c)
}

/// Under an exact constraint the package a dependency links to has exactly
/// that version, and no later package of that name has it.
pub proof fn lemma_exact_selection(ps: Seq<ResolvedPackage>, name: Seq<char>, c: &VersionConstraint, i: int)
    requires
        last_candidate(ps, name, c, i),
        c.kind is Exact,
    ensures
        ps[i].id.name@ == name,
        ps[i].id.version@ == c.kind->Exact_0@,
        forall|j: int|
            i < j < ps.len() && (#[trigger] ps[j]).id.name@ == name ==> ps[j].id.version@ != c.kind->Exact_0@,
{
    assert forall|j: int|
        i < j < ps.len() && (#[trigger] ps[j]).id.name@ == name implies ps[j].id.version@ != c.kind->Exact_0@ by {
        assert(!link_candidate(ps[j], name, c));
    }
}

/// The key of the last package in graph order named `dep_name` whose
/// version satisfies `constraint`.
pub fn select_dependency_key_for(
    graph: &DependencyGraph,
    dep_name: &PackageName,
    constraint: &VersionConstraint,
) -> (r: Option<String>)
    ensures
        match r {
            Some(k) => exists|i: int|
                last_candidate(graph.packages_view(), dep_name@, constraint, i) && k@ == id_key(
                    graph.packages_view()[i].id.name@,
                    graph.packages_view()[i].id.version@,
                ),
            None => forall|i: int|
                0 <= i < graph.packages_view().len() ==> !link_candidate(
                    #[trigger] graph.packages_view()[i],
                    dep_name@,
                    constraint,
                ),
        },
{
    let ps = graph.packages();
    let mut i: usize = ps.len();
    while i > 0
        invariant
            i <= ps@.len(),
            ps@ == graph.packages_view(),
            forall|j: int| i <= j < ps@.len() ==> !link_candidate(#[trigger] ps@[j], dep_name@, constraint),
        decreases i,
    {
        let p = &ps[i - 1];
        if str_eq(p.id.name.as_str(), dep_name.as_str()) && package_matches_constraint(&p.id, constraint) {
            proof {
                assert(last_candidate(ps@, dep_name@, constraint, i - 1));
            }
            return Some(p.id.key());
        }
        i = i - 1;
    }
    None
}

/// The key of the package a dependency `dep_name@raw` links to: the last
/// matching package in graph order; `None` when `raw` is not a constraint or
/// nothing matches.
pub fn select_dependency_key(graph: &DependencyGraph, dep_name: &PackageName, raw: &str) -> (r: Option<String>)
    ensures
        r is Some ==> exists|c: VersionConstraint|
            constraint_spec(raw@, Ok(c)) && exists|i: int|
                last_candidate(graph.packages_view(), dep_name@, &c, i) && r->0@ == id_key(
                    graph.packages_view()[i].id.name@,
                    graph.packages_view()[i].id.version@,
                ),
        r is None ==> (exists|e: crate::constraint::ConstraintError| constraint_spec(raw@, Err(e))) || exists|c: VersionConstraint|
            constraint_spec(raw@, Ok(c)) && forall|i: int|
                0 <= i < graph.packages_view().len() ==> !link_candidate(
                    #[trigger] graph.packages_view()[i],
                    dep_name@,
                    &c,
                ),
{
    match VersionConstraint::parse(raw) {
        Ok(c) => select_dependency_key_for(graph, dep_name, &c),
        Err(_) => None,
    }
}

} // verus!
