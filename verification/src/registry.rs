//! npm registry metadata (packuments) and version selection from it.

use crate::constraint::{ConstraintKind, VersionConstraint};
use crate::strmap::StrMap;
use crate::text::owned;
use crate::version::{semver_order, semver_parse, semver_req_matches, strip_v, Order, Version, VersionView};
use vstd::prelude::*;

verus! {

/// Metadata for the peer dependency optional marker.
#[derive(Debug, Clone, Default)]
pub struct PeerDepMeta {
    /// Whether this peer dependency is optional.
    pub optional: bool,
}

/// Node/npm engine constraints.
#[derive(Debug, Default)]
pub struct Engines {
    /// Node version constraint.
    pub node: Option<String>,
    /// npm version constraint.
    pub npm: Option<String>,
}

/// Directories map (lib, bin).
#[derive(Debug, Default)]
pub struct Directories {
    pub lib: Option<String>,
    pub bin: Option<String>,
}

/// Distribution info for a published package version.
#[derive(Debug, Default)]
pub struct Dist {
    /// URL to the tarball.
    pub tarball: String,
    /// Integrity hash (sha512/sha1).
    pub integrity: Option<String>,
    /// SHA1 shasum (legacy, superseded by integrity).
    pub shasum: Option<String>,
}

/// Metadata for a single published version of a package.
#[derive(Debug)]
pub struct PackageMetadata {
    pub name: String,
    pub version: String,
    pub dependencies: StrMap<String>,
    pub dev_dependencies: StrMap<String>,
    pub optional_dependencies: StrMap<String>,
    pub peer_dependencies: StrMap<String>,
    pub peer_dependencies_meta: StrMap<PeerDepMeta>,
    pub engines: Option<Engines>,
    pub os: Vec<String>,
    pub cpu: Vec<String>,
    pub dist: Option<Dist>,
    pub optional: bool,
    pub deprecated: Option<String>,
    pub bin: StrMap<String>,
    pub directories: Directories,
    pub has_shrinkwrap: bool,
    pub has_install_script: bool,
    pub bundle_dependencies: Vec<String>,
    pub scripts: StrMap<String>,
    pub homepage: Option<String>,
    pub description: Option<String>,
    pub license: Option<String>,
    pub keywords: Vec<String>,
}

/// The full packument for a package: metadata for all versions plus dist-tags.
#[derive(Debug)]
pub struct Packument {
    /// Package name.
    pub name: String,
    /// Available versions keyed by version string.
    pub versions: StrMap<PackageMetadata>,
    /// Distribution tags (latest, next, beta, ...).
    pub dist_tags: StrMap<String>,
}

/// Why no version could be selected.
#[derive(Debug, Clone, PartialEq, Eq)]
pub enum SelectError {
    /// No published version satisfies the range (carries the constraint text).
    NoMatch(String),
    /// The packument has no usable `latest` dist-tag.
    NoLatest,
    /// The dist-tag is missing or does not name a version.
    TagNotFound(String),
    /// A `catalog:` reference reached selection without being expanded.
    CatalogNotExpanded(String),
}

/// The version a packument key parses to, if any.
pub open spec fn key_version(k: Seq<char>) -> Option<VersionView> {
    semver_parse(strip_v(k))
}

/// A published version (some key of the packument parses to it).
pub open spec fn published(p: &Packument, w: VersionView) -> bool {
    exists|i: int| 0 <= i < p.versions.keys().len() && key_version(p.versions.keys()[i]) == Some(w)
}

/// The versions a constraint of a range kind admits.
pub open spec fn admits(k: ConstraintKind, w: VersionView) -> bool {
    match k {
        ConstraintKind::Range(q) => semver_req_matches(q.text@, w),
        ConstraintKind::AnyRange(qs) => exists|j: int|
            0 <= j < qs@.len() && semver_req_matches(#[trigger] qs@[j].text@, w),
        _ => false,
    }
}

/// `v` is a highest published version that `k` admits.
pub open spec fn highest_admitted(p: &Packument, k: ConstraintKind, v: VersionView) -> bool {
    &&& published(p, v)
    &&& admits(k, v)
    &&& forall|w: VersionView|
        published(p, w) && admits(k, w) ==> semver_order(w, v) != Order::Greater
}

/// The version a dist-tag names, if the tag exists and names a version.
pub open spec fn tag_version(p: &Packument, t: Seq<char>) -> Option<VersionView> {
    if p.dist_tags.has(t) {
        semver_parse(strip_v(p.dist_tags.at(t)@))
    } else {
        None
    }
}

pub open spec fn latest_chars() -> Seq<char> {
    seq!['l', 'a', 't', 'e', 's', 't']
}

/// The outcome of [`select_version`].
pub open spec fn select_spec(p: &Packument, c: &VersionConstraint, r: Result<Version, SelectError>) -> bool
    decreases c,
{
    match &c.kind {
        ConstraintKind::Exact(v) => r matches Ok(x) && x@ == v@,
        ConstraintKind::Range(_) | ConstraintKind::AnyRange(_) => match r {
            Ok(x) => highest_admitted(p, c.kind, x@),
            Err(e) => (e matches SelectError::NoMatch(s) && s@ == c.raw@) && forall|w: VersionView|
                !(published(p, w) && admits(c.kind, w)),
        },
        ConstraintKind::Latest => match tag_version(p, latest_chars()) {
            Some(v) => r matches Ok(x) && x@ == v,
            None => r == Err::<Version, SelectError>(SelectError::NoLatest),
        },
        ConstraintKind::Tag(t) => match tag_version(p, t@) {
            Some(v) => r matches Ok(x) && x@ == v,
            None => r matches Err(SelectError::TagNotFound(s)) && s@ == t@,
        },
        ConstraintKind::Patch(s) => r matches Ok(x) && x@ == s.package_version@,
        ConstraintKind::Catalog(_) => r matches Err(SelectError::CatalogNotExpanded(s)) && s@
            == c.raw@,
        ConstraintKind::Alias { constraint, .. } => select_spec(p, constraint, r),
    }
}

pub(crate) fn admits_exec(k: &ConstraintKind, v: &Version) -> (r: bool)
    requires
        k is Range || k is AnyRange,
    ensures
        r == admits(*k, v@),
{
    match k {
        ConstraintKind::Range(q) => q.matches(v),
        ConstraintKind::AnyRange(qs) => {
            let mut j: usize = 0;
            while j < qs.len()
                invariant
                    j <= qs@.len(),
                    admits(*k, v@) == exists|jj: int|
                        0 <= jj < qs@.len() && semver_req_matches(#[trigger] qs@[jj].text@, v@),
                    forall|i: int| 0 <= i < j ==> !semver_req_matches(#[trigger] qs@[i].text@, v@),
                decreases qs@.len() - j,
            {
                if qs[j].matches(v) {
                    assert(semver_req_matches(qs@[j as int].text@, v@));
                    assert(exists|jj: int|
                        0 <= jj < qs@.len() && semver_req_matches(#[trigger] qs@[jj].text@, v@));
                    return true;
                }
                j = j + 1;
            }
            false
        },
        _ => false,
    }
}

/// The highest published version a range admits.
fn highest_in_range(p: &Packument, k: &ConstraintKind) -> (r: Option<Version>)
    requires
        k is Range || k is AnyRange,
    ensures
        match r {
            Some(x) => highest_admitted(p, *k, x@),
            None => forall|w: VersionView| !(published(p, w) && admits(*k, w)),
        },
{
    let n = p.versions.len();
    let mut best: Option<Version> = None;
    let mut i: usize = 0;
    while i < n
        invariant
            n == p.versions.keys().len(),
            p.versions.wf(),
            k is Range || k is AnyRange,
            i <= n,
            match best {
                Some(b) => {
                    &&& published(p, b@)
                    &&& admits(*k, b@)
                    &&& forall|j: int, w: VersionView|
                        0 <= j < i && key_version(p.versions.keys()[j]) == Some(w) && admits(*k, w)
                            ==> semver_order(w, b@) != Order::Greater
                },
                None => forall|j: int, w: VersionView|
                    0 <= j < i && key_version(p.versions.keys()[j]) == Some(w) ==> !admits(*k, w),
            },
        decreases n - i,
    {
        let key = p.versions.key_at(i);
        match Version::parse(key) {
            None => {},
            Some(v) => {
                if admits_exec(k, &v) {
                    let self_order = v.compare(&v);
                    proof {
                        assert(p.versions.keys()[i as int] == key@);
                        assert(key_version(p.versions.keys()[i as int]) == Some(v@));
                        assert(self_order == Order::Equal);
                    }
                    match &best {
                        None => {
                            best = Some(v);
                        },
                        Some(b) => {
                            let o = b.compare(&v);
                            match o {
                                Order::Less => {
                                    proof {
                                        assert forall|j: int, w: VersionView|
                                            0 <= j < i + 1 && key_version(p.versions.keys()[j])
                                                == Some(w) && admits(*k, w) implies semver_order(
                                            w,
                                            v@,
                                        ) != Order::Greater by {
                                            if j == i {
                                                assert(w == v@);
                                            }
                                        }
                                    }
                                    best = Some(v);
                                },
                                _ => {
                                    proof {
                                        assert(semver_order(v@, b@) != Order::Greater);
                                    }
                                },
                            }
                        },
                    }
                }
            },
        }
        i = i + 1;
    }
    best
}

/// Selects the version a constraint asks for from a packument: exact and
/// patch versions as written, the highest published version in a range, the
/// version a dist-tag names.
pub fn select_version(p: &Packument, c: &VersionConstraint) -> (r: Result<Version, SelectError>)
    ensures
        select_spec(p, c, r),
    decreases c,
{
    match &c.kind {
        ConstraintKind::Exact(v) => Ok(v.clone()),
        ConstraintKind::Range(_) | ConstraintKind::AnyRange(_) => match highest_in_range(
            p,
            &c.kind,
        ) {
            Some(v) => Ok(v),
            None => Err(SelectError::NoMatch(owned(c.raw.as_str()))),
        },
        ConstraintKind::Latest => {
            let latest = "latest";
            proof {
                reveal_strlit("latest");
                assert(latest@ =~= latest_chars());
            }
            match p.dist_tags.get(latest) {
                Some(t) => match Version::parse(t.as_str()) {
                    Some(v) => Ok(v),
                    None => Err(SelectError::NoLatest),
                },
                None => Err(SelectError::NoLatest),
            }
        },
        ConstraintKind::Tag(t) => match p.dist_tags.get(t.as_str()) {
            Some(x) => match Version::parse(x.as_str()) {
                Some(v) => Ok(v),
                None => Err(SelectError::TagNotFound(owned(t.as_str()))),
            },
            None => Err(SelectError::TagNotFound(owned(t.as_str()))),
        },
        ConstraintKind::Patch(s) => Ok(s.package_version.clone()),
        ConstraintKind::Catalog(_) => Err(SelectError::CatalogNotExpanded(owned(c.raw.as_str()))),
        ConstraintKind::Alias { constraint, .. } => select_version(p, constraint),
    }
}

} // verus!
