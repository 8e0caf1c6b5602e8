//! Peer contexts, package instance identities and resolver diagnostics.

use crate::constraint::VersionConstraint;
use crate::graph::{lowercase_of, to_lowercase, ResolverDiagnostic};
use crate::name::PackageName;
use crate::package::{id_key, PackageId};
use crate::strmap::StrMap;
use crate::text::owned;
use crate::version::{version_text, Order};
use vstd::prelude::*;

verus! {

/// The resolved peers visible from a package's installation point, keyed
/// by the lowercased peer name (names that differ only in case are one peer).
#[derive(Debug, Clone)]
pub struct PeerContext {
    /// Resolved peer packages.
    pub resolved: StrMap<PackageId>,
}

/// A package identity together with the peers visible where it is
/// installed: the same package under two peer environments is two instances.
#[derive(Debug, Clone)]
pub struct PackageInstanceId {
    /// Source package identity.
    pub package: PackageId,
    /// Peer environment at the installation point.
    pub peer_context: PeerContext,
}

/// What a package declares as a peer dependency.
#[derive(Debug)]
pub struct PeerRequirement {
    /// Package that makes this requirement.
    pub requester: PackageId,
    /// Name of the required peer package.
    pub name: PackageName,
    /// Version constraint on the peer.
    pub range: VersionConstraint,
    /// Whether the peer is optional.
    pub optional: bool,
}

/// One peer in a lockfile suffix: `(name@version)`.
pub open spec fn peer_part(id: PackageId) -> Seq<char> {
    seq!['('] + id_key(id.name@, id.version@) + seq![')']
}

/// The parts of a peer context, one per peer, in the context's order: by
/// peer name.
pub open spec fn peer_parts(m: StrMap<PackageId>) -> Seq<Seq<char>> {
    m.vals().map_values(|id: PackageId| peer_part(id))
}

/// The lockfile suffix of a peer context: its parts in the order of the
/// peers' names, joined; empty for an empty context.
pub open spec fn peer_suffix(m: StrMap<PackageId>) -> Seq<char> {
    peer_parts(m).flatten()
}

impl Default for PeerContext {
    /// The empty context.
    fn default() -> (r: Self)
        ensures
            r.resolved.keys().len() == 0,
    {
        PeerContext { resolved: StrMap::new() }
    }
}

impl PeerContext {
    /// True when no peers are present.
    pub fn is_empty(&self) -> (r: bool)
        ensures
            r == (self.resolved.keys().len() == 0),
    {
        self.resolved.is_empty()
    }

    /// Records `id` as the resolved peer `name`, replacing any peer whose
    /// name differs from it only in case.
    pub fn insert(&mut self, name: PackageName, id: PackageId)
        ensures
            final(self).resolved.has(lowercase_of(name@)),
            final(self).resolved.at(lowercase_of(name@)) == id,
            forall|q: Seq<char>|
                q != lowercase_of(name@) ==> (final(self).resolved.has(q) == old(self).resolved.has(q)),
            forall|q: Seq<char>|
                q != lowercase_of(name@) && old(self).resolved.has(q) ==> final(self).resolved.at(q)
                    == old(self).resolved.at(q),
    {
        let key = to_lowercase(name.as_str());
        self.resolved.insert(key, id);
    }

    /// The peer suffix of lockfile keys: `(name@version)` for each peer,
    /// sorted by peer name and joined; empty when there are no peers.
    pub fn key(&self) -> (r: String)
        ensures
            r@ == peer_suffix(self.resolved),
    {
        let n = self.resolved.len();
        let mut parts: Vec<String> = Vec::new();
        let mut i: usize = 0;
        while i < n
            invariant
                n == self.resolved.keys().len(),
                self.resolved.wf(),
                i <= n,
                parts@.len() == i,
                forall|t: int| 0 <= t < i ==> (#[trigger] parts@[t])@ == peer_part(self.resolved.vals()[t]),
            decreases n - i,
        {
            let id = self.resolved.value_at(i);
            let mut part = String::from_str("(");
            let k = id.key();
            part.append(k.as_str());
            part.append(")");
            proof {
                reveal_strlit("(");
                reveal_strlit(")");
                assert(part@ =~= peer_part(*id));
            }
            parts.push(part);
            i = i + 1;
        }
        let ghost sv = parts@.map_values(|s: String| s@);
        proof {
            assert(sv =~= peer_parts(self.resolved));
            assert(sv.take(0) =~= Seq::<Seq<char>>::empty());
        }
        let mut out = String::new();
        let mut j: usize = 0;
        while j < parts.len()
            invariant
                j <= sv.len(),
                sv == parts@.map_values(|s: String| s@),
                out@ == sv.take(j as int).flatten(),
            decreases sv.len() - j,
        {
            out.append(parts[j].as_str());
            proof {
                lemma_flatten_push(sv.take(j as int), sv[j as int]);
                assert(sv.take(j + 1) =~= sv.take(j as int).push(sv[j as int]));
            }
            j = j + 1;
        }
        proof {
            assert(sv.take(sv.len() as int) =~= sv);
        }
        out
    }
}

/// Flattening after a push appends the pushed text.
proof fn lemma_flatten_push(s: Seq<Seq<char>>, x: Seq<char>)
    ensures
        s.push(x).flatten() == s.flatten() + x,
    decreases s.len(),
{
    if s.len() == 0 {
        assert(s.push(x).drop_first() =~= Seq::<Seq<char>>::empty());
        assert(Seq::<Seq<char>>::empty().flatten() =~= Seq::<char>::empty());
        assert(s.push(x).flatten() =~= x + Seq::<char>::empty());
        assert(s.flatten() =~= Seq::<char>::empty());
    } else {
        lemma_flatten_push(s.drop_first(), x);
        assert(s.push(x).drop_first() =~= s.drop_first().push(x));
        assert(s.push(x).flatten() =~= s.flatten() + x);
    }
}

impl PackageInstanceId {
    /// An instance of `package` under `peer_context`.
    pub fn new(package: PackageId, peer_context: PeerContext) -> (r: Self)
        ensures
            r.package == package,
            r.peer_context == peer_context,
    {
        PackageInstanceId { package, peer_context }
    }

    /// The lockfile key with the peer suffix: `name@version(peer@v)...`.
    pub fn key(&self) -> (r: String)
        ensures
            r@ == id_key(self.package.name@, self.package.version@) + peer_suffix(
                self.peer_context.resolved,
            ),
    {
        let suffix = self.peer_context.key();
        let mut k = self.package.key();
        if suffix.unicode_len() == 0 {
            proof {
                assert(k@ + suffix@ =~= k@);
            }
            k
        } else {
            k.append(suffix.as_str());
            k
        }
    }

    /// The same package with no peers.
    pub fn without_peers(&self) -> (r: PackageInstanceId)
        ensures
            r.package.name@ == self.package.name@,
            r.package.version@ == self.package.version@,
            r.peer_context.resolved.keys().len() == 0,
    {
        PackageInstanceId { package: self.package.copy(), peer_context: PeerContext::default() }
    }
}

/// The text a resolver diagnostic is shown as.
pub open spec fn diagnostic_text(d: ResolverDiagnostic) -> Seq<char> {
    match d {
        ResolverDiagnostic::MissingPeer { requester, peer_name, range } =>
            "warning: unmet peer dependency\n  "@ + id_key(requester.name@, requester.version@)
                + " requires "@ + peer_name@ + "@"@ + range.raw@
                + "\nhint: install the required peer dependency"@,
        ResolverDiagnostic::OptionalPeerMissing { requester, peer_name, range } =>
            "info: optional peer not found\n  "@ + id_key(requester.name@, requester.version@)
                + " prefers "@ + peer_name@ + "@"@ + range.raw@ + " (optional)"@,
        ResolverDiagnostic::PeerVersionConflict {
            requester,
            peer_name,
            requested_range,
            found_version,
        } =>
            "warning: peer dependency version conflict\n  "@ + id_key(
                requester.name@,
                requester.version@,
            ) + " requires "@ + peer_name@ + "@"@ + requested_range.raw@ + "\n  found "@
                + peer_name@ + "@"@ + version_text(found_version@) + "\nhint: update "@
                + peer_name@ + " to satisfy the range, or install a compatible "@ + id_key(
                requester.name@,
                requester.version@,
            ) + " version"@,
    }
}

impl ResolverDiagnostic {
    /// The diagnostic as it is shown to the user.
    pub fn message(&self) -> (r: String)
        ensures
            r@ == diagnostic_text(*self),
    {
        match self {
            ResolverDiagnostic::MissingPeer { requester, peer_name, range } => {
                let mut s = String::from_str("warning: unmet peer dependency\n  ");
                s.append(requester.key().as_str());
                s.append(" requires ");
                s.append(peer_name.as_str());
                s.append("@");
                s.append(range.raw.as_str());
                s.append("\nhint: install the required peer dependency");
                proof {
                    reveal_strlit("warning: unmet peer dependency\n  ");
                    reveal_strlit(" requires ");
                    reveal_strlit("@");
                    reveal_strlit("\nhint: install the required peer dependency");
                    assert(s@ =~= diagnostic_text(*self));
                }
                s
            },
            ResolverDiagnostic::OptionalPeerMissing { requester, peer_name, range } => {
                let mut s = String::from_str("info: optional peer not found\n  ");
                s.append(requester.key().as_str());
                s.append(" prefers ");
                s.append(peer_name.as_str());
                s.append("@");
                s.append(range.raw.as_str());
                s.append(" (optional)");
                proof {
                    reveal_strlit("info: optional peer not found\n  ");
                    reveal_strlit(" prefers ");
                    reveal_strlit("@");
                    reveal_strlit(" (optional)");
                    assert(s@ =~= diagnostic_text(*self));
                }
                s
            },
            ResolverDiagnostic::PeerVersionConflict {
                requester,
                peer_name,
                requested_range,
                found_version,
            } => {
                let req = requester.key();
                let mut s = String::from_str("warning: peer dependency version conflict\n  ");
                s.append(req.as_str());
                s.append(" requires ");
                s.append(peer_name.as_str());
                s.append("@");
                s.append(requested_range.raw.as_str());
                s.append("\n  found ");
                s.append(peer_name.as_str());
                s.append("@");
                s.append(found_version.to_text().as_str());
                s.append("\nhint: update ");
                s.append(peer_name.as_str());
                s.append(" to satisfy the range, or install a compatible ");
                s.append(req.as_str());
                s.append(" version");
                proof {
                    reveal_strlit("warning: peer dependency version conflict\n  ");
                    reveal_strlit(" requires ");
                    reveal_strlit("@");
                    reveal_strlit("\n  found ");
                    reveal_strlit("\nhint: update ");
                    reveal_strlit(" to satisfy the range, or install a compatible ");
                    reveal_strlit(" version");
                    assert(s@ =~= diagnostic_text(*self));
                }
                s
            },
        }
    }
}

} // verus!
