//! Package identity: a name and a version.

use crate::name::{unscoped_spec, PackageName};
use crate::text::{cat, push_char};
use crate::version::{version_text, Version, VersionView};
use vstd::prelude::*;

verus! {

/// Identifies a package: name and version.
#[derive(Debug, Clone)]
pub struct PackageId {
    /// Package name.
    pub name: PackageName,
    /// Package version.
    pub version: Version,
}

/// The text `name@version` of an identity.
pub open spec fn id_key(name: Seq<char>, version: VersionView) -> Seq<char> {
    name + seq!['@'] + version_text(version)
}

impl PackageId {
    /// Creates a package ID.
    pub fn new(name: PackageName, version: Version) -> (r: Self)
        ensures
            r.name@ == name@,
            r.version@ == version@,
    {
        PackageId { name, version }
    }

    /// The key used in lockfiles and the store: `name@version`.
    pub fn key(&self) -> (r: String)
        ensures
            r@ == id_key(self.name@, self.version@),
    {
        let at = "@";
        proof {
            reveal_strlit("@");
        }
        let mut s = cat(self.name.as_str(), at);
        let v = self.version.to_text();
        s.append(v.as_str());
        proof {
            assert(s@ =~= id_key(self.name@, self.version@));
        }
        s
    }

    /// A copy with the same name and version.
    pub fn copy(&self) -> (r: Self)
        ensures
            r.name@ == self.name@,
            r.version@ == self.version@,
    {
        PackageId { name: self.name.clone(), version: self.version.clone() }
    }
}

/// A name as a single URL path segment: each `/` written `%2f`.
pub open spec fn encoded_name(name: Seq<char>) -> Seq<char>
    decreases name.len(),
{
    if name.len() == 0 {
        Seq::empty()
    } else {
        encoded_name(name.drop_last()) + (if name.last() == '/' {
            seq!['%', '2', 'f']
        } else {
            seq![name.last()]
        })
    }
}

/// The packument path of a package on a registry: its name with the scope
/// separator escaped, so that `@scope/pkg` stays one path segment.
pub fn encoded_package_name(name: &PackageName) -> (r: String)
    ensures
        r@ == encoded_name(name@),
{
    let s = name.as_str();
    let n = s.unicode_len();
    let mut out = String::new();
    let mut i: usize = 0;
    proof {
        assert(s@.take(0) =~= Seq::<char>::empty());
    }
    while i < n
        invariant
            n == s@.len(),
            i <= n,
            out@ == encoded_name(s@.take(i as int)),
        decreases n - i,
    {
        let c = s.get_char(i);
        proof {
            assert(s@.take(i + 1).drop_last() =~= s@.take(i as int));
        }
        if c == '/' {
            push_char(&mut out, '%');
            push_char(&mut out, '2');
            push_char(&mut out, 'f');
        } else {
            push_char(&mut out, c);
        }
        proof {
            assert(out@ =~= encoded_name(s@.take(i + 1)));
        }
        i = i + 1;
    }
    proof {
        assert(s@.take(n as int) =~= s@);
    }
    out
}

/// The conventional tarball path of a package on a registry:
/// `<name>/-/<unscoped name>-<version>.tgz`.
pub open spec fn tarball_path_spec(name: Seq<char>, version: VersionView) -> Seq<char> {
    name + "/-/"@ + unscoped_spec(name) + seq!['-'] + version_text(version) + ".tgz"@
}

impl PackageId {
    /// The conventional tarball path of this package on a registry.
    pub fn tarball_path(&self) -> (r: String)
        ensures
            r@ == tarball_path_spec(self.name@, self.version@),
    {
        let mut s = cat(self.name.as_str(), "/-/");
        s.append(self.name.unscoped());
        s.append("-");
        s.append(self.version.to_text().as_str());
        s.append(".tgz");
        proof {
            reveal_strlit("/-/");
            reveal_strlit("-");
            reveal_strlit(".tgz");
            assert(s@ =~= tarball_path_spec(self.name@, self.version@));
        }
        s
    }
}

} // verus!
