//! Registry URLs: a registry's base made to end in `/`, then joined with a
//! package's escaped name or its tarball path. The `url` crate parses and
//! joins; the library decides what is joined.

use crate::name::PackageName;
use crate::package::{encoded_name, encoded_package_name, tarball_path_spec, PackageId};
use crate::text::cat;
use vstd::prelude::*;
use vstd::string::StrSliceExecFns;

verus! {

/// The path of the URL that `url::Url::parse` makes of a text, if it parses.
pub uninterp spec fn url_path(text: Seq<char>) -> Option<Seq<char>>;

/// The text of the URL parsed from `text` with its path set to `path`, if
/// `text` parses.
pub uninterp spec fn url_with_path(text: Seq<char>, path: Seq<char>) -> Option<Seq<char>>;

/// The text of the URL parsed from `base` joined with `rel`, if both steps
/// succeed.
pub uninterp spec fn url_join(base: Seq<char>, rel: Seq<char>) -> Option<Seq<char>>;

/// `url::Url::parse` and `Url::path`: the path of the parsed URL, or `None`
/// when the text does not parse; the contract claims that the result is the
/// one `url_path` names.
#[verifier::external_body]
fn parse_url_path(text: &str) -> (r: Option<String>)
    ensures
        match r {
            Some(p) => url_path(text@) == Some(p@),
            None => url_path(text@) is None,
        },
{
    url::Url::parse(text).ok().map(|u| u.path().to_string())
}

/// `url::Url::parse` and `Url::set_path`, serialized: the contract claims
/// that the result is the one `url_with_path` names.
#[verifier::external_body]
fn set_url_path(text: &str, path: &str) -> (r: Option<String>)
    ensures
        match r {
            Some(u) => url_with_path(text@, path@) == Some(u@),
            None => url_with_path(text@, path@) is None,
        },
{
    url::Url::parse(text).ok().map(|mut u| {
        u.set_path(path);
        u.to_string()
    })
}

/// `url::Url::parse` and `Url::join`, serialized: the contract claims that
/// the result is the one `url_join` names.
#[verifier::external_body]
fn join_url(base: &str, rel: &str) -> (r: Option<String>)
    ensures
        match r {
            Some(u) => url_join(base@, rel@) == Some(u@),
            None => url_join(base@, rel@) is None,
        },
{
    url::Url::parse(base).ok().and_then(|u| u.join(rel).ok()).map(|u| u.to_string())
}

/// A registry URL whose path ends in `/`: the registry itself when its path
/// does, else the registry with `/` appended to its path.
pub open spec fn registry_base_spec(registry: Seq<char>) -> Option<Seq<char>> {
    match url_path(registry) {
        None => None,
        Some(p) => if p.len() > 0 && p.last() == '/' {
            Some(registry)
        } else {
            url_with_path(registry, p + seq!['/'])
        },
    }
}

/// The registry URL made to end in `/`, so that joining keeps its path.
pub fn registry_base(registry: &str) -> (r: Option<String>)
    ensures
        match r {
            Some(b) => registry_base_spec(registry@) == Some(b@),
            None => registry_base_spec(registry@) is None,
        },
{
    match parse_url_path(registry) {
        None => None,
        Some(p) => {
            let ps = p.as_str();
            let n = ps.unicode_len();
            if n > 0 && ps.get_char(n - 1) == '/' {
                assert(p@.last() == '/');
                Some(crate::text::owned(registry))
            } else {
                let with_slash = cat(ps, "/");
                proof {
                    reveal_strlit("/");
                    assert(with_slash@ =~= p@ + seq!['/']);
                    assert(!(p@.len() > 0 && p@.last() == '/'));
                }
                set_url_path(registry, with_slash.as_str())
            }
        },
    }
}

/// The registry base joined with a relative reference.
pub open spec fn registry_join_spec(registry: Seq<char>, rel: Seq<char>) -> Option<Seq<char>> {
    match registry_base_spec(registry) {
        None => None,
        Some(b) => url_join(b, rel),
    }
}

fn registry_join(registry: &str, rel: &str) -> (r: Option<String>)
    ensures
        match r {
            Some(u) => registry_join_spec(registry@, rel@) == Some(u@),
            None => registry_join_spec(registry@, rel@) is None,
        },
{
    match registry_base(registry) {
        None => None,
        Some(b) => join_url(b.as_str(), rel),
    }
}

/// The packument URL of a package: the registry base joined with the name,
/// its `/` written `%2f`; `None` where a URL does not parse or join.
pub fn package_metadata_url(registry: &str, name: &PackageName) -> (r: Option<String>)
    ensures
        match r {
            Some(u) => registry_join_spec(registry@, encoded_name(name@)) == Some(u@),
            None => registry_join_spec(registry@, encoded_name(name@)) is None,
        },
{
    let e = encoded_package_name(name);
    registry_join(registry, e.as_str())
}

/// The conventional tarball URL of a package: the registry base joined with
/// `<name>/-/<unscoped name>-<version>.tgz`.
pub fn default_tarball_url(registry: &str, id: &PackageId) -> (r: Option<String>)
    ensures
        match r {
            Some(u) => registry_join_spec(registry@, tarball_path_spec(id.name@, id.version@)) == Some(u@),
            None => registry_join_spec(registry@, tarball_path_spec(id.name@, id.version@)) is None,
        },
{
    let t = id.tarball_path();
    registry_join(registry, t.as_str())
}

} // verus!
