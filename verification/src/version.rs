//! Semantic versions. Parsing, precedence and range matching are the `semver`
//! crate's; rendering and the `v` prefix are this library's.

use crate::num::{decimal, decimal_string};
use crate::text::{cat, owned, slice, str_eq};
use vstd::prelude::*;
use vstd::string::StrSliceExecFns;
use vstd::string::StringExecFns;

verus! {

/// A semantic version, held as its parts.
#[derive(Debug)]
pub struct Version {
    pub major: u64,
    pub minor: u64,
    pub patch: u64,
    /// Pre-release identifiers (without the leading `-`), empty when none.
    pub pre: String,
    /// Build metadata (without the leading `+`), empty when none.
    pub build: String,
}

/// The parts of a version: major, minor, patch, pre-release, build metadata.
pub type VersionView = (u64, u64, u64, Seq<char>, Seq<char>);

impl View for Version {
    type V = VersionView;

    open spec fn view(&self) -> VersionView {
        (self.major, self.minor, self.patch, self.pre@, self.build@)
    }
}

impl Clone for Version {
    fn clone(&self) -> (r: Self)
        ensures
            r@ == self@,
    {
        Version {
            major: self.major,
            minor: self.minor,
            patch: self.patch,
            pre: self.pre.clone(),
            build: self.build.clone(),
        }
    }
}

/// The result of comparing two values.
#[derive(Debug, Clone, Copy, PartialEq, Eq)]
pub enum Order {
    Less,
    Equal,
    Greater,
}

pub open spec fn reverse_order(o: Order) -> Order {
    match o {
        Order::Less => Order::Greater,
        Order::Equal => Order::Equal,
        Order::Greater => Order::Less,
    }
}

/// What `semver::Version::parse` yields for a text, as parts.
pub uninterp spec fn semver_parse(text: Seq<char>) -> Option<VersionView>;

/// How `semver::Version` (by its `Ord`) orders two versions given as parts.
pub uninterp spec fn semver_order(a: VersionView, b: VersionView) -> Order;

/// Whether `semver::VersionReq::parse` accepts a text.
pub uninterp spec fn semver_req_accepts(text: Seq<char>) -> bool;

/// Whether the requirement that `semver::VersionReq::parse` makes of a text
/// matches a version given as parts.
pub uninterp spec fn semver_req_matches(text: Seq<char>, v: VersionView) -> bool;

/// Calls `semver::Version::parse` and returns the parts of what it parsed;
/// the contract claims only that the result is the one `semver_parse` names
/// for the text.
#[verifier::external_body]
fn semver_version_parse(text: &str) -> (r: Option<Version>)
    ensures
        match r {
            Some(v) => semver_parse(text@) == Some(v@),
            None => semver_parse(text@) is None,
        },
{
    match semver::Version::parse(text) {
        Ok(v) => Some(
            Version {
                major: v.major,
                minor: v.minor,
                patch: v.patch,
                pre: v.pre.as_str().to_string(),
                build: v.build.as_str().to_string(),
            },
        ),
        Err(_) => None,
    }
}

/// Rebuilds both versions as `semver::Version` values and compares them with
/// `Ord::cmp`. The contract claims that the result is the one `semver_order`
/// names for the two part tuples, that swapping the arguments reverses it, and
/// that `Less` chains with `Less` or `Equal`, and `Equal` values compare alike, which `Ord` promises.
/// A pre-release or build text that `semver` would not accept is compared as
/// an empty one.
#[verifier::external_body]
fn semver_version_cmp(a: &Version, b: &Version) -> (r: Order)
    ensures
        r == semver_order(a@, b@),
        semver_order(b@, a@) == reverse_order(r),
        r == Order::Equal ==> forall|c: VersionView| semver_order(a@, c) == semver_order(b@, c),
        r == Order::Less ==> forall|c: VersionView|
            semver_order(b@, c) != Order::Greater ==> semver_order(a@, c) == Order::Less,
        r == Order::Less ==> forall|c: VersionView|
            semver_order(c, a@) != Order::Greater ==> semver_order(c, b@) == Order::Less,
{
    let x = semver::Version { major: a.major, minor: a.minor, patch: a.patch,
        pre: semver::Prerelease::new(&a.pre).unwrap_or(semver::Prerelease::EMPTY),
        build: semver::BuildMetadata::new(&a.build).unwrap_or(semver::BuildMetadata::EMPTY) };
    let y = semver::Version { major: b.major, minor: b.minor, patch: b.patch,
        pre: semver::Prerelease::new(&b.pre).unwrap_or(semver::Prerelease::EMPTY),
        build: semver::BuildMetadata::new(&b.build).unwrap_or(semver::BuildMetadata::EMPTY) };
    match x.cmp(&y) {
        std::cmp::Ordering::Less => Order::Less,
        std::cmp::Ordering::Equal => Order::Equal,
        std::cmp::Ordering::Greater => Order::Greater,
    }
}

/// Calls `semver::VersionReq::parse` and reports whether it succeeded.
#[verifier::external_body]
fn semver_req_parse_ok(text: &str) -> (r: bool)
    ensures
        r == semver_req_accepts(text@),
{
    semver::VersionReq::parse(text).is_ok()
}

/// Parses `text` with `semver::VersionReq::parse` and calls `matches` on the
/// version rebuilt as a `semver::Version`; the contract claims the result is
/// the one `semver_req_matches` names.
#[verifier::external_body]
fn semver_req_match(text: &str, v: &Version) -> (r: bool)
    ensures
        r == semver_req_matches(text@, v@),
{
    let version = semver::Version {
        major: v.major,
        minor: v.minor,
        patch: v.patch,
        pre: semver::Prerelease::new(&v.pre).unwrap_or(semver::Prerelease::EMPTY),
        build: semver::BuildMetadata::new(&v.build).unwrap_or(semver::BuildMetadata::EMPTY),
    };
    match semver::VersionReq::parse(text) {
        Ok(req) => req.matches(&version),
        Err(_) => false,
    }
}

/// The text with one leading `v` or `V` removed.
pub open spec fn strip_v(s: Seq<char>) -> Seq<char> {
    if s.len() > 0 && (s[0] == 'v' || s[0] == 'V') {
        s.drop_first()
    } else {
        s
    }
}

/// `major.minor.patch`, then `-pre` and `+build` when present.
pub open spec fn version_text(v: VersionView) -> Seq<char> {
    let core = decimal(v.0 as nat) + seq!['.'] + decimal(v.1 as nat) + seq!['.'] + decimal(
        v.2 as nat,
    );
    let with_pre = if v.3.len() > 0 {
        core + seq!['-'] + v.3
    } else {
        core
    };
    if v.4.len() > 0 {
        with_pre + seq!['+'] + v.4
    } else {
        with_pre
    }
}

/// A version requirement, kept as the text the `semver` crate accepted.
#[derive(Debug)]
pub struct VersionRange {
    pub text: String,
}

impl VersionRange {
    pub open spec fn wf(&self) -> bool {
        semver_req_accepts(self.text@)
    }

    /// Whether `version` satisfies this requirement.
    pub fn matches(&self, version: &Version) -> (r: bool)
        ensures
            r == semver_req_matches(self.text@, version@),
    {
        semver_req_match(self.text.as_str(), version)
    }
}

impl Clone for VersionRange {
    fn clone(&self) -> (r: Self)
        ensures
            r.text@ == self.text@,
    {
        VersionRange { text: self.text.clone() }
    }
}

/// Builds a requirement from `text` when the `semver` crate accepts it.
pub fn parse_semver_req(text: &str) -> (r: Option<VersionRange>)
    ensures
        r is Some <==> semver_req_accepts(text@),
        r matches Some(q) ==> q.text@ == text@ && q.wf(),
{
    if semver_req_parse_ok(text) {
        Some(VersionRange { text: owned(text) })
    } else {
        None
    }
}

impl Version {
    /// Parses a version, after dropping one leading `v` or `V`.
    pub fn parse(s: &str) -> (r: Option<Version>)
        ensures
            match r {
                Some(v) => semver_parse(strip_v(s@)) == Some(v@),
                None => semver_parse(strip_v(s@)) is None,
            },
    {
        let n = s.unicode_len();
        let t = if n > 0 && (s.get_char(0) == 'v' || s.get_char(0) == 'V') {
            let t = slice(s, 1, n);
            assert(t@ =~= s@.drop_first());
            t
        } else {
            s
        };
        semver_version_parse(t)
    }

    /// The text of the version, as `Display` writes it.
    pub fn to_text(&self) -> (r: String)
        ensures
            r@ == version_text(self@),
    {
        let dot = ".";
        let dash = "-";
        let plus = "+";
        proof {
            reveal_strlit(".");
            reveal_strlit("-");
            reveal_strlit("+");
        }
        let mut s = decimal_string(self.major);
        s.append(dot);
        s.append(decimal_string(self.minor).as_str());
        s.append(dot);
        s.append(decimal_string(self.patch).as_str());
        if self.pre.as_str().unicode_len() > 0 {
            s.append(dash);
            s.append(self.pre.as_str());
        }
        if self.build.as_str().unicode_len() > 0 {
            s.append(plus);
            s.append(self.build.as_str());
        }
        s
    }

    /// Equality of all parts.
    pub fn same(&self, other: &Version) -> (r: bool)
        ensures
            r == (self@ == other@),
    {
        let r = self.major == other.major && self.minor == other.minor && self.patch
            == other.patch && str_eq(self.pre.as_str(), other.pre.as_str()) && str_eq(
            self.build.as_str(),
            other.build.as_str(),
        );
        r
    }

    /// Precedence as the `semver` crate orders versions.
    pub fn compare(&self, other: &Version) -> (r: Order)
        ensures
            r == semver_order(self@, other@),
            semver_order(other@, self@) == reverse_order(r),
            r == Order::Equal ==> forall|c: VersionView|
                semver_order(self@, c) == semver_order(other@, c),
            r == Order::Less ==> forall|c: VersionView|
                semver_order(other@, c) != Order::Greater ==> semver_order(self@, c) == Order::Less,
            r == Order::Less ==> forall|c: VersionView|
                semver_order(c, self@) != Order::Greater ==> semver_order(c, other@) == Order::Less,
    {
        semver_version_cmp(self, other)
    }
}

} // verus!
