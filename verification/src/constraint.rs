//! Version constraints as written in package.json: exact versions, npm
//! ranges, dist-tags and the `patch:`, `catalog:` and `npm:` protocols.

use crate::name::{name_verdict, normalize_spec, NameVerdict, PackageName, PackageNameError};
use crate::num::{decimal, decimal_string, parse_u64, parse_u64_spec};
use crate::text::{
    cat, find_str, find_str_spec, join, join_spec, lemma_lead_ws, lemma_trail_ws, occurs_at,
    owned, rfind_char, rfind_spec, lemma_rfind, slice, split_char, split_char_spec, split_str,
    split_str_spec, split_whitespace, starts_with, str_eq, trim, trim_spec, ws_tokens, lead_ws,
    trail_ws,
};
use crate::version::{
    parse_semver_req, semver_parse, semver_req_accepts, strip_v, Version, VersionRange,
};
use vstd::prelude::*;
use vstd::string::StrSliceExecFns;
use vstd::string::StringExecFns;

verus! {

/// A catalog: protocol reference.
#[derive(Debug, Clone)]
pub struct CatalogConstraint {
    /// The catalog name (None = default catalog, Some(name) = named catalog).
    pub catalog_name: Option<String>,
}

/// A patch: protocol specification.
#[derive(Debug, Clone)]
pub struct PatchSpec {
    /// The name of the package being patched.
    pub package_name: PackageName,
    /// The exact version of the package being patched.
    pub package_version: Version,
    /// The path to the patch file (relative to project root).
    pub patch_path: String,
}

/// A catalog: protocol specification.
#[derive(Debug, Clone)]
pub struct CatalogSpec {
    /// The catalog name (None = default catalog, Some(name) = named catalog).
    pub catalog_name: Option<String>,
}

/// The kind of version constraint.
#[derive(Debug)]
pub enum ConstraintKind {
    /// Exact version match: "1.2.3"
    Exact(Version),
    /// Range constraint: "^1.0.0", ">=2.0", "*", etc.
    Range(VersionRange),
    /// Npm OR range: "^9.0.3 || ^10.1.2".
    AnyRange(Vec<VersionRange>),
    /// "latest".
    Latest,
    /// Dist-tag: "next", "beta", etc.
    Tag(String),
    /// A local patch specification: "patch:pkg@1.0.0#./patches/pkg.patch"
    Patch(PatchSpec),
    /// A catalog: protocol reference: "catalog:" or "catalog:name"
    Catalog(CatalogConstraint),
    /// npm alias protocol: "npm:target@^1.0.0".
    Alias {
        /// The real package name to fetch from the registry.
        package: PackageName,
        /// The version constraint for the real package.
        constraint: Box<VersionConstraint>,
    },
}

/// A version constraint from package.json.
#[derive(Debug)]
pub struct VersionConstraint {
    /// The constraint text, trimmed.
    pub raw: String,
    /// The parsed constraint kind.
    pub kind: ConstraintKind,
}

/// Why a constraint could not be parsed.
#[derive(Debug, Clone, PartialEq, Eq)]
pub enum ConstraintError {
    /// `npm:` without an `@` before the version.
    InvalidAlias(String),
    /// `patch:` without `name@version#path` shape; carries the text after `patch:`.
    InvalidPatch(String),
    /// `patch:` with an empty package name.
    EmptyPatchName,
    /// `patch:` with an empty version.
    EmptyPatchVersion,
    /// `patch:` with an empty patch path.
    EmptyPatchPath,
    /// The version of a `patch:` constraint is not a semantic version.
    InvalidVersion(String),
    /// The package name of an `npm:` alias is invalid.
    InvalidName(PackageNameError),
}

pub open spec fn patch_chars() -> Seq<char> {
    seq!['p', 'a', 't', 'c', 'h', ':']
}

pub open spec fn catalog_chars() -> Seq<char> {
    seq!['c', 'a', 't', 'a', 'l', 'o', 'g', ':']
}

pub open spec fn npm_chars() -> Seq<char> {
    seq!['n', 'p', 'm', ':']
}

pub open spec fn latest_chars() -> Seq<char> {
    seq!['l', 'a', 't', 'e', 's', 't']
}

pub open spec fn or_chars() -> Seq<char> {
    seq!['|', '|']
}

pub open spec fn hyphen_chars() -> Seq<char> {
    seq![' ', '-', ' ']
}

pub open spec fn comma_chars() -> Seq<char> {
    seq![',', ' ']
}

/// `x`, `X` or `*`: a wildcard version part.
pub open spec fn is_wild(p: Seq<char>) -> bool {
    p == seq!['x'] || p == seq!['X'] || p == seq!['*']
}

/// Numeric parts of a partial version, read up to the first wildcard.
pub open spec fn collect_parts(comps: Seq<Seq<char>>) -> Option<Seq<u64>>
    decreases comps.len(),
{
    if comps.len() == 0 {
        Some(seq![])
    } else {
        let c = trim_spec(comps[0]);
        if is_wild(c) {
            Some(seq![])
        } else {
            match parse_u64_spec(c) {
                None => None,
                Some(v) => match collect_parts(comps.drop_first()) {
                    None => None,
                    Some(rest) => Some(seq![v] + rest),
                },
            }
        }
    }
}

/// One to three numeric parts of `1`, `1.2`, `1.2.3`, `1.x`, ...
pub open spec fn partial_parts(raw: Seq<char>) -> Option<Seq<u64>> {
    match collect_parts(split_char_spec(raw, '.')) {
        Some(p) => if 0 < p.len() <= 3 {
            Some(p)
        } else {
            None
        },
        None => None,
    }
}

/// The lower bound of an npm hyphen range: missing parts become zero.
pub open spec fn partial_lower(raw: Seq<char>) -> Option<Seq<char>> {
    match partial_parts(raw) {
        None => None,
        Some(p) => Some(
            decimal(p[0] as nat) + seq!['.'] + decimal(
                (if p.len() > 1 {
                    p[1]
                } else {
                    0
                }) as nat,
            ) + seq!['.'] + decimal(
                (if p.len() > 2 {
                    p[2]
                } else {
                    0
                }) as nat,
            ),
        ),
    }
}

/// The upper bound of an npm hyphen range: `<` the next major or minor when
/// parts are missing, `<=` the version when all three are given. A bound that
/// does not fit in 64 bits gives no range.
pub open spec fn partial_upper(raw: Seq<char>) -> Option<Seq<char>> {
    match partial_parts(raw) {
        None => None,
        Some(p) => if p.len() == 1 {
            if p[0] < u64::MAX {
                Some(seq!['<'] + decimal((p[0] + 1) as nat) + seq!['.', '0', '.', '0'])
            } else {
                None
            }
        } else if p.len() == 2 {
            if p[1] < u64::MAX {
                Some(
                    seq!['<'] + decimal(p[0] as nat) + seq!['.'] + decimal((p[1] + 1) as nat)
                        + seq!['.', '0'],
                )
            } else {
                None
            }
        } else {
            Some(
                seq!['<', '='] + decimal(p[0] as nat) + seq!['.'] + decimal(p[1] as nat)
                    + seq!['.'] + decimal(p[2] as nat),
            )
        },
    }
}

/// `(a, b, c)` comes before `(x, y, z)` in version order.
pub open spec fn triple_lt(a: int, b: int, c: int, x: int, y: int, z: int) -> bool {
    a < x || (a == x && (b < y || (b == y && c < z)))
}

/// The comparator `<x.y.z` (or `<=x.y.z` when `inclusive`).
pub open spec fn comparator_text(inclusive: bool, x: nat, y: nat, z: nat) -> Seq<char> {
    (if inclusive {
        seq!['<', '=']
    } else {
        seq!['<']
    }) + decimal(x) + seq!['.'] + decimal(y) + seq!['.'] + decimal(z)
}

/// The upper bound of a hyphen range is a comparator `<x.y.z` or `<=x.y.z`
/// that admits every version the partial upper version `B` covers and no
/// later one: for `M` all of `M.*.*` and not `(M+1).0.0`; for `M.m` all of
/// `M.m.*` and not `M.(m+1).0`; for `M.m.p` exactly up to `M.m.p`.
pub proof fn lemma_partial_upper_covers(raw: Seq<char>)
    requires
        partial_parts(raw) is Some,
    ensures
        ({
            let p = partial_parts(raw)->Some_0;
            &&& (p.len() == 1 && p[0] < u64::MAX) ==> exists|x: nat, y: nat, z: nat|
                #![trigger comparator_text(false, x, y, z)]
                partial_upper(raw) == Some(comparator_text(false, x, y, z)) && (forall|b: int, c: int|
                    #![trigger triple_lt(p[0] as int, b, c, x as int, y as int, z as int)]
                    b >= 0 && c >= 0 ==> triple_lt(p[0] as int, b, c, x as int, y as int, z as int))
                    && !triple_lt(p[0] + 1, 0, 0, x as int, y as int, z as int)
            &&& (p.len() == 2 && p[1] < u64::MAX) ==> exists|x: nat, y: nat, z: nat|
                #![trigger comparator_text(false, x, y, z)]
                partial_upper(raw) == Some(comparator_text(false, x, y, z)) && (forall|c: int|
                    #![trigger triple_lt(p[0] as int, p[1] as int, c, x as int, y as int, z as int)]
                    c >= 0 ==> triple_lt(p[0] as int, p[1] as int, c, x as int, y as int, z as int))
                    && !triple_lt(p[0] as int, p[1] + 1, 0, x as int, y as int, z as int)
            &&& p.len() == 3 ==> partial_upper(raw) == Some(
                comparator_text(true, p[0] as nat, p[1] as nat, p[2] as nat),
            )
        }),
{
    let p = partial_parts(raw)->Some_0;
    if p.len() == 1 && p[0] < u64::MAX {
        let x = (p[0] + 1) as nat;
        assert(partial_upper(raw) == Some(comparator_text(false, x, 0, 0))) by {
            assert(decimal(0) == seq!['0']);
            assert(seq!['<'] + decimal(x) + seq!['.', '0', '.', '0'] =~= seq!['<'] + decimal(x)
                + seq!['.'] + decimal(0) + seq!['.'] + decimal(0));
        }
    } else if p.len() == 2 && p[1] < u64::MAX {
        let y = (p[1] + 1) as nat;
        assert(partial_upper(raw) == Some(comparator_text(false, p[0] as nat, y, 0))) by {
            assert(decimal(0) == seq!['0']);
            assert(seq!['<'] + decimal(p[0] as nat) + seq!['.'] + decimal(y) + seq!['.', '0'] =~= seq![
                '<',
            ] + decimal(p[0] as nat) + seq!['.'] + decimal(y) + seq!['.'] + decimal(0));
        }
    }
}

/// `A - B` rewritten as `>=A', B'`.
pub open spec fn hyphen_range(raw: Seq<char>) -> Option<Seq<char>> {
    match find_str_spec(raw, hyphen_chars()) {
        None => None,
        Some(i) => match (
            partial_lower(trim_spec(raw.take(i))),
            partial_upper(trim_spec(raw.skip(i + 3))),
        ) {
            (Some(lo), Some(up)) => Some(seq!['>', '='] + lo + comma_chars() + up),
            _ => None,
        },
    }
}

/// A comparison operator written apart from its version.
pub open spec fn is_op(t: Seq<char>) -> bool {
    t == seq!['>'] || t == seq!['>', '='] || t == seq!['<'] || t == seq!['<', '='] || t
        == seq!['=']
}

/// Whitespace-separated tokens with each lone operator glued to the token
/// after it.
pub open spec fn merge_ops(toks: Seq<Seq<char>>) -> Seq<Seq<char>>
    decreases toks.len(),
{
    if toks.len() == 0 {
        seq![]
    } else if toks.len() >= 2 && is_op(toks[0]) {
        seq![toks[0] + toks[1]] + merge_ops(toks.skip(2))
    } else {
        seq![toks[0]] + merge_ops(toks.skip(1))
    }
}

/// The requirement text accepted for an npm range: the text itself, else its
/// hyphen form, else its comparators joined by commas.
pub open spec fn npm_req_text(raw: Seq<char>) -> Option<Seq<char>> {
    if semver_req_accepts(raw) {
        Some(raw)
    } else {
        match hyphen_range(raw) {
            Some(h) => if semver_req_accepts(h) {
                Some(h)
            } else {
                None
            },
            None => {
                let j = join_spec(merge_ops(ws_tokens(raw)), comma_chars());
                if semver_req_accepts(j) {
                    Some(j)
                } else {
                    None
                }
            },
        }
    }
}

/// The trimmed, non-empty alternatives of an `||` range.
pub open spec fn or_alternatives(parts: Seq<Seq<char>>) -> Seq<Seq<char>>
    decreases parts.len(),
{
    if parts.len() == 0 {
        seq![]
    } else {
        let t = trim_spec(parts[0]);
        if t.len() > 0 {
            seq![t] + or_alternatives(parts.drop_first())
        } else {
            or_alternatives(parts.drop_first())
        }
    }
}

/// Every alternative is an npm range.
pub open spec fn all_alternatives_parse(alts: Seq<Seq<char>>) -> bool {
    forall|i: int| 0 <= i < alts.len() ==> npm_req_text(#[trigger] alts[i]) is Some
}

/// `raw` is an `||` range whose alternatives all parse.
pub open spec fn is_any_range(raw: Seq<char>) -> bool {
    let alts = or_alternatives(split_str_spec(raw, or_chars()));
    find_str_spec(raw, or_chars()) is Some && alts.len() > 0 && all_alternatives_parse(alts)
}

/// The kind a constraint without a protocol prefix gets.
pub open spec fn plain_kind(raw: Seq<char>, k: ConstraintKind) -> bool {
    if raw == latest_chars() {
        k is Latest
    } else if semver_parse(strip_v(raw)) is Some {
        k matches ConstraintKind::Exact(v) && Some(v@) == semver_parse(strip_v(raw))
    } else if is_any_range(raw) {
        let alts = or_alternatives(split_str_spec(raw, or_chars()));
        k matches ConstraintKind::AnyRange(v) && v@.len() == alts.len() && forall|i: int|
            0 <= i < alts.len() ==> Some(#[trigger] v@[i].text@) == npm_req_text(alts[i])
    } else if npm_req_text(raw) is Some {
        k matches ConstraintKind::Range(q) && Some(q.text@) == npm_req_text(raw)
    } else {
        k matches ConstraintKind::Tag(s) && s@ == raw
    }
}

/// The outcome of the `patch:` protocol on the text after `patch:`.
pub open spec fn patch_outcome(raw: Seq<char>, r: Result<VersionConstraint, ConstraintError>) -> bool {
    let rest = raw.skip(6);
    match rfind_spec(rest, '#') {
        None => r matches Err(ConstraintError::InvalidPatch(s)) && s@ == rest,
        Some(h) => {
            let nav = rest.take(h);
            let path = rest.skip(h + 1);
            match rfind_spec(nav, '@') {
                None => r matches Err(ConstraintError::InvalidPatch(s)) && s@ == rest,
                Some(a) => {
                    let name = nav.take(a);
                    let ver = nav.skip(a + 1);
                    if name.len() == 0 {
                        r == Err::<VersionConstraint, ConstraintError>(
                            ConstraintError::EmptyPatchName,
                        )
                    } else if ver.len() == 0 {
                        r == Err::<VersionConstraint, ConstraintError>(
                            ConstraintError::EmptyPatchVersion,
                        )
                    } else if path.len() == 0 {
                        r == Err::<VersionConstraint, ConstraintError>(
                            ConstraintError::EmptyPatchPath,
                        )
                    } else {
                        match semver_parse(strip_v(ver)) {
                            None => r matches Err(ConstraintError::InvalidVersion(s)) && s@ == ver,
                            Some(v) => match r {
                                Ok(c) => c.raw@ == raw && match c.kind {
                                    ConstraintKind::Patch(p) => p.package_name@ == name
                                        && p.package_version@ == v && p.patch_path@ == path,
                                    _ => false,
                                },
                                Err(_) => false,
                            },
                        }
                    }
                },
            }
        },
    }
}

/// The outcome of [`VersionConstraint::parse`] on `raw0`.
pub open spec fn constraint_spec(raw0: Seq<char>, r: Result<VersionConstraint, ConstraintError>) -> bool
    decreases raw0.len(),
{
    let raw = trim_spec(raw0);
    if occurs_at(raw, patch_chars(), 0) {
        patch_outcome(raw, r)
    } else if occurs_at(raw, catalog_chars(), 0) {
        let after = raw.skip(8);
        match r {
            Ok(c) => c.raw@ == raw && match c.kind {
                ConstraintKind::Catalog(cc) => if after.len() == 0 {
                    cc.catalog_name is None
                } else {
                    cc.catalog_name matches Some(n) && n@ == after
                },
                _ => false,
            },
            Err(_) => false,
        }
    } else if occurs_at(raw, npm_chars(), 0) {
        let rest = raw.skip(4);
        match rfind_spec(rest, '@') {
            None => r matches Err(ConstraintError::InvalidAlias(s)) && s@ == raw,
            Some(at) => {
                let nm = rest.take(at);
                let sub = rest.skip(at + 1);
                if !(name_verdict(trim_spec(nm)) is Valid) {
                    r matches Err(ConstraintError::InvalidName(e)) && normalize_spec(nm, Err(e))
                } else if sub.len() < raw0.len() {
                    match r {
                        Ok(c) => c.raw@ == raw && match c.kind {
                            ConstraintKind::Alias { package, constraint } => package@ == trim_spec(
                                nm,
                            ) && constraint_spec(sub, Ok(*constraint)),
                            _ => false,
                        },
                        Err(e) => constraint_spec(sub, Err(e)),
                    }
                } else {
                    false
                }
            },
        }
    } else {
        r matches Ok(c) && c.raw@ == raw && plain_kind(raw, c.kind)
    }
}

pub proof fn lemma_trim_len(s: Seq<char>)
    ensures
        trim_spec(s).len() <= s.len(),
{
    lemma_lead_ws(s);
    let t = s.skip(lead_ws(s) as int);
    lemma_trail_ws(t);
}

fn is_wild_exec(p: &str) -> (r: bool)
    ensures
        r == is_wild(p@),
{
    let x = "x";
    let xx = "X";
    let st = "*";
    proof {
        reveal_strlit("x");
        reveal_strlit("X");
        reveal_strlit("*");
        assert(x@ =~= seq!['x']);
        assert(xx@ =~= seq!['X']);
        assert(st@ =~= seq!['*']);
    }
    str_eq(p, x) || str_eq(p, xx) || str_eq(p, st)
}

/// Numeric parts of a partial version such as `1.2` or `7.x`.
pub fn parse_partial_version_parts(raw: &str) -> (r: Option<Vec<u64>>)
    ensures
        match r {
            Some(v) => partial_parts(raw@) == Some(v@),
            None => partial_parts(raw@) is None,
        },
{
    let comps = split_char(raw, '.');
    let ghost cs = split_char_spec(raw@, '.');
    let mut parts: Vec<u64> = Vec::new();
    let mut i: usize = 0;
    proof {
        assert(cs.skip(0) =~= cs);
        match collect_parts(cs) {
            Some(r0) => {
                assert(parts@ + r0 =~= r0);
            },
            None => {},
        }
    }
    while i < comps.len()
        invariant
            comps@.len() == cs.len(),
            forall|j: int| 0 <= j < comps@.len() ==> #[trigger] comps@[j]@ == cs[j],
            cs == split_char_spec(raw@, '.'),
            i <= comps@.len(),
            collect_parts(cs) == match collect_parts(cs.skip(i as int)) {
                Some(rest) => Some(parts@ + rest),
                None => None::<Seq<u64>>,
            },
        ensures
            collect_parts(cs) == Some(parts@),
        decreases comps@.len() - i,
    {
        let part = trim(comps[i]);
        proof {
            assert(cs.skip(i as int)[0] == cs[i as int]);
            assert(cs.skip(i as int).drop_first() =~= cs.skip(i + 1));
        }
        if is_wild_exec(part) {
            proof {
                assert(collect_parts(cs.skip(i as int)) == Some(Seq::<u64>::empty()));
                assert(parts@ + Seq::<u64>::empty() =~= parts@);
            }
            break;
        }
        match parse_u64(part) {
            None => {
                return None;
            },
            Some(v) => {
                proof {
                    let old_parts = parts@;
                    match collect_parts(cs.skip(i + 1)) {
                        Some(rest) => {
                            assert(old_parts + (seq![v] + rest) =~= old_parts.push(v) + rest);
                        },
                        None => {},
                    }
                }
                parts.push(v);
            },
        }
        i = i + 1;
        proof {
            if i == comps@.len() {
                assert(cs.skip(i as int).len() == 0);
                assert(collect_parts(cs.skip(i as int)) == Some(Seq::<u64>::empty()));
                assert(parts@ + Seq::<u64>::empty() =~= parts@);
            }
        }
    }
    if parts.len() == 0 || parts.len() > 3 {
        None
    } else {
        Some(parts)
    }
}

/// Lower bound of a hyphen range: missing parts become `0`.
pub fn normalize_partial_version_lower(raw: &str) -> (r: Option<String>)
    ensures
        match r {
            Some(s) => partial_lower(raw@) == Some(s@),
            None => partial_lower(raw@) is None,
        },
{
    let parts = parse_partial_version_parts(raw)?;
    let dot = ".";
    proof {
        reveal_strlit(".");
    }
    let p1 = if parts.len() > 1 {
        parts[1]
    } else {
        0
    };
    let p2 = if parts.len() > 2 {
        parts[2]
    } else {
        0
    };
    let mut s = decimal_string(parts[0]);
    s.append(dot);
    s.append(decimal_string(p1).as_str());
    s.append(dot);
    s.append(decimal_string(p2).as_str());
    Some(s)
}

/// Upper bound of a hyphen range.
pub fn normalize_partial_version_upper(raw: &str) -> (r: Option<String>)
    ensures
        match r {
            Some(s) => partial_upper(raw@) == Some(s@),
            None => partial_upper(raw@) is None,
        },
{
    let parts = parse_partial_version_parts(raw)?;
    let dot = ".";
    let lt = "<";
    let le = "<=";
    let z2 = ".0.0";
    let z1 = ".0";
    proof {
        reveal_strlit(".");
        reveal_strlit("<");
        reveal_strlit("<=");
        reveal_strlit(".0.0");
        reveal_strlit(".0");
    }
    if parts.len() == 1 {
        if parts[0] == u64::MAX {
            return None;
        }
        let mut s = String::from_str(lt);
        s.append(decimal_string(parts[0] + 1).as_str());
        s.append(z2);
        Some(s)
    } else if parts.len() == 2 {
        if parts[1] == u64::MAX {
            return None;
        }
        let mut s = String::from_str(lt);
        s.append(decimal_string(parts[0]).as_str());
        s.append(dot);
        s.append(decimal_string(parts[1] + 1).as_str());
        s.append(z1);
        Some(s)
    } else {
        let mut s = String::from_str(le);
        s.append(decimal_string(parts[0]).as_str());
        s.append(dot);
        s.append(decimal_string(parts[1]).as_str());
        s.append(dot);
        s.append(decimal_string(parts[2]).as_str());
        Some(s)
    }
}

/// Rewrites an npm hyphen range `A - B` as comparators.
pub fn normalize_npm_hyphen_range(raw: &str) -> (r: Option<String>)
    ensures
        match r {
            Some(s) => hyphen_range(raw@) == Some(s@),
            None => hyphen_range(raw@) is None,
        },
{
    let sep = " - ";
    let ge = ">=";
    let comma = ", ";
    proof {
        reveal_strlit(" - ");
        reveal_strlit(">=");
        reveal_strlit(", ");
        assert(sep@ =~= hyphen_chars());
        assert(comma@ =~= comma_chars());
    }
    let i = find_str(raw, sep)?;
    let n = raw.unicode_len();
    let lower_text = slice(raw, 0, i);
    let upper_text = slice(raw, i + 3, n);
    assert(lower_text@ =~= raw@.take(i as int));
    assert(upper_text@ =~= raw@.skip(i + 3));
    let lower = normalize_partial_version_lower(trim(lower_text))?;
    let upper = normalize_partial_version_upper(trim(upper_text))?;
    let mut s = String::from_str(ge);
    s.append(lower.as_str());
    s.append(comma);
    s.append(upper.as_str());
    Some(s)
}

fn is_op_exec(t: &str) -> (r: bool)
    ensures
        r == is_op(t@),
{
    let a = ">";
    let b = ">=";
    let c = "<";
    let d = "<=";
    let e = "=";
    proof {
        reveal_strlit(">");
        reveal_strlit(">=");
        reveal_strlit("<");
        reveal_strlit("<=");
        reveal_strlit("=");
        assert(a@ =~= seq!['>']);
        assert(b@ =~= seq!['>', '=']);
        assert(c@ =~= seq!['<']);
        assert(d@ =~= seq!['<', '=']);
        assert(e@ =~= seq!['=']);
    }
    str_eq(t, a) || str_eq(t, b) || str_eq(t, c) || str_eq(t, d) || str_eq(t, e)
}

/// Glues lone operators to the version after them and joins the comparators
/// with commas.
fn join_comparators(raw: &str) -> (r: String)
    ensures
        r@ == join_spec(merge_ops(ws_tokens(raw@)), comma_chars()),
{
    let toks = split_whitespace(raw);
    let ghost ts = ws_tokens(raw@);
    let mut out: Vec<String> = Vec::new();
    let mut i: usize = 0;
    proof {
        assert(ts.skip(0) =~= ts);
        assert(out@.map_values(|p: String| p@) =~= Seq::<Seq<char>>::empty());
        assert(merge_ops(ts) =~= out@.map_values(|p: String| p@) + merge_ops(ts.skip(0)));
    }
    while i < toks.len()
        invariant
            toks@.len() == ts.len(),
            forall|j: int| 0 <= j < toks@.len() ==> #[trigger] toks@[j]@ == ts[j],
            ts == ws_tokens(raw@),
            i <= toks@.len(),
            merge_ops(ts) == out@.map_values(|p: String| p@) + merge_ops(ts.skip(i as int)),
        decreases toks@.len() - i,
    {
        let ghost old_out = out@.map_values(|p: String| p@);
        let t = toks[i];
        if i + 1 < toks.len() && is_op_exec(t) {
            let glued = cat(t, toks[i + 1]);
            proof {
                let rest = ts.skip(i as int);
                assert(rest[0] == ts[i as int]);
                assert(rest[1] == ts[i + 1]);
                assert(rest.skip(2) =~= ts.skip(i + 2));
            }
            out.push(glued);
            proof {
                assert(out@.map_values(|p: String| p@) =~= old_out.push(glued@));
                assert(merge_ops(ts) =~= out@.map_values(|p: String| p@) + merge_ops(
                    ts.skip(i + 2),
                ));
            }
            i = i + 2;
        } else {
            let single = owned(t);
            proof {
                let rest = ts.skip(i as int);
                assert(rest[0] == ts[i as int]);
                assert(rest.skip(1) =~= ts.skip(i + 1));
            }
            out.push(single);
            proof {
                assert(out@.map_values(|p: String| p@) =~= old_out.push(single@));
                assert(merge_ops(ts) =~= out@.map_values(|p: String| p@) + merge_ops(
                    ts.skip(i + 1),
                ));
            }
            i = i + 1;
        }
    }
    proof {
        assert(ts.skip(i as int).len() == 0);
        assert(merge_ops(ts) =~= out@.map_values(|p: String| p@));
    }
    let comma = ", ";
    proof {
        reveal_strlit(", ");
        assert(comma@ =~= comma_chars());
    }
    join(&out, comma)
}

/// Parses an npm range the `semver` crate does not take as it is: the text
/// itself, else its hyphen form, else its comparators joined by commas.
pub fn parse_npm_version_req(raw: &str) -> (r: Option<VersionRange>)
    ensures
        match r {
            Some(q) => npm_req_text(raw@) == Some(q.text@) && q.wf(),
            None => npm_req_text(raw@) is None,
        },
{
    if let Some(q) = parse_semver_req(raw) {
        return Some(q);
    }
    if let Some(h) = normalize_npm_hyphen_range(raw) {
        return parse_semver_req(h.as_str());
    }
    let joined = join_comparators(raw);
    parse_semver_req(joined.as_str())
}

#[verifier::rlimit(80)]
/// The alternatives of an `||` range, each an npm range, or `None` when one
/// is not or there are none.
fn parse_any_range(raw: &str) -> (r: Option<Vec<VersionRange>>)
    ensures
        match r {
            Some(v) => {
                let alts = or_alternatives(split_str_spec(raw@, or_chars()));
                &&& alts.len() > 0
                &&& all_alternatives_parse(alts)
                &&& v@.len() == alts.len()
                &&& forall|i: int|
                    0 <= i < alts.len() ==> Some(#[trigger] v@[i].text@) == npm_req_text(alts[i])
            },
            None => {
                let alts = or_alternatives(split_str_spec(raw@, or_chars()));
                alts.len() == 0 || !all_alternatives_parse(alts)
            },
        },
{
    let bars = "||";
    proof {
        reveal_strlit("||");
        assert(bars@ =~= or_chars());
    }
    let parts = split_str(raw, bars);
    let ghost ps = split_str_spec(raw@, or_chars());
    let ghost alts = or_alternatives(ps);
    let mut ranges: Vec<VersionRange> = Vec::new();
    let ghost mut seen: Seq<Seq<char>> = seq![];
    let mut i: usize = 0;
    proof {
        assert(ps.skip(0) =~= ps);
        assert(alts =~= seen + or_alternatives(ps.skip(0)));
    }
    while i < parts.len()
        invariant
            parts@.len() == ps.len(),
            forall|j: int| 0 <= j < parts@.len() ==> #[trigger] parts@[j]@ == ps[j],
            ps == split_str_spec(raw@, or_chars()),
            alts == or_alternatives(ps),
            i <= parts@.len(),
            alts == seen + or_alternatives(ps.skip(i as int)),
            ranges@.len() == seen.len(),
            forall|j: int|
                0 <= j < seen.len() ==> Some(#[trigger] ranges@[j].text@) == npm_req_text(seen[j]),
            all_alternatives_parse(seen),
        decreases parts@.len() - i,
    {
        let t = trim(parts[i]);
        proof {
            assert(ps.skip(i as int)[0] == ps[i as int]);
            assert(ps.skip(i as int).drop_first() =~= ps.skip(i + 1));
        }
        if t.unicode_len() > 0 {
            match parse_npm_version_req(t) {
                None => {
                    proof {
                        let k = seen.len() as int;
                        assert((seen + or_alternatives(ps.skip(i as int)))[k] == t@);
                        assert(alts[k] == t@);
                    }
                    return None;
                },
                Some(q) => {
                    proof {
                        let s2 = seen.push(t@);
                        assert(seq![t@] + or_alternatives(ps.skip(i + 1)) =~= or_alternatives(
                            ps.skip(i as int),
                        ));
                        assert(alts =~= s2 + or_alternatives(ps.skip(i + 1)));
                        seen = s2;
                    }
                    ranges.push(q);
                },
            }
        }
        i = i + 1;
    }
    proof {
        assert(ps.skip(i as int).len() == 0);
        assert(alts =~= seen);
    }
    if ranges.len() == 0 {
        None
    } else {
        Some(ranges)
    }
}

/// `name@version#path` after `patch:`.
fn parse_patch(raw: &str) -> (r: Result<VersionConstraint, ConstraintError>)
    requires
        occurs_at(raw@, patch_chars(), 0),
    ensures
        patch_outcome(raw@, r),
{
    let n = raw.unicode_len();
    let rest = slice(raw, 6, n);
    assert(rest@ =~= raw@.skip(6));
    let h = match rfind_char(rest, '#') {
        None => {
            return Err(ConstraintError::InvalidPatch(owned(rest)));
        },
        Some(h) => h,
    };
    proof {
        lemma_rfind(rest@, '#');
    }
    let rn = rest.unicode_len();
    let nav = slice(rest, 0, h);
    let path = slice(rest, h + 1, rn);
    assert(nav@ =~= rest@.take(h as int));
    assert(path@ =~= rest@.skip(h + 1));
    let a = match rfind_char(nav, '@') {
        None => {
            return Err(ConstraintError::InvalidPatch(owned(rest)));
        },
        Some(a) => a,
    };
    proof {
        lemma_rfind(nav@, '@');
    }
    let nn = nav.unicode_len();
    let name = slice(nav, 0, a);
    let ver = slice(nav, a + 1, nn);
    assert(name@ =~= nav@.take(a as int));
    assert(ver@ =~= nav@.skip(a + 1));
    if name.unicode_len() == 0 {
        return Err(ConstraintError::EmptyPatchName);
    }
    if ver.unicode_len() == 0 {
        return Err(ConstraintError::EmptyPatchVersion);
    }
    if path.unicode_len() == 0 {
        return Err(ConstraintError::EmptyPatchPath);
    }
    match Version::parse(ver) {
        None => Err(ConstraintError::InvalidVersion(owned(ver))),
        Some(v) => Ok(
            VersionConstraint {
                raw: owned(raw),
                kind: ConstraintKind::Patch(
                    PatchSpec {
                        package_name: PackageName::new(owned(name)),
                        package_version: v,
                        patch_path: owned(path),
                    },
                ),
            },
        ),
    }
}

/// The kind of a constraint without a protocol prefix.
#[verifier::rlimit(80)]
fn parse_plain(raw: &str) -> (r: ConstraintKind)
    ensures
        plain_kind(raw@, r),
{
    let latest = "latest";
    let bars = "||";
    proof {
        reveal_strlit("latest");
        reveal_strlit("||");
        assert(latest@ =~= latest_chars());
        assert(bars@ =~= or_chars());
    }
    if str_eq(raw, latest) {
        return ConstraintKind::Latest;
    }
    if let Some(v) = Version::parse(raw) {
        return ConstraintKind::Exact(v);
    }
    if find_str(raw, bars).is_some() {
        if let Some(ranges) = parse_any_range(raw) {
            return ConstraintKind::AnyRange(ranges);
        }
    }
    if let Some(q) = parse_npm_version_req(raw) {
        return ConstraintKind::Range(q);
    }
    ConstraintKind::Tag(owned(raw))
}

impl VersionConstraint {
    /// Parses a constraint such as "^1.0.0", ">=2.0", "latest", "next",
    /// "npm:pkg@^1", "patch:pkg@1.0.0#file.patch" or "catalog:".
    pub fn parse(raw0: &str) -> (r: Result<Self, ConstraintError>)
        ensures
            constraint_spec(raw0@, r),
        decreases raw0@.len(),
    {
        let raw = trim(raw0);
        proof {
            lemma_trim_len(raw0@);
        }
        let n = raw.unicode_len();
        let p_patch = "patch:";
        let p_catalog = "catalog:";
        let p_npm = "npm:";
        proof {
            reveal_strlit("patch:");
            reveal_strlit("catalog:");
            reveal_strlit("npm:");
            assert(p_patch@ =~= patch_chars());
            assert(p_catalog@ =~= catalog_chars());
            assert(p_npm@ =~= npm_chars());
        }
        if starts_with(raw, p_patch) {
            return parse_patch(raw);
        }
        if starts_with(raw, p_catalog) {
            let after = slice(raw, 8, n);
            assert(after@ =~= raw@.skip(8));
            let catalog_name = if after.unicode_len() == 0 {
                None
            } else {
                Some(owned(after))
            };
            return Ok(
                VersionConstraint {
                    raw: owned(raw),
                    kind: ConstraintKind::Catalog(CatalogConstraint { catalog_name }),
                },
            );
        }
        if starts_with(raw, p_npm) {
            let rest = slice(raw, 4, n);
            assert(rest@ =~= raw@.skip(4));
            let at = match rfind_char(rest, '@') {
                None => {
                    return Err(ConstraintError::InvalidAlias(owned(raw)));
                },
                Some(at) => at,
            };
            proof {
                lemma_rfind(rest@, '@');
            }
            let rn = rest.unicode_len();
            let nm = slice(rest, 0, at);
            let sub = slice(rest, at + 1, rn);
            assert(nm@ =~= rest@.take(at as int));
            assert(sub@ =~= rest@.skip(at + 1));
            let package = match PackageName::parse(nm) {
                Ok(p) => p,
                Err(e) => {
                    return Err(ConstraintError::InvalidName(e));
                },
            };
            let inner = VersionConstraint::parse(sub)?;
            return Ok(
                VersionConstraint {
                    raw: owned(raw),
                    kind: ConstraintKind::Alias { package, constraint: Box::new(inner) },
                },
            );
        }
        let kind = parse_plain(raw);
        Ok(VersionConstraint { raw: owned(raw), kind })
    }

    /// Whether this is an exact version constraint.
    pub fn is_exact(&self) -> (r: bool)
        ensures
            r == (self.kind is Exact),
    {
        match self.kind {
            ConstraintKind::Exact(_) => true,
            _ => false,
        }
    }

    /// Whether this is a patch: protocol constraint.
    pub fn is_patch(&self) -> (r: bool)
        ensures
            r == (self.kind is Patch),
    {
        match self.kind {
            ConstraintKind::Patch(_) => true,
            _ => false,
        }
    }
}

} // verus!
