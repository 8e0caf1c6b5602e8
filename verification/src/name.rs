//! Package names and their validation.

use crate::text::{
    char_is_ctrl, contains_char, contains_char_spec, find_char, find_spec, find_str, find_str_spec,
    is_ctrl, lemma_find, lemma_trim_idempotent, owned, slice, trim, trim_spec,
};
use vstd::prelude::*;
use vstd::string::StrSliceExecFns;

verus! {

/// A package name. Names built by [`PackageName::parse`] are validated;
/// [`PackageName::new`] takes the text as it is.
#[derive(Debug, Default, Hash)]
pub struct PackageName {
    name: String,
}

impl View for PackageName {
    type V = Seq<char>;

    closed spec fn view(&self) -> Seq<char> {
        self.name@
    }
}

impl Clone for PackageName {
    fn clone(&self) -> (r: Self)
        ensures
            r@ == self@,
    {
        PackageName { name: self.name.clone() }
    }
}

/// Package name validation errors.
#[derive(Debug, Clone, PartialEq, Eq)]
pub enum PackageNameError {
    /// Package name was empty.
    EmptyName,
    /// Scoped package name was malformed.
    InvalidScope(String),
    /// Package name contains invalid characters or path traversal.
    InvalidCharacter(String),
}

/// The verdict of name validation on an already trimmed name.
pub enum NameVerdict {
    Valid,
    Empty,
    BadScope,
    BadChar,
}

/// A name segment (scope or package part) is usable.
pub open spec fn segment_ok(seg: Seq<char>) -> bool {
    &&& seg.len() > 0
    &&& seg != seq!['.']
    &&& seg != seq!['.', '.']
    &&& forall|i: int| 0 <= i < seg.len() ==> !is_ctrl(#[trigger] seg[i])
}

/// Validation of a trimmed package name, in the order the checks are made.
pub open spec fn name_verdict(t: Seq<char>) -> NameVerdict {
    if t.len() == 0 {
        NameVerdict::Empty
    } else if contains_char_spec(t, '\\') || find_str_spec(t, seq!['.', '.']) is Some {
        NameVerdict::BadChar
    } else if t[0] == '@' {
        let sc = t.drop_first();
        match find_spec(sc, '/') {
            None => NameVerdict::BadScope,
            Some(i) => {
                let scope = sc.take(i);
                let pkg = sc.skip(i + 1);
                if scope.len() == 0 || pkg.len() == 0 || contains_char_spec(pkg, '/') {
                    NameVerdict::BadScope
                } else if !segment_ok(scope) || !segment_ok(pkg) {
                    NameVerdict::BadChar
                } else {
                    NameVerdict::Valid
                }
            },
        }
    } else if contains_char_spec(t, '/') {
        NameVerdict::BadChar
    } else if !segment_ok(t) {
        NameVerdict::BadChar
    } else {
        NameVerdict::Valid
    }
}

/// The outcome of normalizing `name`: the trimmed name when it is valid, else
/// the error, which carries the trimmed name.
pub open spec fn normalize_spec(name: Seq<char>, r: Result<Seq<char>, PackageNameError>) -> bool {
    let t = trim_spec(name);
    match name_verdict(t) {
        NameVerdict::Valid => r == Ok::<Seq<char>, PackageNameError>(t),
        NameVerdict::Empty => r == Err::<Seq<char>, PackageNameError>(PackageNameError::EmptyName),
        NameVerdict::BadScope => r matches Err(PackageNameError::InvalidScope(s)) && s@ == t,
        NameVerdict::BadChar => r matches Err(PackageNameError::InvalidCharacter(s)) && s@ == t,
    }
}

/// The scope of a name without its leading `@`, if it has one.
pub open spec fn scope_spec(n: Seq<char>) -> Option<Seq<char>> {
    if n.len() > 0 && n[0] == '@' {
        match find_spec(n.drop_first(), '/') {
            Some(i) => Some(n.drop_first().take(i)),
            None => None,
        }
    } else {
        None
    }
}

/// The name without its scope.
pub open spec fn unscoped_spec(n: Seq<char>) -> Seq<char> {
    if n.len() > 0 && n[0] == '@' {
        match find_spec(n.drop_first(), '/') {
            Some(i) => n.drop_first().skip(i + 1),
            None => n,
        }
    } else {
        n
    }
}

/// Checks one segment of a name; the error carries the whole name.
pub fn validate_package_segment(segment: &str, original: &str) -> (r: Result<(), PackageNameError>)
    ensures
        r is Ok <==> segment_ok(segment@),
        r matches Err(e) ==> e matches PackageNameError::InvalidCharacter(s) && s@ == original@,
{
    let n = segment.unicode_len();
    if n == 0 {
        return Err(PackageNameError::InvalidCharacter(owned(original)));
    }
    if n == 1 && segment.get_char(0) == '.' {
        assert(segment@ =~= seq!['.']);
        return Err(PackageNameError::InvalidCharacter(owned(original)));
    }
    if n == 2 && segment.get_char(0) == '.' && segment.get_char(1) == '.' {
        assert(segment@ =~= seq!['.', '.']);
        return Err(PackageNameError::InvalidCharacter(owned(original)));
    }
    let mut i: usize = 0;
    while i < n
        invariant
            n == segment@.len(),
            i <= n,
            forall|j: int| 0 <= j < i ==> !is_ctrl(#[trigger] segment@[j]),
        decreases n - i,
    {
        if char_is_ctrl(segment.get_char(i)) {
            return Err(PackageNameError::InvalidCharacter(owned(original)));
        }
        i = i + 1;
    }
    proof {
        if segment@ == seq!['.'] {
            assert(segment@[0] == '.');
        }
        if segment@ == seq!['.', '.'] {
            assert(segment@[0] == '.' && segment@[1] == '.');
        }
    }
    Ok(())
}

/// Trims `name` and validates it as an npm package name.
#[verifier::rlimit(40)]
pub fn normalize_package_name(name: &str) -> (r: Result<String, PackageNameError>)
    ensures
        normalize_spec(
            name@,
            match r {
                Ok(s) => Ok(s@),
                Err(e) => Err(e),
            },
        ),
{
    let t = trim(name);
    let n = t.unicode_len();
    if n == 0 {
        return Err(PackageNameError::EmptyName);
    }
    let dots = "..";
    proof {
        reveal_strlit("..");
        assert(dots@ =~= seq!['.', '.']);
    }
    let bs = contains_char(t, '\\');
    let dd = find_str(t, dots).is_some();
    if bs || dd {
        assert(name_verdict(t@) == NameVerdict::BadChar);
        return Err(PackageNameError::InvalidCharacter(owned(t)));
    }
    if t.get_char(0) == '@' {
        let scoped = slice(t, 1, n);
        assert(scoped@ =~= t@.drop_first());
        match find_char(scoped, '/') {
            None => {
                return Err(PackageNameError::InvalidScope(owned(t)));
            },
            Some(i) => {
                proof {
                    lemma_find(scoped@, '/');
                }
                let sn = scoped.unicode_len();
                let scope = slice(scoped, 0, i);
                let package = slice(scoped, i + 1, sn);
                assert(scope@ =~= scoped@.take(i as int));
                assert(package@ =~= scoped@.skip(i + 1));
                if scope.unicode_len() == 0 || package.unicode_len() == 0 || contains_char(
                    package,
                    '/',
                ) {
                    return Err(PackageNameError::InvalidScope(owned(t)));
                }
                validate_package_segment(scope, t)?;
                validate_package_segment(package, t)?;
                Ok(owned(t))
            },
        }
    } else {
        if contains_char(t, '/') {
            return Err(PackageNameError::InvalidCharacter(owned(t)));
        }
        validate_package_segment(t, t)?;
        Ok(owned(t))
    }
}

impl From<String> for PackageName {
    /// Wraps the text as a package name without validating it.
    fn from(s: String) -> (r: Self)
        ensures
            r@ == s@,
    {
        PackageName { name: s }
    }
}

impl vstd::std_specs::convert::FromSpecImpl<String> for PackageName {
    open spec fn obeys_from_spec() -> bool {
        true
    }

    closed spec fn from_spec(v: String) -> PackageName {
        PackageName { name: v }
    }
}

impl PackageName {
    /// Wraps `name` as a package name without validating it.
    pub fn new(name: String) -> (r: Self)
        ensures
            r@ == name@,
    {
        PackageName { name }
    }

    /// The package name as a string slice.
    pub fn as_str(&self) -> (r: &str)
        ensures
            r@ == self@,
    {
        self.name.as_str()
    }

    /// Parses and validates an npm package name (surrounding whitespace is
    /// dropped; letter case is kept).
    pub fn parse(name: &str) -> (r: Result<Self, PackageNameError>)
        ensures
            normalize_spec(
                name@,
                match r {
                    Ok(p) => Ok(p@),
                    Err(e) => Err(e),
                },
            ),
    {
        let normalized = normalize_package_name(name)?;
        Ok(PackageName { name: normalized })
    }

    /// The scope without its leading `@`, if the name is scoped.
    pub fn scope(&self) -> (r: Option<&str>)
        ensures
            match r {
                Some(s) => scope_spec(self@) == Some(s@),
                None => scope_spec(self@) is None,
            },
    {
        let s = self.name.as_str();
        let n = s.unicode_len();
        if n > 0 && s.get_char(0) == '@' {
            let rest = slice(s, 1, n);
            assert(rest@ =~= s@.drop_first());
            match find_char(rest, '/') {
                Some(i) => {
                    proof {
                        lemma_find(rest@, '/');
                    }
                    Some(slice(rest, 0, i))
                },
                None => None,
            }
        } else {
            None
        }
    }

    /// The name without its scope.
    pub fn unscoped(&self) -> (r: &str)
        ensures
            r@ == unscoped_spec(self@),
    {
        let s = self.name.as_str();
        let n = s.unicode_len();
        if n > 0 && s.get_char(0) == '@' {
            let rest = slice(s, 1, n);
            assert(rest@ =~= s@.drop_first());
            match find_char(rest, '/') {
                Some(i) => {
                    proof {
                        lemma_find(rest@, '/');
                    }
                    let rn = rest.unicode_len();
                    slice(rest, i + 1, rn)
                },
                None => s,
            }
        } else {
            s
        }
    }
}


/// Parsing a package name keeps the spelling and letter case of the trimmed
/// input, and parsing the result again gives it back unchanged; parsing
/// fails exactly when the trimmed input is no valid name, with the "empty"
/// error exactly for a blank input.
pub proof fn lemma_parse_name_laws(name: Seq<char>, r: Result<Seq<char>, PackageNameError>)
    requires
        normalize_spec(name, r),
    ensures
        r is Err <==> !(name_verdict(trim_spec(name)) is Valid),
        (r == Err::<Seq<char>, PackageNameError>(PackageNameError::EmptyName)) == (trim_spec(name).len() == 0),
        r matches Ok(n) ==> n == trim_spec(name) && normalize_spec(n, Ok(n)),
{
    lemma_trim_idempotent(name);
}

} // verus!
