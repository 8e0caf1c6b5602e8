//! npm Subresource Integrity strings.

use crate::text::{
    find_char, find_spec, lemma_find, owned, slice, split_whitespace, str_eq, trim, trim_spec,
    ws_tokens,
};
use vstd::prelude::*;
use vstd::string::StrSliceExecFns;

verus! {

/// Supported integrity algorithms, weakest first.
#[derive(Clone, Copy, Debug, PartialEq, Eq, PartialOrd, Ord)]
pub enum IntegrityAlgorithm {
    /// Legacy SHA-1 integrity.
    Sha1,
    /// Modern SHA-512 integrity.
    Sha512,
}

/// A single algorithm/digest pair from an integrity string.
#[derive(Debug, Clone, PartialEq, Eq)]
pub struct IntegrityDigest {
    /// Digest algorithm.
    pub algorithm: IntegrityAlgorithm,
    /// Base64-encoded digest.
    pub digest_base64: String,
}

/// Parsed npm Subresource Integrity metadata.
#[derive(Debug, Clone, PartialEq, Eq)]
pub struct Integrity {
    /// Digest entries in the order they appeared in the source string.
    pub algorithms: Vec<IntegrityDigest>,
}

/// Integrity parsing errors.
#[derive(Debug, Clone, PartialEq, Eq)]
pub enum IntegrityError {
    /// Integrity string was empty.
    Empty,
    /// Integrity digest did not contain a supported algorithm.
    UnsupportedAlgorithm(String),
    /// Integrity digest did not contain a base64 payload.
    InvalidDigest(String),
}

/// What one whitespace-separated part of an integrity string yields.
pub enum PartOutcome {
    Digest(IntegrityAlgorithm, Seq<char>),
    Unsupported(Seq<char>),
    Invalid(Seq<char>),
}

pub open spec fn sha512_chars() -> Seq<char> {
    seq!['s', 'h', 'a', '5', '1', '2']
}

pub open spec fn sha1_chars() -> Seq<char> {
    seq!['s', 'h', 'a', '1']
}

/// `algorithm-digest`, split at the first `-`.
pub open spec fn part_outcome(part: Seq<char>) -> PartOutcome {
    match find_spec(part, '-') {
        None => PartOutcome::Invalid(part),
        Some(i) => {
            let alg = part.take(i);
            let digest = part.skip(i + 1);
            if digest.len() == 0 {
                PartOutcome::Invalid(part)
            } else if alg == sha512_chars() {
                PartOutcome::Digest(IntegrityAlgorithm::Sha512, digest)
            } else if alg == sha1_chars() {
                PartOutcome::Digest(IntegrityAlgorithm::Sha1, digest)
            } else {
                PartOutcome::Unsupported(alg)
            }
        },
    }
}

/// The first part, in order, that is not a supported digest.
pub open spec fn first_bad_part(parts: Seq<Seq<char>>) -> Option<int> {
    if exists|i: int| 0 <= i < parts.len() && !(part_outcome(parts[i]) is Digest) {
        Some(
            choose|i: int|
                0 <= i < parts.len() && !(part_outcome(parts[i]) is Digest) && forall|j: int|
                    0 <= j < i ==> part_outcome(parts[j]) is Digest,
        )
    } else {
        None
    }
}

/// The digest parsed from `part`, when it is one.
pub open spec fn digest_matches(d: IntegrityDigest, part: Seq<char>) -> bool {
    part_outcome(part) matches PartOutcome::Digest(a, s) && d.algorithm == a
        && d.digest_base64@ == s
}

/// The outcome of [`Integrity::parse`] on `input`.
pub open spec fn integrity_parse_spec(input: Seq<char>, r: Result<Integrity, IntegrityError>) -> bool {
    let t = trim_spec(input);
    let parts = ws_tokens(t);
    if t.len() == 0 {
        r == Err::<Integrity, IntegrityError>(IntegrityError::Empty)
    } else {
        match first_bad_part(parts) {
            None => r matches Ok(integ) && integ.algorithms@.len() == parts.len() && forall|i: int|
                0 <= i < parts.len() ==> digest_matches(#[trigger] integ.algorithms@[i], parts[i]),
            Some(k) => match part_outcome(parts[k]) {
                PartOutcome::Invalid(p) => r matches Err(IntegrityError::InvalidDigest(s))
                    && s@ == p,
                PartOutcome::Unsupported(a) => r matches Err(
                    IntegrityError::UnsupportedAlgorithm(s),
                ) && s@ == a,
                PartOutcome::Digest(_, _) => false,
            },
        }
    }
}

/// Position of the strongest digest: the last SHA-512 entry if there is one,
/// else the last entry.
pub open spec fn strongest_index(v: Seq<IntegrityDigest>) -> Option<int> {
    if v.len() == 0 {
        None
    } else if exists|i: int| 0 <= i < v.len() && v[i].algorithm == IntegrityAlgorithm::Sha512 {
        Some(
            choose|i: int|
                0 <= i < v.len() && v[i].algorithm == IntegrityAlgorithm::Sha512 && forall|j: int|
                    i < j < v.len() ==> v[j].algorithm != IntegrityAlgorithm::Sha512,
        )
    } else {
        Some(v.len() - 1)
    }
}

fn parse_part(part: &str) -> (r: Result<IntegrityDigest, IntegrityError>)
    ensures
        match part_outcome(part@) {
            PartOutcome::Digest(a, s) => r matches Ok(d) && d.algorithm == a && d.digest_base64@
                == s,
            PartOutcome::Invalid(p) => r matches Err(IntegrityError::InvalidDigest(s)) && s@ == p,
            PartOutcome::Unsupported(al) => r matches Err(IntegrityError::UnsupportedAlgorithm(s))
                && s@ == al,
        },
{
    let n = part.unicode_len();
    match find_char(part, '-') {
        None => Err(IntegrityError::InvalidDigest(owned(part))),
        Some(i) => {
            proof {
                lemma_find(part@, '-');
            }
            let alg = slice(part, 0, i);
            let digest = slice(part, i + 1, n);
            assert(alg@ =~= part@.take(i as int));
            assert(digest@ =~= part@.skip(i + 1));
            if digest.unicode_len() == 0 {
                return Err(IntegrityError::InvalidDigest(owned(part)));
            }
            let s512 = "sha512";
            let s1 = "sha1";
            proof {
                reveal_strlit("sha512");
                reveal_strlit("sha1");
                assert(s512@ =~= sha512_chars());
                assert(s1@ =~= sha1_chars());
            }
            if str_eq(alg, s512) {
                Ok(IntegrityDigest { algorithm: IntegrityAlgorithm::Sha512, digest_base64: owned(digest) })
            } else if str_eq(alg, s1) {
                Ok(IntegrityDigest { algorithm: IntegrityAlgorithm::Sha1, digest_base64: owned(digest) })
            } else {
                Err(IntegrityError::UnsupportedAlgorithm(owned(alg)))
            }
        },
    }
}

impl Integrity {
    /// Parses an npm integrity string such as `sha512-... sha1-...`.
    pub fn parse(input: &str) -> (r: Result<Self, IntegrityError>)
        ensures
            integrity_parse_spec(input@, r),
    {
        let t = trim(input);
        if t.unicode_len() == 0 {
            return Err(IntegrityError::Empty);
        }
        let parts = split_whitespace(t);
        let ghost ps = ws_tokens(t@);
        let mut algorithms: Vec<IntegrityDigest> = Vec::new();
        let mut i: usize = 0;
        while i < parts.len()
            invariant
                t@ == trim_spec(input@),
                t@.len() != 0,
                ps == ws_tokens(t@),
                parts@.len() == ps.len(),
                forall|j: int| 0 <= j < parts@.len() ==> #[trigger] parts@[j]@ == ps[j],
                i <= parts@.len(),
                algorithms@.len() == i,
                forall|j: int| 0 <= j < i ==> part_outcome(ps[j]) is Digest,
                forall|j: int| 0 <= j < i ==> digest_matches(#[trigger] algorithms@[j], ps[j]),
            decreases parts@.len() - i,
        {
            let part = parts[i];
            match parse_part(part) {
                Ok(d) => {
                    algorithms.push(d);
                },
                Err(e) => {
                    proof {
                        let k = choose|k: int|
                            0 <= k < ps.len() && !(part_outcome(ps[k]) is Digest) && forall|j: int|
                                0 <= j < k ==> part_outcome(ps[j]) is Digest;
                        assert(!(part_outcome(ps[i as int]) is Digest));
                        if k < i {
                            assert(part_outcome(ps[k]) is Digest);
                        }
                        if k > i {
                            assert(part_outcome(ps[i as int]) is Digest);
                        }
                        assert(k == i);
                        assert(first_bad_part(ps) == Some(i as int));
                        assert(part@ == ps[i as int]);
                        assert(t@ == trim_spec(input@));
                        assert(t@.len() != 0);
                        match part_outcome(ps[i as int]) {
                            PartOutcome::Invalid(p) => {
                                assert(e matches IntegrityError::InvalidDigest(s) && s@ == p);
                            },
                            PartOutcome::Unsupported(a) => {
                                assert(e matches IntegrityError::UnsupportedAlgorithm(s) && s@ == a);
                            },
                            PartOutcome::Digest(_, _) => {},
                        }
                    }
                    return Err(e);
                },
            }
            i = i + 1;
        }
        Ok(Integrity { algorithms })
    }

    /// The strongest digest available (the last of the strongest algorithm).
    pub fn strongest(&self) -> (r: Option<&IntegrityDigest>)
        ensures
            match strongest_index(self.algorithms@) {
                None => r is None,
                Some(k) => r == Some(&self.algorithms@[k]),
            },
    {
        let n = self.algorithms.len();
        if n == 0 {
            return None;
        }
        let mut i: usize = n;
        while i > 0
            invariant
                n == self.algorithms@.len(),
                i <= n,
                forall|j: int|
                    i <= j < n ==> self.algorithms@[j].algorithm != IntegrityAlgorithm::Sha512,
            decreases i,
        {
            match self.algorithms[i - 1].algorithm {
                IntegrityAlgorithm::Sha512 => {
                    proof {
                        let v = self.algorithms@;
                        let c = choose|c: int|
                            0 <= c < v.len() && v[c].algorithm == IntegrityAlgorithm::Sha512
                                && forall|j: int|
                                i < j < v.len() ==> v[j].algorithm != IntegrityAlgorithm::Sha512;
                        assert(v[i - 1].algorithm == IntegrityAlgorithm::Sha512);
                        if c < i - 1 {
                        }
                    }
                    return Some(&self.algorithms[i - 1]);
                },
                IntegrityAlgorithm::Sha1 => {},
            }
            i = i - 1;
        }
        Some(&self.algorithms[n - 1])
    }
}


/// The name an integrity string gives an algorithm.
pub open spec fn algorithm_name(a: IntegrityAlgorithm) -> Seq<char> {
    match a {
        IntegrityAlgorithm::Sha512 => sha512_chars(),
        IntegrityAlgorithm::Sha1 => sha1_chars(),
    }
}

/// A part that parses as a digest is the algorithm's name, `-`, and the
/// digest.
proof fn lemma_digest_part(d: IntegrityDigest, part: Seq<char>)
    requires
        digest_matches(d, part),
    ensures
        part == algorithm_name(d.algorithm) + seq!['-'] + d.digest_base64@,
{
    lemma_find(part, '-');
    let i = find_spec(part, '-')->0;
    assert(part =~= part.take(i) + seq!['-'] + part.skip(i + 1));
}

/// What parsing an integrity string gives: the "empty" error exactly for a
/// blank string; an error exactly when the string is blank or one of its
/// whitespace-separated tokens is no supported digest; and on success one
/// digest per token, in order, each token being the algorithm's name, `-`
/// and the digest.
pub proof fn lemma_integrity_parse_laws(input: Seq<char>, r: Result<Integrity, IntegrityError>)
    requires
        integrity_parse_spec(input, r),
    ensures
        (r == Err::<Integrity, IntegrityError>(IntegrityError::Empty)) == (trim_spec(input).len() == 0),
        r is Err <==> (trim_spec(input).len() == 0 || exists|i: int|
            0 <= i < ws_tokens(trim_spec(input)).len() && !(part_outcome(
                #[trigger] ws_tokens(trim_spec(input))[i],
            ) is Digest)),
        r matches Ok(integ) ==> integ.algorithms@.len() == ws_tokens(trim_spec(input)).len() && forall|k: int|
            0 <= k < integ.algorithms@.len() ==> #[trigger] ws_tokens(trim_spec(input))[k] == algorithm_name(
                integ.algorithms@[k].algorithm,
            ) + seq!['-'] + integ.algorithms@[k].digest_base64@,
{
    let t = trim_spec(input);
    let parts = ws_tokens(t);
    if t.len() > 0 {
        match first_bad_part(parts) {
            None => {
                if let Ok(integ) = r {
                    assert forall|k: int| 0 <= k < integ.algorithms@.len() implies #[trigger] parts[k]
                        == algorithm_name(integ.algorithms@[k].algorithm) + seq!['-']
                        + integ.algorithms@[k].digest_base64@ by {
                        assert(digest_matches(integ.algorithms@[k], parts[k]));
                        lemma_digest_part(integ.algorithms@[k], parts[k]);
                    }
                    assert forall|i: int| 0 <= i < parts.len() implies part_outcome(#[trigger] parts[i])
                        is Digest by {
                        assert(digest_matches(integ.algorithms@[i], parts[i]));
                    }
                }
            },
            Some(k) => {
                let j = choose|i: int|
                    0 <= i < parts.len() && !(part_outcome(parts[i]) is Digest) && forall|j: int|
                        0 <= j < i ==> part_outcome(parts[j]) is Digest;
                assert(!(part_outcome(parts[j]) is Digest));
            },
        }
    }
}

} // verus!
