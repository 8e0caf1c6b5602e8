//! Tarball checks: integrity strings against content, cache file names, and
//! the paths a tarball may unpack to.

use crate::paths::lockfile_components_spec;
use crate::text::{cat, join, join_spec, owned, push_char, slice, split_char, split_char_spec, starts_with, str_eq, occurs_at};
use base64::Engine;
use sha1::Digest as Sha1Digest;
use subtle::ConstantTimeEq;
use vstd::prelude::*;
use vstd::string::StrSliceExecFns;
use vstd::string::StringExecFns;
use vstd::string::StringSliceAdditionalSpecFns;

verus! {

/// Progress events emitted while fetching packages.
#[derive(Debug, Clone)]
pub enum FetchEvent {
    /// A package was fetched, extracted, and imported into the store.
    PackageFetched(String),
    /// A package failed during fetch, extraction, or import.
    PackageFailed(String),
}

/// Report from a fetch operation.
#[derive(Debug, Clone)]
pub struct FetchReport {
    /// Packages downloaded, extracted and imported.
    pub success: usize,
    /// Packages served from the tarball cache.
    pub cached: usize,
    /// Packages already in the store.
    pub store_hits: usize,
    /// Messages of the packages that failed.
    pub failures: Vec<String>,
}

impl Default for FetchReport {
    fn default() -> (r: Self)
        ensures
            r.success == 0,
            r.cached == 0,
            r.store_hits == 0,
            r.failures@.len() == 0,
    {
        FetchReport { success: 0, cached: 0, store_hits: 0, failures: Vec::new() }
    }
}

/// The SHA-512 digest of the data.
pub uninterp spec fn sha512_of(data: Seq<u8>) -> Seq<u8>;

/// The SHA-256 digest of the data.
pub uninterp spec fn sha256_of(data: Seq<u8>) -> Seq<u8>;

/// The SHA-1 digest of the data.
pub uninterp spec fn sha1_of(data: Seq<u8>) -> Seq<u8>;

/// The character of a 6-bit value in the standard base64 alphabet
/// (`A`-`Z`, `a`-`z`, `0`-`9`, `+`, `/`).
pub open spec fn base64_char(v: nat) -> char {
    if v < 26 {
        ((v + 65) as u8) as char
    } else if v < 52 {
        ((v + 71) as u8) as char
    } else if v < 62 {
        ((v - 4) as u8) as char
    } else if v == 62 {
        '+'
    } else {
        '/'
    }
}

/// The standard, padded base64 text of the data: four characters for each
/// group of three bytes, a last group of one or two bytes padded with `=`.
pub open spec fn base64_text(data: Seq<u8>) -> Seq<char>
    decreases data.len(),
{
    if data.len() == 0 {
        seq![]
    } else if data.len() == 1 {
        let a = data[0] as nat;
        seq![base64_char(a / 4), base64_char((a % 4) * 16), '=', '=']
    } else if data.len() == 2 {
        let a = data[0] as nat;
        let b = data[1] as nat;
        seq![base64_char(a / 4), base64_char((a % 4) * 16 + b / 16), base64_char((b % 16) * 4), '=']
    } else {
        let a = data[0] as nat;
        let b = data[1] as nat;
        let c = data[2] as nat;
        seq![
            base64_char(a / 4),
            base64_char((a % 4) * 16 + b / 16),
            base64_char((b % 16) * 4 + c / 64),
            base64_char(c % 64),
        ] + base64_text(data.skip(3))
    }
}

/// The data a text decodes to as standard, padded base64: the data whose
/// base64 text it is, where there is such data (there is at most one, see
/// [`lemma_base64_round_trip`]).
pub open spec fn base64_data(text: Seq<char>) -> Option<Seq<u8>> {
    if exists|d: Seq<u8>| base64_text(d) == text {
        Some(choose|d: Seq<u8>| base64_text(d) == text)
    } else {
        None
    }
}

proof fn lemma_base64_char(v: nat, w: nat)
    requires
        v < 64,
        w < 64,
    ensures
        base64_char(v) != '=',
        base64_char(v) == base64_char(w) ==> v == w,
{
}

proof fn lemma_group_values(a1: u8, b1: u8, c1: u8, a2: u8, b2: u8, c2: u8)
    requires
        a1 / 4 == a2 / 4,
        (a1 % 4) * 16 + b1 / 16 == (a2 % 4) * 16 + b2 / 16,
        (b1 % 16) * 4 + c1 / 64 == (b2 % 16) * 4 + c2 / 64,
        c1 % 64 == c2 % 64,
    ensures
        a1 == a2,
        b1 == b2,
        c1 == c2,
{
    assert(a1 == a2 && b1 == b2 && c1 == c2) by (bit_vector)
        requires
            a1 / 4 == a2 / 4,
            (a1 % 4) * 16 + b1 / 16 == (a2 % 4) * 16 + b2 / 16,
            (b1 % 16) * 4 + c1 / 64 == (b2 % 16) * 4 + c2 / 64,
            c1 % 64 == c2 % 64,
    ;
}

proof fn lemma_pair_values(a1: u8, b1: u8, a2: u8, b2: u8)
    requires
        a1 / 4 == a2 / 4,
        (a1 % 4) * 16 + b1 / 16 == (a2 % 4) * 16 + b2 / 16,
        (b1 % 16) * 4 == (b2 % 16) * 4,
    ensures
        a1 == a2,
        b1 == b2,
{
    assert(a1 == a2 && b1 == b2) by (bit_vector)
        requires
            a1 / 4 == a2 / 4,
            (a1 % 4) * 16 + b1 / 16 == (a2 % 4) * 16 + b2 / 16,
            (b1 % 16) * 4 == (b2 % 16) * 4,
    ;
}

proof fn lemma_single_value(a1: u8, a2: u8)
    requires
        a1 / 4 == a2 / 4,
        (a1 % 4) * 16 == (a2 % 4) * 16,
    ensures
        a1 == a2,
{
    assert(a1 == a2) by (bit_vector)
        requires
            a1 / 4 == a2 / 4,
            (a1 % 4) * 16 == (a2 % 4) * 16,
    ;
}

/// What the length of the data shows in its text: none, one byte (a
/// third character `=`), two bytes (a fourth `=` only) or more (no `=`
/// among the first four).
proof fn lemma_base64_shape(d: Seq<u8>)
    ensures
        d.len() == 0 <==> base64_text(d).len() == 0,
        d.len() > 0 ==> base64_text(d).len() >= 4,
        d.len() == 1 ==> base64_text(d).len() == 4 && base64_text(d)[2] == '=',
        d.len() == 2 ==> base64_text(d).len() == 4 && base64_text(d)[2] != '=' && base64_text(d)[3] == '=',
        d.len() >= 3 ==> base64_text(d)[2] != '=' && base64_text(d)[3] != '=',
{
    if d.len() == 1 {
        lemma_base64_char(((d[0] as nat) % 4) * 16, 0);
    } else if d.len() == 2 {
        lemma_base64_char(((d[1] as nat) % 16) * 4, 0);
    } else if d.len() >= 3 {
        let a = d[0] as nat;
        let b = d[1] as nat;
        let c = d[2] as nat;
        lemma_base64_char((b % 16) * 4 + c / 64, 0);
        lemma_base64_char(c % 64, 0);
    }
}

/// Standard base64 text is one-to-one: two data with the same text are the
/// same data.
pub proof fn lemma_base64_text_injective(d1: Seq<u8>, d2: Seq<u8>)
    requires
        base64_text(d1) == base64_text(d2),
    ensures
        d1 == d2,
    decreases d1.len(),
{
    let t = base64_text(d1);
    lemma_base64_shape(d1);
    lemma_base64_shape(d2);
    if d1.len() == 0 {
        assert(d2.len() == 0);
        assert(d1 =~= d2);
    } else if d1.len() == 1 {
        assert(d2.len() == 1);
        let (a1, a2) = (d1[0], d2[0]);
        lemma_base64_char(a1 as nat / 4, a2 as nat / 4);
        lemma_base64_char((a1 as nat % 4) * 16, (a2 as nat % 4) * 16);
        assert(t[0] == base64_char(a1 as nat / 4));
        lemma_single_value(a1, a2);
        assert(d1 =~= d2);
    } else if d1.len() == 2 {
        assert(d2.len() == 2);
        let (a1, b1, a2, b2) = (d1[0], d1[1], d2[0], d2[1]);
        lemma_base64_char(a1 as nat / 4, a2 as nat / 4);
        lemma_base64_char((a1 as nat % 4) * 16 + b1 as nat / 16, (a2 as nat % 4) * 16 + b2 as nat / 16);
        lemma_base64_char((b1 as nat % 16) * 4, (b2 as nat % 16) * 4);
        lemma_pair_values(a1, b1, a2, b2);
        assert(d1 =~= d2);
    } else {
        assert(d2.len() >= 3);
        let (a1, b1, c1) = (d1[0], d1[1], d1[2]);
        let (a2, b2, c2) = (d2[0], d2[1], d2[2]);
        lemma_base64_char(a1 as nat / 4, a2 as nat / 4);
        lemma_base64_char((a1 as nat % 4) * 16 + b1 as nat / 16, (a2 as nat % 4) * 16 + b2 as nat / 16);
        lemma_base64_char((b1 as nat % 16) * 4 + c1 as nat / 64, (b2 as nat % 16) * 4 + c2 as nat / 64);
        lemma_base64_char(c1 as nat % 64, c2 as nat % 64);
        let g1 = seq![
            base64_char(a1 as nat / 4),
            base64_char((a1 as nat % 4) * 16 + b1 as nat / 16),
            base64_char((b1 as nat % 16) * 4 + c1 as nat / 64),
            base64_char(c1 as nat % 64),
        ];
        let g2 = seq![
            base64_char(a2 as nat / 4),
            base64_char((a2 as nat % 4) * 16 + b2 as nat / 16),
            base64_char((b2 as nat % 16) * 4 + c2 as nat / 64),
            base64_char(c2 as nat % 64),
        ];
        assert(t == g1 + base64_text(d1.skip(3)));
        assert(base64_text(d2) == g2 + base64_text(d2.skip(3)));
        assert(t[0] == g1[0] && t[1] == g1[1] && t[2] == g1[2] && t[3] == g1[3]);
        assert(t[0] == g2[0] && t[1] == g2[1] && t[2] == g2[2] && t[3] == g2[3]);
        lemma_group_values(a1, b1, c1, a2, b2, c2);
        let r1 = base64_text(d1.skip(3));
        let r2 = base64_text(d2.skip(3));
        assert(t.skip(4) =~= r1);
        assert(base64_text(d2).skip(4) =~= r2);
        lemma_base64_text_injective(d1.skip(3), d2.skip(3));
        assert(d1 =~= seq![a1, b1, c1] + d1.skip(3));
        assert(d2 =~= seq![a2, b2, c2] + d2.skip(3));
    }
}

/// Decoding undoes encoding: the base64 text of any data decodes to that
/// data.
pub proof fn lemma_base64_round_trip(d: Seq<u8>)
    ensures
        base64_data(base64_text(d)) == Some(d),
{
    let t = base64_text(d);
    assert(exists|e: Seq<u8>| base64_text(e) == t);
    let e = choose|e: Seq<u8>| base64_text(e) == t;
    lemma_base64_text_injective(e, d);
}

/// `sha2::Sha512::digest`: the 64-byte SHA-512 digest of the data.
#[verifier::external_body]
fn sha512(data: &[u8]) -> (r: Vec<u8>)
    ensures
        r@ == sha512_of(data@),
        r@.len() == 64,
{
    sha2::Sha512::digest(data).to_vec()
}

/// `sha2::Sha256::digest`: the 32-byte SHA-256 digest of the data.
#[verifier::external_body]
fn sha256(data: &[u8]) -> (r: Vec<u8>)
    ensures
        r@ == sha256_of(data@),
        r@.len() == 32,
{
    sha2::Sha256::digest(data).to_vec()
}

/// `sha1::Sha1` fed the data and finalized: the 20-byte SHA-1 digest.
#[verifier::external_body]
fn sha1(data: &[u8]) -> (r: Vec<u8>)
    ensures
        r@ == sha1_of(data@),
        r@.len() == 20,
{
    let mut hasher = sha1::Sha1::new();
    Sha1Digest::update(&mut hasher, data);
    Sha1Digest::finalize(hasher).to_vec()
}

/// The length of the padded base64 text of `n` bytes.
pub open spec fn encoded_len_spec(n: nat) -> int {
    (n / 3) * 4 + if n % 3 > 0 {
        4int
    } else {
        0int
    }
}

/// `base64::engine::general_purpose::STANDARD.encode`: the padded base64
/// text of the data, which decodes back to the data. The crate panics when
/// the text's length (four characters per started group of three bytes)
/// overflows `usize`; such inputs are left out.
#[verifier::external_body]
fn base64_engine_encode(data: &[u8]) -> (r: String)
    requires
        encoded_len_spec(data@.len()) <= usize::MAX,
    ensures
        r@ == base64_text(data@),
{
    base64::engine::general_purpose::STANDARD.encode(data)
}

/// `base64::engine::general_purpose::STANDARD.decode`: the bytes whose
/// padded base64 text the text is, or `None` when there are none; the
/// engine's configuration requires canonical padding and refuses stray
/// trailing bits, so it takes exactly the texts its encoder writes.
#[verifier::external_body]
fn base64_engine_decode(text: &str) -> (r: Option<Vec<u8>>)
    ensures
        match r {
            Some(v) => base64_data(text@) == Some(v@),
            None => base64_data(text@) is None,
        },
{
    base64::engine::general_purpose::STANDARD.decode(text).ok()
}

/// `subtle::ConstantTimeEq::ct_eq` on byte slices: equal lengths and equal
/// bytes, compared in time that does not depend on the contents.
#[verifier::external_body]
fn constant_time_eq(a: &[u8], b: &[u8]) -> (r: bool)
    ensures
        r == (a@ == b@),
{
    a.ct_eq(b).into()
}

/// Encodes bytes as standard, padded base64 (the npm integrity format).
pub fn base64_encode(input: &[u8]) -> (r: String)
    requires
        encoded_len_spec(input@.len()) <= usize::MAX,
    ensures
        r@ == base64_text(input@),
        base64_data(r@) == Some(input@),
{
    let r = base64_engine_encode(input);
    proof {
        lemma_base64_round_trip(input@);
    }
    r
}

/// Decodes standard, padded base64.
pub fn base64_decode(input: &str) -> (r: Option<Vec<u8>>)
    ensures
        match r {
            Some(v) => base64_data(input@) == Some(v@),
            None => base64_data(input@) is None,
        },
{
    base64_engine_decode(input)
}

/// The SHA-512 digest of the content, base64-encoded.
pub fn sha512_digest(content: &[u8]) -> (r: String)
    ensures
        r@ == base64_text(sha512_of(content@)),
{
    let d = sha512(content);
    base64_engine_encode(d.as_slice())
}

/// The SHA-256 digest of the content, base64-encoded.
pub fn sha256_digest(content: &[u8]) -> (r: String)
    ensures
        r@ == base64_text(sha256_of(content@)),
{
    let d = sha256(content);
    base64_engine_encode(d.as_slice())
}

/// The hash algorithms an integrity string may name.
#[derive(Debug, Clone, Copy, PartialEq, Eq)]
pub enum HashAlgorithm {
    Sha512,
    Sha256,
    Sha1,
}

/// Why content does not pass an integrity check.
#[derive(Debug, Clone, PartialEq, Eq)]
pub enum IntegrityCheckError {
    /// The digest text is not valid base64.
    InvalidBase64(String),
    /// The content hashes to another digest: the expected and the actual
    /// base64 digests.
    Mismatch { algorithm: HashAlgorithm, expected: String, actual: String },
}

pub open spec fn sha512_prefix() -> Seq<char> {
    seq!['s', 'h', 'a', '5', '1', '2', '-']
}

pub open spec fn sha256_prefix() -> Seq<char> {
    seq!['s', 'h', 'a', '2', '5', '6', '-']
}

pub open spec fn sha1_prefix() -> Seq<char> {
    seq!['s', 'h', 'a', '1', '-']
}

/// The name an integrity string uses for an algorithm.
pub open spec fn algorithm_text(a: HashAlgorithm) -> Seq<char> {
    match a {
        HashAlgorithm::Sha512 => "sha512"@,
        HashAlgorithm::Sha256 => "sha256"@,
        HashAlgorithm::Sha1 => "sha1"@,
    }
}

/// The message of an integrity check failure.
pub open spec fn integrity_error_text(e: IntegrityCheckError) -> Seq<char> {
    match e {
        IntegrityCheckError::InvalidBase64(t) => "invalid base64 in integrity string: "@ + t@,
        IntegrityCheckError::Mismatch { algorithm, expected, actual } => "integrity mismatch: expected "@
            + algorithm_text(algorithm) + "-"@ + expected@ + ", got "@ + algorithm_text(algorithm)
            + "-"@ + actual@,
    }
}

impl IntegrityCheckError {
    /// The error's message.
    pub fn message(&self) -> (r: String)
        ensures
            r@ == integrity_error_text(*self),
    {
        match self {
            IntegrityCheckError::InvalidBase64(t) => {
                let mut s = String::from_str("invalid base64 in integrity string: ");
                s.append(t.as_str());
                s
            },
            IntegrityCheckError::Mismatch { algorithm, expected, actual } => {
                let a = match algorithm {
                    HashAlgorithm::Sha512 => "sha512",
                    HashAlgorithm::Sha256 => "sha256",
                    HashAlgorithm::Sha1 => "sha1",
                };
                let mut s = String::from_str("integrity mismatch: expected ");
                s.append(a);
                s.append("-");
                s.append(expected.as_str());
                s.append(", got ");
                s.append(a);
                s.append("-");
                s.append(actual.as_str());
                s
            },
        }
    }
}

/// The algorithm an integrity string names, and where its digest starts.
pub open spec fn integrity_algorithm(expected: Seq<char>) -> Option<(HashAlgorithm, int)> {
    if occurs_at(expected, sha512_prefix(), 0) {
        Some((HashAlgorithm::Sha512, 7))
    } else if occurs_at(expected, sha256_prefix(), 0) {
        Some((HashAlgorithm::Sha256, 7))
    } else if occurs_at(expected, sha1_prefix(), 0) {
        Some((HashAlgorithm::Sha1, 5))
    } else {
        None
    }
}

pub open spec fn digest_of(alg: HashAlgorithm, content: Seq<u8>) -> Seq<u8> {
    match alg {
        HashAlgorithm::Sha512 => sha512_of(content),
        HashAlgorithm::Sha256 => sha256_of(content),
        HashAlgorithm::Sha1 => sha1_of(content),
    }
}

/// The outcome of checking `content` against an integrity string: strings
/// naming no known algorithm pass; otherwise the digest must decode and
/// equal the content's.
pub open spec fn integrity_outcome(content: Seq<u8>, expected: Seq<char>, r: Result<(), IntegrityCheckError>) -> bool {
    match integrity_algorithm(expected) {
        None => r is Ok,
        Some((alg, start)) => {
            let encoded = expected.skip(start);
            match base64_data(encoded) {
                None => r matches Err(IntegrityCheckError::InvalidBase64(t)) && t@ == encoded,
                Some(bytes) => if digest_of(alg, content) == bytes {
                    r is Ok
                } else {
                    r matches Err(IntegrityCheckError::Mismatch { algorithm, expected: e, actual })
                        && algorithm == alg && e@ == encoded && actual@ == base64_text(
                        digest_of(alg, content),
                    )
                },
            }
        },
    }
}

/// Checks content against an npm integrity string (`sha512-`, `sha256-` or
/// `sha1-` followed by a base64 digest); other strings pass.
pub fn verify_integrity(content: &[u8], expected: &str) -> (r: Result<(), IntegrityCheckError>)
    ensures
        integrity_outcome(content@, expected@, r),
{
    let p512 = "sha512-";
    let p256 = "sha256-";
    let p1 = "sha1-";
    proof {
        reveal_strlit("sha512-");
        reveal_strlit("sha256-");
        reveal_strlit("sha1-");
        assert(p512@ =~= sha512_prefix());
        assert(p256@ =~= sha256_prefix());
        assert(p1@ =~= sha1_prefix());
    }
    let n = expected.unicode_len();
    let (alg, start): (HashAlgorithm, usize) = if starts_with(expected, p512) {
        (HashAlgorithm::Sha512, 7)
    } else if starts_with(expected, p256) {
        (HashAlgorithm::Sha256, 7)
    } else if starts_with(expected, p1) {
        (HashAlgorithm::Sha1, 5)
    } else {
        return Ok(());
    };
    let encoded = slice(expected, start, n);
    let expected_bytes = match base64_engine_decode(encoded) {
        Some(b) => b,
        None => {
            return Err(IntegrityCheckError::InvalidBase64(owned(encoded)));
        },
    };
    let actual = match alg {
        HashAlgorithm::Sha512 => sha512(content),
        HashAlgorithm::Sha256 => sha256(content),
        HashAlgorithm::Sha1 => sha1(content),
    };
    if constant_time_eq(actual.as_slice(), expected_bytes.as_slice()) {
        return Ok(());
    }
    Err(
        IntegrityCheckError::Mismatch {
            algorithm: alg,
            expected: owned(encoded),
            actual: base64_engine_encode(actual.as_slice()),
        },
    )
}

/// A lowercase hexadecimal digit.
pub open spec fn hex_digit_char(d: nat) -> char {
    if d < 10 {
        ((d + 48) as u8) as char
    } else {
        ((d + 87) as u8) as char
    }
}

/// `hex::encode`: two lowercase hexadecimal digits per byte.
pub open spec fn hex_text(data: Seq<u8>) -> Seq<char>
    decreases data.len(),
{
    if data.len() == 0 {
        seq![]
    } else {
        hex_text(data.drop_last()) + seq![
            hex_digit_char((data.last() / 16) as nat),
            hex_digit_char((data.last() % 16) as nat),
        ]
    }
}

fn hex_digit(d: u8) -> (r: char)
    requires
        d < 16,
    ensures
        r == hex_digit_char(d as nat),
{
    if d < 10 {
        (d + 48) as char
    } else {
        (d + 87) as char
    }
}

/// Lowercase hexadecimal text of the bytes.
pub fn hex_encode(data: &[u8]) -> (r: String)
    ensures
        r@ == hex_text(data@),
{
    let mut out = String::new();
    let mut i: usize = 0;
    while i < data.len()
        invariant
            i <= data@.len(),
            out@ == hex_text(data@.take(i as int)),
        decreases data@.len() - i,
    {
        let b = data[i];
        push_char(&mut out, hex_digit(b / 16));
        push_char(&mut out, hex_digit(b % 16));
        proof {
            assert(data@.take(i + 1).drop_last() =~= data@.take(i as int));
            assert(out@ =~= hex_text(data@.take(i + 1)));
        }
        i = i + 1;
    }
    proof {
        assert(data@.take(i as int) =~= data@);
    }
    out
}

/// The SHA-256 digest of the content, as lowercase hexadecimal.
pub fn sha256_hex(content: &[u8]) -> (r: String)
    ensures
        r@ == hex_text(sha256_of(content@)),
        r@.len() == 64,
{
    let d = sha256(content);
    proof {
        lemma_hex_text_len(d@);
    }
    hex_encode(d.as_slice())
}

/// Hexadecimal text has two digits per byte.
pub proof fn lemma_hex_text_len(data: Seq<u8>)
    ensures
        hex_text(data).len() == 2 * data.len(),
    decreases data.len(),
{
    if data.len() > 0 {
        lemma_hex_text_len(data.drop_last());
    }
}


pub open spec fn tgz_suffix() -> Seq<char> {
    seq!['.', 't', 'g', 'z']
}

/// The cache file of a tarball URL: the hex SHA-256 of the URL's bytes and
/// `.tgz`.
pub fn cache_file_name(url: &str) -> (r: String)
    ensures
        r@ == hex_text(sha256_of(url.spec_bytes())) + tgz_suffix(),
{
    let hex = sha256_hex(url.as_bytes());
    let tgz = ".tgz";
    proof {
        reveal_strlit(".tgz");
        assert(tgz@ =~= tgz_suffix());
    }
    cat(hex.as_str(), tgz)
}

/// A lowercase hexadecimal digit.
pub open spec fn is_hex_digit(c: char) -> bool {
    ('0' <= c && c <= '9') || ('a' <= c && c <= 'f')
}

proof fn lemma_hex_digit_char(d: nat)
    requires
        d < 16,
    ensures
        is_hex_digit(hex_digit_char(d)),
{
    if d < 10 {
        assert(((d + 48) as u8) as int == d + 48);
    } else {
        assert(((d + 87) as u8) as int == d + 87);
    }
}

/// Hexadecimal text holds nothing but lowercase hexadecimal digits.
pub proof fn lemma_hex_text_digits(data: Seq<u8>)
    ensures
        forall|i: int| 0 <= i < hex_text(data).len() ==> is_hex_digit(#[trigger] hex_text(data)[i]),
    decreases data.len(),
{
    if data.len() > 0 {
        lemma_hex_text_digits(data.drop_last());
        lemma_hex_digit_char((data.last() / 16) as nat);
        lemma_hex_digit_char((data.last() % 16) as nat);
        let h = hex_text(data);
        let p = hex_text(data.drop_last());
        assert forall|i: int| 0 <= i < h.len() implies is_hex_digit(#[trigger] h[i]) by {
            if i < p.len() {
                assert(h[i] == p[i]);
            }
        }
    }
}

/// The cache file of any URL is a plain file name: no `/` and no `\\`, so
/// it cannot name a place outside the cache directory.
pub proof fn lemma_cache_file_name_has_no_separators(url: Seq<u8>)
    ensures
        forall|i: int|
            0 <= i < (hex_text(sha256_of(url)) + tgz_suffix()).len() ==> {
                let c = #[trigger] (hex_text(sha256_of(url)) + tgz_suffix())[i];
                c != '/' && c != '\\'
            },
{
    let h = hex_text(sha256_of(url));
    lemma_hex_text_digits(sha256_of(url));
    assert forall|i: int| 0 <= i < (h + tgz_suffix()).len() implies {
        let c = #[trigger] (h + tgz_suffix())[i];
        c != '/' && c != '\\'
    } by {
        if i < h.len() {
            assert(is_hex_digit(h[i]));
        }
    }
}

pub open spec fn package_chars() -> Seq<char> {
    seq!['p', 'a', 'c', 'k', 'a', 'g', 'e']
}

/// The components of a relative path (`.` first, if it starts so; root and
/// empty pieces dropped).
pub open spec fn path_components(path: Seq<char>) -> Seq<Seq<char>> {
    lockfile_components_spec(split_char_spec(path, '/'), 0)
}

/// A tarball entry path with its leading `package` directory dropped.
pub open spec fn strip_package_spec(path: Seq<char>) -> Seq<char> {
    let comps = path_components(path);
    if !(path.len() > 0 && path[0] == '/') && comps.len() > 0 && comps[0] == package_chars() {
        join_spec(comps.skip(1), seq!['/'])
    } else {
        path
    }
}

/// Drops the leading `package/` directory npm tarballs put their files in.
pub fn strip_npm_package_prefix(path: &str) -> (r: String)
    ensures
        r@ == strip_package_spec(path@),
{
    let comps = crate::paths::lockfile_components(path);
    let n = path.unicode_len();
    let pkg = "package";
    proof {
        reveal_strlit("package");
        assert(pkg@ =~= package_chars());
    }
    let rooted = n > 0 && path.get_char(0) == '/';
    if !rooted && comps.len() > 0 && str_eq(comps[0].as_str(), pkg) {
        let mut rest: Vec<String> = Vec::new();
        let mut i: usize = 1;
        while i < comps.len()
            invariant
                1 <= i <= comps@.len(),
                rest@.map_values(|s: String| s@) == comps@.map_values(|s: String| s@).subrange(1, i as int),
            decreases comps@.len() - i,
        {
            let ghost before = rest@;
            rest.push(owned(comps[i].as_str()));
            proof {
                assert(rest@.map_values(|s: String| s@) =~= before.map_values(|s: String| s@).push(comps@[i as int]@));
                assert(rest@.map_values(|s: String| s@) =~= comps@.map_values(|s: String| s@).subrange(1, i + 1));
            }
            i = i + 1;
        }
        let slash = "/";
        proof {
            reveal_strlit("/");
            assert(slash@ =~= seq!['/']);
            assert(comps@.map_values(|s: String| s@).subrange(1, comps@.len() as int) =~= comps@.map_values(|s: String| s@).skip(1));
        }
        join(&rest, slash)
    } else {
        owned(path)
    }
}

/// Why a tarball entry may not be unpacked.
#[derive(Debug, Clone, PartialEq, Eq)]
pub enum TarballPathError {
    /// The path climbs out with `..`.
    ParentDir(String),
    /// The path is absolute.
    Absolute(String),
}

/// Whether a tarball entry path stays inside the destination: not absolute,
/// no `..` component.
pub open spec fn tarball_path_outcome(path: Seq<char>, r: Result<(), TarballPathError>) -> bool {
    if path.len() > 0 && path[0] == '/' {
        r matches Err(TarballPathError::Absolute(t)) && t@ == path
    } else if path_components(path).contains(seq!['.', '.']) {
        r matches Err(TarballPathError::ParentDir(t)) && t@ == path
    } else {
        r is Ok
    }
}

/// Rejects tarball entry paths that are absolute or contain `..`.
pub fn validate_tarball_path(path: &str) -> (r: Result<(), TarballPathError>)
    ensures
        tarball_path_outcome(path@, r),
{
    let n = path.unicode_len();
    if n > 0 && path.get_char(0) == '/' {
        return Err(TarballPathError::Absolute(owned(path)));
    }
    let comps = crate::paths::lockfile_components(path);
    let dd = "..";
    proof {
        reveal_strlit("..");
        assert(dd@ =~= seq!['.', '.']);
    }
    let mut i: usize = 0;
    while i < comps.len()
        invariant
            i <= comps@.len(),
            dd@ == seq!['.', '.'],
            comps@.map_values(|s: String| s@) == path_components(path@),
            !(path@.len() > 0 && path@[0] == '/'),
            forall|j: int| 0 <= j < i ==> comps@[j]@ != seq!['.', '.'],
        decreases comps@.len() - i,
    {
        if str_eq(comps[i].as_str(), dd) {
            proof {
                assert(comps@.map_values(|s: String| s@)[i as int] == seq!['.', '.']);
            }
            return Err(TarballPathError::ParentDir(owned(path)));
        }
        i = i + 1;
    }
    proof {
        let v = comps@.map_values(|s: String| s@);
        if v.contains(seq!['.', '.']) {
            let j = choose|j: int| 0 <= j < v.len() && v[j] == seq!['.', '.'];
            assert(comps@[j]@ == seq!['.', '.']);
        }
    }
    Ok(())
}


/// The kinds of entry a tarball holds, as the extractor tells them apart.
#[derive(Debug, Clone, Copy, PartialEq, Eq)]
pub enum TarEntryKind {
    Directory,
    Symlink,
    HardLink,
    Regular,
    Continuous,
    Block,
    Char,
    Fifo,
    /// Any other kind.
    Other,
}

/// What the extractor does with an entry.
#[derive(Debug, Clone, Copy, PartialEq, Eq)]
pub enum EntryAction {
    /// Creates the directory.
    MakeDir,
    /// Replaces what is at the path by a symbolic link to the entry's target.
    Symlink,
    /// Replaces what is at the path by a hard link to the entry's target.
    HardLink,
    /// Writes the entry's content to a new file.
    WriteFile,
    /// Fails: a block or character device.
    RejectDevice,
    /// Fails: a named pipe.
    RejectFifo,
    /// Does nothing.
    Skip,
}

pub open spec fn entry_action_spec(kind: TarEntryKind) -> EntryAction {
    match kind {
        TarEntryKind::Directory => EntryAction::MakeDir,
        TarEntryKind::Symlink => EntryAction::Symlink,
        TarEntryKind::HardLink => EntryAction::HardLink,
        TarEntryKind::Regular | TarEntryKind::Continuous => EntryAction::WriteFile,
        TarEntryKind::Block | TarEntryKind::Char => EntryAction::RejectDevice,
        TarEntryKind::Fifo => EntryAction::RejectFifo,
        TarEntryKind::Other => EntryAction::Skip,
    }
}

/// What the extractor does with an entry of the given kind.
pub fn entry_action(kind: TarEntryKind) -> (r: EntryAction)
    ensures
        r == entry_action_spec(kind),
{
    match kind {
        TarEntryKind::Directory => EntryAction::MakeDir,
        TarEntryKind::Symlink => EntryAction::Symlink,
        TarEntryKind::HardLink => EntryAction::HardLink,
        TarEntryKind::Regular => EntryAction::WriteFile,
        TarEntryKind::Continuous => EntryAction::WriteFile,
        TarEntryKind::Block => EntryAction::RejectDevice,
        TarEntryKind::Char => EntryAction::RejectDevice,
        TarEntryKind::Fifo => EntryAction::RejectFifo,
        TarEntryKind::Other => EntryAction::Skip,
    }
}

/// The permission bits an extracted entry gets: the mode the archive
/// records (`0o644` when it records none), searchable by everyone for a
/// directory, without the bits above `0o777`.
pub open spec fn entry_mode_spec(kind: TarEntryKind, recorded: Option<u32>) -> u32 {
    let m = match recorded {
        Some(m) => m,
        None => 0o644u32,
    };
    if kind == TarEntryKind::Directory {
        (m | 0o111u32) & 0o777u32
    } else {
        m & 0o777u32
    }
}

/// The permission bits of an extracted entry.
pub fn entry_mode(kind: TarEntryKind, recorded: Option<u32>) -> (r: u32)
    ensures
        r == entry_mode_spec(kind, recorded),
{
    let m = match recorded {
        Some(m) => m,
        None => 0o644u32,
    };
    match kind {
        TarEntryKind::Directory => (m | 0o111u32) & 0o777u32,
        _ => m & 0o777u32,
    }
}


/// The same check as Windows paths read: `\` separates components like
/// `/`, and a drive prefix (`C:`) or a leading separator makes the path
/// absolute.
pub open spec fn windows_tarball_path_outcome(path: Seq<char>, r: Result<(), TarballPathError>) -> bool {
    let p = crate::binplan::replace_char_spec(path, '\\', '/');
    if (p.len() > 0 && p[0] == '/') || (path.len() >= 2 && crate::paths::is_ascii_alpha(path[0]) && path[1] == ':') {
        r matches Err(TarballPathError::Absolute(t)) && t@ == path
    } else if path_components(p).contains(seq!['.', '.']) {
        r matches Err(TarballPathError::ParentDir(t)) && t@ == path
    } else {
        r is Ok
    }
}

/// Rejects tarball entry paths that Windows reads as absolute or as
/// climbing out with `..`.
pub fn validate_tarball_path_windows(path: &str) -> (r: Result<(), TarballPathError>)
    ensures
        windows_tarball_path_outcome(path@, r),
{
    let n = path.unicode_len();
    if n >= 2 {
        let c0 = path.get_char(0);
        if (('a' <= c0 && c0 <= 'z') || ('A' <= c0 && c0 <= 'Z')) && path.get_char(1) == ':' {
            return Err(TarballPathError::Absolute(owned(path)));
        }
    }
    let p = crate::binplan::replace_char(path, '\\', '/');
    match validate_tarball_path(p.as_str()) {
        Ok(()) => Ok(()),
        Err(TarballPathError::Absolute(_)) => Err(TarballPathError::Absolute(owned(path))),
        Err(TarballPathError::ParentDir(_)) => Err(TarballPathError::ParentDir(owned(path))),
    }
}

} // verus!
