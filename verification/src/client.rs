//! The registry client's decisions: which failures are worth another
//! attempt, how long to wait, and how a response body is quoted in errors.

use crate::name::PackageName;
use crate::text::{cat, find_str, occurs_at, push_char};
use vstd::prelude::*;
use vstd::string::StrSliceExecFns;
use vstd::string::StringExecFns;

verus! {

/// How many times a packument request is attempted.
pub const PACKUMENT_MAX_RETRIES: usize = 6;

/// How many bytes of a response body an error message quotes.
pub const BODY_PREFIX_LIMIT: usize = 200;

/// Errors from the npm registry client.
#[derive(Debug, Clone)]
pub enum RegistryError {
    /// Package not found on the registry.
    PackageNotFound(PackageName),
    /// Network-level error.
    Network(String),
    /// Non-success HTTP response: status and body.
    Http(u16, String),
    /// Any other registry error.
    Other(String),
}

/// Cache statistics.
#[derive(Debug, Clone)]
pub struct CacheStats {
    /// Number of entries in the cache.
    pub entries: usize,
}

/// What the HTTP client reports about a failed request.
#[derive(Debug, Clone, Copy)]
pub struct TransportKinds {
    pub timeout: bool,
    pub connect: bool,
    pub request: bool,
    pub body: bool,
}

/// One link of an error's cause chain, as plain values: its message, and
/// the HTTP client's or this library's error it is, if either.
#[derive(Debug, Clone)]
pub struct ErrorCause {
    pub message: String,
    pub transport: Option<TransportKinds>,
    pub registry: Option<RegistryError>,
}

pub open spec fn response_body_chars() -> Seq<char> {
    seq!['r', 'e', 's', 'p', 'o', 'n', 's', 'e', ' ', 'b', 'o', 'd', 'y']
}

pub open spec fn body_read_chars() -> Seq<char> {
    seq![
        'e', 'r', 'r', 'o', 'r', ' ', 'r', 'e', 'a', 'd', 'i', 'n', 'g', ' ', 'a', ' ', 'b', 'o',
        'd', 'y', ' ', 'f', 'r', 'o', 'm', ' ', 'c', 'o', 'n', 'n', 'e', 'c', 't', 'i', 'o', 'n',
    ]
}

pub open spec fn eof_chars() -> Seq<char> {
    seq!['u', 'n', 'e', 'x', 'p', 'e', 'c', 't', 'e', 'd', ' ', 'E', 'O', 'F']
}

pub open spec fn contains_text(s: Seq<char>, p: Seq<char>) -> bool {
    exists|i: int| occurs_at(s, p, i)
}

/// A message that tells of a body read cut short.
pub open spec fn message_retryable(m: Seq<char>) -> bool {
    contains_text(m, response_body_chars()) || contains_text(m, body_read_chars()) || contains_text(
        m,
        eof_chars(),
    )
}

/// Whether a registry error is worth another attempt: network failures,
/// 429 and 5xx responses.
pub open spec fn registry_error_retryable(e: RegistryError) -> bool {
    match e {
        RegistryError::Network(_) => true,
        RegistryError::Http(status, _) => status == 429 || status >= 500,
        _ => false,
    }
}

/// The verdict one cause gives, if it gives one.
pub open spec fn cause_verdict(c: ErrorCause) -> Option<bool> {
    if message_retryable(c.message@) {
        Some(true)
    } else {
        match c.transport {
            Some(k) => Some(k.timeout || k.connect || k.request || k.body),
            None => match c.registry {
                Some(e) => Some(registry_error_retryable(e)),
                None => None,
            },
        }
    }
}

/// The first cause that gives a verdict decides; with none, no retry.
pub open spec fn chain_retryable(chain: Seq<ErrorCause>) -> bool
    decreases chain.len(),
{
    if chain.len() == 0 {
        false
    } else {
        match cause_verdict(chain[0]) {
            Some(b) => b,
            None => chain_retryable(chain.drop_first()),
        }
    }
}

fn text_contains(s: &str, p: &str) -> (r: bool)
    ensures
        r == contains_text(s@, p@),
{
    let f = find_str(s, p);
    f.is_some()
}

/// Whether a registry error is worth another attempt.
pub fn is_retryable_registry_error(e: &RegistryError) -> (r: bool)
    ensures
        r == registry_error_retryable(*e),
{
    match e {
        RegistryError::Network(_) => true,
        RegistryError::Http(status, _) => *status == 429 || *status >= 500,
        RegistryError::PackageNotFound(_) => false,
        RegistryError::Other(_) => false,
    }
}

/// Whether a failed packument request is worth another attempt, judged by
/// the first cause in its chain that tells.
pub fn is_retryable_packument_error(chain: &Vec<ErrorCause>) -> (r: bool)
    ensures
        r == chain_retryable(chain@),
{
    let a = "response body";
    let b = "error reading a body from connection";
    let c = "unexpected EOF";
    proof {
        reveal_strlit("response body");
        reveal_strlit("error reading a body from connection");
        reveal_strlit("unexpected EOF");
        assert(a@ =~= response_body_chars());
        assert(b@ =~= body_read_chars());
        assert(c@ =~= eof_chars());
    }
    let mut i: usize = 0;
    proof {
        assert(chain@.skip(0) =~= chain@);
    }
    while i < chain.len()
        invariant
            i <= chain@.len(),
            a@ == response_body_chars(),
            b@ == body_read_chars(),
            c@ == eof_chars(),
            chain_retryable(chain@) == chain_retryable(chain@.skip(i as int)),
        decreases chain@.len() - i,
    {
        proof {
            assert(chain@.skip(i as int).drop_first() =~= chain@.skip(i + 1));
            assert(chain@.skip(i as int)[0] == chain@[i as int]);
        }
        let cause = &chain[i];
        let m = cause.message.as_str();
        if text_contains(m, a) || text_contains(m, b) || text_contains(m, c) {
            return true;
        }
        match &cause.transport {
            Some(k) => {
                return k.timeout || k.connect || k.request || k.body;
            },
            None => {},
        }
        match &cause.registry {
            Some(e) => {
                return is_retryable_registry_error(e);
            },
            None => {},
        }
        i = i + 1;
    }
    proof {
        assert(chain@.skip(i as int).len() == 0);
    }
    false
}

/// Milliseconds to wait before the attempt after `attempt`: 250, doubled
/// per attempt, at most 2000.
pub open spec fn retry_delay_spec(attempt: nat) -> nat {
    if attempt == 0 {
        250
    } else if attempt == 1 {
        500
    } else if attempt == 2 {
        1000
    } else {
        2000
    }
}

/// Milliseconds to wait before retrying after attempt `attempt`.
pub fn packument_retry_delay(attempt: usize) -> (r: u64)
    ensures
        r == retry_delay_spec(attempt as nat),
{
    let e: usize = if attempt < 3 {
        attempt
    } else {
        3
    };
    let mut m: u64 = 250;
    let mut i: usize = 0;
    while i < e
        invariant
            i <= e <= 3,
            m == retry_delay_spec(i as nat),
        decreases e - i,
    {
        m = m * 2;
        i = i + 1;
    }
    m
}

/// What to do after a failed attempt.
#[derive(Debug, Clone, Copy, PartialEq, Eq)]
pub enum RetryStep {
    /// Wait this many milliseconds, then try again.
    RetryAfter(u64),
    /// Try again at once: no attempt is left to wait for.
    Exhausted,
    /// Give the error back: it is not worth another attempt.
    Fail,
}

/// The step after attempt `attempt` (counted from 0) failed.
pub open spec fn retry_step_spec(attempt: nat, retryable: bool) -> RetryStep {
    if !retryable {
        RetryStep::Fail
    } else if attempt + 1 < PACKUMENT_MAX_RETRIES {
        RetryStep::RetryAfter(retry_delay_spec(attempt) as u64)
    } else {
        RetryStep::Exhausted
    }
}

/// The step after attempt `attempt` failed with an error that is or is not
/// worth another attempt.
pub fn packument_retry_step(attempt: usize, retryable: bool) -> (r: RetryStep)
    ensures
        r == retry_step_spec(attempt as nat, retryable),
{
    if !retryable {
        RetryStep::Fail
    } else if attempt < PACKUMENT_MAX_RETRIES - 1 {
        RetryStep::RetryAfter(packument_retry_delay(attempt))
    } else {
        RetryStep::Exhausted
    }
}

/// Lowercase hexadecimal digit.
pub open spec fn hex_char(d: nat) -> char {
    if d < 10 {
        ((d + 48) as u8) as char
    } else {
        ((d + 87) as u8) as char
    }
}

/// Lowercase hexadecimal digits, no leading zeros.
pub open spec fn hex_digits(n: nat) -> Seq<char>
    decreases n,
{
    if n < 16 {
        seq![hex_char(n)]
    } else {
        hex_digits(n / 16) + seq![hex_char(n % 16)]
    }
}

/// `char::escape_default`: `\t`, `\r`, `\n`, `\'`, `\"` and `\\` escaped
/// with a backslash, printable ASCII kept, everything else as `\u{hex}`.
pub open spec fn escape_char_spec(c: char) -> Seq<char> {
    if c == '\t' {
        seq!['\\', 't']
    } else if c == '\r' {
        seq!['\\', 'r']
    } else if c == '\n' {
        seq!['\\', 'n']
    } else if c == '\'' {
        seq!['\\', '\'']
    } else if c == '"' {
        seq!['\\', '"']
    } else if c == '\\' {
        seq!['\\', '\\']
    } else if 0x20 <= (c as u32) <= 0x7e {
        seq![c]
    } else {
        seq!['\\', 'u', '{'] + hex_digits(c as u32 as nat) + seq!['}']
    }
}

/// Every character escaped, in order.
pub open spec fn escape_all(s: Seq<char>) -> Seq<char>
    decreases s.len(),
{
    if s.len() == 0 {
        seq![]
    } else {
        escape_all(s.drop_last()) + escape_char_spec(s.last())
    }
}

fn hex_digit(d: u32) -> (r: char)
    requires
        d < 16,
    ensures
        r == hex_char(d as nat),
{
    if d < 10 {
        ((d + 48) as u8) as char
    } else {
        ((d + 87) as u8) as char
    }
}

fn push_hex(s: &mut String, n: u32)
    ensures
        final(s)@ == old(s)@ + hex_digits(n as nat),
    decreases n,
{
    if n < 16 {
        let c = hex_digit(n);
        push_char(s, c);
        proof {
            assert(hex_digits(n as nat) =~= seq![hex_char(n as nat)]);
        }
    } else {
        push_hex(s, n / 16);
        let c = hex_digit(n % 16);
        push_char(s, c);
        proof {
            assert(hex_digits(n as nat) =~= hex_digits((n / 16) as nat) + seq![hex_char((n % 16) as nat)]);
        }
    }
}

/// Appends `char::escape_default(c)`.
fn push_escaped(s: &mut String, c: char)
    ensures
        final(s)@ == old(s)@ + escape_char_spec(c),
{
    let code = c as u32;
    if c == '\t' {
        push_char(s, '\\');
        push_char(s, 't');
    } else if c == '\r' {
        push_char(s, '\\');
        push_char(s, 'r');
    } else if c == '\n' {
        push_char(s, '\\');
        push_char(s, 'n');
    } else if c == '\'' {
        push_char(s, '\\');
        push_char(s, '\'');
    } else if c == '"' {
        push_char(s, '\\');
        push_char(s, '"');
    } else if c == '\\' {
        push_char(s, '\\');
        push_char(s, '\\');
    } else if 0x20 <= code && code <= 0x7e {
        push_char(s, c);
    } else {
        push_char(s, '\\');
        push_char(s, 'u');
        push_char(s, '{');
        push_hex(s, code);
        push_char(s, '}');
    }
    proof {
        assert(s@ =~= old(s)@ + escape_char_spec(c));
    }
}

/// Every character of `t` escaped as `char::escape_default` does.
pub fn escape_default_text(t: &str) -> (r: String)
    ensures
        r@ == escape_all(t@),
{
    let mut out = String::new();
    let n = t.unicode_len();
    let mut i: usize = 0;
    while i < n
        invariant
            n == t@.len(),
            i <= n,
            out@ == escape_all(t@.take(i as int)),
        decreases n - i,
    {
        let c = t.get_char(i);
        push_escaped(&mut out, c);
        proof {
            assert(t@.take(i + 1).drop_last() =~= t@.take(i as int));
        }
        i = i + 1;
    }
    proof {
        assert(t@.take(n as int) =~= t@);
    }
    out
}

/// What `String::from_utf8_lossy` makes of a byte sequence.
pub uninterp spec fn utf8_lossy(bytes: Seq<u8>) -> Seq<char>;

/// `String::from_utf8_lossy`: the bytes decoded as UTF-8, each invalid
/// sequence replaced by U+FFFD. Stated here: the result is the named
/// decoding of the bytes, and bytes that are all ASCII decode to the
/// characters of the same codes.
#[verifier::external_body]
fn decode_utf8_lossy(bytes: &[u8]) -> (r: String)
    ensures
        r@ == utf8_lossy(bytes@),
        (forall|i: int| 0 <= i < bytes@.len() ==> bytes@[i] < 128) ==> r@ == bytes@.map_values(
            |b: u8| b as char,
        ),
{
    String::from_utf8_lossy(bytes).into_owned()
}

pub open spec fn ellipsis() -> Seq<char> {
    seq!['.', '.', '.']
}

/// What an error message quotes of a response body: the first 200 bytes,
/// decoded and escaped, followed by `...` when the body is longer.
pub open spec fn body_prefix_spec(body: Seq<u8>) -> Seq<char> {
    let head = if body.len() <= 200 {
        body
    } else {
        body.take(200)
    };
    let escaped = escape_all(utf8_lossy(head));
    if body.len() > 200 {
        escaped + ellipsis()
    } else {
        escaped
    }
}

/// What `body_prefix_spec` gives for a body of ASCII bytes: each byte read
/// as the character of the same code.
pub open spec fn ascii_body_prefix_spec(body: Seq<u8>) -> Seq<char> {
    let head = if body.len() <= 200 {
        body
    } else {
        body.take(200)
    };
    let escaped = escape_all(head.map_values(|b: u8| b as char));
    if body.len() > 200 {
        escaped + ellipsis()
    } else {
        escaped
    }
}

/// The start of a response body, decoded and escaped, for error messages.
pub fn body_prefix(body: &[u8]) -> (r: String)
    ensures
        r@ == body_prefix_spec(body@),
        (forall|i: int| 0 <= i < body@.len() ==> body@[i] < 128) ==> r@ == ascii_body_prefix_spec(body@),
{
    let n = body.len();
    let take = if n < BODY_PREFIX_LIMIT {
        n
    } else {
        BODY_PREFIX_LIMIT
    };
    let mut head: Vec<u8> = Vec::new();
    let mut i: usize = 0;
    while i < take
        invariant
            take <= n == body@.len(),
            i <= take,
            head@ == body@.take(i as int),
        decreases take - i,
    {
        head.push(body[i]);
        proof {
            assert(body@.take(i + 1) =~= body@.take(i as int).push(body@[i as int]));
        }
        i = i + 1;
    }
    proof {
        if n <= 200 {
            assert(body@.take(n as int) =~= body@);
        }
    }
    proof {
        if forall|i: int| 0 <= i < body@.len() ==> body@[i] < 128 {
            assert forall|i: int| 0 <= i < head@.len() implies head@[i] < 128 by {
                assert(head@[i] == body@[i]);
            }
        }
    }
    let text = decode_utf8_lossy(head.as_slice());
    let escaped = escape_default_text(text.as_str());
    if n > BODY_PREFIX_LIMIT {
        let dots = "...";
        proof {
            reveal_strlit("...");
            assert(dots@ =~= ellipsis());
        }
        cat(escaped.as_str(), dots)
    } else {
        escaped
    }
}


/// What a packument response's status means.
#[derive(Debug, Clone, Copy, PartialEq, Eq)]
pub enum ResponseVerdict {
    /// 304: the cached packument still holds.
    NotModified,
    /// 404: no such package.
    NotFound,
    /// Another status outside 200..=299: an HTTP error with this status.
    Failed(u16),
    /// A success: the body is the packument.
    Parse,
}

/// The verdict on a response status: 304 first, then 404, then any other
/// status that is not a success.
pub open spec fn verdict_spec(status: u16) -> ResponseVerdict {
    if status == 304 {
        ResponseVerdict::NotModified
    } else if status == 404 {
        ResponseVerdict::NotFound
    } else if !(200 <= status <= 299) {
        ResponseVerdict::Failed(status)
    } else {
        ResponseVerdict::Parse
    }
}

/// Judges the status of a packument response.
pub fn response_verdict(status: u16) -> (r: ResponseVerdict)
    ensures
        r == verdict_spec(status),
{
    if status == 304 {
        ResponseVerdict::NotModified
    } else if status == 404 {
        ResponseVerdict::NotFound
    } else if !(200 <= status && status <= 299) {
        ResponseVerdict::Failed(status)
    } else {
        ResponseVerdict::Parse
    }
}

/// The message of a packument body that does not decode: where it came
/// from, the decoder's words, the content type (`<unknown>` when the
/// response gave none) and the start of the body.
pub open spec fn decode_failure_spec(url: Seq<char>, error: Seq<char>, content_type: Option<Seq<char>>, body: Seq<u8>) -> Seq<char> {
    let ct = match content_type {
        Some(c) => c,
        None => "<unknown>"@,
    };
    "failed to decode packument JSON from "@ + url + ": "@ + error + "; content-type: "@ + ct + "; body prefix: "@
        + body_prefix_spec(body)
}

/// The error for a packument body that does not decode.
pub fn decode_failure(url: &str, error: &str, content_type: &Option<String>, body: &[u8]) -> (r: RegistryError)
    ensures
        r matches RegistryError::Other(m) && m@ == decode_failure_spec(
            url@,
            error@,
            match content_type {
                Some(c) => Some(c@),
                None => None,
            },
            body@,
        ),
{
    let mut m = cat("failed to decode packument JSON from ", url);
    m.append(": ");
    m.append(error);
    m.append("; content-type: ");
    match content_type {
        Some(c) => m.append(c.as_str()),
        None => m.append("<unknown>"),
    }
    m.append("; body prefix: ");
    let prefix = body_prefix(body);
    m.append(prefix.as_str());
    RegistryError::Other(m)
}


/// The context an exhausted packument fetch is reported with: the URL and
/// the number of attempts made (`PACKUMENT_MAX_RETRIES`).
pub open spec fn exhausted_message_spec(url: Seq<char>) -> Seq<char> {
    "failed to fetch packument from "@ + url + " after 6 attempts"@
}

/// The context of an error after every attempt at a packument failed.
pub fn exhausted_message(url: &str) -> (r: String)
    ensures
        r@ == exhausted_message_spec(url@),
{
    let mut m = cat("failed to fetch packument from ", url);
    m.append(" after 6 attempts");
    m
}

} // verus!
