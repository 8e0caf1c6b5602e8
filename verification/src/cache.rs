//! The packument cache's bookkeeping: entries that expire against a clock
//! reading the caller supplies, and where and for how long the disk layer
//! keeps a package's packument.

use crate::fetch::{hex_text, sha256_hex, sha256_of};
use crate::paths::{join_path, join_path_spec};
use crate::registry::Packument;
use crate::strmap::StrMap;
use crate::text::{cat, owned, push_char, slice};
use vstd::prelude::*;
use vstd::string::StrSliceExecFns;
use vstd::string::StringSliceAdditionalSpecFns;

verus! {

/// How long a fetched packument stays fresh in memory, in milliseconds.
pub const PACKUMENT_CACHE_TTL_MS: u64 = 300_000;

/// How long a packument read back from disk stays fresh in memory, in
/// milliseconds.
pub const DISK_CACHE_TTL_MS: u64 = 3_600_000;

/// The age, in seconds, past which a packument on disk is stale.
pub const DISK_CACHE_TTL_SECS: u64 = 3600;

/// A cached packument and the clock reading at which it expires.
pub struct CacheEntry {
    pub packument: Packument,
    pub expires_at: u64,
}

/// Packuments by package name, each until its expiry.
pub struct PackumentCache {
    entries: StrMap<CacheEntry>,
}

impl PackumentCache {
    /// A packument is cached under `name`.
    pub closed spec fn has(&self, name: Seq<char>) -> bool {
        self.entries.has(name)
    }

    /// When the entry under `name` expires.
    pub closed spec fn expiry(&self, name: Seq<char>) -> u64 {
        self.entries.at(name).expires_at
    }

    /// The packument cached under `name`.
    pub closed spec fn packument(&self, name: Seq<char>) -> Packument {
        self.entries.at(name).packument
    }

    /// How many entries the cache holds.
    pub closed spec fn size(&self) -> nat {
        self.entries.keys().len()
    }

    /// `name` is cached and its entry has not expired at `now`.
    pub open spec fn fresh(&self, name: Seq<char>, now: u64) -> bool {
        self.has(name) && now < self.expiry(name)
    }

    /// An empty cache.
    pub fn new() -> (r: Self)
        ensures
            forall|n: Seq<char>| !r.has(n),
            r.size() == 0,
    {
        PackumentCache { entries: StrMap::new() }
    }

    /// The packument cached under `name`, unless it has expired at `now`;
    /// an expired entry is removed as it is read, the others stay.
    pub fn get(&mut self, name: &str, now: u64) -> (r: Option<&Packument>)
        ensures
            r is Some <==> old(self).fresh(name@, now),
            r is Some ==> *r->0 == old(self).packument(name@),
            final(self).has(name@) == old(self).fresh(name@, now),
            old(self).has(name@) && !old(self).fresh(name@, now) ==> final(self).size() + 1 == old(self).size(),
            !(old(self).has(name@) && !old(self).fresh(name@, now)) ==> final(self).size() == old(self).size(),
            forall|n: Seq<char>| n != name@ ==> final(self).has(n) == old(self).has(n),
            forall|n: Seq<char>|
                final(self).has(n) ==> final(self).expiry(n) == old(self).expiry(n)
                    && final(self).packument(n) == old(self).packument(n),
    {
        self.evict_if_expired(name, now);
        self.peek(name, now)
    }

    /// The packument cached under `name`, unless it has expired at `now`;
    /// nothing is removed.
    pub fn peek(&self, name: &str, now: u64) -> (r: Option<&Packument>)
        ensures
            r is Some <==> self.fresh(name@, now),
            r is Some ==> *r->0 == self.packument(name@),
    {
        match self.entries.get(name) {
            Some(e) => {
                if now < e.expires_at {
                    Some(&e.packument)
                } else {
                    None
                }
            },
            None => None,
        }
    }

    /// Caches `packument` under `name` until `now + ttl`, replacing what
    /// was cached there; every other entry stays as it was.
    pub fn insert(&mut self, name: String, packument: Packument, now: u64, ttl: u64)
        requires
            now + ttl <= u64::MAX,
        ensures
            final(self).has(name@),
            final(self).expiry(name@) == now + ttl,
            final(self).packument(name@) == packument,
            forall|n: Seq<char>| n != name@ ==> final(self).has(n) == old(self).has(n),
            forall|n: Seq<char>|
                n != name@ && old(self).has(n) ==> final(self).expiry(n) == old(self).expiry(n)
                    && final(self).packument(n) == old(self).packument(n),
    {
        let e = CacheEntry { packument, expires_at: now + ttl };
        self.entries.insert(name, e);
    }

    /// Drops the entry under `name`; every other entry stays as it was.
    pub fn remove(&mut self, name: &str)
        ensures
            !final(self).has(name@),
            old(self).has(name@) ==> final(self).size() + 1 == old(self).size(),
            !old(self).has(name@) ==> final(self).size() == old(self).size(),
            forall|n: Seq<char>| n != name@ ==> final(self).has(n) == old(self).has(n),
            forall|n: Seq<char>|
                n != name@ && old(self).has(n) ==> final(self).expiry(n) == old(self).expiry(n)
                    && final(self).packument(n) == old(self).packument(n),
    {
        match self.entries.find(name) {
            Some(i) => {
                let ghost o = self.entries;
                let _ = self.entries.remove_at(i);
                proof {
                    let e = self.entries;
                    assert forall|q: Seq<char>| q != name@ implies e.has(q) == o.has(q) by {
                        if o.has(q) {
                            let j = o.index_of(q);
                            assert(o.keys()[j] == q);
                            assert(j != i);
                            let nj = if j < i { j } else { j - 1 };
                            assert(e.keys()[nj] == q);
                        }
                        if e.has(q) {
                            let j = choose|j: int| 0 <= j < e.keys().len() && e.keys()[j] == q;
                            let oj = if j < i { j } else { j + 1 };
                            assert(o.keys()[oj] == q);
                        }
                    }
                    assert forall|q: Seq<char>| q != name@ && o.has(q) implies e.at(q) == o.at(q) by {
                        let j = o.index_of(q);
                        assert(o.keys()[j] == q);
                        o.lemma_index(q, j);
                        let nj = if j < i { j } else { j - 1 };
                        assert(e.keys()[nj] == q);
                        e.lemma_index(q, nj);
                    }
                    if e.has(name@) {
                        let j = choose|j: int| 0 <= j < e.keys().len() && e.keys()[j] == name@;
                        let oj = if j < i { j } else { j + 1 };
                        assert(o.keys()[oj] == name@);
                        o.lemma_index(name@, oj);
                        o.lemma_index(name@, i as int);
                    }
                }
            },
            None => {},
        }
    }

    /// Drops the entry under `name` if it has expired at `now`.
    pub fn evict_if_expired(&mut self, name: &str, now: u64)
        ensures
            final(self).has(name@) == old(self).fresh(name@, now),
            old(self).has(name@) && !old(self).fresh(name@, now) ==> final(self).size() + 1 == old(self).size(),
            !(old(self).has(name@) && !old(self).fresh(name@, now)) ==> final(self).size() == old(self).size(),
            forall|n: Seq<char>| n != name@ ==> final(self).has(n) == old(self).has(n),
            forall|n: Seq<char>|
                final(self).has(n) ==> final(self).expiry(n) == old(self).expiry(n)
                    && final(self).packument(n) == old(self).packument(n),
    {
        let expired = match self.entries.get(name) {
            Some(e) => now >= e.expires_at,
            None => false,
        };
        if expired {
            self.remove(name);
        }
    }

    /// Drops every entry that has expired at `now`; the others stay as they
    /// were.
    pub fn evict_expired(&mut self, now: u64)
        ensures
            forall|n: Seq<char>| final(self).has(n) == old(self).fresh(n, now),
            forall|n: Seq<char>|
                final(self).has(n) ==> final(self).expiry(n) == old(self).expiry(n)
                    && final(self).packument(n) == old(self).packument(n),
    {
        let n = self.entries.len();
        let mut keep: Vec<bool> = Vec::new();
        let mut j: usize = 0;
        while j < n
            invariant
                j <= n,
                n == self.entries.keys().len(),
                self.entries.wf(),
                keep@.len() == j,
                forall|k: int| 0 <= k < j ==> keep@[k] == (now < self.entries.vals()[k].expires_at),
            decreases n - j,
        {
            let e = self.entries.value_at(j);
            keep.push(now < e.expires_at);
            j = j + 1;
        }
        let ghost o = self.entries;
        self.entries.retain_marked(&keep);
    }

    /// Drops every entry.
    pub fn clear(&mut self)
        ensures
            forall|n: Seq<char>| !final(self).has(n),
            final(self).size() == 0,
    {
        self.entries.clear();
    }

    /// How many entries the cache holds.
    pub fn len(&self) -> (r: usize)
        ensures
            r == self.size(),
    {
        self.entries.len()
    }

    /// Whether the cache holds no entry.
    pub fn is_empty(&self) -> (r: bool)
        ensures
            r == (self.size() == 0),
    {
        self.entries.is_empty()
    }
}

/// Whether a packument written to disk at `fetched_at` (seconds since the
/// epoch) is stale at the clock reading `now_secs` seconds and `now_nanos`
/// nanoseconds: when the clock reads earlier than the write, or more than
/// an hour has passed since.
pub open spec fn disk_entry_expired_spec(fetched_at: u64, now_secs: u64, now_nanos: u32) -> bool {
    now_secs < fetched_at || now_secs - fetched_at > DISK_CACHE_TTL_SECS || (now_secs - fetched_at
        == DISK_CACHE_TTL_SECS && now_nanos > 0)
}

/// Whether a disk entry is stale.
pub fn disk_entry_expired(fetched_at: u64, now_secs: u64, now_nanos: u32) -> (r: bool)
    ensures
        r == disk_entry_expired_spec(fetched_at, now_secs, now_nanos),
{
    if now_secs < fetched_at {
        true
    } else {
        let age = now_secs - fetched_at;
        age > DISK_CACHE_TTL_SECS || (age == DISK_CACHE_TTL_SECS && now_nanos > 0)
    }
}

/// A package name as a file name of the disk cache: `/` written `~2f`,
/// `@` written `%40`.
pub open spec fn escape_cache_name_spec(name: Seq<char>) -> Seq<char>
    decreases name.len(),
{
    if name.len() == 0 {
        seq![]
    } else {
        let c = name.last();
        escape_cache_name_spec(name.drop_last()) + if c == '/' {
            seq!['~', '2', 'f']
        } else if c == '@' {
            seq!['%', '4', '0']
        } else {
            seq![c]
        }
    }
}

/// The file name under which the disk cache keeps a package.
pub fn escape_cache_name(name: &str) -> (r: String)
    ensures
        r@ == escape_cache_name_spec(name@),
{
    let mut out = String::new();
    let n = name.unicode_len();
    let mut i: usize = 0;
    while i < n
        invariant
            n == name@.len(),
            i <= n,
            out@ == escape_cache_name_spec(name@.take(i as int)),
        decreases n - i,
    {
        let c = name.get_char(i);
        proof {
            assert(name@.take(i as int + 1).drop_last() =~= name@.take(i as int));
        }
        if c == '/' {
            push_char(&mut out, '~');
            push_char(&mut out, '2');
            push_char(&mut out, 'f');
        } else if c == '@' {
            push_char(&mut out, '%');
            push_char(&mut out, '4');
            push_char(&mut out, '0');
        } else {
            push_char(&mut out, c);
        }
        proof {
            assert(out@ =~= escape_cache_name_spec(name@.take(i as int + 1)));
        }
        i = i + 1;
    }
    proof {
        assert(name@.take(n as int) =~= name@);
    }
    out
}

pub open spec fn default_namespace() -> Seq<char> {
    seq!['d', 'e', 'f', 'a', 'u', 'l', 't']
}

/// The directory of the disk cache that one registry's packuments share:
/// the first 16 hexadecimal digits of the SHA-256 of the registry's URL, or
/// `default` when the cache has no registry URL.
pub open spec fn registry_namespace_spec(registry_url: Option<Seq<u8>>) -> Seq<char> {
    match registry_url {
        Some(u) => hex_text(sha256_of(u)).take(16),
        None => default_namespace(),
    }
}

/// The disk cache directory of a registry.
pub fn registry_namespace(registry_url: &Option<String>) -> (r: String)
    ensures
        r@ == registry_namespace_spec(
            match registry_url {
                Some(u) => Some(vstd::utf8::encode_utf8(u@)),
                None => None,
            },
        ),
{
    match registry_url {
        Some(u) => {
            let h = sha256_hex(u.as_str().as_bytes());
            owned(slice(h.as_str(), 0, 16))
        },
        None => {
            let d = "default";
            proof {
                reveal_strlit("default");
                assert(d@ =~= default_namespace());
            }
            owned(d)
        },
    }
}

pub open spec fn json_suffix() -> Seq<char> {
    seq!['.', 'j', 's', 'o', 'n']
}

pub open spec fn meta_json_suffix() -> Seq<char> {
    seq!['.', 'm', 'e', 't', 'a', '.', 'j', 's', 'o', 'n']
}

/// Where the disk cache keeps a package's packument and its metadata:
/// `<root>/<namespace>/<escaped>.json` and `<escaped>.meta.json` beside it.
pub open spec fn disk_cache_paths_spec(root: Seq<char>, namespace: Seq<char>, name: Seq<char>) -> (Seq<char>, Seq<char>) {
    let dir = join_path_spec(root, namespace);
    let e = escape_cache_name_spec(name);
    (join_path_spec(dir, e + json_suffix()), join_path_spec(dir, e + meta_json_suffix()))
}

/// The data and metadata files of a package in the disk cache.
pub fn disk_cache_paths(root: &str, registry_url: &Option<String>, name: &str) -> (r: (String, String))
    ensures
        (r.0@, r.1@) == disk_cache_paths_spec(
            root@,
            registry_namespace_spec(
                match registry_url {
                    Some(u) => Some(vstd::utf8::encode_utf8(u@)),
                    None => None,
                },
            ),
            name@,
        ),
{
    let ns = registry_namespace(registry_url);
    let dir = join_path(root, ns.as_str());
    let e = escape_cache_name(name);
    let js = ".json";
    let ms = ".meta.json";
    proof {
        reveal_strlit(".json");
        reveal_strlit(".meta.json");
        assert(js@ =~= json_suffix());
        assert(ms@ =~= meta_json_suffix());
    }
    let a = cat(e.as_str(), js);
    let b = cat(e.as_str(), ms);
    (join_path(dir.as_str(), a.as_str()), join_path(dir.as_str(), b.as_str()))
}

pub open spec fn metadata_chars() -> Seq<char> {
    seq!['m', 'e', 't', 'a', 'd', 'a', 't', 'a']
}

/// The root of a disk cache kept under `root`: its `metadata` directory.
pub fn metadata_root(root: &str) -> (r: String)
    ensures
        r@ == join_path_spec(root@, metadata_chars()),
{
    let m = "metadata";
    proof {
        reveal_strlit("metadata");
        assert(m@ =~= metadata_chars());
    }
    join_path(root, m)
}


/// A packument cached at `now` for `ttl` is served from `now` until just
/// before `now + ttl`, and not from then on.
pub proof fn lemma_fresh_for_its_ttl(c: PackumentCache, name: Seq<char>, now: u64, ttl: u64, t: u64)
    requires
        c.has(name),
        c.expiry(name) == now + ttl,
    ensures
        now <= t < now + ttl ==> c.fresh(name, t),
        t >= now + ttl ==> !c.fresh(name, t),
{
}

} // verus!
