//! The on-disk metadata cache: its keys, where each key's file lives, and when
//! a cached value has expired.

use vstd::prelude::*;
use base64::Engine;
use std::hash::{BuildHasher, Hasher};
use crate::id::{Resource, ResourceId, SpotifyId, uri_text};
use crate::stages::{path_push, join_path};
use crate::text::{chars_of, concat_chars, decimal, decimal_chars, string_from_chars};

verus! {

broadcast use vstd::seq_lib::group_seq_properties, vstd::string::group_string_axioms;

/// Time-to-live of each kind of cached value, in whole seconds, and the
/// directory the cache lives in.
#[derive(Debug, Clone)]
pub struct FsCacheMetadataFetcherParams {
    pub directory: String,
    pub artist_ttl: u64,
    pub album_ttl: u64,
    pub track_ttl: u64,
    pub playlist_ttl: u64,
    pub image_ttl: u64,
}

impl FsCacheMetadataFetcherParams {
    /// The usual lifetimes: artists for a day, playlists for an hour, albums,
    /// tracks and images for ever.
    pub fn with_defaults(directory: &str) -> (p: Self)
        ensures
            p.directory@ == directory@,
            p.artist_ttl == 60 * 60 * 24,
            p.album_ttl == u64::MAX,
            p.track_ttl == u64::MAX,
            p.playlist_ttl == 60 * 60,
            p.image_ttl == u64::MAX,
    {
        FsCacheMetadataFetcherParams {
            directory: directory.to_string(),
            artist_ttl: 60 * 60 * 24,
            album_ttl: u64::MAX,
            track_ttl: u64::MAX,
            playlist_ttl: 60 * 60,
            image_ttl: u64::MAX,
        }
    }

    /// How long a cached value of this kind of resource stays valid.
    pub fn ttl_for(&self, resource: Resource) -> (t: u64)
        ensures
            t == match resource {
                Resource::Artist => self.artist_ttl,
                Resource::Album => self.album_ttl,
                Resource::Track => self.track_ttl,
                Resource::Playlist => self.playlist_ttl,
            },
    {
        match resource {
            Resource::Artist => self.artist_ttl,
            Resource::Album => self.album_ttl,
            Resource::Track => self.track_ttl,
            Resource::Playlist => self.playlist_ttl,
        }
    }
}

// ---------------------------------------------------------------------------
// Keys.
// ---------------------------------------------------------------------------

/// The cache key of a resource's metadata: its URI.
pub fn resource_key(resource: Resource, id: SpotifyId) -> (k: String)
    ensures
        k@ == uri_text(ResourceId { resource, id }),
{
    ResourceId::new(resource, id).to_string()
}

/// The character of the URL-safe base64 alphabet for a 6-bit value:
/// `A`-`Z`, `a`-`z`, `0`-`9`, then `-` and `_`.
pub open spec fn url_safe_digit(v: int) -> char {
    if v < 26 {
        ('A' as int + v) as char
    } else if v < 52 {
        ('a' as int + (v - 26)) as char
    } else if v < 62 {
        ('0' as int + (v - 52)) as char
    } else if v == 62 {
        '-'
    } else {
        '_'
    }
}

/// The four characters for a 24-bit group `n` of which `kept` characters carry
/// bits; the others are the padding `=`.
pub open spec fn base64_group(n: int, kept: int) -> Seq<char> {
    seq![
        url_safe_digit(n / 262144),
        url_safe_digit(n / 4096 % 64),
        if kept >= 3 { url_safe_digit(n / 64 % 64) } else { '=' },
        if kept >= 4 { url_safe_digit(n % 64) } else { '=' },
    ]
}

/// The URL-safe base64 text of some bytes, with padding (RFC 4648, section 5):
/// each three bytes, most significant first, give four characters of six bits
/// each; a last group of one or two bytes gives two or three characters and
/// `=` up to four.
pub open spec fn base64_url_safe(bytes: Seq<u8>) -> Seq<char>
    decreases bytes.len(),
{
    if bytes.len() == 0 {
        seq![]
    } else if bytes.len() == 1 {
        base64_group(bytes[0] * 65536, 2)
    } else if bytes.len() == 2 {
        base64_group(bytes[0] * 65536 + bytes[1] * 256, 3)
    } else {
        base64_group(bytes[0] * 65536 + bytes[1] * 256 + bytes[2], 4) + base64_url_safe(bytes.skip(3))
    }
}

/// The characters of the URL-safe base64 alphabet, and the padding `=`.
pub open spec fn url_safe_char(c: char) -> bool {
    ('A' <= c <= 'Z') || ('a' <= c <= 'z') || ('0' <= c <= '9') || c == '-' || c == '_' || c == '='
}

proof fn lemma_digit_char(v: int)
    requires
        0 <= v < 64,
    ensures
        url_safe_char(url_safe_digit(v)),
{
}

proof fn lemma_group_chars(n: int, kept: int)
    requires
        0 <= n < 16777216,
    ensures
        forall|i: int| 0 <= i < base64_group(n, kept).len() ==> url_safe_char(#[trigger] base64_group(n, kept)[i]),
        base64_group(n, kept).len() == 4,
{
    assert(0 <= n / 262144 < 64);
    lemma_digit_char(n / 262144);
    lemma_digit_char(n / 4096 % 64);
    lemma_digit_char(n / 64 % 64);
    lemma_digit_char(n % 64);
}

/// URL-safe base64 text holds only characters of its alphabet and `=`.
pub proof fn lemma_base64_url_safe_chars(bytes: Seq<u8>)
    ensures
        forall|i: int| 0 <= i < base64_url_safe(bytes).len() ==> url_safe_char(#[trigger] base64_url_safe(bytes)[i]),
    decreases bytes.len(),
{
    if bytes.len() >= 3 {
        lemma_base64_url_safe_chars(bytes.skip(3));
        let n = bytes[0] * 65536 + bytes[1] * 256 + bytes[2];
        lemma_group_chars(n, 4);
        let g = base64_group(n, 4);
        let r = base64_url_safe(bytes.skip(3));
        assert forall|i: int| 0 <= i < (g + r).len() implies url_safe_char(#[trigger] (g + r)[i]) by {
            if i < 4 {
                assert((g + r)[i] == g[i]);
            } else {
                assert((g + r)[i] == r[i - 4]);
            }
        }
    } else if bytes.len() == 2 {
        lemma_group_chars(bytes[0] * 65536 + bytes[1] * 256, 3);
    } else if bytes.len() == 1 {
        lemma_group_chars(bytes[0] * 65536, 2);
    }
}

/// `base64::Engine::encode` of the `URL_SAFE` engine (padding on): the
/// URL-safe base64 text of the bytes, with padding.
#[verifier::external_body]
fn encode_url_safe(bytes: &[u8]) -> (text: String)
    requires
        (bytes@.len() + 2) / 3 * 4 <= usize::MAX,
    ensures
        text@ == base64_url_safe(bytes@),
{
    base64::engine::general_purpose::URL_SAFE.encode(bytes)
}

pub open spec fn image_prefix() -> Seq<char> {
    seq!['i', 'm', 'a', 'g', 'e', ':']
}

/// The cache key of an image: `image:` and the URL-safe base64 of its URL.
pub fn image_key(url: &str) -> (k: String)
    requires
        (vstd::utf8::encode_utf8(url@).len() + 2) / 3 * 4 <= usize::MAX,
    ensures
        k@ == image_prefix() + base64_url_safe(vstd::utf8::encode_utf8(url@)),
        forall|i: int| 0 <= i < k@.len() ==> k@[i] != '/',
{
    let bytes = url.as_bytes();
    let encoded = encode_url_safe(bytes);
    let prefix = vec!['i', 'm', 'a', 'g', 'e', ':'];
    assert(prefix@ =~= image_prefix());
    let k = concat_chars(&prefix, &chars_of(encoded.as_str()));
    proof {
        lemma_base64_url_safe_chars(vstd::utf8::encode_utf8(url@));
    }
    assert forall|i: int| 0 <= i < k@.len() implies k@[i] != '/' by {
        if i >= 6 {
            assert(url_safe_char(encoded@[i - 6]));
        }
    }
    string_from_chars(k.as_slice())
}

// ---------------------------------------------------------------------------
// Where a key lives.
// ---------------------------------------------------------------------------

/// The number of subdirectories the cache spreads its files over.
pub const BUCKETS: u64 = 256;

/// The file of `key` when the key's hash is `hash`: in the subdirectory named
/// after the hash's bucket.
pub open spec fn key_file(dir: Seq<char>, key: Seq<char>, hash: u64) -> Seq<char> {
    path_push(path_push(dir, decimal((hash % 256) as nat)), key)
}

/// The file of `key`, given the hash of its bytes.
pub fn key_path_with_hash(dir: &str, key: &str, hash: u64) -> (p: String)
    ensures
        p@ == key_file(dir@, key@, hash),
{
    let bucket = hash % BUCKETS;
    let b = string_from_chars(decimal_chars(bucket).as_slice());
    let sub = join_path(dir, b.as_str());
    join_path(sub.as_str(), key)
}

/// The hash of the bytes of a key, from the `ahash` hasher built with all four
/// seeds set to 0. Nothing is stated of the value: it depends on the CPU
/// features the hasher uses.
#[verifier::external_body]
fn key_hash(bytes: &[u8]) -> (h: u64) {
    let mut hasher = ahash::RandomState::with_seeds(0, 0, 0, 0).build_hasher();
    hasher.write(bytes);
    hasher.finish()
}

/// The bucket a key's file goes in: its hash modulo 256.
pub fn key_bucket(key: &str) -> (b: u64)
    ensures
        b < 256,
{
    key_hash(key.as_bytes()) % BUCKETS
}

/// The file of `key` in the cache directory `dir`: `<dir>/<bucket>/<key>`, for
/// the bucket the key's hash picks.
pub fn key_path(dir: &str, key: &str) -> (p: String)
    ensures
        exists|h: u64| p@ == key_file(dir@, key@, h),
{
    let h = key_hash(key.as_bytes());
    key_path_with_hash(dir, key, h)
}

// ---------------------------------------------------------------------------
// Expiry.
// ---------------------------------------------------------------------------

/// Whether a value stored at `created` (seconds since the epoch) has expired at
/// `now`: more than `ttl` seconds have passed.
pub fn is_expired(now: u64, created: u64, ttl: u64) -> (b: bool)
    requires
        created <= now,
    ensures
        b == (now - created > ttl),
{
    now - created > ttl
}

/// A cache of raw values under `base`, each file holding the time it expires.
#[derive(Debug, Clone)]
pub struct FsMetadataCache {
    base: String,
}

impl FsMetadataCache {
    pub fn new(base: &str) -> (c: Self)
        ensures
            c.base()@ == base@,
    {
        FsMetadataCache { base: base.to_string() }
    }

    pub closed spec fn base(&self) -> String {
        self.base
    }

    /// The directory the cache lives in.
    pub fn base_dir(&self) -> (s: String)
        ensures
            s@ == self.base()@,
    {
        self.base.clone()
    }

    /// The file of `key`.
    pub fn key_path(&self, key: &str) -> (p: String)
        ensures
            p@ == path_push(self.base()@, key@),
    {
        join_path(self.base.as_str(), key)
    }

    /// When a value stored at `now` with lifetime `ttl` expires, in seconds
    /// since the epoch.
    pub fn expires_at(now: u64, ttl: u64) -> (t: u64)
        requires
            now + ttl <= i64::MAX,
        ensures
            t == now + ttl,
    {
        now + ttl
    }

    /// Whether a value that expires at `expires_at` is still valid at `now`.
    pub fn is_live(expires_at: u64, now: u64) -> (b: bool)
        ensures
            b == (expires_at > now),
    {
        expires_at > now
    }
}

/// A cache that stores nothing and finds nothing.
#[derive(Debug, Clone, Copy, Default)]
pub struct NullMetadataCache;

/// A metadata source that has nothing: every request fails.
#[derive(Debug, Clone, Copy, Default)]
pub struct NullMetadataFetcher;

/// A file stays in the cache directory: a key with no `/` at its start lands
/// in a bucket directory right below `dir`.
pub proof fn lemma_key_file_under_dir(dir: Seq<char>, key: Seq<char>, hash: u64)
    requires
        !(key.len() > 0 && key[0] == '/'),
    ensures
        dir.is_prefix_of(key_file(dir, key, hash)),
{
    let b = decimal((hash % 256) as nat);
    lemma_decimal_not_slash(b, (hash % 256) as nat);
    let d = path_push(dir, b);
    assert(d.subrange(0, dir.len() as int) =~= dir);
    let f = path_push(d, key);
    assert(f.subrange(0, d.len() as int) =~= d);
    assert(f.subrange(0, dir.len() as int) =~= d.subrange(0, dir.len() as int));
}

proof fn lemma_decimal_not_slash(b: Seq<char>, n: nat)
    requires
        b == decimal(n),
    ensures
        b.len() > 0 && b[0] != '/',
    decreases n,
{
    if n >= 10 {
        lemma_decimal_not_slash(decimal(n / 10), n / 10);
    }
}

} // verus!
