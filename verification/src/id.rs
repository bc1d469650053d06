//! Spotify resource identifiers: base-62 IDs, `spotify:` URIs and
//! `open.spotify.com` URLs.

use vstd::prelude::*;
use vstd::arithmetic::div_mod::{lemma_fundamental_div_mod_converse, lemma_mod_breakdown};
use crate::text::{
    chars_of, sub_chars, find, find_chars, find_char, count_char, count_chars, concat_chars,
    string_from_chars,
};

verus! {

/// An identifier could not be read as a Spotify URI, URL or ID.
#[derive(Debug, Clone, Copy, PartialEq, Eq, Hash, Structural)]
pub struct IdParseError;

/// The kind of Spotify resource an identifier names.
#[derive(Debug, Clone, Copy, PartialEq, Eq, Hash, Structural)]
pub enum Resource {
    Artist,
    Album,
    Track,
    Playlist,
}

/// A 128-bit Spotify ID.
#[derive(Debug, Clone, Copy, PartialEq, Eq, Hash, Structural)]
pub struct SpotifyId(pub u128);

/// A Spotify ID together with the kind of resource it names.
#[derive(Debug, Clone, Copy, PartialEq, Eq, Hash, Structural)]
pub struct ResourceId {
    pub resource: Resource,
    pub id: SpotifyId,
}

// ---------------------------------------------------------------------------
// The base-62 alphabet: 0-9, a-z, A-Z.
// ---------------------------------------------------------------------------

/// The value of a base-62 digit, or -1 for a character outside the alphabet.
pub open spec fn digit_value(c: char) -> int {
    if '0' <= c && c <= '9' {
        c as int - '0' as int
    } else if 'a' <= c && c <= 'z' {
        c as int - 'a' as int + 10
    } else if 'A' <= c && c <= 'Z' {
        c as int - 'A' as int + 36
    } else {
        -1
    }
}

pub open spec fn is_digit62(c: char) -> bool {
    digit_value(c) >= 0
}

/// The base-62 digit for `d`, for `0 <= d < 62`.
pub open spec fn digit_char(d: int) -> char {
    if d < 10 {
        (d + '0' as int) as char
    } else if d < 36 {
        (d - 10 + 'a' as int) as char
    } else {
        (d - 36 + 'A' as int) as char
    }
}

pub open spec fn all_digits62(s: Seq<char>) -> bool {
    forall|i: int| 0 <= i < s.len() ==> #[trigger] is_digit62(s[i])
}

/// The number whose base-62 numeral is `s`, most significant digit first.
pub open spec fn base62_value(s: Seq<char>) -> nat
    decreases s.len(),
{
    if s.len() == 0 {
        0
    } else {
        base62_value(s.drop_last()) * 62 + digit_value(s.last()) as nat
    }
}

/// The `width` least significant base-62 digits of `n`, most significant first.
pub open spec fn base62_text(n: nat, width: nat) -> Seq<char>
    decreases width,
{
    if width == 0 {
        seq![]
    } else {
        base62_text(n / 62, (width - 1) as nat).push(digit_char((n % 62) as int))
    }
}

pub open spec fn pow62(n: nat) -> nat
    decreases n,
{
    if n == 0 {
        1
    } else {
        pow62((n - 1) as nat) * 62
    }
}

/// A canonical Spotify ID text: 22 base-62 digits whose value fits in 128 bits.
pub open spec fn is_id_text(s: Seq<char>) -> bool {
    &&& s.len() == 22
    &&& all_digits62(s)
    &&& base62_value(s) <= u128::MAX
}

/// The 22-character text of an ID.
pub open spec fn id_text(id: u128) -> Seq<char> {
    base62_text(id as nat, 22)
}

pub proof fn lemma_digit_roundtrip(d: int)
    requires
        0 <= d < 62,
    ensures
        is_digit62(digit_char(d)),
        digit_value(digit_char(d)) == d,
{
}

pub proof fn lemma_char_roundtrip(c: char)
    requires
        is_digit62(c),
    ensures
        digit_char(digit_value(c)) == c,
{
}

pub proof fn lemma_value_bound(s: Seq<char>)
    requires
        all_digits62(s),
    ensures
        base62_value(s) < pow62(s.len()),
    decreases s.len(),
{
    if s.len() > 0 {
        assert(is_digit62(s[s.len() - 1]));
        lemma_value_bound(s.drop_last());
    }
}

pub proof fn lemma_pow62_positive(n: nat)
    ensures
        pow62(n) > 0,
    decreases n,
{
    if n > 0 {
        lemma_pow62_positive((n - 1) as nat);
    }
}

pub proof fn lemma_pow62_21()
    ensures
        pow62(21) == 43674252383913877424036476406214950912nat,
        pow62(22) == 2707803647802660400290261537185326956544nat,
{
    reveal_with_fuel(pow62, 23);
}

/// The text of `n` at width `w` has `w` digits and reads back as `n` modulo 62^w.
pub proof fn lemma_text_value(n: nat, w: nat)
    ensures
        base62_text(n, w).len() == w,
        all_digits62(base62_text(n, w)),
        base62_value(base62_text(n, w)) == n % pow62(w),
    decreases w,
{
    if w > 0 {
        lemma_text_value(n / 62, (w - 1) as nat);
        let t = base62_text(n, w);
        let prev = base62_text(n / 62, (w - 1) as nat);
        lemma_digit_roundtrip((n % 62) as int);
        assert(t.drop_last() =~= prev);
        assert forall|i: int| 0 <= i < t.len() implies #[trigger] is_digit62(t[i]) by {
            if i < t.len() - 1 {
                assert(t[i] == prev[i]);
            }
        }
        lemma_pow62_positive((w - 1) as nat);
        lemma_mod_breakdown(n as int, 62, pow62((w - 1) as nat) as int);
        assert(pow62(w) == 62 * pow62((w - 1) as nat));
    } else {
        assert(n % 1 == 0);
    }
}

/// A numeral of valid digits is the text of its own value.
pub proof fn lemma_value_text(s: Seq<char>)
    requires
        all_digits62(s),
    ensures
        base62_text(base62_value(s), s.len()) == s,
    decreases s.len(),
{
    if s.len() > 0 {
        let p = s.drop_last();
        assert(all_digits62(p)) by {
            assert forall|i: int| 0 <= i < p.len() implies #[trigger] is_digit62(p[i]) by {
                assert(is_digit62(s[i]));
            }
        }
        lemma_value_text(p);
        assert(is_digit62(s[s.len() - 1]));
        let d = digit_value(s.last());
        lemma_fundamental_div_mod_converse(base62_value(s) as int, 62, base62_value(p) as int, d);
        lemma_char_roundtrip(s.last());
        assert(base62_text(base62_value(s), s.len()) =~= p.push(s.last()));
        assert(p.push(s.last()) =~= s);
    }
}

/// Every 128-bit value has a canonical text, and that text reads back as the value.
pub proof fn lemma_id_text(id: u128)
    ensures
        is_id_text(id_text(id)),
        base62_value(id_text(id)) == id,
{
    lemma_text_value(id as nat, 22);
    lemma_pow62_21();
    assert((id as nat) % pow62(22) == id as nat);
}

// ---------------------------------------------------------------------------
// librespot's base-62 codec.
// ---------------------------------------------------------------------------

/// `librespot_core::spotify_id::SpotifyId::from_base62`. Its source folds the
/// bytes most significant first as `value * 62 + digit` in a `u128` and returns
/// `Ok` once every byte is a base-62 digit. Stated here for all-digit input whose
/// value fits in 128 bits: the call returns that value. (On input whose value does
/// not fit, the fold overflows; callers rule that out first.)
#[verifier::external_body]
fn librespot_from_base62(digits: &Vec<char>) -> (id: Option<u128>)
    requires
        all_digits62(digits@),
        base62_value(digits@) <= u128::MAX,
    ensures
        id == Some(base62_value(digits@) as u128),
{
    let text: String = digits.iter().collect();
    librespot::core::spotify_id::SpotifyId::from_base62(&text).ok().map(|id| id.id)
}

/// `librespot_core::spotify_id::SpotifyId::to_base62`: the 22-character base-62
/// text of the ID, most significant digit first, zero-padded. Its source builds
/// the text from ASCII digits only, so the `String::from_utf8` it ends with
/// always succeeds.
#[verifier::external_body]
fn librespot_to_base62(id: u128) -> (text: Option<String>)
    ensures
        text is Some,
        text.unwrap()@ == id_text(id),
{
    librespot::core::spotify_id::SpotifyId {
        id,
        audio_type: librespot::core::spotify_id::SpotifyAudioType::Track,
    }.to_base62().ok()
}

fn digit_value_exec(c: char) -> (d: u32)
    requires
        is_digit62(c),
    ensures
        d == digit_value(c),
{
    if '0' <= c && c <= '9' {
        (c as u32) - ('0' as u32)
    } else if 'a' <= c && c <= 'z' {
        (c as u32) - ('a' as u32) + 10
    } else {
        (c as u32) - ('A' as u32) + 36
    }
}

fn is_digit62_exec(c: char) -> (b: bool)
    ensures
        b == is_digit62(c),
{
    ('0' <= c && c <= '9') || ('a' <= c && c <= 'z') || ('A' <= c && c <= 'Z')
}

/// Reads a canonical ID text: exactly 22 base-62 digits whose value fits in 128 bits.
fn parse_id_chars(v: &Vec<char>) -> (r: Result<SpotifyId, IdParseError>)
    ensures
        r is Ok <==> is_id_text(v@),
        r matches Ok(id) ==> id.0 == base62_value(v@),
{
    if v.len() != 22 {
        return Err(IdParseError);
    }
    let mut i: usize = 0;
    while i < 22
        invariant
            v@.len() == 22,
            i <= 22,
            forall|j: int| 0 <= j < i ==> #[trigger] is_digit62(v@[j]),
        decreases 22 - i,
    {
        if !is_digit62_exec(v[i]) {
            return Err(IdParseError);
        }
        i = i + 1;
    }
    let head = sub_chars(v, 0, 21);
    assert(head@ =~= v@.drop_last());
    assert(all_digits62(head@)) by {
        assert forall|j: int| 0 <= j < head@.len() implies #[trigger] is_digit62(head@[j]) by {
            assert(is_digit62(v@[j]));
        }
    }
    proof {
        lemma_value_bound(head@);
        lemma_pow62_21();
    }
    let high = match librespot_from_base62(&head) {
        Some(x) => x,
        None => return Err(IdParseError),
    };
    assert(is_digit62(v@[21]));
    let d = digit_value_exec(v[21]) as u128;
    let limit = (u128::MAX - d) / 62;
    if high > limit {
        assert(base62_value(v@) == high * 62 + d);
        assert(high * 62 + d > u128::MAX) by (nonlinear_arith)
            requires
                high > limit,
                limit == (u128::MAX - d) / 62,
                d < 62,
        ;
        return Err(IdParseError);
    }
    assert(high * 62 + d <= u128::MAX) by (nonlinear_arith)
        requires
            high <= limit,
            limit == (u128::MAX - d) / 62,
            d < 62,
    ;
    match librespot_from_base62(v) {
        Some(x) => Ok(SpotifyId(x)),
        None => Err(IdParseError),
    }
}

impl SpotifyId {
    pub fn new(id: u128) -> (r: Self)
        ensures
            r.0 == id,
    {
        SpotifyId(id)
    }

    /// The ID as a 128-bit number.
    pub fn as_u128(&self) -> (r: u128)
        ensures
            r == self.0,
    {
        self.0
    }

    /// The 22-character base-62 text of the ID.
    pub fn to_string(&self) -> (s: String)
        ensures
            s@ == id_text(self.0),
    {
        match librespot_to_base62(self.0) {
            Some(t) => t,
            None => String::new(),
        }
    }
}

/// Reads a Spotify ID: exactly 22 base-62 characters whose value fits in 128 bits.
pub fn parse_id(id: &str) -> (r: Result<SpotifyId, IdParseError>)
    ensures
        r is Ok <==> is_id_text(id@),
        r matches Ok(x) ==> x.0 == base62_value(id@),
{
    let v = chars_of(id);
    parse_id_chars(&v)
}

// ---------------------------------------------------------------------------
// URIs and URLs.
// ---------------------------------------------------------------------------

/// The lower-case name of a resource kind, as it appears in URIs and URLs.
pub open spec fn resource_name(r: Resource) -> Seq<char> {
    match r {
        Resource::Artist => seq!['a', 'r', 't', 'i', 's', 't'],
        Resource::Album => seq!['a', 'l', 'b', 'u', 'm'],
        Resource::Track => seq!['t', 'r', 'a', 'c', 'k'],
        Resource::Playlist => seq!['p', 'l', 'a', 'y', 'l', 'i', 's', 't'],
    }
}

/// The order in which identifier parsing looks for resource names.
pub open spec fn resource_rank(r: Resource) -> int {
    match r {
        Resource::Artist => 0,
        Resource::Album => 1,
        Resource::Track => 2,
        Resource::Playlist => 3,
    }
}

/// The first resource name found in `s`, looking for "artist", then "album",
/// then "track", then "playlist", with the index where it occurs.
pub open spec fn resource_in(s: Seq<char>) -> Option<(int, Resource)> {
    match find(s, resource_name(Resource::Artist)) {
        Some(i) => Some((i, Resource::Artist)),
        None => match find(s, resource_name(Resource::Album)) {
            Some(i) => Some((i, Resource::Album)),
            None => match find(s, resource_name(Resource::Track)) {
                Some(i) => Some((i, Resource::Track)),
                None => match find(s, resource_name(Resource::Playlist)) {
                    Some(i) => Some((i, Resource::Playlist)),
                    None => None,
                },
            },
        },
    }
}

/// The resource kind and ID text of a URI such as `spotify:track:<id>`: the text
/// must hold exactly two colons; the ID text is everything after the first colon
/// that follows the resource name.
pub open spec fn uri_parts(s: Seq<char>) -> Option<(Resource, Seq<char>)> {
    if count_char(s, ':') != 2 {
        None
    } else {
        match resource_in(s) {
            None => None,
            Some((i, r)) => {
                let rest = s.skip(i);
                match find(rest, seq![':']) {
                    None => None,
                    Some(j) => Some((r, rest.skip(j + 1))),
                }
            },
        }
    }
}

/// The resource kind and ID text of a URL such as
/// `https://open.spotify.com/track/<id>?si=...`: the ID text runs from the first
/// `/` after the resource name up to the next `?`, or to the end.
pub open spec fn url_parts(s: Seq<char>) -> Option<(Resource, Seq<char>)> {
    match resource_in(s) {
        None => None,
        Some((i, r)) => {
            let rest = s.skip(i);
            match find(rest, seq!['/']) {
                None => None,
                Some(j) => {
                    let after = rest.skip(j + 1);
                    match find(after, seq!['?']) {
                        Some(k) => Some((r, after.take(k))),
                        None => Some((r, after)),
                    }
                },
            }
        },
    }
}

/// The resource ID that a resource kind and ID text denote, if the text is a valid ID.
pub open spec fn id_from_parts(p: Option<(Resource, Seq<char>)>) -> Option<ResourceId> {
    match p {
        Some((r, t)) => if is_id_text(t) {
            Some(ResourceId { resource: r, id: SpotifyId(base62_value(t) as u128) })
        } else {
            None
        },
        None => None,
    }
}

pub open spec fn uri_resource_id(s: Seq<char>) -> Option<ResourceId> {
    id_from_parts(uri_parts(s))
}

pub open spec fn url_resource_id(s: Seq<char>) -> Option<ResourceId> {
    id_from_parts(url_parts(s))
}

/// What `parse` reads from an identifier: a URI, else a URL, else a bare ID of
/// the given resource kind.
pub open spec fn identifier_resource_id(s: Seq<char>, resource: Option<Resource>) -> Option<ResourceId> {
    match uri_resource_id(s) {
        Some(x) => Some(x),
        None => match url_resource_id(s) {
            Some(x) => Some(x),
            None => match resource {
                Some(r) => if is_id_text(s) {
                    Some(ResourceId { resource: r, id: SpotifyId(base62_value(s) as u128) })
                } else {
                    None
                },
                None => None,
            },
        },
    }
}

/// The canonical URI of a resource: `spotify:<kind>:<22-character id>`.
pub open spec fn uri_text(r: ResourceId) -> Seq<char> {
    seq!['s', 'p', 'o', 't', 'i', 'f', 'y', ':'] + resource_name(r.resource) + seq![':'] + id_text(r.id.0)
}

fn resource_name_chars(r: Resource) -> (v: Vec<char>)
    ensures
        v@ == resource_name(r),
{
    let v = match r {
        Resource::Artist => vec!['a', 'r', 't', 'i', 's', 't'],
        Resource::Album => vec!['a', 'l', 'b', 'u', 'm'],
        Resource::Track => vec!['t', 'r', 'a', 'c', 'k'],
        Resource::Playlist => vec!['p', 'l', 'a', 'y', 'l', 'i', 's', 't'],
    };
    assert(v@ =~= resource_name(r));
    v
}

fn find_resource(v: &Vec<char>) -> (r: Option<(usize, Resource)>)
    ensures
        match r {
            Some((i, res)) => resource_in(v@) == Some((i as int, res)) && i <= v@.len(),
            None => resource_in(v@) is None,
        },
{
    if let Some(i) = find_chars(v, &resource_name_chars(Resource::Artist)) {
        return Some((i, Resource::Artist));
    }
    if let Some(i) = find_chars(v, &resource_name_chars(Resource::Album)) {
        return Some((i, Resource::Album));
    }
    if let Some(i) = find_chars(v, &resource_name_chars(Resource::Track)) {
        return Some((i, Resource::Track));
    }
    if let Some(i) = find_chars(v, &resource_name_chars(Resource::Playlist)) {
        return Some((i, Resource::Playlist));
    }
    None
}

fn id_from_text(r: Resource, t: &Vec<char>) -> (out: Result<ResourceId, IdParseError>)
    ensures
        match out {
            Ok(x) => id_from_parts(Some((r, t@))) == Some(x),
            Err(_) => id_from_parts(Some((r, t@))) is None,
        },
{
    match parse_id_chars(t) {
        Ok(id) => Ok(ResourceId { resource: r, id }),
        Err(e) => Err(e),
    }
}

fn parse_uri_chars(v: &Vec<char>) -> (out: Result<ResourceId, IdParseError>)
    ensures
        match out {
            Ok(x) => uri_resource_id(v@) == Some(x),
            Err(_) => uri_resource_id(v@) is None,
        },
{
    if count_chars(v, ':') != 2 {
        return Err(IdParseError);
    }
    let (i, r) = match find_resource(v) {
        Some(found) => found,
        None => return Err(IdParseError),
    };
    let rest = sub_chars(v, i, v.len());
    assert(rest@ =~= v@.skip(i as int));
    let j = match find_char(&rest, ':') {
        Some(j) => j,
        None => return Err(IdParseError),
    };
    proof {
        crate::text::lemma_find_from_some(rest@, seq![':'], 0);
    }
    let t = sub_chars(&rest, j + 1, rest.len());
    assert(t@ =~= rest@.skip(j + 1));
    id_from_text(r, &t)
}

fn parse_url_chars(v: &Vec<char>) -> (out: Result<ResourceId, IdParseError>)
    ensures
        match out {
            Ok(x) => url_resource_id(v@) == Some(x),
            Err(_) => url_resource_id(v@) is None,
        },
{
    let (i, r) = match find_resource(v) {
        Some(found) => found,
        None => return Err(IdParseError),
    };
    let rest = sub_chars(v, i, v.len());
    assert(rest@ =~= v@.skip(i as int));
    let j = match find_char(&rest, '/') {
        Some(j) => j,
        None => return Err(IdParseError),
    };
    proof {
        crate::text::lemma_find_from_some(rest@, seq!['/'], 0);
    }
    let after = sub_chars(&rest, j + 1, rest.len());
    assert(after@ =~= rest@.skip(j + 1));
    match find_char(&after, '?') {
        Some(k) => {
            proof {
                crate::text::lemma_find_from_some(after@, seq!['?'], 0);
            }
            let t = sub_chars(&after, 0, k);
            assert(t@ =~= after@.take(k as int));
            id_from_text(r, &t)
        },
        None => id_from_text(r, &after),
    }
}

/// Reads a URI of the form `spotify:<kind>:<id>`.
pub fn parse_uri(uri: &str) -> (out: Result<ResourceId, IdParseError>)
    ensures
        match out {
            Ok(x) => uri_resource_id(uri@) == Some(x),
            Err(_) => uri_resource_id(uri@) is None,
        },
{
    let v = chars_of(uri);
    parse_uri_chars(&v)
}

/// Reads a URL of the form `https://open.spotify.com/<kind>/<id>?...`.
pub fn parse_url(url: &str) -> (out: Result<ResourceId, IdParseError>)
    ensures
        match out {
            Ok(x) => url_resource_id(url@) == Some(x),
            Err(_) => url_resource_id(url@) is None,
        },
{
    let v = chars_of(url);
    parse_url_chars(&v)
}

/// Reads an identifier given as a URI, a URL or, when `resource` says which kind
/// it names, a bare ID.
pub fn parse(identifier: &str, resource: Option<Resource>) -> (out: Result<ResourceId, IdParseError>)
    ensures
        match out {
            Ok(x) => identifier_resource_id(identifier@, resource) == Some(x),
            Err(_) => identifier_resource_id(identifier@, resource) is None,
        },
{
    let v = chars_of(identifier);
    if let Ok(id) = parse_uri_chars(&v) {
        return Ok(id);
    }
    if let Ok(id) = parse_url_chars(&v) {
        return Ok(id);
    }
    if let Ok(id) = parse_id_chars(&v) {
        if let Some(r) = resource {
            return Ok(ResourceId { resource: r, id });
        }
    }
    Err(IdParseError)
}

impl Resource {
    /// The lower-case name of the resource kind.
    pub fn to_string(&self) -> (s: String)
        ensures
            s@ == resource_name(*self),
    {
        let v = resource_name_chars(*self);
        string_from_chars(v.as_slice())
    }
}

impl ResourceId {
    pub fn new(resource: Resource, id: SpotifyId) -> (r: Self)
        ensures
            r.resource == resource,
            r.id == id,
    {
        ResourceId { resource, id }
    }

    /// Reads a URI of the form `spotify:<kind>:<id>`.
    pub fn from_uri(uri: &str) -> (out: Result<Self, IdParseError>)
        ensures
            match out {
                Ok(x) => uri_resource_id(uri@) == Some(x),
                Err(_) => uri_resource_id(uri@) is None,
            },
    {
        parse_uri(uri)
    }

    fn uri_chars(&self) -> (v: Vec<char>)
        ensures
            v@ == uri_text(*self),
    {
        let prefix = vec!['s', 'p', 'o', 't', 'i', 'f', 'y', ':'];
        let name = resource_name_chars(self.resource);
        let colon = vec![':'];
        let id = chars_of(self.id.to_string().as_str());
        let a = concat_chars(&prefix, &name);
        let b = concat_chars(&a, &colon);
        let c = concat_chars(&b, &id);
        assert(c@ =~= uri_text(*self));
        c
    }

    /// The canonical URI `spotify:<kind>:<id>`.
    pub fn to_uri(&self) -> (s: String)
        ensures
            s@ == uri_text(*self),
    {
        let v = self.uri_chars();
        string_from_chars(v.as_slice())
    }

    /// The canonical URI `spotify:<kind>:<id>`.
    pub fn to_string(&self) -> (s: String)
        ensures
            s@ == uri_text(*self),
    {
        self.to_uri()
    }
}

// ---------------------------------------------------------------------------
// Round trips.
// ---------------------------------------------------------------------------

proof fn lemma_resource_in_bounds(s: Seq<char>)
    ensures
        resource_in(s) matches Some((i, r)) ==> 0 <= i && i + resource_name(r).len() <= s.len(),
{
    if let Some((i, r)) = resource_in(s) {
        crate::text::lemma_find_from_some(s, resource_name(r), 0);
    }
}

/// Whether the ID text of `r` is free of every resource name that identifier
/// parsing looks for before the name of `r`'s own kind.
pub open spec fn id_text_unambiguous(r: ResourceId) -> bool {
    forall|w: Resource|
        resource_rank(w) < resource_rank(r.resource) ==> !crate::text::occurs_in(
            #[trigger] id_text(r.id.0),
            resource_name(w),
        )
}

proof fn lemma_names_have_no_colon(w: Resource)
    ensures
        !resource_name(w).contains(':'),
        resource_name(w).len() >= 5,
{
    let n = resource_name(w);
    assert forall|k: int| 0 <= k < n.len() implies n[k] != ':' by {}
}

proof fn lemma_id_text_has_no_colon(id: u128)
    ensures
        !id_text(id).contains(':'),
{
    lemma_id_text(id);
    let t = id_text(id);
    assert forall|k: int| 0 <= k < t.len() implies t[k] != ':' by {
        assert(is_digit62(t[k]));
    }
}

/// Where the parts of a URI sit in its text.
proof fn lemma_uri_layout(r: ResourceId)
    ensures
        ({
            let u = uri_text(r);
            let n = resource_name(r.resource);
            &&& u.len() == 9 + n.len() as int + 22
            &&& u[7] == ':'
            &&& u[8 + n.len() as int] == ':'
            &&& u.subrange(8, 8 + n.len() as int) == n
            &&& u.skip(9 + n.len() as int) == id_text(r.id.0)
            &&& u.skip(8) == n + seq![':'] + id_text(r.id.0)
            &&& u.take(7) == seq!['s', 'p', 'o', 't', 'i', 'f', 'y']
        }),
{
    lemma_id_text(r.id.0);
    let u = uri_text(r);
    let n = resource_name(r.resource);
    assert(u.subrange(8, 8 + n.len() as int) =~= n);
    assert(u.skip(9 + n.len() as int) =~= id_text(r.id.0));
    assert(u.skip(8) =~= n + seq![':'] + id_text(r.id.0));
    assert(u.take(7) =~= seq!['s', 'p', 'o', 't', 'i', 'f', 'y']);
}

/// A resource name can only occur in the `spotify:<kind>:` part of a URI as the
/// kind itself, at index 8.
proof fn lemma_name_in_uri_prefix(r: ResourceId, w: Resource, j: int)
    requires
        crate::text::occurs_at(uri_text(r), resource_name(w), j),
        j < 9 + resource_name(r.resource).len(),
    ensures
        w == r.resource,
        j == 8,
{
    let u = uri_text(r);
    let n = resource_name(r.resource);
    let wn = resource_name(w);
    let m = wn.len();
    lemma_uri_layout(r);
    lemma_names_have_no_colon(w);
    assert forall|k: int| 0 <= k < m implies u[j + k] == wn[k] by {
        assert(u.subrange(j, j + m)[k] == wn[k]);
    }
    if j + m > 8 + n.len() as int {
        assert(u[8 + n.len() as int] == wn[8 + n.len() as int - j]);
        assert(false);
    }
    if j <= 7 {
        if j + m > 7 {
            assert(u[7] == wn[7 - j]);
            assert(false);
        }
        assert(u[j] == wn[0]);
        assert(u[j + 1] == wn[1]);
        assert(u.take(7)[j] == u[j]);
        assert(u.take(7)[j + 1] == u[j + 1]);
        assert(false);
    }
    assert(u.subrange(8, 8 + n.len() as int)[j - 8] == u[j]);
    assert(u[j] == wn[0]);
    assert(u[j + 1] == wn[1]);
    assert(u.subrange(8, 8 + n.len() as int)[j - 7] == u[j + 1]);
    if j > 8 {
        assert(u.subrange(8, 8 + n.len() as int)[j - 6] == u[j + 2]);
        assert(u[j + 2] == wn[2]);
        assert(false);
    }
    assert(u.subrange(8, 8 + n.len() as int)[2] == u[10]);
    assert(u[10] == wn[2]);
    assert(u.subrange(8, 8 + n.len() as int)[3] == u[11]);
    assert(u[11] == wn[3]);
}

/// The `spotify:` prefix and a lone `:` each hold one colon.
proof fn lemma_prefix_colons()
    ensures
        count_char(seq!['s', 'p', 'o', 't', 'i', 'f', 'y', ':'], ':') == 1,
        count_char(seq![':'], ':') == 1,
{
    reveal_with_fuel(count_char, 9);
    assert(seq!['s', 'p', 'o', 't', 'i', 'f', 'y', ':'].drop_last() =~= seq!['s', 'p', 'o', 't', 'i', 'f', 'y']);
}

/// A URI holds exactly two colons.
#[verifier::spinoff_prover]
proof fn lemma_uri_has_two_colons(r: ResourceId)
    ensures
        count_char(uri_text(r), ':') == 2,
{
    let u = uri_text(r);
    let n = resource_name(r.resource);
    let t = id_text(r.id.0);
    lemma_id_text(r.id.0);
    lemma_id_text_has_no_colon(r.id.0);
    lemma_names_have_no_colon(r.resource);
    let p0 = seq!['s', 'p', 'o', 't', 'i', 'f', 'y', ':'];
    assert(u =~= p0 + n + seq![':'] + t);
    lemma_prefix_colons();
    crate::text::lemma_count_concat(p0 + n + seq![':'], t, ':');
    crate::text::lemma_count_concat(p0 + n, seq![':'], ':');
    crate::text::lemma_count_concat(p0, n, ':');
    crate::text::lemma_count_absent(n, ':');
    crate::text::lemma_count_absent(t, ':');
}

/// The canonical URI of a resource reads back as that resource, provided its ID
/// text holds no resource name that is looked for before its own kind's name.
#[verifier::spinoff_prover]
#[verifier::rlimit(40)]
pub proof fn lemma_uri_roundtrip(r: ResourceId)
    requires
        id_text_unambiguous(r),
    ensures
        uri_resource_id(uri_text(r)) == Some(r),
        forall|kind: Option<Resource>| identifier_resource_id(uri_text(r), kind) == Some(r),
{
    let u = uri_text(r);
    let n = resource_name(r.resource);
    let t = id_text(r.id.0);
    lemma_uri_layout(r);
    lemma_id_text(r.id.0);
    lemma_id_text_has_no_colon(r.id.0);
    lemma_names_have_no_colon(r.resource);
    lemma_uri_has_two_colons(r);
    // Names looked for before the resource's own name are absent.
    assert forall|w: Resource| resource_rank(w) < resource_rank(r.resource) implies find(
        u,
        resource_name(w),
    ) is None by {
        assert forall|j: int| 0 <= j implies !crate::text::occurs_at(u, resource_name(w), j) by {
            if crate::text::occurs_at(u, resource_name(w), j) {
                if j < 9 + n.len() as int {
                    lemma_name_in_uri_prefix(r, w, j);
                } else {
                    let m = resource_name(w).len();
                    assert(t.subrange(j - 9 - n.len(), j - 9 - n.len() + m) =~= u.subrange(j, j + m));
                    assert(crate::text::occurs_in(t, resource_name(w)));
                }
            }
        }
        crate::text::lemma_find_from_none(u, resource_name(w), 0);
    }
    // The resource's own name is first found at index 8.
    assert forall|j: int| 0 <= j < 8 implies !crate::text::occurs_at(u, n, j) by {
        if crate::text::occurs_at(u, n, j) {
            lemma_name_in_uri_prefix(r, r.resource, j);
        }
    }
    assert(crate::text::occurs_at(u, n, 8));
    crate::text::lemma_find_from_at(u, n, 0, 8);
    assert(resource_in(u) == Some((8int, r.resource)));
    // The ID text follows the first colon after the name.
    let rest = u.skip(8);
    assert(!n.contains(':'));
    assert forall|j: int| 0 <= j < n.len() implies !crate::text::occurs_at(rest, seq![':'], j) by {
        if crate::text::occurs_at(rest, seq![':'], j) {
            assert(rest.subrange(j, j + 1)[0] == rest[j]);
            assert(rest[j] == n[j]);
        }
    }
    assert(rest[n.len() as int] == ':');
    assert(rest.subrange(n.len() as int, n.len() as int + 1) =~= seq![':']);
    crate::text::lemma_find_from_at(rest, seq![':'], 0, n.len() as int);
    assert(rest.skip(n.len() as int + 1) =~= t);
    assert(uri_parts(u) == Some((r.resource, t)));
    assert(SpotifyId(base62_value(t) as u128) == r.id);
}

/// A URI holds no whitespace.
pub proof fn lemma_uri_text_has_no_space(r: ResourceId)
    ensures
        !uri_text(r).contains(' '),
        !uri_text(r).contains('\n'),
        !uri_text(r).contains('\r'),
{
    let u = uri_text(r);
    let p0 = seq!['s', 'p', 'o', 't', 'i', 'f', 'y', ':'];
    let n = resource_name(r.resource);
    let t = id_text(r.id.0);
    lemma_id_text(r.id.0);
    assert(u =~= p0 + n + seq![':'] + t);
    assert forall|k: int| 0 <= k < u.len() implies u[k] != ' ' && u[k] != '\n' && u[k] != '\r' by {
        if k < 8 {
            assert(u[k] == p0[k]);
        } else if k < 8 + n.len() {
            assert(u[k] == n[k - 8]);
        } else if k == 8 + n.len() {
        } else {
            assert(u[k] == t[k - 9 - n.len()]);
            assert(is_digit62(t[k - 9 - n.len()]));
        }
    }
}

/// A bare ID text, with the resource kind given, reads back as that resource.
pub proof fn lemma_bare_id_roundtrip(id: SpotifyId, kind: Resource)
    ensures
        identifier_resource_id(id_text(id.0), Some(kind)) == Some(ResourceId { resource: kind, id }),
        identifier_resource_id(id_text(id.0), None) is None,
{
    let t = id_text(id.0);
    lemma_id_text(id.0);
    lemma_id_text_has_no_colon(id.0);
    crate::text::lemma_count_absent(t, ':');
    assert(uri_parts(t) is None);
    assert(!t.contains('/')) by {
        assert forall|k: int| 0 <= k < t.len() implies t[k] != '/' by {
            assert(is_digit62(t[k]));
        }
    }
    lemma_resource_in_bounds(t);
    match resource_in(t) {
        Some((i, r)) => {
            assert forall|k: int| 0 <= k < t.skip(i).len() implies t.skip(i)[k] != '/' by {
                assert(t.skip(i)[k] == t[i + k]);
            }
            crate::text::lemma_find_char_absent(t.skip(i), '/');
        },
        None => {},
    }
    assert(url_parts(t) is None);
}

} // verus!
