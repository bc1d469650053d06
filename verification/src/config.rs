//! The command-line settings and what follows from them: cache locations and
//! lifetimes, scan parameters, the conversion stage, the watcher socket, the
//! resources a command names, which credentials to use, and how the manifest
//! and `info` output are filled.

use vstd::prelude::*;
use crate::cache::FsCacheMetadataFetcherParams;
use crate::id::{identifier_resource_id, parse, IdParseError, Resource, ResourceId};
use crate::manifest::Manifest;
use crate::session::LoginCredentials;
use crate::scan::{ScanItem, ScanParams, string_views};
use crate::stages::{path_push, join_path, FFmpegStage};
use crate::text::{chars_of, concat_chars, string_from_chars, string_seqs};

verus! {

broadcast use vstd::seq_lib::group_seq_properties, vstd::string::group_string_axioms;

// ---------------------------------------------------------------------------
// The cache.
// ---------------------------------------------------------------------------

/// Where the cache lives and how long its values last; a lifetime is in seconds,
/// `-1` standing for "for ever".
#[derive(Debug, Clone)]
pub struct GroupCache {
    pub cache_dir: Option<String>,
    pub artist_ttl: i64,
    pub album_ttl: i64,
    pub track_ttl: i64,
    pub playlist_ttl: i64,
    pub image_ttl: i64,
}

/// A lifetime setting in whole seconds: `-1` is the longest lifetime there is,
/// any other value is read as an unsigned number of seconds.
pub open spec fn ttl_seconds(i: i64) -> u64 {
    if i == -1 {
        u64::MAX
    } else {
        i as u64
    }
}

pub open spec fn default_cache_dir(home: Seq<char>) -> Seq<char> {
    path_push(home, ".cache/spotdl"@)
}

impl GroupCache {
    /// A lifetime setting in whole seconds.
    pub fn i64_to_dur(i: i64) -> (s: u64)
        ensures
            s == ttl_seconds(i),
    {
        if i == -1 {
            u64::MAX
        } else {
            i as u64
        }
    }

    pub fn artist_ttl(&self) -> (s: u64)
        ensures
            s == ttl_seconds(self.artist_ttl),
    {
        Self::i64_to_dur(self.artist_ttl)
    }

    pub fn album_ttl(&self) -> (s: u64)
        ensures
            s == ttl_seconds(self.album_ttl),
    {
        Self::i64_to_dur(self.album_ttl)
    }

    pub fn track_ttl(&self) -> (s: u64)
        ensures
            s == ttl_seconds(self.track_ttl),
    {
        Self::i64_to_dur(self.track_ttl)
    }

    pub fn playlist_ttl(&self) -> (s: u64)
        ensures
            s == ttl_seconds(self.playlist_ttl),
    {
        Self::i64_to_dur(self.playlist_ttl)
    }

    pub fn image_ttl(&self) -> (s: u64)
        ensures
            s == ttl_seconds(self.image_ttl),
    {
        Self::i64_to_dur(self.image_ttl)
    }

    /// The cache directory: the one set, or `.cache/spotdl` in the home directory.
    pub fn get_cache_dir(&self, home: &str) -> (d: String)
        ensures
            d@ == match self.cache_dir {
                Some(c) => c@,
                None => default_cache_dir(home@),
            },
    {
        match &self.cache_dir {
            Some(c) => c.clone(),
            None => join_path(home, ".cache/spotdl"),
        }
    }

    /// Where login credentials are kept: `credentials` in the cache directory.
    pub fn get_credentials_dir(&self, home: &str) -> (d: String)
        ensures
            d@ == path_push(
                match self.cache_dir {
                    Some(c) => c@,
                    None => default_cache_dir(home@),
                },
                "credentials"@,
            ),
    {
        let c = self.get_cache_dir(home);
        join_path(c.as_str(), "credentials")
    }

    /// Where metadata is cached: `metadata` in the cache directory.
    pub fn get_metadata_dir(&self, home: &str) -> (d: String)
        ensures
            d@ == path_push(
                match self.cache_dir {
                    Some(c) => c@,
                    None => default_cache_dir(home@),
                },
                "metadata"@,
            ),
    {
        let c = self.get_cache_dir(home);
        join_path(c.as_str(), "metadata")
    }

    /// The parameters of the metadata cache: the metadata directory and the
    /// lifetimes set.
    pub fn create_fs_fetcher_param(&self, home: &str) -> (p: FsCacheMetadataFetcherParams)
        ensures
            p.directory@ == path_push(
                match self.cache_dir {
                    Some(c) => c@,
                    None => default_cache_dir(home@),
                },
                "metadata"@,
            ),
            p.artist_ttl == ttl_seconds(self.artist_ttl),
            p.album_ttl == ttl_seconds(self.album_ttl),
            p.track_ttl == ttl_seconds(self.track_ttl),
            p.playlist_ttl == ttl_seconds(self.playlist_ttl),
            p.image_ttl == ttl_seconds(self.image_ttl),
    {
        FsCacheMetadataFetcherParams {
            directory: self.get_metadata_dir(home),
            artist_ttl: self.artist_ttl(),
            album_ttl: self.album_ttl(),
            track_ttl: self.track_ttl(),
            playlist_ttl: self.playlist_ttl(),
            image_ttl: self.image_ttl(),
        }
    }
}

// ---------------------------------------------------------------------------
// Scanning, sources, conversion, the watcher socket.
// ---------------------------------------------------------------------------

/// Directories to scan for tracks already present, and those to leave out.
#[derive(Debug, Clone)]
pub struct GroupScanDir {
    pub scan: Vec<String>,
    pub scan_exclude: Vec<String>,
}

fn push_all(v: &mut Vec<String>, items: &Vec<String>)
    ensures
        string_views(final(v)@) == string_views(old(v)@) + string_views(items@),
{
    let ghost start = string_views(v@);
    let mut i: usize = 0;
    while i < items.len()
        invariant
            i <= items@.len(),
            string_views(v@) == start + string_views(items@.take(i as int)),
        decreases items@.len() - i,
    {
        let ghost before = v@;
        v.push(items[i].clone());
        assert(string_views(v@) =~= string_views(before).push(items@[i as int]@));
        assert(string_views(items@.take(i + 1)) =~= string_views(items@.take(i as int)).push(items@[i as int]@));
        i = i + 1;
    }
    assert(items@.take(items@.len() as int) =~= items@);
}

impl GroupScanDir {
    /// The scan parameters: the directories to scan and to leave out, in order.
    pub fn create_params(&self) -> (p: ScanParams)
        ensures
            string_views(p.includes@) == string_views(self.scan@),
            string_views(p.exclude@) == string_views(self.scan_exclude@),
    {
        let mut params = ScanParams { includes: Vec::new(), exclude: Vec::new() };
        push_all(&mut params.includes, &self.scan);
        push_all(&mut params.exclude, &self.scan_exclude);
        assert(string_views(params.includes@) =~= string_views(self.scan@));
        assert(string_views(params.exclude@) =~= string_views(self.scan_exclude@));
        params
    }

    /// The scan made before a download: these parameters, with the output
    /// directory scanned as well.
    pub fn download_params(&self, output_dir: &str) -> (p: ScanParams)
        ensures
            string_views(p.includes@) == string_views(self.scan@).push(output_dir@),
            string_views(p.exclude@) == string_views(self.scan_exclude@),
    {
        let mut p = self.create_params();
        p.include_path(output_dir);
        p
    }
}

/// The resources a scan found, as tracks not to download again.
pub fn excluded_tracks(items: &Vec<ScanItem>) -> (rids: Vec<ResourceId>)
    ensures
        rids@.len() == items@.len(),
        forall|i: int|
            0 <= i < items@.len() ==> #[trigger] rids@[i] == (ResourceId {
                resource: Resource::Track,
                id: items@[i].id,
            }),
{
    let mut rids: Vec<ResourceId> = Vec::new();
    let mut i: usize = 0;
    while i < items.len()
        invariant
            i <= items@.len(),
            rids@.len() == i,
            forall|j: int|
                0 <= j < i ==> #[trigger] rids@[j] == (ResourceId { resource: Resource::Track, id: items@[j].id }),
        decreases items@.len() - i,
    {
        rids.push(ResourceId::new(Resource::Track, items[i].id));
        i = i + 1;
    }
    rids
}

/// The conversion settings: a target format, and where ffmpeg is.
#[derive(Debug, Clone)]
pub struct GroupFFmpeg {
    pub format: Option<String>,
    pub ffmpeg_path: Option<String>,
}

impl GroupFFmpeg {
    /// The conversion stage, when a format is set; ffmpeg is looked up as
    /// `ffmpeg` unless its path is set.
    pub fn create_stage(&self) -> (s: Option<FFmpegStage>)
        ensures
            s is Some <==> self.format is Some,
            s matches Some(st) ==> st.format()@ == self.format->0@ && st.program()@ == match self.ffmpeg_path {
                Some(p) => p@,
                None => "ffmpeg"@,
            },
    {
        let format = match &self.format {
            None => return None,
            Some(f) => f,
        };
        match &self.ffmpeg_path {
            Some(p) => Some(FFmpegStage::new(p.as_str(), format.as_str())),
            None => Some(FFmpegStage::new("ffmpeg", format.as_str())),
        }
    }
}

/// Where the watcher listens.
#[derive(Debug, Clone)]
pub struct GroupWatchSocket {
    pub socket: Option<String>,
}

impl GroupWatchSocket {
    /// The socket path: the one set, or `/tmp/spotdl.sock`.
    pub fn socket_path(&self) -> (p: String)
        ensures
            p@ == match self.socket {
                Some(s) => s@,
                None => "/tmp/spotdl.sock"@,
            },
    {
        match &self.socket {
            Some(s) => s.clone(),
            None => "/tmp/spotdl.sock".to_string(),
        }
    }
}

// ---------------------------------------------------------------------------
// The resources a command names.
// ---------------------------------------------------------------------------

/// Resources given by kind, as plain identifiers, or through manifest files.
#[derive(Debug, Clone)]
pub struct ResourceSelector {
    pub artist: Vec<String>,
    pub album: Vec<String>,
    pub track: Vec<String>,
    pub playlist: Vec<String>,
    pub manifest: Vec<String>,
    pub identifiers: Vec<String>,
}

/// What a list of identifiers names, read with `resource` as the kind of bare
/// IDs: every resource in order, or `None` when one of them cannot be read.
pub open spec fn identifiers_spec(ids: Seq<Seq<char>>, resource: Option<Resource>) -> Option<Seq<ResourceId>>
    decreases ids.len(),
{
    if ids.len() == 0 {
        Some(seq![])
    } else {
        match identifiers_spec(ids.drop_last(), resource) {
            None => None,
            Some(done) => match identifier_resource_id(ids.last(), resource) {
                None => None,
                Some(r) => Some(done.push(r)),
            },
        }
    }
}

proof fn lemma_identifiers_failure_sticks(ids: Seq<Seq<char>>, resource: Option<Resource>, n: int)
    requires
        0 <= n <= ids.len(),
        identifiers_spec(ids.take(n), resource) is None,
    ensures
        identifiers_spec(ids, resource) is None,
    decreases ids.len() - n,
{
    if n < ids.len() {
        assert(ids.take(n + 1).drop_last() =~= ids.take(n));
        lemma_identifiers_failure_sticks(ids, resource, n + 1);
    } else {
        assert(ids.take(n) =~= ids);
    }
}

impl ResourceSelector {
    /// Reads each identifier (a URI, a URL, or with `resource` set a bare ID)
    /// and appends the resource it names; stops with an error at the first one
    /// that cannot be read, keeping the resources of those before it.
    pub fn parse_identifiers(
        resource_ids: &mut Vec<ResourceId>,
        resource: Option<Resource>,
        identifiers: &Vec<String>,
    ) -> (r: Result<(), IdParseError>)
        ensures
            r is Ok <==> identifiers_spec(string_seqs(identifiers@), resource) is Some,
            r is Ok ==> final(resource_ids)@ == old(resource_ids)@ + identifiers_spec(
                string_seqs(identifiers@),
                resource,
            )->0,
            r is Err ==> exists|k: int|
                0 <= k < identifiers@.len() && #[trigger] identifiers_spec(string_seqs(identifiers@).take(k), resource)
                    is Some && identifier_resource_id(identifiers@[k]@, resource) is None && final(resource_ids)@
                    == old(resource_ids)@ + identifiers_spec(string_seqs(identifiers@).take(k), resource)->0,
    {
        let ghost ids = string_seqs(identifiers@);
        let ghost start = resource_ids@;
        let mut i: usize = 0;
        assert(ids.take(0) =~= Seq::<Seq<char>>::empty());
        while i < identifiers.len()
            invariant
                i <= identifiers@.len(),
                ids == string_seqs(identifiers@),
                identifiers_spec(ids.take(i as int), resource) is Some,
                resource_ids@ == start + identifiers_spec(ids.take(i as int), resource)->0,
                start == old(resource_ids)@,
            decreases identifiers@.len() - i,
        {
            assert(ids.take(i + 1).drop_last() =~= ids.take(i as int));
            assert(ids.take(i + 1).last() == identifiers@[i as int]@);
            match parse(identifiers[i].as_str(), resource) {
                Err(e) => {
                    proof {
                        lemma_identifiers_failure_sticks(ids, resource, i + 1);
                        assert(identifiers_spec(ids.take(i as int), resource) is Some);
                    }
                    return Err(e);
                },
                Ok(rid) => {
                    resource_ids.push(rid);
                },
            }
            i = i + 1;
        }
        assert(ids.take(identifiers@.len() as int) =~= ids);
        Ok(())
    }

    /// The resources named on the command line, without those of manifest
    /// files: artists, albums, tracks, playlists, then plain identifiers (which
    /// must be URIs or URLs).
    pub fn resolve_identifiers(&self) -> (r: Result<Vec<ResourceId>, IdParseError>)
        ensures
            r is Ok <==> {
                &&& identifiers_spec(string_seqs(self.artist@), Some(Resource::Artist)) is Some
                &&& identifiers_spec(string_seqs(self.album@), Some(Resource::Album)) is Some
                &&& identifiers_spec(string_seqs(self.track@), Some(Resource::Track)) is Some
                &&& identifiers_spec(string_seqs(self.playlist@), Some(Resource::Playlist)) is Some
                &&& identifiers_spec(string_seqs(self.identifiers@), None) is Some
            },
            r matches Ok(v) ==> v@ == identifiers_spec(string_seqs(self.artist@), Some(Resource::Artist))->0
                + identifiers_spec(string_seqs(self.album@), Some(Resource::Album))->0 + identifiers_spec(
                string_seqs(self.track@),
                Some(Resource::Track),
            )->0 + identifiers_spec(string_seqs(self.playlist@), Some(Resource::Playlist))->0
                + identifiers_spec(string_seqs(self.identifiers@), None)->0,
    {
        let mut rids: Vec<ResourceId> = Vec::new();
        Self::parse_identifiers(&mut rids, Some(Resource::Artist), &self.artist)?;
        Self::parse_identifiers(&mut rids, Some(Resource::Album), &self.album)?;
        Self::parse_identifiers(&mut rids, Some(Resource::Track), &self.track)?;
        Self::parse_identifiers(&mut rids, Some(Resource::Playlist), &self.playlist)?;
        Self::parse_identifiers(&mut rids, None, &self.identifiers)?;
        Ok(rids)
    }
}

// ---------------------------------------------------------------------------
// Credentials.
// ---------------------------------------------------------------------------

/// Where the credentials to use come from.
#[derive(Debug, Clone)]
pub enum CredentialSource {
    /// Read the credentials stored at this path.
    Stored(String),
    /// Log in, and store the credentials obtained at this path.
    Login(LoginCredentials, String),
    /// A login is needed but no password was given.
    MissingPassword,
    /// A password was given without the username it belongs to.
    MissingUsername,
    /// No username was given: use the first credentials file found.
    AnyStored,
}

/// Decides which credentials to use. With a username, its stored credentials
/// (the file named after it in the credentials directory) are used when the
/// file exists and no password is given; otherwise a login with the password
/// is needed. A password needs a username: given without one, it is refused.
/// With neither, any stored credentials do.
pub fn credentials_source(
    credentials_dir: &str,
    username: &Option<String>,
    password: &Option<String>,
    stored_exists: bool,
) -> (s: CredentialSource)
    ensures
        match username {
            None => if password is Some {
                s is MissingUsername
            } else {
                s is AnyStored
            },
            Some(u) => if stored_exists && password is None {
                s matches CredentialSource::Stored(p) && p@ == path_push(credentials_dir@, u@)
            } else {
                match password {
                    None => s is MissingPassword,
                    Some(pw) => s matches CredentialSource::Login(l, p) && l.username@ == u@ && l.password@
                        == pw@ && p@ == path_push(credentials_dir@, u@),
                }
            },
        },
{
    match username {
        None => if password.is_some() {
            CredentialSource::MissingUsername
        } else {
            CredentialSource::AnyStored
        },
        Some(u) => {
            let path = join_path(credentials_dir, u.as_str());
            if stored_exists && password.is_none() {
                CredentialSource::Stored(path)
            } else {
                match password {
                    None => CredentialSource::MissingPassword,
                    Some(pw) => CredentialSource::Login(
                        LoginCredentials { username: u.clone(), password: pw.clone() },
                        path,
                    ),
                }
            }
        },
    }
}

// ---------------------------------------------------------------------------
// The manifest commands and the info output.
// ---------------------------------------------------------------------------

/// The resources of `rids` that the manifest does not list yet, in order.
pub fn resources_to_add(manifest: &Manifest, rids: &Vec<ResourceId>) -> (out: Vec<ResourceId>)
    ensures
        out@ == rids@.filter(|r: ResourceId| !(exists|i: int| 0 <= i < manifest@.len() && (#[trigger] manifest@[i]).0 == r)),
{
    let ghost pred = |r: ResourceId| !(exists|i: int| 0 <= i < manifest@.len() && (#[trigger] manifest@[i]).0 == r);
    let mut out: Vec<ResourceId> = Vec::new();
    let mut i: usize = 0;
    while i < rids.len()
        invariant
            i <= rids@.len(),
            pred == (|r: ResourceId| !(exists|i: int| 0 <= i < manifest@.len() && (#[trigger] manifest@[i]).0 == r)),
            out@ == rids@.take(i as int).filter(pred),
        decreases rids@.len() - i,
    {
        proof {
            rids@.take(i as int).lemma_filter_push(rids@[i as int], pred);
        }
        assert(rids@.take(i + 1) =~= rids@.take(i as int).push(rids@[i as int]));
        if !manifest.contains(&rids[i]) {
            out.push(rids[i]);
        }
        i = i + 1;
    }
    assert(rids@.take(rids@.len() as int) =~= rids@);
    out
}

pub open spec fn dash() -> Seq<char> {
    seq![' ', '-', ' ']
}

/// The manifest description of an album: `<artist> - <album>`.
pub fn album_description(artist_name: &str, album_name: &str) -> (d: String)
    ensures
        d@ == artist_name@ + dash() + album_name@,
{
    let sep = vec![' ', '-', ' '];
    let v = concat_chars(&concat_chars(&chars_of(artist_name), &sep), &chars_of(album_name));
    assert(v@ =~= artist_name@ + dash() + album_name@);
    string_from_chars(v.as_slice())
}

/// The manifest description of a track: `<artist> - <album> - <title>`.
pub fn track_description(artist_name: &str, album_name: &str, track_name: &str) -> (d: String)
    ensures
        d@ == artist_name@ + dash() + album_name@ + dash() + track_name@,
{
    let sep = vec![' ', '-', ' '];
    let a = concat_chars(&concat_chars(&chars_of(artist_name), &sep), &chars_of(album_name));
    let v = concat_chars(&concat_chars(&a, &sep), &chars_of(track_name));
    assert(v@ =~= artist_name@ + dash() + album_name@ + dash() + track_name@);
    string_from_chars(v.as_slice())
}

/// What `info` writes before the first item: `[` and a newline for a JSON array.
pub fn info_opening(array: bool) -> (b: Vec<u8>)
    ensures
        b@ == (if array { seq![91u8, 10u8] } else { seq![] }),
{
    if array {
        vec![91u8, 10u8]
    } else {
        Vec::new()
    }
}

/// What `info` writes for an item encoded as `json`: in an array, items after
/// the first are preceded by `,` and a newline; every item ends with a newline.
pub fn info_item(json: &Vec<u8>, first: bool, array: bool) -> (b: Vec<u8>)
    ensures
        b@ == (if array && !first { seq![44u8, 10u8] } else { seq![] }) + json@ + seq![10u8],
{
    let mut b: Vec<u8> = if array && !first {
        vec![44u8, 10u8]
    } else {
        Vec::new()
    };
    let ghost start = b@;
    let mut i: usize = 0;
    while i < json.len()
        invariant
            i <= json@.len(),
            b@ == start + json@.take(i as int),
        decreases json@.len() - i,
    {
        b.push(json[i]);
        assert(start + json@.take(i + 1) =~= (start + json@.take(i as int)).push(json@[i as int]));
        i = i + 1;
    }
    b.push(10u8);
    assert(json@.take(json@.len() as int) =~= json@);
    assert(b@ =~= start + json@ + seq![10u8]);
    b
}

/// What `info` writes after the last item: `]` and a newline for a JSON array.
pub fn info_closing(array: bool) -> (b: Vec<u8>)
    ensures
        b@ == (if array { seq![93u8, 10u8] } else { seq![] }),
{
    if array {
        vec![93u8, 10u8]
    } else {
        Vec::new()
    }
}

} // verus!

verus! {

/// The metadata cache of the cache settings: in the metadata directory.
pub fn helper_create_fs_cache(group_cache: &GroupCache, home: &str) -> (c: crate::cache::FsMetadataCache)
    ensures
        c.base()@ == path_push(
            match group_cache.cache_dir {
                Some(d) => d@,
                None => default_cache_dir(home@),
            },
            "metadata"@,
        ),
{
    let dir = group_cache.get_metadata_dir(home);
    crate::cache::FsMetadataCache::new(dir.as_str())
}

} // verus!

verus! {

/// The directory in which files hard-linked from a source are staged:
/// `.cache/spotdl/pipeline` in the home directory (on the same file system as
/// the cache, so that hard links can be made).
pub fn pipeline_cache_dir(home: &str) -> (d: String)
    ensures
        d@ == home@ + "/.cache/spotdl/pipeline"@,
{
    let v = concat_chars(&chars_of(home), &chars_of("/.cache/spotdl/pipeline"));
    string_from_chars(v.as_slice())
}

} // verus!

verus! {

/// A track the scan before a download finds is not downloaded again: with the
/// scan's items turned into left-out tracks (as `excluded_tracks` does) and
/// added to the left-out set, the track of every item is left out.
pub proof fn lemma_scanned_track_not_downloaded(
    s: Set<ResourceId>,
    items: Seq<ScanItem>,
    rids: Seq<ResourceId>,
    i: int,
)
    requires
        rids.len() == items.len(),
        forall|j: int| 0 <= j < items.len() ==> #[trigger] rids[j] == (ResourceId { resource: Resource::Track, id: items[j].id }),
        0 <= i < items.len(),
    ensures
        s.union(rids.to_set()).contains(ResourceId { resource: Resource::Track, id: items[i].id }),
{
    assert(rids[i] == (ResourceId { resource: Resource::Track, id: items[i].id }));
    assert(rids.to_set().contains(rids[i]));
}

} // verus!
