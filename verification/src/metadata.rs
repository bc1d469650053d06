//! Metadata of Spotify artists, albums, tracks and playlists.
//!
//! Durations and times are whole milliseconds.

use vstd::prelude::*;
use crate::id::ResourceId;

verus! {

/// An image and its MIME type.
#[derive(Debug, Clone)]
pub struct Image {
    pub content_type: String,
    pub data: Vec<u8>,
}

#[derive(Debug, Clone)]
pub struct Artist {
    pub rid: ResourceId,
    pub name: String,
    pub albums: Vec<ResourceId>,
    pub singles: Vec<ResourceId>,
    pub compilations: Vec<ResourceId>,
    pub appears_on: Vec<ResourceId>,
    pub genres: Vec<String>,
}

#[derive(Debug, Clone)]
pub struct Album {
    pub rid: ResourceId,
    pub name: String,
    pub original_name: String,
    pub version_name: String,
    pub artists: Vec<ResourceId>,
    pub label: String,
    pub discs: Vec<Disc>,
    /// Cover URL
    pub cover: Option<String>,
}

#[derive(Debug, Clone)]
pub struct Disc {
    pub number: u32,
    pub tracks: Vec<ResourceId>,
}

#[derive(Debug, Clone)]
pub struct Track {
    pub rid: ResourceId,
    pub name: String,
    pub album: ResourceId,
    pub disc_number: u32,
    pub track_number: u32,
    /// Length in milliseconds.
    pub duration: u64,
    pub artists: Vec<ResourceId>,
    pub lyrics: Option<Lyrics>,
    pub alternatives: Vec<ResourceId>,
}

/// A line of time-synchronised lyrics; times in milliseconds.
#[derive(Debug, Clone)]
pub struct SyncedLine {
    pub start_time: u64,
    pub end_time: u64,
    pub text: String,
}

#[derive(Debug, Clone)]
pub enum LyricsKind {
    Unsynchronized(Vec<String>),
    Synchronized(Vec<SyncedLine>),
}

#[derive(Debug, Clone)]
pub struct Lyrics {
    pub language: String,
    pub kind: LyricsKind,
}

#[derive(Debug, Clone)]
pub struct Playlist {
    pub rid: ResourceId,
    pub name: String,
    pub tracks: Vec<ResourceId>,
}

} // verus!

verus! {

/// An image an album offers as its cover, with its size in pixels.
#[derive(Debug, Clone)]
pub struct CoverCandidate {
    pub file_id: String,
    pub width: i32,
    pub height: i32,
}

pub open spec fn area(c: CoverCandidate) -> int {
    c.width * c.height
}

/// Whether the cover at `k` is the one to use: the first of the largest covers,
/// which must have a positive area.
pub open spec fn is_best_cover(covers: Seq<CoverCandidate>, k: int) -> bool {
    &&& 0 <= k < covers.len()
    &&& area(covers[k]) > 0
    &&& forall|j: int| 0 <= j < covers.len() ==> area(#[trigger] covers[j]) <= area(covers[k])
    &&& forall|j: int| 0 <= j < k ==> area(#[trigger] covers[j]) < area(covers[k])
}

/// The file ID of the largest cover (the first of them on a tie), or `None`
/// when no cover has a positive area.
pub fn best_cover(covers: &Vec<CoverCandidate>) -> (r: Option<String>)
    requires
        forall|j: int| 0 <= j < covers@.len() ==> i32::MIN <= #[trigger] area(covers@[j]) <= i32::MAX,
    ensures
        r is None <==> forall|j: int| 0 <= j < covers@.len() ==> area(#[trigger] covers@[j]) <= 0,
        r matches Some(id) ==> exists|k: int| is_best_cover(covers@, k) && id@ == covers@[k].file_id@,
{
    let mut best: Option<usize> = None;
    let mut best_size: i32 = 0;
    let mut i: usize = 0;
    while i < covers.len()
        invariant
            i <= covers@.len(),
            forall|j: int| 0 <= j < covers@.len() ==> i32::MIN <= #[trigger] area(covers@[j]) <= i32::MAX,
            best is None ==> best_size == 0 && forall|j: int| 0 <= j < i ==> area(#[trigger] covers@[j]) <= 0,
            best matches Some(k) ==> {
                &&& k < i
                &&& best_size == area(covers@[k as int])
                &&& area(covers@[k as int]) > 0
                &&& forall|j: int| 0 <= j < i ==> area(#[trigger] covers@[j]) <= area(covers@[k as int])
                &&& forall|j: int| 0 <= j < k ==> area(#[trigger] covers@[j]) < area(covers@[k as int])
            },
        decreases covers@.len() - i,
    {
        let c = &covers[i];
        assert(i32::MIN <= area(covers@[i as int]) <= i32::MAX);
        let size = c.width * c.height;
        if size > best_size {
            best = Some(i);
            best_size = size;
        }
        i = i + 1;
    }
    match best {
        None => None,
        Some(k) => {
            assert(is_best_cover(covers@, k as int));
            Some(covers[k].file_id.clone())
        },
    }
}

/// The address a cover image is downloaded from.
pub fn cover_url(file_id: &str) -> (u: String)
    ensures
        u@ == "https://i.scdn.co/image/"@ + file_id@,
{
    let v = crate::text::concat_chars(&crate::text::chars_of("https://i.scdn.co/image/"), &crate::text::chars_of(file_id));
    crate::text::string_from_chars(v.as_slice())
}

} // verus!
