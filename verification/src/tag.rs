//! The contents of the ID3 tag written for a downloaded track.

use vstd::prelude::*;
use vstd::utf8::{encode_utf8, decode_utf8, is_char_boundary};
use crate::id::{SpotifyId, id_text};
use crate::metadata::{Album, Artist, Image, LyricsKind, SyncedLine, Track};
use crate::scan::{
    ExtendedText, track_id_description, tag_track_id, tag_search_breaks, value_head, long_id_frame,
    frame_yields_id,
};
use crate::text::{
    string_from_chars, join_skipping_empty, join_with, string_seqs, join_strings_skipping_empty,
    join_strings_with,
};

verus! {

broadcast use vstd::seq_lib::group_seq_properties;

pub const TAG_SPOTIFY_TRACK_ID: &'static str = "spotify_track_id";

pub const TAG_SPOTIFY_ALBUM_ID: &'static str = "spotify_album_id";

pub const TAG_SPOTIFY_ARTIST_ID: &'static str = "spotify_artist_id";

/// Options for filling a tag.
#[derive(Debug, Clone)]
pub struct FetchMetadataParams {
    pub download_images: bool,
}

impl Default for FetchMetadataParams {
    fn default() -> (r: Self)
        ensures
            r.download_images,
    {
        FetchMetadataParams { download_images: true }
    }
}

/// Lyrics as a tag holds them.
#[derive(Debug, Clone)]
pub enum TagLyrics {
    /// Plain lyrics: the lines joined by `\n`.
    Unsynchronized { lang: String, text: String },
    /// Time-synchronised lyrics: each line with its start time in milliseconds.
    Synchronized { lang: String, content: Vec<(u32, String)> },
}

/// The front-cover picture of a tag.
#[derive(Debug, Clone)]
pub struct TagPicture {
    pub mime_type: String,
    pub data: Vec<u8>,
}

/// Everything the library writes into a track's tag. Text lists (artists,
/// genres) hold their items separated by NUL characters.
#[derive(Debug, Clone)]
pub struct TagData {
    pub artist: String,
    pub album_artist: String,
    pub album: String,
    pub title: String,
    /// Length in milliseconds.
    pub duration: u32,
    pub genre: String,
    pub disc: u32,
    pub total_discs: u32,
    pub track: u32,
    pub total_tracks: u32,
    pub lyrics: Option<TagLyrics>,
    pub picture: Option<TagPicture>,
    /// The Spotify track, album and artist IDs, in that order.
    pub extended_texts: Vec<ExtendedText>,
}

pub open spec fn album_id_description() -> Seq<char> {
    seq!['s', 'p', 'o', 't', 'i', 'f', 'y', '_', 'a', 'l', 'b', 'u', 'm', '_', 'i', 'd']
}

pub open spec fn artist_id_description() -> Seq<char> {
    seq!['s', 'p', 'o', 't', 'i', 'f', 'y', '_', 'a', 'r', 't', 'i', 's', 't', '_', 'i', 'd']
}

/// The lyrics frame content for a track's lyrics kind.
pub open spec fn synced_content(lines: Seq<SyncedLine>) -> Seq<(u32, Seq<char>)> {
    lines.map_values(|l: SyncedLine| (l.start_time as u32, l.text@))
}

pub open spec fn content_view(c: Seq<(u32, String)>) -> Seq<(u32, Seq<char>)> {
    c.map_values(|x: (u32, String)| (x.0, x.1@))
}

/// Whether `t` is the lyrics frame for the track's lyrics.
pub open spec fn lyrics_match(t: Option<TagLyrics>, track: Track) -> bool {
    match track.lyrics {
        None => t is None,
        Some(l) => match l.kind {
            LyricsKind::Unsynchronized(lines) => t matches Some(TagLyrics::Unsynchronized { lang, text }) && lang@
                == l.language@ && text@ == join_with(string_seqs(lines@), seq!['\n']),
            LyricsKind::Synchronized(lines) => t matches Some(TagLyrics::Synchronized { lang, content }) && lang@
                == l.language@ && content_view(content@) == synced_content(lines@),
        },
    }
}

/// The URL of the cover to download for a tag, if any.
pub fn cover_to_download(album: &Album, params: &FetchMetadataParams) -> (r: Option<String>)
    ensures
        r == (if params.download_images { album.cover } else { None }),
{
    if params.download_images {
        match &album.cover {
            Some(url) => Some(url.clone()),
            None => None,
        }
    } else {
        None
    }
}

fn id_frame(description: Vec<char>, id: SpotifyId) -> (t: ExtendedText)
    ensures
        t.description@ == description@,
        t.value@ == id_text(id.0),
{
    ExtendedText { description: string_from_chars(description.as_slice()), value: id.to_string() }
}

fn synced_lines(lines: &Vec<SyncedLine>) -> (c: Vec<(u32, String)>)
    ensures
        content_view(c@) == synced_content(lines@),
{
    let mut c: Vec<(u32, String)> = Vec::new();
    let mut i: usize = 0;
    while i < lines.len()
        invariant
            i <= lines@.len(),
            c@.len() == i,
            content_view(c@) == synced_content(lines@.take(i as int)),
        decreases lines@.len() - i,
    {
        let line = &lines[i];
        let start: u32 = #[verifier::truncate] (line.start_time as u32);
        let ghost before = c@;
        c.push((start, line.text.clone()));
        proof {
            assert(lines@.take(i + 1) =~= lines@.take(i as int).push(lines@[i as int]));
            assert(c@ =~= before.push((start, line.text)));
            let lhs = content_view(c@);
            let rhs = synced_content(lines@.take(i + 1));
            assert(lhs.len() == rhs.len());
            assert forall|k: int| 0 <= k < lhs.len() implies lhs[k] == rhs[k] by {
                if k < i {
                    assert(lhs[k] == content_view(before)[k]);
                    assert(rhs[k] == synced_content(lines@.take(i as int))[k]);
                } else {
                    assert(lhs[k] == (start, line.text@));
                    assert(rhs[k] == (lines@[i as int].start_time as u32, lines@[i as int].text@));
                }
            }
            assert(lhs =~= rhs);
        }
        i = i + 1;
    }
    assert(lines@.take(lines@.len() as int) =~= lines@);
    c
}

/// The contents of the tag for `track`, given its album, the first artist of the
/// album, the names of the track's artists and of the album's artists (in the
/// order the metadata lists them), and the downloaded cover, if any.
pub fn tag_data(
    track: &Track,
    album: &Album,
    artist: &Artist,
    track_artist_names: &Vec<String>,
    album_artist_names: &Vec<String>,
    cover: Option<Image>,
) -> (data: TagData)
    requires
        1 <= track.disc_number <= album.discs@.len(),
    ensures
        data.artist@ == join_skipping_empty(string_seqs(track_artist_names@), '\0'),
        data.album_artist@ == join_skipping_empty(string_seqs(album_artist_names@), '\0'),
        data.album@ == album.name@,
        data.title@ == track.name@,
        data.duration == track.duration as u32,
        data.genre@ == join_skipping_empty(string_seqs(artist.genres@), '\0'),
        data.disc == track.disc_number,
        data.total_discs == album.discs@.len() as u32,
        data.track == track.track_number,
        data.total_tracks == album.discs@[track.disc_number - 1].tracks@.len() as u32,
        lyrics_match(data.lyrics, *track),
        match cover {
            None => data.picture is None,
            Some(img) => data.picture matches Some(p) && p.mime_type == img.content_type && p.data
                == img.data,
        },
        data.extended_texts@.len() == 3,
        data.extended_texts@[0].description@ == track_id_description(),
        data.extended_texts@[0].value@ == id_text(track.rid.id.0),
        data.extended_texts@[1].description@ == album_id_description(),
        data.extended_texts@[1].value@ == id_text(album.rid.id.0),
        data.extended_texts@[2].description@ == artist_id_description(),
        data.extended_texts@[2].value@ == id_text(artist.rid.id.0),
{
    let artists = join_strings_skipping_empty(track_artist_names, '\0');
    let album_artists = join_strings_skipping_empty(album_artist_names, '\0');
    let genre = join_strings_skipping_empty(&artist.genres, '\0');
    #[verifier::truncate]
    let duration = track.duration as u32;
    #[verifier::truncate]
    let total_discs = album.discs.len() as u32;
    let disc_index = (track.disc_number - 1) as usize;
    #[verifier::truncate]
    let total_tracks = album.discs[disc_index].tracks.len() as u32;
    let lyrics = match &track.lyrics {
        None => None,
        Some(l) => match &l.kind {
            LyricsKind::Unsynchronized(lines) => {
                let newline = vec!['\n'];
                assert(newline@ =~= seq!['\n']);
                let text = join_strings_with(lines, &newline);
                Some(
                    TagLyrics::Unsynchronized {
                        lang: l.language.clone(),
                        text: string_from_chars(text.as_slice()),
                    },
                )
            },
            LyricsKind::Synchronized(lines) => Some(
                TagLyrics::Synchronized { lang: l.language.clone(), content: synced_lines(lines) },
            ),
        },
    };
    let picture = match cover {
        None => None,
        Some(img) => Some(TagPicture { mime_type: img.content_type, data: img.data }),
    };
    let track_desc = vec!['s', 'p', 'o', 't', 'i', 'f', 'y', '_', 't', 'r', 'a', 'c', 'k', '_', 'i', 'd'];
    let album_desc = vec!['s', 'p', 'o', 't', 'i', 'f', 'y', '_', 'a', 'l', 'b', 'u', 'm', '_', 'i', 'd'];
    let artist_desc = vec!['s', 'p', 'o', 't', 'i', 'f', 'y', '_', 'a', 'r', 't', 'i', 's', 't', '_', 'i', 'd'];
    assert(track_desc@ =~= track_id_description());
    assert(album_desc@ =~= album_id_description());
    assert(artist_desc@ =~= artist_id_description());
    let mut extended_texts: Vec<ExtendedText> = Vec::new();
    extended_texts.push(id_frame(track_desc, track.rid.id));
    extended_texts.push(id_frame(album_desc, album.rid.id));
    extended_texts.push(id_frame(artist_desc, artist.rid.id));
    TagData {
        artist: string_from_chars(artists.as_slice()),
        album_artist: string_from_chars(album_artists.as_slice()),
        album: album.name.clone(),
        title: track.name.clone(),
        duration,
        genre: string_from_chars(genre.as_slice()),
        disc: track.disc_number,
        total_discs,
        track: track.track_number,
        total_tracks,
        lyrics,
        picture,
        extended_texts,
    }
}

/// A tag whose first text frame is the track-ID frame the library writes reads
/// back, when scanned, as that track's ID.
pub proof fn lemma_written_track_id_is_found(texts: Seq<ExtendedText>, id: SpotifyId)
    requires
        texts.len() > 0,
        texts[0].description@ == track_id_description(),
        texts[0].value@ == id_text(id.0),
    ensures
        !tag_search_breaks(texts),
        tag_track_id(texts) == Some(id),
{
    let v = id_text(id.0);
    crate::id::lemma_id_text(id.0);
    assert(vstd::utf8::is_ascii_chars(v)) by {
        assert forall|i: int| 0 <= i < v.len() implies '\0' <= #[trigger] v[i] <= '\u{7f}' by {
            assert(crate::id::is_digit62(v[i]));
        }
    }
    vstd::utf8::is_ascii_chars_encode_utf8(v);
    let b = encode_utf8(v);
    assert(b.len() == 22);
    assert(b.take(22) =~= b);
    vstd::utf8::encode_utf8_decode_utf8(v);
    assert(value_head(v) == v);
    vstd::utf8::encode_utf8_valid_utf8(v);
    vstd::utf8::is_char_boundary_start_end_of_seq(b);
    assert(long_id_frame(texts[0]));
    assert(frame_yields_id(texts[0]));
}

} // verus!
