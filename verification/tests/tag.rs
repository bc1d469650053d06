use spotdl::id::{Resource, ResourceId, SpotifyId};
use spotdl::metadata::{Album, Artist, Disc, Image, Lyrics, LyricsKind, SyncedLine, Track};
use spotdl::scan::track_id_in_tag;
use spotdl::tag::{cover_to_download, tag_data, FetchMetadataParams, TagLyrics, TAG_SPOTIFY_TRACK_ID};

const TRACK: u128 = 210529618261384671802826695435018259197;
const ALBUM: u128 = 336827331458249250023371961216789761524;
const ARTIST: u128 = 277693937382301511230060874561273772272;

fn rid(kind: Resource, v: u128) -> ResourceId {
    ResourceId::new(kind, SpotifyId::new(v))
}

fn fixture(lyrics: Option<Lyrics>) -> (Track, Album, Artist) {
    let track = Track {
        rid: rid(Resource::Track, TRACK),
        name: "Song".to_string(),
        album: rid(Resource::Album, ALBUM),
        disc_number: 2,
        track_number: 4,
        duration: 185_000,
        artists: vec![rid(Resource::Artist, ARTIST)],
        lyrics,
        alternatives: vec![],
    };
    let album = Album {
        rid: rid(Resource::Album, ALBUM),
        name: "Record".to_string(),
        original_name: "Record".to_string(),
        version_name: String::new(),
        artists: vec![rid(Resource::Artist, ARTIST)],
        label: "Label".to_string(),
        discs: vec![
            Disc { number: 1, tracks: vec![rid(Resource::Track, 1)] },
            Disc { number: 2, tracks: vec![rid(Resource::Track, 2), rid(Resource::Track, TRACK), rid(Resource::Track, 3)] },
        ],
        cover: Some("https://i.scdn.co/image/x".to_string()),
    };
    let artist = Artist {
        rid: rid(Resource::Artist, ARTIST),
        name: "Band".to_string(),
        albums: vec![],
        singles: vec![],
        compilations: vec![],
        appears_on: vec![],
        genres: vec!["rock".to_string(), "".to_string(), "pop".to_string()],
    };
    (track, album, artist)
}

#[test]
fn tag_fields() {
    let (track, album, artist) = fixture(None);
    let data = tag_data(
        &track,
        &album,
        &artist,
        &vec!["Band".to_string(), "Guest".to_string()],
        &vec!["".to_string(), "Band".to_string()],
        Some(Image { content_type: "image/png".to_string(), data: vec![1, 2, 3] }),
    );
    assert_eq!(data.artist, "Band\0Guest");
    assert_eq!(data.album_artist, "Band");
    assert_eq!(data.album, "Record");
    assert_eq!(data.title, "Song");
    assert_eq!(data.duration, 185_000);
    assert_eq!(data.genre, "rock\0\0pop");
    assert_eq!((data.disc, data.total_discs), (2, 2));
    assert_eq!((data.track, data.total_tracks), (4, 3));
    assert!(data.lyrics.is_none());
    let pic = data.picture.unwrap();
    assert_eq!(pic.mime_type, "image/png");
    assert_eq!(pic.data, vec![1, 2, 3]);
    assert_eq!(data.extended_texts.len(), 3);
    assert_eq!(data.extended_texts[0].description, TAG_SPOTIFY_TRACK_ID);
    assert_eq!(data.extended_texts[0].value, "4OROzZUy6gOWN4UGQVaZMF");
    assert_eq!(data.extended_texts[1].description, "spotify_album_id");
    assert_eq!(data.extended_texts[1].value, "7I9Wh2IgvI3Nnr8Z1ZSWby");
    assert_eq!(data.extended_texts[2].description, "spotify_artist_id");
    assert_eq!(data.extended_texts[2].value, "6mdiAmATAx73kdxrNrnlao");
}

#[test]
fn written_track_id_reads_back() {
    let (track, album, artist) = fixture(None);
    let data = tag_data(&track, &album, &artist, &vec![], &vec![], None);
    assert!(data.picture.is_none());
    assert_eq!(track_id_in_tag(&data.extended_texts), Some(SpotifyId::new(TRACK)));
}

#[test]
fn lyrics_frames() {
    let plain = Lyrics {
        language: "en".to_string(),
        kind: LyricsKind::Unsynchronized(vec!["one".to_string(), "two".to_string()]),
    };
    let (track, album, artist) = fixture(Some(plain));
    match tag_data(&track, &album, &artist, &vec![], &vec![], None).lyrics {
        Some(TagLyrics::Unsynchronized { lang, text }) => {
            assert_eq!(lang, "en");
            assert_eq!(text, "one\ntwo");
        },
        other => panic!("{:?}", other),
    }
    let synced = Lyrics {
        language: "de".to_string(),
        kind: LyricsKind::Synchronized(vec![
            SyncedLine { start_time: 0, end_time: 1500, text: "a".to_string() },
            SyncedLine { start_time: 1500, end_time: 4000, text: "b".to_string() },
        ]),
    };
    let (track, album, artist) = fixture(Some(synced));
    match tag_data(&track, &album, &artist, &vec![], &vec![], None).lyrics {
        Some(TagLyrics::Synchronized { lang, content }) => {
            assert_eq!(lang, "de");
            assert_eq!(content, vec![(0, "a".to_string()), (1500, "b".to_string())]);
        },
        other => panic!("{:?}", other),
    }
}

#[test]
fn cover_only_when_images_wanted() {
    let (_, album, _) = fixture(None);
    assert!(FetchMetadataParams::default().download_images);
    assert_eq!(
        cover_to_download(&album, &FetchMetadataParams { download_images: true }),
        Some("https://i.scdn.co/image/x".to_string())
    );
    assert_eq!(cover_to_download(&album, &FetchMetadataParams { download_images: false }), None);
}
