use spotdl::config::{
    album_description, credentials_source, excluded_tracks, helper_create_fs_cache, info_closing, info_item,
    info_opening, resources_to_add, track_description, CredentialSource, GroupCache, GroupFFmpeg, GroupScanDir,
    GroupWatchSocket, ResourceSelector,
};
use spotdl::id::{IdParseError, Resource, ResourceId, SpotifyId};
use spotdl::manifest::Manifest;
use spotdl::scan::ScanItem;

fn cache(dir: Option<&str>) -> GroupCache {
    GroupCache {
        cache_dir: dir.map(String::from),
        artist_ttl: 86400,
        album_ttl: -1,
        track_ttl: -1,
        playlist_ttl: 3600,
        image_ttl: -1,
    }
}

#[test]
fn ttl_settings() {
    assert_eq!(GroupCache::i64_to_dur(-1), u64::MAX);
    assert_eq!(GroupCache::i64_to_dur(0), 0);
    assert_eq!(GroupCache::i64_to_dur(3600), 3600);
    assert_eq!(GroupCache::i64_to_dur(-2), u64::MAX - 1);
    let c = cache(None);
    assert_eq!(c.artist_ttl(), 86400);
    assert_eq!(c.album_ttl(), u64::MAX);
    assert_eq!(c.track_ttl(), u64::MAX);
    assert_eq!(c.playlist_ttl(), 3600);
    assert_eq!(c.image_ttl(), u64::MAX);
}

#[test]
fn cache_directories() {
    let c = cache(None);
    assert_eq!(c.get_cache_dir("/home/u"), "/home/u/.cache/spotdl");
    assert_eq!(c.get_credentials_dir("/home/u"), "/home/u/.cache/spotdl/credentials");
    assert_eq!(c.get_metadata_dir("/home/u"), "/home/u/.cache/spotdl/metadata");
    let c = cache(Some("/var/cache/x"));
    assert_eq!(c.get_metadata_dir("/home/u"), "/var/cache/x/metadata");
    let p = c.create_fs_fetcher_param("/home/u");
    assert_eq!(p.directory, "/var/cache/x/metadata");
    assert_eq!(p.album_ttl, u64::MAX);
    assert_eq!(p.playlist_ttl, 3600);
    assert_eq!(helper_create_fs_cache(&c, "/home/u").key_path("k"), "/var/cache/x/metadata/k");
}

#[test]
fn scan_settings() {
    let g = GroupScanDir { scan: vec!["a".into(), "b".into()], scan_exclude: vec!["a/x".into()] };
    let p = g.create_params();
    assert_eq!(p.includes, vec!["a".to_string(), "b".to_string()]);
    assert_eq!(p.exclude, vec!["a/x".to_string()]);
    let d = g.download_params("out");
    assert_eq!(d.includes, vec!["a".to_string(), "b".to_string(), "out".to_string()]);
    let items = vec![ScanItem { path: "p".into(), id: SpotifyId::new(5) }];
    assert_eq!(excluded_tracks(&items), vec![ResourceId::new(Resource::Track, SpotifyId::new(5))]);
}

#[test]
fn ffmpeg_settings() {
    assert!(GroupFFmpeg { format: None, ffmpeg_path: Some("/x".into()) }.create_stage().is_none());
    let s = GroupFFmpeg { format: Some("mp3".into()), ffmpeg_path: None }.create_stage().unwrap();
    assert_eq!(s.program_path(), "ffmpeg");
    assert_eq!(s.output_path("w"), "w/stage_ffmpeg.mp3");
    let s = GroupFFmpeg { format: Some("ogg".into()), ffmpeg_path: Some("/opt/ffmpeg".into()) }.create_stage().unwrap();
    assert_eq!(s.program_path(), "/opt/ffmpeg");
}

#[test]
fn socket_settings() {
    assert_eq!(GroupWatchSocket { socket: None }.socket_path(), "/tmp/spotdl.sock");
    assert_eq!(GroupWatchSocket { socket: Some("/run/s".into()) }.socket_path(), "/run/s");
}

fn selector() -> ResourceSelector {
    ResourceSelector {
        artist: vec![],
        album: vec![],
        track: vec![],
        playlist: vec![],
        manifest: vec![],
        identifiers: vec![],
    }
}

#[test]
fn selected_resources_in_order() {
    let mut s = selector();
    s.track.push("4OROzZUy6gOWN4UGQVaZMF".into());
    s.artist.push("https://open.spotify.com/artist/6mdiAmATAx73kdxrNrnlao?si=x".into());
    s.identifiers.push("spotify:album:7I9Wh2IgvI3Nnr8Z1ZSWby".into());
    let rids = s.resolve_identifiers().unwrap();
    assert_eq!(
        rids,
        vec![
            ResourceId::new(Resource::Artist, SpotifyId::new(277693937382301511230060874561273772272)),
            ResourceId::new(Resource::Track, SpotifyId::new(210529618261384671802826695435018259197)),
            ResourceId::new(Resource::Album, SpotifyId::new(336827331458249250023371961216789761524)),
        ]
    );
}

#[test]
fn ambiguous_identifier_is_refused() {
    let mut s = selector();
    s.identifiers.push("4OROzZUy6gOWN4UGQVaZMF".into());
    assert_eq!(s.resolve_identifiers(), Err(IdParseError));
    let mut out = vec![];
    assert_eq!(
        ResourceSelector::parse_identifiers(&mut out, Some(Resource::Track), &vec!["4OROzZUy6gOWN4UGQVaZMF".into()]),
        Ok(())
    );
    assert_eq!(out.len(), 1);
    // The resources read before an unreadable identifier stay appended.
    let ids: Vec<String> = vec!["2takcwOaAZWiXQijPHIx7B".into(), "not an id".into(), "4OROzZUy6gOWN4UGQVaZMF".into()];
    assert_eq!(ResourceSelector::parse_identifiers(&mut out, Some(Resource::Album), &ids), Err(IdParseError));
    assert_eq!(out.len(), 2);
    assert_eq!(out[1].resource, Resource::Album);
}

#[test]
fn credentials_choice() {
    let dir = "/c/credentials";
    let user = Some("me".to_string());
    let pw = Some("pw".to_string());
    assert!(matches!(credentials_source(dir, &None, &pw, true), CredentialSource::MissingUsername));
    assert!(matches!(credentials_source(dir, &None, &pw, false), CredentialSource::MissingUsername));
    assert!(matches!(credentials_source(dir, &None, &None, true), CredentialSource::AnyStored));
    match credentials_source(dir, &user, &None, true) {
        CredentialSource::Stored(p) => assert_eq!(p, "/c/credentials/me"),
        other => panic!("{:?}", other),
    }
    assert!(matches!(credentials_source(dir, &user, &None, false), CredentialSource::MissingPassword));
    match credentials_source(dir, &user, &pw, true) {
        CredentialSource::Login(l, p) => {
            assert_eq!(l.username, "me");
            assert_eq!(l.password, "pw");
            assert_eq!(p, "/c/credentials/me");
        },
        other => panic!("{:?}", other),
    }
}

#[test]
fn manifest_additions() {
    let a = ResourceId::new(Resource::Album, SpotifyId::new(1));
    let b = ResourceId::new(Resource::Track, SpotifyId::new(2));
    let mut m = Manifest::new();
    m.add(a, "x".into());
    assert_eq!(resources_to_add(&m, &vec![a, b, b]), vec![b, b]);
    assert_eq!(album_description("Artist", "Album"), "Artist - Album");
    assert_eq!(track_description("Artist", "Album", "Song"), "Artist - Album - Song");
}

#[test]
fn info_framing() {
    let mut out = info_opening(true);
    out.extend(info_item(&b"{\"a\":1}".to_vec(), true, true));
    out.extend(info_item(&b"{\"b\":2}".to_vec(), false, true));
    out.extend(info_closing(true));
    assert_eq!(String::from_utf8(out).unwrap(), "[\n{\"a\":1}\n,\n{\"b\":2}\n]\n");
    let mut plain = info_opening(false);
    plain.extend(info_item(&b"1".to_vec(), true, false));
    plain.extend(info_item(&b"2".to_vec(), false, false));
    plain.extend(info_closing(false));
    assert_eq!(String::from_utf8(plain).unwrap(), "1\n2\n");
}

#[test]
fn staging_directory_for_hard_links() {
    assert_eq!(spotdl::config::pipeline_cache_dir("/home/u"), "/home/u/.cache/spotdl/pipeline");
}
