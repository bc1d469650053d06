use spotdl::scan::{
    has_scannable_extension, is_wav_path, path_extension_of, starts_with_path, track_id_in_tag, ExtendedText,
    ScanParams,
};
use spotdl::id::SpotifyId;

#[test]
fn test_scan_params() {
    let mut params = ScanParams::default();
    params.include_path("foo/m1.mp3");
    params.exclude("foo/m2.mp3");
    params.include_path("bar");
    params.exclude("zoo");

    assert!(!params.should_exclude("foo/m1.mp3"));
    assert!(params.should_exclude("foo/m2.mp3"));
    assert!(!params.should_exclude("bar/m3.mp3"));
    assert!(params.should_exclude("zoo/m4.mp3"));
}

#[test]
fn scan_params_builders_keep_order() {
    let params = ScanParams::default().with_include("a").with_exclude("b").with_include("c");
    assert_eq!(params.includes, vec!["a".to_string(), "c".to_string()]);
    assert_eq!(params.exclude, vec!["b".to_string()]);
}

#[test]
fn excluded_directory_covers_everything_below() {
    let mut params = ScanParams::default();
    params.include_path("/music");
    params.exclude("/music/ephemeral");
    assert!(params.should_exclude("/music/ephemeral"));
    assert!(params.should_exclude("/music/ephemeral/a/b.mp3"));
    assert!(params.should_exclude("/music//ephemeral/./x.flac"));
    assert!(!params.should_exclude("/music/ephemeral2/x.flac"));
    assert!(!params.should_exclude("/music/other.mp3"));
}

#[test]
fn path_prefix_is_by_component() {
    assert!(starts_with_path("/a/b/c", "/a/b"));
    assert!(starts_with_path("/a/b/", "/a/b"));
    assert!(!starts_with_path("/a/bc", "/a/b"));
    assert!(!starts_with_path("a/b", "/a/b"));
    assert!(starts_with_path("./a/b", "./a"));
}

#[test]
fn extensions_of_paths() {
    assert_eq!(path_extension_of("dir/song.mp3"), Some("mp3".to_string()));
    assert_eq!(path_extension_of("dir/archive.tar.gz"), Some("gz".to_string()));
    assert_eq!(path_extension_of("dir/.hidden"), None);
    assert_eq!(path_extension_of("dir/noext"), None);
    assert_eq!(path_extension_of("dir/trailing."), Some("".to_string()));
    assert_eq!(path_extension_of("dir/.."), None);
}

#[test]
fn scannable_extensions() {
    for ok in ["a.mp3", "a.wav", "a.flac", "a.ogg", "a.m4a"] {
        assert!(has_scannable_extension(ok), "{ok}");
    }
    for no in ["a.MP3", "a.txt", "a", "a.opus"] {
        assert!(!has_scannable_extension(no), "{no}");
    }
    assert!(is_wav_path("x/y.wav"));
    assert!(!is_wav_path("x/y.mp3"));
}

fn frame(description: &str, value: &str) -> ExtendedText {
    ExtendedText { description: description.to_string(), value: value.to_string() }
}

#[test]
fn track_id_found_in_tag() {
    let id = SpotifyId::new(210529618261384671802826695435018259197);
    let texts = vec![
        frame("other", "4OROzZUy6gOWN4UGQVaZMF"),
        frame("spotify_track_id", "short"),
        frame("spotify_track_id", "4OROzZUy6gOWN4UGQVaZMF\0"),
    ];
    assert_eq!(track_id_in_tag(&texts), Some(id));
}

#[test]
fn track_id_skips_invalid_values() {
    let texts = vec![
        frame("spotify_track_id", "!!!!!!!!!!!!!!!!!!!!!!!!"),
        frame("spotify_album_id", "7I9Wh2IgvI3Nnr8Z1ZSWby"),
    ];
    assert_eq!(track_id_in_tag(&texts), None);
    assert_eq!(track_id_in_tag(&vec![]), None);
}
