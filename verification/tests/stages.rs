use spotdl::id::{Resource, ResourceId, SpotifyId};
use spotdl::metadata::{Album, Artist, Disc, Track};
use spotdl::stages::{download_stages, join_path, linked_file_path, FFmpegStage, OrganizeStage, PipelineStage, Stage, TagStage};

fn rid(kind: Resource, v: u128) -> ResourceId {
    ResourceId::new(kind, SpotifyId::new(v))
}

fn artist(name: &str) -> Artist {
    Artist {
        rid: rid(Resource::Artist, 1),
        name: name.to_string(),
        albums: vec![],
        singles: vec![],
        compilations: vec![],
        appears_on: vec![],
        genres: vec![],
    }
}

fn album(name: &str, discs: usize) -> Album {
    Album {
        rid: rid(Resource::Album, 2),
        name: name.to_string(),
        original_name: name.to_string(),
        version_name: String::new(),
        artists: vec![rid(Resource::Artist, 1)],
        label: String::new(),
        discs: (0..discs).map(|i| Disc { number: i as u32 + 1, tracks: vec![] }).collect(),
        cover: None,
    }
}

fn track(name: &str, disc: u32, number: u32) -> Track {
    Track {
        rid: rid(Resource::Track, 210529618261384671802826695435018259197),
        name: name.to_string(),
        album: rid(Resource::Album, 2),
        disc_number: disc,
        track_number: number,
        duration: 1000,
        artists: vec![rid(Resource::Artist, 1)],
        lyrics: None,
        alternatives: vec![],
    }
}

#[test]
fn joining_paths() {
    assert_eq!(join_path("a", "b"), "a/b");
    assert_eq!(join_path("a/", "b"), "a/b");
    assert_eq!(join_path("", "b"), "b");
    assert_eq!(join_path("a", "/b"), "/b");
    assert_eq!(join_path("a", ""), "a/");
}

#[test]
fn linked_files_keep_their_name() {
    assert_eq!(linked_file_path("/tmp/w", "/music/x/song.flac"), Some("/tmp/w/song.flac".to_string()));
    assert_eq!(linked_file_path("/tmp/w", "/"), None);
    assert_eq!(linked_file_path("/tmp/w", "x/.."), None);
}

#[test]
fn ffmpeg_stage_output_and_arguments() {
    let stage = FFmpegStage::new("/usr/bin/ffmpeg", "mp3");
    assert_eq!(stage.name(), "ffmpeg");
    assert_eq!(stage.program_path(), "/usr/bin/ffmpeg");
    assert_eq!(stage.output_path("/tmp/work"), "/tmp/work/stage_ffmpeg.mp3");
    assert_eq!(FFmpegStage::new("ffmpeg", "").output_path("/tmp/work"), "/tmp/work/stage_ffmpeg");
    assert_eq!(
        stage.arguments("in.wav", "out.mp3"),
        vec!["-i", "in.wav", "-b:a", "320k", "-y", "out.mp3"].into_iter().map(String::from).collect::<Vec<_>>()
    );
}

#[test]
fn organize_single_disc_album() {
    let stage = OrganizeStage::new("music");
    assert_eq!(stage.name(), "organize");
    let dir = stage.target_dir(&artist("Artist"), &album("Album", 1), &track("Song", 1, 3));
    assert_eq!(dir, "music/Artist/Album");
    let t = track("Hello/World.v2", 1, 3);
    assert_eq!(stage.target_path(&dir, &t, "/tmp/w/output.wav", false), "music/Artist/Album/3 - Hello-Worldv2.wav");
    assert_eq!(
        stage.target_path(&dir, &t, "/tmp/w/output.wav", true),
        "music/Artist/Album/3 - Hello-Worldv2 - 4OROzZUy6gOWN4UGQVaZMF.wav"
    );
    assert_eq!(stage.target_path(&dir, &t, "/tmp/w/noext", false), "music/Artist/Album/3 - Hello-Worldv2");
}

#[test]
fn organize_multi_disc_album() {
    let stage = OrganizeStage::new("/out/");
    let dir = stage.target_dir(&artist("A"), &album("B", 2), &track("C", 2, 11));
    assert_eq!(dir, "/out/A/B/Disc 2");
    assert_eq!(stage.target_path(&dir, &track("C", 2, 11), "x.mp3", false), "/out/A/B/Disc 2/11 - C.mp3");
}

#[test]
fn download_stage_order() {
    let with = download_stages(Some(FFmpegStage::new("ffmpeg", "flac")), "out");
    assert_eq!(with.len(), 3);
    assert!(matches!(with[0], Stage::Tag(_)));
    assert!(matches!(with[1], Stage::FFmpeg(_)));
    assert!(matches!(with[2], Stage::Organize(_)));
    let without = download_stages(None, "out");
    assert_eq!(without.len(), 2);
    assert!(matches!(without[0], Stage::Tag(_)));
    assert!(matches!(without[1], Stage::Organize(_)));
    assert_eq!(TagStage::new().name(), "tag");
}

#[test]
fn stage_names() {
    assert_eq!(Stage::Tag(TagStage::new()).name(), "tag");
    assert_eq!(Stage::FFmpeg(FFmpegStage::new("ffmpeg", "mp3")).name(), "ffmpeg");
    assert_eq!(Stage::Organize(OrganizeStage::new("out")).name(), "organize");
}
