use spotdl::id::SpotifyId;
use spotdl::scan::ScanItem;
use spotdl::sources::{GroupSource, PipelineSourceAction, SourceError, SourceMap};

#[test]
fn source_arguments() {
    let s = GroupSource::parse_source("copy:/home/user/Music").unwrap();
    assert_eq!((s.action, s.source.as_str()), (PipelineSourceAction::Copy, "/home/user/Music"));
    let s = GroupSource::parse_source("symlink:../music").unwrap();
    assert_eq!((s.action, s.source.as_str()), (PipelineSourceAction::SymLink, "../music"));
    let s = GroupSource::parse_source("hardlink:/mnt/music").unwrap();
    assert_eq!((s.action, s.source.as_str()), (PipelineSourceAction::HardLink, "/mnt/music"));
    // The action ends at the first colon; the path may hold more.
    let s = GroupSource::parse_source("hardlink:/mnt/a:b").unwrap();
    assert_eq!((s.action, s.source.as_str()), (PipelineSourceAction::HardLink, "/mnt/a:b"));
    let s = GroupSource::parse_source("copy::x").unwrap();
    assert_eq!((s.action, s.source.as_str()), (PipelineSourceAction::Copy, ":x"));
    assert_eq!(GroupSource::parse_source("/a:copy").unwrap_err(), SourceError::InvalidAction);
    assert_eq!(GroupSource::parse_source(":copy").unwrap_err(), SourceError::InvalidAction);
    assert_eq!(GroupSource::parse_source("/home/user/Music").unwrap_err(), SourceError::MissingSeparator);
    assert_eq!(GroupSource::parse_source("move:/x").unwrap_err(), SourceError::InvalidAction);
    let s = GroupSource::parse_source("copy:").unwrap();
    assert_eq!(s.source, "");
}

#[test]
fn all_sources_or_first_error() {
    let g = GroupSource { source: vec!["copy:/a".into(), "symlink:/b".into()] };
    let v = g.get_sources().unwrap();
    assert_eq!(v.len(), 2);
    assert_eq!(v[1].source, "/b");
    let g = GroupSource { source: vec!["copy:/a".into(), "nope".into(), "bad:/c".into()] };
    assert_eq!(g.get_sources().unwrap_err(), SourceError::MissingSeparator);
    assert!(GroupSource { source: vec![] }.get_sources().unwrap().is_empty());
}

#[test]
fn source_map_later_items_win() {
    let mut m = SourceMap::new();
    assert!(m.get(SpotifyId::new(1)).is_none());
    m.add_items(
        &vec![
            ScanItem { path: "/a/1.mp3".into(), id: SpotifyId::new(1) },
            ScanItem { path: "/a/2.mp3".into(), id: SpotifyId::new(2) },
        ],
        PipelineSourceAction::Copy,
    );
    m.add_items(&vec![ScanItem { path: "/b/1.flac".into(), id: SpotifyId::new(1) }], PipelineSourceAction::HardLink);
    assert_eq!(m.get(SpotifyId::new(1)), Some((PipelineSourceAction::HardLink, "/b/1.flac".to_string())));
    assert_eq!(m.get(SpotifyId::new(2)), Some((PipelineSourceAction::Copy, "/a/2.mp3".to_string())));
    assert_eq!(m.get(SpotifyId::new(3)), None);
}
