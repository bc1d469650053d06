use spotdl::id::SpotifyId;
use spotdl::scan::ScanItem;
use spotdl::watch::{contains_response, frame_length, frame_request, list_response, Watcher};

#[test]
fn watcher_tracks_files() {
    let mut w = Watcher::new();
    let a = SpotifyId::new(1);
    let b = SpotifyId::new(2);
    w.add_items(vec![
        ScanItem { path: "/m/a.mp3".to_string(), id: a },
        ScanItem { path: "/m/b.mp3".to_string(), id: b },
    ]);
    assert!(w.contains(a));
    assert!(w.contains(b));
    assert!(!w.contains(SpotifyId::new(3)));

    // A changed file with another ID replaces the old one.
    assert_eq!(w.file_changed("/m/a.mp3".to_string(), Some(SpotifyId::new(3))), None);
    assert!(!w.contains(a));
    assert!(w.contains(SpotifyId::new(3)));

    // A changed file without an ID leaves the index.
    assert_eq!(w.file_changed("/m/b.mp3".to_string(), None), Some(b));
    assert!(!w.contains(b));
    assert_eq!(w.remove("/m/b.mp3"), None);
    assert_eq!(w.remove("/m/a.mp3"), Some(SpotifyId::new(3)));
    assert!(w.list().is_empty());
}

#[test]
fn watcher_lists_each_file_once() {
    let mut w = Watcher::new();
    w.insert("/x".to_string(), SpotifyId::new(1));
    w.insert("/y".to_string(), SpotifyId::new(1));
    w.insert("/x".to_string(), SpotifyId::new(2));
    let mut items: Vec<(String, u128)> = w.list().into_iter().map(|i| (i.path, i.id.0)).collect();
    items.sort();
    assert_eq!(items, vec![("/x".to_string(), 2), ("/y".to_string(), 1)]);
}

#[test]
fn request_frames() {
    let payload = b"\"List\"".to_vec();
    let frame = frame_request(&payload);
    assert_eq!(frame[..2], [0u8, 6u8]);
    assert_eq!(frame[2..], payload[..]);
    assert_eq!(frame_length(frame[0], frame[1]), 6);
    let big = vec![7u8; 300];
    let f = frame_request(&big);
    assert_eq!((f[0], f[1]), (1, 44));
    assert_eq!(frame_length(1, 44), 300);
    assert_eq!(f.len(), 302);
}

#[test]
fn answers() {
    let items = vec![
        ScanItem { path: "/m/a.mp3".to_string(), id: SpotifyId::new(210529618261384671802826695435018259197) },
        ScanItem { path: "/m/b c.mp3".to_string(), id: SpotifyId::new(1) },
    ];
    assert_eq!(
        list_response(&items),
        "4OROzZUy6gOWN4UGQVaZMF /m/a.mp3\n0000000000000000000001 /m/b c.mp3\n"
    );
    assert_eq!(list_response(&vec![]), "");
    assert_eq!(contains_response(true), 1);
    assert_eq!(contains_response(false), 0);
}
