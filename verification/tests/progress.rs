use spotdl::id::SpotifyId;
use spotdl::progress::{track_display_name, ProgressBar, ProgressBoard};

#[test]
fn display_names() {
    assert_eq!(track_display_name("Artist", "Album", "Title"), "Artist/Album/Title");
}

#[test]
fn workers_are_taken_and_given_back() {
    let mut board = ProgressBoard::new(2);
    let a = SpotifyId::new(1);
    let b = SpotifyId::new(2);
    let c = SpotifyId::new(3);

    let u = board.download_started(a, "A".to_string());
    assert_eq!(u.bar, ProgressBar::Download);
    assert_eq!(u.message, "Downloading A");
    assert_eq!((u.position, u.length), (Some(0), Some(100)));

    let u = board.download_finished(a).unwrap();
    assert_eq!(u.message, "Finished downloading A");
    assert_eq!(u.position, Some(100));

    let u = board.post_process_started(a, 3).unwrap();
    assert_eq!(u.bar, ProgressBar::Worker(0));
    assert_eq!(u.message, "Post-processing A");
    assert_eq!((u.position, u.length), (Some(0), Some(3)));

    board.download_started(b, "B".to_string());
    board.download_finished(b).unwrap();
    let u = board.stage_started(b, "tag", 0, 2).unwrap();
    assert_eq!(u.bar, ProgressBar::Worker(1));
    assert_eq!(u.message, "Post-processing (tag) B");
    assert_eq!((u.position, u.length), (Some(1), Some(2)));

    // Both workers are busy.
    board.download_started(c, "C".to_string());
    assert!(board.download_finished(c).is_none());

    let u = board.post_process_ended(a, false).unwrap();
    assert_eq!(u.bar, ProgressBar::Worker(0));
    assert_eq!(u.message, "Finished post-processing A");
    let u = board.download_finished(c).unwrap();
    assert_eq!(u.message, "Finished downloading C");
    assert_eq!(board.post_process_started(c, 1).unwrap().bar, ProgressBar::Worker(0));

    let u = board.post_process_ended(b, true).unwrap();
    assert_eq!(u.message, "Failed to post-process B");
    assert_eq!(u.bar, ProgressBar::Worker(1));
}

#[test]
fn unknown_tracks_get_no_update() {
    let mut board = ProgressBoard::new(1);
    let x = SpotifyId::new(9);
    assert!(board.download_finished(x).is_none());
    assert!(board.post_process_started(x, 1).is_none());
    assert!(board.post_process_ended(x, false).is_none());
}
