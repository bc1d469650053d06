use spotdl::id::{Resource, ResourceId, SpotifyId};
use spotdl::metadata::{Album, Artist, Disc, Playlist};
use spotdl::pipeline::{
    album_track_ids, artist_release_ids, first_step, playlist_track_ids, progress_due, reports_for_step, start_report,
    step_after, ExcludedSet, PostProcessReport, PostProcessStep,
};

fn rid(kind: Resource, v: u128) -> ResourceId {
    ResourceId::new(kind, SpotifyId::new(v))
}

fn album(discs: Vec<Vec<u128>>) -> Album {
    Album {
        rid: rid(Resource::Album, 100),
        name: "Album".to_string(),
        original_name: "Album".to_string(),
        version_name: String::new(),
        artists: vec![rid(Resource::Artist, 1)],
        label: "Label".to_string(),
        discs: discs
            .into_iter()
            .enumerate()
            .map(|(i, ts)| Disc {
                number: i as u32 + 1,
                tracks: ts.into_iter().map(|t| rid(Resource::Track, t)).collect(),
            })
            .collect(),
        cover: None,
    }
}

#[test]
fn artist_download_takes_albums_singles_and_compilations() {
    let artist = Artist {
        rid: rid(Resource::Artist, 1),
        name: "Artist".to_string(),
        albums: vec![rid(Resource::Album, 10), rid(Resource::Album, 11)],
        singles: vec![rid(Resource::Album, 20)],
        compilations: vec![rid(Resource::Album, 30)],
        appears_on: vec![rid(Resource::Album, 40)],
        genres: vec![],
    };
    let ids: Vec<u128> = artist_release_ids(&artist).into_iter().map(|i| i.0).collect();
    assert_eq!(ids, vec![10, 11, 20, 30]);
}

#[test]
fn album_tracks_disc_after_disc() {
    let a = album(vec![vec![1, 2], vec![], vec![3]]);
    let ids: Vec<u128> = album_track_ids(&a).into_iter().map(|i| i.0).collect();
    assert_eq!(ids, vec![1, 2, 3]);
    assert!(album_track_ids(&album(vec![])).is_empty());
}

#[test]
fn playlist_tracks_in_order() {
    let p = Playlist {
        rid: rid(Resource::Playlist, 5),
        name: "List".to_string(),
        tracks: vec![rid(Resource::Track, 9), rid(Resource::Track, 7), rid(Resource::Track, 9)],
    };
    let ids: Vec<u128> = playlist_track_ids(&p).into_iter().map(|i| i.0).collect();
    assert_eq!(ids, vec![9, 7, 9]);
}

#[test]
fn excluded_tracks_are_not_downloaded() {
    let mut ex = ExcludedSet::new();
    assert!(ex.allows_track(SpotifyId::new(1)));
    ex.insert(rid(Resource::Track, 1));
    ex.extend(&vec![rid(Resource::Track, 2), rid(Resource::Album, 3)]);
    assert!(!ex.allows_track(SpotifyId::new(1)));
    assert!(!ex.allows_track(SpotifyId::new(2)));
    // Only the track itself counts: an album with the same ID does not exclude it.
    assert!(ex.allows_track(SpotifyId::new(3)));
    assert!(ex.contains(&rid(Resource::Album, 3)));
    assert!(!ex.contains(&rid(Resource::Track, 4)));
}

#[test]
fn tracks_with_a_present_alternative_are_skipped() {
    let mut ex = ExcludedSet::new();
    ex.insert(rid(Resource::Track, 7));
    // No alternatives: only the track itself decides.
    assert!(ex.allows_track_with(SpotifyId::new(5), &vec![]));
    assert!(!ex.allows_track_with(SpotifyId::new(7), &vec![]));
    // An alternative that is already present excludes the track.
    assert!(!ex.allows_track_with(SpotifyId::new(5), &vec![rid(Resource::Track, 6), rid(Resource::Track, 7)]));
    // Alternatives that are not present do not.
    assert!(ex.allows_track_with(SpotifyId::new(5), &vec![rid(Resource::Track, 6), rid(Resource::Album, 7)]));
}

#[test]
fn stages_run_in_order_until_a_failure() {
    assert_eq!(first_step(3), PostProcessStep::RunStage(0));
    assert_eq!(first_step(0), PostProcessStep::Finished);
    assert_eq!(step_after(0, 3, true), PostProcessStep::RunStage(1));
    assert_eq!(step_after(1, 3, true), PostProcessStep::RunStage(2));
    assert_eq!(step_after(2, 3, true), PostProcessStep::Finished);
    assert_eq!(step_after(1, 3, false), PostProcessStep::Failed);
    assert_eq!(step_after(2, 3, false), PostProcessStep::Failed);
}

#[test]
fn progress_reports_after_ten_thousand_samples() {
    assert!(!progress_due(10_000, 0));
    assert!(progress_due(10_001, 0));
    assert!(!progress_due(20_000, 10_000));
}

#[test]
fn postprocess_reports_of_a_failing_run() {
    // Three stages; the second fails.
    let n = 3;
    let mut reports = vec![start_report(n)];
    let mut step = first_step(n);
    loop {
        reports.extend(reports_for_step(step, n));
        match step {
            PostProcessStep::RunStage(i) => step = step_after(i, n, i != 1),
            _ => break,
        }
    }
    assert_eq!(
        reports,
        vec![
            PostProcessReport::Started(3),
            PostProcessReport::Progress(0, 3),
            PostProcessReport::Progress(1, 3),
            PostProcessReport::Failed,
            PostProcessReport::Finished,
        ]
    );
    assert_eq!(reports_for_step(first_step(0), 0), vec![PostProcessReport::Finished]);
}
