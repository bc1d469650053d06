use spotdl::id::{Resource, ResourceId, SpotifyId};
use spotdl::manifest::{Manifest, ManifestFault};

fn rid(kind: Resource, v: u128) -> ResourceId {
    ResourceId::new(kind, SpotifyId::new(v))
}

const ALBUM: u128 = 327732980618474527307871655497715418481;
const PLAYLIST: u128 = 315556504412048584577702363052808274611;

#[test]
fn manifest_text_is_read() {
    let text = "spotify:album:7vfuTRXIAYJz5Uc8SddnTr Some Artist - Some Album\r\nspotify:playlist:7dXMxn9chL56TWB31fa33J My list\n";
    let m = Manifest::parse(text).unwrap();
    let es = m.entries();
    assert_eq!(es.len(), 2);
    assert_eq!(es[0].resource_id, rid(Resource::Album, ALBUM));
    assert_eq!(es[0].description, "Some Artist - Some Album");
    assert_eq!(es[1].resource_id, rid(Resource::Playlist, PLAYLIST));
    assert_eq!(es[1].description, "My list");
    assert_eq!(m.resource_ids(), vec![rid(Resource::Album, ALBUM), rid(Resource::Playlist, PLAYLIST)]);
}

#[test]
fn empty_manifest_text() {
    assert_eq!(Manifest::parse("").unwrap().entries().len(), 0);
}

#[test]
fn manifest_line_without_space_is_refused() {
    let e = Manifest::parse("spotify:album:7vfuTRXIAYJz5Uc8SddnTr\n").unwrap_err();
    assert_eq!(e.fault, ManifestFault::MissingSeparator);
    assert_eq!(e.text, "spotify:album:7vfuTRXIAYJz5Uc8SddnTr");
}

#[test]
fn manifest_line_with_bad_uri_is_refused() {
    let e = Manifest::parse("spotify:album:7vfuTRXIAYJz5Uc8SddnTr ok\nspotify:bogus desc\n").unwrap_err();
    assert_eq!(e.fault, ManifestFault::InvalidUri);
    assert_eq!(e.text, "spotify:bogus");
}

#[test]
fn manifest_text_round_trip() {
    let mut m = Manifest::new();
    m.add(rid(Resource::Album, ALBUM), "Artist - Album".to_string());
    m.add(rid(Resource::Playlist, PLAYLIST), "list with spaces".to_string());
    let text = m.to_text();
    assert_eq!(
        text,
        "spotify:album:7vfuTRXIAYJz5Uc8SddnTr Artist - Album\nspotify:playlist:7dXMxn9chL56TWB31fa33J list with spaces\n"
    );
    let back = Manifest::parse(&text).unwrap();
    assert_eq!(back.resource_ids(), m.resource_ids());
    assert_eq!(back.entries()[1].description, "list with spaces");
}

#[test]
fn manifest_add_contains_remove() {
    let a = rid(Resource::Album, ALBUM);
    let p = rid(Resource::Playlist, PLAYLIST);
    let mut m = Manifest::new();
    assert!(!m.contains(&a));
    m.add(a, "first".to_string());
    m.add(p, "second".to_string());
    m.add(a, "again".to_string());
    assert!(m.contains(&a));
    assert!(m.contains(&p));
    m.remove(&a);
    assert!(!m.contains(&a));
    assert_eq!(m.resource_ids(), vec![p]);
    assert_eq!(m.entries()[0].description, "second");
}
