use spotdl::id::{parse, parse_id, parse_uri, parse_url, IdParseError, Resource, ResourceId, SpotifyId};

const TRACK: u128 = 210529618261384671802826695435018259197;
const ARTIST: u128 = 277693937382301511230060874561273772272;
const ALBUM: u128 = 336827331458249250023371961216789761524;
const PLAYLIST: u128 = 136159921382083596677578407122072603094;

#[test]
fn ids_read_as_base62() {
    assert_eq!(parse_id("4OROzZUy6gOWN4UGQVaZMF"), Ok(SpotifyId::new(TRACK)));
    assert_eq!(parse_id("0000000000000000000000"), Ok(SpotifyId::new(0)));
    assert_eq!(parse_id("0000000000000000000001"), Ok(SpotifyId::new(1)));
    assert_eq!(parse_id("7N42dgm5tFLK9N8MT7fHC7"), Ok(SpotifyId::new(u128::MAX)));
}

#[test]
fn invalid_ids_are_refused() {
    assert_eq!(parse_id("4OROzZUy6gOWN4UGQVaZM"), Err(IdParseError));
    assert_eq!(parse_id("4OROzZUy6gOWN4UGQVaZMFF"), Err(IdParseError));
    assert_eq!(parse_id("4OROzZUy6gOWN4UGQVa-MF"), Err(IdParseError));
    assert_eq!(parse_id("7N42dgm5tFLK9N8MT7fHC8"), Err(IdParseError));
    assert_eq!(parse_id("zzzzzzzzzzzzzzzzzzzzzz"), Err(IdParseError));
    assert_eq!(parse_id(""), Err(IdParseError));
}

#[test]
fn id_text_round_trip() {
    for v in [0u128, 1, 61, 62, TRACK, ARTIST, u128::MAX] {
        let id = SpotifyId::new(v);
        let text = id.to_string();
        assert_eq!(text.len(), 22);
        assert_eq!(parse_id(&text), Ok(id));
    }
    assert_eq!(SpotifyId::new(TRACK).to_string(), "4OROzZUy6gOWN4UGQVaZMF");
    assert_eq!(SpotifyId::new(1).to_string(), "0000000000000000000001");
}

#[test]
fn uris_are_read() {
    assert_eq!(
        parse_uri("spotify:artist:6mdiAmATAx73kdxrNrnlao"),
        Ok(ResourceId::new(Resource::Artist, SpotifyId::new(ARTIST)))
    );
    assert_eq!(
        parse_uri("spotify:album:7I9Wh2IgvI3Nnr8Z1ZSWby"),
        Ok(ResourceId::new(Resource::Album, SpotifyId::new(ALBUM)))
    );
    assert_eq!(
        parse_uri("spotify:track:4OROzZUy6gOWN4UGQVaZMF"),
        Ok(ResourceId::new(Resource::Track, SpotifyId::new(TRACK)))
    );
    assert_eq!(
        parse_uri("spotify:playlist:37i9dQZEVXcL56F37CPtSC"),
        Ok(ResourceId::new(Resource::Playlist, SpotifyId::new(PLAYLIST)))
    );
    assert_eq!(
        ResourceId::from_uri("spotify:track:4OROzZUy6gOWN4UGQVaZMF"),
        Ok(ResourceId::new(Resource::Track, SpotifyId::new(TRACK)))
    );
}

#[test]
fn malformed_uris_are_refused() {
    assert_eq!(parse_uri("spotify:track"), Err(IdParseError));
    assert_eq!(parse_uri("spotify:track:4OROzZUy6gOWN4UGQVaZMF:x"), Err(IdParseError));
    assert_eq!(parse_uri("spotify:show:4OROzZUy6gOWN4UGQVaZMF"), Err(IdParseError));
    assert_eq!(parse_uri("spotify:track:4OROzZUy6gOWN4UGQ"), Err(IdParseError));
}

#[test]
fn urls_are_read() {
    assert_eq!(
        parse_url("https://open.spotify.com/artist/6mdiAmATAx73kdxrNrnlao?si=8a674ea0e87e44ca"),
        Ok(ResourceId::new(Resource::Artist, SpotifyId::new(ARTIST)))
    );
    assert_eq!(
        parse_url("https://open.spotify.com/album/7I9Wh2IgvI3Nnr8Z1ZSWby?si=WVIiAtxmRvCFhvZ3naN5OA"),
        Ok(ResourceId::new(Resource::Album, SpotifyId::new(ALBUM)))
    );
    assert_eq!(
        parse_url("https://open.spotify.com/track/4OROzZUy6gOWN4UGQVaZMF?si=d976e0d51c9c4a73"),
        Ok(ResourceId::new(Resource::Track, SpotifyId::new(TRACK)))
    );
    assert_eq!(
        parse_url("https://open.spotify.com/playlist/37i9dQZEVXcL56F37CPtSC?si=ce71f46efc434bd5"),
        Ok(ResourceId::new(Resource::Playlist, SpotifyId::new(PLAYLIST)))
    );
    assert_eq!(
        parse_url("https://open.spotify.com/track/4OROzZUy6gOWN4UGQVaZMF"),
        Ok(ResourceId::new(Resource::Track, SpotifyId::new(TRACK)))
    );
    assert_eq!(parse_url("https://open.spotify.com/track"), Err(IdParseError));
}

#[test]
fn identifiers_of_every_form() {
    let track = ResourceId::new(Resource::Track, SpotifyId::new(TRACK));
    assert_eq!(parse("spotify:track:4OROzZUy6gOWN4UGQVaZMF", None), Ok(track));
    assert_eq!(parse("https://open.spotify.com/track/4OROzZUy6gOWN4UGQVaZMF", None), Ok(track));
    assert_eq!(parse("4OROzZUy6gOWN4UGQVaZMF", Some(Resource::Track)), Ok(track));
    assert_eq!(
        parse("4OROzZUy6gOWN4UGQVaZMF", Some(Resource::Album)),
        Ok(ResourceId::new(Resource::Album, SpotifyId::new(TRACK)))
    );
    // A bare ID is ambiguous without a kind.
    assert_eq!(parse("4OROzZUy6gOWN4UGQVaZMF", None), Err(IdParseError));
    assert_eq!(parse("nonsense", Some(Resource::Track)), Err(IdParseError));
}

#[test]
fn uri_round_trip() {
    for (kind, v) in [
        (Resource::Artist, ARTIST),
        (Resource::Album, ALBUM),
        (Resource::Track, TRACK),
        (Resource::Playlist, PLAYLIST),
    ] {
        let rid = ResourceId::new(kind, SpotifyId::new(v));
        let uri = rid.to_uri();
        assert_eq!(rid.to_string(), uri);
        assert_eq!(ResourceId::from_uri(&uri), Ok(rid));
        assert_eq!(parse(&uri, None), Ok(rid));
    }
    assert_eq!(
        ResourceId::new(Resource::Playlist, SpotifyId::new(PLAYLIST)).to_uri(),
        "spotify:playlist:37i9dQZEVXcL56F37CPtSC"
    );
}

#[test]
fn resource_names() {
    assert_eq!(Resource::Artist.to_string(), "artist");
    assert_eq!(Resource::Album.to_string(), "album");
    assert_eq!(Resource::Track.to_string(), "track");
    assert_eq!(Resource::Playlist.to_string(), "playlist");
}
