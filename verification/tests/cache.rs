use spotdl::cache::{
    image_key, is_expired, key_bucket, key_path, key_path_with_hash, resource_key, FsCacheMetadataFetcherParams,
    FsMetadataCache,
};
use spotdl::id::{Resource, SpotifyId};

#[test]
fn default_lifetimes() {
    let p = FsCacheMetadataFetcherParams::with_defaults("/c");
    assert_eq!(p.directory, "/c");
    assert_eq!(p.artist_ttl, 86400);
    assert_eq!(p.album_ttl, u64::MAX);
    assert_eq!(p.track_ttl, u64::MAX);
    assert_eq!(p.playlist_ttl, 3600);
    assert_eq!(p.image_ttl, u64::MAX);
    assert_eq!(p.ttl_for(Resource::Playlist), 3600);
    assert_eq!(p.ttl_for(Resource::Artist), 86400);
}

#[test]
fn cache_keys() {
    assert_eq!(
        resource_key(Resource::Track, SpotifyId::new(210529618261384671802826695435018259197)),
        "spotify:track:4OROzZUy6gOWN4UGQVaZMF"
    );
    // "https://i.scdn.co/image/ab67" in URL-safe base64, padded.
    assert_eq!(image_key("https://i.scdn.co/image/ab67"), "image:aHR0cHM6Ly9pLnNjZG4uY28vaW1hZ2UvYWI2Nw==");
    assert_eq!(image_key("??>"), "image:Pz8-");
    assert_eq!(image_key(""), "image:");
    assert_eq!(image_key("???"), "image:Pz8_");
    assert_eq!(image_key("a"), "image:YQ==");
    assert_eq!(image_key("ab"), "image:YWI=");
    assert_eq!(image_key("\u{ff}"), "image:w78=");
}

#[test]
fn key_files() {
    assert_eq!(key_path_with_hash("/c", "spotify:track:x", 513), "/c/1/spotify:track:x");
    assert_eq!(key_path_with_hash("/c/", "k", 255), "/c/255/k");
    let b = key_bucket("spotify:track:x");
    assert!(b < 256);
    assert_eq!(key_path("/c", "spotify:track:x"), format!("/c/{}/spotify:track:x", b));
    assert_eq!(key_bucket("spotify:track:x"), b);
}

#[test]
fn expiry() {
    assert!(!is_expired(100, 40, 60));
    assert!(is_expired(101, 40, 60));
    assert!(!is_expired(u64::MAX, 0, u64::MAX));
    assert_eq!(FsMetadataCache::expires_at(1000, 60), 1060);
    assert!(FsMetadataCache::is_live(1060, 1059));
    assert!(!FsMetadataCache::is_live(1060, 1060));
    assert_eq!(FsMetadataCache::new("/base").key_path("a/b"), "/base/a/b");
}
