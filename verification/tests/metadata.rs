use spotdl::metadata::{best_cover, cover_url, CoverCandidate};
use spotdl::session::{LoginError, SessionError};

fn cover(id: &str, w: i32, h: i32) -> CoverCandidate {
    CoverCandidate { file_id: id.to_string(), width: w, height: h }
}

#[test]
fn largest_cover_wins() {
    let covers = vec![cover("small", 64, 64), cover("big", 640, 640), cover("mid", 300, 300), cover("big2", 640, 640)];
    assert_eq!(best_cover(&covers), Some("big".to_string()));
    assert_eq!(best_cover(&vec![]), None);
    assert_eq!(best_cover(&vec![cover("empty", 0, 10)]), None);
    assert_eq!(cover_url("ab67616d0000b273"), "https://i.scdn.co/image/ab67616d0000b273");
}

#[test]
fn error_texts() {
    assert_eq!(LoginError.to_string(), "Login failed");
    assert_eq!(SessionError("timeout".to_string()).to_string(), "Session error: timeout");
}
