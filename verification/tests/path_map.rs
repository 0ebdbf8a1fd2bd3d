use immich_cli::config::PathMapEntry;
use immich_cli::path_map::{joined_path, reverse_translate, strip_path_prefix, translate};

fn entry(server: &str, local: &str) -> PathMapEntry {
    PathMapEntry {
        server: server.into(),
        local: local.into(),
    }
}

#[test]
fn simple_translation() {
    let m = vec![entry("/mnt/qnap-photos", "/home/u/QNAP-Photos")];
    let got = translate("/mnt/qnap-photos/Family/2025/img.jpg", &m).unwrap();
    assert_eq!(got, String::from("/home/u/QNAP-Photos/Family/2025/img.jpg"));
}

#[test]
fn no_partial_segment_match() {
    let m = vec![entry("/mnt/qnap-photos", "/local")];
    assert!(translate("/mnt/qnap-photos-extra/img.jpg", &m).is_none());
}

#[test]
fn first_match_wins() {
    let m = vec![
        entry("/mnt/qnap-photos/Family", "/local/family"),
        entry("/mnt/qnap-photos", "/local/all"),
    ];
    let got = translate("/mnt/qnap-photos/Family/x.jpg", &m).unwrap();
    assert_eq!(got, String::from("/local/family/x.jpg"));
}

#[test]
fn unmapped_returns_none() {
    let m = vec![entry("/mnt/qnap-photos", "/local")];
    assert!(translate("/elsewhere/x.jpg", &m).is_none());
}

#[test]
fn reverse_simple() {
    let m = vec![entry("/mnt/qnap-photos", "/home/u/QNAP-Photos")];
    let got = reverse_translate("/home/u/QNAP-Photos/Family/2018/x.jpg", &m).unwrap();
    assert_eq!(got, "/mnt/qnap-photos/Family/2018/x.jpg");
}

#[test]
fn reverse_no_partial_segment_match() {
    // Same boundary rule as forward translate: `/home/u/QNAP-Photos` must
    // not match `/home/u/QNAP-Photos-extra/...`.
    let m = vec![entry("/mnt/q", "/home/u/QNAP-Photos")];
    assert!(reverse_translate("/home/u/QNAP-Photos-extra/x.jpg", &m).is_none());
}

#[test]
fn reverse_first_match_wins() {
    let m = vec![
        entry("/mnt/q/family", "/home/u/Photos/family"),
        entry("/mnt/q", "/home/u/Photos"),
    ];
    let got = reverse_translate("/home/u/Photos/family/x.jpg", &m).unwrap();
    assert_eq!(got, "/mnt/q/family/x.jpg");
}

#[test]
fn reverse_unmapped_returns_none() {
    let m = vec![entry("/mnt/q", "/home/u/Photos")];
    assert!(reverse_translate("/somewhere/else/x.jpg", &m).is_none());
}

#[test]
fn reverse_handles_unicode_segments() {
    // Ensure unicode path segments round-trip unchanged.
    let m = vec![entry("/mnt/qnap-photos", "/home/u/QNAP-Photos")];
    let got =
        reverse_translate("/home/u/QNAP-Photos/Family/2018年/IMG_20180908.jpg", &m).unwrap();
    assert_eq!(got, "/mnt/qnap-photos/Family/2018年/IMG_20180908.jpg");
}

#[test]
fn a_prefix_matches_itself() {
    let m = vec![entry("/mnt/a", "/local")];
    assert_eq!(translate("/mnt/a", &m).unwrap(), "/local");
    assert_eq!(reverse_translate("/local", &m).unwrap(), "/mnt/a");
}

#[test]
fn a_prefix_ends_at_a_component() {
    assert_eq!(strip_path_prefix("/a/b/c", "/a/b"), Some("/c"));
    assert_eq!(strip_path_prefix("/a/b", "/a/b"), Some(""));
    assert_eq!(strip_path_prefix("/a/bc", "/a/b"), None);
    assert_eq!(strip_path_prefix("/a/b", "/a/b/c"), None);
    assert_eq!(strip_path_prefix("x", ""), None);
    assert_eq!(strip_path_prefix("/x", ""), Some("/x"));
}

#[test]
fn joining_starts_anew_at_an_absolute_path() {
    assert_eq!(joined_path("/a", "b"), "/a/b");
    assert_eq!(joined_path("/a/", "b"), "/a/b");
    assert_eq!(joined_path("/a", "/b"), "/b");
    assert_eq!(joined_path("", "b"), "b");
}

#[test]
fn translating_there_and_back_is_the_identity() {
    let m = vec![entry("/mnt/q", "/home/u/Photos")];
    let there = translate("/mnt/q/2020/x.jpg", &m).unwrap();
    assert_eq!(there, "/home/u/Photos/2020/x.jpg");
    assert_eq!(reverse_translate(&there, &m).unwrap(), "/mnt/q/2020/x.jpg");
}
