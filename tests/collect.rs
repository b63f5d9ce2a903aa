use vsd::collect::{file_path, handles_response, is_kept, response_bytes, Collect};

#[test]
fn keeps_playlists_and_subtitles() {
    assert!(is_kept("https://example.com/a/master.m3u8?token=abc"));
    assert!(is_kept("https://example.com/manifest.mpd"));
    assert!(is_kept("https://example.com/subs/en.vtt"));
    assert!(is_kept("https://example.com/subs/en.srt?x=.mp4"));
    assert!(is_kept("https://example.com/list.m3u"));
    assert!(!is_kept("https://example.com/video.mp4"));
    assert!(!is_kept("https://example.com/video.mp4?name=a.m3u8"));
    assert!(!is_kept(""));
}

#[test]
fn handles_only_script_requests() {
    assert!(handles_response(true, "https://example.com/master.m3u8"));
    assert!(!handles_response(false, "https://example.com/master.m3u8"));
    assert!(!handles_response(true, "https://example.com/index.html"));
}

#[test]
fn file_path_first_attempt() {
    assert_eq!(file_path("https://example.com/a/master.m3u8?token=abc", 0), "vsd_collect_master.m3u8");
    assert_eq!(file_path("https://example.com/sub:en|x.vtt", 0), "vsd_collect_sub_en_x.vtt");
}

#[test]
fn file_path_later_attempts() {
    assert_eq!(file_path("https://example.com/master.m3u8", 1), "vsd_collect_master_(1).m3u8");
    assert_eq!(file_path("https://example.com/master.m3u8", 1234), "vsd_collect_master_(1234).m3u8");
}

#[test]
fn file_path_without_extension() {
    assert_eq!(file_path("https://example.com/playlist", 0), "vsd_collect_playlist.undefined");
    assert_eq!(file_path("https://example.com/", 0), "vsd_collect_.undefined");
    assert_eq!(file_path("https://example.com/.hidden", 0), "vsd_collect_.hidden.undefined");
    assert_eq!(file_path("https://example.com/a.tar.gz", 0), "vsd_collect_a.tar.gz");
}

#[test]
fn body_plain_and_base64() {
    assert_eq!(response_bytes("#EXTM3U", false), Some(b"#EXTM3U".to_vec()));
    assert_eq!(response_bytes("Zm9vYmFy", true), Some(b"foobar".to_vec()));
    assert_eq!(response_bytes("Zg==", true), Some(b"f".to_vec()));
    assert_eq!(response_bytes("", true), Some(Vec::new()));
    assert_eq!(response_bytes("@@@@", true), None);
}

#[test]
fn collect_options() {
    let c = Collect::new("https://example.com".to_string(), None, true);
    assert_eq!(c.url, "https://example.com");
    assert_eq!(c.directory, None);
    assert!(c.headless);
}
