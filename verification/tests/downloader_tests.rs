use vdownloader::downloader::{
    classify_metadata_failure, fallback_file_path, first_new_file, is_media_file_path,
    output_template, parse_progress_line, Platform, VideoDownloader,
};
use vdownloader::error::DownloadError;

#[test]
fn downloader_test_detect_platform_youtube() {
    assert!(matches!(
        VideoDownloader::detect_platform("https://www.youtube.com/watch?v=abc123"),
        Platform::YouTube
    ));
    assert!(matches!(
        VideoDownloader::detect_platform("https://youtu.be/abc123"),
        Platform::YouTube
    ));
}

#[test]
fn test_detect_platform_tiktok() {
    assert!(matches!(
        VideoDownloader::detect_platform("https://www.tiktok.com/@user/video/123"),
        Platform::TikTok
    ));
}

#[test]
fn test_detect_platform_twitter() {
    assert!(matches!(
        VideoDownloader::detect_platform("https://twitter.com/user/status/123"),
        Platform::Twitter
    ));
    assert!(matches!(
        VideoDownloader::detect_platform("https://x.com/user/status/123"),
        Platform::Twitter
    ));
}

#[test]
fn test_detect_platform_is_deterministic() {
    let url = "https://vkvideo.ru/video-1_2";
    let first = VideoDownloader::detect_platform(url);
    let second = VideoDownloader::detect_platform(url);
    assert_eq!(first, second);
    assert_eq!(first, Platform::Vk);
    assert_eq!(
        VideoDownloader::detect_platform("https://example.org/clip"),
        Platform::Other
    );
}

#[test]
fn test_validate_url_valid() {
    assert!(VideoDownloader::validate_url("https://www.youtube.com/watch?v=abc123").is_ok());
    assert!(VideoDownloader::validate_url("http://example.com/video").is_ok());
}

#[test]
fn test_validate_url_invalid() {
    assert!(VideoDownloader::validate_url("").is_err());
    assert!(VideoDownloader::validate_url("not-a-url").is_err());
    assert!(VideoDownloader::validate_url("ftp://example.com/video").is_err());
    let long_url = format!("https://{}", "a".repeat(2100));
    assert!(VideoDownloader::validate_url(&long_url).is_err());
}

#[test]
fn test_validate_url_length_boundary() {
    let exactly = format!("https://{}", "a".repeat(2040));
    assert_eq!(exactly.len(), 2048);
    assert!(VideoDownloader::validate_url(&exactly).is_ok());
    let over = format!("https://{}", "a".repeat(2041));
    assert!(VideoDownloader::validate_url(&over).is_err());
}

#[test]
fn test_sanitize_url_vk() {
    let url = "https://vkvideo.ru/playlist/-220754053_3/video-220754053_456244420?linked=1";
    let sanitized = VideoDownloader::sanitize_url(url);
    assert_eq!(sanitized, "https://vk.com/video-220754053_456244420");

    let url_simple = "https://vk.com/video-220754053_456244420";
    let sanitized_simple = VideoDownloader::sanitize_url(url_simple);
    assert_eq!(sanitized_simple, "https://vk.com/video-220754053_456244420");

    let url_no_video = "https://vkvideo.ru/playlist/-220754053_3";
    let sanitized_no_video = VideoDownloader::sanitize_url(url_no_video);
    assert_eq!(sanitized_no_video, url_no_video);
}

#[test]
fn test_sanitize_url_dzen() {
    let url = "https://dzen.ru/video/watch/634b04f2596d3e28c83c233e?rid=12345&referrer_clid=1400";
    let sanitized = VideoDownloader::sanitize_url(url);
    assert_eq!(sanitized, "https://dzen.ru/video/watch/634b04f2596d3e28c83c233e");

    let url_clean = "https://dzen.ru/video/watch/634b04f2596d3e28c83c233e";
    let sanitized_clean = VideoDownloader::sanitize_url(url_clean);
    assert_eq!(sanitized_clean, url_clean);
}

#[test]
fn test_sanitize_is_idempotent_on_examples() {
    let inputs = [
        "https://vkvideo.ru/playlist/-220754053_3/video-220754053_456244420?linked=1",
        "https://dzen.ru/video/watch/634b04f2596d3e28c83c233e?rid=1",
        "https://www.youtube.com/watch?v=abc",
    ];
    for url in inputs {
        let once = VideoDownloader::sanitize_url(url);
        let twice = VideoDownloader::sanitize_url(&once);
        assert_eq!(once, twice);
    }
}

#[test]
fn test_prepare_url_sanitizes_then_validates() {
    let prepared = VideoDownloader::prepare_url(
        "https://vkvideo.ru/playlist/-1_3/video-1_24?linked=1",
    )
    .unwrap();
    assert_eq!(prepared, "https://vk.com/video-1_24");
    assert!(VideoDownloader::prepare_url("no scheme here").is_err());
}

#[test]
fn test_parse_progress_line_values() {
    let line = "[download]  45.0% of 10.00MiB at 2.00MiB/s ETA 00:05";
    assert_eq!(parse_progress_line(line), Some(450));
    assert_eq!(parse_progress_line("[download] 100.0% of 3MiB"), Some(1000));
    assert_eq!(parse_progress_line("[download] 7% of 3MiB"), Some(70));
    assert_eq!(parse_progress_line("[download] 12.34% done"), Some(123));
}

#[test]
fn test_parse_progress_line_rejects_other_lines() {
    assert_eq!(parse_progress_line("[info] writing metadata"), None);
    assert_eq!(parse_progress_line("[download] Destination: a.mp4"), None);
    assert_eq!(parse_progress_line("45.0% of something"), None);
    assert_eq!(parse_progress_line(""), None);
}

#[test]
fn test_is_media_file_path() {
    assert!(is_media_file_path("/tmp/video.mp4"));
    assert!(is_media_file_path("clip.mkv"));
    assert!(is_media_file_path("clip.webm"));
    assert!(!is_media_file_path("/tmp/videos"));
    assert!(!is_media_file_path("notes.txt"));
}

#[test]
fn test_output_template() {
    assert_eq!(output_template("/tmp/out.mp4"), "/tmp/out.mp4");
    assert_eq!(output_template("/tmp/videos"), "/tmp/videos/%(title)s.%(ext)s");
}

#[test]
fn test_fallback_file_path() {
    assert_eq!(fallback_file_path("/tmp/videos", "clip", "mp4"), "/tmp/videos/clip.mp4");
}

#[test]
fn test_first_new_file_diff() {
    let before = vec!["a.mp4".to_string(), "b.mp4".to_string()];
    let after = vec!["a.mp4".to_string(), "c.mp4".to_string(), "b.mp4".to_string()];
    assert_eq!(first_new_file(&before, &after), Some("c.mp4".to_string()));
    let unchanged = vec!["a.mp4".to_string(), "b.mp4".to_string()];
    assert_eq!(first_new_file(&before, &unchanged), None);
}

#[test]
fn test_classify_metadata_failure() {
    let gone = classify_metadata_failure("ERROR: Video unavailable", "https://x.com/v");
    match gone {
        DownloadError::DownloadFailed(m) => assert_eq!(m, "Video not found or unavailable"),
        _ => panic!("Expected DownloadFailed"),
    }
    let net = classify_metadata_failure("Network is unreachable", "https://x.com/v");
    match net {
        DownloadError::DownloadFailed(m) => assert_eq!(m, "Network is unreachable"),
        _ => panic!("Expected DownloadFailed"),
    }
    let dzen = classify_metadata_failure(
        "KeyError in exportResponse handler",
        "https://dzen.ru/a/abc",
    );
    match dzen {
        DownloadError::DownloadFailed(m) => {
            assert!(m.contains("direct video URLs"));
        },
        _ => panic!("Expected DownloadFailed"),
    }
    let other = classify_metadata_failure("something odd", "https://x.com/v");
    match other {
        DownloadError::DownloadFailed(m) => assert_eq!(m, "something odd"),
        _ => panic!("Expected DownloadFailed"),
    }
}

#[test]
fn test_output_directory_is_kept() {
    let d = VideoDownloader::new("/tmp/videos".to_string());
    assert_eq!(d.get_output_directory(), "/tmp/videos");
}
