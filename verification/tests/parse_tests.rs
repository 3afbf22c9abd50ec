use vdownloader::downloader::Platform;
use vdownloader::error::SearchError;
use vdownloader::metadata::{parse_search_results, parse_single_result};

fn sample_yt_dlp_output() -> &'static str {
    r#"{"id":"dQw4w9WgXcQ","title":"Rick Astley - Never Gonna Give You Up","webpage_url":"https://www.youtube.com/watch?v=dQw4w9WgXcQ","duration":213,"view_count":1000000,"uploader":"Rick Astley","extractor":"youtube","thumbnails":[{"url":"https://i.ytimg.com/vi/dQw4w9WgXcQ/hqdefault.jpg"}]}
{"id":"7195700970146909482","title":"Sample TikTok","webpage_url":"https://www.tiktok.com/@sample/video/7195700970146909482","duration":34,"view_count":2500,"channel":"Sample Creator","extractor":"tiktok"}"#
}

#[test]
fn test_parse_recorded_output() {
    let results = parse_search_results(sample_yt_dlp_output().as_bytes()).unwrap();
    assert_eq!(results.len(), 2);

    let first = &results[0];
    assert_eq!(first.id, "dQw4w9WgXcQ");
    assert_eq!(first.title, "Rick Astley - Never Gonna Give You Up");
    assert_eq!(first.url, "https://www.youtube.com/watch?v=dQw4w9WgXcQ");
    assert_eq!(first.duration, Some(213));
    assert_eq!(first.uploader, Some("Rick Astley".to_string()));
    assert_eq!(first.view_count, Some(1_000_000));
    assert!(matches!(first.platform, Platform::YouTube));
    assert_eq!(
        first.thumbnail.as_deref(),
        Some("https://i.ytimg.com/vi/dQw4w9WgXcQ/hqdefault.jpg")
    );

    let second = &results[1];
    assert_eq!(second.id, "7195700970146909482");
    assert_eq!(second.platform, Platform::TikTok);
    assert_eq!(second.url, "https://www.tiktok.com/@sample/video/7195700970146909482");
    assert_eq!(second.uploader, Some("Sample Creator".to_string()));
}

#[test]
fn test_parse_multiple_results() {
    let json_output = r#"{"id":"video1","title":"First Video","url":"https://www.youtube.com/watch?v=video1","extractor":"youtube"}
{"id":"video2","title":"Second Video","url":"https://www.youtube.com/watch?v=video2","extractor":"youtube"}"#;

    let results = parse_search_results(json_output.as_bytes()).unwrap();
    assert_eq!(results.len(), 2);
    assert_eq!(results[0].id, "video1");
    assert_eq!(results[1].id, "video2");
}

#[test]
fn test_parse_optional_fields() {
    let json_line = r#"{"id":"test123","title":"Test Video","url":"https://www.youtube.com/watch?v=test123","extractor":"youtube"}"#;

    let results = parse_search_results(json_line.as_bytes()).unwrap();
    assert_eq!(results.len(), 1);

    let result = &results[0];
    assert_eq!(result.id, "test123");
    assert_eq!(result.title, "Test Video");
    assert_eq!(result.thumbnail, None);
    assert_eq!(result.duration, None);
    assert_eq!(result.uploader, None);
    assert_eq!(result.view_count, None);
}

#[test]
fn test_parse_missing_required_field() {
    let json_line = r#"{"title":"Missing ID Video","url":"https://www.youtube.com/watch?v=test"}"#;

    let results = parse_search_results(json_line.as_bytes()).unwrap();
    assert_eq!(results.len(), 0);

    let parse_result = parse_single_result(json_line);
    assert!(matches!(parse_result, Err(SearchError::JsonParseError(_))));
}

#[test]
fn test_parse_invalid_json() {
    let invalid_json = r#"{"id":"test","title":"Test" INVALID}"#;

    let err = parse_single_result(invalid_json).unwrap_err();
    assert!(matches!(err, SearchError::JsonParseError(_)));
}

#[test]
fn test_parse_empty_output() {
    let results = parse_search_results(b"").unwrap();
    assert_eq!(results.len(), 0);

    let results = parse_search_results(b"\n\n\n").unwrap();
    assert_eq!(results.len(), 0);
}

#[test]
fn test_parse_mixed_valid_invalid() {
    let json_output = r#"{"id":"valid1","title":"Valid Video","url":"https://www.youtube.com/watch?v=valid1","extractor":"youtube"}
INVALID JSON LINE
{"id":"valid2","title":"Another Valid","url":"https://www.youtube.com/watch?v=valid2","extractor":"youtube"}
{"title":"Missing ID"}"#;

    let results = parse_search_results(json_output.as_bytes()).unwrap();
    assert_eq!(results.len(), 2);
    assert_eq!(results[0].id, "valid1");
    assert_eq!(results[1].id, "valid2");
}

#[test]
fn test_parse_url_fallback() {
    let json_line = r#"{"id":"dQw4w9WgXcQ","title":"Test Video","extractor":"youtube"}"#;

    let results = parse_search_results(json_line.as_bytes()).unwrap();
    assert_eq!(results.len(), 1);
    assert!(results[0].url.contains("dQw4w9WgXcQ"));
}

#[test]
fn test_parse_webpage_url() {
    let json_line = r#"{"id":"test","title":"Test","webpage_url":"https://www.youtube.com/watch?v=test","extractor":"youtube"}"#;

    let results = parse_search_results(json_line.as_bytes()).unwrap();
    assert_eq!(results.len(), 1);
    assert_eq!(results[0].url, "https://www.youtube.com/watch?v=test");
}

#[test]
fn test_parse_thumbnail_array() {
    let json_line = r#"{"id":"test","title":"Test","url":"https://www.youtube.com/watch?v=test","thumbnails":[{"url":"https://example.com/thumb.jpg"}],"extractor":"youtube"}"#;

    let results = parse_search_results(json_line.as_bytes()).unwrap();
    assert_eq!(results.len(), 1);
    assert_eq!(results[0].thumbnail, Some("https://example.com/thumb.jpg".to_string()));
}

#[test]
fn test_parse_channel_instead_of_uploader() {
    let json_line = r#"{"id":"test","title":"Test","url":"https://www.youtube.com/watch?v=test","channel":"Channel Name","extractor":"youtube"}"#;

    let results = parse_search_results(json_line.as_bytes()).unwrap();
    assert_eq!(results.len(), 1);
    assert_eq!(results[0].uploader, Some("Channel Name".to_string()));
}

#[test]
fn test_parse_fractional_duration_is_truncated() {
    let json_line = r#"{"id":"t","title":"T","url":"https://example.com/v","duration":34.9}"#;
    let results = parse_search_results(json_line.as_bytes()).unwrap();
    assert_eq!(results.len(), 1);
    assert_eq!(results[0].duration, Some(34));
}
