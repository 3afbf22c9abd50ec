use vdownloader::downloader::Platform;
use vdownloader::error::SearchError;
use vdownloader::rutube::{parse_rutube_results, rutube_search_url};

#[test]
fn test_rutube_search_url_encodes_query() {
    let url = rutube_search_url("hello world", 5);
    assert_eq!(
        url,
        "https://rutube.ru/api/search/video/?query=hello%20world&page=1&per_page=5"
    );
    let plain = rutube_search_url("cats", 20);
    assert_eq!(plain, "https://rutube.ru/api/search/video/?query=cats&page=1&per_page=20");
}

#[test]
fn test_parse_rutube_results_full_record() {
    let body = r#"{"results":[{"id":"r1","title":"First","video_url":"https://rutube.ru/video/r1/","thumbnail_url":"https://pic/r1.jpg","duration":120,"author":{"name":"Author One"},"hits":777},{"id":"r2","title":"Second","video_url":"https://rutube.ru/video/r2/"}]}"#;
    let results = parse_rutube_results(body).unwrap();
    assert_eq!(results.len(), 2);

    let first = &results[0];
    assert_eq!(first.id, "r1");
    assert_eq!(first.title, "First");
    assert_eq!(first.url, "https://rutube.ru/video/r1/");
    assert_eq!(first.thumbnail, Some("https://pic/r1.jpg".to_string()));
    assert_eq!(first.duration, Some(120));
    assert_eq!(first.uploader, Some("Author One".to_string()));
    assert_eq!(first.view_count, Some(777));
    assert_eq!(first.platform, Platform::Rutube);

    let second = &results[1];
    assert_eq!(second.id, "r2");
    assert_eq!(second.thumbnail, None);
    assert_eq!(second.uploader, None);
}

#[test]
fn test_parse_rutube_results_rejects_malformed() {
    assert!(matches!(
        parse_rutube_results("not json at all"),
        Err(SearchError::JsonParseError(_))
    ));
    assert!(matches!(
        parse_rutube_results(r#"{"no_results":[]}"#),
        Err(SearchError::JsonParseError(_))
    ));
    assert!(matches!(
        parse_rutube_results(r#"{"results":[{"title":"missing id and url"}]}"#),
        Err(SearchError::JsonParseError(_))
    ));
}

#[test]
fn test_parse_rutube_results_empty_list() {
    let results = parse_rutube_results(r#"{"results":[]}"#).unwrap();
    assert!(results.is_empty());
}
