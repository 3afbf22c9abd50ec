use vdownloader::downloader::Platform;
use vdownloader::error::SearchError;
use vdownloader::search::{
    detect_platform_from_metadata, interpret_command_failure, is_rate_limit_message,
    map_spawn_error, merge_results, platform_from_hint, SearchPlan, SearchResult, SearchService,
};

#[test]
fn search_test_detect_platform_youtube() {
    let platform = detect_platform_from_metadata(
        Some("youtube"),
        None,
        "https://www.youtube.com/watch?v=test",
    );
    assert!(matches!(platform, Platform::YouTube));
}

#[test]
fn test_detect_platform_from_url_fallback() {
    let platform = detect_platform_from_metadata(None, None, "https://twitter.com/user/status/123");
    assert!(matches!(platform, Platform::Twitter));
}

#[test]
fn test_detect_platform_vk() {
    let platform = detect_platform_from_metadata(Some("vk"), None, "https://vk.com/video123");
    assert!(matches!(platform, Platform::Vk));
}

#[test]
fn test_platform_from_hint_is_case_insensitive() {
    assert_eq!(platform_from_hint("YouTube:Search"), Some(Platform::YouTube));
    assert_eq!(platform_from_hint("TIKTOK"), Some(Platform::TikTok));
    assert_eq!(platform_from_hint("unknown-extractor"), None);
}

#[test]
fn test_interpret_command_failure_rate_limit() {
    let stderr = "ERROR: HTTP Error 429: Too Many Requests";
    let err = interpret_command_failure(stderr, Some(1));
    assert!(matches!(err, SearchError::RateLimited(_)));
}

#[test]
fn test_interpret_command_failure_generic() {
    let stderr = "ERROR: Something unexpected";
    let err = interpret_command_failure(stderr, Some(1));
    match err {
        SearchError::CommandFailed(message) => {
            assert!(message.contains("exit code 1"));
            assert!(message.contains("Something unexpected"));
        },
        _ => panic!("Expected CommandFailed variant"),
    }
}

#[test]
fn test_interpret_command_failure_signal() {
    let err = interpret_command_failure("killed", None);
    match err {
        SearchError::CommandFailed(message) => {
            assert_eq!(message, "terminated by signal: killed");
        },
        _ => panic!("Expected CommandFailed variant"),
    }
}

#[test]
fn test_rate_limit_detection_is_case_insensitive() {
    assert!(is_rate_limit_message("HTTP Error 429"));
    assert!(is_rate_limit_message("server said: TOO MANY REQUESTS"));
    assert!(is_rate_limit_message("Rate Limit reached"));
    assert!(is_rate_limit_message("Response code: 429"));
    assert!(!is_rate_limit_message("ERROR: Something unexpected"));
    let err = interpret_command_failure("upstream: ToO mAnY rEqUeStS", Some(2));
    assert!(matches!(err, SearchError::RateLimited(_)));
}

#[test]
fn test_map_spawn_error_variants() {
    assert!(matches!(map_spawn_error(true, "no such file"), SearchError::MissingYtDlp));
    match map_spawn_error(false, "permission denied") {
        SearchError::IoError(m) => assert_eq!(m, "permission denied"),
        _ => panic!("Expected IoError variant"),
    }
}

#[test]
fn test_search_service_creation() {
    let service = SearchService::new(0);
    assert_eq!(service.default_limit(), 1);

    let service = SearchService::new(10);
    assert_eq!(service.default_limit(), 10);
}

#[test]
fn test_search_empty_query() {
    let service = SearchService::new(10);
    let result = service.plan_search("", None);

    assert!(result.is_err());
    match result.unwrap_err() {
        SearchError::InvalidQuery(_) => {},
        _ => panic!("Expected InvalidQuery error"),
    }
}

#[test]
fn test_search_whitespace_query() {
    let service = SearchService::new(10);
    let result = service.plan_search("   ", None);

    assert!(result.is_err());
    match result.unwrap_err() {
        SearchError::InvalidQuery(_) => {},
        _ => panic!("Expected InvalidQuery error"),
    }
}

#[test]
fn test_url_heuristic() {
    let service = SearchService::new(10);

    match service.plan_search("funny cats", None).unwrap() {
        SearchPlan::Keyword { rutube_query, youtube_expr, .. } => {
            assert_eq!(rutube_query, "funny cats");
            assert_eq!(youtube_expr, "ytsearch10:funny cats");
        },
        _ => panic!("whitespace query must stay a keyword search"),
    }

    match service.plan_search("tiktok.com/@user/video", None).unwrap() {
        SearchPlan::Url { url, .. } => assert_eq!(url, "https://tiktok.com/@user/video"),
        _ => panic!("dotted query must be completed to a URL"),
    }

    match service.plan_search("https://youtube.com", None).unwrap() {
        SearchPlan::Url { url, .. } => assert_eq!(url, "https://youtube.com"),
        _ => panic!("schemed URL must stay a URL"),
    }

    match service.plan_search("example.com", None).unwrap() {
        SearchPlan::Url { url, .. } => assert_eq!(url, "https://example.com"),
        _ => panic!("bare domain must be completed to a URL"),
    }

    match service.plan_search("word", None).unwrap() {
        SearchPlan::Keyword { rutube_query, .. } => assert_eq!(rutube_query, "word"),
        _ => panic!("dotless query must stay a keyword search"),
    }
}

#[test]
fn test_plan_search_rejects_overlong_url() {
    let service = SearchService::new(10);
    let query = format!("https://{}", "a".repeat(2100));
    match service.plan_search(&query, None) {
        Err(SearchError::InvalidQuery(_)) => {},
        _ => panic!("an overlong schemed URL must not reach the keyword fan-out"),
    }
}

#[test]
fn test_plan_search_limit_resolution() {
    let service = SearchService::new(7);
    match service.plan_search("kittens", Some(3)).unwrap() {
        SearchPlan::Keyword { youtube_expr, limit, .. } => {
            assert_eq!(limit, 3);
            assert_eq!(youtube_expr, "ytsearch3:kittens");
        },
        _ => panic!("expected keyword plan"),
    }
    match service.plan_search("kittens", Some(0)).unwrap() {
        SearchPlan::Keyword { limit, .. } => assert_eq!(limit, 7),
        _ => panic!("expected keyword plan"),
    }
}

fn result(platform: Platform, id: &str, url: &str) -> SearchResult {
    SearchResult {
        id: id.to_string(),
        title: format!("title {}", id),
        url: url.to_string(),
        thumbnail: None,
        duration: None,
        uploader: None,
        view_count: None,
        platform,
    }
}

#[test]
fn test_merge_results_keeps_order_and_filters_articles() {
    let outcomes = vec![
        Ok(vec![
            result(Platform::YouTube, "y1", "https://youtube.com/watch?v=y1"),
            result(Platform::YouTube, "y2", "https://youtube.com/watch?v=y2"),
        ]),
        Err(SearchError::CommandFailed("exit code 1: boom".to_string())),
        Ok(vec![
            result(Platform::Dzen, "d1", "https://dzen.ru/a/article"),
            result(Platform::Dzen, "d2", "https://dzen.ru/video/watch/d2"),
        ]),
    ];
    let merged = merge_results(&outcomes).unwrap();
    let ids: Vec<&str> = merged.iter().map(|r| r.id.as_str()).collect();
    assert_eq!(ids, vec!["y1", "y2", "d2"]);
}

#[test]
fn test_merge_results_surfaces_first_error_when_empty() {
    let outcomes = vec![
        Ok(Vec::new()),
        Err(SearchError::RateLimited("HTTP Error 429".to_string())),
        Err(SearchError::MissingYtDlp),
    ];
    match merge_results(&outcomes) {
        Err(SearchError::RateLimited(m)) => assert_eq!(m, "HTTP Error 429"),
        _ => panic!("expected the first collected error"),
    }
}

#[test]
fn test_merge_results_empty_without_errors_is_ok() {
    let outcomes: Vec<Result<Vec<SearchResult>, SearchError>> = vec![Ok(Vec::new())];
    let merged = merge_results(&outcomes).unwrap();
    assert!(merged.is_empty());
}
