use vdownloader::downloader::{DownloadRequest, Platform};
use vdownloader::queue::{DownloadQueue, DownloadStatus};

fn request(url: &str) -> DownloadRequest {
    DownloadRequest {
        url: url.to_string(),
        platform: Platform::YouTube,
        output_path: None,
        overwrite: false,
    }
}

#[test]
fn test_queue_operations() {
    let mut queue = DownloadQueue::new();

    let request = request("https://www.youtube.com/watch?v=test");
    let id = queue.add(request.clone());
    assert!(!id.is_empty());

    let item = queue.get(&id);
    assert!(item.is_some());

    let item = item.unwrap();
    assert_eq!(item.request.url, request.url);
    assert!(matches!(item.status, DownloadStatus::Pending));

    let all_items = queue.list_all();
    assert_eq!(all_items.len(), 1);

    queue.remove(&id);
    let item = queue.get(&id);
    assert!(item.is_none());
}

#[test]
fn test_queue_ids_are_never_reused() {
    let mut queue = DownloadQueue::new();
    let a = queue.add(request("https://youtu.be/a"));
    let b = queue.add(request("https://youtu.be/b"));
    assert_eq!(a, "download_0");
    assert_eq!(b, "download_1");
    assert_ne!(a, b);

    queue.remove(&a);
    queue.remove(&b);
    let c = queue.add(request("https://youtu.be/c"));
    assert_eq!(c, "download_2");
    assert_ne!(c, a);
    assert_ne!(c, b);
}

#[test]
fn test_queue_update_status() {
    let mut queue = DownloadQueue::new();
    let id = queue.add(request("https://youtu.be/a"));
    queue.update_status(&id, DownloadStatus::Downloading { progress_permille: 450 });
    match queue.get(&id).unwrap().status {
        DownloadStatus::Downloading { progress_permille } => assert_eq!(progress_permille, 450),
        _ => panic!("status was not updated"),
    }
    queue.update_status("download_99", DownloadStatus::Failed { error: "x".to_string() });
    assert!(queue.get("download_99").is_none());
}

#[test]
fn test_queue_list_counts_and_clear() {
    let mut queue = DownloadQueue::new();
    let a = queue.add(request("https://youtu.be/a"));
    let _b = queue.add(request("https://youtu.be/b"));
    let _c = queue.add(request("https://youtu.be/c"));
    assert_eq!(queue.list_all().len(), 3);

    queue.remove(&a);
    assert_eq!(queue.list_all().len(), 2);

    queue.clear();
    assert_eq!(queue.list_all().len(), 0);

    let d = queue.add(request("https://youtu.be/d"));
    assert_eq!(d, "download_3");
}
