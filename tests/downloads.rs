use bigbrother::network::{
    append_cdn, download_paths, is_success_status, needs_fetch, pending_downloads,
    settle_download, DownloadLogEvent, DownloadRequest,
};

fn req(name: &str) -> DownloadRequest {
    DownloadRequest {
        url: format!("https://cdn.example/{}", name),
        folder: "./data/1/assets/icons".to_string(),
        filename: name.to_string(),
    }
}

fn names(v: &[DownloadRequest]) -> Vec<String> {
    let mut n: Vec<String> = v.iter().map(|r| r.filename.clone()).collect();
    n.sort();
    n
}

#[test]
fn download_resume_keeps_only_unfinished() {
    let ledger = vec![
        DownloadLogEvent::Start(req("A")),
        DownloadLogEvent::Start(req("B")),
        DownloadLogEvent::Complete(req("A")),
    ];
    let pending = pending_downloads(&ledger);
    assert_eq!(names(&pending), vec!["B".to_string()]);
    let after_b = settle_download(true, 1);
    assert!(after_b.log_complete);
    assert!(after_b.clear_ledger);
}

#[test]
fn pending_after_starts_and_completions() {
    let mut ledger = Vec::new();
    for i in 0..10 {
        ledger.push(DownloadLogEvent::Start(req(&format!("f{}", i))));
    }
    for i in 0..4 {
        ledger.push(DownloadLogEvent::Complete(req(&format!("f{}", i * 2))));
    }
    let pending = pending_downloads(&ledger);
    assert_eq!(pending.len(), 6);
    assert_eq!(
        names(&pending),
        vec!["f1", "f3", "f5", "f7", "f8", "f9"].into_iter().map(String::from).collect::<Vec<_>>()
    );
}

#[test]
fn restart_after_completion_is_pending_again() {
    let ledger = vec![
        DownloadLogEvent::Start(req("A")),
        DownloadLogEvent::Complete(req("A")),
        DownloadLogEvent::Start(req("A")),
        DownloadLogEvent::Start(req("A")),
    ];
    assert_eq!(names(&pending_downloads(&ledger)), vec!["A".to_string()]);
    assert!(pending_downloads(&Vec::new()).is_empty());
}

#[test]
fn requests_differing_in_folder_are_distinct() {
    let mut other = req("A");
    other.folder = "./elsewhere".to_string();
    let ledger = vec![DownloadLogEvent::Start(req("A")), DownloadLogEvent::Complete(other)];
    assert_eq!(pending_downloads(&ledger).len(), 1);
}

#[test]
fn cdn_urls() {
    assert_eq!(append_cdn(&["emojis/", "123", ".png"]), "https://cdn.discordapp.com/emojis/123.png");
    assert_eq!(append_cdn(&[]), "https://cdn.discordapp.com/");
}

#[test]
fn part_file_sits_beside_final_file() {
    let p = download_paths("./data/1/messages/2", "9_cat.png");
    assert_eq!(p.final_path, "./data/1/messages/2/9_cat.png");
    assert_eq!(p.temp_path, "./data/1/messages/2/9_cat.png.part");
    let q = download_paths("dir/", "f");
    assert_eq!(q.final_path, "dir/f");
    assert_eq!(q.temp_path, "dir/f.part");
}

#[test]
fn fetch_decisions() {
    assert!(needs_fetch(None));
    assert!(needs_fetch(Some(0)));
    assert!(!needs_fetch(Some(1)));
    assert!(is_success_status(200));
    assert!(is_success_status(299));
    assert!(!is_success_status(199));
    assert!(!is_success_status(300));
    assert!(!is_success_status(404));
    let failed = settle_download(false, 3);
    assert!(!failed.log_complete);
    assert!(!failed.clear_ledger);
}
