use sdmm::registry::{DownloadProgress, DownloadRegistry, DownloadState};

fn report(name: &str, done: usize, total: usize) -> DownloadProgress {
    DownloadProgress {
        file_name: name.to_string(),
        bytes_downloaded: done,
        total_bytes: total,
        mod_id: 1234,
        file_id: 5678,
    }
}

fn state(done: usize, total: usize, saved: bool) -> DownloadState {
    DownloadState {
        bytes_downloaded: done,
        total_bytes: total,
        mod_id: 1234,
        file_id: 5678,
        metadata_saved: saved,
    }
}

#[test]
fn first_report_is_entered() {
    let mut registry = DownloadRegistry::new();
    assert_eq!(registry.len(), 0);
    assert_eq!(registry.get("a.zip"), None);
    registry.record_progress(report("a.zip", 0, 1000));
    assert_eq!(registry.len(), 1);
    assert_eq!(registry.get("a.zip"), Some(state(0, 1000, false)));
}

#[test]
fn recorded_bytes_never_go_down() {
    let mut registry = DownloadRegistry::new();
    let mut last = 0;
    for done in [0usize, 500, 300, 500, 800, 100, 1000, 999] {
        registry.record_progress(report("a.zip", done, 1000));
        let now = registry.get("a.zip").unwrap().bytes_downloaded;
        assert!(now >= last);
        last = now;
    }
    assert_eq!(last, 1000);
    assert_eq!(registry.len(), 1);
}

#[test]
fn report_that_is_not_further_is_dropped() {
    let mut registry = DownloadRegistry::new();
    registry.record_progress(report("a.zip", 500, 1000));
    let mut equal = report("a.zip", 500, 2000);
    equal.mod_id = 9;
    registry.record_progress(equal);
    assert_eq!(registry.get("a.zip"), Some(state(500, 1000, false)));
    registry.record_progress(report("a.zip", 499, 1000));
    assert_eq!(registry.get("a.zip"), Some(state(500, 1000, false)));
}

#[test]
fn downloads_are_kept_apart_by_file_name() {
    let mut registry = DownloadRegistry::new();
    registry.record_progress(report("a.zip", 500, 1000));
    registry.record_progress(report("b.zip", 10, 20));
    registry.record_progress(report("a.zip", 600, 1000));
    assert_eq!(registry.len(), 2);
    assert_eq!(registry.get("a.zip"), Some(state(600, 1000, false)));
    assert_eq!(registry.get("b.zip"), Some(state(10, 20, false)));
}

#[test]
fn pending_lists_finished_downloads_without_record() {
    let mut registry = DownloadRegistry::new();
    registry.record_progress(report("a.zip", 1000, 1000));
    registry.record_progress(report("b.zip", 10, 20));
    registry.record_progress(report("c.zip", 5, 5));
    assert_eq!(registry.pending(), vec!["a.zip".to_string(), "c.zip".to_string()]);
    registry.mark_saved("a.zip");
    assert_eq!(registry.get("a.zip"), Some(state(1000, 1000, true)));
    assert_eq!(registry.pending(), vec!["c.zip".to_string()]);
    registry.mark_saved("missing.zip");
    assert_eq!(registry.len(), 3);
}

#[test]
fn a_further_report_asks_for_the_record_again() {
    let mut registry = DownloadRegistry::new();
    registry.record_progress(report("a.zip", 10, 10));
    registry.mark_saved("a.zip");
    registry.record_progress(report("a.zip", 11, 11));
    assert_eq!(registry.get("a.zip"), Some(state(11, 11, false)));
}

#[test]
fn only_finished_downloads_are_dismissed() {
    let mut registry = DownloadRegistry::new();
    registry.record_progress(report("a.zip", 1000, 1000));
    registry.record_progress(report("b.zip", 10, 20));
    assert!(!registry.dismiss("b.zip"));
    assert!(!registry.dismiss("missing.zip"));
    assert_eq!(registry.len(), 2);
    assert!(registry.dismiss("a.zip"));
    assert_eq!(registry.len(), 1);
    assert_eq!(registry.get("a.zip"), None);
    assert_eq!(registry.get("b.zip"), Some(state(10, 20, false)));
    assert!(!registry.dismiss("a.zip"));
}

#[test]
fn pending_keeps_the_order_of_entry() {
    let mut registry = DownloadRegistry::new();
    registry.record_progress(report("z.zip", 1, 1));
    registry.record_progress(report("m.zip", 0, 9));
    registry.record_progress(report("a.zip", 2, 2));
    registry.record_progress(report("k.zip", 3, 3));
    assert_eq!(
        registry.pending(),
        vec!["z.zip".to_string(), "a.zip".to_string(), "k.zip".to_string()]
    );
    registry.record_progress(report("m.zip", 9, 9));
    assert_eq!(
        registry.pending(),
        vec!["z.zip".to_string(), "m.zip".to_string(), "a.zip".to_string(), "k.zip".to_string()]
    );
    assert!(registry.dismiss("m.zip"));
    registry.mark_saved("a.zip");
    registry.record_progress(report("m.zip", 4, 4));
    assert_eq!(
        registry.pending(),
        vec!["z.zip".to_string(), "k.zip".to_string(), "m.zip".to_string()]
    );
}
