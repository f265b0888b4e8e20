use aim_trainer_stats::events::{is_valid_file, should_ingest, WatchEventKind};

#[test]
fn only_log_file_creations_are_routed() {
    assert!(should_ingest(WatchEventKind::Created, "runs/a.csv", true));
    assert!(!should_ingest(WatchEventKind::Modified, "runs/a.csv", true));
    assert!(!should_ingest(WatchEventKind::Removed, "runs/a.csv", true));
    assert!(!should_ingest(WatchEventKind::Other, "runs/a.csv", true));
    assert!(!should_ingest(WatchEventKind::Created, "runs/a.txt", true));
    assert!(!should_ingest(WatchEventKind::Created, "runs/a.csv", false));
}

#[test]
fn extension_check_is_exact() {
    assert!(is_valid_file("a.csv", true));
    assert!(!is_valid_file("a.CSV", true));
    assert!(!is_valid_file("csv", true));
    assert!(!is_valid_file("acsv", true));
    assert!(!is_valid_file("", true));
}
