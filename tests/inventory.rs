use restic_metrics::inventory::{get_all_snapshots, restic_outcome, InventoryEntry, EXIT_FAILURE_MESSAGE};
use restic_metrics::model::FetchError;

fn entry(time: &str, host: &str, paths: &[&str], id: &str) -> InventoryEntry {
    InventoryEntry {
        time: time.to_string(),
        hostname: host.to_string(),
        paths: paths.iter().map(|p| p.to_string()).collect(),
        short_id: id.to_string(),
    }
}

#[test]
fn entry_with_parsed_time() {
    let s = entry("x", "h", &["/a", "/b"], "id1").to_snapshot_with_time(Some(42)).unwrap();
    assert_eq!(s.time, 42);
    assert_eq!(s.host, "h");
    assert_eq!(s.path, "/a");
    assert_eq!(s.id, "id1");
}

#[test]
fn entry_without_time() {
    let r = entry("x", "h", &["/a"], "id2").to_snapshot_with_time(None);
    assert!(matches!(r, Err(FetchError::InvalidTime(id)) if id == "id2"));
}

#[test]
fn entry_without_path() {
    let r = entry("2023-01-01T00:00:00Z", "h", &[], "id3").to_snapshot_with_time(Some(1));
    assert!(matches!(r, Err(FetchError::MissingPath(id)) if id == "id3"));
}

#[test]
fn rfc3339_time_in_milliseconds() {
    let s = entry("2023-01-01T00:00:00.250Z", "h", &["/a"], "i").to_snapshot().unwrap();
    assert_eq!(s.time, 1_672_531_200_250);
    let s = entry("2023-01-01T02:00:00+02:00", "h", &["/a"], "i").to_snapshot().unwrap();
    assert_eq!(s.time, 1_672_531_200_000);
}

#[test]
fn malformed_time_is_rejected() {
    let r = entry("yesterday", "h", &["/a"], "bad").to_snapshot();
    assert!(matches!(r, Err(FetchError::InvalidTime(id)) if id == "bad"));
}

#[test]
fn listing_converts_in_order() {
    let entries = vec![
        entry("1970-01-01T00:00:01Z", "a", &["/x"], "1"),
        entry("1970-01-01T00:00:02Z", "b", &["/y"], "2"),
    ];
    let snapshots = get_all_snapshots(&entries).unwrap();
    assert_eq!(snapshots.len(), 2);
    assert_eq!(snapshots[0].time, 1000);
    assert_eq!(snapshots[1].time, 2000);
    assert_eq!(snapshots[1].host, "b");
}

#[test]
fn listing_fails_on_first_unusable_entry() {
    let entries = vec![
        entry("1970-01-01T00:00:01Z", "a", &["/x"], "1"),
        entry("1970-01-01T00:00:02Z", "b", &[], "2"),
        entry("never", "c", &["/z"], "3"),
    ];
    assert!(matches!(get_all_snapshots(&entries), Err(FetchError::MissingPath(id)) if id == "2"));
    assert!(get_all_snapshots(&vec![]).unwrap().is_empty());
}

#[test]
fn error_stream_means_failure() {
    let r = restic_outcome("stats".to_string(), true, "{}".to_string(), "warning".to_string());
    let e = r.unwrap_err();
    assert_eq!(e.command, "stats");
    assert_eq!(e.error_message, "warning");
    let e = restic_outcome("stats".to_string(), false, "{}".to_string(), "bad".to_string()).unwrap_err();
    assert_eq!(e.error_message, "bad");
    let ok = restic_outcome("stats".to_string(), true, "{}".to_string(), String::new());
    assert_eq!(ok.unwrap(), "{}");
}

#[test]
fn failure_status_means_failure() {
    let e = restic_outcome("snapshots --json".to_string(), false, "[]".to_string(), String::new()).unwrap_err();
    assert_eq!(e.command, "snapshots --json");
    assert_eq!(e.error_message, EXIT_FAILURE_MESSAGE);
}
