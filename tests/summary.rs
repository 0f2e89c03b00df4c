use restic_metrics::config::{
    get_file_name, update_interval_millis, DEFAULT_METRICS_FILE, DEFAULT_UPDATE_INTERVAL_SECONDS,
};
use restic_metrics::model::{Snapshot, SnapshotGroup, SnapshotGroupWithDetails};
use restic_metrics::summary::{summarize, MetricsSummary};

fn details(latest: i64, size: i64, count: usize) -> SnapshotGroupWithDetails {
    details_between(latest, latest, size, count)
}

fn details_between(earliest: i64, latest: i64, size: i64, count: usize) -> SnapshotGroupWithDetails {
    SnapshotGroupWithDetails {
        group: SnapshotGroup {
            host: "h".to_string(),
            path: "/p".to_string(),
            snapshots: vec![Snapshot { time: latest, host: "h".to_string(), path: "/p".to_string(), id: "i".to_string() }],
        },
        latest_time: latest,
        earliest_time: earliest,
        size,
        count,
    }
}

#[test]
fn summary_of_nothing_is_zero() {
    assert_eq!(
        summarize(&vec![]),
        MetricsSummary { group_count: 0, total_size: 0, total_count: 0, min_time: 0, max_time: 0 }
    );
}

#[test]
fn summary_sums_and_ranges() {
    let list = vec![details(300, 1000, 2), details(100, 500, 1), details(200, i64::MAX, 4)];
    assert_eq!(
        summarize(&list),
        MetricsSummary {
            group_count: 3,
            total_size: 1500 + i64::MAX as i128,
            total_count: 7,
            min_time: 100,
            max_time: 300,
        }
    );
}

#[test]
fn oldest_time_is_the_earliest_snapshot() {
    let list = vec![details_between(1, 2, 0, 2)];
    let s = summarize(&list);
    assert_eq!(s.min_time, 1);
    assert_eq!(s.max_time, 2);
    let list = vec![details_between(50, 400, 0, 3), details_between(20, 100, 0, 2)];
    let s = summarize(&list);
    assert_eq!(s.min_time, 20);
    assert_eq!(s.max_time, 400);
}

#[test]
fn file_name_default_and_configured() {
    assert_eq!(get_file_name(None), DEFAULT_METRICS_FILE);
    assert_eq!(get_file_name(None), "/tmp/restic-metrics-exporter.json");
    assert_eq!(get_file_name(Some("/var/state.json".to_string())), "/var/state.json");
}

#[test]
fn interval_in_milliseconds() {
    assert_eq!(update_interval_millis(DEFAULT_UPDATE_INTERVAL_SECONDS), Some(900_000));
    assert_eq!(update_interval_millis(60), Some(60_000));
    assert_eq!(update_interval_millis(u64::MAX), None);
}
