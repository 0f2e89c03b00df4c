use restic_metrics::grouping::GroupSnapshots;
use restic_metrics::model::Snapshot;

fn snap(host: &str, path: &str, time: i64, id: &str) -> Snapshot {
    Snapshot { time, host: host.to_string(), path: path.to_string(), id: id.to_string() }
}

#[test]
fn empty_input_gives_no_groups() {
    let snapshots: Vec<Snapshot> = vec![];
    assert!(snapshots.to_snapshot_groups().is_empty());
}

#[test]
fn groups_partition_by_host_and_path() {
    let snapshots = vec![
        snap("b", "/y", 50, "5"),
        snap("a", "/x", 100, "1"),
        snap("a", "/z", 70, "2"),
        snap("a", "/x", 200, "3"),
        snap("b", "/x", 10, "4"),
    ];
    let groups = snapshots.to_snapshot_groups();
    assert_eq!(groups.len(), 4);
    let keys: Vec<(String, String)> =
        groups.iter().map(|g| (g.host.clone(), g.path.clone())).collect();
    assert_eq!(
        keys,
        vec![
            ("a".to_string(), "/x".to_string()),
            ("a".to_string(), "/z".to_string()),
            ("b".to_string(), "/x".to_string()),
            ("b".to_string(), "/y".to_string()),
        ]
    );
    let ids: Vec<Vec<String>> =
        groups.iter().map(|g| g.snapshots.iter().map(|s| s.id.clone()).collect()).collect();
    assert_eq!(ids, vec![vec!["1", "3"], vec!["2"], vec!["4"], vec!["5"]]);
    for g in &groups {
        for s in &g.snapshots {
            assert_eq!(s.host, g.host);
            assert_eq!(s.path, g.path);
        }
    }
    let total: usize = groups.iter().map(|g| g.snapshots.len()).sum();
    assert_eq!(total, snapshots.len());
}

#[test]
fn grouping_is_deterministic() {
    let snapshots = vec![snap("h", "/b", 1, "1"), snap("h", "/a", 2, "2"), snap("h", "/b", 3, "3")];
    let first: Vec<(String, String, usize)> = snapshots
        .to_snapshot_groups()
        .iter()
        .map(|g| (g.host.clone(), g.path.clone(), g.snapshots.len()))
        .collect();
    let second: Vec<(String, String, usize)> = snapshots
        .to_snapshot_groups()
        .iter()
        .map(|g| (g.host.clone(), g.path.clone(), g.snapshots.len()))
        .collect();
    assert_eq!(first, second);
    assert_eq!(first, vec![("h".to_string(), "/a".to_string(), 1), ("h".to_string(), "/b".to_string(), 2)]);
}

#[test]
fn groups_keep_input_order_and_come_in_key_order() {
    let snapshots = vec![
        snap("b", "/a", 300, "1"),
        snap("a", "/b", 500, "2"),
        snap("b", "/a", 100, "3"),
        snap("a", "/b", 200, "4"),
        snap("a", "/a", 900, "5"),
        snap("b", "/a", 200, "6"),
    ];
    let groups = snapshots.to_snapshot_groups();
    let shape: Vec<(String, String, Vec<String>)> = groups
        .iter()
        .map(|g| (g.host.clone(), g.path.clone(), g.snapshots.iter().map(|s| s.id.clone()).collect()))
        .collect();
    assert_eq!(
        shape,
        vec![
            ("a".to_string(), "/a".to_string(), vec!["5".to_string()]),
            ("a".to_string(), "/b".to_string(), vec!["2".to_string(), "4".to_string()]),
            ("b".to_string(), "/a".to_string(), vec!["1".to_string(), "3".to_string(), "6".to_string()]),
        ]
    );
}
