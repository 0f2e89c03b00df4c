use restic_metrics::cycle::Cycle;
use restic_metrics::model::{CycleError, EnrichError, PersistError, ResticError, Snapshot, SnapshotGroupWithDetails};
use restic_metrics::publish::MetricsState;

fn snap(host: &str, path: &str, time: i64) -> Snapshot {
    Snapshot { time, host: host.to_string(), path: path.to_string(), id: format!("{}{}", host, time) }
}

fn run(snapshots: &Vec<Snapshot>, size: impl Fn(&str, &str) -> Result<i64, ResticError>) -> Result<Vec<SnapshotGroupWithDetails>, EnrichError> {
    let mut cycle = Cycle::start(snapshots);
    while let Some((host, path)) = cycle.next_request() {
        cycle = cycle.record_size(size(&host, &path))?;
    }
    Ok(cycle.finish())
}

fn summary(list: &[SnapshotGroupWithDetails]) -> Vec<(String, String, usize, i64, i64, i64)> {
    let mut v: Vec<_> = list
        .iter()
        .map(|d| (d.group.host.clone(), d.group.path.clone(), d.count, d.earliest_time, d.latest_time, d.size))
        .collect();
    v.sort();
    v
}

#[test]
fn simulated_inventory_gives_expected_groups() {
    let snapshots = vec![snap("a", "/x", 100), snap("a", "/x", 200), snap("b", "/y", 50)];
    let out = run(&snapshots, |host, path| match (host, path) {
        ("a", "/x") => Ok(1000),
        ("b", "/y") => Ok(500),
        _ => panic!("unexpected group"),
    })
    .unwrap();
    assert_eq!(
        summary(&out),
        vec![
            ("a".to_string(), "/x".to_string(), 2, 100, 200, 1000),
            ("b".to_string(), "/y".to_string(), 1, 50, 50, 500),
        ]
    );
}

#[test]
fn empty_inventory_completes_at_once() {
    let out = run(&vec![], |_, _| panic!("no group to size")).unwrap();
    assert!(out.is_empty());
}

#[test]
fn one_failure_among_three_publishes_nothing() {
    let previous = run(&vec![snap("old", "/p", 1)], |_, _| Ok(7)).unwrap();
    let mut state = MetricsState::empty();
    state.publish(Ok(previous));

    let snapshots = vec![snap("a", "/x", 100), snap("b", "/y", 50), snap("c", "/z", 10)];
    let outcome = run(&snapshots, |host, _| {
        if host == "b" {
            Err(ResticError { command: "stats".to_string(), error_message: "fail".to_string() })
        } else {
            Ok(1)
        }
    });
    assert!(matches!(outcome, Err(EnrichError::ExternalCallFailed(_))));
    state.publish(outcome.map_err(CycleError::Enrich));
    assert_eq!(summary(state.shown()), vec![("old".to_string(), "/p".to_string(), 1, 1, 1, 7)]);
}

#[test]
fn failed_first_cycle_leaves_empty_state() {
    let mut state = MetricsState::empty();
    let outcome = run(&vec![snap("a", "/x", 1)], |_, _| {
        Err(ResticError { command: "stats".to_string(), error_message: "fail".to_string() })
    });
    state.publish(outcome.map_err(CycleError::Enrich));
    assert!(state.shown().is_empty());
}

#[test]
fn restart_shows_persisted_state_after_failed_cycle() {
    let persisted = run(&vec![snap("a", "/x", 100), snap("a", "/x", 300)], |_, _| Ok(42)).unwrap();
    let mut state = MetricsState::empty();
    state.restore(Ok(persisted.clone()));
    assert_eq!(summary(state.shown()), summary(&persisted));
    let failed = run(&vec![snap("a", "/x", 400)], |_, _| {
        Err(ResticError { command: "stats".to_string(), error_message: "down".to_string() })
    });
    state.publish(failed.map_err(CycleError::Enrich));
    assert_eq!(summary(state.shown()), summary(&persisted));
    assert_eq!(summary(state.shown()), vec![("a".to_string(), "/x".to_string(), 2, 100, 300, 42)]);
}

#[test]
fn failed_restore_keeps_empty_state() {
    let mut state = MetricsState::empty();
    state.restore(Err(PersistError { message: "missing".to_string() }));
    assert!(state.shown().is_empty());
}

#[test]
fn successful_cycle_replaces_state() {
    let mut state = MetricsState::empty();
    state.publish(run(&vec![snap("a", "/x", 1)], |_, _| Ok(1)).map_err(CycleError::Enrich));
    state.publish(run(&vec![snap("b", "/y", 2)], |_, _| Ok(2)).map_err(CycleError::Enrich));
    assert_eq!(summary(state.shown()), vec![("b".to_string(), "/y".to_string(), 1, 2, 2, 2)]);
}
