use restic_metrics::schedule::{Scheduler, Tick};

#[test]
fn first_cycle_starts_at_once() {
    let mut s = Scheduler::new(900_000);
    assert_eq!(s.poll(5), Tick::StartCycle);
    assert!(s.is_running());
}

#[test]
fn no_cycle_while_one_runs() {
    let mut s = Scheduler::new(1000);
    assert_eq!(s.poll(0), Tick::StartCycle);
    assert_eq!(s.poll(5000), Tick::Wait(1000));
}

#[test]
fn instant_cycle_still_waits_one_interval() {
    let mut s = Scheduler::new(1000);
    assert_eq!(s.poll(10), Tick::StartCycle);
    s.cycle_finished(10);
    assert_eq!(s.poll(10), Tick::Wait(1000));
    assert_eq!(s.poll(600), Tick::Wait(410));
    assert_eq!(s.poll(1010), Tick::StartCycle);
}

#[test]
fn interval_counts_from_cycle_end() {
    let mut s = Scheduler::new(100);
    assert_eq!(s.poll(0), Tick::StartCycle);
    s.cycle_finished(250);
    assert_eq!(s.poll(300), Tick::Wait(50));
    assert_eq!(s.poll(351), Tick::StartCycle);
}

#[test]
fn starts_are_spaced_by_the_interval() {
    let mut s = Scheduler::new(30);
    let mut starts = vec![];
    let mut now: u64 = 0;
    while starts.len() < 5 {
        match s.poll(now) {
            Tick::StartCycle => {
                starts.push(now);
                s.cycle_finished(now);
            }
            Tick::Wait(ms) => now += ms,
        }
    }
    for w in starts.windows(2) {
        assert!(w[1] - w[0] >= 30);
    }
    assert_eq!(starts, vec![0, 30, 60, 90, 120]);
}
