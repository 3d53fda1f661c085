use raft::raft::{RaftCommand, RaftTask};
use raft::state::{apply_next, ApplyOutcome, Scheduler};
use raft::ScheduleError;

fn reason(r: Result<(), ScheduleError>) -> String {
    match r {
        Ok(()) => String::from("ok"),
        Err(e) => e.reason().to_string(),
    }
}

fn occupy(node: u8) -> Vec<u8> {
    RaftCommand { task: RaftTask::Occupy, node, data: vec![1, 2] }.as_bytes()
}

fn vacate(node: u8) -> Vec<u8> {
    RaftCommand { task: RaftTask::Vacate, node, data: vec![] }.as_bytes()
}

#[test]
fn default_scheduler_refuses_occupy() {
    let mut s = Scheduler::default();
    assert_eq!(reason(s.updater(&occupy(3))), "Couldn't occupy");
}

#[test]
fn default_scheduler_refuses_vacate() {
    let mut s = Scheduler::default();
    assert_eq!(reason(s.updater(&vacate(3))), "Couldn't unschedule");
}

#[test]
fn default_scheduler_stays_refusing() {
    let mut s = Scheduler::default();
    for n in 0..4u8 {
        assert!(s.updater(&occupy(n)).is_err());
        assert!(s.updater(&vacate(n)).is_err());
    }
}

#[test]
fn apply_waits_for_a_following_entry() {
    let mut s = Scheduler::default();
    let log: Vec<(u64, Vec<u8>)> = vec![(1, occupy(2))];
    let (idx, outcome) = apply_next(&mut s, &log, 0);
    assert_eq!(idx, 0);
    assert!(matches!(outcome, ApplyOutcome::Waiting));
    let (idx, outcome) = apply_next(&mut s, &Vec::new(), 0);
    assert_eq!(idx, 0);
    assert!(matches!(outcome, ApplyOutcome::Waiting));
}

#[test]
fn apply_rejected_entry_keeps_cursor() {
    let mut s = Scheduler::default();
    let log: Vec<(u64, Vec<u8>)> = vec![(1, occupy(2)), (1, vacate(2))];
    let (idx, outcome) = apply_next(&mut s, &log, 0);
    assert_eq!(idx, 0);
    match outcome {
        ApplyOutcome::Rejected(e) => assert_eq!(e.reason(), "Couldn't occupy"),
        _ => panic!("expected a rejection"),
    }
}

#[test]
fn apply_past_the_end_waits() {
    let mut s = Scheduler::default();
    let log: Vec<(u64, Vec<u8>)> = vec![(1, occupy(2)), (1, vacate(2))];
    let (idx, outcome) = apply_next(&mut s, &log, 5);
    assert_eq!(idx, 5);
    assert!(matches!(outcome, ApplyOutcome::Waiting));
    let (idx, _) = apply_next(&mut s, &log, usize::MAX);
    assert_eq!(idx, usize::MAX);
}
