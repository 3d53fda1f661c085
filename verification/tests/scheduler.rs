use raft::scheduler::{ExecTask, ExecUnit, RaftCommand, RaftTask, StateMachine};
use raft::ScheduleError;

fn reason(r: Result<(), ScheduleError>) -> String {
    match r {
        Ok(()) => String::from("ok"),
        Err(e) => e.reason().to_string(),
    }
}

#[test]
fn command_as_bytes_lays_out_task_node_payload() {
    let cmd = RaftCommand { task: RaftTask::Occupy, node: 9, data: vec![4, 5, 6] };
    assert_eq!(cmd.as_bytes(), vec![3, 9, 4, 5, 6]);
    let cmd = RaftCommand { task: RaftTask::Schedule, node: 0, data: vec![] };
    assert_eq!(cmd.as_bytes(), vec![1, 0]);
}

#[test]
fn command_task_codes() {
    assert_eq!(RaftTask::Schedule.code(), 1);
    assert_eq!(RaftTask::UnSchedule.code(), 2);
    assert_eq!(RaftTask::Occupy.code(), 3);
    assert_eq!(RaftTask::Vacate.code(), 4);
}

#[test]
fn command_from_bytes_reads_fields() {
    let cmd = RaftCommand::from_bytes(vec![2, 17, 1, 2]);
    assert_eq!(cmd.task, RaftTask::UnSchedule);
    assert_eq!(cmd.node, 17);
    assert_eq!(cmd.data, vec![1, 2]);
}

#[test]
fn command_from_bytes_unknown_code_is_vacate() {
    assert_eq!(RaftCommand::from_bytes(vec![0, 1]).task, RaftTask::Vacate);
    assert_eq!(RaftCommand::from_bytes(vec![200, 1]).task, RaftTask::Vacate);
    assert!(RaftCommand::from_bytes(vec![200, 1]).data.is_empty());
}

#[test]
fn command_roundtrip() {
    for task in [RaftTask::Schedule, RaftTask::UnSchedule, RaftTask::Occupy, RaftTask::Vacate] {
        let cmd = RaftCommand { task, node: 250, data: vec![0, 255, 3] };
        let back = RaftCommand::from_bytes(cmd.as_bytes());
        assert_eq!(back.task, task);
        assert_eq!(back.node, 250);
        assert_eq!(back.data, vec![0, 255, 3]);
    }
    let bytes = vec![4, 8, 15, 16];
    assert_eq!(RaftCommand::from_bytes(bytes.clone()).as_bytes(), bytes);
}

#[test]
fn exec_unit_encoding() {
    let unit = ExecUnit { task: ExecTask::Render, data: vec![1, 144, 7] };
    assert_eq!(unit.as_bytes(), vec![2, 1, 144, 7]);
    let back = ExecUnit::from_bytes(unit.as_bytes());
    assert_eq!(back.task, ExecTask::Render);
    assert_eq!(back.data, vec![1, 144, 7]);
    assert_eq!(ExecUnit::from_bytes(vec![1]).task, ExecTask::UnRoll);
    assert_eq!(ExecUnit::from_bytes(vec![9, 9]).task, ExecTask::RollUp);
    assert_eq!(ExecTask::RollUp.code(), 3);
}

#[test]
fn machine_vacate_then_occupy() {
    let mut m = StateMachine::new();
    assert_eq!(reason(m.run_cmd(RaftCommand { task: RaftTask::Vacate, node: 0, data: vec![5] })), "ok");
    assert_eq!(
        reason(m.run_cmd(RaftCommand { task: RaftTask::Vacate, node: 0, data: vec![5] })),
        "Couldn't vacate"
    );
    assert_eq!(reason(m.run_cmd(RaftCommand { task: RaftTask::Occupy, node: 0, data: vec![5] })), "ok");
    assert_eq!(
        reason(m.run_cmd(RaftCommand { task: RaftTask::Occupy, node: 0, data: vec![5] })),
        "Couldn't occupy"
    );
}

#[test]
fn machine_new_refuses_schedule() {
    let mut m = StateMachine::new();
    assert_eq!(
        reason(m.run_cmd(RaftCommand { task: RaftTask::Schedule, node: 0, data: vec![3, 1, 2] })),
        "Couldn't schedule"
    );
}

#[test]
fn machine_unschedule_idle_node_succeeds() {
    let mut m = StateMachine::new();
    assert_eq!(reason(m.run_cmd(RaftCommand { task: RaftTask::UnSchedule, node: 0, data: vec![3] })), "ok");
}

#[test]
fn machine_occupy_uses_payload_node() {
    let mut m = StateMachine::new();
    // The node named by the command's node field is not the one used.
    assert_eq!(reason(m.run_cmd(RaftCommand { task: RaftTask::Vacate, node: 1, data: vec![2] })), "ok");
    assert_eq!(
        reason(m.run_cmd(RaftCommand { task: RaftTask::Occupy, node: 2, data: vec![1] })),
        "Couldn't occupy"
    );
    assert_eq!(reason(m.run_cmd(RaftCommand { task: RaftTask::Occupy, node: 1, data: vec![2] })), "ok");
}

#[test]
fn schedule_error_reason() {
    let e = ScheduleError::new(String::from("nope"));
    assert_eq!(e.reason(), "nope");
    assert_eq!(e.message(), "Scheduling error: nope");
}

#[test]
fn refusal_message() {
    let mut m = StateMachine::new();
    match m.run_cmd(RaftCommand { task: RaftTask::Occupy, node: 0, data: vec![1] }) {
        Err(e) => assert_eq!(e.message(), "Scheduling error: Couldn't occupy"),
        Ok(()) => panic!("expected a refusal"),
    }
}

#[test]
fn machine_vacate_several_then_occupy_middle() {
    let mut m = StateMachine::new();
    for n in [4u8, 9, 2] {
        assert_eq!(reason(m.run_cmd(RaftCommand { task: RaftTask::Vacate, node: 0, data: vec![n] })), "ok");
    }
    assert_eq!(reason(m.run_cmd(RaftCommand { task: RaftTask::Occupy, node: 0, data: vec![9] })), "ok");
    assert_eq!(reason(m.run_cmd(RaftCommand { task: RaftTask::Occupy, node: 0, data: vec![9] })), "Couldn't occupy");
    assert_eq!(reason(m.run_cmd(RaftCommand { task: RaftTask::Occupy, node: 0, data: vec![4] })), "ok");
    assert_eq!(reason(m.run_cmd(RaftCommand { task: RaftTask::Vacate, node: 0, data: vec![2] })), "Couldn't vacate");
}
