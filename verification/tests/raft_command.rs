use raft::raft::{RaftCommand, RaftTask};

#[test]
fn header_packs_task_bit_over_node() {
    let cmd = RaftCommand { task: RaftTask::Occupy, node: 5, data: vec![9, 8] };
    assert_eq!(cmd.as_bytes(), vec![0x85, 9, 8]);
    let cmd = RaftCommand { task: RaftTask::Vacate, node: 127, data: vec![] };
    assert_eq!(cmd.as_bytes(), vec![0x7f]);
    assert_eq!(RaftTask::Occupy.bit(), 1);
    assert_eq!(RaftTask::Vacate.bit(), 0);
}

#[test]
fn eight_bit_node_merges_with_task_bit() {
    let cmd = RaftCommand { task: RaftTask::Vacate, node: 200, data: vec![] };
    assert_eq!(cmd.as_bytes(), vec![200]);
    let back = RaftCommand::from_bytes(&cmd.as_bytes());
    assert_eq!(back.task, RaftTask::Occupy);
    assert_eq!(back.node, 72);
}

#[test]
fn from_bytes_splits_header() {
    let cmd = RaftCommand::from_bytes(&vec![0xff, 1, 2, 3]);
    assert_eq!(cmd.task, RaftTask::Occupy);
    assert_eq!(cmd.node, 0x7f);
    assert_eq!(cmd.data, vec![1, 2, 3]);
    let cmd = RaftCommand::from_bytes(&vec![0x00]);
    assert_eq!(cmd.task, RaftTask::Vacate);
    assert_eq!(cmd.node, 0);
    assert!(cmd.data.is_empty());
}

#[test]
fn roundtrip_with_seven_bit_node() {
    for task in [RaftTask::Occupy, RaftTask::Vacate] {
        for node in [0u8, 1, 64, 127] {
            let cmd = RaftCommand { task, node, data: vec![node, 3] };
            let back = RaftCommand::from_bytes(&cmd.as_bytes());
            assert_eq!(back.task, task);
            assert_eq!(back.node, node);
            assert_eq!(back.data, vec![node, 3]);
        }
    }
}

#[test]
fn bytes_roundtrip() {
    for first in [0u8, 1, 127, 128, 200, 255] {
        let bytes = vec![first, 4, 2];
        assert_eq!(RaftCommand::from_bytes(&bytes).as_bytes(), bytes);
    }
}
