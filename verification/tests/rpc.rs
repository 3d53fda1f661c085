use raft::node::RaftRequest;
use raft::rpc::{AppendEntriesRequest, Entry, EntryPayload, EntryReply};

fn entry(index: u64, payload: EntryPayload) -> Entry {
    Entry { term: 2, index, payload }
}

#[test]
fn entry_request_concatenates_normal_entries() {
    let req = AppendEntriesRequest {
        term: 3,
        leader_id: 7,
        prev_log_index: 10,
        prev_log_term: 2,
        entries: vec![
            entry(11, EntryPayload::Normal(RaftRequest::new(vec![1, 2]))),
            entry(12, EntryPayload::Blank),
            entry(13, EntryPayload::ConfigChange),
            entry(14, EntryPayload::Normal(RaftRequest::new(vec![3]))),
            entry(15, EntryPayload::SnapshotPointer),
            entry(16, EntryPayload::Normal(RaftRequest::new(vec![]))),
        ],
        leader_commit: 9,
    };
    let wire = req.to_entry_request();
    assert_eq!(wire.term, 3);
    assert_eq!(wire.leader_id, 7);
    assert_eq!(wire.prev_log_index, 10);
    assert_eq!(wire.prev_log_term, 2);
    assert_eq!(wire.leader_commit, 9);
    assert_eq!(wire.entries, vec![1, 2, 3]);
}

#[test]
fn heartbeat_has_no_entry_bytes() {
    let req = AppendEntriesRequest {
        term: 1,
        leader_id: 1,
        prev_log_index: 0,
        prev_log_term: 0,
        entries: vec![],
        leader_commit: 0,
    };
    assert!(req.to_entry_request().entries.is_empty());
}

#[test]
fn reply_to_response() {
    let r = EntryReply { term: 4, success: false }.to_response();
    assert_eq!(r.term, 4);
    assert!(!r.success);
    assert!(r.conflict_opt.is_none());
    assert!(EntryReply { term: 5, success: true }.to_response().success);
}
