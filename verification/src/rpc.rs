//! The replication messages between nodes: a log-replication request as the
//! consensus engine states it, its compact wire form, and the reply.
//!
//! On the wire, the entries of a request travel as one byte string: the
//! bytes of every normal entry, in order; the other entries carry nothing.

use vstd::prelude::*;
use crate::node::RaftRequest;
use crate::wire;

verus! {

/// What a log entry holds.
pub enum EntryPayload {
    /// An empty entry committed by a new leader.
    Blank,
    /// A client request.
    Normal(RaftRequest),
    /// A change of the cluster's membership.
    ConfigChange,
    /// A pointer to a snapshot.
    SnapshotPointer,
}

/// A log entry.
pub struct Entry {
    pub term: u64,
    pub index: u64,
    pub payload: EntryPayload,
}

/// A log-replication request from the leader.
pub struct AppendEntriesRequest {
    pub term: u64,
    pub leader_id: u64,
    pub prev_log_index: u64,
    pub prev_log_term: u64,
    pub entries: Vec<Entry>,
    pub leader_commit: u64,
}

/// The wire form of a log-replication request.
pub struct EntryRequest {
    pub term: u64,
    pub leader_id: u64,
    pub prev_log_index: u64,
    pub prev_log_term: u64,
    pub entries: Vec<u8>,
    pub leader_commit: u64,
}

/// The wire form of the reply to a log-replication request.
pub struct EntryReply {
    pub term: u64,
    pub success: bool,
}

/// The index and term of the newest entry that does not conflict.
pub struct ConflictOpt {
    pub term: u64,
    pub index: u64,
}

/// The reply to a log-replication request, as the consensus engine states it.
pub struct AppendEntriesResponse {
    pub term: u64,
    pub success: bool,
    pub conflict_opt: Option<ConflictOpt>,
}

/// The bytes an entry contributes to the wire form.
pub open spec fn payload_bytes(payload: EntryPayload) -> Seq<u8> {
    match payload {
        EntryPayload::Normal(request) => request@,
        _ => Seq::empty(),
    }
}

/// The bytes of all entries, in order.
pub open spec fn entries_bytes(entries: Seq<Entry>) -> Seq<u8>
    decreases entries.len(),
{
    if entries.len() == 0 {
        Seq::empty()
    } else {
        entries_bytes(entries.drop_last()) + payload_bytes(entries.last().payload)
    }
}

impl AppendEntriesRequest {
    /// The wire form: the same header fields, and the entries' bytes.
    pub fn to_entry_request(&self) -> (r: EntryRequest)
        ensures
            r.term == self.term,
            r.leader_id == self.leader_id,
            r.prev_log_index == self.prev_log_index,
            r.prev_log_term == self.prev_log_term,
            r.entries@ == entries_bytes(self.entries@),
            r.leader_commit == self.leader_commit,
    {
        let mut entries: Vec<u8> = Vec::new();
        let mut i: usize = 0;
        while i < self.entries.len()
            invariant
                0 <= i <= self.entries@.len(),
                entries@ == entries_bytes(self.entries@.subrange(0, i as int)),
            decreases self.entries@.len() - i,
        {
            proof {
                assert(self.entries@.subrange(0, i + 1).drop_last() =~= self.entries@.subrange(0, i as int));
            }
            match &self.entries[i].payload {
                EntryPayload::Normal(request) => {
                    let bytes = request.to_bytes();
                    wire::extend(&mut entries, &bytes);
                },
                _ => {
                    assert(entries@ =~= entries@ + Seq::<u8>::empty());
                },
            }
            i = i + 1;
        }
        assert(self.entries@.subrange(0, self.entries@.len() as int) =~= self.entries@);
        EntryRequest {
            term: self.term,
            leader_id: self.leader_id,
            prev_log_index: self.prev_log_index,
            prev_log_term: self.prev_log_term,
            entries,
            leader_commit: self.leader_commit,
        }
    }
}

impl EntryReply {
    /// The reply as the engine states it; the wire form carries no conflict
    /// information.
    pub fn to_response(&self) -> (r: AppendEntriesResponse)
        ensures
            r.term == self.term,
            r.success == self.success,
            r.conflict_opt is None,
    {
        AppendEntriesResponse { term: self.term, success: self.success, conflict_opt: None }
    }
}

/// A normal entry contributes its request's bytes and every other entry
/// nothing.
pub proof fn lemma_payload_bytes(payload: EntryPayload)
    ensures
        payload matches EntryPayload::Normal(r) ==> payload_bytes(payload) == r@,
        !(payload is Normal) ==> payload_bytes(payload) == Seq::<u8>::empty(),
{
}

/// No entries give no bytes, and one more entry at the end adds its bytes at
/// the end.
pub proof fn lemma_entries_bytes_push(entries: Seq<Entry>, e: Entry)
    ensures
        entries_bytes(Seq::<Entry>::empty()) == Seq::<u8>::empty(),
        entries_bytes(entries.push(e)) == entries_bytes(entries) + payload_bytes(e.payload),
{
    assert(entries.push(e).drop_last() =~= entries);
}

/// The bytes of two runs of entries one after the other are the bytes of the
/// first run, then those of the second.
pub proof fn lemma_entries_bytes_append(a: Seq<Entry>, b: Seq<Entry>)
    ensures
        entries_bytes(a + b) == entries_bytes(a) + entries_bytes(b),
    decreases b.len(),
{
    if b.len() == 0 {
        assert(a + b =~= a);
        assert(entries_bytes(a) + Seq::<u8>::empty() =~= entries_bytes(a));
    } else {
        lemma_entries_bytes_append(a, b.drop_last());
        assert((a + b).drop_last() =~= a + b.drop_last());
        assert((a + b).last() == b.last());
        assert(entries_bytes(a) + entries_bytes(b.drop_last()) + payload_bytes(b.last().payload)
            =~= entries_bytes(a) + (entries_bytes(b.drop_last()) + payload_bytes(b.last().payload)));
    }
}

/// The bytes of a single entry are that entry's own bytes.
pub proof fn lemma_single_entry_bytes(e: Entry)
    ensures
        entries_bytes(seq![e]) == payload_bytes(e.payload),
{
    assert(seq![e].drop_last() =~= Seq::<Entry>::empty());
    assert(entries_bytes(seq![e].drop_last()) == Seq::<u8>::empty());
    assert(seq![e].last() == e);
    assert(Seq::<u8>::empty() + payload_bytes(e.payload) =~= payload_bytes(e.payload));
}

} // verus!
