# raft

The scheduling core of a small Raft-based cluster, written in Verus.

`src/` is the verified library:

- `raft` — the replicated log type and the command format whose header byte
  packs a task bit over a seven-bit node number;
- `scheduler` — byte-coded scheduling commands and execution units, and the
  `StateMachine` that tracks executing and free nodes;
- `state` — the `Scheduler` that the log drives, and `apply_next`, one step
  of the task that applies log entries to it;
- `node` — the request and response data of the log, and the packing of node
  addresses into 64-bit node ids;
- `rpc` — the log-replication request, its compact wire form and the reply;
- `server` — the decision on a peer's join request;
- `config` — election and heartbeat timings, with a random election timeout.

Each public function carries a contract, and the `lemma_*` proof functions
state the laws that relate the functions: encode/decode round trips, what a
refused command leaves unchanged, and which command sequences undo each other.

`app/` is the node process around the library: the consensus engine, the gRPC
transport, the storage back end and the serde forms of the library's types.
