//! Core logic of a small Raft-based scheduler: the command wire formats, the
//! scheduling state machines, node-address identifiers and the replication
//! message encoding, each with its contract and proof.

pub mod config;
pub mod log;
pub mod node;
pub mod raft;
pub mod rpc;
pub mod scheduler;
pub mod server;
pub mod state;
mod wire;

pub use node::RaftRequest;
pub use scheduler::ScheduleError;
