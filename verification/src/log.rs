//! The storage back end of a node.

use vstd::prelude::*;

verus! {

/// The storage that the consensus engine writes its log and state to.
pub struct RaftLog;

} // verus!
