//! The replicated log and its one-byte-header command format.
//!
//! A command on the wire is a header byte, whose top bit is the task and whose
//! low seven bits are the node, followed by the payload.

use vstd::prelude::*;
use crate::wire;

verus! {

/// The replicated log: each entry is a term and the bytes of a command.
pub type RaftLog = Vec<(u64, Vec<u8>)>;

/// What a command asks for.
#[derive(Debug, Copy, Clone, PartialEq, Eq, Structural)]
pub enum RaftTask {
    Occupy,
    Vacate,
}

impl RaftTask {
    /// The bit that stands for the task in the header byte.
    pub open spec fn spec_bit(self) -> u8 {
        match self {
            RaftTask::Occupy => 1,
            RaftTask::Vacate => 0,
        }
    }

    pub fn bit(&self) -> (b: u8)
        ensures
            b == self.spec_bit(),
    {
        match self {
            RaftTask::Occupy => 1,
            RaftTask::Vacate => 0,
        }
    }
}

/// A command: a task, the node it names (a seven-bit number), and a payload.
pub struct RaftCommand {
    /// Denotes task type
    pub task: RaftTask,
    /// Node ID, a 7bit number
    pub node: u8,
    /// Payload carried, an ExecTask
    pub data: Vec<u8>,
}

/// The header byte: the task bit over the node's bits. A node of eight bits
/// has its top bit merged with the task bit.
pub open spec fn header_byte(task: RaftTask, node: u8) -> u8 {
    (task.spec_bit() << 7u8) | node
}

/// The task a header byte carries: its top bit.
pub open spec fn header_task(b: u8) -> RaftTask {
    if b >= 128 {
        RaftTask::Occupy
    } else {
        RaftTask::Vacate
    }
}

/// The node a header byte carries: its low seven bits.
pub open spec fn header_node(b: u8) -> u8 {
    (b % 128) as u8
}

/// The wire form of a command.
pub open spec fn command_bytes(task: RaftTask, node: u8, data: Seq<u8>) -> Seq<u8> {
    seq![header_byte(task, node)] + data
}

impl RaftCommand {
    pub fn as_bytes(&self) -> (bytes: Vec<u8>)
        ensures
            bytes@ == command_bytes(self.task, self.node, self.data@),
    {
        // Compress task and node details into the initial byte
        let task_node_byte = (self.task.bit() << 7) | self.node;
        let mut vec: Vec<u8> = Vec::new();
        vec.push(task_node_byte);
        // Push all data into the message
        wire::extend(&mut vec, &self.data);
        assert(vec@ =~= command_bytes(self.task, self.node, self.data@));
        vec
    }

    /// Reads a command: the header's top bit is the task, its low seven bits
    /// the node, the remaining bytes the payload. An empty slice has no command.
    pub fn from_bytes(bytes: &Vec<u8>) -> (cmd: Self)
        requires
            bytes@.len() >= 1,
        ensures
            cmd.task == header_task(bytes@[0]),
            cmd.node == header_node(bytes@[0]),
            cmd.data@ == bytes@.subrange(1, bytes@.len() as int),
    {
        let b = bytes[0];
        assert((b >> 7u8 == 1u8) == (b >= 128u8)) by (bit_vector);
        assert(((b << 1u8) >> 1u8) == b % 128u8) by (bit_vector);
        Self {
            // The task bit is the top bit of the header
            task: match b >> 7 {
                1 => RaftTask::Occupy,
                _ => RaftTask::Vacate,
            },
            // The rest of the header is the node
            node: b << 1 >> 1,
            // The rest of the bytes are the payload
            data: wire::suffix(bytes, 1),
        }
    }
}

/// Reading back the wire form of a command with a seven-bit node gives the
/// same task, node and payload.
pub proof fn lemma_command_decode_encode(task: RaftTask, node: u8, data: Seq<u8>)
    requires
        node < 128,
    ensures
        ({
            let bytes = command_bytes(task, node, data);
            &&& bytes.len() >= 1
            &&& header_task(bytes[0]) == task
            &&& header_node(bytes[0]) == node
            &&& bytes.subrange(1, bytes.len() as int) == data
        }),
{
    let bytes = command_bytes(task, node, data);
    assert(bytes.subrange(1, bytes.len() as int) =~= data);
    let bit = task.spec_bit();
    assert(bit <= 1u8 && node < 128u8 ==> (((bit << 7u8) | node) >= 128u8) == (bit == 1u8)) by (bit_vector);
    assert(node < 128u8 ==> ((bit << 7u8) | node) % 128u8 == node) by (bit_vector);
}

/// Writing back a command read from any non-empty bytes gives the same bytes.
pub proof fn lemma_command_encode_decode(bytes: Seq<u8>)
    requires
        bytes.len() >= 1,
    ensures
        command_bytes(header_task(bytes[0]), header_node(bytes[0]), bytes.subrange(1, bytes.len() as int))
            == bytes,
{
    let b = bytes[0];
    let bit = header_task(b).spec_bit();
    assert(bit == (if b >= 128u8 { 1u8 } else { 0u8 }));
    assert(((if b >= 128u8 { 1u8 } else { 0u8 }) << 7u8) | (b % 128u8) == b) by (bit_vector);
    assert(command_bytes(header_task(b), header_node(b), bytes.subrange(1, bytes.len() as int)) =~= bytes);
}

/// The header byte of a command with a seven-bit node is the node, plus 128
/// for `Occupy`; the header's top bit is thus the task and its low seven bits
/// the node.
pub proof fn lemma_header_value(task: RaftTask, node: u8)
    requires
        node < 128,
    ensures
        header_byte(task, node) == (if task == RaftTask::Occupy { 128int } else { 0int }) + node,
        header_task(header_byte(task, node)) == task,
        header_node(header_byte(task, node)) == node,
{
    let bit = task.spec_bit();
    assert(bit == 1u8 || bit == 0u8);
    assert(node < 128u8 && bit == 1u8 ==> ((bit << 7u8) | node) == 128u8 + node) by (bit_vector);
    assert(node < 128u8 && bit == 0u8 ==> ((bit << 7u8) | node) == node) by (bit_vector);
}

} // verus!
