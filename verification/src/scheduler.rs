//! Byte-coded scheduling commands and the state machine that applies them.
//!
//! A command on the wire is its task code, the node byte, then the payload.
//! An execution unit on the wire is its task code, then its payload.

use vstd::prelude::*;
use std::collections::HashMap;
use crate::wire;

verus! {

broadcast use vstd::std_specs::hash::group_hash_axioms;

/// What a scheduling command asks for.
#[derive(Debug, Copy, Clone, PartialEq, Eq, Structural)]
pub enum RaftTask {
    Schedule,
    UnSchedule,
    Occupy,
    Vacate,
}

impl RaftTask {
    /// The byte that stands for the task on the wire.
    pub open spec fn spec_code(self) -> u8 {
        match self {
            RaftTask::Schedule => 1,
            RaftTask::UnSchedule => 2,
            RaftTask::Occupy => 3,
            RaftTask::Vacate => 4,
        }
    }

    /// The task a wire byte stands for; every byte outside `1..=3` reads as `Vacate`.
    pub open spec fn from_code(b: u8) -> RaftTask {
        if b == 1 {
            RaftTask::Schedule
        } else if b == 2 {
            RaftTask::UnSchedule
        } else if b == 3 {
            RaftTask::Occupy
        } else {
            RaftTask::Vacate
        }
    }

    pub fn code(&self) -> (c: u8)
        ensures
            c == self.spec_code(),
    {
        match self {
            RaftTask::Schedule => 1,
            RaftTask::UnSchedule => 2,
            RaftTask::Occupy => 3,
            RaftTask::Vacate => 4,
        }
    }

    fn decode(b: u8) -> (t: RaftTask)
        ensures
            t == RaftTask::from_code(b),
    {
        if b == 1 {
            RaftTask::Schedule
        } else if b == 2 {
            RaftTask::UnSchedule
        } else if b == 3 {
            RaftTask::Occupy
        } else {
            RaftTask::Vacate
        }
    }
}

/// A scheduling command: a task, the node it names, and a payload.
pub struct RaftCommand {
    pub task: RaftTask,
    pub node: u8,
    pub data: Vec<u8>,
}

/// The wire form of a command.
pub open spec fn command_bytes(task: RaftTask, node: u8, data: Seq<u8>) -> Seq<u8> {
    seq![task.spec_code(), node] + data
}

impl RaftCommand {
    pub fn as_bytes(&self) -> (bytes: Vec<u8>)
        ensures
            bytes@ == command_bytes(self.task, self.node, self.data@),
    {
        let mut vec: Vec<u8> = Vec::new();
        vec.push(self.task.code());
        vec.push(self.node);
        wire::extend(&mut vec, &self.data);
        assert(vec@ =~= command_bytes(self.task, self.node, self.data@));
        vec
    }

    /// Reads a command: the first byte is the task code, the second the node,
    /// the rest the payload. A slice shorter than two bytes has no command.
    pub fn from_bytes(bytes: Vec<u8>) -> (cmd: Self)
        requires
            bytes@.len() >= 2,
        ensures
            cmd.task == RaftTask::from_code(bytes@[0]),
            cmd.node == bytes@[1],
            cmd.data@ == bytes@.subrange(2, bytes@.len() as int),
    {
        Self { task: RaftTask::decode(bytes[0]), node: bytes[1], data: wire::suffix(&bytes, 2) }
    }
}

/// What an execution unit asks a node to do.
#[derive(Debug, Copy, Clone, PartialEq, Eq, Structural)]
pub enum ExecTask {
    UnRoll,
    Render,
    RollUp,
}

impl ExecTask {
    /// The byte that stands for the task on the wire.
    pub open spec fn spec_code(self) -> u8 {
        match self {
            ExecTask::UnRoll => 1,
            ExecTask::Render => 2,
            ExecTask::RollUp => 3,
        }
    }

    /// The task a wire byte stands for; every byte outside `1..=2` reads as `RollUp`.
    pub open spec fn from_code(b: u8) -> ExecTask {
        if b == 1 {
            ExecTask::UnRoll
        } else if b == 2 {
            ExecTask::Render
        } else {
            ExecTask::RollUp
        }
    }

    pub fn code(&self) -> (c: u8)
        ensures
            c == self.spec_code(),
    {
        match self {
            ExecTask::UnRoll => 1,
            ExecTask::Render => 2,
            ExecTask::RollUp => 3,
        }
    }

    fn decode(b: u8) -> (t: ExecTask)
        ensures
            t == ExecTask::from_code(b),
    {
        if b == 1 {
            ExecTask::UnRoll
        } else if b == 2 {
            ExecTask::Render
        } else {
            ExecTask::RollUp
        }
    }
}

/// A unit of work handed to a node.
pub struct ExecUnit {
    pub task: ExecTask,
    pub data: Vec<u8>,
}

/// The wire form of an execution unit.
pub open spec fn exec_unit_bytes(task: ExecTask, data: Seq<u8>) -> Seq<u8> {
    seq![task.spec_code()] + data
}

/// The task and payload that a wire form (of at least one byte) describes.
pub open spec fn exec_unit_of(bytes: Seq<u8>) -> (ExecTask, Seq<u8>) {
    (ExecTask::from_code(bytes[0]), bytes.subrange(1, bytes.len() as int))
}

impl ExecUnit {
    pub fn as_bytes(&self) -> (bytes: Vec<u8>)
        ensures
            bytes@ == exec_unit_bytes(self.task, self.data@),
    {
        let mut vec: Vec<u8> = Vec::new();
        vec.push(self.task.code());
        wire::extend(&mut vec, &self.data);
        assert(vec@ =~= exec_unit_bytes(self.task, self.data@));
        vec
    }

    /// Reads a unit: the first byte is the task code, the rest the payload.
    pub fn from_bytes(bytes: Vec<u8>) -> (unit: Self)
        requires
            bytes@.len() >= 1,
        ensures
            (unit.task, unit.data@) == exec_unit_of(bytes@),
    {
        Self { task: ExecTask::decode(bytes[0]), data: wire::suffix(&bytes, 1) }
    }
}

/// Why a command was refused; it holds the reason as text.
#[derive(Debug)]
pub struct ScheduleError(String);

impl View for ScheduleError {
    type V = Seq<char>;

    closed spec fn view(&self) -> Seq<char> {
        self.0@
    }
}

impl ScheduleError {
    pub fn new(reason: String) -> (e: Self)
        ensures
            e@ == reason@,
    {
        ScheduleError(reason)
    }

    /// The reason, as text.
    pub fn reason(&self) -> (r: &str)
        ensures
            r@ == self@,
    {
        self.0.as_str()
    }

    /// The message that reports the error: `Scheduling error: ` and the reason.
    pub fn message(&self) -> (m: String)
        ensures
            m@ == "Scheduling error: "@ + self@,
    {
        let mut m = "Scheduling error: ".to_owned();
        m.append(self.0.as_str());
        m
    }
}

pub open spec fn schedule_refused() -> Seq<char> {
    "Couldn't schedule"@
}

pub open spec fn unschedule_refused() -> Seq<char> {
    "Couldn't unschedule"@
}

pub open spec fn occupy_refused() -> Seq<char> {
    "Couldn't occupy"@
}

pub open spec fn vacate_refused() -> Seq<char> {
    "Couldn't vacate"@
}

/// The free list with every `node` taken out, the others in their order.
pub open spec fn remove_node(free: Seq<u8>, node: u8) -> Seq<u8> {
    free.filter(other_than(node))
}

/// The test "is not `node`".
pub open spec fn other_than(node: u8) -> spec_fn(u8) -> bool {
    |y: u8| y != node
}

/// The state of a `StateMachine`: the unit each executing node runs, and the
/// list of free nodes, in the order they became free.
pub struct MachineView {
    pub executing: Map<u8, (ExecTask, Seq<u8>)>,
    pub free: Seq<u8>,
}

/// What a command of task `task` and payload `data` (of at least one byte)
/// does to a machine in state `s`: the next state, and `Ok` or the reason
/// of the refusal. The payload's first byte names the node.
pub open spec fn run_cmd_spec(s: MachineView, task: RaftTask, data: Seq<u8>) -> (MachineView, Result<(), Seq<char>>) {
    let node = data[0];
    match task {
        RaftTask::Schedule => if s.executing.contains_key(node) {
            (
                MachineView {
                    executing: s.executing.insert(node, exec_unit_of(data.subrange(1, data.len() as int))),
                    free: s.free,
                },
                Ok(()),
            )
        } else {
            (s, Err(schedule_refused()))
        },
        RaftTask::UnSchedule => if !s.executing.contains_key(node) {
            (MachineView { executing: s.executing.remove(node), free: s.free }, Ok(()))
        } else {
            (s, Err(unschedule_refused()))
        },
        RaftTask::Occupy => if s.free.contains(node) {
            (MachineView { executing: s.executing, free: remove_node(s.free, node) }, Ok(()))
        } else {
            (s, Err(occupy_refused()))
        },
        RaftTask::Vacate => if !s.free.contains(node) {
            (MachineView { executing: s.executing, free: s.free.push(node) }, Ok(()))
        } else {
            (s, Err(vacate_refused()))
        },
    }
}

/// Whether the payload fits the task for `run_cmd`: it holds a
/// node byte first in the payload, and for `Schedule` at least one byte of
/// an execution unit after it.
pub open spec fn command_applicable(task: RaftTask, data: Seq<u8>) -> bool {
    &&& data.len() >= 1
    &&& task == RaftTask::Schedule ==> data.len() >= 2
}

/// Whether `res` is the outcome `expected`, a refusal carrying the same reason.
pub open spec fn outcome_matches(res: Result<(), ScheduleError>, expected: Result<(), Seq<char>>) -> bool {
    match (res, expected) {
        (Ok(()), Ok(())) => true,
        (Err(e), Err(m)) => e@ == m,
        _ => false,
    }
}

/// Tracks which node runs which unit of work, and which nodes are free.
pub struct StateMachine {
    executing: HashMap<u8, ExecUnit>,
    free_nodes: Vec<u8>,
}

impl View for StateMachine {
    type V = MachineView;

    closed spec fn view(&self) -> MachineView {
        MachineView {
            executing: self.executing@.map_values(|u: ExecUnit| (u.task, u.data@)),
            free: self.free_nodes@,
        }
    }
}

impl StateMachine {
    /// No node is listed twice among the free nodes.
    #[verifier::type_invariant]
    closed spec fn inv(self) -> bool {
        self.free_nodes@.no_duplicates()
    }

    pub fn new() -> (m: Self)
        ensures
            m@.executing == Map::<u8, (ExecTask, Seq<u8>)>::empty(),
            m@.free == Seq::<u8>::empty(),
    {
        let m = Self { executing: HashMap::new(), free_nodes: Vec::new() };
        assert(m@.executing =~= Map::<u8, (ExecTask, Seq<u8>)>::empty());
        m
    }

    /// Applies one command; see `run_cmd_spec`.
    pub fn run_cmd(&mut self, cmd: RaftCommand) -> (res: Result<(), ScheduleError>)
        requires
            command_applicable(cmd.task, cmd.data@),
        ensures
            final(self)@ == run_cmd_spec(old(self)@, cmd.task, cmd.data@).0,
            outcome_matches(res, run_cmd_spec(old(self)@, cmd.task, cmd.data@).1),
            final(self)@.free.no_duplicates(),
    {
        proof {
            use_type_invariant(&*self);
        }
        let ghost pre = self@;
        match cmd.task {
            RaftTask::Schedule => {
                let node = cmd.data[0];
                let data = ExecUnit::from_bytes(wire::suffix(&cmd.data, 1));
                if self.executing.contains_key(&node) {
                    let ghost unit = (data.task, data.data@);
                    let mut executing = HashMap::new();
                    std::mem::swap(&mut executing, &mut self.executing);
                    executing.insert(node, data);
                    self.executing = executing;
                    assert(self@.executing =~= pre.executing.insert(node, unit));
                    Ok(())
                } else {
                    Err(ScheduleError("Couldn't schedule".to_owned()))
                }
            },
            RaftTask::UnSchedule => {
                let node = cmd.data[0];
                if !self.executing.contains_key(&node) {
                    let mut executing = HashMap::new();
                    std::mem::swap(&mut executing, &mut self.executing);
                    executing.remove(&node);
                    self.executing = executing;
                    assert(self@.executing =~= pre.executing.remove(node));
                    Ok(())
                } else {
                    Err(ScheduleError("Couldn't unschedule".to_owned()))
                }
            },
            RaftTask::Occupy => {
                let node = cmd.data[0];
                if wire::contains(&self.free_nodes, node) {
                    let rest = wire::without(&self.free_nodes, node);
                    proof {
                        wire::lemma_remove_node(self.free_nodes@, node);
                    }
                    self.free_nodes = rest;
                    Ok(())
                } else {
                    Err(ScheduleError("Couldn't occupy".to_owned()))
                }
            },
            RaftTask::Vacate => {
                let node = cmd.data[0];
                if !wire::contains(&self.free_nodes, node) {
                    proof {
                        wire::lemma_push_fresh(self.free_nodes@, node);
                    }
                    let mut free_nodes = Vec::new();
                    std::mem::swap(&mut free_nodes, &mut self.free_nodes);
                    free_nodes.push(node);
                    self.free_nodes = free_nodes;
                    Ok(())
                } else {
                    Err(ScheduleError("Couldn't vacate".to_owned()))
                }
            },
        }
    }
}

/// Reading back the wire form of a command gives the same task, node and payload.
pub proof fn lemma_command_decode_encode(task: RaftTask, node: u8, data: Seq<u8>)
    ensures
        ({
            let bytes = command_bytes(task, node, data);
            &&& bytes.len() >= 2
            &&& RaftTask::from_code(bytes[0]) == task
            &&& bytes[1] == node
            &&& bytes.subrange(2, bytes.len() as int) == data
        }),
{
    let bytes = command_bytes(task, node, data);
    assert(bytes.subrange(2, bytes.len() as int) =~= data);
}

/// Writing back a command read from bytes whose first byte is a task code
/// gives the same bytes.
pub proof fn lemma_command_encode_decode(bytes: Seq<u8>)
    requires
        bytes.len() >= 2,
        1 <= bytes[0] <= 4,
    ensures
        command_bytes(RaftTask::from_code(bytes[0]), bytes[1], bytes.subrange(2, bytes.len() as int))
            == bytes,
{
    assert(command_bytes(RaftTask::from_code(bytes[0]), bytes[1], bytes.subrange(2, bytes.len() as int))
        =~= bytes);
}

/// Reading back the wire form of an execution unit gives the same task and payload.
pub proof fn lemma_exec_unit_decode_encode(task: ExecTask, data: Seq<u8>)
    ensures
        exec_unit_bytes(task, data).len() >= 1,
        exec_unit_of(exec_unit_bytes(task, data)) == (task, data),
{
    assert(exec_unit_bytes(task, data).subrange(1, exec_unit_bytes(task, data).len() as int) =~= data);
}

/// Writing back an execution unit read from bytes whose first byte is a task
/// code gives the same bytes.
pub proof fn lemma_exec_unit_encode_decode(bytes: Seq<u8>)
    requires
        bytes.len() >= 1,
        1 <= bytes[0] <= 3,
    ensures
        exec_unit_bytes(exec_unit_of(bytes).0, exec_unit_of(bytes).1) == bytes,
{
    assert(exec_unit_bytes(exec_unit_of(bytes).0, exec_unit_of(bytes).1) =~= bytes);
}

/// A refused command leaves the machine as it was.
pub proof fn lemma_refusal_keeps_state(s: MachineView, task: RaftTask, data: Seq<u8>)
    requires
        command_applicable(task, data),
        run_cmd_spec(s, task, data).1 is Err,
    ensures
        run_cmd_spec(s, task, data).0 == s,
{
}

/// No command changes which nodes are executing: only the unit of a node
/// that already executes can be replaced.
pub proof fn lemma_executing_nodes_unchanged(s: MachineView, task: RaftTask, data: Seq<u8>)
    requires
        command_applicable(task, data),
    ensures
        run_cmd_spec(s, task, data).0.executing.dom() == s.executing.dom(),
{
    let node = data[0];
    if task == RaftTask::Schedule && s.executing.contains_key(node) {
        assert(s.executing.insert(node, exec_unit_of(data.subrange(1, data.len() as int))).dom()
            =~= s.executing.dom());
    }
    if task == RaftTask::UnSchedule && !s.executing.contains_key(node) {
        assert(s.executing.remove(node).dom() =~= s.executing.dom());
    }
}

/// A machine made by `new` refuses every `Schedule` command: no node ever
/// executes, so there is no unit to replace.
pub proof fn lemma_new_machine_refuses_schedule(s: MachineView, data: Seq<u8>)
    requires
        s.executing.dom() == Set::<u8>::empty(),
        command_applicable(RaftTask::Schedule, data),
    ensures
        run_cmd_spec(s, RaftTask::Schedule, data) == (s, Err::<(), Seq<char>>(schedule_refused())),
{
    assert(!s.executing.dom().contains(data[0]));
}

/// Every command keeps the free list without repeats.
pub proof fn lemma_command_keeps_distinct(s: MachineView, task: RaftTask, data: Seq<u8>)
    requires
        command_applicable(task, data),
        s.free.no_duplicates(),
    ensures
        run_cmd_spec(s, task, data).0.free.no_duplicates(),
{
    let node = data[0];
    crate::wire::lemma_remove_node(s.free, node);
    if !s.free.contains(node) {
        crate::wire::lemma_push_fresh(s.free, node);
    }
}

/// The states a machine made by `new` can reach: no node ever executes, and
/// the free list never holds a node twice. Both hold of `new`'s state and are
/// kept by every command.
pub proof fn lemma_reachable_states(s: MachineView, task: RaftTask, data: Seq<u8>)
    requires
        command_applicable(task, data),
        s.executing.dom() == Set::<u8>::empty(),
        s.free.no_duplicates(),
    ensures
        run_cmd_spec(s, task, data).0.executing.dom() == Set::<u8>::empty(),
        run_cmd_spec(s, task, data).0.free.no_duplicates(),
{
    lemma_executing_nodes_unchanged(s, task, data);
    lemma_command_keeps_distinct(s, task, data);
}

/// Vacating a node that is not free and then occupying it again gives back
/// the machine exactly as it was, free list included; both commands succeed.
pub proof fn lemma_vacate_then_occupy(s: MachineView, vacate: Seq<u8>, occupy: Seq<u8>)
    requires
        vacate.len() >= 1,
        occupy.len() >= 1,
        vacate[0] == occupy[0],
        !s.free.contains(vacate[0]),
    ensures
        run_cmd_spec(s, RaftTask::Vacate, vacate).1 is Ok,
        run_cmd_spec(run_cmd_spec(s, RaftTask::Vacate, vacate).0, RaftTask::Occupy, occupy).1 is Ok,
        run_cmd_spec(run_cmd_spec(s, RaftTask::Vacate, vacate).0, RaftTask::Occupy, occupy).0 == s,
{
    lemma_remove_pushed(s.free, vacate[0]);
    crate::wire::lemma_push_contains(s.free, vacate[0], vacate[0]);
}

/// Occupying a free node and then vacating it again gives back the machine
/// with the same free nodes, that node now last in the list; both commands
/// succeed.
pub proof fn lemma_occupy_then_vacate(s: MachineView, occupy: Seq<u8>, vacate: Seq<u8>)
    requires
        vacate.len() >= 1,
        occupy.len() >= 1,
        vacate[0] == occupy[0],
        s.free.contains(occupy[0]),
    ensures
        run_cmd_spec(s, RaftTask::Occupy, occupy).1 is Ok,
        run_cmd_spec(run_cmd_spec(s, RaftTask::Occupy, occupy).0, RaftTask::Vacate, vacate).1 is Ok,
        run_cmd_spec(run_cmd_spec(s, RaftTask::Occupy, occupy).0, RaftTask::Vacate, vacate).0
            == (MachineView { executing: s.executing, free: remove_node(s.free, occupy[0]).push(occupy[0]) }),
        run_cmd_spec(run_cmd_spec(s, RaftTask::Occupy, occupy).0, RaftTask::Vacate, vacate).0.free.to_set()
            == s.free.to_set(),
{
    let n = occupy[0];
    crate::wire::lemma_remove_node(s.free, n);
    assert(remove_node(s.free, n).push(n).to_set() =~= s.free.to_set()) by {
        assert forall|y: u8| remove_node(s.free, n).push(n).contains(y) <==> s.free.contains(y) by {
            crate::wire::lemma_push_contains(remove_node(s.free, n), n, y);
        }
    }
}

/// Taking a value out of a list that just had it appended, and did not hold
/// it before, gives back the list.
pub proof fn lemma_remove_pushed(v: Seq<u8>, x: u8)
    requires
        !v.contains(x),
    ensures
        remove_node(v.push(x), x) == v,
{
    reveal_with_fuel(Seq::<_>::filter, 1);
    assert(v.push(x).drop_last() =~= v);
    crate::wire::lemma_remove_node(v, x);
}

/// The wire codes: the scheduling tasks are 1 to 4 and the execution tasks
/// 1 to 3, in the order they are declared; reading a byte gives the task of
/// that code, and any other byte reads as the last task.
pub proof fn lemma_task_codes(b: u8)
    ensures
        RaftTask::Schedule.spec_code() == 1,
        RaftTask::UnSchedule.spec_code() == 2,
        RaftTask::Occupy.spec_code() == 3,
        RaftTask::Vacate.spec_code() == 4,
        1 <= b <= 4 ==> RaftTask::from_code(b).spec_code() == b,
        !(1 <= b <= 4) ==> RaftTask::from_code(b) == RaftTask::Vacate,
        ExecTask::UnRoll.spec_code() == 1,
        ExecTask::Render.spec_code() == 2,
        ExecTask::RollUp.spec_code() == 3,
        1 <= b <= 3 ==> ExecTask::from_code(b).spec_code() == b,
        !(1 <= b <= 3) ==> ExecTask::from_code(b) == ExecTask::RollUp,
{
}

/// `Schedule` succeeds exactly when the node named by the payload's first
/// byte is executing; it then gives that node the unit read from the rest of
/// the payload and changes nothing else. Otherwise it is refused with
/// "Couldn't schedule" and nothing changes.
pub proof fn lemma_schedule_behaviour(s: MachineView, data: Seq<u8>)
    requires
        data.len() >= 2,
    ensures
        ({
            let (t, r) = run_cmd_spec(s, RaftTask::Schedule, data);
            let n = data[0];
            &&& (r is Ok <==> s.executing.contains_key(n))
            &&& r is Ok ==> {
                &&& t.free == s.free
                &&& t.executing.dom() == s.executing.dom()
                &&& t.executing[n] == (ExecTask::from_code(data[1]), data.subrange(2, data.len() as int))
                &&& forall|m: u8| m != n && s.executing.contains_key(m) ==> t.executing[m] == s.executing[m]
            }
            &&& r is Err ==> t == s && r == Err::<(), Seq<char>>("Couldn't schedule"@)
        }),
{
    let n = data[0];
    let rest = data.subrange(1, data.len() as int);
    assert(rest[0] == data[1]);
    assert(rest.subrange(1, rest.len() as int) =~= data.subrange(2, data.len() as int));
    if s.executing.contains_key(n) {
        assert(s.executing.insert(n, exec_unit_of(rest)).dom() =~= s.executing.dom());
    }
}

/// `UnSchedule` succeeds exactly when the node named by the payload's first
/// byte is not executing, whatever the free list holds; it never changes
/// anything. A refusal says "Couldn't unschedule".
pub proof fn lemma_unschedule_behaviour(s: MachineView, data: Seq<u8>)
    requires
        data.len() >= 1,
    ensures
        ({
            let (t, r) = run_cmd_spec(s, RaftTask::UnSchedule, data);
            &&& (r is Ok <==> !s.executing.contains_key(data[0]))
            &&& t == s
            &&& r is Err ==> r == Err::<(), Seq<char>>("Couldn't unschedule"@)
        }),
{
    if !s.executing.contains_key(data[0]) {
        assert(s.executing.remove(data[0]) =~= s.executing);
    }
}

/// `Occupy` succeeds exactly when the node named by the payload's first byte
/// is anywhere in the free list; it then takes every copy of that node out of
/// the list, keeps the other free nodes in their order, and leaves the
/// executing nodes alone. Otherwise it is refused with "Couldn't occupy" and
/// nothing changes.
pub proof fn lemma_occupy_behaviour(s: MachineView, data: Seq<u8>)
    requires
        data.len() >= 1,
    ensures
        ({
            let (t, r) = run_cmd_spec(s, RaftTask::Occupy, data);
            let n = data[0];
            &&& (r is Ok <==> s.free.contains(n))
            &&& r is Ok ==> {
                &&& t.executing == s.executing
                &&& t.free == s.free.filter(|y: u8| y != n)
                &&& forall|y: u8| t.free.contains(y) <==> (s.free.contains(y) && y != n)
            }
            &&& r is Err ==> t == s && r == Err::<(), Seq<char>>("Couldn't occupy"@)
        }),
{
    let n = data[0];
    crate::wire::lemma_remove_node(s.free, n);
    lemma_filter_ext(s.free, other_than(n), |y: u8| y != n);
}

/// Filtering with two predicates that agree everywhere gives the same list.
pub proof fn lemma_filter_ext(v: Seq<u8>, p: spec_fn(u8) -> bool, q: spec_fn(u8) -> bool)
    requires
        forall|y: u8| #[trigger] p(y) == q(y),
    ensures
        v.filter(p) == v.filter(q),
    decreases v.len(),
{
    reveal_with_fuel(Seq::<_>::filter, 1);
    if v.len() > 0 {
        lemma_filter_ext(v.drop_last(), p, q);
    }
}

/// `Vacate` succeeds exactly when the node named by the payload's first byte
/// is nowhere in the free list; it then appends that node at the end of the
/// list and leaves the executing nodes alone. Otherwise it is refused with
/// "Couldn't vacate" and nothing changes.
pub proof fn lemma_vacate_behaviour(s: MachineView, data: Seq<u8>)
    requires
        data.len() >= 1,
    ensures
        ({
            let (t, r) = run_cmd_spec(s, RaftTask::Vacate, data);
            let n = data[0];
            &&& (r is Ok <==> !s.free.contains(n))
            &&& r is Ok ==> t.executing == s.executing && t.free == s.free.push(n)
                && t.free.len() == s.free.len() + 1 && t.free.last() == n
            &&& r is Err ==> t == s && r == Err::<(), Seq<char>>("Couldn't vacate"@)
        }),
{
}

} // verus!
