//! The scheduler that the replicated log drives: which node runs which
//! payload, and which nodes are free; and the step that applies the next log
//! entry to it.

use vstd::prelude::*;
use std::collections::HashMap;
use crate::raft::{RaftCommand, RaftLog, RaftTask, header_task, header_node};
use crate::scheduler::{
    ScheduleError, outcome_matches, remove_node, lemma_remove_pushed, schedule_refused, unschedule_refused, occupy_refused, vacate_refused,
};
use crate::wire;

verus! {

broadcast use vstd::std_specs::hash::group_hash_axioms;

/// The state of a `Scheduler`: the list of free nodes, in the order they
/// became free, and the payload each busy node executes.
pub struct SchedulerView {
    pub free: Seq<u8>,
    pub executing: Map<u8, Seq<u8>>,
}

impl SchedulerView {
    /// No node is both free and executing.
    pub open spec fn disjoint(self) -> bool {
        forall|n: u8| !(self.free.contains(n) && self.executing.contains_key(n))
    }
}

/// What a command of task `task` for `node` with payload `data` does to a
/// scheduler in state `s`: the next state, and `Ok` or the reason of the
/// refusal. Occupying moves a free node that executes nothing to executing
/// `data`; vacating moves an executing node that is not free back to the
/// free nodes.
pub open spec fn run_cmd_spec(s: SchedulerView, task: RaftTask, node: u8, data: Seq<u8>) -> (SchedulerView, Result<(), Seq<char>>) {
    match task {
        RaftTask::Occupy => if s.free.contains(node) {
            if !s.executing.contains_key(node) {
                (SchedulerView { free: remove_node(s.free, node), executing: s.executing.insert(node, data) }, Ok(()))
            } else {
                (s, Err(schedule_refused()))
            }
        } else {
            (s, Err(occupy_refused()))
        },
        RaftTask::Vacate => if s.executing.contains_key(node) {
            if !s.free.contains(node) {
                (SchedulerView { free: s.free.push(node), executing: s.executing.remove(node) }, Ok(()))
            } else {
                (s, Err(vacate_refused()))
            }
        } else {
            (s, Err(unschedule_refused()))
        },
    }
}

/// What the command whose wire form is `input` (at least one byte) does to `s`.
pub open spec fn input_spec(s: SchedulerView, input: Seq<u8>) -> (SchedulerView, Result<(), Seq<char>>) {
    run_cmd_spec(s, header_task(input[0]), header_node(input[0]), input.subrange(1, input.len() as int))
}

/// Tracks which nodes are free and what each busy node executes.
pub struct Scheduler {
    free_nodes: Vec<u8>,
    executing: HashMap<u8, Vec<u8>>,
}

impl View for Scheduler {
    type V = SchedulerView;

    closed spec fn view(&self) -> SchedulerView {
        SchedulerView {
            free: self.free_nodes@,
            executing: self.executing@.map_values(|v: Vec<u8>| v@),
        }
    }
}

impl Scheduler {
    /// No node is listed twice among the free nodes, and none is both free
    /// and executing.
    #[verifier::type_invariant]
    closed spec fn inv(self) -> bool {
        &&& self.free_nodes@.no_duplicates()
        &&& forall|n: u8| !(self.free_nodes@.contains(n) && self.executing@.contains_key(n))
    }

    /// Restates the invariant over the view.
    proof fn lemma_view_disjoint(self)
        requires
            self.inv(),
        ensures
            self@.disjoint(),
    {
        assert forall|n: u8| !(self@.free.contains(n) && self@.executing.contains_key(n)) by {
            assert(self@.free.contains(n) == self.free_nodes@.contains(n));
        }
    }

    pub fn default() -> (s: Self)
        ensures
            s@.free == Seq::<u8>::empty(),
            s@.executing == Map::<u8, Seq<u8>>::empty(),
            s@.disjoint(),
    {
        let s = Self { executing: HashMap::new(), free_nodes: Vec::new() };
        assert(s@.executing =~= Map::<u8, Seq<u8>>::empty());
        s
    }

    /// Reads a command from `input` (see `RaftCommand::from_bytes`) and applies it.
    pub fn updater(&mut self, input: &Vec<u8>) -> (res: Result<(), ScheduleError>)
        requires
            input@.len() >= 1,
        ensures
            old(self)@.disjoint(),
            final(self)@.disjoint(),
            final(self)@.free.no_duplicates(),
            final(self)@ == input_spec(old(self)@, input@).0,
            outcome_matches(res, input_spec(old(self)@, input@).1),
    {
        self.run_cmd(RaftCommand::from_bytes(input))
    }

    fn run_cmd(&mut self, cmd: RaftCommand) -> (res: Result<(), ScheduleError>)
        ensures
            old(self)@.disjoint(),
            final(self)@.disjoint(),
            final(self)@.free.no_duplicates(),
            final(self)@ == run_cmd_spec(old(self)@, cmd.task, cmd.node, cmd.data@).0,
            outcome_matches(res, run_cmd_spec(old(self)@, cmd.task, cmd.node, cmd.data@).1),
    {
        proof {
            use_type_invariant(&*self);
            self.lemma_view_disjoint();
        }
        let ghost pre = self@;
        match cmd.task {
            RaftTask::Occupy => {
                let node = cmd.node;
                if wire::contains(&self.free_nodes, node) {
                    if !self.executing.contains_key(&node) {
                        let rest = wire::without(&self.free_nodes, node);
                        proof {
                            wire::lemma_remove_node(self.free_nodes@, node);
                        }
                        let ghost payload = cmd.data@;
                        let mut executing = HashMap::new();
                        std::mem::swap(&mut executing, &mut self.executing);
                        let ghost old_executing = executing@;
                        executing.insert(node, cmd.data);
                        assert forall|n: u8| !(rest@.contains(n) && executing@.contains_key(n)) by {
                            if rest@.contains(n) {
                                assert(pre.free.contains(n) && n != node);
                                assert(!old_executing.contains_key(n));
                            }
                        }
                        *self = Scheduler { free_nodes: rest, executing };
                        assert(self@.executing =~= pre.executing.insert(node, payload));
                        Ok(())
                    } else {
                        Err(ScheduleError::new("Couldn't schedule".to_owned()))
                    }
                } else {
                    Err(ScheduleError::new("Couldn't occupy".to_owned()))
                }
            },
            RaftTask::Vacate => {
                let node = cmd.node;
                if self.executing.contains_key(&node) {
                    if !wire::contains(&self.free_nodes, node) {
                        proof {
                            wire::lemma_push_fresh(self.free_nodes@, node);
                        }
                        let mut executing = HashMap::new();
                        std::mem::swap(&mut executing, &mut self.executing);
                        let mut free_nodes = Vec::new();
                        std::mem::swap(&mut free_nodes, &mut self.free_nodes);
                        let ghost old_free = free_nodes@;
                        let ghost old_executing = executing@;
                        free_nodes.push(node);
                        executing.remove(&node);
                        assert forall|n: u8| !(free_nodes@.contains(n) && executing@.contains_key(n)) by {
                            if free_nodes@.contains(n) && n != node {
                                let k = choose|k: int| 0 <= k < free_nodes@.len() && free_nodes@[k] == n;
                                assert(old_free[k] == n);
                                assert(old_free.contains(n));
                                assert(!old_executing.contains_key(n));
                            }
                        }
                        *self = Scheduler { free_nodes, executing };
                        assert(self@.executing =~= pre.executing.remove(node));
                        Ok(())
                    } else {
                        Err(ScheduleError::new("Couldn't vacate".to_owned()))
                    }
                } else {
                    Err(ScheduleError::new("Couldn't unschedule".to_owned()))
                }
            },
        }
    }
}

/// What one attempt to apply the next log entry came to.
pub enum ApplyOutcome {
    /// The log holds no entry to apply yet.
    Waiting,
    /// The entry was applied and the cursor moved past it.
    Applied,
    /// The scheduler refused the entry; the cursor stays on it.
    Rejected(ScheduleError),
}

/// One step of the log applier: when an entry follows the one at `curr_idx`,
/// the entry at `curr_idx` is applied to `state`. Returns the new cursor and
/// what happened. The newest entry of the log is not applied until another
/// follows it.
pub fn apply_next(state: &mut Scheduler, log: &RaftLog, curr_idx: usize) -> (res: (usize, ApplyOutcome))
    requires
        curr_idx + 1 < log@.len() ==> log@[curr_idx as int].1@.len() >= 1,
    ensures
        curr_idx + 1 < log@.len() ==> ({
            let step = input_spec(old(state)@, log@[curr_idx as int].1@);
            &&& final(state)@ == step.0
            &&& match step.1 {
                Ok(()) => res.0 == curr_idx + 1 && res.1 is Applied,
                Err(m) => res.0 == curr_idx && (res.1 matches ApplyOutcome::Rejected(e) && e@ == m),
            }
        }),
        final(state)@.disjoint(),
        final(state)@.free.no_duplicates(),
        !(curr_idx + 1 < log@.len()) ==> final(state)@ == old(state)@ && res.0 == curr_idx && res.1 is Waiting,
{
    proof {
        use_type_invariant(&*state);
        state.lemma_view_disjoint();
    }
    if curr_idx < log.len() && curr_idx + 1 < log.len() {
        let data = &log[curr_idx].1;
        match state.updater(data) {
            Ok(()) => (curr_idx + 1, ApplyOutcome::Applied),
            Err(e) => (curr_idx, ApplyOutcome::Rejected(e)),
        }
    } else {
        (curr_idx, ApplyOutcome::Waiting)
    }
}

/// Every command keeps a scheduler consistent: no node becomes both free and
/// executing, and the free list stays without repeats.
pub proof fn lemma_command_keeps_consistent(s: SchedulerView, task: RaftTask, node: u8, data: Seq<u8>)
    requires
        s.disjoint(),
        s.free.no_duplicates(),
    ensures
        run_cmd_spec(s, task, node, data).0.disjoint(),
        run_cmd_spec(s, task, node, data).0.free.no_duplicates(),
{
    wire::lemma_remove_node(s.free, node);
    assert forall|y: u8| s.free.push(node).contains(y) <==> (s.free.contains(y) || y == node) by {
        wire::lemma_push_contains(s.free, node, y);
    }
    if !s.free.contains(node) {
        wire::lemma_push_fresh(s.free, node);
    }
    let t = run_cmd_spec(s, task, node, data).0;
    assert forall|n: u8| !(t.free.contains(n) && t.executing.contains_key(n)) by {
        if t.free.contains(n) && t.executing.contains_key(n) {
            assert(n != node);
            assert(s.free.contains(n) && s.executing.contains_key(n));
        }
    }
}

/// A node only moves between the free list and the executing nodes: the
/// nodes that are free or executing stay the same.
pub proof fn lemma_nodes_only_move(s: SchedulerView, task: RaftTask, node: u8, data: Seq<u8>)
    ensures
        run_cmd_spec(s, task, node, data).0.free.to_set() + run_cmd_spec(s, task, node, data).0.executing.dom()
            == s.free.to_set() + s.executing.dom(),
{
    let t = run_cmd_spec(s, task, node, data).0;
    wire::lemma_remove_node(s.free, node);
    assert forall|y: u8| (t.free.to_set() + t.executing.dom()).contains(y) <==> (s.free.to_set() + s.executing.dom()).contains(y) by {
        wire::lemma_push_contains(s.free, node, y);
    }
    assert(t.free.to_set() + t.executing.dom() =~= s.free.to_set() + s.executing.dom());
}

/// A refused command leaves the scheduler as it was.
pub proof fn lemma_refusal_keeps_state(s: SchedulerView, task: RaftTask, node: u8, data: Seq<u8>)
    requires
        run_cmd_spec(s, task, node, data).1 is Err,
    ensures
        run_cmd_spec(s, task, node, data).0 == s,
{
}

/// On a consistent scheduler, occupying succeeds exactly for a free node and
/// vacating exactly for an executing one.
pub proof fn lemma_success_condition(s: SchedulerView, task: RaftTask, node: u8, data: Seq<u8>)
    requires
        s.disjoint(),
    ensures
        task == RaftTask::Occupy ==> (run_cmd_spec(s, task, node, data).1 is Ok <==> s.free.contains(node)),
        task == RaftTask::Vacate ==> (run_cmd_spec(s, task, node, data).1 is Ok <==> s.executing.contains_key(node)),
{
}

/// A scheduler with no free and no executing node refuses every command and
/// stays as it is; `Scheduler::default` makes such a scheduler.
pub proof fn lemma_empty_refuses_all(s: SchedulerView, task: RaftTask, node: u8, data: Seq<u8>)
    requires
        s.free == Seq::<u8>::empty(),
        s.executing == Map::<u8, Seq<u8>>::empty(),
    ensures
        run_cmd_spec(s, task, node, data).1 is Err,
        run_cmd_spec(s, task, node, data).0 == s,
{
}

/// On a consistent scheduler, occupying a free node and then vacating it
/// gives back the same executing nodes and the same free nodes, that node now
/// last in the list; both commands succeed.
pub proof fn lemma_occupy_then_vacate(s: SchedulerView, node: u8, data: Seq<u8>, vacate_data: Seq<u8>)
    requires
        s.disjoint(),
        s.free.contains(node),
    ensures
        run_cmd_spec(s, RaftTask::Occupy, node, data).1 is Ok,
        run_cmd_spec(run_cmd_spec(s, RaftTask::Occupy, node, data).0, RaftTask::Vacate, node, vacate_data).1 is Ok,
        run_cmd_spec(run_cmd_spec(s, RaftTask::Occupy, node, data).0, RaftTask::Vacate, node, vacate_data).0
            == (SchedulerView { free: remove_node(s.free, node).push(node), executing: s.executing }),
        run_cmd_spec(run_cmd_spec(s, RaftTask::Occupy, node, data).0, RaftTask::Vacate, node, vacate_data).0.free.to_set()
            == s.free.to_set(),
{
    wire::lemma_remove_node(s.free, node);
    assert(s.executing.insert(node, data).remove(node) =~= s.executing);
    assert(remove_node(s.free, node).push(node).to_set() =~= s.free.to_set()) by {
        assert forall|y: u8| remove_node(s.free, node).push(node).contains(y) <==> s.free.contains(y) by {
            wire::lemma_push_contains(remove_node(s.free, node), node, y);
        }
    }
}

/// On a consistent scheduler, vacating a node and then occupying it again
/// with the payload it executed gives back the scheduler exactly as it was,
/// free list included; both commands succeed.
pub proof fn lemma_vacate_then_occupy(s: SchedulerView, node: u8, vacate_data: Seq<u8>)
    requires
        s.disjoint(),
        s.executing.contains_key(node),
    ensures
        run_cmd_spec(s, RaftTask::Vacate, node, vacate_data).1 is Ok,
        run_cmd_spec(run_cmd_spec(s, RaftTask::Vacate, node, vacate_data).0, RaftTask::Occupy, node, s.executing[node]).1 is Ok,
        run_cmd_spec(run_cmd_spec(s, RaftTask::Vacate, node, vacate_data).0, RaftTask::Occupy, node, s.executing[node]).0 == s,
{
    lemma_remove_pushed(s.free, node);
    wire::lemma_push_contains(s.free, node, node);
    assert(s.executing.remove(node).insert(node, s.executing[node]) =~= s.executing);
}

/// Occupying succeeds exactly when the node is in the free list and does not
/// execute; it then takes the node out of the free list, keeping the other
/// free nodes in their order, and makes it execute `data`. A node that is not
/// free is refused with "Couldn't occupy", a free node that executes with
/// "Couldn't schedule"; a refusal changes nothing.
pub proof fn lemma_occupy_behaviour(s: SchedulerView, node: u8, data: Seq<u8>)
    ensures
        ({
            let (t, r) = run_cmd_spec(s, RaftTask::Occupy, node, data);
            &&& (r is Ok <==> (s.free.contains(node) && !s.executing.contains_key(node)))
            &&& r is Ok ==> {
                &&& t.free == s.free.filter(|y: u8| y != node)
                &&& (forall|y: u8| t.free.contains(y) <==> (s.free.contains(y) && y != node))
                &&& t.executing == s.executing.insert(node, data)
                &&& t.executing[node] == data
            }
            &&& !s.free.contains(node) ==> t == s && r == Err::<(), Seq<char>>("Couldn't occupy"@)
            &&& s.free.contains(node) && s.executing.contains_key(node) ==> t == s
                && r == Err::<(), Seq<char>>("Couldn't schedule"@)
        }),
{
    wire::lemma_remove_node(s.free, node);
    crate::scheduler::lemma_filter_ext(s.free, crate::scheduler::other_than(node), |y: u8| y != node);
}

/// Vacating succeeds exactly when the node executes and is not in the free
/// list; it then appends the node at the end of the free list and stops its
/// execution, leaving the other nodes alone. A node that does not execute is
/// refused with "Couldn't unschedule", an executing node that is free with
/// "Couldn't vacate"; a refusal changes nothing.
pub proof fn lemma_vacate_behaviour(s: SchedulerView, node: u8, data: Seq<u8>)
    ensures
        ({
            let (t, r) = run_cmd_spec(s, RaftTask::Vacate, node, data);
            &&& (r is Ok <==> (s.executing.contains_key(node) && !s.free.contains(node)))
            &&& r is Ok ==> {
                &&& t.free == s.free.push(node)
                &&& t.executing == s.executing.remove(node)
                &&& !t.executing.contains_key(node)
            }
            &&& !s.executing.contains_key(node) ==> t == s && r == Err::<(), Seq<char>>("Couldn't unschedule"@)
            &&& s.executing.contains_key(node) && s.free.contains(node) ==> t == s
                && r == Err::<(), Seq<char>>("Couldn't vacate"@)
        }),
{
}

/// An input's first byte carries the task in its top bit and the node in
/// its low seven bits; the rest is the payload.
pub proof fn lemma_input_decoding(s: SchedulerView, input: Seq<u8>)
    requires
        input.len() >= 1,
    ensures
        input_spec(s, input) == run_cmd_spec(
            s,
            if input[0] >= 128 { RaftTask::Occupy } else { RaftTask::Vacate },
            (input[0] % 128) as u8,
            input.subrange(1, input.len() as int),
        ),
{
}

} // verus!
