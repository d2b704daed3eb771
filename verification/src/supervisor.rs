//! The supervisor's decisions: tracking which plan tasks are still pending while
//! bus events arrive, ordering the collected outputs by plan, deciding which
//! artifact paths may be written, top-level folder approval, and the run summary.
use std::collections::{HashMap, HashSet};

use vstd::prelude::*;

use crate::bus::{HatchMessage, MessageBus};
use crate::ids::{RunId, TaskId};
use crate::materialize::{merge_summary, summary_lines};
use crate::text::{concat2, copy_str, join};
use crate::types::{AgentOutput, ExecutionPlan, HatchError, Task};

verus! {

/// How long a run may wait for its agents, in seconds.
pub const SUPERVISE_TIMEOUT_SECS: u64 = 3600;

broadcast use vstd::std_specs::hash::group_hash_axioms;

/// What the supervisor observes while waiting: a bus message, a receive error, or
/// the end of its waiting time.
pub enum SupervisorEvent {
    /// A message received from the bus.
    Message(HatchMessage),
    /// The receiver fell behind and this many messages were lost.
    Lagged(u64),
    /// The bus was closed.
    Closed,
    /// The deadline passed before all tasks finished.
    TimedOut,
}

/// Progress of one supervised run: the plan tasks still pending and the outputs
/// received so far, keyed by task.
pub struct SupervisorRun {
    pending: HashSet<TaskId>,
    by_task: HashMap<TaskId, AgentOutput>,
    expected: Ghost<Set<TaskId>>,
}

/// The task identifiers of a plan, in plan order.
pub open spec fn task_ids(tasks: Seq<Task>) -> Seq<TaskId> {
    tasks.map_values(|t: Task| t.id)
}

/// Outputs in plan order: for each task, in order, the output received for its
/// identifier, each output taken at most once.
pub open spec fn outputs_in_order(ids: Seq<TaskId>, m: Map<TaskId, AgentOutput>) -> Seq<AgentOutput>
    decreases ids.len(),
{
    if ids.len() == 0 {
        Seq::empty()
    } else if m.contains_key(ids[0]) {
        seq![m[ids[0]]] + outputs_in_order(ids.drop_first(), m.remove(ids[0]))
    } else {
        outputs_in_order(ids.drop_first(), m)
    }
}

impl SupervisorRun {
    /// Tasks still waiting for an output.
    pub closed spec fn pending(&self) -> Set<TaskId> {
        self.pending@
    }

    /// Outputs received so far, by task.
    pub closed spec fn received(&self) -> Map<TaskId, AgentOutput> {
        self.by_task@
    }

    /// All tasks of the supervised plan.
    pub closed spec fn expected(&self) -> Set<TaskId> {
        self.expected@
    }

    /// Every expected task is either pending or has exactly one output, filed
    /// under its own identifier.
    pub closed spec fn wf(&self) -> bool {
        &&& self.pending@.disjoint(self.by_task@.dom())
        &&& self.pending@ + self.by_task@.dom() == self.expected@
        &&& forall|k: TaskId| #[trigger]
            self.by_task@.contains_key(k) ==> self.by_task@[k].task_id == k
    }

    /// Starts supervising `plan`: every task is pending, nothing received yet.
    pub fn new(plan: &ExecutionPlan) -> (run: Self)
        ensures
            run.wf(),
            run.pending() == task_ids(plan.tasks@).to_set(),
            run.expected() == task_ids(plan.tasks@).to_set(),
            run.received() == Map::<TaskId, AgentOutput>::empty(),
    {
        let mut pending: HashSet<TaskId> = HashSet::new();
        let mut i: usize = 0;
        while i < plan.tasks.len()
            invariant
                i <= plan.tasks.len(),
                pending@ == task_ids(plan.tasks@.take(i as int)).to_set(),
            decreases plan.tasks.len() - i,
        {
            pending.insert(plan.tasks[i].id);
            i = i + 1;
            proof {
                let ids = task_ids(plan.tasks@.take(i as int));
                let prev = task_ids(plan.tasks@.take(i - 1));
                assert(ids =~= prev + seq![plan.tasks@[i - 1].id]);
                Seq::lemma_to_set_insert_commutes(prev, plan.tasks@[i - 1].id);
                assert(ids.to_set() =~= task_ids(plan.tasks@.take(i - 1)).to_set().insert(
                    plan.tasks@[i - 1].id,
                ));
            }
        }
        assert(plan.tasks@.take(plan.tasks.len() as int) =~= plan.tasks@);
        let by_task: HashMap<TaskId, AgentOutput> = HashMap::new();
        let run = SupervisorRun { pending, by_task, expected: Ghost(pending@) };
        assert(run.pending@ + run.by_task@.dom() =~= run.expected@);
        run
    }

    /// Whether every task of the plan has reported an output.
    pub fn is_complete(&self) -> (r: bool)
        ensures
            r == self.pending().is_empty(),
    {
        self.pending.is_empty()
    }

    /// Takes one observed event into account. A first output for a pending task is
    /// recorded; an output for any other task is ignored; a failed agent, a closed
    /// bus or a timeout ends supervision with an error.
    pub fn step(&mut self, ev: SupervisorEvent) -> (r: Result<(), HatchError>)
        requires
            old(self).wf(),
        ensures
            final(self).wf(),
            final(self).expected() == old(self).expected(),
            match ev {
                SupervisorEvent::Message(HatchMessage::AgentDone(out)) => {
                    &&& r is Ok
                    &&& if old(self).pending().contains(out.task_id) {
                        &&& final(self).pending() == old(self).pending().remove(out.task_id)
                        &&& final(self).received() == old(self).received().insert(
                            out.task_id,
                            out,
                        )
                    } else {
                        &&& final(self).pending() == old(self).pending()
                        &&& final(self).received() == old(self).received()
                    }
                },
                SupervisorEvent::Message(HatchMessage::AgentFailed { error, .. }) => {
                    &&& r matches Err(HatchError::Supervisor(m)) && m@ == "agent failed: "@
                        + error@
                    &&& final(self).pending() == old(self).pending()
                    &&& final(self).received() == old(self).received()
                },
                SupervisorEvent::Closed => {
                    &&& r matches Err(HatchError::Supervisor(m)) && m@
                        == "bus closed while supervising"@
                    &&& final(self).pending() == old(self).pending()
                    &&& final(self).received() == old(self).received()
                },
                SupervisorEvent::TimedOut => {
                    &&& r matches Err(HatchError::Supervisor(m)) && m@
                        == "supervisor timed out waiting for agents"@
                    &&& final(self).pending() == old(self).pending()
                    &&& final(self).received() == old(self).received()
                },
                _ => {
                    &&& r is Ok
                    &&& final(self).pending() == old(self).pending()
                    &&& final(self).received() == old(self).received()
                },
            },
    {
        match ev {
            SupervisorEvent::Message(HatchMessage::AgentDone(out)) => {
                let id = out.task_id;
                if self.pending.remove(&id) {
                    self.by_task.insert(id, out);
                    proof {
                        assert(self.pending@ + self.by_task@.dom() =~= self.expected@);
                        assert(self.pending@.disjoint(self.by_task@.dom()));
                        assert forall|k: TaskId| #[trigger]
                            self.by_task@.contains_key(k) implies self.by_task@[k].task_id
                            == k by {
                            if k != id {
                                assert(old(self).by_task@.contains_key(k));
                            }
                        }
                    }
                } else {
                    assert(self.pending@ =~= old(self).pending@);
                }
                Ok(())
            },
            SupervisorEvent::Message(HatchMessage::AgentFailed { error, .. }) => {
                Err(HatchError::Supervisor(concat2("agent failed: ", error.as_str())))
            },
            SupervisorEvent::Closed => {
                Err(HatchError::Supervisor(copy_str("bus closed while supervising")))
            },
            SupervisorEvent::TimedOut => {
                Err(HatchError::Supervisor(copy_str("supervisor timed out waiting for agents")))
            },
            _ => Ok(()),
        }
    }

    /// The received outputs in plan task order.
    pub fn into_outputs(self, tasks: &[Task]) -> (r: Vec<AgentOutput>)
        requires
            self.wf(),
        ensures
            r@ == outputs_in_order(task_ids(tasks@), self.received()),
    {
        let mut by_task = self.by_task;
        let ghost ids = task_ids(tasks@);
        let ghost m0 = by_task@;
        let mut out: Vec<AgentOutput> = Vec::new();
        let mut i: usize = 0;
        assert(ids.skip(0) =~= ids);
        while i < tasks.len()
            invariant
                i <= tasks.len(),
                ids == task_ids(tasks@),
                out@ + outputs_in_order(ids.skip(i as int), by_task@) == outputs_in_order(
                    ids,
                    m0,
                ),
            decreases tasks.len() - i,
        {
            let id = tasks[i].id;
            let ghost before = by_task@;
            proof {
                assert(ids.skip(i as int)[0] == id);
                assert(ids.skip(i as int).drop_first() =~= ids.skip(i + 1));
            }
            match by_task.remove(&id) {
                Some(o) => {
                    out.push(o);
                    proof {
                        assert(by_task@ =~= before.remove(id));
                        assert(seq![o] + outputs_in_order(ids.skip(i + 1), by_task@)
                            == outputs_in_order(ids.skip(i as int), before));
                        assert(out@ + outputs_in_order(ids.skip(i + 1), by_task@) =~= out@.drop_last() + (
                        seq![o] + outputs_in_order(ids.skip(i + 1), by_task@)));
                    }
                },
                None => {
                    assert(by_task@ =~= before);
                },
            }
            i = i + 1;
        }
        assert(ids.skip(tasks.len() as int) =~= Seq::<TaskId>::empty());
        assert(out@ + Seq::<AgentOutput>::empty() =~= out@);
        out
    }
}

/// The outcome of a completed run.
pub struct RunResult {
    /// Run identifier from the plan.
    pub run_id: RunId,
    /// Original user intent text.
    pub intent: String,
    /// Agent outputs in plan task order.
    pub outputs: Vec<AgentOutput>,
    /// Short textual summary for operators.
    pub summary: String,
    /// Folder the run's files were written to.
    pub output_dir: String,
    /// Paths of the files written, in order.
    pub written_files: Vec<String>,
}

/// Ends a run whose files are written: builds its result (the plan's run id and
/// intent, the outputs, their summary, the folder and the files written) and
/// announces the completion on the bus with the outputs. The result does not
/// depend on whether anyone hears the announcement.
pub fn finish_run(
    bus: &MessageBus,
    plan: &ExecutionPlan,
    outputs: Vec<AgentOutput>,
    output_dir: String,
    written_files: Vec<String>,
) -> (r: RunResult)
    ensures
        r.run_id == plan.run_id,
        r.intent@ == plan.intent@,
        r.outputs == outputs,
        r.summary@ == join(summary_lines(*plan, outputs@, output_dir@), "\n"@),
        r.output_dir == output_dir,
        r.written_files == written_files,
{
    let summary = merge_summary(plan, outputs.as_slice(), output_dir.as_str());
    let announced = outputs.clone();
    let _ = bus.publish(HatchMessage::RunComplete { run_id: plan.run_id, outputs: announced });
    RunResult {
        run_id: plan.run_id,
        intent: copy_str(plan.intent.as_str()),
        outputs,
        summary,
        output_dir,
        written_files,
    }
}

/// Law: a run is complete exactly when every task of its plan has an output.
pub proof fn law_complete_iff_all_received(run: SupervisorRun)
    requires
        run.wf(),
    ensures
        run.pending().is_empty() <==> run.received().dom() == run.expected(),
{
    if run.pending().is_empty() {
        assert(run.received().dom() =~= run.expected());
    }
    if run.received().dom() == run.expected() {
        assert(run.pending() =~= Set::<TaskId>::empty());
    }
}

/// Law: when plan tasks have distinct identifiers and each has an output, the
/// outputs come back one per task, in plan order.
pub proof fn law_outputs_follow_plan_order(ids: Seq<TaskId>, m: Map<TaskId, AgentOutput>)
    requires
        ids.no_duplicates(),
        forall|i: int| 0 <= i < ids.len() ==> m.contains_key(#[trigger] ids[i]),
    ensures
        outputs_in_order(ids, m) == ids.map_values(|id: TaskId| m[id]),
    decreases ids.len(),
{
    if ids.len() > 0 {
        let rest = ids.drop_first();
        let m2 = m.remove(ids[0]);
        assert forall|i: int| 0 <= i < rest.len() implies m2.contains_key(#[trigger] rest[i]) by {
            assert(rest[i] == ids[i + 1]);
        }
        assert(rest.no_duplicates());
        law_outputs_follow_plan_order(rest, m2);
        assert(rest.map_values(|id: TaskId| m2[id]) =~= rest.map_values(|id: TaskId| m[id]));
        assert(ids.map_values(|id: TaskId| m[id]) =~= seq![m[ids[0]]] + rest.map_values(
            |id: TaskId| m[id],
        ));
    } else {
        assert(ids.map_values(|id: TaskId| m[id]) =~= Seq::<AgentOutput>::empty());
    }
}

} // verus!
