//! The text of the live progress report: short agent ids, task titles, previews
//! of agent replies, artifact and dependency lists, and when the report ends.
use vstd::prelude::*;

use crate::bus::HatchMessage;
use crate::ids::{hyphenated, id_text, AgentId, TaskId};
use crate::pipeline::{decimal, decimal_text};
use crate::text::{lemma_map_push, lemma_map_take_next, concat2, concat3, concat4, copy_str, join, join_strings, string_of_range, chars_of};
use crate::types::{AgentOutput, ExecutionPlan, Task};

verus! {

/// Characters of an agent reply shown in its preview.
pub const PREVIEW_CHARS: usize = 160;

/// An agent id as shown: its first eight characters and an ellipsis when longer.
pub open spec fn short_id_text(id: AgentId) -> Seq<char> {
    let s = hyphenated(id);
    if s.len() > 8 {
        s.take(8) + "…"@
    } else {
        s
    }
}

/// The short form of an agent id.
pub fn short_id(id: AgentId) -> (r: String)
    ensures
        r@ == short_id_text(id),
{
    let s = id_text(id);
    let v = chars_of(s.as_str());
    if v.len() > 8 {
        let head = string_of_range(&v, 0, 8);
        concat2(head.as_str(), "…")
    } else {
        s
    }
}

/// Index of the first task of `tasks` with id `tid`.
pub open spec fn first_task_with(tasks: Seq<Task>, tid: TaskId) -> Option<int>
    decreases tasks.len(),
{
    if tasks.len() == 0 {
        None
    } else if tasks[0].id == tid {
        Some(0)
    } else {
        match first_task_with(tasks.drop_first(), tid) {
            Some(i) => Some(i + 1),
            None => None,
        }
    }
}

/// How a task is named in the report: `name (agent_type)` of the first task of the
/// plan with that id, or `task <id>` when the plan has none.
pub open spec fn task_title_text(tasks: Seq<Task>, tid: TaskId) -> Seq<char> {
    match first_task_with(tasks, tid) {
        Some(i) => tasks[i].name@ + " ("@ + tasks[i].agent_type@ + ")"@,
        None => "task "@ + hyphenated(tid),
    }
}

proof fn lemma_first_task_with(tasks: Seq<Task>, tid: TaskId, i: int)
    requires
        0 <= i < tasks.len(),
        tasks[i].id == tid,
        forall|j: int| 0 <= j < i ==> tasks[j].id != tid,
    ensures
        first_task_with(tasks, tid) == Some(i),
    decreases i,
{
    if i > 0 {
        assert forall|j: int| 0 <= j < i - 1 implies tasks.drop_first()[j].id != tid by {
            assert(tasks.drop_first()[j] == tasks[j + 1]);
        }
        lemma_first_task_with(tasks.drop_first(), tid, i - 1);
    }
}

proof fn lemma_no_task_with(tasks: Seq<Task>, tid: TaskId)
    requires
        forall|j: int| 0 <= j < tasks.len() ==> tasks[j].id != tid,
    ensures
        first_task_with(tasks, tid) is None,
    decreases tasks.len(),
{
    if tasks.len() > 0 {
        assert forall|j: int| 0 <= j < tasks.len() - 1 implies tasks.drop_first()[j].id != tid by {
            assert(tasks.drop_first()[j] == tasks[j + 1]);
        }
        lemma_no_task_with(tasks.drop_first(), tid);
    }
}

/// The title of task `tid` in `plan`.
pub fn task_title(plan: &ExecutionPlan, tid: TaskId) -> (r: String)
    ensures
        r@ == task_title_text(plan.tasks@, tid),
{
    let mut i: usize = 0;
    while i < plan.tasks.len()
        invariant
            i <= plan.tasks.len(),
            forall|j: int| 0 <= j < i ==> plan.tasks@[j].id != tid,
        decreases plan.tasks.len() - i,
    {
        let t = &plan.tasks[i];
        if t.id == tid {
            proof {
                lemma_first_task_with(plan.tasks@, tid, i as int);
            }
            return concat4(t.name.as_str(), " (", t.agent_type.as_str(), ")");
        }
        i = i + 1;
    }
    proof {
        lemma_no_task_with(plan.tasks@, tid);
    }
    let id = id_text(tid);
    concat2("task ", id.as_str())
}

/// The preview of an agent reply: its first `PREVIEW_CHARS` characters, followed
/// by an ellipsis when it is longer.
pub open spec fn preview_text(content: Seq<char>) -> Seq<char> {
    if content.len() > PREVIEW_CHARS {
        content.take(PREVIEW_CHARS as int) + "…"@
    } else {
        content
    }
}

/// The preview line of an agent reply.
pub fn content_preview(content: &str) -> (r: String)
    ensures
        r@ == preview_text(content@),
{
    let v = chars_of(content);
    if v.len() > PREVIEW_CHARS {
        let head = string_of_range(&v, 0, PREVIEW_CHARS);
        concat2(head.as_str(), "…")
    } else {
        copy_str(content)
    }
}

/// The names of an output's artifacts, separated by `, `.
pub fn artifact_list(out: &AgentOutput) -> (r: String)
    ensures
        r@ == join(out.artifacts@.map_values(|a: crate::types::Artifact| a.name@), ", "@),
{
    let mut names: Vec<String> = Vec::new();
    let mut i: usize = 0;
    while i < out.artifacts.len()
        invariant
            i <= out.artifacts.len(),
            names@.map_values(|p: String| p@) == out.artifacts@.take(i as int).map_values(
                |a: crate::types::Artifact| a.name@,
            ),
        decreases out.artifacts.len() - i,
    {
        let n = copy_str(out.artifacts[i].name.as_str());
        let ghost before = names@;
        names.push(n);
        proof {
            assert(names@ == before.push(n));
            lemma_map_push(before, n, |p: String| p@);
            lemma_map_take_next(out.artifacts@, i as int, |a: crate::types::Artifact| a.name@);
        }
        i = i + 1;
    }
    assert(out.artifacts@.take(out.artifacts@.len() as int) =~= out.artifacts@);
    join_strings(&names, ", ")
}

/// A dependency list as printed: the ids in brackets, separated by `, `.
pub open spec fn id_list_text(ids: Seq<TaskId>) -> Seq<char> {
    "["@ + join(ids.map_values(|t: TaskId| hyphenated(t)), ", "@) + "]"@
}

/// The dependency list of a task.
pub fn id_list(ids: &Vec<TaskId>) -> (r: String)
    ensures
        r@ == id_list_text(ids@),
{
    let mut texts: Vec<String> = Vec::new();
    let mut i: usize = 0;
    while i < ids.len()
        invariant
            i <= ids.len(),
            texts@.map_values(|p: String| p@) == ids@.take(i as int).map_values(
                |t: TaskId| hyphenated(t),
            ),
        decreases ids.len() - i,
    {
        let t = id_text(ids[i]);
        let ghost before = texts@;
        texts.push(t);
        proof {
            assert(texts@ == before.push(t));
            lemma_map_push(before, t, |p: String| p@);
            lemma_map_take_next(ids@, i as int, |t: TaskId| hyphenated(t));
        }
        i = i + 1;
    }
    assert(ids@.take(ids@.len() as int) =~= ids@);
    let inner = join_strings(&texts, ", ");
    concat3("[", inner.as_str(), "]")
}

/// The position label of the `i`-th task (counting from zero) in the execution graph.
pub fn position_label(i: usize) -> (r: String)
    requires
        i < usize::MAX,
    ensures
        r@ == "["@ + decimal(i as nat + 1) + "]"@,
{
    let n = decimal_text((i + 1) as u64);
    concat3("[", n.as_str(), "]")
}

/// The line announcing a finished agent.
pub fn finished_line(out: &AgentOutput) -> (r: String)
    ensures
        r@ == "Agent "@ + short_id_text(out.agent_id) + " finished task "@ + hyphenated(out.task_id),
{
    let a = short_id(out.agent_id);
    let t = id_text(out.task_id);
    concat4("Agent ", a.as_str(), " finished task ", t.as_str())
}

/// The note printed when the report fell behind the bus by `n` messages.
pub fn lagged_note(n: u64) -> (r: String)
    ensures
        r@ == "(console: lagged "@ + decimal(n as nat) + " messages — increase bus capacity)"@,
{
    let d = decimal_text(n);
    concat3("(console: lagged ", d.as_str(), " messages — increase bus capacity)")
}

/// Whether the live report ends with this message: it stops at the end of the run.
pub fn ends_report(msg: &HatchMessage) -> (r: bool)
    ensures
        r == (msg is RunComplete),
{
    match msg {
        HatchMessage::RunComplete { .. } => true,
        _ => false,
    }
}

} // verus!
