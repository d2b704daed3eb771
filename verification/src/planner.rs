//! Planning: the prompts sent to the planner model and the construction of an
//! execution plan (stable task IDs, dependencies resolved by task name) from the
//! task list the model returned.
use vstd::prelude::*;

use crate::ids::{new_id, version_four, RunId, TaskId};
use crate::text::{concat3, concat4, concat5, copy_str, str_eq};
use crate::types::{ExecutionPlan, HatchError, Task, TaskSpec};
use vstd::seq_lib::seq_to_set_is_finite;
use vstd::set_lib::{lemma_int_range, lemma_len_subset, lemma_set_empty_equivalency_len, set_int_range};

verus! {

/// Most tokens the planner model may answer with.
pub const PLANNER_MAX_TOKENS: u32 = 2048;

/// System prompt sent to the LLM when building a plan.
pub const PLANNER_SYSTEM: &'static str = "You are the HATCH planner meta-agent.
Respond with ONLY a single JSON object (no markdown fences, no commentary).
Schema:
{
  \"tasks\": [
    {
      \"name\": \"short title\",
      \"description\": \"what the sub-agent should do\",
      \"agent_type\": \"frontend|backend|devops|data|generic\",
      \"dependencies\": []
    }
  ]
}
Use dependency task names in \"dependencies\" when order matters; otherwise use [].
# Integration constraints (IMPORTANT):
- Prefer a typical fullstack layout with top-level folders: `frontend/` and `backend/` when you have both roles.
- The backend must expose a REST API under `/api/*` and be runnable with `npm run dev` or `npm run start` inside `backend/`.
- The frontend must call the backend API (prefer `VITE_API_URL` / `REACT_APP_API_URL` env vars, otherwise use relative `/api` paths).
";

/// What follows the intent in the planner's user message.
pub const PLANNER_SHAPE: &'static str = "\n\nReturn ONLY valid JSON with this shape (no markdown):\n{\"tasks\":[{\"name\":\"...\",\"description\":\"...\",\"agent_type\":\"frontend|backend|devops|data|generic\",\"dependencies\":[]}]}";

/// The user message asking the planner model to decompose `intent`.
pub fn planner_user_prompt(intent: &str) -> (r: String)
    ensures
        r@ == "User intent:\n"@ + intent@ + PLANNER_SHAPE@,
{
    concat3("User intent:\n", intent, PLANNER_SHAPE)
}

/// The text `format!("{:?}", s)` gives for a string: `s` in double quotes with
/// its quotes, backslashes and special characters escaped (`<str as Debug>::fmt`).
pub uninterp spec fn debug_quoted(s: Seq<char>) -> Seq<char>;

/// `<str as Debug>::fmt`, through `format!("{:?}", ..)`. The contract claims only
/// that the text is `debug_quoted` of the argument; the escaping rules are std's.
#[verifier::external_body]
fn debug_text(s: &str) -> (r: String)
    ensures
        r@ == debug_quoted(s@),
{
    format!("{:?}", s)
}

/// The planner error for a reply whose JSON body could not be read: the reader's
/// message `detail`, then the body as a quoted string.
pub fn planner_json_error(detail: &str, json: &str) -> (e: HatchError)
    ensures
        e matches HatchError::Planner(m) && m@ == "invalid planner json: "@ + detail@ + "; body: "@
            + debug_quoted(json@),
{
    let body = debug_text(json);
    HatchError::Planner(concat4("invalid planner json: ", detail, "; body: ", body.as_str()))
}

/// Index of the last task spec named `name`.
pub open spec fn last_named(specs: Seq<TaskSpec>, name: Seq<char>) -> Option<int>
    decreases specs.len(),
{
    if specs.len() == 0 {
        None
    } else if specs.last().name@ == name {
        Some(specs.len() - 1)
    } else {
        last_named(specs.drop_last(), name)
    }
}

/// The identifier a dependency name resolves to: that of the last task with that
/// name (a later task of the same name takes the name over).
pub open spec fn id_for(specs: Seq<TaskSpec>, ids: Seq<TaskId>, name: Seq<char>) -> Option<TaskId> {
    match last_named(specs, name) {
        Some(j) => Some(ids[j]),
        None => None,
    }
}

/// The error for the first dependency in `deps` that names no task.
pub open spec fn unknown_in_deps(specs: Seq<TaskSpec>, deps: Seq<String>, task: Seq<char>) -> Option<
    Seq<char>,
>
    decreases deps.len(),
{
    if deps.len() == 0 {
        None
    } else if last_named(specs, deps[0]@) is None {
        Some("unknown dependency '"@ + deps[0]@ + "' for task '"@ + task + "'"@)
    } else {
        unknown_in_deps(specs, deps.drop_first(), task)
    }
}

/// The error for the first unknown dependency, tasks taken in order.
pub open spec fn unknown_dependency(specs: Seq<TaskSpec>, tasks: Seq<TaskSpec>) -> Option<
    Seq<char>,
>
    decreases tasks.len(),
{
    if tasks.len() == 0 {
        None
    } else {
        match unknown_in_deps(specs, tasks[0].dependencies@, tasks[0].name@) {
            Some(m) => Some(m),
            None => unknown_dependency(specs, tasks.drop_first()),
        }
    }
}

/// The task at position `a` depends on the task at position `b`: it lists a
/// dependency whose name resolves to `b`.
pub open spec fn dep_edge(specs: Seq<TaskSpec>, a: int, b: int) -> bool {
    &&& 0 <= a < specs.len()
    &&& exists|d: int|
        0 <= d < specs[a].dependencies@.len() && #[trigger] last_named(
            specs,
            specs[a].dependencies@[d]@,
        ) == Some(b)
}

/// `rank` puts every task above the tasks it depends on.
pub open spec fn ranks_dependencies(specs: Seq<TaskSpec>, rank: Seq<nat>) -> bool {
    &&& rank.len() == specs.len()
    &&& forall|a: int, b: int| #[trigger] dep_edge(specs, a, b) ==> rank[b] < rank[a]
}

/// The dependencies of the tasks form no cycle: the tasks can be ranked so that
/// every task comes above the tasks it depends on.
pub open spec fn dependencies_acyclic(specs: Seq<TaskSpec>) -> bool {
    exists|rank: Seq<nat>| #[trigger] ranks_dependencies(specs, rank)
}

/// The error when the dependencies form a cycle.
pub open spec fn cycle_error() -> Seq<char> {
    "planner returned cyclic task dependencies"@
}

/// Why a plan cannot be built from `specs`, if it cannot: no task, a dependency
/// that names no task, or dependencies that form a cycle (the plan is a DAG).
pub open spec fn plan_error(specs: Seq<TaskSpec>) -> Option<Seq<char>> {
    if specs.len() == 0 {
        Some("planner returned zero tasks"@)
    } else if unknown_dependency(specs, specs) is Some {
        unknown_dependency(specs, specs)
    } else if !dependencies_acyclic(specs) {
        Some(cycle_error())
    } else {
        None
    }
}

/// The plan's tasks, as a graph from each task's identifier to its dependencies'
/// identifiers, have no cycle: some ranking of identifiers puts every task above
/// each of its dependencies.
pub open spec fn tasks_acyclic(tasks: Seq<Task>) -> bool {
    exists|rank: spec_fn(TaskId) -> nat| #[trigger] ranks_tasks(tasks, rank)
}

/// `rank` puts every task's identifier above its dependencies' identifiers.
pub open spec fn ranks_tasks(tasks: Seq<Task>, rank: spec_fn(TaskId) -> nat) -> bool {
    forall|k: int, d: int|
        0 <= k < tasks.len() && 0 <= d < tasks[k].dependencies@.len() ==> rank(
            #[trigger] tasks[k].dependencies@[d],
        ) < rank(tasks[k].id)
}

/// No two identifiers are equal.
pub open spec fn distinct_ids(ids: Seq<TaskId>) -> bool {
    forall|i: int, j: int| 0 <= i < j < ids.len() ==> ids[i] != ids[j]
}

/// No two tasks of the plan share an identifier.
pub open spec fn distinct_task_ids(tasks: Seq<Task>) -> bool {
    forall|i: int, j: int| 0 <= i < j < tasks.len() ==> tasks[i].id != tasks[j].id
}

/// `task` is the plan task built from `spec`, with its own identifier `id`, the
/// identifiers of all tasks being `ids`.
pub open spec fn task_built_from(
    task: Task,
    spec: TaskSpec,
    id: TaskId,
    specs: Seq<TaskSpec>,
    ids: Seq<TaskId>,
) -> bool {
    &&& task.id == id
    &&& task.name@ == spec.name@
    &&& task.description@ == spec.description@
    &&& task.agent_type@ == spec.agent_type@
    &&& task.dependencies@.len() == spec.dependencies@.len()
    &&& forall|d: int|
        0 <= d < spec.dependencies@.len() ==> Some(#[trigger] task.dependencies@[d]) == id_for(
            specs,
            ids,
            spec.dependencies@[d]@,
        )
}

/// Each plan task is built from the spec at the same position and takes the
/// identifier at that position.
pub open spec fn tasks_built_from(tasks: Seq<Task>, specs: Seq<TaskSpec>, ids: Seq<TaskId>) -> bool {
    &&& tasks.len() == specs.len()
    &&& forall|k: int|
        0 <= k < specs.len() ==> task_built_from(#[trigger] tasks[k], specs[k], ids[k], specs, ids)
}

/// The identifier for `name`, searching the specs from the last one.
fn lookup_id(specs: &[TaskSpec], ids: &[TaskId], name: &str) -> (r: Option<TaskId>)
    requires
        ids.len() == specs.len(),
    ensures
        r == id_for(specs@, ids@, name@),
{
    let mut i = specs.len();
    assert(specs@.take(i as int) =~= specs@);
    while i > 0
        invariant
            i <= specs.len(),
            ids.len() == specs.len(),
            last_named(specs@, name@) == last_named(specs@.take(i as int), name@),
        decreases i,
    {
        let ghost t = specs@.take(i as int);
        assert(t.drop_last() =~= specs@.take(i - 1));
        if str_eq(specs[i - 1].name.as_str(), name) {
            assert(t.last() == specs@[i - 1]);
            return Some(ids[i - 1]);
        }
        i = i - 1;
    }
    None
}

/// The position a name resolves to: that of the last task with that name.
fn lookup_index(specs: &[TaskSpec], name: &str) -> (r: Option<usize>)
    ensures
        match r {
            Some(j) => last_named(specs@, name@) == Some(j as int) && j < specs@.len(),
            None => last_named(specs@, name@) is None,
        },
{
    let mut i = specs.len();
    assert(specs@.take(i as int) =~= specs@);
    while i > 0
        invariant
            i <= specs.len(),
            last_named(specs@, name@) == last_named(specs@.take(i as int), name@),
        decreases i,
    {
        let ghost t = specs@.take(i as int);
        assert(t.drop_last() =~= specs@.take(i - 1));
        if str_eq(specs[i - 1].name.as_str(), name) {
            assert(t.last() == specs@[i - 1]);
            return Some(i - 1);
        }
        i = i - 1;
    }
    None
}

/// Every dependency edge between task positions, each as (task, dependency).
fn dependency_edges(specs: &[TaskSpec]) -> (r: Vec<(usize, usize)>)
    ensures
        forall|i: int|
            0 <= i < r@.len() ==> (#[trigger] r@[i]).0 < specs@.len() && r@[i].1 < specs@.len()
                && dep_edge(specs@, r@[i].0 as int, r@[i].1 as int),
        forall|a: int, b: int|
            #[trigger] dep_edge(specs@, a, b) ==> exists|i: int|
                0 <= i < r@.len() && (#[trigger] r@[i]).0 == a && r@[i].1 == b,
{
    let mut r: Vec<(usize, usize)> = Vec::new();
    let mut k: usize = 0;
    while k < specs.len()
        invariant
            k <= specs.len(),
            forall|i: int|
                0 <= i < r@.len() ==> (#[trigger] r@[i]).0 < specs@.len() && r@[i].1 < specs@.len()
                    && dep_edge(specs@, r@[i].0 as int, r@[i].1 as int),
            forall|a: int, b: int|
                0 <= a < k && #[trigger] dep_edge(specs@, a, b) ==> exists|i: int|
                    0 <= i < r@.len() && (#[trigger] r@[i]).0 == a && r@[i].1 == b,
        decreases specs.len() - k,
    {
        let spec = &specs[k];
        let mut d: usize = 0;
        while d < spec.dependencies.len()
            invariant
                k < specs.len(),
                *spec == specs@[k as int],
                d <= spec.dependencies.len(),
                forall|i: int|
                    0 <= i < r@.len() ==> (#[trigger] r@[i]).0 < specs@.len() && r@[i].1
                        < specs@.len() && dep_edge(specs@, r@[i].0 as int, r@[i].1 as int),
                forall|a: int, b: int|
                    0 <= a < k && #[trigger] dep_edge(specs@, a, b) ==> exists|i: int|
                        0 <= i < r@.len() && (#[trigger] r@[i]).0 == a && r@[i].1 == b,
                forall|d2: int|
                    0 <= d2 < d && #[trigger] last_named(specs@, spec.dependencies@[d2]@)
                        is Some ==> exists|i: int|
                        0 <= i < r@.len() && (#[trigger] r@[i]).0 == k && r@[i].1
                            == last_named(specs@, spec.dependencies@[d2]@)->0,
            decreases spec.dependencies.len() - d,
        {
            match lookup_index(specs, spec.dependencies[d].as_str()) {
                None => {},
                Some(b) => {
                    proof {
                        assert(dep_edge(specs@, k as int, b as int)) by {
                            assert(last_named(specs@, specs@[k as int].dependencies@[d as int]@)
                                == Some(b as int));
                        }
                    }
                    let ghost before = r@;
                    r.push((k, b));
                    proof {
                        assert(r@[before.len() as int] == (k, b));
                        assert forall|i: int| 0 <= i < before.len() implies r@[i] == before[i] by {}
                    }
                },
            }
            d = d + 1;
        }
        proof {
            assert forall|a: int, b: int|
                0 <= a < k + 1 && #[trigger] dep_edge(specs@, a, b) implies exists|i: int|
                    0 <= i < r@.len() && (#[trigger] r@[i]).0 == a && r@[i].1 == b by {
                if a == k {
                    let d2 = choose|d2: int|
                        0 <= d2 < specs@[a].dependencies@.len() && #[trigger] last_named(
                            specs@,
                            specs@[a].dependencies@[d2]@,
                        ) == Some(b);
                    assert(last_named(specs@, spec.dependencies@[d2]@) is Some);
                }
            }
        }
        k = k + 1;
    }
    r
}

/// Whether every dependency edge out of position `v` reaches a ranked position.
fn targets_ranked(edges: &Vec<(usize, usize)>, ranked: &Vec<bool>, v: usize) -> (r: bool)
    requires
        forall|i: int| 0 <= i < edges@.len() ==> (#[trigger] edges@[i]).1 < ranked@.len(),
    ensures
        r == forall|i: int|
            0 <= i < edges@.len() && (#[trigger] edges@[i]).0 == v ==> ranked@[edges@[i].1 as int],
{
    let mut i: usize = 0;
    while i < edges.len()
        invariant
            i <= edges@.len(),
            forall|i2: int| 0 <= i2 < edges@.len() ==> (#[trigger] edges@[i2]).1 < ranked@.len(),
            forall|i2: int|
                0 <= i2 < i && (#[trigger] edges@[i2]).0 == v ==> ranked@[edges@[i2].1 as int],
        decreases edges.len() - i,
    {
        if edges[i].0 == v && !ranked[edges[i].1] {
            return false;
        }
        i = i + 1;
    }
    true
}

/// An unranked position all of whose dependencies are ranked, if there is one.
fn find_ready(edges: &Vec<(usize, usize)>, ranked: &Vec<bool>) -> (r: Option<usize>)
    requires
        forall|i: int| 0 <= i < edges@.len() ==> (#[trigger] edges@[i]).1 < ranked@.len(),
    ensures
        match r {
            Some(v) => v < ranked@.len() && !ranked@[v as int] && forall|i: int|
                0 <= i < edges@.len() && (#[trigger] edges@[i]).0 == v ==> ranked@[edges@[i].1 as int],
            None => forall|v: int|
                0 <= v < ranked@.len() && !#[trigger] ranked@[v] ==> exists|i: int|
                    0 <= i < edges@.len() && (#[trigger] edges@[i]).0 == v && !ranked@[edges@[i].1 as int],
        },
{
    let mut v: usize = 0;
    while v < ranked.len()
        invariant
            v <= ranked@.len(),
            forall|i: int| 0 <= i < edges@.len() ==> (#[trigger] edges@[i]).1 < ranked@.len(),
            forall|u: int|
                0 <= u < v && !#[trigger] ranked@[u] ==> exists|i: int|
                    0 <= i < edges@.len() && (#[trigger] edges@[i]).0 == u && !ranked@[edges@[i].1 as int],
        decreases ranked.len() - v,
    {
        if !ranked[v] && targets_ranked(edges, ranked, v) {
            return Some(v);
        }
        v = v + 1;
    }
    None
}

/// Every task of `todo` depends on another task of `todo`.
#[verifier::opaque]
spec fn stuck(specs: Seq<TaskSpec>, todo: Set<int>) -> bool {
    forall|v: int|
        #[trigger] todo.contains(v) ==> 0 <= v < specs.len() && exists|w: int|
            todo.contains(w) && #[trigger] dep_edge(specs, v, w)
}

/// Where every task of `todo` depends on another task of `todo`, no ranking of the
/// dependencies gives any of them a rank below `m`.
proof fn lemma_stuck_unranked(specs: Seq<TaskSpec>, todo: Set<int>, rk: Seq<nat>, m: nat)
    requires
        ranks_dependencies(specs, rk),
        stuck(specs, todo),
    ensures
        forall|v: int| #[trigger] todo.contains(v) ==> rk[v] >= m,
    decreases m,
{
    if m > 0 {
        lemma_stuck_unranked(specs, todo, rk, (m - 1) as nat);
        assert forall|v: int| #[trigger] todo.contains(v) implies rk[v] >= m by {
            reveal(stuck);
            let w = choose|w: int| todo.contains(w) && #[trigger] dep_edge(specs, v, w);
            assert(rk[w] >= m - 1);
        }
    }
}

/// When no unranked task is ready, the unranked tasks lie on a cycle.
proof fn lemma_stuck_cyclic(
    specs: Seq<TaskSpec>,
    edges: Seq<(usize, usize)>,
    ranked: Seq<bool>,
    todo: Set<int>,
)
    requires
        ranked.len() == specs.len(),
        forall|i2: int|
            0 <= i2 < edges.len() ==> (#[trigger] edges[i2]).0 < specs.len() && edges[i2].1
                < specs.len() && dep_edge(specs, edges[i2].0 as int, edges[i2].1 as int),
        todo.finite(),
        todo.len() > 0,
        forall|v: int| 0 <= v < specs.len() ==> (todo.contains(v) <==> !ranked[v]),
        forall|v: int| #[trigger] todo.contains(v) ==> 0 <= v < specs.len(),
        forall|v: int|
            0 <= v < ranked.len() && !#[trigger] ranked[v] ==> exists|i: int|
                0 <= i < edges.len() && (#[trigger] edges[i]).0 == v && !ranked[edges[i].1 as int],
    ensures
        !dependencies_acyclic(specs),
{
    assert(stuck(specs, todo)) by {
        reveal(stuck);
        assert forall|v: int| #[trigger] todo.contains(v) implies 0 <= v < specs.len() && exists|w: int|
            todo.contains(w) && #[trigger] dep_edge(specs, v, w) by {
            assert(!ranked[v]);
            let i2 = choose|i2: int|
                0 <= i2 < edges.len() && (#[trigger] edges[i2]).0 == v && !ranked[edges[i2].1 as int];
            let w = edges[i2].1 as int;
            assert(todo.contains(w));
            assert(dep_edge(specs, v, w));
        }
    }
    if dependencies_acyclic(specs) {
        let rk = choose|rk: Seq<nat>| #[trigger] ranks_dependencies(specs, rk);
        lemma_set_empty_equivalency_len(todo);
        let v0 = choose|v0: int| todo.contains(v0);
        lemma_stuck_unranked(specs, todo, rk, rk[v0] + 1);
    }
}

/// Whether the dependencies form no cycle. Tasks are ranked one at a time, each
/// once every task it depends on has a rank; the dependencies are acyclic exactly
/// when every task gets one.
fn dependencies_form_dag(specs: &[TaskSpec]) -> (r: bool)
    ensures
        r == dependencies_acyclic(specs@),
{
    let n = specs.len();
    let edges = dependency_edges(specs);
    let mut ranked: Vec<bool> = Vec::new();
    let mut rank: Vec<usize> = Vec::new();
    let mut i: usize = 0;
    while i < n
        invariant
            i <= n,
            ranked@.len() == i,
            rank@.len() == i,
            forall|j: int| 0 <= j < i ==> !ranked@[j],
        decreases n - i,
    {
        ranked.push(false);
        rank.push(0);
        i = i + 1;
    }
    let ghost mut todo: Set<int> = set_int_range(0, n as int);
    proof {
        lemma_int_range(0, n as int);
    }
    let mut count: usize = 0;
    while count < n
        invariant
            n == specs.len(),
            ranked@.len() == n,
            rank@.len() == n,
            count <= n,
            forall|i2: int|
                0 <= i2 < edges@.len() ==> (#[trigger] edges@[i2]).0 < n && edges@[i2].1 < n
                    && dep_edge(specs@, edges@[i2].0 as int, edges@[i2].1 as int),
            forall|a: int, b: int|
                #[trigger] dep_edge(specs@, a, b) ==> exists|i2: int|
                    0 <= i2 < edges@.len() && (#[trigger] edges@[i2]).0 == a && edges@[i2].1 == b,
            todo.finite(),
            todo.len() == n - count,
            forall|v: int| 0 <= v < n ==> (todo.contains(v) <==> !ranked@[v]),
            forall|v: int| #[trigger] todo.contains(v) ==> 0 <= v < n,
            forall|v: int| 0 <= v < n && #[trigger] ranked@[v] ==> rank@[v] < count,
            forall|i2: int|
                0 <= i2 < edges@.len() && ranked@[(#[trigger] edges@[i2]).0 as int] ==> ranked@[edges@[i2].1 as int]
                    && rank@[edges@[i2].1 as int] < rank@[edges@[i2].0 as int],
        decreases n - count,
    {
        match find_ready(&edges, &ranked) {
            None => {
                proof {
                    lemma_stuck_cyclic(specs@, edges@, ranked@, todo);
                }
                return false;
            },
            Some(v) => {
                let ghost old_ranked = ranked@;
                let ghost old_rank = rank@;
                ranked.set(v, true);
                rank.set(v, count);
                proof {
                    assert(todo.contains(v as int));
                    todo = todo.remove(v as int);
                    assert forall|i2: int|
                        0 <= i2 < edges@.len() && ranked@[(#[trigger] edges@[i2]).0 as int] implies ranked@[edges@[i2].1 as int]
                            && rank@[edges@[i2].1 as int] < rank@[edges@[i2].0 as int] by {
                        if edges@[i2].0 == v {
                            assert(old_ranked[edges@[i2].1 as int]);
                        } else {
                            assert(old_ranked[edges@[i2].0 as int]);
                        }
                    }
                }
                count = count + 1;
            },
        }
    }
    proof {
        lemma_set_empty_equivalency_len(todo);
        assert forall|v: int| 0 <= v < n implies #[trigger] ranked@[v] by {
            assert(!todo.contains(v));
        }
        let rk = rank@.map_values(|x: usize| x as nat);
        assert forall|a: int, b: int| #[trigger] dep_edge(specs@, a, b) implies rk[b] < rk[a] by {
            let i2 = choose|i2: int|
                0 <= i2 < edges@.len() && (#[trigger] edges@[i2]).0 == a && edges@[i2].1 == b;
            assert(ranked@[a]);
        }
        assert(ranks_dependencies(specs@, rk));
    }
    true
}

/// Builds the plan from the model's task list, task `k` taking the identifier
/// `ids[k]` and each dependency the identifier of the last task of that name.
/// Fails when the list is empty, a dependency names no task, or the dependencies
/// form a cycle; with distinct identifiers the plan's tasks then have distinct
/// identifiers and form a DAG.
pub fn assemble_plan(run_id: RunId, intent: &str, specs: &[TaskSpec], ids: &[TaskId]) -> (r: Result<
    ExecutionPlan,
    HatchError,
>)
    requires
        ids.len() == specs.len(),
    ensures
        match plan_error(specs@) {
            Some(m) => r matches Err(HatchError::Planner(e)) && e@ == m,
            None => r matches Ok(plan) && plan.run_id == run_id && plan.intent@ == intent@
                && tasks_built_from(plan.tasks@, specs@, ids@) && (distinct_ids(ids@)
                ==> distinct_task_ids(plan.tasks@) && tasks_acyclic(plan.tasks@)),
        },
{
    if specs.len() == 0 {
        return Err(HatchError::Planner(copy_str("planner returned zero tasks")));
    }
    let mut tasks: Vec<Task> = Vec::new();
    let mut k: usize = 0;
    assert(specs@.skip(0) =~= specs@);
    while k < specs.len()
        invariant
            k <= specs.len(),
            ids.len() == specs.len(),
            specs.len() > 0,
            unknown_dependency(specs@, specs@.skip(k as int)) == unknown_dependency(
                specs@,
                specs@,
            ),
            tasks@.len() == k,
            forall|x: int|
                0 <= x < k ==> task_built_from(#[trigger] tasks@[x], specs@[x], ids@[x], specs@, ids@),
        decreases specs.len() - k,
    {
        let spec = &specs[k];
        let id = ids[k];
        let mut deps: Vec<TaskId> = Vec::new();
        let mut d: usize = 0;
        let ghost rest = specs@.skip(k as int);
        assert(rest[0] == specs@[k as int]);
        assert(spec.dependencies@.skip(0) =~= spec.dependencies@);
        while d < spec.dependencies.len()
            invariant
                d <= spec.dependencies.len(),
                ids.len() == specs.len(),
                k < specs.len(),
                unknown_dependency(specs@, specs@.skip(k as int)) == unknown_dependency(
                    specs@,
                    specs@,
                ),
                rest == specs@.skip(k as int),
                rest[0] == specs@[k as int],
                specs@[k as int] == *spec,
                unknown_in_deps(specs@, spec.dependencies@.skip(d as int), spec.name@)
                    == unknown_in_deps(specs@, spec.dependencies@, spec.name@),
                deps@.len() == d,
                forall|y: int|
                    0 <= y < d ==> Some(#[trigger] deps@[y]) == id_for(
                        specs@,
                        ids@,
                        spec.dependencies@[y]@,
                    ),
            decreases spec.dependencies.len() - d,
        {
            let dep_name = &spec.dependencies[d];
            let ghost ds = spec.dependencies@.skip(d as int);
            assert(ds[0] == spec.dependencies@[d as int]);
            assert(ds.drop_first() =~= spec.dependencies@.skip(d + 1));
            match lookup_id(specs, ids, dep_name.as_str()) {
                Some(dep_id) => {
                    deps.push(dep_id);
                },
                None => {
                    proof {
                        assert(last_named(specs@, dep_name@) is None);
                        let m = "unknown dependency '"@ + dep_name@ + "' for task '"@
                            + spec.name@ + "'"@;
                        assert(unknown_in_deps(specs@, ds, spec.name@) == Some(m));
                        assert(unknown_dependency(specs@, rest) == Some(m));
                    }
                    return Err(
                        HatchError::Planner(
                            concat5(
                                "unknown dependency '",
                                dep_name.as_str(),
                                "' for task '",
                                spec.name.as_str(),
                                "'",
                            ),
                        ),
                    );
                },
            }
            d = d + 1;
        }
        assert(spec.dependencies@.skip(d as int) =~= Seq::<String>::empty());
        assert(rest.drop_first() =~= specs@.skip(k + 1));
        let task = Task {
            id,
            name: copy_str(spec.name.as_str()),
            description: copy_str(spec.description.as_str()),
            agent_type: copy_str(spec.agent_type.as_str()),
            dependencies: deps,
        };
        tasks.push(task);
        k = k + 1;
    }
    assert(specs@.skip(specs.len() as int) =~= Seq::<TaskSpec>::empty());
    if !dependencies_form_dag(specs) {
        return Err(HatchError::Planner(copy_str("planner returned cyclic task dependencies")));
    }
    proof {
        if distinct_ids(ids@) {
            law_plan_tasks_acyclic(tasks@, specs@, ids@);
            law_distinct_ids_give_distinct_tasks(tasks@, specs@, ids@);
        }
    }
    Ok(ExecutionPlan { run_id, intent: copy_str(intent), tasks })
}

/// `base` with the position `t` (below 2^64) folded into its random bits: bits
/// 0 to 61 and 64 to 65 change, the version and variant bits do not.
pub open spec fn id_variant(base: u128, t: u128) -> u128 {
    base ^ ((t & 0x3fff_ffff_ffff_ffffu128) | ((t >> 62u128) << 64u128))
}

proof fn lemma_variant_keeps_version(base: u128, t: u128)
    requires
        version_four(base),
        t < 0x1_0000_0000_0000_0000u128,
    ensures
        version_four(id_variant(base, t)),
{
    assert(((base ^ ((t & 0x3fff_ffff_ffff_ffffu128) | ((t >> 62u128) << 64u128))) >> 76u128)
        & 0xfu128 == (base >> 76u128) & 0xfu128 && ((base ^ ((t & 0x3fff_ffff_ffff_ffffu128) | ((t
        >> 62u128) << 64u128))) >> 62u128) & 0x3u128 == (base >> 62u128) & 0x3u128) by (bit_vector)
        requires
            t < 0x1_0000_0000_0000_0000u128,
    ;
}

proof fn lemma_variant_injective(base: u128, t1: u128, t2: u128)
    requires
        t1 < 0x1_0000_0000_0000_0000u128,
        t2 < 0x1_0000_0000_0000_0000u128,
        t1 != t2,
    ensures
        id_variant(base, t1) != id_variant(base, t2),
{
    assert(base ^ ((t1 & 0x3fff_ffff_ffff_ffffu128) | ((t1 >> 62u128) << 64u128)) != base ^ ((t2
        & 0x3fff_ffff_ffff_ffffu128) | ((t2 >> 62u128) << 64u128))) by (bit_vector)
        requires
            t1 < 0x1_0000_0000_0000_0000u128,
            t2 < 0x1_0000_0000_0000_0000u128,
            t1 != t2,
    ;
}

/// Among the variants of `base` at positions `0` to `earlier.len()`, one is not
/// in `earlier`: there are more variants than earlier identifiers.
proof fn lemma_free_variant(base: u128, earlier: Seq<u128>)
    requires
        earlier.len() < 0x1_0000_0000_0000_0000,
    ensures
        exists|t: int| 0 <= t <= earlier.len() && !earlier.contains(#[trigger] id_variant(base, t as u128)),
{
    let k = earlier.len() as int;
    let cands = Seq::new((k + 1) as nat, |t: int| id_variant(base, t as u128));
    if forall|t: int| 0 <= t <= k ==> earlier.contains(#[trigger] id_variant(base, t as u128)) {
        assert(cands.no_duplicates()) by {
            assert forall|i: int, j: int|
                0 <= i < cands.len() && 0 <= j < cands.len() && i != j implies cands[i] != cands[j] by {
                lemma_variant_injective(base, i as u128, j as u128);
            }
        }
        cands.unique_seq_to_set();
        seq_to_set_is_finite(earlier);
        assert(cands.to_set().subset_of(earlier.to_set())) by {
            assert forall|x: u128| cands.to_set().contains(x) implies earlier.to_set().contains(x) by {
                let t = choose|t: int| 0 <= t < cands.len() && cands[t] == x;
                assert(earlier.contains(id_variant(base, t as u128)));
            }
        }
        lemma_len_subset(cands.to_set(), earlier.to_set());
        earlier.lemma_cardinality_of_set();
    }
}

/// The variant of `base` at position `t`.
fn variant_of(base: u128, t: usize) -> (r: u128)
    ensures
        r == id_variant(base, t as u128),
{
    let tt = t as u128;
    base ^ ((tt & 0x3fff_ffff_ffff_ffffu128) | ((tt >> 62u128) << 64u128))
}

/// Whether `x` occurs in `ids`.
fn holds_id(ids: &Vec<TaskId>, x: TaskId) -> (r: bool)
    ensures
        r == ids@.contains(x),
{
    let mut i: usize = 0;
    while i < ids.len()
        invariant
            i <= ids@.len(),
            forall|j: int| 0 <= j < i ==> ids@[j] != x,
        decreases ids.len() - i,
    {
        if ids[i] == x {
            assert(ids@[i as int] == x);
            return true;
        }
        i = i + 1;
    }
    false
}

/// `n` fresh random identifiers, no two equal. A drawn identifier that repeats an
/// earlier one is replaced by its first variant that does not.
fn draw_task_ids(n: usize) -> (ids: Vec<TaskId>)
    ensures
        ids@.len() == n,
        distinct_ids(ids@),
        forall|i: int| 0 <= i < n ==> version_four(#[trigger] ids@[i]),
{
    let mut ids: Vec<TaskId> = Vec::new();
    let mut i: usize = 0;
    while i < n
        invariant
            i <= n,
            ids@.len() == i,
            distinct_ids(ids@),
            forall|j: int| 0 <= j < i ==> version_four(#[trigger] ids@[j]),
        decreases n - i,
    {
        let base = new_id();
        proof {
            lemma_free_variant(base, ids@);
        }
        let mut t: usize = 0;
        let mut id: u128 = variant_of(base, 0);
        while holds_id(&ids, id)
            invariant
                t <= i,
                ids@.len() == i,
                id == id_variant(base, t as u128),
                forall|s: int| 0 <= s < t ==> ids@.contains(#[trigger] id_variant(base, s as u128)),
                exists|f: int| 0 <= f <= ids@.len() && !ids@.contains(#[trigger] id_variant(base, f as u128)),
            decreases i - t,
        {
            proof {
                assert(t < i) by {
                    if t == i {
                        let f = choose|f: int|
                            0 <= f <= ids@.len() && !ids@.contains(#[trigger] id_variant(base, f as u128));
                        if f < t {
                            assert(ids@.contains(id_variant(base, f as u128)));
                        }
                    }
                }
            }
            t = t + 1;
            id = variant_of(base, t);
        }
        proof {
            lemma_variant_keeps_version(base, t as u128);
        }
        let ghost before = ids@;
        ids.push(id);
        proof {
            assert forall|a: int, b: int| 0 <= a < b < ids@.len() implies ids@[a] != ids@[b] by {
                if b == i {
                    assert(ids@[a] == before[a]);
                    assert(before.contains(before[a]));
                }
            }
            assert forall|j: int| 0 <= j < i + 1 implies version_four(#[trigger] ids@[j]) by {
                if j < i {
                    assert(ids@[j] == before[j]);
                }
            }
        }
        i = i + 1;
    }
    ids
}

/// Builds the plan from the model's task list, giving every task its own fresh
/// random (version 4) identifier, no two equal. Its result is that of
/// `assemble_plan` for those identifiers: on success the tasks have distinct
/// identifiers and their dependencies form a DAG.
pub fn build_execution_plan(run_id: RunId, intent: &str, specs: &[TaskSpec]) -> (r: Result<
    ExecutionPlan,
    HatchError,
>)
    ensures
        match plan_error(specs@) {
            Some(m) => r matches Err(HatchError::Planner(e)) && e@ == m,
            None => r matches Ok(plan) && plan.run_id == run_id && plan.intent@ == intent@
                && distinct_task_ids(plan.tasks@) && tasks_acyclic(plan.tasks@) && exists|ids: Seq<TaskId>|
                ids.len() == specs@.len() && distinct_ids(ids) && (forall|i: int|
                    0 <= i < ids.len() ==> version_four(#[trigger] ids[i])) && #[trigger] tasks_built_from(
                    plan.tasks@,
                    specs@,
                    ids,
                ),
        },
{
    let ids = draw_task_ids(specs.len());
    assemble_plan(run_id, intent, specs, &ids)
}

} // verus!

verus! {

proof fn lemma_last_named(specs: Seq<TaskSpec>, name: Seq<char>)
    ensures
        match last_named(specs, name) {
            Some(j) => 0 <= j < specs.len() && specs[j].name@ == name && forall|i: int|
                j < i < specs.len() ==> (#[trigger] specs[i]).name@ != name,
            None => forall|i: int| 0 <= i < specs.len() ==> (#[trigger] specs[i]).name@ != name,
        },
    decreases specs.len(),
{
    if specs.len() > 0 && specs.last().name@ != name {
        lemma_last_named(specs.drop_last(), name);
        assert forall|i: int| 0 <= i < specs.len() - 1 implies #[trigger] specs[i] == specs.drop_last()[i] by {}
    }
}

/// Law: every dependency of every planned task is the identifier of a task of the
/// same plan.
pub proof fn law_dependencies_point_to_plan_tasks(
    tasks: Seq<Task>,
    specs: Seq<TaskSpec>,
    ids: Seq<TaskId>,
)
    requires
        ids.len() == specs.len(),
        tasks_built_from(tasks, specs, ids),
    ensures
        forall|k: int, d: int|
            #![trigger tasks[k].dependencies@[d]]
            0 <= k < tasks.len() && 0 <= d < tasks[k].dependencies@.len() ==> exists|j: int|
                0 <= j < tasks.len() && (#[trigger] tasks[j]).id == tasks[k].dependencies@[d],
{
    assert forall|k: int, d: int|
        #![trigger tasks[k].dependencies@[d]]
        0 <= k < tasks.len() && 0 <= d < tasks[k].dependencies@.len() implies exists|j: int|
            0 <= j < tasks.len() && (#[trigger] tasks[j]).id == tasks[k].dependencies@[d] by {
        assert(task_built_from(tasks[k], specs[k], ids[k], specs, ids));
        let dep = specs[k].dependencies@[d]@;
        assert(Some(tasks[k].dependencies@[d]) == id_for(specs, ids, dep));
        lemma_last_named(specs, dep);
        assert(last_named(specs, dep) is Some);
        let j = last_named(specs, dep)->0;
        assert(task_built_from(tasks[j], specs[j], ids[j], specs, ids));
        assert(tasks[j].id == ids[j]);
    }
}

/// Law: a task whose dependency names another task of the list depends on exactly
/// that task's identifier, when no later task reuses the name.
pub proof fn law_named_dependency_resolves(
    tasks: Seq<Task>,
    specs: Seq<TaskSpec>,
    ids: Seq<TaskId>,
    k: int,
    d: int,
    j: int,
)
    requires
        ids.len() == specs.len(),
        tasks_built_from(tasks, specs, ids),
        0 <= k < specs.len(),
        0 <= d < specs[k].dependencies@.len(),
        0 <= j < specs.len(),
        specs[k].dependencies@[d]@ == specs[j].name@,
        forall|i: int| j < i < specs.len() ==> (#[trigger] specs[i]).name@ != specs[j].name@,
    ensures
        tasks[k].dependencies@[d] == tasks[j].id,
{
    assert(task_built_from(tasks[k], specs[k], ids[k], specs, ids));
    assert(task_built_from(tasks[j], specs[j], ids[j], specs, ids));
    lemma_last_named(specs, specs[j].name@);
}

/// Law: a plan built from acyclic dependencies, with distinct identifiers, is a
/// DAG: its tasks can be ranked by identifier so that every task stands above each
/// task it depends on (so no task depends on itself, directly or through others).
pub proof fn law_plan_tasks_acyclic(tasks: Seq<Task>, specs: Seq<TaskSpec>, ids: Seq<TaskId>)
    requires
        ids.len() == specs.len(),
        tasks_built_from(tasks, specs, ids),
        dependencies_acyclic(specs),
        distinct_ids(ids),
    ensures
        tasks_acyclic(tasks),
{
    let rk = choose|rk: Seq<nat>| #[trigger] ranks_dependencies(specs, rk);
    let by_id = |x: TaskId|
        if exists|j: int| 0 <= j < ids.len() && ids[j] == x {
            rk[choose|j: int| 0 <= j < ids.len() && ids[j] == x]
        } else {
            0nat
        };
    assert forall|k: int, d: int|
        0 <= k < tasks.len() && 0 <= d < tasks[k].dependencies@.len() implies by_id(
            #[trigger] tasks[k].dependencies@[d],
        ) < by_id(tasks[k].id) by {
        assert(task_built_from(tasks[k], specs[k], ids[k], specs, ids));
        let dep = specs[k].dependencies@[d]@;
        lemma_last_named(specs, dep);
        assert(Some(tasks[k].dependencies@[d]) == id_for(specs, ids, dep));
        let a = k;
        let b = last_named(specs, dep)->0;
        assert(last_named(specs, specs[k].dependencies@[d]@) == Some(b));
        assert(dep_edge(specs, a, b));
        assert(tasks[k].id == ids[a]);
        assert(tasks[k].dependencies@[d] == ids[b]);
        assert(0 <= a < ids.len() && ids[a] == ids[a]);
        assert(0 <= b < ids.len() && ids[b] == ids[b]);
        let ja = choose|j: int| 0 <= j < ids.len() && ids[j] == ids[a];
        let jb = choose|j: int| 0 <= j < ids.len() && ids[j] == ids[b];
        assert(ja == a) by {
            if ja < a {
                assert(ids[ja] != ids[a]);
            } else if ja > a {
                assert(ids[a] != ids[ja]);
            }
        }
        assert(jb == b) by {
            if jb < b {
                assert(ids[jb] != ids[b]);
            } else if jb > b {
                assert(ids[b] != ids[jb]);
            }
        }
        assert(by_id(ids[a]) == rk[a]);
        assert(by_id(ids[b]) == rk[b]);
    }
    assert(ranks_tasks(tasks, by_id));
}

/// Law: tasks built with distinct identifiers have distinct identifiers, whatever
/// their names (two tasks of one name are still two tasks).
pub proof fn law_distinct_ids_give_distinct_tasks(tasks: Seq<Task>, specs: Seq<TaskSpec>, ids: Seq<TaskId>)
    requires
        ids.len() == specs.len(),
        tasks_built_from(tasks, specs, ids),
        distinct_ids(ids),
    ensures
        distinct_task_ids(tasks),
{
    assert forall|i: int, j: int| 0 <= i < j < tasks.len() implies tasks[i].id != tasks[j].id by {
        assert(task_built_from(tasks[i], specs[i], ids[i], specs, ids));
        assert(task_built_from(tasks[j], specs[j], ids[j], specs, ids));
    }
}

} // verus!
