//! Agent templates and the spawner's choice of what to launch for each plan task.
use vstd::prelude::*;

use crate::text::{concat3, copy_str, str_eq};
use crate::ids::{new_id, version_four, AgentId, TaskId};
use crate::paths::{extension_of, file_extension};
use crate::planner::{ranks_tasks, tasks_acyclic};
use crate::types::{HatchError, Task};

verus! {

/// Configuration loaded from an agent template file.
#[derive(Debug, Clone)]
pub struct AgentTemplate {
    /// Display name for logging.
    pub name: String,
    /// Template key matched against a task's `agent_type`.
    pub agent_type: String,
    /// System prompt injected into the LLM.
    pub system_prompt: String,
    /// Optional per-template default model override.
    pub model: Option<String>,
}

/// The templates of a list keyed by agent type, later entries winning.
pub open spec fn template_map(s: Seq<AgentTemplate>) -> Map<Seq<char>, AgentTemplate>
    decreases s.len(),
{
    if s.len() == 0 {
        Map::empty()
    } else {
        template_map(s.drop_last()).insert(s.last().agent_type@, s.last())
    }
}

/// No two templates of the list share an agent type.
pub open spec fn distinct_types(s: Seq<AgentTemplate>) -> bool {
    forall|i: int, j: int|
        0 <= i < j < s.len() ==> (#[trigger] s[i]).agent_type@ != (#[trigger] s[j]).agent_type@
}

proof fn lemma_template_map(s: Seq<AgentTemplate>)
    requires
        distinct_types(s),
    ensures
        forall|k: Seq<char>|
            template_map(s).contains_key(k) <==> exists|i: int|
                0 <= i < s.len() && (#[trigger] s[i]).agent_type@ == k,
        forall|i: int|
            0 <= i < s.len() ==> template_map(s)[(#[trigger] s[i]).agent_type@] == s[i],
    decreases s.len(),
{
    if s.len() > 0 {
        let t = s.drop_last();
        assert(distinct_types(t)) by {
            assert forall|i: int, j: int| 0 <= i < j < t.len() implies (
            #[trigger] t[i]).agent_type@ != (#[trigger] t[j]).agent_type@ by {
                assert(t[i] == s[i] && t[j] == s[j]);
            }
        }
        lemma_template_map(t);
        assert forall|k: Seq<char>|
            template_map(s).contains_key(k) implies exists|i: int|
                0 <= i < s.len() && (#[trigger] s[i]).agent_type@ == k by {
            if k != s.last().agent_type@ {
                assert(template_map(t).contains_key(k));
                let i = choose|i: int| 0 <= i < t.len() && (#[trigger] t[i]).agent_type@ == k;
                assert(s[i] == t[i]);
            } else {
                assert(s[s.len() - 1].agent_type@ == k);
            }
        }
        assert forall|k: Seq<char>|
            (exists|i: int| 0 <= i < s.len() && (#[trigger] s[i]).agent_type@ == k) implies template_map(
            s,
        ).contains_key(k) by {
            let i = choose|i: int| 0 <= i < s.len() && (#[trigger] s[i]).agent_type@ == k;
            if i < s.len() - 1 {
                assert(t[i] == s[i]);
            }
        }
        assert forall|i: int| 0 <= i < s.len() implies template_map(s)[(
        #[trigger] s[i]).agent_type@] == s[i] by {
            if i < s.len() - 1 {
                assert(t[i] == s[i]);
                assert(s[i].agent_type@ != s[s.len() - 1].agent_type@);
            }
        }
    }
}

/// Agent templates keyed by agent type.
pub struct TemplateSet {
    entries: Vec<AgentTemplate>,
}

impl TemplateSet {
    /// The templates by agent type.
    pub closed spec fn view(&self) -> Map<Seq<char>, AgentTemplate> {
        template_map(self.entries@)
    }

    /// No two entries share an agent type.
    pub closed spec fn wf(&self) -> bool {
        distinct_types(self.entries@)
    }

    /// An empty set of templates.
    pub fn new() -> (s: Self)
        ensures
            s.wf(),
            s.view() == Map::<Seq<char>, AgentTemplate>::empty(),
    {
        TemplateSet { entries: Vec::new() }
    }

    /// Adds a template under its agent type, replacing a template of the same type
    /// (the last one added wins). Returns whether one was replaced.
    pub fn insert(&mut self, tpl: AgentTemplate) -> (replaced: bool)
        requires
            old(self).wf(),
        ensures
            final(self).wf(),
            final(self).view() == old(self).view().insert(tpl.agent_type@, tpl),
            replaced == old(self).view().contains_key(tpl.agent_type@),
    {
        proof {
            lemma_template_map(self.entries@);
        }
        let mut i: usize = 0;
        while i < self.entries.len()
            invariant
                i <= self.entries.len(),
                self.entries@ == old(self).entries@,
                distinct_types(self.entries@),
                forall|j: int|
                    0 <= j < i ==> (#[trigger] self.entries@[j]).agent_type@ != tpl.agent_type@,
            decreases self.entries.len() - i,
        {
            if str_eq(self.entries[i].agent_type.as_str(), tpl.agent_type.as_str()) {
                let ghost s = self.entries@;
                proof {
                    lemma_template_map(s);
                }
                assert(s[i as int].agent_type@ == tpl.agent_type@);
                self.entries.set(i, tpl);
                proof {
                    let s2 = self.entries@;
                    assert(s2[i as int] == tpl);
                    assert(s2 =~= s.update(i as int, tpl));
                    assert(distinct_types(s2)) by {
                        assert forall|a: int, b: int| 0 <= a < b < s2.len() implies (
                        #[trigger] s2[a]).agent_type@ != (#[trigger] s2[b]).agent_type@ by {
                            assert(s2[a].agent_type@ == s[a].agent_type@);
                            assert(s2[b].agent_type@ == s[b].agent_type@);
                        }
                    }
                    lemma_template_map(s2);
                    assert(template_map(s2) =~= template_map(s).insert(tpl.agent_type@, tpl))
                        by {
                        assert forall|k: Seq<char>|
                            template_map(s2).contains_key(k) implies template_map(s).insert(
                            tpl.agent_type@,
                            tpl,
                        ).contains_key(k) by {
                            let a = choose|a: int|
                                0 <= a < s2.len() && (#[trigger] s2[a]).agent_type@ == k;
                            assert(s[a].agent_type@ == k);
                        }
                        assert forall|k: Seq<char>|
                            template_map(s).insert(tpl.agent_type@, tpl).contains_key(
                                k,
                            ) implies template_map(s2).contains_key(k) by {
                            if k != tpl.agent_type@ {
                                let a = choose|a: int|
                                    0 <= a < s.len() && (#[trigger] s[a]).agent_type@ == k;
                                assert(s2[a].agent_type@ == k);
                            } else {
                                assert(s2[i as int].agent_type@ == k);
                            }
                        }
                        assert forall|k: Seq<char>|
                            #[trigger] template_map(s2).contains_key(k) implies template_map(
                            s2,
                        )[k] == template_map(s).insert(tpl.agent_type@, tpl)[k] by {
                            let a = choose|a: int|
                                0 <= a < s2.len() && (#[trigger] s2[a]).agent_type@ == k;
                            if a != i {
                                assert(s2[a] == s[a]);
                            }
                        }
                    }
                    assert(template_map(s).contains_key(tpl.agent_type@)) by {
                        assert(s[i as int].agent_type@ == tpl.agent_type@);
                    }
                }
                return true;
            }
            i = i + 1;
        }
        let ghost s = self.entries@;
        proof {
            assert(!template_map(s).contains_key(tpl.agent_type@));
        }
        self.entries.push(tpl);
        proof {
            assert(self.entries@.drop_last() =~= s);
            assert(distinct_types(self.entries@)) by {
                let s2 = self.entries@;
                assert forall|a: int, b: int| 0 <= a < b < s2.len() implies (
                #[trigger] s2[a]).agent_type@ != (#[trigger] s2[b]).agent_type@ by {
                    if b == s2.len() - 1 {
                        assert(s2[a] == s[a]);
                    } else {
                        assert(s2[a] == s[a] && s2[b] == s[b]);
                    }
                }
            }
        }
        false
    }

    /// The template for `agent_type`, if any.
    pub fn get(&self, agent_type: &str) -> (r: Option<&AgentTemplate>)
        requires
            self.wf(),
        ensures
            match r {
                Some(t) => self.view().contains_key(agent_type@) && *t == self.view()[agent_type@],
                None => !self.view().contains_key(agent_type@),
            },
    {
        proof {
            lemma_template_map(self.entries@);
        }
        let mut i: usize = 0;
        while i < self.entries.len()
            invariant
                i <= self.entries.len(),
                self.wf(),
                forall|j: int|
                    0 <= j < i ==> (#[trigger] self.entries@[j]).agent_type@ != agent_type@,
            decreases self.entries.len() - i,
        {
            if str_eq(self.entries[i].agent_type.as_str(), agent_type) {
                assert(self.entries@[i as int].agent_type@ == agent_type@);
                proof {
                    lemma_template_map(self.entries@);
                }
                assert(template_map(self.entries@)[self.entries@[i as int].agent_type@]
                    == self.entries@[i as int]);
                return Some(&self.entries[i]);
            }
            i = i + 1;
        }
        None
    }

    /// Number of templates.
    pub fn len(&self) -> (r: usize)
        requires
            self.wf(),
        ensures
            r == self.view().dom().len(),
    {
        proof {
            lemma_template_map(self.entries@);
            lemma_template_count(self.entries@);
        }
        self.entries.len()
    }

    /// All templates, one per agent type.
    pub fn templates(&self) -> (r: &Vec<AgentTemplate>)
        requires
            self.wf(),
        ensures
            distinct_types(r@),
            template_map(r@) == self.view(),
    {
        &self.entries
    }
}

proof fn lemma_template_count(s: Seq<AgentTemplate>)
    requires
        distinct_types(s),
    ensures
        template_map(s).dom().finite(),
        template_map(s).dom().len() == s.len(),
    decreases s.len(),
{
    if s.len() > 0 {
        let t = s.drop_last();
        assert(distinct_types(t)) by {
            assert forall|i: int, j: int| 0 <= i < j < t.len() implies (
            #[trigger] t[i]).agent_type@ != (#[trigger] t[j]).agent_type@ by {
                assert(t[i] == s[i] && t[j] == s[j]);
            }
        }
        lemma_template_count(t);
        lemma_template_map(t);
        assert(!template_map(t).contains_key(s.last().agent_type@)) by {
            if template_map(t).contains_key(s.last().agent_type@) {
                let i = choose|i: int|
                    0 <= i < t.len() && (#[trigger] t[i]).agent_type@ == s.last().agent_type@;
                assert(s[i] == t[i]);
            }
        }
        assert(template_map(s).dom() =~= template_map(t).dom().insert(s.last().agent_type@));
    } else {
        assert(template_map(s).dom() =~= Set::<Seq<char>>::empty());
    }
}

/// What the spawner launches for one task: the agent's name and type, its system
/// prompt, and the model it calls.
pub struct AgentLaunch {
    /// Display name from the template.
    pub name: String,
    /// Agent type from the template.
    pub agent_type: String,
    /// System prompt from the template.
    pub system_prompt: String,
    /// The template's model, or the spawner's default model.
    pub model: String,
}

/// The spawner's configuration: templates and the fallback model.
pub struct Spawner {
    templates: TemplateSet,
    default_model: String,
}

impl Spawner {
    pub closed spec fn spec_templates(&self) -> Map<Seq<char>, AgentTemplate> {
        self.templates.view()
    }

    pub closed spec fn spec_default_model(&self) -> Seq<char> {
        self.default_model@
    }

    pub closed spec fn wf(&self) -> bool {
        self.templates.wf()
    }

    /// Builds a spawner from templates and a default model fallback.
    pub fn new(templates: TemplateSet, default_model: String) -> (s: Self)
        requires
            templates.wf(),
        ensures
            s.wf(),
            s.spec_templates() == templates.view(),
            s.spec_default_model() == default_model@,
    {
        Spawner { templates, default_model }
    }

    /// The template for an agent type, or a template error.
    pub fn resolve_template(&self, agent_type: &str) -> (r: Result<&AgentTemplate, HatchError>)
        requires
            self.wf(),
        ensures
            match r {
                Ok(t) => self.spec_templates().contains_key(agent_type@) && *t
                    == self.spec_templates()[agent_type@],
                Err(e) => !self.spec_templates().contains_key(agent_type@) && (e matches HatchError::Template(m)
                    && m@ == "no template for agent_type '"@ + agent_type@ + "'"@),
            },
    {
        match self.templates.get(agent_type) {
            Some(t) => Ok(t),
            None => Err(
                HatchError::Template(concat3("no template for agent_type '", agent_type, "'")),
            ),
        }
    }

    /// What to launch for `task`: its template's agent with the template's model,
    /// or the default model when the template names none.
    pub fn launch_for(&self, task: &Task) -> (r: Result<AgentLaunch, HatchError>)
        requires
            self.wf(),
        ensures
            match r {
                Ok(l) => self.spec_templates().contains_key(task.agent_type@) && {
                    let t = self.spec_templates()[task.agent_type@];
                    &&& l.name@ == t.name@
                    &&& l.agent_type@ == t.agent_type@
                    &&& l.system_prompt@ == t.system_prompt@
                    &&& l.model@ == match t.model {
                        Some(m) => m@,
                        None => self.spec_default_model(),
                    }
                },
                Err(e) => !self.spec_templates().contains_key(task.agent_type@) && (e matches HatchError::Template(m)
                    && m@ == "no template for agent_type '"@ + task.agent_type@ + "'"@),
            },
    {
        let tpl = self.resolve_template(task.agent_type.as_str())?;
        let model = match &tpl.model {
            Some(m) => copy_str(m.as_str()),
            None => copy_str(self.default_model.as_str()),
        };
        Ok(
            AgentLaunch {
                name: copy_str(tpl.name.as_str()),
                agent_type: copy_str(tpl.agent_type.as_str()),
                system_prompt: copy_str(tpl.system_prompt.as_str()),
                model,
            },
        )
    }
}

/// One agent to start: a fresh agent id, the task it works on, and what runs.
pub struct PlannedAgent {
    pub agent_id: AgentId,
    pub task_id: TaskId,
    pub launch: AgentLaunch,
}

/// What the spawner launches for a task whose template is `t`.
pub open spec fn launch_matches(l: AgentLaunch, t: AgentTemplate, default_model: Seq<char>) -> bool {
    &&& l.name@ == t.name@
    &&& l.agent_type@ == t.agent_type@
    &&& l.system_prompt@ == t.system_prompt@
    &&& l.model@ == match t.model {
        Some(m) => m@,
        None => default_model,
    }
}

impl Spawner {
    /// The agents for a plan's tasks, in order, each with a fresh random (version 4)
    /// id. At the first task whose agent type has no template the list stops, and
    /// that task's template error is returned beside the agents before it. When
    /// each agent starts is decided by a `Schedule`: only once its task's
    /// dependencies have finished.
    pub fn plan_launches(&self, tasks: &Vec<Task>) -> (r: (Vec<PlannedAgent>, Option<HatchError>))
        requires
            self.wf(),
        ensures
            r.0@.len() <= tasks@.len(),
            forall|i: int|
                0 <= i < r.0@.len() ==> {
                    let t = tasks@[i];
                    &&& (#[trigger] r.0@[i]).task_id == t.id
                    &&& version_four(r.0@[i].agent_id)
                    &&& self.spec_templates().contains_key(t.agent_type@)
                    &&& launch_matches(
                        r.0@[i].launch,
                        self.spec_templates()[t.agent_type@],
                        self.spec_default_model(),
                    )
                },
            match r.1 {
                None => r.0@.len() == tasks@.len(),
                Some(e) => r.0@.len() < tasks@.len() && !self.spec_templates().contains_key(
                    tasks@[r.0@.len() as int].agent_type@,
                ) && (e matches HatchError::Template(m) && m@ == "no template for agent_type '"@
                    + tasks@[r.0@.len() as int].agent_type@ + "'"@),
            },
    {
        let mut out: Vec<PlannedAgent> = Vec::new();
        let mut i: usize = 0;
        while i < tasks.len()
            invariant
                self.wf(),
                i <= tasks@.len(),
                out@.len() == i,
                forall|k: int|
                    0 <= k < i ==> {
                        let t = tasks@[k];
                        &&& (#[trigger] out@[k]).task_id == t.id
                        &&& version_four(out@[k].agent_id)
                        &&& self.spec_templates().contains_key(t.agent_type@)
                        &&& launch_matches(
                            out@[k].launch,
                            self.spec_templates()[t.agent_type@],
                            self.spec_default_model(),
                        )
                    },
            decreases tasks.len() - i,
        {
            let agent_id = new_id();
            match self.launch_for(&tasks[i]) {
                Ok(launch) => {
                    out.push(PlannedAgent { agent_id, task_id: tasks[i].id, launch });
                },
                Err(e) => {
                    return (out, Some(e));
                },
            }
            i = i + 1;
        }
        (out, None)
    }
}

/// Every dependency of `task` is the identifier of a finished task.
pub open spec fn dependencies_done(task: Task, finished: Seq<TaskId>) -> bool {
    forall|d: int|
        0 <= d < task.dependencies@.len() ==> finished.contains(#[trigger] task.dependencies@[d])
}

/// The task at position `j` may start: it has not started and its dependencies
/// are done.
pub open spec fn may_start(tasks: Seq<Task>, started: Seq<bool>, finished: Seq<TaskId>, j: int) -> bool {
    !started[j] && dependencies_done(tasks[j], finished)
}

/// The order in which a plan's tasks start: a task starts only once every task it
/// depends on has finished, and starts once.
pub struct Schedule {
    started: Vec<bool>,
    finished: Vec<TaskId>,
}

impl Schedule {
    /// For each task position, whether its task has started.
    pub closed spec fn spec_started(&self) -> Seq<bool> {
        self.started@
    }

    /// The identifiers of the finished tasks, in the order they finished.
    pub closed spec fn spec_finished(&self) -> Seq<TaskId> {
        self.finished@
    }

    /// A schedule for `task_count` tasks, none started or finished.
    pub fn new(task_count: usize) -> (s: Self)
        ensures
            s.spec_started() == Seq::new(task_count as nat, |i: int| false),
            s.spec_finished() == Seq::<TaskId>::empty(),
    {
        let mut started: Vec<bool> = Vec::new();
        let mut i: usize = 0;
        while i < task_count
            invariant
                i <= task_count,
                started@ == Seq::new(i as nat, |k: int| false),
            decreases task_count - i,
        {
            started.push(false);
            i = i + 1;
            assert(started@ =~= Seq::new(i as nat, |k: int| false));
        }
        Schedule { started, finished: Vec::new() }
    }

    /// Records that the task with identifier `id` has finished.
    pub fn finish(&mut self, id: TaskId)
        ensures
            final(self).spec_started() == old(self).spec_started(),
            final(self).spec_finished() == old(self).spec_finished().push(id),
    {
        self.finished.push(id);
    }

    /// Whether every dependency of `task` has finished.
    fn dependencies_finished(&self, task: &Task) -> (r: bool)
        ensures
            r == dependencies_done(*task, self.finished@),
    {
        let mut d: usize = 0;
        while d < task.dependencies.len()
            invariant
                d <= task.dependencies@.len(),
                forall|d2: int|
                    0 <= d2 < d ==> self.finished@.contains(#[trigger] task.dependencies@[d2]),
            decreases task.dependencies.len() - d,
        {
            let dep = task.dependencies[d];
            let mut f: usize = 0;
            let mut found = false;
            while f < self.finished.len() && !found
                invariant
                    f <= self.finished@.len(),
                    found ==> self.finished@.contains(dep),
                    !found ==> forall|f2: int| 0 <= f2 < f ==> self.finished@[f2] != dep,
                decreases self.finished.len() - f + (if found { 0int } else { 1int }),
            {
                if self.finished[f] == dep {
                    assert(self.finished@[f as int] == dep);
                    found = true;
                } else {
                    f = f + 1;
                }
            }
            if !found {
                assert(!self.finished@.contains(dep));
                return false;
            }
            d = d + 1;
        }
        true
    }

    /// Starts every task that may start now: the positions, in plan order, of the
    /// tasks not started yet whose dependencies have all finished. They are marked
    /// started, so none is handed out twice.
    pub fn take_ready(&mut self, tasks: &Vec<Task>) -> (r: Vec<usize>)
        requires
            old(self).spec_started().len() == tasks@.len(),
        ensures
            final(self).spec_finished() == old(self).spec_finished(),
            final(self).spec_started().len() == tasks@.len(),
            forall|j: int|
                0 <= j < tasks@.len() ==> #[trigger] final(self).spec_started()[j] == (old(
                    self,
                ).spec_started()[j] || dependencies_done(tasks@[j], old(self).spec_finished())),
            forall|i: int|
                0 <= i < r@.len() ==> (#[trigger] r@[i]) < tasks@.len() && may_start(
                    tasks@,
                    old(self).spec_started(),
                    old(self).spec_finished(),
                    r@[i] as int,
                ),
            forall|j: int|
                0 <= j < tasks@.len() && may_start(
                    tasks@,
                    old(self).spec_started(),
                    old(self).spec_finished(),
                    j,
                ) ==> exists|i: int| 0 <= i < r@.len() && #[trigger] r@[i] == j,
            forall|i: int, k: int| 0 <= i < k < r@.len() ==> r@[i] < r@[k],
    {
        let ghost started0 = self.started@;
        let mut r: Vec<usize> = Vec::new();
        let mut j: usize = 0;
        while j < tasks.len()
            invariant
                j <= tasks@.len(),
                self.started@.len() == tasks@.len(),
                started0.len() == tasks@.len(),
                self.finished@ == old(self).finished@,
                started0 == old(self).started@,
                forall|k: int| j <= k < tasks@.len() ==> self.started@[k] == started0[k],
                forall|k: int|
                    0 <= k < j ==> #[trigger] self.started@[k] == (started0[k] || dependencies_done(
                        tasks@[k],
                        self.finished@,
                    )),
                forall|i: int|
                    0 <= i < r@.len() ==> (#[trigger] r@[i]) < j && may_start(
                        tasks@,
                        started0,
                        self.finished@,
                        r@[i] as int,
                    ),
                forall|k: int|
                    0 <= k < j && may_start(tasks@, started0, self.finished@, k) ==> exists|i: int|
                        0 <= i < r@.len() && #[trigger] r@[i] == k,
                forall|i: int, k: int| 0 <= i < k < r@.len() ==> r@[i] < r@[k],
            decreases tasks.len() - j,
        {
            if !self.started[j] && self.dependencies_finished(&tasks[j]) {
                self.started.set(j, true);
                let ghost before = r@;
                r.push(j);
                proof {
                    assert(r@[before.len() as int] == j);
                    assert forall|i: int| 0 <= i < before.len() implies r@[i] == before[i] by {}
                    assert forall|k: int|
                        0 <= k < j + 1 && may_start(tasks@, started0, self.finished@, k) implies exists|i: int|
                            0 <= i < r@.len() && #[trigger] r@[i] == k by {
                        if k < j {
                            let i = choose|i: int| 0 <= i < before.len() && #[trigger] before[i] == k;
                            assert(r@[i] == k);
                        } else {
                            assert(r@[before.len() as int] == k);
                        }
                    }
                }
            }
            j = j + 1;
        }
        r
    }
}

/// Every dependency of every task is the identifier of a task of the list.
pub open spec fn dependencies_in_plan(tasks: Seq<Task>) -> bool {
    forall|k: int, d: int|
        #![trigger tasks[k].dependencies@[d]]
        0 <= k < tasks.len() && 0 <= d < tasks[k].dependencies@.len() ==> exists|j: int|
            0 <= j < tasks.len() && (#[trigger] tasks[j]).id == tasks[k].dependencies@[d]
}

/// An unstarted task of rank at most `m` leads to a task that may start.
proof fn lemma_some_task_may_start(
    tasks: Seq<Task>,
    started: Seq<bool>,
    finished: Seq<TaskId>,
    rank: spec_fn(TaskId) -> nat,
    k: int,
    m: nat,
)
    requires
        started.len() == tasks.len(),
        ranks_tasks(tasks, rank),
        dependencies_in_plan(tasks),
        forall|j: int| 0 <= j < tasks.len() && #[trigger] started[j] ==> finished.contains(tasks[j].id),
        0 <= k < tasks.len(),
        !started[k],
        rank(tasks[k].id) <= m,
    ensures
        exists|j: int| 0 <= j < tasks.len() && #[trigger] may_start(tasks, started, finished, j),
    decreases m,
{
    if dependencies_done(tasks[k], finished) {
        assert(may_start(tasks, started, finished, k));
    } else {
        let d = choose|d: int|
            0 <= d < tasks[k].dependencies@.len() && !finished.contains(
                #[trigger] tasks[k].dependencies@[d],
            );
        let x = tasks[k].dependencies@[d];
        let j = choose|j: int| 0 <= j < tasks.len() && (#[trigger] tasks[j]).id == x;
        assert(rank(x) < rank(tasks[k].id));
        assert(!started[j]);
        lemma_some_task_may_start(tasks, started, finished, rank, j, (m - 1) as nat);
    }
}

/// Law: the schedule of an acyclic plan whose dependencies name its own tasks never
/// stalls: while some task has not started and every started task has finished,
/// some task may start.
pub proof fn law_acyclic_schedule_never_stalls(
    tasks: Seq<Task>,
    started: Seq<bool>,
    finished: Seq<TaskId>,
    k: int,
)
    requires
        started.len() == tasks.len(),
        tasks_acyclic(tasks),
        dependencies_in_plan(tasks),
        forall|j: int| 0 <= j < tasks.len() && #[trigger] started[j] ==> finished.contains(tasks[j].id),
        0 <= k < tasks.len(),
        !started[k],
    ensures
        exists|j: int| 0 <= j < tasks.len() && #[trigger] may_start(tasks, started, finished, j),
{
    let rank = choose|rank: spec_fn(TaskId) -> nat| #[trigger] ranks_tasks(tasks, rank);
    lemma_some_task_may_start(tasks, started, finished, rank, k, rank(tasks[k].id));
}

/// Whether a file in the templates folder is a template: its extension is `toml`.
pub fn is_template_file(name: &str) -> (r: bool)
    ensures
        r == (extension_of(name@) == Some("toml"@)),
{
    match file_extension(name) {
        Some(e) => str_eq(e.as_str(), "toml"),
        None => false,
    }
}

/// Law: after a template is added, looking up its agent type gives it back, and
/// every other agent type keeps its template.
pub proof fn law_last_template_wins(before: Map<Seq<char>, AgentTemplate>, tpl: AgentTemplate, other: Seq<char>)
    requires
        other != tpl.agent_type@,
    ensures
        before.insert(tpl.agent_type@, tpl)[tpl.agent_type@] == tpl,
        before.insert(tpl.agent_type@, tpl).contains_key(other) == before.contains_key(other),
        before.contains_key(other) ==> before.insert(tpl.agent_type@, tpl)[other] == before[other],
{
}

} // verus!
