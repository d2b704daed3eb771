//! The generic agent: its identity, the prompts it sends for a task, and how the
//! model's reply becomes an agent output (structured files, or the raw reply as a
//! Markdown artifact when the reply is not the requested JSON).
use vstd::prelude::*;

use crate::ids::{AgentId, TaskId};
use crate::text::{
    ascii_lower, chars_eq_str, chars_of, concat2, concat3, concat4, copy_str, push_str,
    string_of, to_ascii_lowercase, trim, trim_str,
};
use crate::types::{AgentOutput, Artifact, ArtifactKind, HatchError};

verus! {

/// Default agent that delegates work to an LLM using a configured system prompt.
#[derive(Debug)]
pub struct GenericAgent {
    id: AgentId,
    name: String,
    agent_type: String,
}

impl GenericAgent {
    pub closed spec fn spec_id(&self) -> AgentId {
        self.id
    }

    pub closed spec fn spec_name(&self) -> Seq<char> {
        self.name@
    }

    pub closed spec fn spec_agent_type(&self) -> Seq<char> {
        self.agent_type@
    }

    /// Creates a new generic agent instance.
    pub fn new(id: AgentId, name: String, agent_type: String) -> (a: Self)
        ensures
            a.spec_id() == id,
            a.spec_name() == name@,
            a.spec_agent_type() == agent_type@,
    {
        GenericAgent { id, name, agent_type }
    }

    /// Stable instance identifier.
    pub fn id(&self) -> (r: AgentId)
        ensures
            r == self.spec_id(),
    {
        self.id
    }

    /// Human-readable name.
    pub fn name(&self) -> (r: &str)
        ensures
            r@ == self.spec_name(),
    {
        self.name.as_str()
    }

    /// Template key (e.g. `frontend`).
    pub fn agent_type(&self) -> (r: &str)
        ensures
            r@ == self.spec_agent_type(),
    {
        self.agent_type.as_str()
    }
}

/// Output format instructions appended to every agent's system prompt.
pub const FILE_JSON_SYSTEM_INSTRUCTIONS: &'static str = "Output format requirements (IMPORTANT):
- You MUST respond with ONLY valid JSON (no markdown).
- JSON schema:
  {
    \"content\": \"<short human summary of what you produced>\",
    \"artifacts\": [
      {
        \"name\": \"<relative file path, e.g. frontend/src/App.tsx or package.json>\",
        \"content\": \"<exact file text>\",
        \"kind\": \"code\" | \"config\" | \"markdown\" | \"other\"
      }
    ]
  }
- Ensure every file path is relative (no leading `/`).
- Put as many files as needed to make the project runnable.
- If you cannot produce code, still output a JSON with at least 1 artifact containing an explanation.";

/// Maximum number of tokens an agent asks the model for.
pub const AGENT_MAX_TOKENS: u32 = 4096;

/// The system prompt of an agent run: the template's prompt, a blank line, and the
/// output format instructions.
pub fn agent_system_prompt(system_prompt: &str) -> (r: String)
    ensures
        r@ == system_prompt@ + "\n\n"@ + FILE_JSON_SYSTEM_INSTRUCTIONS@,
{
    concat3(system_prompt, "\n\n", FILE_JSON_SYSTEM_INSTRUCTIONS)
}

/// The user message of an agent run for a task.
pub fn agent_user_prompt(task_name: &str, description: &str) -> (r: String)
    ensures
        r@ == "Task: "@ + task_name@ + "\n\nDescription:\n"@ + description@
            + "\n\nGenerate the full set of files.\nRemember: ONLY valid JSON."@,
{
    let mut r = concat4("Task: ", task_name, "\n\nDescription:\n", description);
    push_str(&mut r, "\n\nGenerate the full set of files.\nRemember: ONLY valid JSON.");
    r
}

/// The progress line published when an agent starts a task.
pub fn starting_message(task_name: &str) -> (r: String)
    ensures
        r@ == "starting "@ + task_name@,
{
    concat2("starting ", task_name)
}

/// The progress line published when an agent finishes a task.
pub fn finished_message(task_name: &str) -> (r: String)
    ensures
        r@ == "finished "@ + task_name@,
{
    concat2("finished ", task_name)
}

/// The artifact kind a reply's `kind` field names (case-insensitive; unknown
/// kinds are `Other`).
pub open spec fn kind_for(kind: Seq<char>) -> ArtifactKind {
    let k = ascii_lower(kind);
    if k == "code"@ {
        ArtifactKind::Code
    } else if k == "config"@ {
        ArtifactKind::Config
    } else if k == "markdown"@ {
        ArtifactKind::Markdown
    } else {
        ArtifactKind::Other
    }
}

/// Maps a reply's `kind` text to an artifact kind.
pub fn parse_kind(kind: &str) -> (r: ArtifactKind)
    ensures
        r == kind_for(kind@),
{
    let k = to_ascii_lowercase(kind);
    if chars_eq_str(&k, "code") {
        ArtifactKind::Code
    } else if chars_eq_str(&k, "config") {
        ArtifactKind::Config
    } else if chars_eq_str(&k, "markdown") {
        ArtifactKind::Markdown
    } else {
        ArtifactKind::Other
    }
}

/// One file of a structured agent reply.
pub struct ReplyArtifact {
    /// Relative file path.
    pub name: String,
    /// File text.
    pub content: String,
    /// Kind text (`code`, `config`, `markdown`, `other`; empty when absent).
    pub kind: String,
}

/// A structured agent reply: a summary and the files produced.
pub struct AgentReply {
    /// Short human summary.
    pub content: String,
    /// Files produced.
    pub artifacts: Vec<ReplyArtifact>,
}

/// `c` with every space replaced by an underscore.
pub open spec fn underscored(s: Seq<char>) -> Seq<char> {
    s.map_values(|c: char| if c == ' ' { '_' } else { c })
}

/// `name` with spaces replaced by underscores (`str::replace(' ', "_")`).
pub fn replace_spaces(name: &str) -> (r: String)
    ensures
        r@ == underscored(name@),
{
    let v = chars_of(name);
    let mut out: Vec<char> = Vec::new();
    let mut i: usize = 0;
    while i < v.len()
        invariant
            i <= v.len(),
            out@ == underscored(v@.take(i as int)),
        decreases v.len() - i,
    {
        let c = if v[i] == ' ' {
            '_'
        } else {
            v[i]
        };
        out.push(c);
        i = i + 1;
        assert(underscored(v@.take(i as int)) =~= underscored(v@.take(i - 1)).push(c));
    }
    assert(v@.take(v.len() as int) =~= v@);
    string_of(&out)
}

/// `out` is the agent output made of a structured reply.
pub open spec fn output_from_reply(out: AgentOutput, agent_id: AgentId, task_id: TaskId, reply: AgentReply) -> bool {
    &&& out.agent_id == agent_id
    &&& out.task_id == task_id
    &&& out.content@ == reply.content@
    &&& out.artifacts@.len() == reply.artifacts@.len()
    &&& forall|i: int|
        0 <= i < reply.artifacts@.len() ==> {
            &&& (#[trigger] out.artifacts@[i]).name@ == reply.artifacts@[i].name@
            &&& out.artifacts@[i].content@ == reply.artifacts@[i].content@
            &&& out.artifacts@[i].kind == kind_for(reply.artifacts@[i].kind@)
        }
}

/// `out` is the fallback output for a reply that is not the requested JSON: the
/// whole reply, also kept as a Markdown file named after the task.
pub open spec fn fallback_output(out: AgentOutput, agent_id: AgentId, task_id: TaskId, task_name: Seq<char>, reply: Seq<char>) -> bool {
    &&& out.agent_id == agent_id
    &&& out.task_id == task_id
    &&& out.content@ == reply
    &&& out.artifacts@.len() == 1
    &&& out.artifacts@[0].name@ == underscored(task_name) + "_response.md"@
    &&& out.artifacts@[0].content@ == reply
    &&& out.artifacts@[0].kind == ArtifactKind::Markdown
}

/// Turns the model's reply into the agent's output. An empty (or all-whitespace)
/// reply is an error; a reply that parsed as the requested JSON (`parsed`) gives its
/// files; any other reply is kept whole as a Markdown artifact.
pub fn agent_output_from_reply(
    agent_id: AgentId,
    task_id: TaskId,
    task_name: &str,
    reply: String,
    parsed: Option<AgentReply>,
) -> (r: Result<AgentOutput, HatchError>)
    ensures
        trim(reply@).len() == 0 ==> (r matches Err(HatchError::Llm(m)) && m@
            == "empty completion from provider"@),
        trim(reply@).len() > 0 ==> match parsed {
            Some(p) => r matches Ok(out) && output_from_reply(out, agent_id, task_id, p),
            None => r matches Ok(out) && fallback_output(out, agent_id, task_id, task_name@, reply@),
        },
{
    let raw = trim_str(reply.as_str());
    if raw.as_str().is_empty() {
        return Err(HatchError::Llm(copy_str("empty completion from provider")));
    }
    match parsed {
        Some(p) => {
            let mut artifacts: Vec<Artifact> = Vec::new();
            let mut i: usize = 0;
            while i < p.artifacts.len()
                invariant
                    i <= p.artifacts.len(),
                    artifacts@.len() == i,
                    forall|j: int|
                        0 <= j < i ==> {
                            &&& (#[trigger] artifacts@[j]).name@ == p.artifacts@[j].name@
                            &&& artifacts@[j].content@ == p.artifacts@[j].content@
                            &&& artifacts@[j].kind == kind_for(p.artifacts@[j].kind@)
                        },
                decreases p.artifacts.len() - i,
            {
                let a = &p.artifacts[i];
                artifacts.push(
                    Artifact {
                        name: copy_str(a.name.as_str()),
                        content: copy_str(a.content.as_str()),
                        kind: parse_kind(a.kind.as_str()),
                    },
                );
                i = i + 1;
            }
            Ok(
                AgentOutput {
                    agent_id,
                    task_id,
                    content: copy_str(p.content.as_str()),
                    artifacts,
                },
            )
        },
        None => {
            let file = concat2(replace_spaces(task_name).as_str(), "_response.md");
            let artifact = Artifact {
                name: file,
                content: copy_str(reply.as_str()),
                kind: ArtifactKind::Markdown,
            };
            let mut artifacts: Vec<Artifact> = Vec::new();
            artifacts.push(artifact);
            Ok(AgentOutput { agent_id, task_id, content: reply, artifacts })
        },
    }
}

/// Law: a reply's kind text names exactly one artifact kind, ignoring ASCII case:
/// `code`, `config` and `markdown` name their kinds and nothing else does; every
/// other text (`other` among them) is `Other`.
pub proof fn law_kind_names(kind: Seq<char>)
    ensures
        ({
            let k = ascii_lower(kind);
            &&& (kind_for(kind) == ArtifactKind::Code) == (k == "code"@)
            &&& (kind_for(kind) == ArtifactKind::Config) == (k == "config"@)
            &&& (kind_for(kind) == ArtifactKind::Markdown) == (k == "markdown"@)
            &&& (kind_for(kind) == ArtifactKind::Other) == (k != "code"@ && k != "config"@ && k
                != "markdown"@)
        }),
{
    reveal_strlit("code");
    reveal_strlit("config");
    reveal_strlit("markdown");
    assert("code"@.len() == 4 && "config"@.len() == 6 && "markdown"@.len() == 8);
}

} // verus!
