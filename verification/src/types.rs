//! Core data shared by every stage: artifacts, agent outputs, tasks, execution
//! plans, and the error type.
use vstd::prelude::*;

use crate::ids::{AgentId, RunId, TaskId};
use crate::text::concat2;

verus! {

/// Kind of artifact produced by an agent.
#[derive(Debug, Clone, Copy, PartialEq, Eq, Structural)]
pub enum ArtifactKind {
    /// Source or script code.
    Code,
    /// Configuration files.
    Config,
    /// Markdown documentation.
    Markdown,
    /// Other textual content.
    Other,
}

/// Named output artifact with typed kind.
#[derive(Debug, Clone)]
pub struct Artifact {
    /// Logical name (e.g. filename).
    pub name: String,
    /// Raw text content.
    pub content: String,
    /// Classification of the artifact.
    pub kind: ArtifactKind,
}

/// Result returned from a single agent run.
#[derive(Debug, Clone)]
pub struct AgentOutput {
    /// Agent instance that produced this output.
    pub agent_id: AgentId,
    /// Task this output corresponds to.
    pub task_id: TaskId,
    /// Primary textual response.
    pub content: String,
    /// Structured artifacts extracted or attached by the agent.
    pub artifacts: Vec<Artifact>,
}

/// A task to execute as part of a plan.
#[derive(Debug, Clone)]
pub struct Task {
    /// Stable identifier for dependency edges.
    pub id: TaskId,
    /// Short task title.
    pub name: String,
    /// Detailed instructions for the agent.
    pub description: String,
    /// Template key, e.g. `frontend`, `backend`.
    pub agent_type: String,
    /// Tasks that must complete before this one starts.
    pub dependencies: Vec<TaskId>,
}

/// Intermediate shape returned by the planner model (no task IDs yet).
#[derive(Debug, Clone)]
pub struct TaskSpec {
    /// Short task title.
    pub name: String,
    /// Detailed instructions for the agent.
    pub description: String,
    /// Template key, e.g. `frontend`, `backend`.
    pub agent_type: String,
    /// Names of tasks that must complete first (resolved to task IDs by the planner).
    pub dependencies: Vec<String>,
}

/// Full execution plan for a user intent.
#[derive(Debug, Clone)]
pub struct ExecutionPlan {
    /// Run identifier.
    pub run_id: RunId,
    /// Original user intent.
    pub intent: String,
    /// Ordered task graph.
    pub tasks: Vec<Task>,
}

/// Errors that can occur across HATCH stages. Each carries the text of its cause.
#[derive(Debug, Clone)]
pub enum HatchError {
    /// I/O error (e.g. reading agent templates).
    Io(String),
    /// JSON serialization or deserialization failed.
    Json(String),
    /// TOML deserialization failed.
    TomlDeserialize(String),
    /// HTTP client or transport error.
    Http(String),
    /// Message bus operation failed (e.g. no active subscribers).
    Bus(String),
    /// Planner produced invalid or unexpected content.
    Planner(String),
    /// LLM provider returned an error response or empty completion.
    Llm(String),
    /// Configuration or environment is invalid.
    Config(String),
    /// Requested agent template or type was not found.
    Template(String),
    /// Agent execution failed.
    Agent(String),
    /// Supervisor timed out or received inconsistent state.
    Supervisor(String),
    /// UTF-8 conversion failed.
    Utf8(String),
}

/// The display text of an error: a category prefix followed by the cause.
pub open spec fn error_text(e: HatchError) -> Seq<char> {
    match e {
        HatchError::Io(m) => "io error: "@ + m@,
        HatchError::Json(m) => "json error: "@ + m@,
        HatchError::TomlDeserialize(m) => "toml error: "@ + m@,
        HatchError::Http(m) => "http error: "@ + m@,
        HatchError::Bus(m) => "message bus error: "@ + m@,
        HatchError::Planner(m) => "planner error: "@ + m@,
        HatchError::Llm(m) => "llm error: "@ + m@,
        HatchError::Config(m) => "config error: "@ + m@,
        HatchError::Template(m) => "template error: "@ + m@,
        HatchError::Agent(m) => "agent error: "@ + m@,
        HatchError::Supervisor(m) => "supervisor error: "@ + m@,
        HatchError::Utf8(m) => "utf8 error: "@ + m@,
    }
}

impl HatchError {
    /// The display text of this error.
    pub fn message(&self) -> (r: String)
        ensures
            r@ == error_text(*self),
    {
        match self {
            HatchError::Io(m) => concat2("io error: ", m.as_str()),
            HatchError::Json(m) => concat2("json error: ", m.as_str()),
            HatchError::TomlDeserialize(m) => concat2("toml error: ", m.as_str()),
            HatchError::Http(m) => concat2("http error: ", m.as_str()),
            HatchError::Bus(m) => concat2("message bus error: ", m.as_str()),
            HatchError::Planner(m) => concat2("planner error: ", m.as_str()),
            HatchError::Llm(m) => concat2("llm error: ", m.as_str()),
            HatchError::Config(m) => concat2("config error: ", m.as_str()),
            HatchError::Template(m) => concat2("template error: ", m.as_str()),
            HatchError::Agent(m) => concat2("agent error: ", m.as_str()),
            HatchError::Supervisor(m) => concat2("supervisor error: ", m.as_str()),
            HatchError::Utf8(m) => concat2("utf8 error: ", m.as_str()),
        }
    }
}

} // verus!
