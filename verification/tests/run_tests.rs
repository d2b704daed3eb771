use hatch::agent::{
    agent_output_from_reply, agent_system_prompt, agent_user_prompt, finished_message, parse_kind,
    replace_spaces, starting_message, AgentReply, GenericAgent, ReplyArtifact, FILE_JSON_SYSTEM_INSTRUCTIONS,
};
use hatch::bus::HatchMessage;
use hatch::fence::strip_json_fences;
use hatch::materialize::{
    approval_enabled, is_top_level_approved, merge_summary, parse_approval_answer, top_level_of,
    top_levels, write_decision, ApprovalAnswer, ApprovalSession, Approvals, WriteDecision,
};
use hatch::spawner::{is_template_file, AgentTemplate, Spawner, TemplateSet};
use hatch::supervisor::{SupervisorEvent, SupervisorRun};
use hatch::types::{AgentOutput, Artifact, ArtifactKind, ExecutionPlan, HatchError, Task};

fn id_text(id: u128) -> String {
    uuid::Uuid::from_u128(id).to_string()
}

fn task(id: u128, name: &str, agent_type: &str) -> Task {
    Task { id, name: name.into(), description: format!("do {name}"), agent_type: agent_type.into(), dependencies: vec![] }
}

fn output(task_id: u128, content: &str, names: &[&str]) -> AgentOutput {
    AgentOutput {
        agent_id: 100 + task_id,
        task_id,
        content: content.into(),
        artifacts: names
            .iter()
            .map(|n| Artifact { name: n.to_string(), content: "x".into(), kind: ArtifactKind::Code })
            .collect(),
    }
}

#[test]
fn fences_are_stripped() {
    assert_eq!(strip_json_fences("  {\"a\":1}  "), "{\"a\":1}");
    assert_eq!(strip_json_fences("```json\n{\"a\":1}\n```"), "{\"a\":1}");
    assert_eq!(strip_json_fences("```JSON {\"a\":1} ``` trailing"), "{\"a\":1}");
    assert_eq!(strip_json_fences("```jsonjson\n[1]"), "[1]");
    assert_eq!(strip_json_fences("```\n[1]\n```\nmore```"), "[1]\n```\nmore");
}

#[test]
fn fenced_body_round_trips() {
    let body = "{\"tasks\":[]}";
    assert_eq!(strip_json_fences(&format!("```json\n{body}\n```")), body);
}

#[test]
fn supervisor_collects_outputs_in_plan_order() {
    let plan = ExecutionPlan { run_id: 1, intent: "x".into(), tasks: vec![task(1, "A", "frontend"), task(2, "B", "backend")] };
    let mut run = SupervisorRun::new(&plan);
    assert!(!run.is_complete());
    run.step(SupervisorEvent::Message(HatchMessage::AgentDone(output(2, "b", &[])))).unwrap();
    run.step(SupervisorEvent::Message(HatchMessage::AgentDone(output(2, "again", &[])))).unwrap();
    run.step(SupervisorEvent::Lagged(3)).unwrap();
    run.step(SupervisorEvent::Message(HatchMessage::AgentDone(output(9, "stranger", &[])))).unwrap();
    assert!(!run.is_complete());
    run.step(SupervisorEvent::Message(HatchMessage::AgentDone(output(1, "a", &[])))).unwrap();
    assert!(run.is_complete());
    let outs = run.into_outputs(&plan.tasks);
    let contents: Vec<&str> = outs.iter().map(|o| o.content.as_str()).collect();
    assert_eq!(contents, vec!["a", "b"]);
}

#[test]
fn supervisor_errors() {
    let plan = ExecutionPlan { run_id: 1, intent: "x".into(), tasks: vec![task(1, "A", "frontend")] };
    let mut run = SupervisorRun::new(&plan);
    match run.step(SupervisorEvent::Message(HatchMessage::AgentFailed { agent_id: 5, error: "boom".into() })) {
        Err(HatchError::Supervisor(m)) => assert_eq!(m, "agent failed: boom"),
        _ => panic!("expected failure"),
    }
    match run.step(SupervisorEvent::Closed) {
        Err(HatchError::Supervisor(m)) => assert_eq!(m, "bus closed while supervising"),
        _ => panic!("expected failure"),
    }
    match run.step(SupervisorEvent::TimedOut) {
        Err(HatchError::Supervisor(m)) => assert_eq!(m, "supervisor timed out waiting for agents"),
        _ => panic!("expected failure"),
    }
}

#[test]
fn write_decisions() {
    let mut approvals = Approvals::new();
    assert!(matches!(write_decision("  src/a.ts ", &approvals), WriteDecision::Write(p) if p == "src/a.ts"));
    assert!(matches!(write_decision("   ", &approvals), WriteDecision::Skip));
    match write_decision("/etc/x", &approvals) {
        WriteDecision::Refuse(HatchError::Config(m)) => assert_eq!(m, "refusing to write absolute path: /etc/x"),
        _ => panic!("expected refusal"),
    }
    match write_decision("a/../b", &approvals) {
        WriteDecision::Refuse(HatchError::Config(m)) => assert_eq!(m, "refusing to write path with parent traversal: a/../b"),
        _ => panic!("expected refusal"),
    }
    approvals.insert("backend".into(), false);
    assert!(matches!(write_decision("backend/main.rs", &approvals), WriteDecision::Skip));
    assert!(!is_top_level_approved("backend/x", &approvals));
    assert!(!is_top_level_approved("backend", &approvals));
    assert!(is_top_level_approved("frontend/x", &approvals));
    assert_eq!(top_level_of("frontend/src/App.tsx"), "frontend");
    assert_eq!(top_level_of("README.md"), "README.md");
}

#[test]
fn approval_answers_and_session() {
    assert_eq!(parse_approval_answer(" Y "), Some(ApprovalAnswer::Yes));
    assert_eq!(parse_approval_answer("no"), Some(ApprovalAnswer::No));
    assert_eq!(parse_approval_answer("ALL"), Some(ApprovalAnswer::All));
    assert_eq!(parse_approval_answer("q"), Some(ApprovalAnswer::Quit));
    assert_eq!(parse_approval_answer("maybe"), None);
    assert!(approval_enabled(Some("1")));
    assert!(!approval_enabled(None));
    let mut s = ApprovalSession::new();
    s.answer("frontend".into(), ApprovalAnswer::No).unwrap();
    s.answer("backend".into(), ApprovalAnswer::All).unwrap();
    assert!(s.allow_all);
    assert_eq!(s.approvals.get("frontend"), Some(false));
    match s.answer("docs".into(), ApprovalAnswer::Quit) {
        Err(HatchError::Supervisor(m)) => assert_eq!(m, "run cancelled by user during folder approval"),
        _ => panic!("expected cancellation"),
    }
}

#[test]
fn top_levels_sorted_and_distinct() {
    let outs = vec![output(1, "a", &["frontend/a.ts", "backend/b.rs", " /abs", "frontend/c.ts"]), output(2, "b", &["README.md", ""])];
    let tops = top_levels(&outs);
    assert_eq!(tops, vec!["", "README.md", "backend", "frontend"]);
}

#[test]
fn summary_lines() {
    let plan = ExecutionPlan { run_id: 7, intent: "todo".into(), tasks: vec![] };
    let outs = vec![output(2, &"z".repeat(250), &[])];
    let s = merge_summary(&plan, &outs, "runs/7");
    assert_eq!(
        s,
        format!("Run {} — todo\n- Task {}: {}\nArtifacts written to runs/7", id_text(7), id_text(2), "z".repeat(200))
    );
}

#[test]
fn agent_prompts_and_messages() {
    assert_eq!(agent_system_prompt("sys"), format!("sys\n\n{FILE_JSON_SYSTEM_INSTRUCTIONS}"));
    assert_eq!(
        agent_user_prompt("UI", "build it"),
        "Task: UI\n\nDescription:\nbuild it\n\nGenerate the full set of files.\nRemember: ONLY valid JSON."
    );
    assert_eq!(starting_message("UI"), "starting UI");
    assert_eq!(finished_message("UI"), "finished UI");
    assert_eq!(parse_kind("CODE"), ArtifactKind::Code);
    assert_eq!(parse_kind("Config"), ArtifactKind::Config);
    assert_eq!(parse_kind("markdown"), ArtifactKind::Markdown);
    assert_eq!(parse_kind(""), ArtifactKind::Other);
    assert_eq!(replace_spaces("my task name"), "my_task_name");
    let a = GenericAgent::new(3, "Frontend dev".into(), "frontend".into());
    assert_eq!((a.id(), a.name(), a.agent_type()), (3, "Frontend dev", "frontend"));
}

#[test]
fn agent_outputs_from_replies() {
    match agent_output_from_reply(1, 2, "t", "   ".into(), None) {
        Err(HatchError::Llm(m)) => assert_eq!(m, "empty completion from provider"),
        _ => panic!("expected an empty completion error"),
    }
    let reply = AgentReply {
        content: "made it".into(),
        artifacts: vec![ReplyArtifact { name: "a.ts".into(), content: "x".into(), kind: "code".into() }],
    };
    let out = agent_output_from_reply(1, 2, "t", "{...}".into(), Some(reply)).unwrap();
    assert_eq!(out.content, "made it");
    assert_eq!(out.artifacts[0].kind, ArtifactKind::Code);
    let out = agent_output_from_reply(1, 2, "my task", "free text".into(), None).unwrap();
    assert_eq!(out.content, "free text");
    assert_eq!(out.artifacts[0].name, "my_task_response.md");
    assert_eq!(out.artifacts[0].kind, ArtifactKind::Markdown);
}

fn template(name: &str, agent_type: &str, model: Option<&str>) -> AgentTemplate {
    AgentTemplate { name: name.into(), agent_type: agent_type.into(), system_prompt: format!("you are {name}"), model: model.map(|m| m.into()) }
}

#[test]
fn templates_last_wins_and_launches() {
    let mut set = TemplateSet::new();
    assert!(!set.insert(template("Old", "frontend", None)));
    assert!(set.insert(template("New", "frontend", None)));
    assert!(!set.insert(template("Api", "backend", Some("gpt-4o"))));
    assert_eq!(set.len(), 2);
    assert_eq!(set.get("frontend").unwrap().name, "New");
    let spawner = Spawner::new(set, "default-model".into());
    let l = spawner.launch_for(&task(1, "UI", "frontend")).unwrap();
    assert_eq!((l.name.as_str(), l.model.as_str()), ("New", "default-model"));
    let l = spawner.launch_for(&task(2, "API", "backend")).unwrap();
    assert_eq!(l.model, "gpt-4o");
    let (agents, err) = spawner.plan_launches(&vec![task(1, "UI", "frontend"), task(2, "Ops", "devops"), task(3, "API", "backend")]);
    assert_eq!(agents.len(), 1);
    assert_eq!(agents[0].task_id, 1);
    match err {
        Some(HatchError::Template(m)) => assert_eq!(m, "no template for agent_type 'devops'"),
        _ => panic!("expected a template error"),
    }
    let (agents, err) = spawner.plan_launches(&vec![task(1, "UI", "frontend"), task(3, "API", "backend")]);
    assert!(err.is_none());
    assert_eq!(agents.len(), 2);
    assert_ne!(agents[0].agent_id, agents[1].agent_id);
    assert!(is_template_file("frontend.toml"));
    assert!(!is_template_file("notes.TOML"));
    assert!(!is_template_file(".toml"));
}
