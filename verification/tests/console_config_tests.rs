use hatch::bus::HatchMessage;
use hatch::config::{agents_dir, output_dir_choice, output_dir_from_answer, resolve_model, run_output_base, OutputDirChoice};
use hatch::console::{artifact_list, content_preview, ends_report, finished_line, id_list, lagged_note, position_label, short_id, task_title};
use hatch::types::{AgentOutput, Artifact, ArtifactKind, ExecutionPlan, Task};

fn id_text(id: u128) -> String {
    uuid::Uuid::from_u128(id).to_string()
}

fn task(id: u128, name: &str, agent_type: &str) -> Task {
    Task { id, name: name.into(), description: String::new(), agent_type: agent_type.into(), dependencies: vec![] }
}

#[test]
fn short_ids_keep_eight_characters() {
    let id = 0x1234_5678_9abc_4def_8123_4567_89ab_cdefu128;
    assert_eq!(id_text(id), "12345678-9abc-4def-8123-456789abcdef");
    assert_eq!(short_id(id), "12345678…");
}

#[test]
fn task_titles() {
    let plan = ExecutionPlan { run_id: 1, intent: "x".into(), tasks: vec![task(5, "API", "backend"), task(5, "Dup", "generic")] };
    assert_eq!(task_title(&plan, 5), "API (backend)");
    assert_eq!(task_title(&plan, 6), format!("task {}", id_text(6)));
}

#[test]
fn previews_and_lists() {
    assert_eq!(content_preview("short"), "short");
    let long = "ü".repeat(200);
    assert_eq!(content_preview(&long), format!("{}…", "ü".repeat(160)));
    assert_eq!(content_preview(&"a".repeat(160)), "a".repeat(160));
    let out = AgentOutput {
        agent_id: 0xabcdef01_0000_4000_8000_000000000000u128,
        task_id: 2,
        content: String::new(),
        artifacts: vec![
            Artifact { name: "a.ts".into(), content: String::new(), kind: ArtifactKind::Code },
            Artifact { name: "b.md".into(), content: String::new(), kind: ArtifactKind::Markdown },
        ],
    };
    assert_eq!(artifact_list(&out), "a.ts, b.md");
    assert_eq!(finished_line(&out), format!("Agent abcdef01… finished task {}", id_text(2)));
    assert_eq!(id_list(&vec![]), "[]");
    assert_eq!(id_list(&vec![1, 2]), format!("{:?}", vec![uuid::Uuid::from_u128(1), uuid::Uuid::from_u128(2)]));
    assert_eq!(position_label(0), "[1]");
    assert_eq!(lagged_note(3), "(console: lagged 3 messages — increase bus capacity)");
    assert!(ends_report(&HatchMessage::RunComplete { run_id: 1, outputs: vec![] }));
    assert!(!ends_report(&HatchMessage::AgentFailed { agent_id: 1, error: "e".into() }));
}

#[test]
fn settings_fallbacks() {
    assert_eq!(resolve_model(Some("m1".into()), Some("m2".into())), "m1");
    assert_eq!(resolve_model(None, Some("m2".into())), "m2");
    assert_eq!(resolve_model(None, None), "gpt-4o-mini");
    assert_eq!(agents_dir(None), "agents");
    assert_eq!(agents_dir(Some("tpl")), "tpl");
    assert!(matches!(output_dir_choice(Some("a".into()), Some("b".into()), false, true), OutputDirChoice::Use(d) if d == "a"));
    assert!(matches!(output_dir_choice(None, Some("b".into()), true, false), OutputDirChoice::Use(d) if d == "b"));
    assert!(matches!(output_dir_choice(None, None, true, true), OutputDirChoice::Unset));
    assert!(matches!(output_dir_choice(None, None, false, false), OutputDirChoice::Unset));
    assert!(matches!(output_dir_choice(None, None, false, true), OutputDirChoice::Ask));
    assert_eq!(output_dir_from_answer("  \n"), "hatch_runs");
    assert_eq!(output_dir_from_answer(" out \n"), "out");
    assert_eq!(run_output_base(None, None), "hatch_runs");
    assert_eq!(run_output_base(None, Some("env".into())), "env");
    assert_eq!(run_output_base(Some("x".into()), Some("env".into())), "x");
}
