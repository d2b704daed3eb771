use hatch::bus::{HatchMessage, MessageBus};
use hatch::ids::{fresh_id, id_string};
use hatch::materialize::{join_path, merge_summary, plan_writes, run_folder, Approvals};
use hatch::planner::planner_json_error;
use hatch::spawner::Schedule;
use hatch::supervisor::finish_run;
use hatch::types::{AgentOutput, Artifact, ArtifactKind, ExecutionPlan, HatchError, Task};

fn artifact(name: &str, content: &str) -> Artifact {
    Artifact { name: name.into(), content: content.into(), kind: ArtifactKind::Code }
}

fn output_with(task_id: u128, arts: Vec<Artifact>) -> AgentOutput {
    AgentOutput { agent_id: 50 + task_id, task_id, content: format!("out {task_id}"), artifacts: arts }
}

fn task_with(id: u128, name: &str, deps: Vec<u128>) -> Task {
    Task { id, name: name.into(), description: format!("do {name}"), agent_type: "generic".into(), dependencies: deps }
}

#[test]
fn paths_join_like_unix_paths() {
    assert_eq!(join_path("out", "a.txt"), "out/a.txt");
    assert_eq!(join_path("out/", "a.txt"), "out/a.txt");
    assert_eq!(join_path("", "a.txt"), "a.txt");
    assert_eq!(join_path("out", "/etc/x"), "/etc/x");
}

#[test]
fn run_folder_is_the_run_id_under_the_base() {
    let id = 0x0123_4567_89ab_4def_8123_4567_89ab_cdefu128;
    assert_eq!(run_folder("outputs", id), "outputs/01234567-89ab-4def-8123-456789abcdef");
    assert_eq!(run_folder("outputs", id), format!("outputs/{}", uuid::Uuid::from_u128(id)));
}

#[test]
fn writes_follow_artifacts_in_order_and_skip_blank_names() {
    let outputs = vec![
        output_with(1, vec![artifact("  src/a.ts ", "A"), artifact("   ", "blank")]),
        output_with(2, vec![artifact("b.txt", "B"), artifact("backend/main.rs", "M")]),
    ];
    let mut approvals = Approvals::new();
    approvals.insert("backend".into(), false);
    let (writes, refusal) = plan_writes("out/run", &outputs, &approvals);
    assert!(refusal.is_none());
    let got: Vec<(String, String)> = writes.into_iter().map(|w| (w.path, w.content)).collect();
    assert_eq!(
        got,
        vec![("out/run/src/a.ts".to_string(), "A".to_string()), ("out/run/b.txt".to_string(), "B".to_string())]
    );
}

#[test]
fn a_refused_path_stops_the_writes_after_it() {
    let outputs = vec![output_with(1, vec![artifact("a.txt", "A"), artifact("/etc/x", "X"), artifact("b.txt", "B")])];
    let (writes, refusal) = plan_writes("d", &outputs, &Approvals::new());
    let paths: Vec<String> = writes.into_iter().map(|w| w.path).collect();
    assert_eq!(paths, vec!["d/a.txt".to_string()]);
    match refusal {
        Some(HatchError::Config(m)) => assert_eq!(m, "refusing to write absolute path: /etc/x"),
        _ => panic!("expected a refusal"),
    }
}

#[test]
fn finished_run_carries_plan_folder_and_files() {
    let bus = MessageBus::new(8);
    let mut rx = bus.subscribe();
    let plan = ExecutionPlan { run_id: 77, intent: "make it".into(), tasks: vec![task_with(1, "A", vec![])] };
    let outputs = vec![output_with(1, vec![artifact("a.txt", "A")])];
    let summary = merge_summary(&plan, &outputs, "out/x");
    let r = finish_run(&bus, &plan, outputs, "out/x".into(), vec!["out/x/a.txt".into()]);
    assert_eq!(r.run_id, 77);
    assert_eq!(r.intent, "make it");
    assert_eq!(r.outputs.len(), 1);
    assert_eq!(r.outputs[0].content, "out 1");
    assert_eq!(r.summary, summary);
    assert_eq!(r.output_dir, "out/x");
    assert_eq!(r.written_files, vec!["out/x/a.txt".to_string()]);
    match rx.try_recv().expect("completion message") {
        HatchMessage::RunComplete { run_id, outputs } => {
            assert_eq!(run_id, 77);
            assert_eq!(outputs.len(), 1);
            assert_eq!(outputs[0].task_id, 1);
        }
        _ => panic!("unexpected message"),
    }
}

#[test]
fn finishing_without_listeners_still_gives_the_result() {
    let bus = MessageBus::new(8);
    let plan = ExecutionPlan { run_id: 5, intent: "i".into(), tasks: vec![] };
    let r = finish_run(&bus, &plan, vec![], "o".into(), vec![]);
    assert_eq!(r.run_id, 5);
    assert!(r.written_files.is_empty());
}

#[test]
fn planner_json_error_quotes_the_body() {
    match planner_json_error("expected value at line 1 column 1", "ab\"c\n") {
        HatchError::Planner(m) => {
            assert_eq!(m, "invalid planner json: expected value at line 1 column 1; body: \"ab\\\"c\\n\"")
        }
        _ => panic!("expected a planner error"),
    }
}

#[test]
fn public_ids_are_version_four_and_hyphenated() {
    let id = fresh_id();
    let u = uuid::Uuid::from_u128(id);
    assert_eq!(u.get_version_num(), 4);
    assert_eq!(u.get_variant(), uuid::Variant::RFC4122);
    assert_eq!(id_string(id), u.to_string());
    assert_eq!(id_string(0), "00000000-0000-0000-0000-000000000000");
}

#[test]
fn tasks_start_only_after_their_dependencies_finish() {
    let tasks = vec![task_with(1, "A", vec![]), task_with(2, "B", vec![1]), task_with(3, "C", vec![1, 2])];
    let mut s = Schedule::new(tasks.len());
    assert_eq!(s.take_ready(&tasks), vec![0]);
    assert_eq!(s.take_ready(&tasks), Vec::<usize>::new());
    s.finish(1);
    assert_eq!(s.take_ready(&tasks), vec![1]);
    assert_eq!(s.take_ready(&tasks), Vec::<usize>::new());
    s.finish(2);
    assert_eq!(s.take_ready(&tasks), vec![2]);
    s.finish(3);
    assert_eq!(s.take_ready(&tasks), Vec::<usize>::new());
}

#[test]
fn independent_tasks_start_together() {
    let tasks = vec![task_with(1, "A", vec![]), task_with(2, "B", vec![]), task_with(3, "C", vec![2])];
    let mut s = Schedule::new(tasks.len());
    assert_eq!(s.take_ready(&tasks), vec![0, 1]);
    s.finish(2);
    assert_eq!(s.take_ready(&tasks), vec![2]);
}
