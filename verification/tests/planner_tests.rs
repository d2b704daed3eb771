use hatch::fence::strip_json_fences;
use hatch::planner::{assemble_plan, build_execution_plan, planner_user_prompt, PLANNER_SHAPE};
use hatch::types::{HatchError, TaskSpec};

fn new_id() -> u128 {
    uuid::Uuid::new_v4().as_u128()
}

/// Reads the `tasks` list of a planner reply into task specs.
fn specs_from_reply(raw: &str) -> Vec<TaskSpec> {
    let body = strip_json_fences(raw);
    let v: serde_json::Value = serde_json::from_str(&body).expect("planner json");
    v["tasks"]
        .as_array()
        .expect("tasks")
        .iter()
        .map(|t| TaskSpec {
            name: t["name"].as_str().unwrap().to_string(),
            description: t["description"].as_str().unwrap().to_string(),
            agent_type: t["agent_type"].as_str().unwrap().to_string(),
            dependencies: t["dependencies"]
                .as_array()
                .unwrap()
                .iter()
                .map(|d| d.as_str().unwrap().to_string())
                .collect(),
        })
        .collect()
}

fn spec(name: &str, agent_type: &str, deps: &[&str]) -> TaskSpec {
    TaskSpec {
        name: name.to_string(),
        description: format!("do {name}"),
        agent_type: agent_type.to_string(),
        dependencies: deps.iter().map(|d| d.to_string()).collect(),
    }
}

#[test]
fn parses_minimal_plan_json() {
    let run = new_id();
    let json = r#"{"tasks":[{"name":"A","description":"do a","agent_type":"frontend","dependencies":[]},{"name":"B","description":"do b","agent_type":"backend","dependencies":["A"]}]}"#;
    let specs = specs_from_reply(json);
    let plan = build_execution_plan(run, "test intent", &specs).expect("parse");
    assert_eq!(plan.intent, "test intent");
    assert_eq!(plan.tasks.len(), 2);
    assert_eq!(plan.tasks[1].dependencies.len(), 1);
    assert_eq!(plan.tasks[1].dependencies[0], plan.tasks[0].id);
}

#[test]
fn strips_markdown_fence() {
    let run = new_id();
    let json = "```json\n{\"tasks\":[{\"name\":\"A\",\"description\":\"d\",\"agent_type\":\"generic\",\"dependencies\":[]}]}\n```";
    let specs = specs_from_reply(json);
    let plan = build_execution_plan(run, "x", &specs).expect("parse");
    assert_eq!(plan.tasks.len(), 1);
}

#[test]
fn zero_tasks_is_a_planner_error() {
    let run = new_id();
    match build_execution_plan(run, "x", &[]) {
        Err(HatchError::Planner(m)) => assert_eq!(m, "planner returned zero tasks"),
        _ => panic!("expected a planner error"),
    }
}

#[test]
fn unknown_dependency_is_named() {
    let run = new_id();
    let specs = vec![spec("A", "frontend", &[]), spec("B", "backend", &["Z"])];
    match build_execution_plan(run, "x", &specs) {
        Err(HatchError::Planner(m)) => assert_eq!(m, "unknown dependency 'Z' for task 'B'"),
        _ => panic!("expected a planner error"),
    }
}

#[test]
fn assembled_plan_uses_given_ids_and_keeps_order() {
    let specs = vec![spec("A", "frontend", &[]), spec("B", "backend", &["A"]), spec("C", "devops", &["A", "B"])];
    let ids = vec![11u128, 22, 33];
    let plan = assemble_plan(7, "intent", &specs, &ids).expect("plan");
    assert_eq!(plan.run_id, 7);
    let got: Vec<u128> = plan.tasks.iter().map(|t| t.id).collect();
    assert_eq!(got, vec![11, 22, 33]);
    assert_eq!(plan.tasks[2].dependencies, vec![11, 22]);
    assert_eq!(plan.tasks[2].agent_type, "devops");
    assert_eq!(plan.tasks[1].description, "do B");
}

#[test]
fn tasks_of_one_name_keep_their_own_ids() {
    let specs = vec![spec("A", "frontend", &[]), spec("A", "backend", &[]), spec("B", "generic", &["A"])];
    let ids = vec![1u128, 2, 3];
    let plan = assemble_plan(9, "intent", &specs, &ids).expect("plan");
    assert_eq!(plan.tasks[0].id, 1);
    assert_eq!(plan.tasks[1].id, 2);
    assert_eq!(plan.tasks[2].dependencies, vec![2]);
}

#[test]
fn built_plans_with_repeated_names_have_distinct_ids() {
    let specs = vec![spec("A", "frontend", &[]), spec("A", "backend", &[]), spec("B", "generic", &["A"])];
    let plan = build_execution_plan(new_id(), "x", &specs).expect("plan");
    assert_ne!(plan.tasks[0].id, plan.tasks[1].id);
    assert_ne!(plan.tasks[1].id, plan.tasks[2].id);
    assert_ne!(plan.tasks[0].id, plan.tasks[2].id);
    assert_eq!(plan.tasks[2].dependencies, vec![plan.tasks[1].id]);
}

#[test]
fn fresh_ids_are_version_four() {
    let specs = vec![spec("A", "frontend", &[]), spec("B", "backend", &[])];
    let plan = build_execution_plan(5, "x", &specs).expect("plan");
    assert_ne!(plan.tasks[0].id, plan.tasks[1].id);
    for t in &plan.tasks {
        let u = uuid::Uuid::from_u128(t.id);
        assert_eq!(u.get_version_num(), 4);
        assert_eq!(u.get_variant(), uuid::Variant::RFC4122);
    }
}

#[test]
fn planner_prompt_carries_intent_and_shape() {
    let p = planner_user_prompt("build a todo app");
    assert!(p.starts_with("User intent:\nbuild a todo app\n\nReturn ONLY valid JSON"));
    assert!(p.ends_with(PLANNER_SHAPE));
}

#[test]
fn self_dependency_is_a_cycle() {
    let json = r#"{"tasks":[{"name":"A","description":"d","agent_type":"generic","dependencies":["A"]}]}"#;
    let specs = specs_from_reply(json);
    match build_execution_plan(new_id(), "x", &specs) {
        Err(HatchError::Planner(m)) => assert_eq!(m, "planner returned cyclic task dependencies"),
        _ => panic!("expected a planner error"),
    }
}

#[test]
fn dependency_cycle_through_three_tasks_is_refused() {
    let specs = vec![spec("A", "frontend", &["C"]), spec("B", "backend", &["A"]), spec("C", "devops", &["B"])];
    match assemble_plan(1, "x", &specs, &[1, 2, 3]) {
        Err(HatchError::Planner(m)) => assert_eq!(m, "planner returned cyclic task dependencies"),
        _ => panic!("expected a planner error"),
    }
}

#[test]
fn unknown_dependency_is_reported_before_a_cycle() {
    let specs = vec![spec("A", "frontend", &["A"]), spec("B", "backend", &["Z"])];
    match assemble_plan(1, "x", &specs, &[1, 2]) {
        Err(HatchError::Planner(m)) => assert_eq!(m, "unknown dependency 'Z' for task 'B'"),
        _ => panic!("expected a planner error"),
    }
}

#[test]
fn diamond_dependencies_are_accepted() {
    let specs = vec![
        spec("D", "generic", &["B", "C"]),
        spec("B", "frontend", &["A"]),
        spec("C", "backend", &["A"]),
        spec("A", "data", &[]),
    ];
    let plan = assemble_plan(1, "x", &specs, &[4, 2, 3, 1]).expect("plan");
    assert_eq!(plan.tasks[0].dependencies, vec![2, 3]);
    assert_eq!(plan.tasks[1].dependencies, vec![1]);
}
