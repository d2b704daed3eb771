use hatch::pipeline::{
    backend_dir, backend_port, backend_url, build_plan, build_report, capture_text,
    choose_candidates, decimal_text, file_mentions, fix_bundle, fix_target_path, fix_user_prompt,
    frontend_dir, frontend_envs_for_api, frontend_port, install_dirs, is_truthy, is_web_source,
    local_fix_max_attempts, loop_start, needs_install, package_has_script, package_info_from,
    parse_unsigned, serve_plan, BuildKind,
    BuildResult, CandidateFile, FixAction, FixEvent, FixLoop, FixPhase, LoopStart, PackageInfo,
    ProjectDir, ProjectLayout, ServePlan, MAX_BUNDLE_CHARS,
};

fn pkg(present: bool, build: bool, dev: bool, start: bool) -> PackageInfo {
    PackageInfo { present, build, dev, start }
}

fn none() -> PackageInfo {
    pkg(false, false, false, false)
}

fn layout(root: PackageInfo, frontend: PackageInfo, backend: PackageInfo, cargo: bool) -> ProjectLayout {
    ProjectLayout { root, frontend, backend, backend_cargo: cargo }
}

fn env_pairs(v: &[(String, String)]) -> Vec<(&str, &str)> {
    v.iter().map(|(a, b)| (a.as_str(), b.as_str())).collect()
}

#[test]
fn truthy_values() {
    assert!(is_truthy(Some("1")));
    assert!(is_truthy(Some(" TRUE ")));
    assert!(is_truthy(Some("Yes")));
    assert!(!is_truthy(Some("0")));
    assert!(!is_truthy(Some("on")));
    assert!(!is_truthy(Some("")));
    assert!(!is_truthy(None));
}

#[test]
fn settings_defaults_and_parsing() {
    assert_eq!(local_fix_max_attempts(None), 2);
    assert_eq!(local_fix_max_attempts(Some("5")), 5);
    assert_eq!(local_fix_max_attempts(Some("+3")), 3);
    assert_eq!(local_fix_max_attempts(Some(" 5")), 2);
    assert_eq!(local_fix_max_attempts(Some("-1")), 2);
    assert_eq!(local_fix_max_attempts(Some("0")), 0);
    assert_eq!(backend_port(None), 3001);
    assert_eq!(backend_port(Some("8080")), 8080);
    assert_eq!(backend_port(Some("70000")), 3001);
    assert_eq!(frontend_port(None), 5173);
    assert_eq!(frontend_port(Some("abc")), 5173);
    assert_eq!(frontend_port(Some("65535")), 65535);
}

#[test]
fn unsigned_parse_matches_std() {
    for s in ["0", "007", "+12", "+", "", "1_0", "18446744073709551615", "18446744073709551616", "-0", "12a"] {
        assert_eq!(parse_unsigned(s, u64::MAX), s.parse::<u64>().ok(), "input {s:?}");
        assert_eq!(parse_unsigned(s, u16::MAX as u64), s.parse::<u16>().ok().map(|v| v as u64), "input {s:?}");
    }
}

#[test]
fn decimal_text_of_numbers() {
    assert_eq!(decimal_text(0), "0");
    assert_eq!(decimal_text(7), "7");
    assert_eq!(decimal_text(3001), "3001");
    assert_eq!(decimal_text(u64::MAX), u64::MAX.to_string());
}

#[test]
fn backend_url_and_api_envs() {
    assert_eq!(backend_url(3001), "http://127.0.0.1:3001");
    let envs = frontend_envs_for_api("http://127.0.0.1:3001");
    assert_eq!(
        env_pairs(&envs),
        vec![
            ("VITE_API_URL", "http://127.0.0.1:3001"),
            ("REACT_APP_API_URL", "http://127.0.0.1:3001"),
            ("NEXT_PUBLIC_API_URL", "http://127.0.0.1:3001"),
        ]
    );
}

#[test]
fn frontend_and_backend_folders() {
    let l = layout(none(), pkg(true, true, false, false), none(), false);
    assert_eq!(frontend_dir(&l), ProjectDir::Frontend);
    assert_eq!(backend_dir(&l), None);
    let l = layout(pkg(true, false, false, false), none(), none(), true);
    assert_eq!(frontend_dir(&l), ProjectDir::Root);
    assert_eq!(backend_dir(&l), Some(ProjectDir::Backend));
}

#[test]
fn root_build_script_wins() {
    let l = layout(pkg(true, true, false, false), pkg(true, true, false, false), pkg(true, true, false, false), false);
    let steps = build_plan(&l, 3001);
    assert_eq!(steps.len(), 1);
    assert_eq!(steps[0].kind, BuildKind::Root);
    assert_eq!(steps[0].command.program, "npm");
    assert_eq!(steps[0].command.args, vec!["run", "build"]);
    assert!(steps[0].command.envs.is_empty());
}

#[test]
fn frontend_then_backend_builds() {
    let l = layout(none(), pkg(true, true, false, false), pkg(true, true, false, false), false);
    let steps = build_plan(&l, 4000);
    assert_eq!(steps.len(), 2);
    assert_eq!(steps[0].kind, BuildKind::Frontend);
    assert_eq!(steps[0].command.dir, ProjectDir::Frontend);
    assert_eq!(steps[0].command.envs[0].1, "http://127.0.0.1:4000");
    assert_eq!(steps[1].kind, BuildKind::Backend);
    assert_eq!(steps[1].command.dir, ProjectDir::Backend);
}

#[test]
fn cargo_backend_builds_with_cargo() {
    let l = layout(none(), none(), none(), true);
    let steps = build_plan(&l, 3001);
    assert_eq!(steps.len(), 1);
    assert_eq!(steps[0].kind, BuildKind::Cargo);
    assert_eq!(steps[0].command.program, "cargo");
    assert_eq!(steps[0].command.args, vec!["build"]);
    let l = layout(none(), none(), pkg(true, false, true, false), true);
    assert!(build_plan(&l, 3001).is_empty());
}

#[test]
fn build_report_sections_and_empty_note() {
    let (ok, text) = build_report(&vec![], "todo app");
    assert!(ok);
    assert_eq!(text, "no build scripts found for fullstack. intent hint: todo app\n");
    let results = vec![
        BuildResult { kind: BuildKind::Frontend, dir_text: "out/frontend".into(), success: true, output: "fine".into() },
        BuildResult { kind: BuildKind::Cargo, dir_text: "out/backend".into(), success: false, output: "error[E0425]".into() },
    ];
    let (ok, text) = build_report(&results, "x");
    assert!(!ok);
    assert_eq!(
        text,
        "--- frontend build (out/frontend) ---\nfine\n--- cargo build (out/backend) ---\nerror[E0425]\n"
    );
    let (ok, text) = build_report(
        &vec![BuildResult { kind: BuildKind::Root, dir_text: "out".into(), success: true, output: "o".into() }],
        "x",
    );
    assert!(ok);
    assert_eq!(text, "--- root build ---\no\n");
}

#[test]
fn captured_output_joins_streams() {
    assert_eq!(capture_text("out", "err"), "out\nerr");
}

#[test]
fn serve_plans() {
    let l = layout(pkg(true, false, true, false), none(), none(), false);
    assert!(matches!(serve_plan(false, &l, 3001, 5173), ServePlan::Off));
    match serve_plan(true, &l, 3001, 5173) {
        ServePlan::Whole(c) => {
            assert_eq!(c.dir, ProjectDir::Root);
            assert_eq!(c.args, vec!["run", "dev", "--", "--host", "127.0.0.1", "--port", "5173"]);
            assert_eq!(c.envs.len(), 3);
        }
        _ => panic!("expected the root dev server"),
    }
    let l = layout(none(), pkg(true, true, false, true), pkg(true, false, false, true), false);
    match serve_plan(true, &l, 3002, 5174) {
        ServePlan::Split { backend, frontend } => {
            let b = backend.expect("backend server");
            assert_eq!(b.args, vec!["run", "start"]);
            assert_eq!(env_pairs(&b.envs), vec![("PORT", "3002")]);
            assert_eq!(frontend.dir, ProjectDir::Frontend);
            assert_eq!(frontend.args, vec!["run", "start"]);
            assert_eq!(frontend.envs[0], ("PORT".to_string(), "5174".to_string()));
            assert_eq!(frontend.envs[1], ("VITE_API_URL".to_string(), "http://127.0.0.1:3002".to_string()));
        }
        _ => panic!("expected split servers"),
    }
    let l = layout(none(), none(), none(), true);
    match serve_plan(true, &l, 3001, 5173) {
        ServePlan::Split { backend, frontend } => {
            assert_eq!(backend.expect("backend").args, vec!["run", "dev"]);
            assert_eq!(frontend.dir, ProjectDir::Root);
            assert_eq!(frontend.args[..2], ["run".to_string(), "dev".to_string()]);
        }
        _ => panic!("expected split servers"),
    }
}

#[test]
fn loop_start_and_installs() {
    let l = layout(none(), none(), none(), true);
    assert_eq!(loop_start(false, &l), LoopStart::Off);
    assert_eq!(loop_start(true, &l), LoopStart::NoPackages);
    let l = layout(pkg(true, false, false, false), pkg(true, false, false, false), pkg(true, false, false, false), false);
    assert_eq!(loop_start(true, &l), LoopStart::Run);
    assert_eq!(install_dirs(&l), vec![ProjectDir::Root, ProjectDir::Backend, ProjectDir::Frontend]);
    assert!(needs_install(false, false));
    assert!(!needs_install(false, true));
    assert!(needs_install(true, true));
}

#[test]
fn fix_rounds_success_after_one_patch() {
    let (mut lp, first) = FixLoop::start(2);
    assert!(matches!(first, FixAction::Build));
    match lp.step(FixEvent::Built { success: false, logs: "boom".into() }) {
        FixAction::RequestFix { attempt, max, logs } => {
            assert_eq!((attempt, max), (1, 2));
            assert_eq!(logs, "boom");
        }
        _ => panic!("expected a fix request"),
    }
    assert!(matches!(lp.step(FixEvent::FixesReturned { count: 3 }), FixAction::ApplyAndBuild));
    assert_eq!(lp.phase(), FixPhase::Building);
    assert!(matches!(lp.step(FixEvent::Built { success: true, logs: String::new() }), FixAction::Serve));
    assert_eq!(lp.phase(), FixPhase::Finished);
}

#[test]
fn fix_rounds_give_up() {
    let (mut lp, _) = FixLoop::start(1);
    lp.step(FixEvent::Built { success: false, logs: "e1".into() });
    assert!(matches!(lp.step(FixEvent::FixesReturned { count: 1 }), FixAction::ApplyAndBuild));
    assert_eq!(lp.phase(), FixPhase::Verifying);
    match lp.step(FixEvent::Built { success: false, logs: "e2".into() }) {
        FixAction::Fail(m) => assert_eq!(m, "build still failing after 1 attempts.\ne2"),
        _ => panic!("expected failure"),
    }
    let (mut lp, _) = FixLoop::start(3);
    lp.step(FixEvent::Built { success: false, logs: "logs".into() });
    match lp.step(FixEvent::FixesReturned { count: 0 }) {
        FixAction::Fail(m) => assert_eq!(m, "auto-fix returned no file patches. logs:\nlogs"),
        _ => panic!("expected failure"),
    }
    let (lp, first) = FixLoop::start(0);
    assert!(matches!(first, FixAction::Serve));
    assert_eq!(lp.phase(), FixPhase::Finished);
}

#[test]
fn fix_requests_never_exceed_max() {
    for max in 0..4usize {
        let (mut lp, mut action) = FixLoop::start(max);
        let mut requests = 0;
        for _ in 0..20 {
            let ev = match action {
                FixAction::Build | FixAction::ApplyAndBuild => FixEvent::Built { success: false, logs: "x".into() },
                FixAction::RequestFix { .. } => {
                    requests += 1;
                    FixEvent::FixesReturned { count: 1 }
                }
                FixAction::Serve | FixAction::Fail(_) => break,
            };
            assert!(lp.accepts(&ev));
            action = lp.step(ev);
        }
        assert!(requests <= max);
        assert_eq!(requests, max);
    }
}

#[test]
fn bundle_entries_and_separators() {
    let files = vec![
        CandidateFile { rel: "src/App.tsx".into(), content: "let a = 1;".into() },
        CandidateFile { rel: "package.json".into(), content: "{}".into() },
    ];
    assert_eq!(
        fix_bundle(&files),
        "FILE: src/App.tsx\nlet a = 1;\n\n---\nFILE: package.json\n{}\n\n---\n"
    );
}

#[test]
fn bundle_truncates_large_files_and_stops_at_limit() {
    let big = "é".repeat(20_000);
    let files = vec![CandidateFile { rel: "a.ts".into(), content: big }];
    let b = fix_bundle(&files);
    assert!(b.starts_with("FILE: a.ts\n"));
    assert!(b.contains(&format!("{}\n/* truncated */\n\n", "é".repeat(12_500))));
    let many: Vec<CandidateFile> = (0..5)
        .map(|i| CandidateFile { rel: format!("f{i}.ts"), content: "x".repeat(24_000) })
        .collect();
    let b = fix_bundle(&many);
    assert_eq!(b.matches("FILE: ").count(), 3);
    assert!(b.len() <= MAX_BUNDLE_CHARS + 20);
}

#[test]
fn fix_prompt_layout() {
    assert_eq!(
        fix_user_prompt("todo", "err", "FILE: a\n"),
        "Project intent:\ntodo\n\nBuild errors:\nerr\n\nCandidate files (may be truncated):\nFILE: a\n"
    );
}

#[test]
fn fix_targets_must_stay_inside() {
    assert_eq!(fix_target_path("  src/App.tsx "), Some("src/App.tsx".to_string()));
    assert_eq!(fix_target_path("/etc/passwd"), None);
    assert_eq!(fix_target_path("../x"), None);
    assert_eq!(fix_target_path("a/../b"), None);
    assert_eq!(fix_target_path("a/.."), None);
    assert_eq!(fix_target_path("   "), None);
    assert_eq!(fix_target_path("a/..b/c"), Some("a/..b/c".to_string()));
}

#[test]
fn log_mentions_found_by_pattern() {
    let logs = "ERROR in ./src/App.tsx:3:1\nat backend/main.rs and styles/site.css; not this.txt";
    let found = file_mentions(logs).expect("pattern compiles");
    assert_eq!(found, vec!["./src/App.tsx", "backend/main.rs", "styles/site.css"]);
}

#[test]
fn web_sources_by_extension() {
    assert!(is_web_source("App.TSX"));
    assert!(is_web_source("index.html"));
    assert!(!is_web_source("main.rs"));
    assert!(!is_web_source(".ts"));
    assert!(!is_web_source("README"));
    assert!(is_web_source("a.b.json"));
}

#[test]
fn candidates_in_path_order_without_duplicates() {
    let found = vec![
        "out/src/b.ts".to_string(),
        "out/package.json".to_string(),
        "out/src/a.ts".to_string(),
        "out/./src/a.ts".to_string(),
        "out/src-x/z.ts".to_string(),
    ];
    let r = choose_candidates(&found, &vec!["out/src/fallback.ts".to_string()]);
    assert_eq!(r, vec!["out/package.json", "out/src/a.ts", "out/src/b.ts", "out/src-x/z.ts"]);
    let mut expected: Vec<std::path::PathBuf> = found.iter().map(std::path::PathBuf::from).collect();
    expected.sort();
    expected.dedup();
    let as_paths: Vec<std::path::PathBuf> = r.iter().map(std::path::PathBuf::from).collect();
    assert_eq!(as_paths, expected);
    let r = choose_candidates(&vec![], &vec!["out/src/z.ts".to_string(), "out/src/a.css".to_string()]);
    assert_eq!(r, vec!["out/src/a.css", "out/src/z.ts"]);
    let many: Vec<String> = (0..20).map(|i| format!("out/f{i:02}.ts")).collect();
    let r = choose_candidates(&many, &vec![]);
    assert_eq!(r.len(), 16);
    assert_eq!(r[15], "out/f15.ts");
}

#[test]
fn oversized_file_is_cut_at_the_last_char_boundary() {
    let content = format!("a{}", "é".repeat(13_000));
    let files = vec![CandidateFile { rel: "src/main.ts".into(), content }];
    let b = fix_bundle(&files);
    let expected = format!("FILE: src/main.ts\na{}\n/* truncated */\n\n", "é".repeat(12_499));
    assert!(b.starts_with(&expected));
}

#[test]
fn tsx_mentions_are_not_cut_short() {
    let found = file_mentions("src/App.tsx(3,5): error TS2322").expect("pattern compiles");
    assert_eq!(found, vec!["src/App.tsx"]);
    let found = file_mentions("see lib/a.json and lib/b.jsx").expect("pattern compiles");
    assert_eq!(found, vec!["lib/a.json", "lib/b.jsx"]);
}

#[test]
fn package_scripts_from_json_text() {
    let raw = r#"{"name":"web","scripts":{"build":"vite build","dev":"vite","start":3}}"#;
    assert!(package_has_script(raw, "build"));
    assert!(package_has_script(raw, "dev"));
    assert!(!package_has_script(raw, "start"));
    assert!(!package_has_script(raw, "test"));
    assert!(!package_has_script("{not json", "build"));
    assert!(!package_has_script(r#"{"build":"x"}"#, "build"));
    let info = package_info_from(true, Some(raw));
    assert!(info.present && info.build && info.dev && !info.start);
    let unread = package_info_from(true, None);
    assert!(unread.present && !unread.build && !unread.dev && !unread.start);
    let absent = package_info_from(false, None);
    assert!(!absent.present && !absent.build);
}
