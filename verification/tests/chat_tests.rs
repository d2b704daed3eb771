use hatch::chat::{compose_intent, readiness_prompt, trim_history, ChatAction, ChatSession, MAX_HISTORY_CHARS};
use hatch::llm::{Message, MessageRole};

fn msg(role: MessageRole, text: &str) -> Message {
    Message { role, content: text.to_string() }
}

#[test]
fn history_keeps_the_newest_messages_within_budget() {
    let mut h = vec![
        msg(MessageRole::User, &"a".repeat(10_000)),
        msg(MessageRole::Assistant, &"b".repeat(10_000)),
        msg(MessageRole::User, &"c".repeat(10_000)),
    ];
    trim_history(&mut h);
    assert_eq!(h.len(), 2);
    assert!(h[0].content.starts_with('b'));
    let total: usize = h.iter().map(|m| m.content.len()).sum();
    assert!(total <= MAX_HISTORY_CHARS);
    let mut one = vec![msg(MessageRole::User, &"z".repeat(30_000))];
    trim_history(&mut one);
    assert!(one.is_empty());
    let mut small = vec![msg(MessageRole::User, "hi"), msg(MessageRole::Assistant, "hello")];
    trim_history(&mut small);
    assert_eq!(small.len(), 2);
}

#[test]
fn history_budget_counts_bytes() {
    let mut h = vec![msg(MessageRole::User, "x"), msg(MessageRole::User, &"é".repeat(12_000))];
    trim_history(&mut h);
    assert_eq!(h.len(), 1);
}

#[test]
fn idea_brief_joins_notes() {
    assert_eq!(compose_intent(&vec![]), None);
    assert_eq!(compose_intent(&vec!["todo app".into(), "with auth".into()]), Some("todo app\nwith auth".to_string()));
}

#[test]
fn readiness_prompt_layout() {
    let h = vec![msg(MessageRole::User, "todo app"), msg(MessageRole::Assistant, "which stack?")];
    let p = readiness_prompt(&h, &vec!["todo app".into()]);
    assert_eq!(
        p,
        "Conversation transcript:\nuser: todo app\nassistant: which stack?\n\nIdea brief (user notes):\ntodo app\n\nDecide readiness now."
    );
}

#[test]
fn run_then_folder_starts_that_run() {
    let mut s = ChatSession::new();
    assert!(matches!(s.handle_line("/run build a blog"), ChatAction::ChooseOutputDir));
    match s.handle_line("  ./projects  ") {
        ChatAction::RunPipeline { intent, output_base_dir } => {
            assert_eq!(intent, "build a blog");
            assert_eq!(output_base_dir, Some("./projects".to_string()));
        }
        _ => panic!("expected a run"),
    }
    assert!(matches!(s.handle_line("/run"), ChatAction::RunNeedsIdea));
    assert!(matches!(s.handle_line("a notes app"), ChatAction::SendChat));
    assert!(matches!(s.handle_line("/RUN"), ChatAction::SendChat));
    assert!(matches!(s.handle_line("/run"), ChatAction::ChooseOutputDir));
    match s.handle_line("/Default") {
        ChatAction::RunPipeline { intent, output_base_dir } => {
            assert_eq!(intent, "a notes app\n/RUN");
            assert_eq!(output_base_dir, None);
        }
        _ => panic!("expected a run"),
    }
}

#[test]
fn cancel_and_meta_commands() {
    let mut s = ChatSession::new();
    assert!(matches!(s.handle_line("   "), ChatAction::Nothing));
    assert!(matches!(s.handle_line("/run x"), ChatAction::ChooseOutputDir));
    assert!(matches!(s.handle_line("/CANCEL"), ChatAction::RunCancelled));
    assert!(matches!(s.handle_line("/help"), ChatAction::Help));
    assert!(matches!(s.handle_line("/?"), ChatAction::Help));
    assert!(matches!(s.handle_line("/idea"), ChatAction::ShowIdea(None)));
    assert!(matches!(s.handle_line("/plan"), ChatAction::PlanNeedsIdea));
    match s.handle_line("/plan  a shop ") {
        ChatAction::Plan(i) => assert_eq!(i, "a shop"),
        _ => panic!("expected a plan"),
    }
    assert!(matches!(s.handle_line("/autorun OFF"), ChatAction::AutoRunDisabled));
    assert!(!s.wants_readiness_check());
    match s.handle_line("/autorun maybe") {
        ChatAction::AutoRunUnknown(a) => assert_eq!(a, "maybe"),
        _ => panic!("expected unknown argument"),
    }
    assert!(matches!(s.handle_line("/autorun on"), ChatAction::AutoRunEnabled));
    assert!(s.wants_readiness_check());
    assert!(matches!(s.handle_line("/Exit"), ChatAction::Quit));
    assert!(matches!(s.handle_line("/q"), ChatAction::Quit));
}

#[test]
fn chat_turns_and_readiness() {
    let mut s = ChatSession::new();
    assert!(matches!(s.handle_line("a recipe site"), ChatAction::SendChat));
    assert_eq!(s.history().len(), 1);
    s.record_reply("Sure".into());
    assert_eq!(s.history().len(), 2);
    assert!(matches!(s.handle_line("with search"), ChatAction::SendChat));
    s.chat_failed();
    assert_eq!(s.history().len(), 2);
    assert_eq!(s.idea_notes(), &vec!["a recipe site".to_string()]);
    assert!(!s.apply_readiness(false, "x".into()));
    assert!(s.wants_readiness_check());
    assert!(s.apply_readiness(true, "recipe site MVP".into()));
    assert!(!s.wants_readiness_check());
    match s.handle_line("out") {
        ChatAction::RunPipeline { intent, .. } => assert_eq!(intent, "recipe site MVP"),
        _ => panic!("expected a run"),
    }
    assert!(matches!(s.handle_line("/clear"), ChatAction::Cleared));
    assert!(s.history().is_empty());
    assert!(s.wants_readiness_check());
}
