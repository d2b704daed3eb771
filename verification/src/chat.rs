//! The interactive planner chat: what each typed line does to the session (meta
//! commands, `/plan`, `/run` and its output folder question, plain chat turns),
//! bounded conversation history, the idea brief, and the readiness check prompt.
use vstd::prelude::*;

use crate::llm::{role_name, role_text, Message, MessageRole};
use crate::text::{
    byte_len, bytes_within, ascii_lower, chars_eq_str, chars_of, concat3, copy_str, eq_ignore_ascii_case, join,
    join_strings, push_str, starts_with, starts_with_at, str_eq, string_of_range,
    strip_all_prefix, strip_all_prefix_at, to_ascii_lowercase, trim, trim_bounds, trim_str,
};

verus! {

/// System prompt of the planner chat.
pub const CHAT_SYSTEM: &'static str = "You are Hatch — an interactive terminal planner assistant.
Help the user shape an idea into an implementable software plan.

Rules:
- Mirror the user language (Vietnamese or English).
- Ask concise clarifying questions when needed.
- Propose a small MVP slice first.
- Keep answers short and actionable.

You may recommend that the user runs:
  /plan [goal]  or  /run [goal]
But do NOT output JSON plans yourself.";

/// System prompt of the readiness check that may start a run on its own.
pub const AUTO_RUN_SYSTEM: &'static str = "You are the readiness checker for HATCH.
Given the conversation, decide if the user has provided enough detail to run a multi-agent implementation pass.

Return ONLY valid JSON (no markdown) exactly matching:
{
  \"ready\": true|false,
  \"intent\": \"<concise implementation goal to feed into /run>\",
  \"missing\": [\"<what is still needed>\"]
}

- Set ready=true only when you can form a sensible MVP intent.
- intent must be non-empty.";

/// Largest total size, in UTF-8 bytes, of the message texts kept in the history.
pub const MAX_HISTORY_CHARS: usize = 24000;

/// Most tokens of a chat reply.
pub const CHAT_MAX_TOKENS: u32 = 4096;

/// Most tokens of the readiness check's answer.
pub const READINESS_MAX_TOKENS: u32 = 512;

/// A message as its role and text.
pub open spec fn msg_view(m: Message) -> (MessageRole, Seq<char>) {
    (m.role, m.content@)
}

pub open spec fn msg_views(h: Seq<Message>) -> Seq<(MessageRole, Seq<char>)> {
    h.map_values(|m: Message| msg_view(m))
}

/// Total size in UTF-8 bytes of the texts of `h`.
pub open spec fn total_bytes(h: Seq<(MessageRole, Seq<char>)>) -> nat
    decreases h.len(),
{
    if h.len() == 0 {
        0
    } else {
        total_bytes(h.drop_last()) + byte_len(h.last().1)
    }
}

/// The history after dropping the oldest messages while the texts exceed the budget.
pub open spec fn keep_recent(h: Seq<(MessageRole, Seq<char>)>) -> Seq<(MessageRole, Seq<char>)>
    decreases h.len(),
{
    if h.len() == 0 || total_bytes(h) <= MAX_HISTORY_CHARS {
        h
    } else {
        keep_recent(h.drop_first())
    }
}

/// Whether the texts of `msgs` exceed the history budget.
fn exceeds_budget(msgs: &Vec<Message>) -> (r: bool)
    ensures
        r == (total_bytes(msg_views(msgs@)) > MAX_HISTORY_CHARS),
{
    let mut acc: usize = 0;
    let mut i: usize = 0;
    while i < msgs.len()
        invariant
            i <= msgs.len(),
            acc == total_bytes(msg_views(msgs@.take(i as int))),
            acc <= MAX_HISTORY_CHARS,
        decreases msgs.len() - i,
    {
        proof {
            let t = msg_views(msgs@.take(i + 1));
            assert(t.drop_last() =~= msg_views(msgs@.take(i as int)));
            assert(t.last() == msg_view(msgs@[i as int]));
        }
        match bytes_within(msgs[i].content.as_str(), MAX_HISTORY_CHARS - acc) {
            Some(n) => {
                acc = acc + n;
            },
            None => {
                proof {
                    lemma_total_bytes_prefix(msg_views(msgs@), i + 1);
                    assert(msg_views(msgs@).take(i + 1) =~= msg_views(msgs@.take(i + 1)));
                }
                return true;
            },
        }
        i = i + 1;
    }
    assert(msgs@.take(msgs.len() as int) =~= msgs@);
    false
}

/// The texts of a prefix weigh no more than the whole.
proof fn lemma_total_bytes_prefix(h: Seq<(MessageRole, Seq<char>)>, n: int)
    requires
        0 <= n <= h.len(),
    ensures
        total_bytes(h.take(n)) <= total_bytes(h),
    decreases h.len() - n,
{
    if n < h.len() {
        lemma_total_bytes_prefix(h, n + 1);
        assert(h.take(n + 1).drop_last() =~= h.take(n));
    } else {
        assert(h.take(n) =~= h);
    }
}

/// Drops the oldest messages until the history fits the budget (or is empty).
pub fn trim_history(msgs: &mut Vec<Message>)
    ensures
        msg_views(final(msgs)@) == keep_recent(msg_views(old(msgs)@)),
{
    loop
        invariant
            keep_recent(msg_views(msgs@)) == keep_recent(msg_views(old(msgs)@)),
        decreases msgs.len(),
    {
        if msgs.len() == 0 || !exceeds_budget(msgs) {
            return;
        }
        let ghost before = msgs@;
        msgs.remove(0);
        assert(msg_views(msgs@) =~= msg_views(before).drop_first());
    }
}

/// Law: trimming keeps the most recent messages: the kept history is a suffix of
/// the original that fits the budget (or is empty), and every longer suffix does not fit.
pub proof fn law_trim_keeps_longest_fitting_suffix(h: Seq<(MessageRole, Seq<char>)>)
    ensures
        exists|n: int|
            0 <= n <= h.len() && keep_recent(h) == h.skip(n) && (keep_recent(h).len() == 0
                || total_bytes(keep_recent(h)) <= MAX_HISTORY_CHARS) && forall|m: int|
                0 <= m < n ==> total_bytes(#[trigger] h.skip(m)) > MAX_HISTORY_CHARS,
    decreases h.len(),
{
    if h.len() == 0 || total_bytes(h) <= MAX_HISTORY_CHARS {
        assert(h.skip(0) =~= h);
        assert(forall|m: int| 0 <= m < 0 ==> total_bytes(#[trigger] h.skip(m)) > MAX_HISTORY_CHARS);
    } else {
        let t = h.drop_first();
        law_trim_keeps_longest_fitting_suffix(t);
        let n = choose|n: int|
            0 <= n <= t.len() && keep_recent(t) == t.skip(n) && (keep_recent(t).len() == 0
                || total_bytes(keep_recent(t)) <= MAX_HISTORY_CHARS) && forall|m: int|
                0 <= m < n ==> total_bytes(#[trigger] t.skip(m)) > MAX_HISTORY_CHARS;
        assert(t.skip(n) =~= h.skip(n + 1));
        assert forall|m: int| 0 <= m < n + 1 implies total_bytes(#[trigger] h.skip(m))
            > MAX_HISTORY_CHARS by {
            if m == 0 {
                assert(h.skip(0) =~= h);
            } else {
                assert(t.skip(m - 1) =~= h.skip(m));
            }
        }
    }
}

/// The texts of a list of strings.
pub open spec fn texts(v: Seq<String>) -> Seq<Seq<char>> {
    v.map_values(|x: String| x@)
}

/// The idea brief of the chat notes: the notes joined by newlines, if any.
pub open spec fn idea_brief(notes: Seq<Seq<char>>) -> Option<Seq<char>> {
    if notes.len() == 0 {
        None
    } else {
        Some(join(notes, "\n"@))
    }
}

/// Joins the idea notes into one intent (`None` when there are no notes).
pub fn compose_intent(notes: &Vec<String>) -> (r: Option<String>)
    ensures
        match r {
            Some(s) => idea_brief(texts(notes@)) == Some(s@),
            None => idea_brief(texts(notes@)) is None,
        },
{
    if notes.len() == 0 {
        return None;
    }
    let s = join_strings(notes, "\n");
    assert(notes@.map_values(|p: String| p@) =~= texts(notes@));
    Some(s)
}

/// One line of the readiness transcript.
pub open spec fn transcript_line(m: (MessageRole, Seq<char>)) -> Seq<char> {
    role_text(m.0) + ": "@ + m.1
}

/// The user message of the readiness check.
pub open spec fn readiness_prompt_text(history: Seq<(MessageRole, Seq<char>)>, notes: Seq<Seq<char>>) -> Seq<char> {
    let brief = match idea_brief(notes) {
        Some(b) => b,
        None => Seq::empty(),
    };
    "Conversation transcript:\n"@ + join(history.map_values(|m: (MessageRole, Seq<char>)| transcript_line(m)), "\n"@)
        + "\n\nIdea brief (user notes):\n"@ + brief + "\n\nDecide readiness now."@
}

/// Builds the readiness check's user message from the conversation and the notes.
pub fn readiness_prompt(history: &Vec<Message>, notes: &Vec<String>) -> (r: String)
    ensures
        r@ == readiness_prompt_text(msg_views(history@), texts(notes@)),
{
    let mut lines: Vec<String> = Vec::new();
    let mut i: usize = 0;
    while i < history.len()
        invariant
            i <= history.len(),
            lines@.map_values(|p: String| p@) == msg_views(history@.take(i as int)).map_values(
                |m: (MessageRole, Seq<char>)| transcript_line(m),
            ),
        decreases history.len() - i,
    {
        let m = &history[i];
        let line = concat3(role_name(m.role), ": ", m.content.as_str());
        let ghost before = lines@;
        lines.push(line);
        proof {
            let f = |p: String| p@;
            let g = |m: (MessageRole, Seq<char>)| transcript_line(m);
            assert(lines@.map_values(f) =~= before.map_values(f).push(line@));
            assert(msg_views(history@.take(i + 1)) =~= msg_views(history@.take(i as int)).push(
                msg_view(history@[i as int]),
            ));
            assert(msg_views(history@.take(i + 1)).map_values(g) =~= msg_views(
                history@.take(i as int),
            ).map_values(g).push(g(msg_view(history@[i as int]))));
        }
        i = i + 1;
    }
    assert(history@.take(history.len() as int) =~= history@);
    let transcript = join_strings(&lines, "\n");
    let brief = match compose_intent(notes) {
        Some(b) => b,
        None => String::new(),
    };
    let mut r = concat3("Conversation transcript:\n", transcript.as_str(), "\n\nIdea brief (user notes):\n");
    push_str(&mut r, brief.as_str());
    push_str(&mut r, "\n\nDecide readiness now.");
    r
}

} // verus!

verus! {

/// The chat session as data: conversation, idea notes, auto-run switches, and the
/// pending question about where a run writes its project.
pub struct ChatState {
    pub history: Seq<(MessageRole, Seq<char>)>,
    pub notes: Seq<Seq<char>>,
    pub auto_run_enabled: bool,
    pub auto_run_done: bool,
    pub awaiting_output_dir: bool,
    pub pending_run_intent: Option<Seq<char>>,
}

/// What the terminal must do after a line was typed.
pub enum ChatAction {
    /// Nothing (blank line).
    Nothing,
    /// A run was waiting for its folder but had no intent; the wait is dropped.
    MissingRunIntent,
    /// The pending run was cancelled.
    RunCancelled,
    /// Run the full pipeline for `intent`, writing under `output_base_dir`
    /// (`None`: the default folder).
    RunPipeline { intent: String, output_base_dir: Option<String> },
    /// Leave the chat.
    Quit,
    /// Print the command list.
    Help,
    /// History and notes were cleared.
    Cleared,
    /// Print the idea brief (`None`: no idea yet).
    ShowIdea(Option<String>),
    /// Print whether auto-run is on and whether it already fired.
    AutoRunStatus { enabled: bool, done: bool },
    /// Auto-run was switched on.
    AutoRunEnabled,
    /// Auto-run was switched off.
    AutoRunDisabled,
    /// Auto-run may fire again.
    AutoRunReset,
    /// `/autorun` with an unknown argument (lowercased).
    AutoRunUnknown(String),
    /// Plan this intent and print the plan.
    Plan(String),
    /// `/plan` without a goal and without notes.
    PlanNeedsIdea,
    /// Ask where the run's project goes; the intent is pending.
    ChooseOutputDir,
    /// `/run` without a goal and without notes.
    RunNeedsIdea,
    /// Stream the assistant's reply to the history.
    SendChat,
}

/// `t` equals `lit` ignoring ASCII case.
pub open spec fn same_ignoring_case(t: Seq<char>, lit: Seq<char>) -> bool {
    ascii_lower(t) == ascii_lower(lit)
}

/// The goal typed after a command, or the idea brief when none was typed.
pub open spec fn goal_after(t: Seq<char>, command: Seq<char>, notes: Seq<Seq<char>>) -> Option<Seq<char>> {
    let rest = trim(strip_all_prefix(t, command));
    if rest.len() > 0 {
        Some(rest)
    } else {
        idea_brief(notes)
    }
}

/// The session and action after a line was typed (the line is taken trimmed).
pub open spec fn handles_line(s: ChatState, line: Seq<char>, n: ChatState, r: ChatAction) -> bool {
    let t = trim(line);
    if t.len() == 0 {
        r is Nothing && n == s
    } else if s.awaiting_output_dir {
        match s.pending_run_intent {
            None => r is MissingRunIntent && n == ChatState { awaiting_output_dir: false, ..s },
            Some(intent) => if same_ignoring_case(t, "/cancel"@) {
                r is RunCancelled && n == ChatState {
                    awaiting_output_dir: false,
                    auto_run_done: false,
                    pending_run_intent: None,
                    ..s
                }
            } else {
                (r matches ChatAction::RunPipeline { intent: i, output_base_dir: d } && i@ == intent
                    && (if same_ignoring_case(t, "/default"@) {
                    d is None
                } else {
                    d matches Some(p) && p@ == t
                })) && n == ChatState {
                    awaiting_output_dir: false,
                    pending_run_intent: None,
                    ..s
                }
            },
        }
    } else if same_ignoring_case(t, "/quit"@) || same_ignoring_case(t, "/exit"@) || t == "/q"@ {
        r is Quit && n == s
    } else if same_ignoring_case(t, "/help"@) || t == "/?"@ {
        r is Help && n == s
    } else if same_ignoring_case(t, "/clear"@) {
        r is Cleared && n == ChatState {
            history: Seq::empty(),
            notes: Seq::empty(),
            auto_run_done: false,
            ..s
        }
    } else if same_ignoring_case(t, "/idea"@) {
        (r matches ChatAction::ShowIdea(o) && match idea_brief(s.notes) {
            Some(b) => o matches Some(x) && x@ == b,
            None => o is None,
        }) && n == s
    } else if starts_with(t, "/autorun"@) {
        let arg = ascii_lower(trim(strip_all_prefix(t, "/autorun"@)));
        if arg.len() == 0 {
            (r matches ChatAction::AutoRunStatus { enabled, done } && enabled == s.auto_run_enabled
                && done == s.auto_run_done) && n == s
        } else if arg == "on"@ {
            r is AutoRunEnabled && n == ChatState {
                auto_run_enabled: true,
                auto_run_done: false,
                ..s
            }
        } else if arg == "off"@ {
            r is AutoRunDisabled && n == ChatState { auto_run_enabled: false, ..s }
        } else if arg == "reset"@ {
            r is AutoRunReset && n == ChatState { auto_run_done: false, ..s }
        } else {
            (r matches ChatAction::AutoRunUnknown(a) && a@ == arg) && n == s
        }
    } else if starts_with(t, "/plan"@) {
        (match goal_after(t, "/plan"@, s.notes) {
            Some(g) => r matches ChatAction::Plan(i) && i@ == g,
            None => r is PlanNeedsIdea,
        }) && n == s
    } else if starts_with(t, "/run"@) {
        match goal_after(t, "/run"@, s.notes) {
            Some(g) => r is ChooseOutputDir && n == ChatState {
                auto_run_done: true,
                pending_run_intent: Some(g),
                awaiting_output_dir: true,
                ..s
            },
            None => r is RunNeedsIdea && n == s,
        }
    } else {
        r is SendChat && n == ChatState {
            notes: s.notes.push(t),
            history: keep_recent(s.history.push((MessageRole::User, t))),
            ..s
        }
    }
}

/// The interactive session's state.
pub struct ChatSession {
    history: Vec<Message>,
    idea_notes: Vec<String>,
    auto_run_enabled: bool,
    auto_run_done: bool,
    awaiting_output_base_dir: bool,
    pending_run_intent: Option<String>,
}

impl ChatSession {
    pub closed spec fn view(&self) -> ChatState {
        ChatState {
            history: msg_views(self.history@),
            notes: texts(self.idea_notes@),
            auto_run_enabled: self.auto_run_enabled,
            auto_run_done: self.auto_run_done,
            awaiting_output_dir: self.awaiting_output_base_dir,
            pending_run_intent: match self.pending_run_intent {
                Some(p) => Some(p@),
                None => None,
            },
        }
    }

    /// A fresh session: empty conversation, auto-run on and not yet fired.
    pub fn new() -> (s: Self)
        ensures
            s.view() == (ChatState {
                history: Seq::empty(),
                notes: Seq::empty(),
                auto_run_enabled: true,
                auto_run_done: false,
                awaiting_output_dir: false,
                pending_run_intent: None,
            }),
    {
        let s = ChatSession {
            history: Vec::new(),
            idea_notes: Vec::new(),
            auto_run_enabled: true,
            auto_run_done: false,
            awaiting_output_base_dir: false,
            pending_run_intent: None,
        };
        assert(s.view().history =~= Seq::<(MessageRole, Seq<char>)>::empty());
        assert(s.view().notes =~= Seq::<Seq<char>>::empty());
        s
    }

    /// The conversation so far (sent with each chat turn).
    pub fn history(&self) -> (r: &Vec<Message>)
        ensures
            msg_views(r@) == self.view().history,
    {
        &self.history
    }

    /// The idea notes so far.
    pub fn idea_notes(&self) -> (r: &Vec<String>)
        ensures
            texts(r@) == self.view().notes,
    {
        &self.idea_notes
    }

    /// Takes a typed line into account and says what the terminal must do.
    pub fn handle_line(&mut self, line: &str) -> (r: ChatAction)
        ensures
            handles_line(old(self).view(), line@, final(self).view(), r),
    {
        let t = trim_str(line);
        let tv = chars_of(t.as_str());
        assert(tv@.subrange(0, tv@.len() as int) =~= tv@);
        if tv.len() == 0 {
            return ChatAction::Nothing;
        }
        if self.awaiting_output_base_dir {
            let intent = match self.pending_run_intent.take() {
                Some(v) => v,
                None => {
                    self.awaiting_output_base_dir = false;
                    return ChatAction::MissingRunIntent;
                },
            };
            if eq_ignore_ascii_case(t.as_str(), "/cancel") {
                self.awaiting_output_base_dir = false;
                self.auto_run_done = false;
                return ChatAction::RunCancelled;
            }
            let output_base_dir = if eq_ignore_ascii_case(t.as_str(), "/default") {
                None
            } else {
                Some(copy_str(t.as_str()))
            };
            self.awaiting_output_base_dir = false;
            return ChatAction::RunPipeline { intent, output_base_dir };
        }
        if eq_ignore_ascii_case(t.as_str(), "/quit") || eq_ignore_ascii_case(t.as_str(), "/exit")
            || str_eq(t.as_str(), "/q") {
            return ChatAction::Quit;
        }
        if eq_ignore_ascii_case(t.as_str(), "/help") || str_eq(t.as_str(), "/?") {
            return ChatAction::Help;
        }
        if eq_ignore_ascii_case(t.as_str(), "/clear") {
            self.history.clear();
            self.idea_notes.clear();
            self.auto_run_done = false;
            assert(self.view().history =~= Seq::<(MessageRole, Seq<char>)>::empty());
            assert(self.view().notes =~= Seq::<Seq<char>>::empty());
            return ChatAction::Cleared;
        }
        if eq_ignore_ascii_case(t.as_str(), "/idea") {
            return ChatAction::ShowIdea(compose_intent(&self.idea_notes));
        }
        let autorun = chars_of("/autorun");
        if starts_with_at(&tv, 0, tv.len(), &autorun) {
            let arg = command_argument(&tv, &autorun);
            return self.autorun_command(arg);
        }
        let plan = chars_of("/plan");
        if starts_with_at(&tv, 0, tv.len(), &plan) {
            return match self.goal(&tv, &plan) {
                Some(g) => ChatAction::Plan(g),
                None => ChatAction::PlanNeedsIdea,
            };
        }
        let run = chars_of("/run");
        if starts_with_at(&tv, 0, tv.len(), &run) {
            return match self.goal(&tv, &run) {
                Some(g) => {
                    self.auto_run_done = true;
                    self.pending_run_intent = Some(g);
                    self.awaiting_output_base_dir = true;
                    ChatAction::ChooseOutputDir
                },
                None => ChatAction::RunNeedsIdea,
            };
        }
        let ghost notes0 = self.idea_notes@;
        self.idea_notes.push(copy_str(t.as_str()));
        assert(texts(self.idea_notes@) =~= texts(notes0).push(t@));
        let ghost hist0 = self.history@;
        self.history.push(Message { role: MessageRole::User, content: t });
        assert(msg_views(self.history@) =~= msg_views(hist0).push((MessageRole::User, tv@)));
        trim_history(&mut self.history);
        ChatAction::SendChat
    }

    /// Handles `/autorun` with its (trimmed) argument.
    fn autorun_command(&mut self, arg: String) -> (r: ChatAction)
        ensures
            ({
                let a = ascii_lower(arg@);
                let s = old(self).view();
                let n = final(self).view();
                if a.len() == 0 {
                    (r matches ChatAction::AutoRunStatus { enabled, done } && enabled
                        == s.auto_run_enabled && done == s.auto_run_done) && n == s
                } else if a == "on"@ {
                    r is AutoRunEnabled && n == ChatState {
                        auto_run_enabled: true,
                        auto_run_done: false,
                        ..s
                    }
                } else if a == "off"@ {
                    r is AutoRunDisabled && n == ChatState { auto_run_enabled: false, ..s }
                } else if a == "reset"@ {
                    r is AutoRunReset && n == ChatState { auto_run_done: false, ..s }
                } else {
                    (r matches ChatAction::AutoRunUnknown(x) && x@ == a) && n == s
                }
            }),
    {
        let lowered = to_ascii_lowercase(arg.as_str());
        if lowered.len() == 0 {
            ChatAction::AutoRunStatus { enabled: self.auto_run_enabled, done: self.auto_run_done }
        } else if chars_eq_str(&lowered, "on") {
            self.auto_run_enabled = true;
            self.auto_run_done = false;
            ChatAction::AutoRunEnabled
        } else if chars_eq_str(&lowered, "off") {
            self.auto_run_enabled = false;
            ChatAction::AutoRunDisabled
        } else if chars_eq_str(&lowered, "reset") {
            self.auto_run_done = false;
            ChatAction::AutoRunReset
        } else {
            ChatAction::AutoRunUnknown(string_of_chars(&lowered))
        }
    }

    /// The goal typed after `command` in `tv`, or the idea brief.
    fn goal(&self, tv: &Vec<char>, command: &Vec<char>) -> (r: Option<String>)
        ensures
            match goal_after(tv@, command@, self.view().notes) {
                Some(g) => r matches Some(x) && x@ == g,
                None => r is None,
            },
    {
        let rest = command_argument(tv, command);
        if !rest.as_str().is_empty() {
            Some(rest)
        } else {
            compose_intent(&self.idea_notes)
        }
    }

    /// Records the assistant's reply to the last chat turn.
    pub fn record_reply(&mut self, reply: String)
        ensures
            final(self).view() == (ChatState {
                history: keep_recent(old(self).view().history.push((MessageRole::Assistant, reply@))),
                ..old(self).view()
            }),
    {
        let ghost hist0 = self.history@;
        let ghost rv = reply@;
        self.history.push(Message { role: MessageRole::Assistant, content: reply });
        assert(msg_views(self.history@) =~= msg_views(hist0).push((MessageRole::Assistant, rv)));
        trim_history(&mut self.history);
    }

    /// Undoes the last chat turn after its reply failed: the last message and the
    /// last note are dropped.
    pub fn chat_failed(&mut self)
        ensures
            final(self).view() == (ChatState {
                history: if old(self).view().history.len() > 0 {
                    old(self).view().history.drop_last()
                } else {
                    old(self).view().history
                },
                notes: if old(self).view().notes.len() > 0 {
                    old(self).view().notes.drop_last()
                } else {
                    old(self).view().notes
                },
                ..old(self).view()
            }),
    {
        let ghost h0 = self.history@;
        let ghost n0 = self.idea_notes@;
        self.history.pop();
        self.idea_notes.pop();
        proof {
            if h0.len() > 0 {
                assert(msg_views(self.history@) =~= msg_views(h0).drop_last());
            }
            if n0.len() > 0 {
                assert(texts(self.idea_notes@) =~= texts(n0).drop_last());
            }
        }
    }

    /// Whether the readiness check runs after this reply (auto-run on, not yet fired).
    pub fn wants_readiness_check(&self) -> (r: bool)
        ensures
            r == (self.view().auto_run_enabled && !self.view().auto_run_done),
    {
        self.auto_run_enabled && !self.auto_run_done
    }

    /// Takes the readiness answer: when ready, the run for its intent
    /// starts by asking for the output folder. Returns whether it started.
    pub fn apply_readiness(&mut self, ready: bool, intent: String) -> (started: bool)
        ensures
            started == ready,
            ready ==> final(self).view() == (ChatState {
                auto_run_done: true,
                pending_run_intent: Some(intent@),
                awaiting_output_dir: true,
                ..old(self).view()
            }),
            !ready ==> final(self).view() == old(self).view(),
    {
        if ready {
            self.auto_run_done = true;
            self.pending_run_intent = Some(intent);
            self.awaiting_output_base_dir = true;
        }
        ready
    }
}

/// `trim(v without the repeated prefix `command`)`.
fn command_argument(tv: &Vec<char>, command: &Vec<char>) -> (r: String)
    ensures
        r@ == trim(strip_all_prefix(tv@, command@)),
{
    assert(tv@.subrange(0, tv@.len() as int) =~= tv@);
    let a = strip_all_prefix_at(tv, 0, tv.len(), command);
    let (x, y) = trim_bounds(tv, a, tv.len());
    string_of_range(tv, x, y)
}

fn string_of_chars(v: &Vec<char>) -> (r: String)
    ensures
        r@ == v@,
{
    assert(v@.subrange(0, v@.len() as int) =~= v@);
    string_of_range(v, 0, v.len())
}

/// Law: after `/run` with a goal (or with an idea brief to fall back on), the next
/// non-blank line other than `/cancel` starts the run of exactly that goal, in the
/// folder typed (or the default folder for `/default`), and the session is no
/// longer waiting for a folder.
pub proof fn law_run_then_folder(
    s: ChatState,
    run_line: Seq<char>,
    folder_line: Seq<char>,
    n1: ChatState,
    r1: ChatAction,
    n2: ChatState,
    r2: ChatAction,
)
    requires
        !s.awaiting_output_dir,
        starts_with(trim(run_line), "/run"@),
        goal_after(trim(run_line), "/run"@, s.notes) is Some,
        trim(folder_line).len() > 0,
        !same_ignoring_case(trim(folder_line), "/cancel"@),
        handles_line(s, run_line, n1, r1),
        handles_line(n1, folder_line, n2, r2),
    ensures
        r1 is ChooseOutputDir,
        r2 matches ChatAction::RunPipeline { intent, output_base_dir } && intent@ == goal_after(
            trim(run_line),
            "/run"@,
            s.notes,
        )->0 && (if same_ignoring_case(trim(folder_line), "/default"@) {
            output_base_dir is None
        } else {
            output_base_dir matches Some(d) && d@ == trim(folder_line)
        }),
        !n2.awaiting_output_dir,
        n2.pending_run_intent is None,
{
    let t = trim(run_line);
    reveal_strlit("/run");
    reveal_strlit("/quit");
    reveal_strlit("/exit");
    reveal_strlit("/q");
    reveal_strlit("/help");
    reveal_strlit("/?");
    reveal_strlit("/clear");
    reveal_strlit("/idea");
    reveal_strlit("/autorun");
    reveal_strlit("/plan");
    assert(t.take(4) == "/run"@);
    assert(t[1] == 'r') by {
        assert(t.take(4)[1] == t[1]);
    }
    assert(ascii_lower(t)[1] == 'r');
    assert(!same_ignoring_case(t, "/quit"@)) by {
        assert(ascii_lower("/quit"@)[1] == 'q');
    }
    assert(!same_ignoring_case(t, "/exit"@)) by {
        assert(ascii_lower("/exit"@)[1] == 'e');
    }
    assert(t != "/q"@) by {
        assert("/q"@[1] == 'q');
    }
    assert(!same_ignoring_case(t, "/help"@)) by {
        assert(ascii_lower("/help"@)[1] == 'h');
    }
    assert(t != "/?"@) by {
        assert("/?"@[1] == '?');
    }
    assert(!same_ignoring_case(t, "/clear"@)) by {
        assert(ascii_lower("/clear"@)[1] == 'c');
    }
    assert(!same_ignoring_case(t, "/idea"@)) by {
        assert(ascii_lower("/idea"@)[1] == 'i');
    }
    assert(!starts_with(t, "/autorun"@)) by {
        if starts_with(t, "/autorun"@) {
            assert(t.take(8)[1] == t[1]);
        }
    }
    assert(!starts_with(t, "/plan"@)) by {
        if starts_with(t, "/plan"@) {
            assert(t.take(5)[1] == t[1]);
        }
    }
}

/// Law: `/plan` plans the goal typed after it, else the whole idea brief (every
/// chat note so far, in order, one per line), and asks for an idea when there is
/// neither; it leaves the session as it was.
pub proof fn law_plan_uses_goal_or_whole_brief(s: ChatState, line: Seq<char>, n: ChatState, r: ChatAction)
    requires
        !s.awaiting_output_dir,
        starts_with(trim(line), "/plan"@),
        handles_line(s, line, n, r),
    ensures
        n == s,
        ({
            let rest = trim(strip_all_prefix(trim(line), "/plan"@));
            if rest.len() > 0 {
                r matches ChatAction::Plan(i) && i@ == rest
            } else if s.notes.len() > 0 {
                r matches ChatAction::Plan(i) && i@ == join(s.notes, "\n"@)
            } else {
                r is PlanNeedsIdea
            }
        }),
{
    let t = trim(line);
    reveal_strlit("/run");
    reveal_strlit("/quit");
    reveal_strlit("/exit");
    reveal_strlit("/q");
    reveal_strlit("/help");
    reveal_strlit("/?");
    reveal_strlit("/clear");
    reveal_strlit("/idea");
    reveal_strlit("/autorun");
    reveal_strlit("/plan");
    assert(t.take(5) == "/plan"@);
    assert(t[1] == 'p') by {
        assert(t.take(5)[1] == t[1]);
    }
    assert(ascii_lower(t)[1] == 'p');
    assert(!same_ignoring_case(t, "/quit"@)) by {
        assert(ascii_lower("/quit"@)[1] == 'q');
    }
    assert(!same_ignoring_case(t, "/exit"@)) by {
        assert(ascii_lower("/exit"@)[1] == 'e');
    }
    assert(t != "/q"@) by {
        assert("/q"@[1] == 'q');
    }
    assert(!same_ignoring_case(t, "/help"@)) by {
        assert(ascii_lower("/help"@)[1] == 'h');
    }
    assert(t != "/?"@) by {
        assert("/?"@[1] == '?');
    }
    assert(!same_ignoring_case(t, "/clear"@)) by {
        assert(ascii_lower("/clear"@)[1] == 'c');
    }
    assert(!same_ignoring_case(t, "/idea"@)) by {
        assert(ascii_lower("/idea"@)[1] == 'i');
    }
    assert(!starts_with(t, "/autorun"@)) by {
        if starts_with(t, "/autorun"@) {
            assert(t.take(8)[1] == t[1]);
        }
    }
}

/// Law: the goal of `/plan` or `/run` is the text typed after the command, else
/// the whole idea brief (every note, in order, one per line), else there is none.
pub proof fn law_goal_is_typed_text_or_whole_brief(t: Seq<char>, command: Seq<char>, notes: Seq<Seq<char>>)
    ensures
        ({
            let rest = trim(strip_all_prefix(t, command));
            goal_after(t, command, notes) == if rest.len() > 0 {
                Some(rest)
            } else if notes.len() > 0 {
                Some(join(notes, "\n"@))
            } else {
                None
            }
        }),
{
}

} // verus!
