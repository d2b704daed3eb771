//! Deciding which artifacts of a run are written to disk: path checks, optional
//! approval per top-level folder, and the summary printed for the run.
use vstd::prelude::*;

use crate::ids::{hyphenated, id_text, RunId};
use crate::text::{
    chars_of, compare_text, concat2, concat4, copy_str, eq_ignore_ascii_case, find_in, first_occurrence,
    join, join_strings, lemma_lex_transitive, lex_lt, matches_at, occurs_at, str_eq,
    string_of, string_of_range, trim, trim_str, ascii_lower, to_ascii_lowercase,
    chars_eq_str, concat3, lemma_map_push, lemma_map_take_next,
};
use crate::types::{AgentOutput, Artifact, ExecutionPlan, HatchError};

verus! {

/// The first path component of `p` (the text before its first `/`).
pub open spec fn top_of(p: Seq<char>) -> Seq<char> {
    match first_occurrence(p, seq!['/']) {
        Some(i) => p.take(i),
        None => p,
    }
}

/// Returns the top-level path segment (the text before the first `/`).
pub fn top_level_of(path: &str) -> (r: String)
    ensures
        r@ == top_of(path@),
{
    let v = chars_of(path);
    let slash: Vec<char> = vec!['/'];
    assert(slash@ =~= seq!['/']);
    assert(v@.subrange(0, v@.len() as int) =~= v@);
    let found = find_in(&v, 0, v.len(), &slash);
    match found {
        Some(i) => {
            assert(first_occurrence(path@, seq!['/']) == Some(i as int));
            assert(v@.take(i as int) =~= v@.subrange(0, i as int));
            string_of_range(&v, 0, i)
        },
        None => {
            assert(first_occurrence(path@, seq!['/']) is None);
            string_of(&v)
        },
    }
}

/// The parent-folder component `..`.
pub open spec fn dots() -> Seq<char> {
    seq!['.', '.']
}

/// `p` has a component that is exactly `..`.
pub open spec fn has_parent_component(p: Seq<char>) -> bool {
    exists|i: int|
        #![trigger occurs_at(p, dots(), i)]
        occurs_at(p, dots(), i) && (i == 0 || p[i - 1] == '/') && (i + 2 == p.len() || p[i
            + 2] == '/')
}

/// Whether some `/`-separated component of `v` is `..`.
pub(crate) fn parent_component_in(v: &[char]) -> (r: bool)
    ensures
        r == has_parent_component(v@),
{
    let pattern: Vec<char> = vec!['.', '.'];
    assert(pattern@ =~= dots());
    let mut i: usize = 0;
    while i < v.len()
        invariant
            i <= v.len(),
            pattern@ == dots(),
            forall|j: int|
                0 <= j < i ==> !(#[trigger] occurs_at(v@, dots(), j) && (j == 0 || v@[j
                    - 1] == '/') && (j + 2 == v@.len() || v@[j + 2] == '/')),
        decreases v.len() - i,
    {
        if matches_at(v, i, &pattern) {
            let left = i == 0 || v[i - 1] == '/';
            let right = i + 2 == v.len() || v[i + 2] == '/';
            if left && right {
                return true;
            }
        }
        i = i + 1;
    }
    assert forall|j: int|
        occurs_at(v@, dots(), j) implies !((j == 0 || v@[j - 1] == '/') && (j + 2
        == v@.len() || v@[j + 2] == '/')) by {
        assert(0 <= j < v.len());
    }
    false
}

/// Folder approvals: decisions recorded per top-level path segment; a later
/// decision for the same segment replaces an earlier one.
pub struct Approvals {
    entries: Vec<(String, bool)>,
}

/// The decisions held by a list of `(segment, allowed)` entries, later ones winning.
pub open spec fn entries_map(s: Seq<(String, bool)>) -> Map<Seq<char>, bool>
    decreases s.len(),
{
    if s.len() == 0 {
        Map::empty()
    } else {
        entries_map(s.drop_last()).insert(s.last().0@, s.last().1)
    }
}

/// Whether an artifact at `path` may be written under the decisions `m`: segments
/// without a decision are allowed.
pub open spec fn approved(m: Map<Seq<char>, bool>, path: Seq<char>) -> bool {
    if m.contains_key(top_of(path)) {
        m[top_of(path)]
    } else {
        true
    }
}

impl Approvals {
    /// The recorded decisions.
    pub closed spec fn view(&self) -> Map<Seq<char>, bool> {
        entries_map(self.entries@)
    }

    /// No decisions: every folder is allowed.
    pub fn new() -> (a: Self)
        ensures
            a.view() == Map::<Seq<char>, bool>::empty(),
    {
        Approvals { entries: Vec::new() }
    }

    /// Records the decision for a top-level segment.
    pub fn insert(&mut self, top: String, allowed: bool)
        ensures
            final(self).view() == old(self).view().insert(top@, allowed),
    {
        let ghost prev = self.entries@;
        self.entries.push((top, allowed));
        assert(self.entries@.drop_last() =~= prev);
    }

    /// Whether no decision is recorded.
    pub fn is_empty(&self) -> (r: bool)
        ensures
            r == (self.view() == Map::<Seq<char>, bool>::empty()),
    {
        if self.entries.len() == 0 {
            true
        } else {
            proof {
                let s = self.entries@;
                assert(self.view().contains_key(s.last().0@));
            }
            false
        }
    }

    /// The decision recorded for `top`, if any.
    pub fn get(&self, top: &str) -> (r: Option<bool>)
        ensures
            r == (if self.view().contains_key(top@) {
                Some(self.view()[top@])
            } else {
                None::<bool>
            }),
    {
        let mut i = self.entries.len();
        assert(self.entries@.take(i as int) =~= self.entries@);
        while i > 0
            invariant
                i <= self.entries.len(),
                entries_map(self.entries@).contains_key(top@) == entries_map(
                    self.entries@.take(i as int),
                ).contains_key(top@),
                entries_map(self.entries@.take(i as int)).contains_key(top@) ==> entries_map(
                    self.entries@,
                )[top@] == entries_map(self.entries@.take(i as int))[top@],
            decreases i,
        {
            let e = &self.entries[i - 1];
            proof {
                let t = self.entries@.take(i as int);
                assert(t.drop_last() =~= self.entries@.take(i - 1));
                assert(t.last() == self.entries@[i - 1]);
            }
            if str_eq(e.0.as_str(), top) {
                return Some(e.1);
            }
            i = i - 1;
        }
        assert(self.entries@.take(0) =~= Seq::<(String, bool)>::empty());
        None
    }
}

/// `true` when `path`'s top-level segment is allowed (no decisions allow everything).
pub fn is_top_level_approved(path: &str, approvals: &Approvals) -> (r: bool)
    ensures
        r == approved(approvals.view(), path@),
{
    if approvals.is_empty() {
        return true;
    }
    let top = top_level_of(path);
    match approvals.get(top.as_str()) {
        Some(b) => b,
        None => true,
    }
}

/// What happens to one artifact when a run's outputs are written.
pub enum WriteDecision {
    /// Nothing is written for it.
    Skip,
    /// It is written at this path relative to the run's output folder.
    Write(String),
    /// Writing stops with this error.
    Refuse(HatchError),
}

/// The decision for an artifact named `name`: its trimmed name is skipped when
/// empty, refused when absolute or when it climbs to a parent folder, skipped when
/// its top-level folder was declined, and written otherwise.
pub open spec fn write_decision_for(name: Seq<char>, m: Map<Seq<char>, bool>) -> (int, Seq<char>) {
    let rel = trim(name);
    if rel.len() == 0 {
        (0, rel)
    } else if rel[0] == '/' {
        (1, "refusing to write absolute path: "@ + rel)
    } else if has_parent_component(rel) {
        (1, "refusing to write path with parent traversal: "@ + rel)
    } else if !approved(m, rel) {
        (0, rel)
    } else {
        (2, rel)
    }
}

/// Decides what to do with an artifact named `name` under the given approvals.
pub fn write_decision(name: &str, approvals: &Approvals) -> (r: WriteDecision)
    ensures
        match r {
            WriteDecision::Skip => write_decision_for(name@, approvals.view()).0 == 0,
            WriteDecision::Write(p) => write_decision_for(name@, approvals.view()).0 == 2 && p@
                == write_decision_for(name@, approvals.view()).1,
            WriteDecision::Refuse(e) => write_decision_for(name@, approvals.view()).0 == 1
                && (e matches HatchError::Config(m) && m@ == write_decision_for(
                name@,
                approvals.view(),
            ).1),
        },
{
    let rel = trim_str(name);
    let v = chars_of(rel.as_str());
    if v.len() == 0 {
        return WriteDecision::Skip;
    }
    if v[0] == '/' {
        return WriteDecision::Refuse(
            HatchError::Config(concat2("refusing to write absolute path: ", rel.as_str())),
        );
    }
    if parent_component_in(&v) {
        return WriteDecision::Refuse(
            HatchError::Config(
                concat2("refusing to write path with parent traversal: ", rel.as_str()),
            ),
        );
    }
    if !is_top_level_approved(rel.as_str(), approvals) {
        return WriteDecision::Skip;
    }
    WriteDecision::Write(rel)
}

/// An answer to the folder approval prompt.
#[derive(Debug, Clone, Copy, PartialEq, Eq, Structural)]
pub enum ApprovalAnswer {
    /// Allow this folder.
    Yes,
    /// Skip this folder.
    No,
    /// Allow this and every remaining folder.
    All,
    /// Cancel the run.
    Quit,
}

/// The answer a typed line stands for, once trimmed and lowercased.
pub open spec fn answer_for(input: Seq<char>) -> Option<ApprovalAnswer> {
    let a = ascii_lower(trim(input));
    if a == "y"@ || a == "yes"@ {
        Some(ApprovalAnswer::Yes)
    } else if a == "n"@ || a == "no"@ {
        Some(ApprovalAnswer::No)
    } else if a == "a"@ || a == "all"@ {
        Some(ApprovalAnswer::All)
    } else if a == "q"@ || a == "quit"@ {
        Some(ApprovalAnswer::Quit)
    } else {
        None
    }
}

/// Reads an approval answer (`y`/`yes`, `n`/`no`, `a`/`all`, `q`/`quit`, any case);
/// `None` means the prompt must be repeated.
pub fn parse_approval_answer(input: &str) -> (r: Option<ApprovalAnswer>)
    ensures
        r == answer_for(input@),
{
    let t = trim_str(input);
    let a = to_ascii_lowercase(t.as_str());
    if chars_eq_str(&a, "y") || chars_eq_str(&a, "yes") {
        Some(ApprovalAnswer::Yes)
    } else if chars_eq_str(&a, "n") || chars_eq_str(&a, "no") {
        Some(ApprovalAnswer::No)
    } else if chars_eq_str(&a, "a") || chars_eq_str(&a, "all") {
        Some(ApprovalAnswer::All)
    } else if chars_eq_str(&a, "q") || chars_eq_str(&a, "quit") {
        Some(ApprovalAnswer::Quit)
    } else {
        None
    }
}

/// Whether folder approval is switched on by the value of its environment
/// variable: off when unset, and off for `0`, `false` or `no` (any case, trimmed).
pub open spec fn approval_enabled_for(value: Option<Seq<char>>) -> bool {
    match value {
        Some(v) => {
            let t = trim(v);
            !(t == "0"@ || ascii_lower(t) == ascii_lower("false"@) || ascii_lower(t)
                == ascii_lower("no"@))
        },
        None => false,
    }
}

/// Decides whether folder approval is enabled from the variable's value.
pub fn approval_enabled(value: Option<&str>) -> (r: bool)
    ensures
        r == approval_enabled_for(
            match value {
                Some(v) => Some(v@),
                None => None,
            },
        ),
{
    match value {
        Some(v) => {
            let t = trim_str(v);
            !(str_eq(t.as_str(), "0") || eq_ignore_ascii_case(t.as_str(), "false")
                || eq_ignore_ascii_case(t.as_str(), "no"))
        },
        None => false,
    }
}

/// The state of an approval prompt session: decisions so far, and whether the
/// user chose to allow all remaining folders.
pub struct ApprovalSession {
    /// Decisions recorded so far.
    pub approvals: Approvals,
    /// Every remaining folder is allowed without asking.
    pub allow_all: bool,
}

impl ApprovalSession {
    /// A session with no decisions.
    pub fn new() -> (s: Self)
        ensures
            s.approvals.view() == Map::<Seq<char>, bool>::empty(),
            !s.allow_all,
    {
        ApprovalSession { approvals: Approvals::new(), allow_all: false }
    }

    /// Allows `top` without asking (after an "allow all" answer).
    pub fn auto_approve(&mut self, top: String)
        ensures
            final(self).approvals.view() == old(self).approvals.view().insert(top@, true),
            final(self).allow_all == old(self).allow_all,
    {
        self.approvals.insert(top, true);
    }

    /// Records the user's answer for `top`; `Quit` cancels the run.
    pub fn answer(&mut self, top: String, ans: ApprovalAnswer) -> (r: Result<(), HatchError>)
        ensures
            ans == ApprovalAnswer::Yes ==> r is Ok
                && final(self).approvals.view() == old(self).approvals.view().insert(top@, true)
                && final(self).allow_all == old(self).allow_all,
            ans == ApprovalAnswer::No ==> r is Ok
                && final(self).approvals.view() == old(self).approvals.view().insert(top@, false)
                && final(self).allow_all == old(self).allow_all,
            ans == ApprovalAnswer::All ==> r is Ok
                && final(self).approvals.view() == old(self).approvals.view().insert(top@, true)
                && final(self).allow_all,
            ans == ApprovalAnswer::Quit ==> (r matches Err(HatchError::Supervisor(m))
                && m@ == "run cancelled by user during folder approval"@)
                && final(self).approvals.view() == old(self).approvals.view()
                && final(self).allow_all == old(self).allow_all,
    {
        match ans {
            ApprovalAnswer::Yes => {
                self.approvals.insert(top, true);
                Ok(())
            },
            ApprovalAnswer::No => {
                self.approvals.insert(top, false);
                Ok(())
            },
            ApprovalAnswer::All => {
                self.approvals.insert(top, true);
                self.allow_all = true;
                Ok(())
            },
            ApprovalAnswer::Quit => Err(
                HatchError::Supervisor(copy_str("run cancelled by user during folder approval")),
            ),
        }
    }
}

} // verus!

verus! {

/// The texts of a list of strings.
pub open spec fn views(v: Seq<String>) -> Seq<Seq<char>> {
    v.map_values(|x: String| x@)
}

/// Strictly increasing in text order.
pub open spec fn strictly_sorted(v: Seq<Seq<char>>) -> bool {
    forall|i: int, j: int| 0 <= i < j < v.len() ==> lex_lt(#[trigger] v[i], #[trigger] v[j])
}

/// Inserts `s` into the strictly sorted list `v` unless it is already there.
fn insert_sorted(v: &mut Vec<String>, s: String)
    requires
        strictly_sorted(views(old(v)@)),
    ensures
        strictly_sorted(views(final(v)@)),
        views(final(v)@).to_set() == views(old(v)@).to_set().insert(s@),
{
    let mut p: usize = 0;
    while p < v.len() && compare_text(v[p].as_str(), s.as_str()) < 0
        invariant
            p <= v.len(),
            v@ == old(v)@,
            forall|i: int| 0 <= i < p ==> lex_lt(#[trigger] views(v@)[i], s@),
        decreases v.len() - p,
    {
        p = p + 1;
    }
    let ghost vs = views(v@);
    if p < v.len() && compare_text(v[p].as_str(), s.as_str()) == 0 {
        assert(vs[p as int] == s@);
        assert(vs.to_set().insert(s@) =~= vs.to_set());
        return;
    }
    proof {
        if p < v.len() {
            assert(lex_lt(s@, vs[p as int]));
        }
    }
    v.insert(p, s);
    proof {
        let ws = views(v@);
        assert(ws =~= vs.insert(p as int, s@));
        assert forall|i: int, j: int| 0 <= i < j < ws.len() implies lex_lt(
            #[trigger] ws[i],
            #[trigger] ws[j],
        ) by {
            if j < p {
                assert(ws[i] == vs[i] && ws[j] == vs[j]);
            } else if j == p {
                assert(ws[i] == vs[i]);
            } else if i == p {
                assert(ws[j] == vs[j - 1]);
                if j - 1 > p {
                    lemma_lex_transitive(s@, vs[p as int], vs[j - 1]);
                }
            } else if i < p {
                assert(ws[i] == vs[i] && ws[j] == vs[j - 1]);
            } else {
                assert(ws[i] == vs[i - 1] && ws[j] == vs[j - 1]);
            }
        }
        assert(ws.to_set() =~= vs.to_set().insert(s@)) by {
            assert forall|t: Seq<char>| ws.to_set().contains(t) implies vs.to_set().insert(
                s@,
            ).contains(t) by {
                let k = choose|k: int| 0 <= k < ws.len() && ws[k] == t;
                if k < p {
                    assert(vs[k] == t);
                } else if k > p {
                    assert(vs[k - 1] == t);
                }
            }
            assert forall|t: Seq<char>| vs.to_set().insert(s@).contains(t) implies ws.to_set().contains(
                t,
            ) by {
                if t == s@ {
                    assert(ws[p as int] == t);
                } else {
                    let k = choose|k: int| 0 <= k < vs.len() && vs[k] == t;
                    if k < p {
                        assert(ws[k] == t);
                    } else {
                        assert(ws[k + 1] == t);
                    }
                }
            }
        }
    }
}

/// The top-level folder an artifact would be written under, if its trimmed name is not empty.
pub open spec fn artifact_top(a: Artifact) -> Option<Seq<char>> {
    let rel = trim(a.name@);
    if rel.len() == 0 {
        None
    } else {
        Some(top_of(rel))
    }
}

/// Top-level folders of the artifacts of `outputs` numbered before `(i, j)`
/// (output index, artifact index).
pub open spec fn tops_before(outputs: Seq<AgentOutput>, i: int, j: int) -> Set<Seq<char>> {
    Set::new(
        |t: Seq<char>|
            exists|a: int, b: int|
                #![trigger outputs[a].artifacts@[b]]
                0 <= a < outputs.len() && 0 <= b < outputs[a].artifacts@.len() && (a < i || (a
                    == i && b < j)) && artifact_top(outputs[a].artifacts@[b]) == Some(t),
    )
}

/// Every top-level folder that an artifact of `outputs` would be written under.
pub open spec fn all_tops(outputs: Seq<AgentOutput>) -> Set<Seq<char>> {
    tops_before(outputs, outputs.len() as int, 0)
}

/// The distinct top-level folders of all artifacts, in text order.
pub fn top_levels(outputs: &[AgentOutput]) -> (r: Vec<String>)
    ensures
        strictly_sorted(views(r@)),
        views(r@).to_set() == all_tops(outputs@),
{
    let mut r: Vec<String> = Vec::new();
    let mut i: usize = 0;
    assert(views(r@).to_set() =~= tops_before(outputs@, 0, 0));
    while i < outputs.len()
        invariant
            i <= outputs.len(),
            strictly_sorted(views(r@)),
            views(r@).to_set() == tops_before(outputs@, i as int, 0),
        decreases outputs.len() - i,
    {
        let arts = &outputs[i].artifacts;
        let mut j: usize = 0;
        while j < arts.len()
            invariant
                i < outputs.len(),
                arts@ == outputs@[i as int].artifacts@,
                j <= arts.len(),
                strictly_sorted(views(r@)),
                views(r@).to_set() == tops_before(outputs@, i as int, j as int),
            decreases arts.len() - j,
        {
            let rel = trim_str(arts[j].name.as_str());
            let ghost before = views(r@).to_set();
            if !rel.as_str().is_empty() {
                let top = top_level_of(rel.as_str());
                insert_sorted(&mut r, top);
            }
            proof {
                let o = outputs@;
                assert(o[i as int].artifacts@[j as int] == arts@[j as int]);
                if rel@.len() > 0 {
                    assert(artifact_top(arts@[j as int]) == Some(top_of(rel@)));
                } else {
                    assert(artifact_top(arts@[j as int]) is None);
                }
                assert(views(r@).to_set() =~= tops_before(o, i as int, j + 1)) by {
                    assert forall|t: Seq<char>| tops_before(o, i as int, j + 1).contains(t)
                        implies views(r@).to_set().contains(t) by {
                        let (a, b) = choose|a: int, b: int|
                            #![trigger o[a].artifacts@[b]]
                            0 <= a < o.len() && 0 <= b < o[a].artifacts@.len() && (a < i || (a
                                == i && b < j + 1)) && artifact_top(o[a].artifacts@[b]) == Some(
                                t,
                            );
                        if !(a == i && b == j) {
                            assert(tops_before(o, i as int, j as int).contains(t));
                        }
                    }
                    assert forall|t: Seq<char>| views(r@).to_set().contains(t) implies tops_before(
                        o,
                        i as int,
                        j + 1,
                    ).contains(t) by {
                        if before.contains(t) {
                            let (a, b) = choose|a: int, b: int|
                                #![trigger o[a].artifacts@[b]]
                                0 <= a < o.len() && 0 <= b < o[a].artifacts@.len() && (a < i || (a
                                    == i && b < j)) && artifact_top(o[a].artifacts@[b]) == Some(
                                    t,
                                );
                            assert(o[a].artifacts@[b] == o[a].artifacts@[b]);
                        } else {
                            assert(o[i as int].artifacts@[j as int] == arts@[j as int]);
                        }
                    }
                }
            }
            j = j + 1;
        }
        proof {
            let o = outputs@;
            assert(tops_before(o, i as int, j as int) =~= tops_before(o, i + 1, 0)) by {
                assert forall|t: Seq<char>| tops_before(o, i + 1, 0).contains(t) implies tops_before(
                    o,
                    i as int,
                    j as int,
                ).contains(t) by {
                    let (a, b) = choose|a: int, b: int|
                        #![trigger o[a].artifacts@[b]]
                        0 <= a < o.len() && 0 <= b < o[a].artifacts@.len() && (a < i + 1 || (a
                            == i + 1 && b < 0)) && artifact_top(o[a].artifacts@[b]) == Some(t);
                    assert(o[a].artifacts@[b] == o[a].artifacts@[b]);
                }
                assert forall|t: Seq<char>| tops_before(o, i as int, j as int).contains(t)
                    implies tops_before(o, i + 1, 0).contains(t) by {
                    let (a, b) = choose|a: int, b: int|
                        #![trigger o[a].artifacts@[b]]
                        0 <= a < o.len() && 0 <= b < o[a].artifacts@.len() && (a < i || (a == i
                            && b < j)) && artifact_top(o[a].artifacts@[b]) == Some(t);
                    assert(o[a].artifacts@[b] == o[a].artifacts@[b]);
                }
            }
        }
        i = i + 1;
    }
    r
}

/// At most the first `n` characters of `s` (`s.chars().take(n)`).
pub open spec fn prefix_chars(s: Seq<char>, n: nat) -> Seq<char> {
    if s.len() <= n {
        s
    } else {
        s.take(n as int)
    }
}

/// The first `n` characters of `s`, or all of it when shorter.
pub fn take_chars(s: &str, n: usize) -> (r: String)
    ensures
        r@ == prefix_chars(s@, n as nat),
{
    let v = chars_of(s);
    if v.len() <= n {
        string_of(&v)
    } else {
        assert(v@.take(n as int) =~= v@.subrange(0, n as int));
        string_of_range(&v, 0, n)
    }
}

/// The lines of a run summary: the run and its intent, one line per output with
/// the first 200 characters of its text, and where the artifacts were written.
pub open spec fn summary_lines(plan: ExecutionPlan, outputs: Seq<AgentOutput>, output_dir: Seq<
    char,
>) -> Seq<Seq<char>> {
    seq!["Run "@ + hyphenated(plan.run_id) + " — "@ + plan.intent@] + outputs.map_values(
        |o: AgentOutput| "- Task "@ + hyphenated(o.task_id) + ": "@ + prefix_chars(o.content@, 200),
    ) + seq!["Artifacts written to "@ + output_dir]
}

/// The short textual merge summary for operators, lines joined by newlines.
pub fn merge_summary(plan: &ExecutionPlan, outputs: &[AgentOutput], output_dir: &str) -> (r:
    String)
    ensures
        r@ == join(summary_lines(*plan, outputs@, output_dir@), "\n"@),
{
    let mut parts: Vec<String> = Vec::new();
    let run = id_text(plan.run_id);
    parts.push(concat4("Run ", run.as_str(), " — ", plan.intent.as_str()));
    let mut i: usize = 0;
    while i < outputs.len()
        invariant
            i <= outputs.len(),
            views(parts@) == seq!["Run "@ + hyphenated(plan.run_id) + " — "@ + plan.intent@]
                + outputs@.take(i as int).map_values(
                |o: AgentOutput|
                    "- Task "@ + hyphenated(o.task_id) + ": "@ + prefix_chars(o.content@, 200),
            ),
        decreases outputs.len() - i,
    {
        let o = &outputs[i];
        let tid = id_text(o.task_id);
        let preview = take_chars(o.content.as_str(), 200);
        let line = concat4("- Task ", tid.as_str(), ": ", preview.as_str());
        let ghost before = parts@;
        parts.push(line);
        proof {
            assert(views(parts@) =~= views(before).push(line@));
            assert(outputs@.take(i + 1) =~= outputs@.take(i as int).push(outputs@[i as int]));
        }
        i = i + 1;
        proof {
            let f = |o: AgentOutput|
                "- Task "@ + hyphenated(o.task_id) + ": "@ + prefix_chars(o.content@, 200);
            assert(outputs@.take(i as int).map_values(f) =~= outputs@.take(i - 1).map_values(
                f,
            ).push(f(outputs@[i - 1])));
        }
    }
    let last = concat2("Artifacts written to ", output_dir);
    let ghost before = parts@;
    parts.push(last);
    proof {
        assert(outputs@.take(outputs.len() as int) =~= outputs@);
        assert(views(parts@) =~= views(before).push(last@));
        assert(views(parts@) =~= summary_lines(*plan, outputs@, output_dir@));
    }
    let r = join_strings(&parts, "\n");
    assert(parts@.map_values(|p: String| p@) =~= views(parts@));
    r
}

// ---------------------------------------------------------------------------
// The files of a run
// ---------------------------------------------------------------------------

/// `Path::join` on Unix, on texts: `rel` itself when it is absolute; else `base`,
/// a `/` unless `base` is empty or already ends with one, then `rel`.
pub open spec fn joined(base: Seq<char>, rel: Seq<char>) -> Seq<char> {
    if rel.len() > 0 && rel[0] == '/' {
        rel
    } else if base.len() > 0 && base.last() != '/' {
        base + seq!['/'] + rel
    } else {
        base + rel
    }
}

/// The path of `rel` under the folder `base`.
pub fn join_path(base: &str, rel: &str) -> (r: String)
    ensures
        r@ == joined(base@, rel@),
{
    let b = chars_of(base);
    let r = chars_of(rel);
    if r.len() > 0 && r[0] == '/' {
        return copy_str(rel);
    }
    if b.len() > 0 && b[b.len() - 1] != '/' {
        let out = concat3(base, "/", rel);
        proof {
            reveal_strlit("/");
            assert("/"@ =~= seq!['/']);
        }
        out
    } else {
        concat2(base, rel)
    }
}

/// The folder a run's files go to: the run's id under the base folder.
pub fn run_folder(base: &str, run_id: RunId) -> (r: String)
    ensures
        r@ == joined(base@, hyphenated(run_id)),
{
    let id = id_text(run_id);
    join_path(base, id.as_str())
}

/// The artifacts of all outputs, in order, as their names and texts.
pub open spec fn all_artifacts(outputs: Seq<AgentOutput>) -> Seq<(Seq<char>, Seq<char>)>
    decreases outputs.len(),
{
    if outputs.len() == 0 {
        Seq::empty()
    } else {
        all_artifacts(outputs.drop_last()) + outputs.last().artifacts@.map_values(
            |a: Artifact| (a.name@, a.content@),
        )
    }
}

/// The files written for a list of artifacts under `dir`, in order, as paths and
/// texts, and the refusal that stops the writing, if one does: each artifact is
/// skipped, refused or written as `write_decision_for` says.
pub open spec fn writes_from(
    dir: Seq<char>,
    arts: Seq<(Seq<char>, Seq<char>)>,
    m: Map<Seq<char>, bool>,
) -> (Seq<(Seq<char>, Seq<char>)>, Option<Seq<char>>)
    decreases arts.len(),
{
    if arts.len() == 0 {
        (Seq::empty(), None)
    } else {
        let (k, t) = write_decision_for(arts[0].0, m);
        let rest = writes_from(dir, arts.drop_first(), m);
        if k == 0 {
            rest
        } else if k == 1 {
            (Seq::empty(), Some(t))
        } else {
            (seq![(joined(dir, t), arts[0].1)] + rest.0, rest.1)
        }
    }
}

/// One file to write: its path and its text.
pub struct FileWrite {
    pub path: String,
    pub content: String,
}

pub open spec fn write_views(v: Seq<FileWrite>) -> Seq<(Seq<char>, Seq<char>)> {
    v.map_values(|w: FileWrite| (w.path@, w.content@))
}

fn flatten_artifacts(outputs: &[AgentOutput]) -> (r: Vec<(String, String)>)
    ensures
        r@.map_values(|p: (String, String)| (p.0@, p.1@)) == all_artifacts(outputs@),
{
    let mut r: Vec<(String, String)> = Vec::new();
    let mut i: usize = 0;
    while i < outputs.len()
        invariant
            i <= outputs.len(),
            r@.map_values(|p: (String, String)| (p.0@, p.1@)) == all_artifacts(outputs@.take(i as int)),
        decreases outputs.len() - i,
    {
        let arts = &outputs[i].artifacts;
        let ghost base = all_artifacts(outputs@.take(i as int));
        let mut j: usize = 0;
        assert(arts@.take(0).map_values(|a: Artifact| (a.name@, a.content@)) =~= Seq::<(Seq<char>, Seq<char>)>::empty());
        while j < arts.len()
            invariant
                j <= arts.len(),
                arts@ == outputs@[i as int].artifacts@,
                r@.map_values(|p: (String, String)| (p.0@, p.1@)) == base + arts@.take(j as int).map_values(
                    |a: Artifact| (a.name@, a.content@),
                ),
            decreases arts.len() - j,
        {
            let item = (copy_str(arts[j].name.as_str()), copy_str(arts[j].content.as_str()));
            let ghost before = r@;
            r.push(item);
            proof {
                lemma_map_push(before, item, |p: (String, String)| (p.0@, p.1@));
                lemma_map_take_next(arts@, j as int, |a: Artifact| (a.name@, a.content@));
                assert(r@.map_values(|p: (String, String)| (p.0@, p.1@)) =~= base + arts@.take(j + 1).map_values(
                    |a: Artifact| (a.name@, a.content@),
                ));
            }
            j = j + 1;
        }
        proof {
            let t = outputs@.take(i + 1);
            assert(t.drop_last() =~= outputs@.take(i as int));
            assert(t.last() == outputs@[i as int]);
            assert(arts@.take(arts@.len() as int) =~= arts@);
        }
        i = i + 1;
    }
    assert(outputs@.take(outputs@.len() as int) =~= outputs@);
    r
}

/// The files to write for a run's outputs under `dir`, in order, and the refusal
/// that stops the writing (the files before it are written).
pub fn plan_writes(dir: &str, outputs: &[AgentOutput], approvals: &Approvals) -> (r: (Vec<FileWrite>, Option<HatchError>))
    ensures
        write_views(r.0@) == writes_from(dir@, all_artifacts(outputs@), approvals.view()).0,
        match writes_from(dir@, all_artifacts(outputs@), approvals.view()).1 {
            Some(m) => r.1 matches Some(HatchError::Config(e)) && e@ == m,
            None => r.1 is None,
        },
{
    let flat = flatten_artifacts(outputs);
    let ghost all = all_artifacts(outputs@);
    let ghost m = approvals.view();
    let mut out: Vec<FileWrite> = Vec::new();
    let mut k: usize = 0;
    assert(all.skip(0) =~= all);
    while k < flat.len()
        invariant
            k <= flat.len(),
            flat@.map_values(|p: (String, String)| (p.0@, p.1@)) == all,
            all == all_artifacts(outputs@),
            m == approvals.view(),
            writes_from(dir@, all, m) == (
                write_views(out@) + writes_from(dir@, all.skip(k as int), m).0,
                writes_from(dir@, all.skip(k as int), m).1,
            ),
        decreases flat.len() - k,
    {
        let ghost rest = all.skip(k as int);
        proof {
            assert(rest[0] == all[k as int]);
            assert(rest.drop_first() =~= all.skip(k + 1));
            assert(all[k as int] == (flat@[k as int].0@, flat@[k as int].1@));
        }
        match write_decision(flat[k].0.as_str(), approvals) {
            WriteDecision::Skip => {},
            WriteDecision::Refuse(e) => {
                assert(write_views(out@) + Seq::<(Seq<char>, Seq<char>)>::empty() =~= write_views(out@));
                return (out, Some(e));
            },
            WriteDecision::Write(p) => {
                let path = join_path(dir, p.as_str());
                let w = FileWrite { path, content: copy_str(flat[k].1.as_str()) };
                let ghost before = out@;
                out.push(w);
                proof {
                    lemma_map_push(before, w, |w: FileWrite| (w.path@, w.content@));
                    let t = writes_from(dir@, all.skip(k + 1), m);
                    assert(write_views(before) + (seq![(w.path@, w.content@)] + t.0) =~= write_views(out@) + t.0);
                }
            },
        }
        k = k + 1;
    }
    assert(all.skip(k as int).len() == 0);
    assert(write_views(out@) + Seq::<(Seq<char>, Seq<char>)>::empty() =~= write_views(out@));
    (out, None)
}

/// Law: an artifact is only ever written inside the run's folder (its path is not
/// empty, not absolute, and has no `..` component), and only when its top-level
/// folder is allowed; artifacts in the same top-level folder are all treated alike.
pub proof fn law_written_paths_stay_inside(name: Seq<char>, other: Seq<char>, m: Map<Seq<char>, bool>)
    ensures
        write_decision_for(name, m).0 == 2 ==> {
            let p = write_decision_for(name, m).1;
            &&& p.len() > 0
            &&& p[0] != '/'
            &&& !has_parent_component(p)
            &&& approved(m, p)
        },
        top_of(trim(name)) == top_of(trim(other)) ==> approved(m, trim(name)) == approved(
            m,
            trim(other),
        ),
{
}

/// Law: the prompt's legend `[y/n/a/q]` decides the answer. Once trimmed and
/// lowercased, `y`/`yes` and only they approve this folder, `n`/`no` and only
/// they refuse it, `a`/`all` and only they approve it and every later folder,
/// `q`/`quit` and only they stop; any other text asks again.
pub proof fn law_answer_follows_legend(input: Seq<char>)
    ensures
        ({
            let a = ascii_lower(trim(input));
            &&& (answer_for(input) == Some(ApprovalAnswer::Yes)) == (a == "y"@ || a == "yes"@)
            &&& (answer_for(input) == Some(ApprovalAnswer::No)) == (a == "n"@ || a == "no"@)
            &&& (answer_for(input) == Some(ApprovalAnswer::All)) == (a == "a"@ || a == "all"@)
            &&& (answer_for(input) == Some(ApprovalAnswer::Quit)) == (a == "q"@ || a == "quit"@)
            &&& (answer_for(input) is None) == !(a == "y"@ || a == "yes"@ || a == "n"@ || a == "no"@
                || a == "a"@ || a == "all"@ || a == "q"@ || a == "quit"@)
        }),
{
    reveal_strlit("y");
    reveal_strlit("yes");
    reveal_strlit("n");
    reveal_strlit("no");
    reveal_strlit("a");
    reveal_strlit("all");
    reveal_strlit("q");
    reveal_strlit("quit");
    assert("y"@.len() == 1 && "n"@.len() == 1 && "a"@.len() == 1 && "q"@.len() == 1);
    assert("no"@.len() == 2 && "yes"@.len() == 3 && "all"@.len() == 3 && "quit"@.len() == 4);
    assert("y"@[0] == 'y' && "n"@[0] == 'n' && "a"@[0] == 'a' && "q"@[0] == 'q');
    assert("yes"@[0] == 'y' && "all"@[0] == 'a');
}

} // verus!
