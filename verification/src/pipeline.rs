//! The local build, fix and serve loop that follows a run: reading its settings,
//! deciding which builds to run and which dev servers to start for the layout of
//! the generated project, the state machine of the fix attempts, the bounded bundle
//! of files sent to the fixer model, and which returned paths may be written.
use vstd::prelude::*;

use vstd::utf8::encode_utf8;

use crate::materialize::{has_parent_component, parent_component_in};
use crate::paths::{
    covers, extension_of, file_extension, first_paths, path_sorted, represents, texts_of,
};
use crate::text::{
    byte_len, chars_eq_str, char_width, ends_with, to_ascii_lowercase,
    lemma_byte_len_prefix_grows, lemma_byte_len_push, occurs_at,
    string_of_range,
    ascii_lower, bytes_within, chars_of, concat2, concat3, concat4, concat5, copy_str, matches_at, eq_ignore_ascii_case, starts_with, str_eq,
    trim, trim_str,
};

verus! {

// ---------------------------------------------------------------------------
// Settings
// ---------------------------------------------------------------------------

/// Whether a setting's text switches a feature on: once trimmed, `1`, or `true`
/// or `yes` in any ASCII case.
pub open spec fn truthy(v: Seq<char>) -> bool {
    let t = trim(v);
    t == "1"@ || ascii_lower(t) == "true"@ || ascii_lower(t) == "yes"@
}

/// Whether an optional setting is set to a truthy value (unset is off).
pub fn is_truthy(value: Option<&str>) -> (r: bool)
    ensures
        r == match value {
            Some(v) => truthy(v@),
            None => false,
        },
{
    match value {
        None => false,
        Some(v) => {
            let t = trim_str(v);
            proof {
                reveal_strlit("true");
                reveal_strlit("yes");
                assert(ascii_lower("true"@) =~= "true"@);
                assert(ascii_lower("yes"@) =~= "yes"@);
            }
            str_eq(t.as_str(), "1") || eq_ignore_ascii_case(t.as_str(), "true")
                || eq_ignore_ascii_case(t.as_str(), "yes")
        },
    }
}

pub open spec fn is_digit(c: char) -> bool {
    '0' <= c && c <= '9'
}

/// The number written by a string of decimal digits.
pub open spec fn digits_value(s: Seq<char>) -> nat
    decreases s.len(),
{
    if s.len() == 0 {
        0
    } else {
        digits_value(s.drop_last()) * 10 + (s.last() as nat - '0' as nat) as nat
    }
}

/// The text after an optional leading `+`.
pub open spec fn after_plus(s: Seq<char>) -> Seq<char> {
    if s.len() > 0 && s[0] == '+' {
        s.skip(1)
    } else {
        s
    }
}

pub open spec fn all_digits(d: Seq<char>) -> bool {
    forall|i: int| 0 <= i < d.len() ==> is_digit(#[trigger] d[i])
}

/// The digits of an unsigned integer's text: an optional `+`, then at least one
/// decimal digit and nothing else (no blanks).
pub open spec fn unsigned_digits(s: Seq<char>) -> Option<Seq<char>> {
    let d = after_plus(s);
    if d.len() > 0 && all_digits(d) {
        Some(d)
    } else {
        None
    }
}

/// What parsing `s` as an unsigned integer of largest value `max` gives
/// (`str::parse` on an unsigned integer type).
pub open spec fn parsed_unsigned(s: Seq<char>, max: nat) -> Option<nat> {
    match unsigned_digits(s) {
        Some(d) => if digits_value(d) <= max {
            Some(digits_value(d))
        } else {
            None
        },
        None => None,
    }
}

proof fn lemma_digits_value_grows(s: Seq<char>, k: int)
    requires
        0 <= k <= s.len(),
        all_digits(s),
    ensures
        digits_value(s.take(k)) <= digits_value(s),
    decreases s.len() - k,
{
    if k < s.len() {
        lemma_digits_value_grows(s, k + 1);
        assert(s.take(k + 1).drop_last() =~= s.take(k));
        assert(s.take(k + 1).last() == s[k]);
    } else {
        assert(s.take(k) =~= s);
    }
}

/// Parses `s` as an unsigned integer no larger than `max`.
pub fn parse_unsigned(s: &str, max: u64) -> (r: Option<u64>)
    ensures
        match parsed_unsigned(s@, max as nat) {
            Some(n) => r == Some(n as u64),
            None => r is None,
        },
{
    let v = chars_of(s);
    let start: usize = if v.len() > 0 && v[0] == '+' {
        1
    } else {
        0
    };
    let ghost d = if v@.len() > 0 && v@[0] == '+' {
        v@.skip(1)
    } else {
        v@
    };
    assert(d =~= v@.skip(start as int));
    if start == v.len() {
        return None;
    }
    let mut acc: u64 = 0;
    let mut i: usize = start;
    while i < v.len()
        invariant
            start <= i <= v.len(),
            v@ == s@,
            d == v@.skip(start as int),
            d == after_plus(s@),
            d.len() > 0,
            acc <= max,
            acc == digits_value(d.take(i - start)),
            forall|j: int| 0 <= j < i - start ==> is_digit(#[trigger] d[j]),
        decreases v.len() - i,
    {
        let c = v[i];
        assert(d[i - start] == c);
        if c < '0' || c > '9' {
            proof {
                assert(!all_digits(d)) by {
                    assert(!is_digit(d[i - start]));
                }
            }
            return None;
        }
        let digit: u64 = (c as u32 - '0' as u32) as u64;
        assert(d.take(i - start + 1).drop_last() =~= d.take(i - start));
        assert(d.take(i - start + 1).last() == c);
        assert(digit == c as nat - '0' as nat);
        let next: u128 = acc as u128 * 10 + digit as u128;
        assert(next == digits_value(d.take(i - start + 1)));
        if next > max as u128 {
            proof {
                if all_digits(d) {
                    lemma_digits_value_grows(d, i - start + 1);
                }
            }
            return None;
        }
        acc = next as u64;
        i = i + 1;
    }
    assert(d.take(i - start) =~= d);
    Some(acc)
}

/// An optional unsigned setting, with `default` when it is unset or does not parse.
pub open spec fn setting_or(value: Option<Seq<char>>, max: nat, default: nat) -> nat {
    match value {
        Some(v) => match parsed_unsigned(v, max) {
            Some(n) => n,
            None => default,
        },
        None => default,
    }
}

fn unsigned_setting(value: Option<&str>, max: u64, default: u64) -> (r: u64)
    requires
        default <= max,
    ensures
        r == setting_or(
            match value {
                Some(v) => Some(v@),
                None => None,
            },
            max as nat,
            default as nat,
        ),
{
    match value {
        Some(v) => match parse_unsigned(v, max) {
            Some(n) => n,
            None => default,
        },
        None => default,
    }
}

/// How many build-fix rounds the local loop may take (`HATCH_FIX_MAX_ATTEMPTS`, default 2).
pub fn local_fix_max_attempts(value: Option<&str>) -> (r: usize)
    ensures
        r == setting_or(
            match value {
                Some(v) => Some(v@),
                None => None,
            },
            usize::MAX as nat,
            2,
        ),
{
    unsigned_setting(value, usize::MAX as u64, 2) as usize
}

/// Port of the generated backend (`HATCH_BACKEND_PORT`, default 3001).
pub fn backend_port(value: Option<&str>) -> (r: u16)
    ensures
        r == setting_or(
            match value {
                Some(v) => Some(v@),
                None => None,
            },
            u16::MAX as nat,
            3001,
        ),
{
    unsigned_setting(value, u16::MAX as u64, 3001) as u16
}

/// Port of the generated frontend's dev server (`HATCH_DEV_PORT`, default 5173).
pub fn frontend_port(value: Option<&str>) -> (r: u16)
    ensures
        r == setting_or(
            match value {
                Some(v) => Some(v@),
                None => None,
            },
            u16::MAX as nat,
            5173,
        ),
{
    unsigned_setting(value, u16::MAX as u64, 5173) as u16
}

// ---------------------------------------------------------------------------
// Decimal text
// ---------------------------------------------------------------------------

pub open spec fn digit_char(d: nat) -> char {
    ('0' as nat + d % 10) as char
}

/// The decimal text of `n`, without leading zeros.
pub open spec fn decimal(n: nat) -> Seq<char>
    decreases n,
{
    if n < 10 {
        seq![digit_char(n)]
    } else {
        decimal(n / 10).push(digit_char(n % 10))
    }
}

/// The decimal text of `n`.
pub fn decimal_text(n: u64) -> (r: String)
    ensures
        r@ == decimal(n as nat),
    decreases n,
{
    let c = (('0' as u32) + ((n % 10) as u32)) as u8 as char;
    assert(c == digit_char(n as nat));
    if n < 10 {
        let mut s = String::new();
        s.push(c);
        assert(s@ =~= seq![c]);
        s
    } else {
        let mut s = decimal_text(n / 10);
        s.push(c);
        s
    }
}

// ---------------------------------------------------------------------------
// Layout of the generated project
// ---------------------------------------------------------------------------

/// What the loop knows of one `package.json` of the generated project: whether
/// the file is there, and which npm scripts it declares.
#[derive(Debug, Clone, Copy)]
pub struct PackageInfo {
    pub present: bool,
    pub build: bool,
    pub dev: bool,
    pub start: bool,
}

/// What reading `raw` as JSON says of the npm script `script`: `None` when `raw`
/// is not JSON, else whether `scripts.<script>` is a string.
pub uninterp spec fn package_script(raw: Seq<char>, script: Seq<char>) -> Option<bool>;

/// Reads `raw` with `serde_json::from_str` into a `serde_json::Value`, then looks
/// up `scripts`, then `script` in it, and asks whether that is a string. The
/// contract claims only that the result is `package_script` of the two arguments;
/// what that is, is `serde_json`'s parsing.
#[verifier::external_body]
fn json_script_present(raw: &str, script: &str) -> (r: Option<bool>)
    ensures
        r == package_script(raw@, script@),
{
    match serde_json::from_str::<serde_json::Value>(raw) {
        Ok(v) => Some(v.get("scripts").and_then(|s| s.get(script)).and_then(|x| x.as_str()).is_some()),
        Err(_) => None,
    }
}

/// Whether the text `raw` of a `package.json` declares the npm script `script`:
/// it is JSON and its `scripts.<script>` is a string. Text that is not JSON
/// declares none.
pub fn package_has_script(raw: &str, script: &str) -> (r: bool)
    ensures
        r == (package_script(raw@, script@) == Some(true)),
{
    match json_script_present(raw, script) {
        Some(found) => found,
        None => false,
    }
}

/// Whether a `package.json` read as `raw` (`None` when it could not be read)
/// declares `script`.
pub open spec fn declares(raw: Option<Seq<char>>, script: Seq<char>) -> bool {
    match raw {
        Some(t) => package_script(t, script) == Some(true),
        None => false,
    }
}

/// What the loop knows of a folder's `package.json`: whether it is `present`, and
/// which of the `build`, `dev` and `start` scripts its text `raw` declares (none
/// when it could not be read).
pub fn package_info_from(present: bool, raw: Option<&str>) -> (p: PackageInfo)
    ensures
        p.present == present,
        p.build == declares(option_view(raw), "build"@),
        p.dev == declares(option_view(raw), "dev"@),
        p.start == declares(option_view(raw), "start"@),
{
    match raw {
        Some(t) => PackageInfo {
            present,
            build: package_has_script(t, "build"),
            dev: package_has_script(t, "dev"),
            start: package_has_script(t, "start"),
        },
        None => PackageInfo { present, build: false, dev: false, start: false },
    }
}

/// The text of an optional string slice.
pub open spec fn option_view(raw: Option<&str>) -> Option<Seq<char>> {
    match raw {
        Some(t) => Some(t@),
        None => None,
    }
}

/// The `package.json` files found at the root of the output folder and in its
/// `frontend/` and `backend/` folders, and whether `backend/Cargo.toml` exists.
#[derive(Debug, Clone, Copy)]
pub struct ProjectLayout {
    pub root: PackageInfo,
    pub frontend: PackageInfo,
    pub backend: PackageInfo,
    pub backend_cargo: bool,
}

/// A folder of the generated project.
#[derive(Debug, Clone, Copy, PartialEq, Eq, Structural)]
pub enum ProjectDir {
    Root,
    Frontend,
    Backend,
}

pub open spec fn package_of(l: ProjectLayout, d: ProjectDir) -> PackageInfo {
    match d {
        ProjectDir::Root => l.root,
        ProjectDir::Frontend => l.frontend,
        ProjectDir::Backend => l.backend,
    }
}

pub open spec fn frontend_dir_of(l: ProjectLayout) -> ProjectDir {
    if l.frontend.present {
        ProjectDir::Frontend
    } else {
        ProjectDir::Root
    }
}

pub open spec fn backend_dir_of(l: ProjectLayout) -> Option<ProjectDir> {
    if l.backend.present || l.backend_cargo {
        Some(ProjectDir::Backend)
    } else {
        None
    }
}

/// The frontend folder: `frontend/` when it holds a `package.json`, else the root.
pub fn frontend_dir(l: &ProjectLayout) -> (r: ProjectDir)
    ensures
        r == frontend_dir_of(*l),
{
    if l.frontend.present {
        ProjectDir::Frontend
    } else {
        ProjectDir::Root
    }
}

/// The backend folder, when `backend/` holds a `package.json` or a `Cargo.toml`.
pub fn backend_dir(l: &ProjectLayout) -> (r: Option<ProjectDir>)
    ensures
        r == backend_dir_of(*l),
{
    if l.backend.present || l.backend_cargo {
        Some(ProjectDir::Backend)
    } else {
        None
    }
}

fn package(l: &ProjectLayout, d: ProjectDir) -> (r: PackageInfo)
    ensures
        r == package_of(*l, d),
{
    match d {
        ProjectDir::Root => l.root,
        ProjectDir::Frontend => l.frontend,
        ProjectDir::Backend => l.backend,
    }
}

// ---------------------------------------------------------------------------
// Commands
// ---------------------------------------------------------------------------

/// A program to run in a folder of the generated project, with its arguments and
/// the environment variables to set.
pub struct CommandSpec {
    pub dir: ProjectDir,
    pub program: String,
    pub args: Vec<String>,
    pub envs: Vec<(String, String)>,
}

/// A command as plain values.
pub struct CommandModel {
    pub dir: ProjectDir,
    pub program: Seq<char>,
    pub args: Seq<Seq<char>>,
    pub envs: Seq<(Seq<char>, Seq<char>)>,
}

pub open spec fn strings_view(v: Seq<String>) -> Seq<Seq<char>> {
    v.map_values(|s: String| s@)
}

pub open spec fn pairs_view(v: Seq<(String, String)>) -> Seq<(Seq<char>, Seq<char>)> {
    v.map_values(|p: (String, String)| (p.0@, p.1@))
}

impl CommandSpec {
    pub open spec fn model(&self) -> CommandModel {
        CommandModel {
            dir: self.dir,
            program: self.program@,
            args: strings_view(self.args@),
            envs: pairs_view(self.envs@),
        }
    }
}

pub open spec fn command(
    dir: ProjectDir,
    program: Seq<char>,
    args: Seq<Seq<char>>,
    envs: Seq<(Seq<char>, Seq<char>)>,
) -> CommandModel {
    CommandModel { dir, program, args, envs }
}

/// `http://127.0.0.1:<port>`, where the generated backend listens.
pub open spec fn backend_url_of(port: nat) -> Seq<char> {
    "http://127.0.0.1:"@ + decimal(port)
}

/// The variables through which the common frontend toolchains learn the API's URL.
pub open spec fn api_envs_of(url: Seq<char>) -> Seq<(Seq<char>, Seq<char>)> {
    seq![("VITE_API_URL"@, url), ("REACT_APP_API_URL"@, url), ("NEXT_PUBLIC_API_URL"@, url)]
}

/// The URL of the generated backend on `port`.
pub fn backend_url(port: u16) -> (r: String)
    ensures
        r@ == backend_url_of(port as nat),
{
    let digits = decimal_text(port as u64);
    concat2("http://127.0.0.1:", digits.as_str())
}

/// The environment that points a frontend build or dev server at `backend_url`.
pub fn frontend_envs_for_api(backend_url: &str) -> (r: Vec<(String, String)>)
    ensures
        pairs_view(r@) == api_envs_of(backend_url@),
{
    let mut r: Vec<(String, String)> = Vec::new();
    r.push((copy_str("VITE_API_URL"), copy_str(backend_url)));
    r.push((copy_str("REACT_APP_API_URL"), copy_str(backend_url)));
    r.push((copy_str("NEXT_PUBLIC_API_URL"), copy_str(backend_url)));
    assert(pairs_view(r@) =~= api_envs_of(backend_url@));
    r
}

fn strings(items: &[&str]) -> (r: Vec<String>)
    ensures
        r@.len() == items@.len(),
        forall|k: int| 0 <= k < items@.len() ==> (#[trigger] r@[k])@ == items@[k]@,
{
    let mut r: Vec<String> = Vec::new();
    let mut i: usize = 0;
    while i < items.len()
        invariant
            i <= items.len(),
            r@.len() == i,
            forall|k: int| 0 <= k < i ==> (#[trigger] r@[k])@ == items@[k]@,
        decreases items.len() - i,
    {
        let x = copy_str(items[i]);
        r.push(x);
        i = i + 1;
    }
    r
}

fn make_command(
    dir: ProjectDir,
    program: &str,
    items: &[&str],
    envs: Vec<(String, String)>,
) -> (c: CommandSpec)
    ensures
        c.model() == command(dir, program@, items@.map_values(|s: &str| s@), pairs_view(envs@)),
{
    let args = strings(items);
    let c = CommandSpec { dir, program: copy_str(program), args, envs };
    assert(strings_view(c.args@) =~= items@.map_values(|s: &str| s@));
    c
}

// ---------------------------------------------------------------------------
// Builds
// ---------------------------------------------------------------------------

/// Which build a step runs; it names the step's section in the build log.
#[derive(Debug, Clone, Copy, PartialEq, Eq, Structural)]
pub enum BuildKind {
    /// `npm run build` at the root.
    Root,
    /// `npm run build` in the frontend folder, pointed at the backend's URL.
    Frontend,
    /// `npm run build` in `backend/`.
    Backend,
    /// `cargo build` in `backend/`.
    Cargo,
}

/// One build to run.
pub struct BuildStep {
    pub kind: BuildKind,
    pub command: CommandSpec,
}

pub open spec fn step_models(v: Seq<BuildStep>) -> Seq<(BuildKind, CommandModel)> {
    v.map_values(|b: BuildStep| (b.kind, b.command.model()))
}

pub open spec fn npm_build(dir: ProjectDir, envs: Seq<(Seq<char>, Seq<char>)>) -> CommandModel {
    command(dir, "npm"@, seq!["run"@, "build"@], envs)
}

/// The builds of the local loop: the root's `build` script when it has one;
/// otherwise the frontend folder's `build` script (with the API variables) and then
/// the backend's, which is its `build` script when `backend/package.json` exists
/// and `cargo build` when only `backend/Cargo.toml` does.
pub open spec fn planned_builds(l: ProjectLayout, backend_port: nat) -> Seq<(BuildKind, CommandModel)> {
    if l.root.build {
        seq![(BuildKind::Root, npm_build(ProjectDir::Root, seq![]))]
    } else {
        let fd = frontend_dir_of(l);
        let front = if package_of(l, fd).build {
            seq![(BuildKind::Frontend, npm_build(fd, api_envs_of(backend_url_of(backend_port))))]
        } else {
            seq![]
        };
        let back = if backend_dir_of(l) is Some {
            if l.backend.present {
                if l.backend.build {
                    seq![(BuildKind::Backend, npm_build(ProjectDir::Backend, seq![]))]
                } else {
                    seq![]
                }
            } else if l.backend_cargo {
                seq![
                    (
                        BuildKind::Cargo,
                        command(ProjectDir::Backend, "cargo"@, seq!["build"@], seq![]),
                    ),
                ]
            } else {
                seq![]
            }
        } else {
            seq![]
        };
        front + back
    }
}

/// The builds to run for `l`, the backend listening on `backend_port`.
pub fn build_plan(l: &ProjectLayout, backend_port: u16) -> (r: Vec<BuildStep>)
    ensures
        step_models(r@) == planned_builds(*l, backend_port as nat),
{
    let mut r: Vec<BuildStep> = Vec::new();
    let ghost want = planned_builds(*l, backend_port as nat);
    proof {
        assert(seq!["run", "build"].map_values(|s: &str| s@) =~= seq!["run"@, "build"@]);
        assert(seq!["build"].map_values(|s: &str| s@) =~= seq!["build"@]);
        assert(pairs_view(Seq::<(String, String)>::empty()) =~= Seq::empty());
    }
    if l.root.build {
        let c = make_command(ProjectDir::Root, "npm", &["run", "build"], Vec::new());
        r.push(BuildStep { kind: BuildKind::Root, command: c });
        assert(step_models(r@) =~= want);
        return r;
    }
    let fd = frontend_dir(l);
    if package(l, fd).build {
        let url = backend_url(backend_port);
        let envs = frontend_envs_for_api(url.as_str());
        let c = make_command(fd, "npm", &["run", "build"], envs);
        r.push(BuildStep { kind: BuildKind::Frontend, command: c });
        assert(step_models(r@) =~= seq![
            (BuildKind::Frontend, npm_build(fd, api_envs_of(backend_url_of(backend_port as nat)))),
        ]);
    } else {
        assert(step_models(r@) =~= Seq::empty());
    }
    let ghost front = step_models(r@);
    if backend_dir(l).is_some() {
        if l.backend.present {
            if l.backend.build {
                let c = make_command(ProjectDir::Backend, "npm", &["run", "build"], Vec::new());
                r.push(BuildStep { kind: BuildKind::Backend, command: c });
                assert(step_models(r@) =~= front + seq![
                    (BuildKind::Backend, npm_build(ProjectDir::Backend, seq![])),
                ]);
            } else {
                assert(step_models(r@) =~= front + Seq::empty());
            }
        } else if l.backend_cargo {
            let items: &[&str] = &["build"];
            assert(items@ == seq!["build"]);
            assert(items@.map_values(|s: &str| s@) =~= seq!["build"@]);
            let c = make_command(ProjectDir::Backend, "cargo", items, Vec::new());
            r.push(BuildStep { kind: BuildKind::Cargo, command: c });
            assert(step_models(r@) =~= front + seq![
                (BuildKind::Cargo, command(ProjectDir::Backend, "cargo"@, seq!["build"@], seq![])),
            ]);
        } else {
            assert(step_models(r@) =~= front + Seq::empty());
        }
    } else {
        assert(step_models(r@) =~= front + Seq::empty());
    }
    assert(step_models(r@) =~= want);
    r
}

/// A build that ran: its kind, the folder it ran in as displayed in the log, and
/// what the command reported.
pub struct BuildResult {
    pub kind: BuildKind,
    pub dir_text: String,
    pub success: bool,
    pub output: String,
}

/// The title line of a build's section in the combined log.
pub open spec fn section_title(kind: BuildKind, dir_text: Seq<char>) -> Seq<char> {
    match kind {
        BuildKind::Root => "--- root build ---\n"@,
        BuildKind::Frontend => "--- frontend build ("@ + dir_text + ") ---\n"@,
        BuildKind::Backend => "--- backend build ("@ + dir_text + ") ---\n"@,
        BuildKind::Cargo => "--- cargo build ("@ + dir_text + ") ---\n"@,
    }
}

pub open spec fn section_text(r: BuildResult) -> Seq<char> {
    section_title(r.kind, r.dir_text@) + r.output@ + "\n"@
}

/// The sections of the combined log, in order.
pub open spec fn sections_text(rs: Seq<BuildResult>) -> Seq<char>
    decreases rs.len(),
{
    if rs.len() == 0 {
        Seq::empty()
    } else {
        sections_text(rs.drop_last()) + section_text(rs.last())
    }
}

pub open spec fn all_succeeded(rs: Seq<BuildResult>) -> bool {
    forall|i: int| 0 <= i < rs.len() ==> (#[trigger] rs[i]).success
}

/// The note that stands in the log when no build was found.
pub open spec fn no_build_note(intent: Seq<char>) -> Seq<char> {
    "no build scripts found for fullstack. intent hint: "@ + intent + "\n"@
}

/// The outcome of the builds that ran: whether all succeeded, and the combined
/// log. When none ran the outcome is a success whose log says so.
pub fn build_report(results: &Vec<BuildResult>, intent: &str) -> (r: (bool, String))
    ensures
        results@.len() == 0 ==> r.0 && r.1@ == no_build_note(intent@),
        results@.len() > 0 ==> r.0 == all_succeeded(results@) && r.1@ == sections_text(
            results@,
        ),
{
    if results.len() == 0 {
        return (true, concat3("no build scripts found for fullstack. intent hint: ", intent, "\n"));
    }
    let mut ok = true;
    let mut text = String::new();
    let mut i: usize = 0;
    while i < results.len()
        invariant
            i <= results.len(),
            ok == all_succeeded(results@.take(i as int)),
            text@ == sections_text(results@.take(i as int)),
        decreases results.len() - i,
    {
        let r = &results[i];
        let title = match r.kind {
            BuildKind::Root => copy_str("--- root build ---\n"),
            BuildKind::Frontend => concat3("--- frontend build (", r.dir_text.as_str(), ") ---\n"),
            BuildKind::Backend => concat3("--- backend build (", r.dir_text.as_str(), ") ---\n"),
            BuildKind::Cargo => concat3("--- cargo build (", r.dir_text.as_str(), ") ---\n"),
        };
        let ghost before = text@;
        text.append(title.as_str());
        text.append(r.output.as_str());
        text.append("\n");
        proof {
            let t = results@.take(i + 1);
            assert(t.drop_last() =~= results@.take(i as int));
            assert(t.last() == results@[i as int]);
            assert(text@ =~= before + section_text(results@[i as int]));
            assert(all_succeeded(t) == (all_succeeded(results@.take(i as int)) && results@[i as int].success)) by {
                if all_succeeded(results@.take(i as int)) && results@[i as int].success {
                    assert forall|k: int| 0 <= k < t.len() implies (#[trigger] t[k]).success by {
                        if k < i {
                            assert(t[k] == results@.take(i as int)[k]);
                        }
                    }
                }
                if all_succeeded(t) {
                    assert(t[i as int].success);
                    assert forall|k: int| 0 <= k < i implies (#[trigger] results@.take(i as int)[k]).success by {
                        assert(t[k] == results@.take(i as int)[k]);
                    }
                }
            }
        }
        ok = ok && r.success;
        i = i + 1;
    }
    assert(results@.take(results.len() as int) =~= results@);
    (ok, text)
}

/// What a finished command printed: its standard output, a newline, then its
/// standard error.
pub fn capture_text(stdout: &str, stderr: &str) -> (r: String)
    ensures
        r@ == stdout@ + "\n"@ + stderr@,
{
    concat3(stdout, "\n", stderr)
}

// ---------------------------------------------------------------------------
// Dev servers
// ---------------------------------------------------------------------------

/// Pause, in milliseconds, between starting the backend and the frontend.
pub const BACKEND_WARMUP_MS: u64 = 800;

/// What to start once the builds pass.
pub enum ServePlan {
    /// Serving is switched off.
    Off,
    /// The root's `dev` script serves the whole project.
    Whole(CommandSpec),
    /// The backend's server, when there is a backend, then the frontend's.
    Split { backend: Option<CommandSpec>, frontend: CommandSpec },
}

/// A serve plan as plain values.
pub enum ServeModel {
    Off,
    Whole(CommandModel),
    Split { backend: Option<CommandModel>, frontend: CommandModel },
}

impl ServePlan {
    pub open spec fn model(&self) -> ServeModel {
        match self {
            ServePlan::Off => ServeModel::Off,
            ServePlan::Whole(c) => ServeModel::Whole(c.model()),
            ServePlan::Split { backend, frontend } => ServeModel::Split {
                backend: match backend {
                    Some(b) => Some(b.model()),
                    None => None,
                },
                frontend: frontend.model(),
            },
        }
    }
}

/// `npm run dev -- --host 127.0.0.1 --port <port>`'s arguments.
pub open spec fn dev_args(port: nat) -> Seq<Seq<char>> {
    seq!["run"@, "dev"@, "--"@, "--host"@, "127.0.0.1"@, "--port"@, decimal(port)]
}

/// What serves the generated project: nothing when serving is off; the root's
/// `dev` script when it has one; else the backend's `dev`, else `start`, else
/// `dev` script on the backend port (when there is a backend), then the frontend
/// folder's `dev` script on the frontend port, else its `start` script with `PORT`
/// set, else `dev` again. Frontend servers get the API variables.
pub open spec fn planned_serve(
    enabled: bool,
    l: ProjectLayout,
    backend_port: nat,
    frontend_port: nat,
) -> ServeModel {
    let api = api_envs_of(backend_url_of(backend_port));
    if !enabled {
        ServeModel::Off
    } else if l.root.dev {
        ServeModel::Whole(command(ProjectDir::Root, "npm"@, dev_args(frontend_port), api))
    } else {
        let backend = match backend_dir_of(l) {
            Some(bd) => Some(
                command(
                    bd,
                    "npm"@,
                    if l.backend.dev {
                        seq!["run"@, "dev"@]
                    } else if l.backend.start {
                        seq!["run"@, "start"@]
                    } else {
                        seq!["run"@, "dev"@]
                    },
                    seq![("PORT"@, decimal(backend_port))],
                ),
            ),
            None => None,
        };
        let fd = frontend_dir_of(l);
        let pkg = package_of(l, fd);
        let frontend = if !pkg.dev && pkg.start {
            command(fd, "npm"@, seq!["run"@, "start"@], seq![("PORT"@, decimal(frontend_port))] + api)
        } else {
            command(fd, "npm"@, dev_args(frontend_port), api)
        };
        ServeModel::Split { backend, frontend }
    }
}

fn dev_command(dir: ProjectDir, frontend_port: u16, envs: Vec<(String, String)>) -> (c: CommandSpec)
    ensures
        c.model() == command(dir, "npm"@, dev_args(frontend_port as nat), pairs_view(envs@)),
{
    let port = decimal_text(frontend_port as u64);
    let mut args = strings(&["run", "dev", "--", "--host", "127.0.0.1", "--port"]);
    args.push(port);
    let c = CommandSpec { dir, program: copy_str("npm"), args, envs };
    assert(strings_view(c.args@) =~= dev_args(frontend_port as nat));
    c
}

/// What to start for `l` when serving is `enabled`.
pub fn serve_plan(enabled: bool, l: &ProjectLayout, backend_port: u16, frontend_port: u16) -> (r: ServePlan)
    ensures
        r.model() == planned_serve(enabled, *l, backend_port as nat, frontend_port as nat),
{
    if !enabled {
        return ServePlan::Off;
    }
    let url = backend_url(backend_port);
    if l.root.dev {
        let envs = frontend_envs_for_api(url.as_str());
        return ServePlan::Whole(dev_command(ProjectDir::Root, frontend_port, envs));
    }
    proof {
        assert(seq!["run", "dev"].map_values(|s: &str| s@) =~= seq!["run"@, "dev"@]);
        assert(seq!["run", "start"].map_values(|s: &str| s@) =~= seq!["run"@, "start"@]);
    }
    let backend = match backend_dir(l) {
        Some(bd) => {
            let script: &[&str] = if l.backend.dev {
                &["run", "dev"]
            } else if l.backend.start {
                &["run", "start"]
            } else {
                &["run", "dev"]
            };
            let mut envs: Vec<(String, String)> = Vec::new();
            envs.push((copy_str("PORT"), decimal_text(backend_port as u64)));
            assert(pairs_view(envs@) =~= seq![("PORT"@, decimal(backend_port as nat))]);
            Some(make_command(bd, "npm", script, envs))
        },
        None => None,
    };
    let fd = frontend_dir(l);
    let pkg = package(l, fd);
    let api = frontend_envs_for_api(url.as_str());
    let frontend = if !pkg.dev && pkg.start {
        let mut envs: Vec<(String, String)> = Vec::new();
        envs.push((copy_str("PORT"), decimal_text(frontend_port as u64)));
        let ghost port_env = pairs_view(envs@);
        let mut k: usize = 0;
        while k < api.len()
            invariant
                k <= api.len(),
                pairs_view(api@) == api_envs_of(backend_url_of(backend_port as nat)),
                port_env == seq![("PORT"@, decimal(frontend_port as nat))],
                pairs_view(envs@) == port_env + pairs_view(api@).take(k as int),
            decreases api.len() - k,
        {
            let (a, b) = &api[k];
            let ghost before = envs@;
            let item = (copy_str(a.as_str()), copy_str(b.as_str()));
            envs.push(item);
            proof {
                assert(envs@ == before.push(item));
                assert(pairs_view(envs@) =~= pairs_view(before).push((item.0@, item.1@)));
                assert((item.0@, item.1@) == pairs_view(api@)[k as int]);
                assert(pairs_view(api@).take(k + 1) =~= pairs_view(api@).take(k as int).push(
                    pairs_view(api@)[k as int],
                ));
            }
            k = k + 1;
            assert(pairs_view(envs@) =~= port_env + pairs_view(api@).take(k as int));
        }
        assert(pairs_view(api@).take(api.len() as int) =~= pairs_view(api@));
        make_command(fd, "npm", &["run", "start"], envs)
    } else {
        dev_command(fd, frontend_port, api)
    };
    ServePlan::Split { backend, frontend }
}

// ---------------------------------------------------------------------------
// Installs and the start of the loop
// ---------------------------------------------------------------------------

/// Whether the local loop runs for a project: `Off` when it is not switched on,
/// `NoPackages` when no `package.json` was generated at the root, in `frontend/`
/// or in `backend/`.
#[derive(Debug, Clone, Copy, PartialEq, Eq, Structural)]
pub enum LoopStart {
    Off,
    NoPackages,
    Run,
}

pub open spec fn loop_start_of(enabled: bool, l: ProjectLayout) -> LoopStart {
    if !enabled {
        LoopStart::Off
    } else if !(l.root.present || l.frontend.present || l.backend.present) {
        LoopStart::NoPackages
    } else {
        LoopStart::Run
    }
}

/// Whether and how the local loop starts.
pub fn loop_start(enabled: bool, l: &ProjectLayout) -> (r: LoopStart)
    ensures
        r == loop_start_of(enabled, *l),
{
    if !enabled {
        LoopStart::Off
    } else if !(l.root.present || l.frontend.present || l.backend.present) {
        LoopStart::NoPackages
    } else {
        LoopStart::Run
    }
}

/// The folders that get `npm install`, in path order: the root, `backend/`,
/// `frontend/`, each when it holds a `package.json`.
pub open spec fn install_dirs_of(l: ProjectLayout) -> Seq<ProjectDir> {
    (if l.root.present {
        seq![ProjectDir::Root]
    } else {
        seq![]
    }) + (if l.backend.present {
        seq![ProjectDir::Backend]
    } else {
        seq![]
    }) + (if l.frontend.present {
        seq![ProjectDir::Frontend]
    } else {
        seq![]
    })
}

/// The folders to install, in order.
pub fn install_dirs(l: &ProjectLayout) -> (r: Vec<ProjectDir>)
    ensures
        r@ == install_dirs_of(*l),
{
    let mut r: Vec<ProjectDir> = Vec::new();
    if l.root.present {
        r.push(ProjectDir::Root);
    }
    if l.backend.present {
        r.push(ProjectDir::Backend);
    }
    if l.frontend.present {
        r.push(ProjectDir::Frontend);
    }
    assert(r@ =~= install_dirs_of(*l));
    r
}

/// Whether a folder gets `npm install`: when installs are forced or it has no
/// `node_modules` yet.
pub fn needs_install(force: bool, has_node_modules: bool) -> (r: bool)
    ensures
        r == (force || !has_node_modules),
{
    force || !has_node_modules
}

// ---------------------------------------------------------------------------
// The build-fix rounds
// ---------------------------------------------------------------------------

/// Where the build-fix rounds stand.
#[derive(Debug, Clone, Copy, PartialEq, Eq, Structural)]
pub enum FixPhase {
    /// A build of the current round is running.
    Building,
    /// The fixer model was asked for patches after a failed build.
    AwaitingFix,
    /// The build after the last round's patches is running.
    Verifying,
    /// The rounds are over.
    Finished,
}

/// What the caller reports back to the rounds.
pub enum FixEvent {
    /// A build finished, with its combined log.
    Built { success: bool, logs: String },
    /// The fixer model returned this many file patches.
    FixesReturned { count: usize },
}

/// What the caller does next.
pub enum FixAction {
    /// Run the builds.
    Build,
    /// Ask the fixer model for patches, reporting round `attempt` of `max`.
    RequestFix { attempt: usize, max: usize, logs: String },
    /// Write the returned patches, then run the builds.
    ApplyAndBuild,
    /// The builds pass: go on to serving.
    Serve,
    /// Give up with this message.
    Fail(String),
}

/// The rounds as plain values.
pub struct FixState {
    pub attempt: nat,
    pub max: nat,
    pub phase: FixPhase,
    pub logs: Seq<char>,
}

pub enum FixEventModel {
    Built(bool, Seq<char>),
    FixesReturned(nat),
}

pub enum FixActionModel {
    Build,
    RequestFix(nat, nat, Seq<char>),
    ApplyAndBuild,
    Serve,
    Fail(Seq<char>),
}

impl FixEvent {
    pub open spec fn model(&self) -> FixEventModel {
        match self {
            FixEvent::Built { success, logs } => FixEventModel::Built(*success, logs@),
            FixEvent::FixesReturned { count } => FixEventModel::FixesReturned(*count as nat),
        }
    }
}

impl FixAction {
    pub open spec fn model(&self) -> FixActionModel {
        match self {
            FixAction::Build => FixActionModel::Build,
            FixAction::RequestFix { attempt, max, logs } => FixActionModel::RequestFix(
                *attempt as nat,
                *max as nat,
                logs@,
            ),
            FixAction::ApplyAndBuild => FixActionModel::ApplyAndBuild,
            FixAction::Serve => FixActionModel::Serve,
            FixAction::Fail(m) => FixActionModel::Fail(m@),
        }
    }
}

/// The message when the fixer returns no patch.
pub open spec fn no_patch_message(logs: Seq<char>) -> Seq<char> {
    "auto-fix returned no file patches. logs:\n"@ + logs
}

/// The message when the build still fails after the last round.
pub open spec fn still_failing_message(max: nat, logs: Seq<char>) -> Seq<char> {
    "build still failing after "@ + decimal(max) + " attempts.\n"@ + logs
}

/// The first step: with no round allowed the loop goes straight to serving,
/// else round 1 starts with a build.
pub open spec fn fix_start(max: nat) -> (FixState, FixActionModel) {
    if max == 0 {
        (FixState { attempt: 0, max, phase: FixPhase::Finished, logs: seq![] }, FixActionModel::Serve)
    } else {
        (FixState { attempt: 1, max, phase: FixPhase::Building, logs: seq![] }, FixActionModel::Build)
    }
}

/// Whether the rounds wait for this kind of event.
pub open spec fn fix_accepts(s: FixState, e: FixEventModel) -> bool {
    match e {
        FixEventModel::Built(_, _) => s.phase == FixPhase::Building || s.phase == FixPhase::Verifying,
        FixEventModel::FixesReturned(_) => s.phase == FixPhase::AwaitingFix,
    }
}

/// One step of the rounds. A passing build ends them with serving. A failing build
/// of a round asks for patches; no patch ends the rounds with a failure; patches are
/// applied and built again, as the next round, or, after the last round, as the
/// final check, whose failure ends the rounds with a failure.
pub open spec fn fix_next(s: FixState, e: FixEventModel) -> (FixState, FixActionModel) {
    match e {
        FixEventModel::Built(success, logs) => if success {
            (FixState { phase: FixPhase::Finished, ..s }, FixActionModel::Serve)
        } else if s.phase == FixPhase::Building {
            (
                FixState { phase: FixPhase::AwaitingFix, logs, ..s },
                FixActionModel::RequestFix(s.attempt, s.max, logs),
            )
        } else {
            (
                FixState { phase: FixPhase::Finished, logs, ..s },
                FixActionModel::Fail(still_failing_message(s.max, logs)),
            )
        },
        FixEventModel::FixesReturned(count) => if count == 0 {
            (
                FixState { phase: FixPhase::Finished, ..s },
                FixActionModel::Fail(no_patch_message(s.logs)),
            )
        } else if s.attempt >= s.max {
            (FixState { phase: FixPhase::Verifying, ..s }, FixActionModel::ApplyAndBuild)
        } else {
            (
                FixState { attempt: s.attempt + 1, phase: FixPhase::Building, ..s },
                FixActionModel::ApplyAndBuild,
            )
        },
    }
}

/// The build-fix rounds of the local loop.
pub struct FixLoop {
    attempt: usize,
    max: usize,
    phase: FixPhase,
    logs: String,
}

impl FixLoop {
    pub closed spec fn view(&self) -> FixState {
        FixState {
            attempt: self.attempt as nat,
            max: self.max as nat,
            phase: self.phase,
            logs: self.logs@,
        }
    }

    /// Round numbers stay within the allowed rounds.
    pub open spec fn wf(&self) -> bool {
        fix_inv(self.view())
    }

    /// Starts the rounds, allowing `max` of them.
    pub fn start(max: usize) -> (r: (FixLoop, FixAction))
        ensures
            (r.0.view(), r.1.model()) == fix_start(max as nat),
            r.0.wf(),
    {
        if max == 0 {
            (FixLoop { attempt: 0, max, phase: FixPhase::Finished, logs: String::new() }, FixAction::Serve)
        } else {
            (FixLoop { attempt: 1, max, phase: FixPhase::Building, logs: String::new() }, FixAction::Build)
        }
    }

    /// Where the rounds stand.
    pub fn phase(&self) -> (r: FixPhase)
        ensures
            r == self.view().phase,
    {
        self.phase
    }

    /// Whether the rounds wait for `e`.
    pub fn accepts(&self, e: &FixEvent) -> (r: bool)
        ensures
            r == fix_accepts(self.view(), e.model()),
    {
        match e {
            FixEvent::Built { .. } => self.phase == FixPhase::Building || self.phase == FixPhase::Verifying,
            FixEvent::FixesReturned { .. } => self.phase == FixPhase::AwaitingFix,
        }
    }

    /// Takes the outcome of the last action and says what to do next.
    pub fn step(&mut self, e: FixEvent) -> (r: FixAction)
        requires
            old(self).wf(),
            fix_accepts(old(self).view(), e.model()),
        ensures
            (final(self).view(), r.model()) == fix_next(old(self).view(), e.model()),
            final(self).wf(),
    {
        match e {
            FixEvent::Built { success, logs } => {
                if success {
                    self.phase = FixPhase::Finished;
                    FixAction::Serve
                } else if self.phase == FixPhase::Building {
                    self.phase = FixPhase::AwaitingFix;
                    let copy = copy_str(logs.as_str());
                    self.logs = logs;
                    FixAction::RequestFix { attempt: self.attempt, max: self.max, logs: copy }
                } else {
                    self.phase = FixPhase::Finished;
                    let digits = decimal_text(self.max as u64);
                    let msg = concat4(
                        "build still failing after ",
                        digits.as_str(),
                        " attempts.\n",
                        logs.as_str(),
                    );
                    self.logs = logs;
                    FixAction::Fail(msg)
                }
            },
            FixEvent::FixesReturned { count } => {
                if count == 0 {
                    self.phase = FixPhase::Finished;
                    FixAction::Fail(concat2("auto-fix returned no file patches. logs:\n", self.logs.as_str()))
                } else if self.attempt >= self.max {
                    self.phase = FixPhase::Verifying;
                    FixAction::ApplyAndBuild
                } else {
                    self.attempt = self.attempt + 1;
                    self.phase = FixPhase::Building;
                    FixAction::ApplyAndBuild
                }
            },
        }
    }
}

/// Round numbers stay within the allowed rounds.
pub open spec fn fix_inv(s: FixState) -> bool {
    &&& s.attempt <= s.max
    &&& (s.phase == FixPhase::Building || s.phase == FixPhase::AwaitingFix) ==> s.attempt >= 1
}

/// Runs the rounds on a list of reported outcomes; an outcome the rounds do not
/// wait for is passed over.
pub open spec fn run_fix(s: FixState, evs: Seq<FixEventModel>) -> (FixState, Seq<FixActionModel>)
    decreases evs.len(),
{
    if evs.len() == 0 {
        (s, seq![])
    } else if fix_accepts(s, evs[0]) {
        let (s1, a) = fix_next(s, evs[0]);
        let (s2, rest) = run_fix(s1, evs.drop_first());
        (s2, seq![a] + rest)
    } else {
        run_fix(s, evs.drop_first())
    }
}

/// How many times the fixer model is asked for patches.
pub open spec fn fix_requests(actions: Seq<FixActionModel>) -> nat
    decreases actions.len(),
{
    if actions.len() == 0 {
        0
    } else {
        (if actions[0] is RequestFix {
            1nat
        } else {
            0nat
        }) + fix_requests(actions.drop_first())
    }
}

/// Requests still possible from `s`.
pub open spec fn requests_left(s: FixState) -> nat {
    match s.phase {
        FixPhase::Building => (s.max - s.attempt + 1) as nat,
        FixPhase::AwaitingFix => (s.max - s.attempt) as nat,
        _ => 0,
    }
}

proof fn lemma_requests_bounded(s: FixState, evs: Seq<FixEventModel>)
    requires
        fix_inv(s),
    ensures
        fix_requests(run_fix(s, evs).1) <= requests_left(s),
        fix_inv(run_fix(s, evs).0),
        run_fix(s, evs).0.max == s.max,
    decreases evs.len(),
{
    if evs.len() > 0 {
        if fix_accepts(s, evs[0]) {
            let (s1, a) = fix_next(s, evs[0]);
            lemma_requests_bounded(s1, evs.drop_first());
            let rest = run_fix(s1, evs.drop_first()).1;
            assert((seq![a] + rest).drop_first() =~= rest);
            assert((seq![a] + rest)[0] == a);
        } else {
            lemma_requests_bounded(s, evs.drop_first());
        }
    }
}

/// Law: whatever the builds and the fixer report, the fixer model is asked for
/// patches at most `max` times, and the round number never exceeds `max`.
pub proof fn law_fix_requests_at_most_max(max: nat, evs: Seq<FixEventModel>)
    ensures
        fix_requests(run_fix(fix_start(max).0, evs).1) <= max,
        run_fix(fix_start(max).0, evs).0.attempt <= max,
{
    lemma_requests_bounded(fix_start(max).0, evs);
}

// ---------------------------------------------------------------------------
// What the fixer model is sent
// ---------------------------------------------------------------------------

/// Largest size, in UTF-8 bytes, of one file's text in the fixer's bundle.
pub const MAX_FILE_CHARS: usize = 25000;

/// Size, in UTF-8 bytes, beyond which no further file joins the bundle.
pub const MAX_BUNDLE_CHARS: usize = 90000;

/// Most tokens of the fixer model's answer.
pub const FIX_MAX_TOKENS: u32 = 2048;

/// System prompt of the fixer model.
pub const FIX_SYSTEM: &'static str = "You are a senior software build fixer.
Return ONLY JSON:
{
  \"artifacts\": [
    { \"name\": \"relative/path/to/file\", \"content\": \"full new file content\" }
  ]
}
Rules:
- Patch only files that are necessary to fix build errors.
- No markdown or explanation.
- Keep paths relative.";

/// A file offered to the fixer: its path relative to the output folder, as
/// displayed, and its text.
pub struct CandidateFile {
    pub rel: String,
    pub content: String,
}

/// `k` characters of `s` are the longest prefix of `s` that takes at most `n`
/// bytes.
pub open spec fn longest_within(s: Seq<char>, n: nat, k: int) -> bool {
    &&& 0 <= k <= s.len()
    &&& byte_len(s.take(k)) <= n
    &&& k < s.len() ==> byte_len(s.take(k + 1)) > n
}

/// How many characters of `s` fit in `n` bytes.
pub open spec fn chars_within(s: Seq<char>, n: nat) -> int {
    choose|k: int| #[trigger] longest_within(s, n, k)
}

/// A file's text as sent: when it is larger than the size limit, cut at the last
/// character boundary within the limit and marked.
pub open spec fn clipped(content: Seq<char>) -> Seq<char> {
    if byte_len(content) > MAX_FILE_CHARS {
        content.take(chars_within(content, MAX_FILE_CHARS as nat)) + "\n/* truncated */\n"@
    } else {
        content
    }
}

/// Only one prefix length is the longest within a byte count.
proof fn lemma_longest_within_unique(s: Seq<char>, n: nat, i: int, k: int)
    requires
        longest_within(s, n, i),
        longest_within(s, n, k),
    ensures
        i == k,
{
    if k < i {
        if k + 1 < i {
            lemma_byte_len_prefix_grows(s, k + 1, i);
        }
    } else if i < k {
        if i + 1 < k {
            lemma_byte_len_prefix_grows(s, i + 1, k);
        }
    }
}

/// One file's entry in the bundle.
pub open spec fn chunk_of(rel: Seq<char>, content: Seq<char>) -> Seq<char> {
    "FILE: "@ + rel + "\n"@ + clipped(content) + "\n"@
}

/// The separator between entries.
pub open spec fn separator() -> Seq<char> {
    "\n---\n"@
}

pub open spec fn file_views(files: Seq<CandidateFile>) -> Seq<(Seq<char>, Seq<char>)> {
    files.map_values(|f: CandidateFile| (f.rel@, f.content@))
}

/// The bundle built from `files` onto `bundle`, `used` bytes of entries in so far:
/// an entry that would take the entries past the limit ends the bundle, unless the
/// bundle is still empty; each entry is followed by a separator while the entries
/// are under the limit, unless the bundle already ends with one.
pub open spec fn bundle_from(files: Seq<(Seq<char>, Seq<char>)>, bundle: Seq<char>, used: nat) -> Seq<char>
    decreases files.len(),
{
    if files.len() == 0 {
        bundle
    } else {
        let c = chunk_of(files[0].0, files[0].1);
        if used + byte_len(c) > MAX_BUNDLE_CHARS && bundle.len() > 0 {
            bundle
        } else {
            let b1 = bundle + c;
            let u1 = used + byte_len(c);
            let b2 = if !ends_with(b1, separator()) && u1 < MAX_BUNDLE_CHARS {
                b1 + separator()
            } else {
                b1
            };
            bundle_from(files.drop_first(), b2, u1)
        }
    }
}

fn clip(content: &str) -> (r: String)
    ensures
        r@ == clipped(content@),
{
    let v = chars_of(content);
    let mut acc: usize = 0;
    let mut i: usize = 0;
    assert(encode_utf8(v@.take(0)) =~= Seq::<u8>::empty());
    while i < v.len() && acc + char_width(v[i]) <= MAX_FILE_CHARS
        invariant
            i <= v.len(),
            v@ == content@,
            acc == byte_len(v@.take(i as int)),
            acc <= MAX_FILE_CHARS,
        decreases v.len() - i,
    {
        let w = char_width(v[i]);
        proof {
            lemma_byte_len_push(v@.take(i as int), v@[i as int]);
            assert(v@.take(i + 1) =~= v@.take(i as int).push(v@[i as int]));
        }
        acc = acc + w;
        i = i + 1;
    }
    if i == v.len() {
        assert(v@.take(i as int) =~= v@);
        return copy_str(content);
    }
    proof {
        lemma_byte_len_push(v@.take(i as int), v@[i as int]);
        assert(v@.take(i + 1) =~= v@.take(i as int).push(v@[i as int]));
        assert(longest_within(v@, MAX_FILE_CHARS as nat, i as int));
        let k = chars_within(v@, MAX_FILE_CHARS as nat);
        lemma_longest_within_unique(v@, MAX_FILE_CHARS as nat, i as int, k);
        if i + 1 < v.len() {
            lemma_byte_len_prefix_grows(v@, i + 1, v@.len() as int);
        }
        assert(v@.take(v@.len() as int) =~= v@);
        assert(byte_len(v@) > MAX_FILE_CHARS);
    }
    let mut out = string_of_range(&v, 0, i);
    out.append("\n/* truncated */\n");
    out
}

fn append_chars(v: &mut Vec<char>, s: &str)
    ensures
        final(v)@ == old(v)@ + s@,
{
    let c = chars_of(s);
    let mut i: usize = 0;
    while i < c.len()
        invariant
            i <= c.len(),
            c@ == s@,
            v@ == old(v)@ + c@.take(i as int),
        decreases c.len() - i,
    {
        v.push(c[i]);
        i = i + 1;
        assert(v@ =~= old(v)@ + c@.take(i as int));
    }
    assert(c@.take(c.len() as int) =~= c@);
}

/// A byte count, capped just above the bundle limit.
pub open spec fn capped(n: nat) -> nat {
    if n > MAX_BUNDLE_CHARS {
        (MAX_BUNDLE_CHARS + 1) as nat
    } else {
        n
    }
}

/// The bundle of candidate files sent to the fixer model.
pub fn fix_bundle(files: &Vec<CandidateFile>) -> (r: String)
    ensures
        r@ == bundle_from(file_views(files@), seq![], 0),
{
    let ghost fv = file_views(files@);
    let mut bundle: Vec<char> = Vec::new();
    let mut used: usize = 0;
    let ghost mut used_exact: nat = 0;
    let sep = chars_of("\n---\n");
    proof {
        reveal_strlit("\n---\n");
        assert(fv.skip(0) =~= fv);
    }
    let mut i: usize = 0;
    while i < files.len()
        invariant
            i <= files.len(),
            fv == file_views(files@),
            sep@ == separator(),
            used as nat == capped(used_exact),
            bundle_from(fv, seq![], 0) == bundle_from(fv.skip(i as int), bundle@, used_exact),
        decreases files.len() - i,
    {
        let f = &files[i];
        let body = clip(f.content.as_str());
        let chunk = concat5("FILE: ", f.rel.as_str(), "\n", body.as_str(), "\n");
        let ghost c = chunk_of(fv[i as int].0, fv[i as int].1);
        assert(chunk@ == c);
        let measured = bytes_within(chunk.as_str(), MAX_BUNDLE_CHARS);
        let over = match measured {
            Some(n) => used + n > MAX_BUNDLE_CHARS,
            None => true,
        };
        assert(over == (used_exact + byte_len(c) > MAX_BUNDLE_CHARS));
        proof {
            assert(fv.skip(i as int)[0] == fv[i as int]);
            assert(fv.skip(i as int).drop_first() =~= fv.skip(i + 1));
        }
        if over && bundle.len() > 0 {
            let out = string_of_range(&bundle, 0, bundle.len());
            assert(bundle@.subrange(0, bundle@.len() as int) =~= bundle@);
            return out;
        }
        append_chars(&mut bundle, chunk.as_str());
        proof {
            used_exact = used_exact + byte_len(c);
        }
        used = match measured {
            Some(n) => if used + n > MAX_BUNDLE_CHARS {
                MAX_BUNDLE_CHARS + 1
            } else {
                used + n
            },
            None => MAX_BUNDLE_CHARS + 1,
        };
        let has_sep = bundle.len() >= 5 && matches_at(&bundle, bundle.len() - 5, &sep);
        proof {
            reveal_strlit("\n---\n");
            if bundle@.len() >= 5 {
                assert(bundle@.skip(bundle@.len() - 5) =~= bundle@.subrange(
                    bundle@.len() - 5,
                    bundle@.len() as int,
                ));
            }
        }
        assert(has_sep == ends_with(bundle@, separator()));
        if !has_sep && used < MAX_BUNDLE_CHARS {
            append_chars(&mut bundle, "\n---\n");
        }
        i = i + 1;
    }
    assert(fv.skip(i as int).len() == 0);
    let out = string_of_range(&bundle, 0, bundle.len());
    assert(bundle@.subrange(0, bundle@.len() as int) =~= bundle@);
    out
}

/// The fixer model's request: the run's intent, the build log and the bundle.
pub open spec fn fix_prompt_text(intent: Seq<char>, logs: Seq<char>, bundle: Seq<char>) -> Seq<char> {
    "Project intent:\n"@ + intent + "\n\nBuild errors:\n"@ + logs
        + "\n\nCandidate files (may be truncated):\n"@ + bundle
}

/// The user message sent to the fixer model.
pub fn fix_user_prompt(intent: &str, logs: &str, bundle: &str) -> (r: String)
    ensures
        r@ == fix_prompt_text(intent@, logs@, bundle@),
{
    let mut r = concat4("Project intent:\n", intent, "\n\nBuild errors:\n", logs);
    r.append("\n\nCandidate files (may be truncated):\n");
    r.append(bundle);
    r
}

// ---------------------------------------------------------------------------
// Which patches may be written
// ---------------------------------------------------------------------------

/// Where a patch named `name` is written, relative to the output folder: its
/// trimmed name, unless that is empty, absolute, or climbs out with `..`.
pub open spec fn fix_target(name: Seq<char>) -> Option<Seq<char>> {
    let rel = trim(name);
    if rel.len() == 0 || starts_with(rel, "/"@) || has_parent_component(rel) {
        None
    } else {
        Some(rel)
    }
}

/// The relative path a patch is written to, or `None` when it is refused.
pub fn fix_target_path(name: &str) -> (r: Option<String>)
    ensures
        match fix_target(name@) {
            Some(p) => r matches Some(s) && s@ == p,
            None => r is None,
        },
{
    let rel = trim_str(name);
    let v = chars_of(rel.as_str());
    proof {
        reveal_strlit("/");
    }
    if v.len() == 0 {
        return None;
    }
    if v[0] == '/' {
        assert(v@.take(1) =~= "/"@);
        return None;
    }
    assert(!starts_with(v@, "/"@)) by {
        if starts_with(v@, "/"@) {
            assert(v@.take(1)[0] == v@[0]);
        }
    }
    if parent_component_in(&v) {
        return None;
    }
    Some(rel)
}

// ---------------------------------------------------------------------------
// Which files the fixer model is shown
// ---------------------------------------------------------------------------

/// The file paths looked for in a build log: a run of path characters ending in
/// one of the web or backend source extensions, longer extensions tried first
/// (so `App.tsx` is not cut to `App.ts`).
pub const MENTION_PATTERN: &'static str = "([A-Za-z0-9_\\-./]+?\\.(tsx|ts|jsx|json|js|css|html|rs|toml|py|go))";

/// Most files shown to the fixer model.
pub const MAX_CANDIDATES: usize = 16;

/// What the `regex` crate finds for `pattern` in `text`: `None` when `Regex::new`
/// refuses the pattern, else the text of capture group 1 of each successive
/// non-overlapping match, in order (a match without the group gives nothing).
pub uninterp spec fn capture_group_one(pattern: Seq<char>, text: Seq<char>) -> Option<Seq<Seq<char>>>;

/// Compiles `pattern` with `regex::Regex::new` and collects, from
/// `Regex::captures_iter` over `text`, the `as_str` of group 1 of each match that
/// has it. The contract claims only that the result is `capture_group_one` of the
/// two arguments; what that is, is the `regex` crate's matching.
#[verifier::external_body]
fn regex_group_one(pattern: &str, text: &str) -> (r: Option<Vec<String>>)
    ensures
        match capture_group_one(pattern@, text@) {
            Some(found) => r matches Some(v) && strings_view(v@) == found,
            None => r is None,
        },
{
    match regex::Regex::new(pattern) {
        Ok(re) => Some(
            re.captures_iter(text).filter_map(|c| c.get(1).map(|m| m.as_str().to_string())).collect(),
        ),
        Err(_) => None,
    }
}

/// The file paths a build log mentions, in order; `None` when the pattern is refused.
pub fn file_mentions(logs: &str) -> (r: Option<Vec<String>>)
    ensures
        match capture_group_one(MENTION_PATTERN@, logs@) {
            Some(found) => r matches Some(v) && strings_view(v@) == found,
            None => r is None,
        },
{
    regex_group_one(MENTION_PATTERN, logs)
}

/// Whether a file in `src/` is offered when the log names no existing file: its
/// extension, in lower case, is one of `ts`, `tsx`, `js`, `jsx`, `json`, `css`,
/// `html`.
pub open spec fn web_source(name: Seq<char>) -> bool {
    match extension_of(name) {
        Some(e) => {
            let l = ascii_lower(e);
            l == "ts"@ || l == "tsx"@ || l == "js"@ || l == "jsx"@ || l == "json"@ || l == "css"@
                || l == "html"@
        },
        None => false,
    }
}

/// Whether a file named `name` in `src/` may be offered to the fixer.
pub fn is_web_source(name: &str) -> (r: bool)
    ensures
        r == web_source(name@),
{
    match file_extension(name) {
        None => false,
        Some(ext) => {
            let l = to_ascii_lowercase(ext.as_str());
            chars_eq_str(&l, "ts") || chars_eq_str(&l, "tsx") || chars_eq_str(&l, "js")
                || chars_eq_str(&l, "jsx") || chars_eq_str(&l, "json") || chars_eq_str(&l, "css")
                || chars_eq_str(&l, "html")
        },
    }
}

/// The files shown to the fixer model: the first `MAX_CANDIDATES` of `found` (the
/// existing files the log names, then the root's `package.json` and
/// `tsconfig.json` when they exist) in path order, each kept once; when `found`
/// is empty, the same of `fallback` (the web source files directly in `src/`).
pub fn choose_candidates(found: &Vec<String>, fallback: &Vec<String>) -> (r: Vec<String>)
    ensures
        ({
            let from = if found@.len() > 0 {
                texts_of(found@)
            } else {
                texts_of(fallback@)
            };
            &&& r@.len() <= MAX_CANDIDATES
            &&& path_sorted(texts_of(r@))
            &&& represents(texts_of(r@), from)
            &&& covers(texts_of(r@), from, MAX_CANDIDATES as nat)
        }),
{
    if found.len() > 0 {
        first_paths(found, MAX_CANDIDATES)
    } else {
        first_paths(fallback, MAX_CANDIDATES)
    }
}

// ---------------------------------------------------------------------------
// Laws
// ---------------------------------------------------------------------------

/// Law: a patch is only ever written inside the output folder: its path is not
/// empty, not absolute, and has no `..` segment.
pub proof fn law_fix_targets_stay_inside(name: Seq<char>)
    ensures
        fix_target(name) matches Some(p) ==> p.len() > 0 && p[0] != '/' && !has_parent_component(p),
{
    reveal_strlit("/");
    if fix_target(name) is Some {
        let p = trim(name);
        if p.len() > 0 && p[0] == '/' {
            assert(p.take(1) =~= "/"@);
        }
    }
}

/// Law: every frontend build and every frontend dev server is pointed at the
/// backend's URL through the API variables, and the split backend server listens
/// on the backend port.
pub proof fn law_frontend_gets_api_url(
    l: ProjectLayout,
    backend_port: nat,
    frontend_port: nat,
    enabled: bool,
)
    ensures
        forall|i: int|
            0 <= i < planned_builds(l, backend_port).len() && (#[trigger] planned_builds(
                l,
                backend_port,
            )[i]).0 == BuildKind::Frontend ==> planned_builds(l, backend_port)[i].1.envs
                == api_envs_of(backend_url_of(backend_port)),
        planned_serve(enabled, l, backend_port, frontend_port) matches ServeModel::Whole(c)
            ==> c.envs == api_envs_of(backend_url_of(backend_port)),
        planned_serve(enabled, l, backend_port, frontend_port) matches ServeModel::Split {
            backend,
            frontend,
        } ==> {
            &&& ends_with_envs(frontend.envs, api_envs_of(backend_url_of(backend_port)))
            &&& (backend matches Some(b) ==> b.envs == seq![("PORT"@, decimal(backend_port))])
        },
{
    let api = api_envs_of(backend_url_of(backend_port));
    if !l.root.build {
        let fd = frontend_dir_of(l);
        let front = if package_of(l, fd).build {
            seq![(BuildKind::Frontend, npm_build(fd, api))]
        } else {
            seq![]
        };
        let all = planned_builds(l, backend_port);
        let back = all.skip(front.len() as int);
        assert(all =~= front + back);
        assert forall|i: int| 0 <= i < back.len() implies (#[trigger] back[i]).0 != BuildKind::Frontend by {}
        assert forall|i: int| 0 <= i < all.len() && (#[trigger] all[i]).0 == BuildKind::Frontend implies all[i].1.envs == api by {
            if i >= front.len() {
                assert(all[i] == back[i - front.len()]);
            }
        }
    }
    if planned_serve(enabled, l, backend_port, frontend_port) is Split {
        let fd = frontend_dir_of(l);
        let pkg = package_of(l, fd);
        if !pkg.dev && pkg.start {
            let e = seq![("PORT"@, decimal(frontend_port))] + api;
            assert(e.skip(1) =~= api);
        } else {
            assert(api.skip(0) =~= api);
        }
    }
}

/// `envs` ends with the variables `tail`.
pub open spec fn ends_with_envs(envs: Seq<(Seq<char>, Seq<char>)>, tail: Seq<(Seq<char>, Seq<char>)>) -> bool {
    tail.len() <= envs.len() && envs.skip(envs.len() - tail.len()) == tail
}

/// Law: the local loop runs exactly when it is switched on and some `package.json`
/// exists at the root, in `frontend/` or in `backend/`; it is skipped for want of
/// packages exactly when it is on and none does; and when it runs there is a
/// folder to install.
pub proof fn law_loop_runs_with_any_package(enabled: bool, l: ProjectLayout)
    ensures
        (loop_start_of(enabled, l) == LoopStart::Off) == !enabled,
        (loop_start_of(enabled, l) == LoopStart::Run) == (enabled && (l.root.present
            || l.frontend.present || l.backend.present)),
        (loop_start_of(enabled, l) == LoopStart::NoPackages) == (enabled && !l.root.present
            && !l.frontend.present && !l.backend.present),
        loop_start_of(enabled, l) == LoopStart::Run ==> install_dirs_of(l).len() > 0,
{
}

/// Law: how the backend is served when the root has no `dev` script. There is a
/// backend server exactly when `backend/` has a `package.json` or a `Cargo.toml`;
/// it runs `npm` in `backend/` with `PORT` set to the backend port, and runs the
/// `dev` script when the backend declares one, `start` only when it declares
/// `start` and no `dev`, and `dev` when it declares neither.
pub proof fn law_backend_server_prefers_dev(
    l: ProjectLayout,
    backend_port: nat,
    frontend_port: nat,
)
    requires
        !l.root.dev,
    ensures
        planned_serve(true, l, backend_port, frontend_port) matches ServeModel::Split {
            backend,
            frontend,
        } && (backend is Some == (l.backend.present || l.backend_cargo)) && (backend matches Some(
            b,
        ) ==> {
            &&& b.dir == ProjectDir::Backend
            &&& b.program == "npm"@
            &&& b.envs == seq![("PORT"@, decimal(backend_port))]
            &&& l.backend.dev ==> b.args == seq!["run"@, "dev"@]
            &&& !l.backend.dev && l.backend.start ==> b.args == seq!["run"@, "start"@]
            &&& !l.backend.dev && !l.backend.start ==> b.args == seq!["run"@, "dev"@]
        }),
{
}

/// Law: serving is off exactly when it is switched off; when the root declares a
/// `dev` script that script alone serves the project, at the root, on the frontend
/// port; otherwise the frontend server runs in `frontend/` when it has a
/// `package.json` (else at the root), with its `dev` script on the frontend port
/// unless that package declares `start` and no `dev`, when `start` runs with
/// `PORT` set to the frontend port.
pub proof fn law_frontend_server_choice(
    enabled: bool,
    l: ProjectLayout,
    backend_port: nat,
    frontend_port: nat,
)
    ensures
        (planned_serve(enabled, l, backend_port, frontend_port) is Off) == !enabled,
        enabled && l.root.dev ==> (planned_serve(enabled, l, backend_port, frontend_port) matches ServeModel::Whole(c)
            && c.dir == ProjectDir::Root && c.program == "npm"@ && c.args == seq![
            "run"@,
            "dev"@,
            "--"@,
            "--host"@,
            "127.0.0.1"@,
            "--port"@,
            decimal(frontend_port),
        ]),
        enabled && !l.root.dev ==> (planned_serve(enabled, l, backend_port, frontend_port) matches ServeModel::Split {
            backend,
            frontend,
        } && frontend.dir == (if l.frontend.present {
            ProjectDir::Frontend
        } else {
            ProjectDir::Root
        }) && frontend.program == "npm"@ && ({
            let pkg = if l.frontend.present {
                l.frontend
            } else {
                l.root
            };
            if !pkg.dev && pkg.start {
                frontend.args == seq!["run"@, "start"@] && frontend.envs[0] == ("PORT"@, decimal(
                    frontend_port,
                ))
            } else {
                frontend.args == seq![
                    "run"@,
                    "dev"@,
                    "--"@,
                    "--host"@,
                    "127.0.0.1"@,
                    "--port"@,
                    decimal(frontend_port),
                ]
            }
        })),
{
}

/// Where a folder comes in path order: the root, then `backend/`, then `frontend/`.
pub open spec fn path_rank(d: ProjectDir) -> int {
    match d {
        ProjectDir::Root => 0,
        ProjectDir::Backend => 1,
        ProjectDir::Frontend => 2,
    }
}

/// Law: `npm install` runs in each folder that has a `package.json`, once, and in
/// no other, the folders taken in path order (sorted and deduplicated).
pub proof fn law_install_dirs_sorted_once(l: ProjectLayout)
    ensures
        forall|d: ProjectDir| #[trigger] install_dirs_of(l).contains(d) == package_of(l, d).present,
        forall|i: int, j: int|
            0 <= i < j < install_dirs_of(l).len() ==> path_rank(install_dirs_of(l)[i]) < path_rank(
                install_dirs_of(l)[j],
            ),
{
    let s = install_dirs_of(l);
    assert forall|d: ProjectDir| #[trigger] s.contains(d) == package_of(l, d).present by {
        if package_of(l, d).present {
            match d {
                ProjectDir::Root => assert(s[0] == d),
                ProjectDir::Backend => {
                    if l.root.present {
                        assert(s[1] == d);
                    } else {
                        assert(s[0] == d);
                    }
                },
                ProjectDir::Frontend => assert(s[s.len() - 1] == d),
            }
        }
    }
}

} // verus!
