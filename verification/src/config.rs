//! Where the command line's settings come from when they are not given: the
//! model, the templates folder, and the base folder of generated projects.
use vstd::prelude::*;

use crate::text::{copy_str, trim, trim_str};

verus! {

/// The model used when none is asked for or configured.
pub const DEFAULT_MODEL: &'static str = "gpt-4o-mini";

/// The templates folder when `HATCH_AGENTS_DIR` is unset.
pub const DEFAULT_AGENTS_DIR: &'static str = "agents";

/// The base folder of generated projects when none is chosen.
pub const DEFAULT_OUTPUT_DIR: &'static str = "hatch_runs";

/// The model: the one asked for, else `HATCH_DEFAULT_MODEL`, else `gpt-4o-mini`.
pub fn resolve_model(explicit: Option<String>, setting: Option<String>) -> (r: String)
    ensures
        r@ == match explicit {
            Some(m) => m@,
            None => match setting {
                Some(m) => m@,
                None => DEFAULT_MODEL@,
            },
        },
{
    match explicit {
        Some(m) => m,
        None => match setting {
            Some(m) => m,
            None => copy_str(DEFAULT_MODEL),
        },
    }
}

/// The templates folder: `HATCH_AGENTS_DIR`, else `agents`.
pub fn agents_dir(setting: Option<&str>) -> (r: String)
    ensures
        r@ == match setting {
            Some(d) => d@,
            None => DEFAULT_AGENTS_DIR@,
        },
{
    match setting {
        Some(d) => copy_str(d),
        None => copy_str(DEFAULT_AGENTS_DIR),
    }
}

/// How the base folder of a run's project is chosen.
pub enum OutputDirChoice {
    /// This folder.
    Use(String),
    /// Ask on the terminal.
    Ask,
    /// None chosen: the run falls back on its default.
    Unset,
}

/// The base folder: the `--output-dir` argument, else `HATCH_OUTPUT_DIR`; with
/// neither, none when `HATCH_NO_PROMPT` is set or the input is not a terminal,
/// else the user is asked.
pub fn output_dir_choice(
    arg: Option<String>,
    setting: Option<String>,
    no_prompt: bool,
    interactive: bool,
) -> (r: OutputDirChoice)
    ensures
        match arg {
            Some(a) => r matches OutputDirChoice::Use(d) && d@ == a@,
            None => match setting {
                Some(v) => r matches OutputDirChoice::Use(d) && d@ == v@,
                None => if no_prompt || !interactive {
                    r is Unset
                } else {
                    r is Ask
                },
            },
        },
{
    match arg {
        Some(a) => OutputDirChoice::Use(a),
        None => match setting {
            Some(v) => OutputDirChoice::Use(v),
            None => if no_prompt || !interactive {
                OutputDirChoice::Unset
            } else {
                OutputDirChoice::Ask
            },
        },
    }
}

/// The base folder typed at the prompt: the trimmed answer, `hatch_runs` when blank.
pub fn output_dir_from_answer(line: &str) -> (r: String)
    ensures
        r@ == if trim(line@).len() == 0 {
            DEFAULT_OUTPUT_DIR@
        } else {
            trim(line@)
        },
{
    let t = trim_str(line);
    if t.as_str().unicode_len() == 0 {
        copy_str(DEFAULT_OUTPUT_DIR)
    } else {
        t
    }
}

/// The base folder a run writes under: the one chosen, else `HATCH_OUTPUT_DIR`,
/// else `hatch_runs`.
pub fn run_output_base(chosen: Option<String>, setting: Option<String>) -> (r: String)
    ensures
        r@ == match chosen {
            Some(d) => d@,
            None => match setting {
                Some(v) => v@,
                None => DEFAULT_OUTPUT_DIR@,
            },
        },
{
    match chosen {
        Some(d) => d,
        None => match setting {
            Some(v) => v,
            None => copy_str(DEFAULT_OUTPUT_DIR),
        },
    }
}

} // verus!
