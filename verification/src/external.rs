//! The external selector adapters.
//!
//! `fzf` and `sk` replace the built-in session when configured: the
//! candidate list is piped to the process and its standard output, trimmed,
//! is the selection.  Spawning and piping are I/O and live with the caller;
//! what is verified here is the names of the two commands and how a
//! captured output turns into a selection.

use vstd::prelude::*;

use crate::strutil::{is_ascii_ws, trim_ascii_str, trim_by};

verus! {

/// The `fzf` external filter.
#[derive(Debug, Clone, Copy)]
pub struct Fzf;

/// The `sk` (skim) external filter.
#[derive(Debug, Clone, Copy)]
pub struct Skim;

/// The built-in selection session.
#[derive(Debug, Clone, Copy)]
pub struct Builtin;

impl Fzf {
    /// The command this adapter runs.
    pub fn command_name() -> (s: String)
        ensures
            s@ == "fzf"@,
    {
        "fzf".to_owned()
    }
}

impl Skim {
    /// The command this adapter runs.
    pub fn command_name() -> (s: String)
        ensures
            s@ == "sk"@,
    {
        "sk".to_owned()
    }
}

/// The selection an external filter's captured output stands for: the
/// output trimmed of surrounding ASCII whitespace when anything remains of
/// it, and no selection otherwise.
pub open spec fn spec_selection(out: Seq<char>) -> Option<Seq<char>> {
    let trimmed = trim_by(out, |c: char| is_ascii_ws(c));
    if trimmed.len() == 0 {
        None
    } else {
        Some(trimmed)
    }
}

/// Turns an external filter's captured standard output into the selection.
pub fn selection_from_stdout(out: &str) -> (r: Option<String>)
    ensures
        match r {
            None => spec_selection(out@) is None,
            Some(s) => spec_selection(out@) == Some(s@),
        },
{
    let trimmed = trim_ascii_str(out);
    if trimmed.as_str().is_empty() {
        None
    } else {
        Some(trimmed)
    }
}

} // verus!
