//! The commands of the command line, as plain values.

use vstd::prelude::*;

verus! {

/// A parsed command line.
#[derive(Debug, Clone, PartialEq)]
pub struct Cli {
    pub command: Commands,
}

/// The commands.
#[derive(Debug, Clone, PartialEq)]
pub enum Commands {
    /// Set a project up.
    Init { path: String },
    /// Show the project's state.
    State { json: bool, raw: bool, diff: bool, type_filter: Option<String> },
    /// Run a command and record it.
    Exec { command: Vec<String> },
    /// Install the declared dependencies.
    Sync,
    /// Declare a dependency.
    Add { gem: String, version: Option<String> },
    /// Take a declaration out.
    Remove { gem: String },
    /// Take the last declaration or removal back.
    Undo,
    /// Bring the Ruby runtime into the project.
    Bootstrap { version: Option<String> },
    /// Run a command in the project's environment.
    Run { command: Vec<String> },
    /// Show the project's environment.
    Env,
}

/// How the state is shown.
#[derive(Debug, Clone, Copy, PartialEq, Eq, Structural)]
pub enum StateView {
    /// The signals as JSON.
    Json,
    /// The signals as a table.
    Raw,
    /// The last change of the project.
    Diff,
    /// The summary and the statistics.
    Full,
}

/// How the state is shown for the given switches: `json` goes before `raw`, and
/// `raw` before `diff`.
pub fn state_view(json: bool, raw: bool, diff: bool) -> (r: StateView)
    ensures
        json ==> r == StateView::Json,
        !json && raw ==> r == StateView::Raw,
        !json && !raw && diff ==> r == StateView::Diff,
        !json && !raw && !diff ==> r == StateView::Full,
{
    if json {
        StateView::Json
    } else if raw {
        StateView::Raw
    } else if diff {
        StateView::Diff
    } else {
        StateView::Full
    }
}

/// Splits a command line into the command and its arguments; `None` where it is
/// empty.
pub fn split_command(words: &[String]) -> (r: Option<(&str, &[String])>)
    ensures
        match r {
            Some((command, args)) => words@.len() > 0 && command@ == words@[0]@ && args@
                == words@.subrange(1, words@.len() as int),
            None => words@.len() == 0,
        },
{
    if words.len() == 0 {
        None
    } else {
        let args = vstd::slice::slice_subrange(words, 1, words.len());
        Some((words[0].as_str(), args))
    }
}

} // verus!
