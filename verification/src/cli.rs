//! The commands the tool answers, as plain data.
//!
//! Argument parsing itself lives with the caller; the library only sees the
//! parsed result: one command, and optionally a data directory and a list
//! name.

use vstd::prelude::*;

use crate::state::{lookup, opt_str_view, State, StateView};

verus! {

/// One invocation's command.
#[derive(Debug)]
pub enum Commands {
    /// Make the list with this key the active one; commands that follow (in
    /// later invocations) apply to it.
    Activate { key: String },
    /// Add a task with this text to the active list.
    Add { text: String },
    /// Mark the task at this 1-based position as complete.
    Done { position: usize },
    /// Show every task of the active list.
    List,
}

/// Everything the caller hands over for one invocation.
#[derive(Debug)]
pub struct CommandLineArgs {
    /// The command to run.
    pub command: Commands,
    /// Directory holding the state file and the list files, if the caller
    /// overrides the default.
    pub data_dir: Option<String>,
    /// Key of the list the command applies to, overriding the active list.
    pub list: Option<String>,
}

/// The path of the active list.
pub open spec fn active_path_spec(sv: StateView) -> Option<Seq<char>> {
    match sv.active_list {
        Some(k) => lookup(sv.list_index, k),
        None => None,
    }
}

/// The path a task command works on: the requested list if it is known,
/// else the active list's path, else nothing.
pub open spec fn resolve_spec(sv: StateView, requested: Option<Seq<char>>) -> Option<Seq<char>> {
    match requested {
        Some(k) => match lookup(sv.list_index, k) {
            Some(p) => Some(p),
            None => active_path_spec(sv),
        },
        None => active_path_spec(sv),
    }
}

/// Resolve the file path a task command works on.
///
/// A requested name that the index knows wins; otherwise the active list's
/// path is used; if neither resolves there is no target, which the caller
/// surfaces as `NoActiveList` before touching any file.
pub fn resolve_target_path(state: &State, requested: &Option<String>) -> (r: Option<String>)
    ensures
        match r {
            Some(p) => resolve_spec(state@, opt_str_view(requested)) == Some(p@),
            None => resolve_spec(state@, opt_str_view(requested)) is None,
        },
{
    match requested {
        Some(key) => match crate::state::get_list_path(state, key) {
            Some(p) => Some(p),
            None => crate::state::get_active_path(state),
        },
        None => crate::state::get_active_path(state),
    }
}

} // verus!
