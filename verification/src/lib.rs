//! A small single-user task manager library.
//!
//! Task lists are ordered sequences of text tasks, each flagged complete or
//! incomplete, persisted as JSON text; a separate application state maps list
//! names to file paths and records which list is active.  This crate holds the
//! persistence format and every decision the tool makes; reading and writing
//! the actual files is left to the caller.
//!
//! Concurrent invocations against the same file are not coordinated: the last
//! writer wins.  Single-process, single-invocation access is assumed.

use vstd::prelude::*;

mod cli;
mod clock;
mod decode;
mod encode;
mod errors;
mod laws;
mod parse;
mod render;
mod stamp;
mod state;
mod state_laws;
mod task;
mod text;

pub use cli::{resolve_target_path, CommandLineArgs, Commands};
pub use clock::current_timestamp;
pub use decode::dec_tasks;
pub use encode::{encode_task, encode_tasks, save_tasks};
pub use errors::ErrorKind;
pub use laws::{lemma_add_then_load, lemma_load_after_save, lemma_save_load_fixed_point};
pub use parse::{contents_list, load_tasks};
pub use render::{empty_notice, line_in_some_zone, list_all, render_all, render_task_line};
pub use stamp::{format_stamp, local_stamp};
pub use state_laws::{lemma_state_load_after_save, lemma_state_save_load_fixed_point};
pub use state::{
    activate_list, dec_state, encode_state, get_active_path, get_list_path, lookup, state_wf,
    EntryView, ListEntry, State, StateView,
};
pub use task::{add_task, complete_task, create, Task, TaskList, TaskView};

use cli::resolve_spec;
use state::{lookup as index_lookup, opt_str_view};

verus! {

/// What one invocation asks the caller to do afterwards: rewrite the task
/// file, rewrite the state file, print lines — whichever apply.
#[derive(Debug)]
pub struct RunOutput {
    /// The task file's new full contents, when the command changed the list.
    pub new_list_contents: Option<String>,
    /// The new application state, when the command changed it.
    pub new_state: Option<State>,
    /// Lines to show the user.
    pub output: Vec<String>,
}

/// Decide one invocation.
///
/// The caller loads the state, resolves the target list's path with
/// [`resolve_target_path`], reads that file (creating it empty when absent),
/// and hands everything here together with the current time; afterwards it
/// writes whatever this returns.  Every decision in between is made here:
/// activation selects among known lists or fails with `UnknownList`; a task
/// command without a resolvable list fails with `NoActiveList` before any
/// file content is looked at; adding appends one fresh task and completion
/// flags exactly the addressed one, both rewriting the whole file; listing
/// renders every task.  Unreadable task data fails with `MalformedData` and
/// nothing is written.
pub fn run(args: &CommandLineArgs, state: State, list_contents: &str, now: u64) -> (r: Result<
    RunOutput,
    ErrorKind,
>)
    ensures
        args.command matches Commands::Activate { key } ==> match index_lookup(
            state@.list_index,
            key@,
        ) {
            Some(p) => r matches Ok(out) && (out.new_state matches Some(st2) && st2@.list_index
                == state@.list_index && st2@.active_list == Some(key@)) && out.new_list_contents
                is None && out.output@.len() == 0,
            None => r == Err::<RunOutput, ErrorKind>(ErrorKind::UnknownList),
        },
        args.command matches Commands::Add { text } ==> match resolve_spec(
            state@,
            opt_str_view(&args.list),
        ) {
            None => r == Err::<RunOutput, ErrorKind>(ErrorKind::NoActiveList),
            Some(_) => match contents_list(list_contents@) {
                Some(ts) => r matches Ok(out) && (out.new_list_contents matches Some(c) && c@
                    == encode_tasks(
                    ts.push(TaskView { text: text@, created_at: now, complete: false }),
                )) && out.new_state is None && out.output@.len() == 0,
                None => r == Err::<RunOutput, ErrorKind>(ErrorKind::MalformedData),
            },
        },
        args.command matches Commands::Done { position } ==> match resolve_spec(
            state@,
            opt_str_view(&args.list),
        ) {
            None => r == Err::<RunOutput, ErrorKind>(ErrorKind::NoActiveList),
            Some(_) => match contents_list(list_contents@) {
                Some(ts) => if 1 <= position <= ts.len() {
                    r matches Ok(out) && (out.new_list_contents matches Some(c) && c@
                        == encode_tasks(
                        ts.update(
                            position - 1,
                            TaskView {
                                text: ts[position - 1].text,
                                created_at: ts[position - 1].created_at,
                                complete: true,
                            },
                        ),
                    )) && out.new_state is None && out.output@.len() == 0
                } else {
                    r == Err::<RunOutput, ErrorKind>(
                        ErrorKind::InvalidPosition { valid_up_to: ts.len() as usize, given: position },
                    )
                },
                None => r == Err::<RunOutput, ErrorKind>(ErrorKind::MalformedData),
            },
        },
        args.command is List ==> match resolve_spec(state@, opt_str_view(&args.list)) {
            None => r == Err::<RunOutput, ErrorKind>(ErrorKind::NoActiveList),
            Some(_) => match contents_list(list_contents@) {
                Some(ts) => r matches Ok(out) && out.new_list_contents is None && out.new_state
                    is None && (ts.len() == 0 ==> out.output@.len() == 1 && out.output@[0]@
                    == empty_notice()) && (ts.len() > 0 ==> out.output@.len() == ts.len()
                    && forall|i: int|
                    0 <= i < ts.len() ==> #[trigger] line_in_some_zone(
                        out.output@[i]@,
                        (i + 1) as nat,
                        ts[i],
                    )),
                None => r == Err::<RunOutput, ErrorKind>(ErrorKind::MalformedData),
            },
        },
{
    match &args.command {
        Commands::Activate { key } => {
            let mut st = state;
            match activate_list(&mut st, key.clone()) {
                Ok(()) => Ok(
                    RunOutput {
                        new_list_contents: None,
                        new_state: Some(st),
                        output: Vec::new(),
                    },
                ),
                Err(e) => Err(e),
            }
        },
        Commands::Add { text } => {
            if resolve_target_path(&state, &args.list).is_none() {
                return Err(ErrorKind::NoActiveList);
            }
            let mut list = match load_tasks(list_contents) {
                Ok(l) => l,
                Err(e) => {
                    return Err(e);
                },
            };
            add_task(&mut list, Task { text: text.clone(), created_at: now, complete: false });
            Ok(
                RunOutput {
                    new_list_contents: Some(save_tasks(&list)),
                    new_state: None,
                    output: Vec::new(),
                },
            )
        },
        Commands::Done { position } => {
            if resolve_target_path(&state, &args.list).is_none() {
                return Err(ErrorKind::NoActiveList);
            }
            let mut list = match load_tasks(list_contents) {
                Ok(l) => l,
                Err(e) => {
                    return Err(e);
                },
            };
            match complete_task(&mut list, *position) {
                Ok(()) => {},
                Err(e) => {
                    return Err(e);
                },
            }
            proof {
                assert(list.deep_view() =~= contents_list(list_contents@).unwrap().update(
                    *position - 1,
                    TaskView {
                        text: contents_list(list_contents@).unwrap()[*position - 1].text,
                        created_at: contents_list(list_contents@).unwrap()[*position - 1].created_at,
                        complete: true,
                    },
                ));
            }
            Ok(
                RunOutput {
                    new_list_contents: Some(save_tasks(&list)),
                    new_state: None,
                    output: Vec::new(),
                },
            )
        },
        Commands::List => {
            if resolve_target_path(&state, &args.list).is_none() {
                return Err(ErrorKind::NoActiveList);
            }
            let list = match load_tasks(list_contents) {
                Ok(l) => l,
                Err(e) => {
                    return Err(e);
                },
            };
            Ok(
                RunOutput {
                    new_list_contents: None,
                    new_state: None,
                    output: list_all(&list),
                },
            )
        },
    }
}

} // verus!
