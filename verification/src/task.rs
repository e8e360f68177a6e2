//! Tasks and task lists, and the operations that mutate them.

use vstd::assert_seqs_equal;
use vstd::prelude::*;

use crate::clock;
use crate::errors::ErrorKind;

verus! {

/// One to-do item.
#[derive(Debug, Clone)]
pub struct Task {
    /// Free-form description, set once at creation, never mutated.
    pub text: String,
    /// Creation time, counted in seconds since the Unix epoch (UTC).
    pub created_at: u64,
    /// Completion flag: starts out `false` and is only ever raised.
    pub complete: bool,
}

/// The mathematical content of a [`Task`]: the same three fields with the
/// text as a sequence of characters.
pub ghost struct TaskView {
    pub text: Seq<char>,
    pub created_at: u64,
    pub complete: bool,
}

impl View for Task {
    type V = TaskView;

    open spec fn view(&self) -> TaskView {
        TaskView { text: self.text@, created_at: self.created_at, complete: self.complete }
    }
}

impl DeepView for Task {
    type V = TaskView;

    open spec fn deep_view(&self) -> TaskView {
        self.view()
    }
}

/// An ordered sequence of tasks backing one file.  Insertion order is
/// significant and is preserved across every operation: new tasks are
/// appended at the end and nothing ever reorders the list.
pub type TaskList = Vec<Task>;

impl Task {
    /// Build a task carrying `text`, stamped with the current time and not
    /// yet complete.  The stamp is whatever the system clock reports, so
    /// nothing is promised about its value.
    pub fn new(text: String) -> (t: Task)
        ensures
            t.text == text,
            !t.complete,
    {
        Task { text, created_at: clock::current_timestamp(), complete: false }
    }
}

/// Build a task carrying `text`, stamped with the current time.
pub fn create(text: String) -> (t: Task)
    ensures
        t.text == text,
        !t.complete,
{
    Task::new(text)
}

/// Append `task` at the end of the list.  Nothing else moves.
pub fn add_task(list: &mut TaskList, task: Task)
    ensures
        final(list)@ == old(list)@.push(task),
        final(list).deep_view() == old(list).deep_view().push(task@),
{
    proof {
        assert_seqs_equal!(old(list).deep_view().push(task@) == old(list)@.push(task).map(|i: int, t: Task| t.deep_view()));
    }
    list.push(task);
}

/// Mark the task at the 1-based `position` as complete.
///
/// Positions `1..=list.len()` are valid: the task at that ordinal has its
/// `complete` flag set and keeps its text and creation time, and every other
/// task is left untouched.  Any other position fails with `InvalidPosition`
/// naming the valid range and the offending value, and the list is unchanged.
pub fn complete_task(list: &mut TaskList, position: usize) -> (r: Result<(), ErrorKind>)
    ensures
        1 <= position <= old(list)@.len() ==> r is Ok,
        r is Ok ==> 1 <= position <= old(list)@.len(),
        r is Ok ==> final(list)@ == old(list)@.update(
            position - 1,
            Task {
                text: old(list)@[position - 1].text,
                created_at: old(list)@[position - 1].created_at,
                complete: true,
            },
        ),
        r is Err ==> final(list)@ == old(list)@ && r == Err::<(), ErrorKind>(
            ErrorKind::InvalidPosition { valid_up_to: old(list).len(), given: position },
        ),
{
    if position == 0 || position > list.len() {
        return Err(ErrorKind::InvalidPosition { valid_up_to: list.len(), given: position });
    }
    let idx = position - 1;
    let text = list[idx].text.clone();
    let created_at = list[idx].created_at;
    list.set(idx, Task { text, created_at, complete: true });
    Ok(())
}

} // verus!
