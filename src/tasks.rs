//! The task tracker: the plan/view command decision and the checklist
//! rendering. Loading and saving `tasks.json` is the caller's.

use vstd::prelude::*;
use crate::text::{chars_of, decimal, push_decimal, push_str_chars, str_eq, string_of};

verus! {

/// One task of the plan.
#[derive(Debug, Clone)]
pub struct TaskItem {
    pub title: String,
    pub notes: String,
    /// `todo`, `in_progress` or `done`.
    pub status: String,
}

/// Arguments of the `task_tracker` tool.
#[derive(Debug, Clone)]
pub struct TaskTrackerArgs {
    pub command: String,
    pub task_list: Option<Vec<TaskItem>>,
}

/// The checkbox of a status: done `[x]`, in progress `[/]`, else `[ ]`.
pub open spec fn status_mark(status: Seq<char>) -> Seq<char> {
    if status == "done"@ { "[x]"@ } else if status == "in_progress"@ { "[/]"@ } else { "[ ]"@ }
}

/// The checklist line of task number `n` (1-based).
pub open spec fn task_line(t: TaskItem, n: nat) -> Seq<char> {
    status_mark(t.status@) + " "@ + decimal(n) + ". "@ + t.title@ + " - "@ + t.notes@ + "\n"@
}

/// The checklist lines of `tasks[..k]`.
pub open spec fn checklist(tasks: Seq<TaskItem>, k: int) -> Seq<char>
    decreases k,
{
    if k <= 0 { Seq::empty() } else { checklist(tasks, k - 1) + task_line(tasks[k - 1], k as nat) }
}

/// The rendering of a task list: one checklist line per task, or a note
/// that the list is empty.
pub open spec fn render_spec(tasks: Seq<TaskItem>) -> Seq<char> {
    if tasks.len() == 0 { "No tasks in the list."@ } else { checklist(tasks, tasks.len() as int) }
}

/// Renders `tasks` as a checklist.
pub fn render_tasks(tasks: &Vec<TaskItem>) -> (r: String)
    ensures
        r@ == render_spec(tasks@),
{
    if tasks.len() == 0 {
        return string_of(&chars_of("No tasks in the list."));
    }
    let mut out: Vec<char> = Vec::new();
    let mut i: usize = 0;
    while i < tasks.len()
        invariant
            i <= tasks.len(),
            out@ == checklist(tasks@, i as int),
        decreases tasks.len() - i,
    {
        let t = &tasks[i];
        let s = t.status.as_str();
        if str_eq(s, "done") {
            push_str_chars(&mut out, "[x]");
        } else if str_eq(s, "in_progress") {
            push_str_chars(&mut out, "[/]");
        } else {
            push_str_chars(&mut out, "[ ]");
        }
        push_str_chars(&mut out, " ");
        push_decimal(&mut out, i as u128 + 1);
        push_str_chars(&mut out, ". ");
        push_str_chars(&mut out, t.title.as_str());
        push_str_chars(&mut out, " - ");
        push_str_chars(&mut out, t.notes.as_str());
        push_str_chars(&mut out, "\n");
        i += 1;
        assert(out@ =~= checklist(tasks@, i as int));
    }
    string_of(&out)
}

/// What a tracker command leads to: the list to show and whether it is to
/// be saved first.
#[derive(Debug, Clone)]
pub struct TrackerPlan {
    pub tasks: Vec<TaskItem>,
    pub save: bool,
}

/// Decides a tracker command given the stored list: `view` shows it;
/// `plan` with a list replaces it (to be saved); `plan` without one shows
/// it; anything else is an error.
pub fn task_tracker_step(command: &str, task_list: Option<Vec<TaskItem>>, stored: Vec<TaskItem>) -> (r: Result<TrackerPlan, String>)
    ensures
        command@ == "view"@ ==> (r matches Ok(p) && p.tasks@ == stored@ && !p.save),
        command@ == "plan"@ ==> match task_list {
            Some(l) => r matches Ok(p) && p.tasks@ == l@ && p.save,
            None => r matches Ok(p) && p.tasks@ == stored@ && !p.save,
        },
        command@ != "view"@ && command@ != "plan"@ ==> (r matches Err(e)
            && e@ == "Error: Unknown command '"@ + command@ + "'. Use 'view' or 'plan'."@),
{
    proof {
        reveal_strlit("view");
        reveal_strlit("plan");
        assert("view"@[0] != "plan"@[0]);
    }
    if str_eq(command, "view") {
        return Ok(TrackerPlan { tasks: stored, save: false });
    }
    if str_eq(command, "plan") {
        return match task_list {
            Some(l) => Ok(TrackerPlan { tasks: l, save: true }),
            None => Ok(TrackerPlan { tasks: stored, save: false }),
        };
    }
    let mut m: Vec<char> = Vec::new();
    push_str_chars(&mut m, "Error: Unknown command '");
    push_str_chars(&mut m, command);
    push_str_chars(&mut m, "'. Use 'view' or 'plan'.");
    Err(string_of(&m))
}

} // verus!
