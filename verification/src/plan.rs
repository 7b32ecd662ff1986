//! Plans: lists of tasks to carry out in order, and how what comes of each
//! decides what is done next.

use vstd::prelude::*;

use crate::process::{Invocation, InvocationView};
use crate::text::told;

verus! {

/// A change to make outside.
pub enum Action {
    /// Create a directory and the directories above it.
    MakeDirs(String),
    /// Remove a directory and all in it.
    RemoveTree(String),
    WriteText { path: String, text: String },
    CopyFile { from: String, to: String },
    Rename { from: String, to: String },
    MakeExecutable(String),
    Run(Invocation),
    /// Print a line.
    Say(String),
}

pub enum ActionView {
    MakeDirs(Seq<char>),
    RemoveTree(Seq<char>),
    WriteText { path: Seq<char>, text: Seq<char> },
    CopyFile { from: Seq<char>, to: Seq<char> },
    Rename { from: Seq<char>, to: Seq<char> },
    MakeExecutable(Seq<char>),
    Run(InvocationView),
    Say(Seq<char>),
}

impl View for Action {
    type V = ActionView;

    open spec fn view(&self) -> ActionView {
        match self {
            Action::MakeDirs(p) => ActionView::MakeDirs(p@),
            Action::RemoveTree(p) => ActionView::RemoveTree(p@),
            Action::WriteText { path, text } => ActionView::WriteText { path: path@, text: text@ },
            Action::CopyFile { from, to } => ActionView::CopyFile { from: from@, to: to@ },
            Action::Rename { from, to } => ActionView::Rename { from: from@, to: to@ },
            Action::MakeExecutable(p) => ActionView::MakeExecutable(p@),
            Action::Run(i) => ActionView::Run(i@),
            Action::Say(t) => ActionView::Say(t@),
        }
    }
}

/// One step of a plan.
pub enum Task {
    /// Do it; where it fails, stop, with the reason between `prefix` and `suffix`.
    Must { action: Action, prefix: String, suffix: String },
    /// Do it, and go on whether or not it works.
    Try { action: Action },
    /// Where the path exists, leave out the next `count` tasks.
    SkipIfExists { path: String, count: usize },
    /// Stop with the message unless the path exists, as a directory if so asked.
    Require { path: String, directory: bool, message: String },
}

pub enum TaskView {
    Must { action: ActionView, prefix: Seq<char>, suffix: Seq<char> },
    Try { action: ActionView },
    SkipIfExists { path: Seq<char>, count: nat },
    Require { path: Seq<char>, directory: bool, message: Seq<char> },
}

impl View for Task {
    type V = TaskView;

    open spec fn view(&self) -> TaskView {
        match self {
            Task::Must { action, prefix, suffix } => TaskView::Must {
                action: action@,
                prefix: prefix@,
                suffix: suffix@,
            },
            Task::Try { action } => TaskView::Try { action: action@ },
            Task::SkipIfExists { path, count } => TaskView::SkipIfExists {
                path: path@,
                count: *count as nat,
            },
            Task::Require { path, directory, message } => TaskView::Require {
                path: path@,
                directory: *directory,
                message: message@,
            },
        }
    }
}

/// Tasks to carry out in order.
pub struct Plan {
    pub tasks: Vec<Task>,
}

impl View for Plan {
    type V = Seq<TaskView>;

    open spec fn view(&self) -> Seq<TaskView> {
        self.tasks@.map_values(|t: Task| t@)
    }
}

/// What came of a task: for an action, `Ok` that it was done or the reason it
/// failed; for a path, `Ok` whether it is there as asked.
pub type Reply = Result<bool, String>;

/// Which task comes after the one at `at`, or the error the plan stops with.
pub open spec fn next_task(
    tasks: Seq<TaskView>,
    at: int,
    reply: Result<bool, Seq<char>>,
) -> Result<int, Seq<char>> {
    match tasks[at] {
        TaskView::Must { action, prefix, suffix } => match reply {
            Ok(_) => Ok(at + 1),
            Err(e) => Err(prefix + e + suffix),
        },
        TaskView::Try { action } => Ok(at + 1),
        TaskView::SkipIfExists { path, count } => if reply == Ok::<bool, Seq<char>>(true) {
            Ok(if at + 1 + count <= tasks.len() { at + 1 + count } else { tasks.len() as int })
        } else {
            Ok(at + 1)
        },
        TaskView::Require { path, directory, message } => if reply == Ok::<bool, Seq<char>>(true) {
            Ok(at + 1)
        } else {
            Err(message)
        },
    }
}

/// A position or an error, as mathematics.
pub open spec fn position(r: Result<usize, String>) -> Result<int, Seq<char>> {
    match r {
        Ok(i) => Ok(i as int),
        Err(e) => Err(e@),
    }
}

/// Doing something that has to work.
pub open spec fn must(action: ActionView, prefix: Seq<char>) -> TaskView {
    TaskView::Must { action, prefix, suffix: Seq::empty() }
}

/// Printing a line.
pub open spec fn saying(text: Seq<char>) -> TaskView {
    TaskView::Try { action: ActionView::Say(text) }
}

impl Plan {
    pub fn new() -> (plan: Plan)
        ensures
            plan@ == Seq::<TaskView>::empty(),
    {
        let plan = Plan { tasks: Vec::new() };
        assert(plan@ == Seq::<TaskView>::empty());
        plan
    }

    /// Put a task at the end.
    pub fn add_task(&mut self, task: Task)
        ensures
            final(self)@ == old(self)@.push(task@),
    {
        self.tasks.push(task);
        assert(self@ == old(self)@.push(task@));
    }

    /// Put at the end something that has to work.
    pub fn add_must(&mut self, action: Action, prefix: String)
        ensures
            final(self)@ == old(self)@.push(must(action@, prefix@)),
    {
        self.add_task(Task::Must { action, prefix, suffix: String::new() });
    }

    /// Put at the end something that may fail.
    pub fn add_try(&mut self, action: Action)
        ensures
            final(self)@ == old(self)@.push(TaskView::Try { action: action@ }),
    {
        self.add_task(Task::Try { action });
    }

    /// Put the tasks of another plan at the end.
    pub fn add_all(&mut self, more: Plan)
        ensures
            final(self)@ == old(self)@ + more@,
    {
        let mut tasks = more.tasks;
        self.tasks.append(&mut tasks);
        assert(self@ == old(self)@ + more@);
    }

    /// Given what came of the task at `at`: the position of the task to carry
    /// out next (past the end where the plan is done), or the error to stop with.
    pub fn advance(&self, at: usize, reply: Reply) -> (next: Result<usize, String>)
        requires
            at < self@.len(),
        ensures
            position(next) == next_task(self@, at as int, told(reply)),
            next is Ok ==> at < next->Ok_0 <= self@.len(),
    {
        let n: usize = self.tasks.len();
        match &self.tasks[at] {
            Task::Must { action, prefix, suffix } => match reply {
                Ok(_) => Ok(at + 1),
                Err(reason) => {
                    let mut e = prefix.clone();
                    e.append(reason.as_str());
                    e.append(suffix.as_str());
                    Err(e)
                },
            },
            Task::Try { action } => Ok(at + 1),
            Task::SkipIfExists { path, count } => match reply {
                Ok(true) => if *count <= n - (at + 1) {
                    Ok(at + 1 + *count)
                } else {
                    Ok(n)
                },
                _ => Ok(at + 1),
            },
            Task::Require { path, directory, message } => match reply {
                Ok(true) => Ok(at + 1),
                _ => Err(message.clone()),
            },
        }
    }
}

/// The positions of the tasks that are carried out from `at` on, where each
/// task is answered by `replies`.
pub open spec fn carried_out(
    tasks: Seq<TaskView>,
    at: int,
    replies: spec_fn(int) -> Result<bool, Seq<char>>,
) -> Seq<int>
    decreases tasks.len() - at,
{
    if at < 0 || at >= tasks.len() {
        Seq::empty()
    } else {
        match next_task(tasks, at, replies(at)) {
            Ok(next) if next > at => seq![at] + carried_out(tasks, next, replies),
            _ => seq![at],
        }
    }
}

/// What carrying out the tasks from `at` on comes to.
pub open spec fn conclusion(
    tasks: Seq<TaskView>,
    at: int,
    replies: spec_fn(int) -> Result<bool, Seq<char>>,
) -> Result<(), Seq<char>>
    decreases tasks.len() - at,
{
    if at < 0 || at >= tasks.len() {
        Ok(())
    } else {
        match next_task(tasks, at, replies(at)) {
            Ok(next) if next > at => conclusion(tasks, next, replies),
            Ok(next) => Ok(()),
            Err(e) => Err(e),
        }
    }
}

/// Being a run of some program.
pub open spec fn runs(task: TaskView, program: Seq<char>) -> bool {
    task matches TaskView::Must { action, .. } && action matches ActionView::Run(i) && i.program
        == program
}

/// Being a move of a file to a place.
pub open spec fn moves_to(task: TaskView, place: Seq<char>) -> bool {
    task matches TaskView::Must { action, .. } && action is Rename && action->Rename_to == place
}

/// A plan goes forward only: tasks are carried out in their order, and none twice.
pub proof fn tasks_are_carried_out_in_order(
    tasks: Seq<TaskView>,
    at: int,
    replies: spec_fn(int) -> Result<bool, Seq<char>>,
)
    ensures
        forall|i: int|
            0 <= i < carried_out(tasks, at, replies).len() ==> at <= #[trigger] carried_out(
                tasks,
                at,
                replies,
            )[i] < tasks.len(),
        forall|i: int, j: int|
            0 <= i < j < carried_out(tasks, at, replies).len() ==> #[trigger] carried_out(
                tasks,
                at,
                replies,
            )[i] < #[trigger] carried_out(tasks, at, replies)[j],
    decreases tasks.len() - at,
{
    if 0 <= at < tasks.len() {
        match next_task(tasks, at, replies(at)) {
            Ok(next) if next > at => {
                tasks_are_carried_out_in_order(tasks, next, replies);
                let rest = carried_out(tasks, next, replies);
                let whole = carried_out(tasks, at, replies);
                assert forall|i: int| 0 < i < whole.len() implies #[trigger] whole[i] == rest[i
                    - 1] by {}
            },
            _ => {},
        }
    }
}

/// A failure ends a plan: its error is that of the last task carried out, and
/// every task before that one let the plan go on.
pub proof fn failure_ends_a_plan(
    tasks: Seq<TaskView>,
    at: int,
    replies: spec_fn(int) -> Result<bool, Seq<char>>,
)
    requires
        conclusion(tasks, at, replies) is Err,
    ensures
        carried_out(tasks, at, replies).len() > 0,
        next_task(
            tasks,
            carried_out(tasks, at, replies).last(),
            replies(carried_out(tasks, at, replies).last()),
        ) == Err::<int, Seq<char>>(conclusion(tasks, at, replies)->Err_0),
        forall|i: int|
            0 <= i < carried_out(tasks, at, replies).len() - 1 ==> next_task(
                tasks,
                #[trigger] carried_out(tasks, at, replies)[i],
                replies(carried_out(tasks, at, replies)[i]),
            ) is Ok,
    decreases tasks.len() - at,
{
    match next_task(tasks, at, replies(at)) {
        Ok(next) if next > at => {
            failure_ends_a_plan(tasks, next, replies);
            let rest = carried_out(tasks, next, replies);
            let whole = carried_out(tasks, at, replies);
            assert(whole.last() == rest.last());
            assert forall|i: int| 0 < i < whole.len() implies #[trigger] whole[i] == rest[i
                - 1] by {}
        },
        _ => {},
    }
}

} // verus!
