//! Programs to run, and what their outcome means.

use vstd::prelude::*;

use crate::path::{parent, parent_of, with_ending, with_extension};
use crate::plan::{must, saying, Action, ActionView, Plan, Task, TaskView};
use crate::text::{told, trim, trimmed, view_of, views};

verus! {

/// A program to run.
pub struct Invocation {
    pub program: String,
    pub args: Vec<String>,
    /// The directory to run it in; the current one where none is given.
    pub cwd: Option<String>,
    /// A directory to look for programs in before those of `PATH`.
    pub extra_path: Option<String>,
}

pub struct InvocationView {
    pub program: Seq<char>,
    pub args: Seq<Seq<char>>,
    pub cwd: Option<Seq<char>>,
    pub extra_path: Option<Seq<char>>,
}

impl View for Invocation {
    type V = InvocationView;

    open spec fn view(&self) -> InvocationView {
        InvocationView {
            program: self.program@,
            args: views(self.args@),
            cwd: view_of(self.cwd),
            extra_path: view_of(self.extra_path),
        }
    }
}

/// How a run ended.
pub enum Outcome {
    /// The program could not be started, for the reason given.
    NotStarted(String),
    /// The program ran: whether it succeeded, its exit status in words, and
    /// what it wrote to its standard output.
    Exited { success: bool, status: String, stdout: String },
}

/// The texts of a list of string slices.
pub open spec fn str_views(v: Seq<&str>) -> Seq<Seq<char>> {
    v.map_values(|s: &str| s@)
}

fn owned(args: Vec<&str>) -> (r: Vec<String>)
    ensures
        views(r@) == str_views(args@),
{
    let mut r: Vec<String> = Vec::new();
    let mut i: usize = 0;
    while i < args.len()
        invariant
            i == r@.len(),
            i <= args@.len(),
            forall|k: int| 0 <= k < i ==> #[trigger] r@[k]@ == args@[k]@,
        decreases args@.len() - i,
    {
        r.push(args[i].to_owned());
        i = i + 1;
    }
    assert(views(r@) == str_views(args@));
    r
}

fn owned_option(s: Option<&str>) -> (r: Option<String>)
    ensures
        view_of(r) == option_view(s),
{
    match s {
        Some(t) => Some(t.to_owned()),
        None => None,
    }
}

/// The text of an optional string slice.
pub open spec fn option_view(s: Option<&str>) -> Option<Seq<char>> {
    match s {
        Some(t) => Some(t@),
        None => None,
    }
}

/// Running a program, in a directory.
pub open spec fn running(
    program: Seq<char>,
    args: Seq<Seq<char>>,
    cwd: Option<Seq<char>>,
) -> InvocationView {
    InvocationView { program, args, cwd, extra_path: None }
}

/// Run a program with the given arguments, for its effect.
pub fn sh(program: &str, args: Vec<&str>, cwd: Option<&str>) -> (r: Invocation)
    ensures
        r@ == running(program@, str_views(args@), option_view(cwd)),
{
    sh_env(program, args, cwd, None)
}

/// Like `sh`, with `extra_path` looked through before `PATH` (used to compile
/// with a specific OTP toolchain).
pub fn sh_env(program: &str, args: Vec<&str>, cwd: Option<&str>, extra_path: Option<&str>) -> (r:
    Invocation)
    ensures
        r@ == (InvocationView {
            extra_path: option_view(extra_path),
            ..running(program@, str_views(args@), option_view(cwd))
        }),
{
    Invocation {
        program: program.to_owned(),
        args: owned(args),
        cwd: owned_option(cwd),
        extra_path: owned_option(extra_path),
    }
}

/// Run a program with the given arguments, for what it writes.
pub fn capture(program: &str, args: Vec<&str>) -> (r: Invocation)
    ensures
        r@ == running(program@, str_views(args@), None),
{
    sh(program, args, None)
}

/// What a run for its effect comes to.
pub open spec fn effect_of(program: Seq<char>, outcome: Outcome) -> Result<(), Seq<char>> {
    match outcome {
        Outcome::NotStarted(e) => Err(
            "failed to run `"@ + program + "`: "@ + e@ + " (is it installed?)"@,
        ),
        Outcome::Exited { success, status, stdout } => if success {
            Ok(())
        } else {
            Err("`"@ + program + "` exited with "@ + status@)
        },
    }
}

/// What a run for its output comes to: the output, trimmed.
pub open spec fn output_of(program: Seq<char>, outcome: Outcome) -> Result<Seq<char>, Seq<char>> {
    match outcome {
        Outcome::NotStarted(e) => Err("failed to run `"@ + program + "`: "@ + e@),
        Outcome::Exited { success, status, stdout } => if success {
            Ok(trimmed(stdout@))
        } else {
            Err("`"@ + program + "` exited with "@ + status@)
        },
    }
}

/// A result told in words either way, by the words.
pub open spec fn said(r: Result<String, String>) -> Result<Seq<char>, Seq<char>> {
    match r {
        Ok(t) => Ok(t@),
        Err(e) => Err(e@),
    }
}

fn exited_with(program: &str, status: &str) -> (e: String)
    ensures
        e@ == "`"@ + program@ + "` exited with "@ + status@,
{
    let mut e = "`".to_owned();
    e.append(program);
    e.append("` exited with ");
    e.append(status);
    e
}

fn failed_to_run(program: &str, reason: &str) -> (e: String)
    ensures
        e@ == "failed to run `"@ + program@ + "`: "@ + reason@,
{
    let mut e = "failed to run `".to_owned();
    e.append(program);
    e.append("`: ");
    e.append(reason);
    e
}

impl Invocation {
    /// What running this for its effect came to; an error if it did not succeed.
    pub fn effect(&self, outcome: &Outcome) -> (r: Result<(), String>)
        ensures
            told(r) == effect_of(self.program@, *outcome),
    {
        match outcome {
            Outcome::NotStarted(reason) => {
                let mut e = failed_to_run(self.program.as_str(), reason.as_str());
                e.append(" (is it installed?)");
                Err(e)
            },
            Outcome::Exited { success, status, stdout } => if *success {
                Ok(())
            } else {
                Err(exited_with(self.program.as_str(), status.as_str()))
            },
        }
    }

    /// What running this for its output came to: the output, trimmed.
    pub fn output(&self, outcome: &Outcome) -> (r: Result<String, String>)
        ensures
            said(r) == output_of(self.program@, *outcome),
    {
        match outcome {
            Outcome::NotStarted(reason) => Err(
                failed_to_run(self.program.as_str(), reason.as_str()),
            ),
            Outcome::Exited { success, status, stdout } => if *success {
                Ok(trim(stdout.as_str()).to_owned())
            } else {
                Err(exited_with(self.program.as_str(), status.as_str()))
            },
        }
    }

    /// The value of `PATH` to run this with, where it is not the inherited one.
    pub fn search_path(&self, existing: Option<&str>) -> (r: Option<String>)
        ensures
            view_of(r) == (match self@.extra_path {
                Some(p) => Some(
                    p + ":"@ + (match option_view(existing) {
                        Some(x) => x,
                        None => Seq::empty(),
                    }),
                ),
                None => None,
            }),
    {
        match &self.extra_path {
            Some(p) => {
                let mut r = p.clone();
                r.append(":");
                if let Some(x) = existing {
                    r.append(x);
                }
                Some(r)
            },
            None => None,
        }
    }
}

/// The task that copies a directory tree into a directory that is there.
pub open spec fn copying(src: Seq<char>, dst: Seq<char>) -> TaskView {
    must(ActionView::Run(running("cp"@, seq!["-R"@, src, dst], None)), Seq::empty())
}

/// The tasks that copy a directory tree: make the parent, then `cp -R`, which
/// keeps permissions and symlinks as the runtime needs them.
pub open spec fn tree_copy(src: Seq<char>, dst: Seq<char>) -> Seq<TaskView> {
    match parent_of(dst) {
        Some(p) => seq![making_dirs(p), copying(src, dst)],
        None => seq![copying(src, dst)],
    }
}

/// Making a directory that has to be there.
pub open spec fn making_dirs(path: Seq<char>) -> TaskView {
    must(ActionView::MakeDirs(path), "mkdir "@ + path + ": "@)
}

/// Make a directory that has to be there.
pub fn make_dirs(path: &str) -> (task: Task)
    ensures
        task@ == making_dirs(path@),
{
    let mut prefix = "mkdir ".to_owned();
    prefix.append(path);
    prefix.append(": ");
    Task::Must { action: Action::MakeDirs(path.to_owned()), prefix, suffix: String::new() }
}

/// Copy a directory tree: make the parent, then `cp -R`, which keeps
/// permissions and symlinks as the runtime needs them.
pub fn copy_tree(src: &str, dst: &str) -> (plan: Plan)
    ensures
        plan@ == tree_copy(src@, dst@),
{
    let mut plan = Plan::new();
    if let Some(p) = parent(dst) {
        plan.add_task(make_dirs(p.as_str()));
    }
    let args: Vec<&str> = vec!["-R", src, dst];
    assert(str_views(args@) == seq!["-R"@, src@, dst@]);
    plan.add_must(Action::Run(sh("cp", args, None)), String::new());
    assert(plan@ == tree_copy(src@, dst@));
    plan
}

/// The tasks that fetch a file: say so, download it to a file beside its place,
/// and only when that worked move it there.
pub open spec fn download(
    note: Seq<char>,
    url: Seq<char>,
    dest: Seq<char>,
    prefix: Seq<char>,
    suffix: Seq<char>,
    finalize: Seq<char>,
) -> Seq<TaskView> {
    let part = with_ending(dest, "part"@);
    seq![
        saying(note),
        TaskView::Must {
            action: ActionView::Run(
                running("curl"@, seq!["-fsSL"@, "--retry"@, "2"@, "-o"@, part, url], None),
            ),
            prefix,
            suffix,
        },
        must(ActionView::Rename { from: part, to: dest }, finalize),
    ]
}

/// Fetch a file: say so, download it to a file beside its place, and only when
/// that worked move it there.
pub fn fetch(note: &str, url: &str, dest: &str, prefix: &str, suffix: &str, finalize: &str) -> (plan:
    Plan)
    ensures
        plan@ == download(note@, url@, dest@, prefix@, suffix@, finalize@),
{
    let part = with_extension(dest, "part");
    let args: Vec<&str> = vec!["-fsSL", "--retry", "2", "-o", part.as_str(), url];
    assert(str_views(args@) == seq!["-fsSL"@, "--retry"@, "2"@, "-o"@, part@, url@]);
    let mut plan = Plan::new();
    plan.add_try(Action::Say(note.to_owned()));
    plan.add_task(
        Task::Must {
            action: Action::Run(sh("curl", args, None)),
            prefix: prefix.to_owned(),
            suffix: suffix.to_owned(),
        },
    );
    plan.add_must(Action::Rename { from: part, to: dest.to_owned() }, finalize.to_owned());
    assert(plan@ == download(note@, url@, dest@, prefix@, suffix@, finalize@));
    plan
}

} // verus!
