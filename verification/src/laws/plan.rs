//! Promises on plans and on what runs of programs come to.

use vstd::prelude::*;

use crate::laws::text::{has_text, is_blank, trimming_takes_white_space_away};
use crate::plan::{next_task, ActionView, TaskView};
use crate::process::{download, effect_of, making_dirs, output_of, InvocationView, Outcome};
use crate::text::whitespace;

verus! {

/// What has to work ends a plan where it fails, with the reason; what may fail
/// never does.
pub proof fn what_has_to_work_ends_a_plan(
    tasks: Seq<TaskView>,
    at: int,
    action: ActionView,
    prefix: Seq<char>,
    suffix: Seq<char>,
    reply: Result<bool, Seq<char>>,
    e: Seq<char>,
)
    requires
        0 <= at < tasks.len(),
    ensures
        tasks[at] == (TaskView::Must { action, prefix, suffix }) && reply is Ok ==> next_task(
            tasks,
            at,
            reply,
        ) == Ok::<int, Seq<char>>(at + 1),
        tasks[at] == (TaskView::Must { action, prefix, suffix }) ==> next_task(tasks, at, Err(e))
            == Err::<int, Seq<char>>(prefix + e + suffix),
        tasks[at] == (TaskView::Try { action }) ==> next_task(tasks, at, reply) == Ok::<
            int,
            Seq<char>,
        >(at + 1),
{
}

/// Tasks are left out exactly where the path is there, as many as are to be, and
/// what is required ends the plan where it is not there.
pub proof fn tasks_are_left_out_where_a_path_is(
    tasks: Seq<TaskView>,
    at: int,
    path: Seq<char>,
    count: nat,
    directory: bool,
    message: Seq<char>,
    reply: Result<bool, Seq<char>>,
)
    requires
        0 <= at < tasks.len(),
    ensures
        ({
            let next = next_task(tasks, at, reply);
            let is_there = reply is Ok && reply->Ok_0;
            &&& tasks[at] == (TaskView::SkipIfExists { path, count }) && is_there && at + 1 + count
                <= tasks.len() ==> next == Ok::<int, Seq<char>>(at + 1 + count)
            &&& tasks[at] == (TaskView::SkipIfExists { path, count }) && is_there && at + 1 + count
                > tasks.len() ==> next == Ok::<int, Seq<char>>(tasks.len() as int)
            &&& tasks[at] == (TaskView::SkipIfExists { path, count }) && !is_there ==> next == Ok::<
                int,
                Seq<char>,
            >(at + 1)
            &&& tasks[at] == (TaskView::Require { path, directory, message }) && is_there ==> next
                == Ok::<int, Seq<char>>(at + 1)
            &&& tasks[at] == (TaskView::Require { path, directory, message }) && !is_there ==> next
                == Err::<int, Seq<char>>(message)
        }),
{
}

/// A run works exactly where the program was started and was successful; what is
/// wrong otherwise names the program and the reason.
pub proof fn runs_work_where_the_program_does(
    program: Seq<char>,
    e: String,
    success: bool,
    status: String,
    stdout: String,
)
    ensures
        ({
            let ended = Outcome::Exited { success, status, stdout };
            let never = Outcome::NotStarted(e);
            &&& effect_of(program, ended) is Ok <==> success
            &&& output_of(program, ended) is Ok <==> success
            &&& effect_of(program, never) is Err && output_of(program, never) is Err
            &&& has_text(effect_of(program, never)->Err_0, program) && has_text(
                effect_of(program, never)->Err_0,
                e@,
            )
            &&& has_text(output_of(program, never)->Err_0, program) && has_text(
                output_of(program, never)->Err_0,
                e@,
            )
            &&& !success ==> effect_of(program, ended)->Err_0 == seq!['`'] + program
                + "` exited with "@ + status@
            &&& !success ==> output_of(program, ended)->Err_0 == seq!['`'] + program
                + "` exited with "@ + status@
        }),
{
    reveal_strlit("`");
    assert("`"@ == seq!['`']);
    let none = Seq::<char>::empty();
    let a = "failed to run `"@;
    let m = "`: "@;
    let z = " (is it installed?)"@;
    assert(a + program + m + e@ + z == a + program + (m + e@ + z));
    assert(a + program + m + e@ + z == (a + program + m) + e@ + z);
    assert(a + program + m + e@ == a + program + (m + e@));
    assert(a + program + m + e@ == (a + program + m) + e@ + none);
}

/// The output of a run is what the program wrote, without the white space around.
pub proof fn output_is_what_was_written(
    program: Seq<char>,
    before: Seq<char>,
    core: Seq<char>,
    behind: Seq<char>,
    status: String,
    stdout: String,
)
    requires
        stdout@ == before + core + behind,
        is_blank(before),
        is_blank(behind),
        core.len() > 0 ==> !whitespace(core[0]) && !whitespace(core.last()),
    ensures
        output_of(program, Outcome::Exited { success: true, status, stdout }) == Ok::<
            Seq<char>,
            Seq<char>,
        >(core),
{
    trimming_takes_white_space_away(before, core, behind);
}

/// A file is fetched beside its place, under its name with another ending, and
/// moved there once it is complete.
pub proof fn files_are_fetched_beside_their_place(
    note: Seq<char>,
    url: Seq<char>,
    dir: Seq<char>,
    stem: Seq<char>,
    ext: Seq<char>,
    prefix: Seq<char>,
    suffix: Seq<char>,
    finalize: Seq<char>,
)
    requires
        stem.len() > 0,
        !stem.contains('/'),
        ext.len() > 0,
        !ext.contains('/'),
        !ext.contains('.'),
    ensures
        ({
            let dest = dir + seq!['/'] + stem + seq!['.'] + ext;
            let part = dir + seq!['/'] + stem + seq!['.'] + "part"@;
            download(note, url, dest, prefix, suffix, finalize) == seq![
                TaskView::Try { action: ActionView::Say(note) },
                TaskView::Must {
                    action: ActionView::Run(
                        InvocationView {
                            program: "curl"@,
                            args: seq!["-fsSL"@, "--retry"@, "2"@, "-o"@, part, url],
                            cwd: None,
                            extra_path: None,
                        },
                    ),
                    prefix,
                    suffix,
                },
                TaskView::Must {
                    action: ActionView::Rename { from: part, to: dest },
                    prefix: finalize,
                    suffix: Seq::empty(),
                },
            ]
        }),
{
    crate::laws::path::endings_are_replaced(dir, stem, ext, "part"@);
}

/// A directory that has to be there is made, with those above it, and named where
/// that fails.
pub proof fn directories_are_made_where_needed(path: Seq<char>)
    ensures
        making_dirs(path) == (TaskView::Must {
            action: ActionView::MakeDirs(path),
            prefix: "mkdir "@ + path + ": "@,
            suffix: Seq::empty(),
        }),
{
}

} // verus!
