//! Promises on what is compiled, packed and built, and how.

use vstd::prelude::*;

use crate::laws::text::has_text;
use crate::path::{joined, parent_of};
use crate::pipeline::{
    assemble_tasks, boot_script, boot_script_tasks, compile_tasks, compressor, content_tag_of,
    djb2_of, finish_tasks, hash_of, heading, launcher_tasks, lib_copies, pack_tasks, payload_dir,
    reuse_tasks, tag_of, weigh_tasks, Compression, LauncherView, RuntimeView,
};
use crate::plan::{ActionView, TaskView};
use crate::process::{tree_copy, InvocationView};
use crate::text::{decimal, hex};

verus! {

/// Running a program, which has to succeed.
pub open spec fn run(program: Seq<char>, args: Seq<Seq<char>>, cwd: Option<Seq<char>>) -> TaskView {
    TaskView::Must {
        action: ActionView::Run(InvocationView { program, args, cwd, extra_path: None }),
        prefix: Seq::empty(),
        suffix: Seq::empty(),
    }
}

/// Copying a directory tree.
pub open spec fn tree_copied(src: Seq<char>, dst: Seq<char>) -> TaskView {
    run("cp"@, seq!["-R"@, src, dst], None)
}

/// Copying a tree makes the directory above its place, then copies it there with
/// all it holds.
pub proof fn trees_are_copied_whole(src: Seq<char>, dst: Seq<char>)
    ensures
        tree_copy(src, dst).last() == tree_copied(src, dst),
        parent_of(dst) matches Some(p) ==> tree_copy(src, dst)[0] matches TaskView::Must {
            action,
            ..
        } && action == ActionView::MakeDirs(p) && tree_copy(src, dst).len() == 2,
{
}

/// The hash of nothing is 5381, and a further byte is added to 33 times the hash
/// of those before it, in 32 bits.
pub proof fn hash_grows_byte_by_byte(s: Seq<u8>, b: u8)
    ensures
        djb2_of(Seq::empty()) == 5381,
        djb2_of(s.push(b)) == (33 * djb2_of(s) + b as nat) % 0x1_0000_0000,
        content_tag_of(s) == hex(djb2_of(s), 8),
{
    assert(s.push(b).drop_last() == s);
}

/// The cache tag of a payload is the name of the app, a hyphen, and the eight
/// hexadecimal digits of the payload's hash.
pub proof fn tags_are_name_and_hash(app: Seq<char>, payload: Seq<u8>)
    ensures
        tag_of(app, payload) == app + "-"@ + hex(djb2_of(payload), 8),
        tag_of(app, payload).len() == app.len() + 9,
{
    reveal_strlit("-");
    crate::text::lemma_hex_len(djb2_of(payload), 8);
}

/// The compressors are `gz`, `xz` and `zst`; each has its own flag for `tar` and
/// its own ending, and no other name stands for one.
pub proof fn compressors_are_told_by_name(kind: Seq<char>)
    ensures
        compressor(kind) == Ok::<Compression, Seq<char>>(Compression::Gz) <==> kind == "gz"@,
        compressor(kind) == Ok::<Compression, Seq<char>>(Compression::Xz) <==> kind == "xz"@,
        compressor(kind) == Ok::<Compression, Seq<char>>(Compression::Zst) <==> kind == "zst"@,
        compressor(kind) is Err <==> kind != "gz"@ && kind != "xz"@ && kind != "zst"@,
        Compression::Gz.flags() == seq!["-czf"@],
        Compression::Xz.flags() == seq!["-cJf"@],
        Compression::Zst.flags() == seq!["--zstd"@, "-cf"@],
        Compression::Gz.file_name() == "payload.tar.gz"@,
        Compression::Xz.file_name() == "payload.tar.xz"@,
        Compression::Zst.file_name() == "payload.tar.zst"@,
{
    reveal_strlit("gz");
    reveal_strlit("xz");
    reveal_strlit("zst");
    assert("gz"@[0] == 'g' && "xz"@[0] == 'x' && "zst"@[0] == 'z');
}

/// Compiling runs Gleam's export in the project, with the programs of the given
/// directory before others, and only then goes on to a staging area that holds
/// nothing of an earlier build.
pub proof fn compiling_exports_the_project(
    project: Seq<char>,
    app: Seq<char>,
    bin: Option<Seq<char>>,
)
    ensures
        ({
            let tasks = compile_tasks(project, app, bin);
            let staging = joined(project, "build/panini"@);
            &&& tasks.len() == 7
            &&& tasks[2] == (TaskView::Must {
                action: ActionView::Run(
                    InvocationView {
                        program: "gleam"@,
                        args: seq!["export"@, "erlang-shipment"@],
                        cwd: Some(project),
                        extra_path: bin,
                    },
                ),
                prefix: Seq::empty(),
                suffix: Seq::empty(),
            })
            &&& tasks[3] matches TaskView::Require { path, directory, .. } && path == joined(
                project,
                "build/erlang-shipment"@,
            ) && directory
            &&& tasks[4] == (TaskView::Try { action: ActionView::RemoveTree(staging) })
            &&& tasks[5] matches TaskView::Must { action, .. } && action == ActionView::MakeDirs(
                joined(staging, "payload"@),
            )
            &&& reuse_tasks(project, app).skip(2) == tasks.skip(3)
            &&& reuse_tasks(project, app).len() == 6
        }),
{
    assert(reuse_tasks(project, app).skip(2) == compile_tasks(project, app, bin).skip(3));
}

/// Into the payload go the emulator, the programs and the boot files of the
/// runtime, each library app under its own name, and the compiled code.
pub proof fn payload_is_runtime_and_code(
    project: Seq<char>,
    app: Seq<char>,
    runtime: RuntimeView,
    lib_apps: Seq<Seq<char>>,
    i: int,
)
    ensures
        ({
            let tasks = assemble_tasks(project, app, runtime, lib_apps);
            let payload = joined(joined(project, "build/panini"@), "payload"@);
            let otp = joined(payload, "otp"@);
            let (root, erts) = (runtime.root, runtime.erts);
            &&& tasks.contains(tree_copied(joined(root, erts), joined(otp, erts)))
            &&& tasks.contains(tree_copied(joined(root, "bin"@), joined(otp, "bin"@)))
            &&& tasks.contains(tree_copied(joined(root, "releases"@), joined(otp, "releases"@)))
            &&& 0 <= i < lib_apps.len() ==> tasks.contains(
                tree_copied(
                    lib_apps[i],
                    joined(joined(otp, "lib"@), crate::path::last_name(lib_apps[i])),
                ),
            )
            &&& tasks.contains(
                tree_copied(joined(project, "build/erlang-shipment"@), joined(payload, "app"@)),
            )
        }),
{
    let payload = payload_dir(project);
    let otp = joined(payload, "otp"@);
    let (root, erts) = (runtime.root, runtime.erts);
    let tasks = assemble_tasks(project, app, runtime, lib_apps);
    if 0 <= i < lib_apps.len() {
        crate::pipeline::every_lib_app_is_bundled(project, app, runtime, lib_apps, i);
    }
    crate::pipeline::script_boots_what_is_bundled(project, app, runtime, lib_apps);
    let emulator = tree_copy(joined(root, erts), joined(otp, erts));
    let programs = emulator + tree_copy(joined(root, "bin"@), joined(otp, "bin"@));
    assert(tasks[programs.len() - 1] == tree_copied(joined(root, "bin"@), joined(otp, "bin"@)));
}

/// The runtime and the code are packed apart, each directory into a file of its
/// own, behind everything that is copied and the boot script, and the runtime with
/// one time for all its files.
pub proof fn packs_hold_one_directory_each(
    project: Seq<char>,
    app: Seq<char>,
    runtime: RuntimeView,
    lib_apps: Seq<Seq<char>>,
)
    ensures
        ({
            let tasks = assemble_tasks(project, app, runtime, lib_apps);
            let payload = joined(joined(project, "build/panini"@), "payload"@);
            let script = boot_script_tasks(
                payload,
                app,
                runtime.erts,
                runtime.release,
                runtime.musl,
            );
            let n = tasks.len() - 4;
            &&& n >= script.len()
            &&& tasks.subrange(n - script.len(), n) == script
            &&& tasks[n] == (TaskView::Try {
                action: ActionView::Say(heading(3, "compressing payload"@)),
            })
            &&& tasks[n + 1] == (TaskView::Try {
                action: ActionView::Run(
                    InvocationView {
                        program: "find"@,
                        args: seq![
                            joined(payload, "otp"@),
                            "-exec"@,
                            "touch"@,
                            "-h"@,
                            "-t"@,
                            "200001010000"@,
                            "{}"@,
                            "+"@,
                        ],
                        cwd: None,
                        extra_path: None,
                    },
                ),
            })
            &&& tasks.contains(
                TaskView::Try {
                    action: ActionView::Say(
                        "     bundled "@ + runtime.erts + " + "@ + decimal(lib_apps.len())
                            + " OTP lib apps"@,
                    ),
                },
            )
            &&& tasks[tasks.len() - 2] == run(
                "tar"@,
                seq!["-cf"@, joined(payload, "rt.tar"@), "-C"@, payload, "otp"@],
                None,
            )
            &&& tasks[tasks.len() - 1] == run(
                "tar"@,
                seq!["-cf"@, joined(payload, "apps.tar"@), "-C"@, payload, "app"@],
                None,
            )
        }),
{
    let tasks = assemble_tasks(project, app, runtime, lib_apps);
    let payload = payload_dir(project);
    let otp = joined(payload, "otp"@);
    let (root, erts) = (runtime.root, runtime.erts);
    let script = boot_script_tasks(payload, app, erts, runtime.release, runtime.musl);
    let n = tasks.len() - 4;
    assert(tasks.subrange(n - script.len(), n) == script);
    let copies = tree_copy(joined(root, erts), joined(otp, erts)) + tree_copy(
        joined(root, "bin"@),
        joined(otp, "bin"@),
    ) + tree_copy(joined(root, "releases"@), joined(otp, "releases"@)) + lib_copies(
        otp,
        lib_apps,
        lib_apps.len() as int,
    );
    assert(tasks[copies.len() as int] == (TaskView::Try {
        action: ActionView::Say(
            "     bundled "@ + erts + " + "@ + decimal(lib_apps.len()) + " OTP lib apps"@,
        ),
    }));
}

/// The boot script stands at the top of the payload and can be run.
pub proof fn script_can_be_run(
    payload: Seq<char>,
    app: Seq<char>,
    runtime: RuntimeView,
)
    ensures
        ({
            let tasks = boot_script_tasks(
                payload,
                app,
                runtime.erts,
                runtime.release,
                runtime.musl,
            );
            let n = tasks.len() as int;
            let path = joined(payload, "run.sh"@);
            &&& n >= 2
            &&& tasks[n - 2] matches TaskView::Must { action, .. } && action
                == (ActionView::WriteText {
                path,
                text: boot_script(app, runtime.erts, runtime.release, hash_of(runtime.musl)),
            })
            &&& tasks[n - 1] matches TaskView::Must { action, .. } && action
                == ActionView::MakeExecutable(path)
            &&& runtime.musl matches Some(m) ==> hash_of(runtime.musl) == Some(m.hash) && (
            tasks[0] matches TaskView::Must { action, .. } && action == (ActionView::CopyFile {
                from: m.so,
                to: joined(payload, "libc-musl-"@ + m.hash + ".so"@),
            }))
            &&& runtime.musl is None ==> n == 2 && hash_of(runtime.musl) is None
        }),
{
}

/// The payload is packed with the compressor asked for, its tags beside its two
/// packs and without what these hold.
pub proof fn payload_is_packed_as_asked(
    project: Seq<char>,
    runtime_tag: Seq<char>,
    app_tag: Seq<char>,
    c: Compression,
)
    ensures
        ({
            let tasks = pack_tasks(project, runtime_tag, app_tag, c);
            let staging = joined(project, "build/panini"@);
            let payload = joined(staging, "payload"@);
            &&& tasks.len() == 5
            &&& tasks[0] matches TaskView::Must { action, .. } && action
                == (ActionView::WriteText { path: joined(payload, "rt.tag"@), text: runtime_tag })
            &&& tasks[1] matches TaskView::Must { action, .. } && action
                == (ActionView::WriteText { path: joined(payload, "apps.tag"@), text: app_tag })
            &&& tasks[2] matches TaskView::Must { action, .. } && action == ActionView::RemoveTree(
                joined(payload, "otp"@),
            )
            &&& tasks[3] matches TaskView::Must { action, .. } && action == ActionView::RemoveTree(
                joined(payload, "app"@),
            )
            &&& tasks[4] == run(
                "tar"@,
                c.flags() + seq![joined(staging, c.file_name()), "-C"@, staging, "payload"@],
                None,
            )
        }),
{
}

/// A payload is weighed in whole MB.
pub proof fn payloads_are_weighed_in_mb(mb: nat, rest: nat)
    requires
        rest < 1_048_576,
    ensures
        weigh_tasks(1_048_576 * mb + rest)[0] == (TaskView::Try {
            action: ActionView::Say("     payload: "@ + decimal(mb) + " MB"@),
        }),
{
    assert((1_048_576 * mb + rest) / 1_048_576 == mb);
}

/// A launcher is built for the triple given, by the Zig given, of the template's
/// sources and the payload given, under the tag of app and payload; then, and
/// only then, the binary is put where it is to go.
pub proof fn launchers_are_built_for_their_triple(l: LauncherView)
    ensures
        ({
            let tasks = launcher_tasks(l);
            let dir = joined(l.staging, "launcher"@);
            let src = joined(dir, "src"@);
            &&& tasks.len() == 10
            &&& tasks[0] matches TaskView::Require { path, .. } && path == joined(
                l.template,
                "build.zig"@,
            )
            &&& tasks[1] == (TaskView::Try { action: ActionView::RemoveTree(dir) })
            &&& tasks[2] matches TaskView::Must { action, .. } && action == ActionView::MakeDirs(
                src,
            )
            &&& tasks[3] matches TaskView::Must { action, .. } && action == (ActionView::CopyFile {
                from: joined(l.template, "build.zig"@),
                to: joined(dir, "build.zig"@),
            })
            &&& tasks[4] matches TaskView::Must { action, .. } && action == (ActionView::CopyFile {
                from: joined(l.template, "src/main.zig"@),
                to: joined(src, "main.zig"@),
            })
            &&& tasks[5] matches TaskView::Must { action, .. } && action == (ActionView::CopyFile {
                from: l.tarball,
                to: joined(src, "payload.tar.gz"@),
            })
            &&& tasks[6] matches TaskView::Must { action, .. } && action == (ActionView::WriteText {
                path: joined(src, "gen.zig"@),
                text: "pub const app_tag = \""@ + (l.app + "-"@ + hex(djb2_of(l.payload), 8))
                    + "\";\n"@,
            })
            &&& tasks[7] == run(
                l.zig,
                seq!["build"@, "-Dtarget="@ + l.triple, "-Doptimize=ReleaseFast"@],
                Some(dir),
            )
            &&& tasks[8] matches TaskView::Must { action, .. } && action == (ActionView::CopyFile {
                from: joined(dir, "zig-out/bin/panini-app"@),
                to: l.out,
            })
            &&& tasks[9] == (TaskView::Try { action: ActionView::MakeExecutable(l.out) })
        }),
{
}

/// What is said of a finished binary names where it is and how it is run.
pub proof fn finished_binaries_are_named(out: Seq<char>)
    ensures
        finish_tasks(out).len() == 2,
        finish_tasks(out)[0] matches TaskView::Try { action } && action matches ActionView::Say(t)
            && has_text(t, out),
        finish_tasks(out)[1] matches TaskView::Try { action } && action matches ActionView::Say(t)
            && has_text(t, crate::path::runnable(out)),
{
    let none = Seq::<char>::empty();
    let a = "\n\x1b[32m✓ done\x1b[0m  →  "@;
    let b = "  run it with nothing installed:  "@;
    assert(a + out == a + out + none);
    let r = crate::path::runnable(out);
    assert(b + r == b + r + none);
}

/// The heading of a step names the step, of four, and says what it is.
pub proof fn headings_count_the_steps(n: nat, msg: Seq<char>)
    ensures
        has_text(heading(n, msg), "["@ + decimal(n) + "/4]"@),
        has_text(heading(n, msg), msg),
{
    reveal_strlit("\x1b[36m[");
    reveal_strlit("\x1b[36m");
    reveal_strlit("[");
    reveal_strlit("/4]\x1b[0m ");
    reveal_strlit("/4]");
    reveal_strlit("\x1b[0m ");
    let a = "\x1b[36m"@;
    let b = "\x1b[0m "@;
    assert("\x1b[36m["@ == a + "["@);
    assert("/4]\x1b[0m "@ == "/4]"@ + b);
    let s = heading(n, msg);
    let rest = b + msg;
    assert(s == a + ("["@ + decimal(n) + "/4]"@) + rest);
    let front = "\x1b[36m["@ + decimal(n) + "/4]\x1b[0m "@;
    let none = Seq::<char>::empty();
    assert(s == front + msg + none);
}

/// A pressing begins by naming the app, whether it is compiled or its compiled
/// code is used again, and says which.
pub proof fn pressings_begin_with_the_app(
    project: Seq<char>,
    app: Seq<char>,
    bin: Option<Seq<char>>,
)
    ensures
        ({
            let first = compile_tasks(project, app, bin)[0];
            &&& first matches TaskView::Try { action } && (action matches ActionView::Say(text)
                && has_text(text, "pressing '"@ + app + "' into a single binary"@))
            &&& reuse_tasks(project, app)[0] == first
            &&& compile_tasks(project, app, bin)[1] == (TaskView::Try {
                action: ActionView::Say(heading(1, "gleam export erlang-shipment"@)),
            })
            &&& reuse_tasks(project, app)[1] == (TaskView::Try {
                action: ActionView::Say(heading(1, "reusing erlang-shipment"@)),
            })
        }),
{
    reveal_strlit("\x1b[1m🥪 panini\x1b[0m  pressing '");
    reveal_strlit("\x1b[1m🥪 panini\x1b[0m  ");
    reveal_strlit("pressing '");
    reveal_strlit("' into a single binary\n");
    reveal_strlit("' into a single binary");
    let a = "\x1b[1m🥪 panini\x1b[0m  "@;
    let p = "pressing '"@;
    let m = "' into a single binary"@;
    let z = seq!['\n'];
    assert("\x1b[1m🥪 panini\x1b[0m  pressing '"@ == a + p);
    assert("' into a single binary\n"@ == m + z);
    assert((a + p) + app + (m + z) == a + (p + app + m) + z);
    assert(has_text((a + p) + app + (m + z), p + app + m));
}

} // verus!
