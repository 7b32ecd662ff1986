//! Promises on the stages of a pressing.

use vstd::prelude::*;

use crate::laws::payload::{
    compiling_exports_the_project, launchers_are_built_for_their_triple, run,
};
use crate::laws::text::has_text;
use crate::otp::{archive_path, musl_named, precompiled_tasks, unpacked_dir};
use crate::path::{joined, last_name};
use crate::pipeline::djb2_of;
use crate::plan::{ActionView, TaskView};
use crate::press::{
    first_stage, need_at, runtime_stage, stage_after, Got, NeedView, OrderView, StageView,
};
use crate::process::{said, InvocationView};
use crate::target::{polite, Target};
use crate::text::{hex, views};

verus! {

/// Where downloads are kept.
pub open spec fn cache_of(home: Option<Seq<char>>) -> Seq<char> {
    match home {
        Some(h) => joined(h, ".cache/panini"@),
        None => joined("/tmp"@, ".cache/panini"@),
    }
}

/// Whether tasks hold one, somewhere.
pub open spec fn holds_task(need: NeedView, task: TaskView) -> bool {
    need matches NeedView::Work(tasks) && tasks.contains(task)
}

/// The launcher of every binary is compiled for the triple of its own target,
/// whatever machine it is built on, with the Zig that was had; it carries the
/// packed payload, under the tag of app and payload, and goes where the binary
/// is to go.
pub proof fn launcher_is_compiled_for_its_target(
    o: OrderView,
    payload: Seq<u8>,
    zig: Seq<char>,
    host: Option<Target>,
)
    ensures
        ({
            let need = need_at(o, StageView::Launcher { payload, zig });
            let dir = joined(joined(o.project, "build/panini"@), "launcher"@);
            let tarball = joined(joined(o.project, "build/panini"@), o.compression.file_name());
            &&& holds_task(
                need,
                run(
                    zig,
                    seq!["build"@, "-Dtarget="@ + o.job.target.zig@, "-Doptimize=ReleaseFast"@],
                    Some(dir),
                ),
            )
            &&& need matches NeedView::Work(tasks) && tasks.len() == 10 && (
            tasks[4] matches TaskView::Must { action, .. } && action matches ActionView::CopyFile {
                from,
                ..
            } && from == joined(o.template, "src/main.zig"@)) && (
            tasks[5] matches TaskView::Must { action, .. } && action matches ActionView::CopyFile {
                from,
                ..
            } && from == tarball) && (tasks[6] matches TaskView::Must { action, .. }
                && action matches ActionView::WriteText { text, .. } && has_text(
                text,
                o.app + "-"@ + hex(djb2_of(payload), 8),
            )) && (tasks[8] matches TaskView::Must { action, .. }
                && action matches ActionView::CopyFile { to, .. } && to == o.job.output)
            &&& need == need_at(OrderView { host, ..o }, StageView::Launcher { payload, zig })
        }),
{
    let l = crate::press::launcher_of(o, payload, zig);
    launchers_are_built_for_their_triple(l);
    let tasks = crate::pipeline::launcher_tasks(l);
    assert(tasks.contains(tasks[7]));
    let a = "pub const app_tag = \""@;
    let t = o.app + "-"@ + hex(djb2_of(payload), 8);
    let b = "\";\n"@;
    assert(has_text(a + t + b, t));
}

/// The OTP that is bundled is that of the version asked for and of the target,
/// whatever machine the binary is built on: it is downloaded from the place of
/// both, unless it is there. Where no version is asked for, it is the one that
/// the host's Erlang says is its own.
pub proof fn runtime_is_that_of_version_and_target(o: OrderView, host: Option<Target>)
    ensures
        match o.job.otp {
            Some(version) => {
                let t = o.job.target;
                let dir = joined(cache_of(o.home), "otp"@);
                let archive = joined(dir, t.archive(version));
                let url = t.archive_site(version) + t.archive(version) + polite();
                let need = need_at(o, runtime_stage(o));
                &&& need matches NeedView::Work(tasks) && tasks.len() == 8 && (
                tasks[1] matches TaskView::SkipIfExists { path, count } && path == archive && count
                    == 3) && (tasks[3] matches TaskView::Must { action, .. }
                    && action matches ActionView::Run(i) && i.program == "curl"@
                    && i.args.contains(url)) && (tasks[4] matches TaskView::Must { action, .. }
                    && action matches ActionView::Rename { to, .. } && to == archive) && (
                tasks[7] matches TaskView::Must { action, .. } && action matches ActionView::Run(i)
                    && i.program == "tar"@ && i.args.contains(archive))
                &&& need_at(o, StageView::PrecompiledRoot) matches NeedView::Nested(d)
                    && tasks_unpack_to(need, d)
            },
            None => need_at(o, runtime_stage(o)) matches NeedView::Answer(i) && i.program
                == "erl"@ && i.args == seq![
                "-noshell"@,
                "-eval"@,
                "io:format(\"~s\", [code:root_dir()]), halt()."@,
            ],
        },
        runtime_stage(o) == runtime_stage(OrderView { host, ..o }),
        need_at(o, runtime_stage(o)) == need_at(OrderView { host, ..o }, runtime_stage(o)),
        need_at(o, StageView::PrecompiledRoot) == need_at(
            OrderView { host, ..o },
            StageView::PrecompiledRoot,
        ),
{
    if let Some(version) = o.job.otp {
        let t = o.job.target;
        let tasks = precompiled_tasks(version, t, cache_of(o.home));
        let url = t.archive_site(version) + t.archive(version) + polite();
        let archive = archive_path(version, t, cache_of(o.home));
        let curl = tasks[3]->Must_action->Run_0;
        assert(curl.args[5] == url);
        let tar = tasks[7]->Must_action->Run_0;
        assert(tar.args[1] == archive);
        assert(tar.args[3] == unpacked_dir(version, t, cache_of(o.home)));
    }
}

/// Whether the last of the tasks needed unpacks to a directory.
pub open spec fn tasks_unpack_to(need: NeedView, dir: Seq<char>) -> bool {
    need matches NeedView::Work(tasks) && (tasks[7] matches TaskView::Must { action, .. }
        && action matches ActionView::Run(i) && i.args.len() == 4 && i.args[0] == "-xzf"@
        && i.args[2] == "-C"@ && i.args[3] == dir)
}

/// An app is compiled anew, unless its compiled code is used again: with an OTP
/// of its own where that was decided, downloaded for this machine, else with what
/// is on this machine.
pub proof fn apps_are_compiled_as_decided(o: OrderView, root: Seq<char>, bin: Option<Seq<char>>)
    ensures
        o.job.reuses_shipment ==> first_stage(o) is Reuse,
        !o.job.reuses_shipment && !(o.job.own_toolchain && o.job.otp is Some && o.host is Some)
            ==> first_stage(o) == (StageView::Compile { bin: None }),
        !o.job.reuses_shipment && o.job.own_toolchain && o.job.otp is Some && o.host is Some
            ==> first_stage(o) is Toolchain && need_at(o, first_stage(o)) == NeedView::Work(
            precompiled_tasks(o.job.otp->0, o.host->0, cache_of(o.home)),
        ) && need_at(o, StageView::ToolchainRoot) == NeedView::Nested(
            unpacked_dir(o.job.otp->0, o.host->0, cache_of(o.home)),
        ),
        need_at(o, StageView::Compile { bin }) matches NeedView::Work(tasks) && tasks.contains(
            TaskView::Must {
                action: ActionView::Run(
                    InvocationView {
                        program: "gleam"@,
                        args: seq!["export"@, "erlang-shipment"@],
                        cwd: Some(o.project),
                        extra_path: bin,
                    },
                ),
                prefix: Seq::empty(),
                suffix: Seq::empty(),
            },
        ),
{
    compiling_exports_the_project(o.project, o.app, bin);
    let tasks = crate::pipeline::compile_tasks(o.project, o.app, bin);
    assert(tasks.contains(tasks[2]));
}

/// What is asked for at each stage is what that stage is for.
pub proof fn needs_are_those_of_the_build(
    o: OrderView,
    s: StageView,
    root: Seq<char>,
    erts: Seq<char>,
    release: Seq<char>,
    tag: Seq<char>,
    payload: Seq<u8>,
)
    ensures
        need_at(o, StageView::HostErts { root }) matches NeedView::Answer(i) && i.program == "erl"@
            && i.args[2] == "io:format(\"~s\", [erlang:system_info(version)]), halt()."@,
        need_at(o, StageView::PrecompiledErts { root }) == NeedView::Entries(root),
        need_at(o, StageView::Boot { root, erts }) == NeedView::Releases(
            joined(root, "releases"@),
        ),
        need_at(o, StageView::ToolchainLibc { root }) == NeedView::Text(
            joined(root, "burrito_runtime_manifest.txt"@),
        ),
        need_at(o, StageView::Libc { root, erts, release }) == NeedView::Text(
            joined(root, "burrito_runtime_manifest.txt"@),
        ),
        need_at(o, StageView::RuntimePack) == NeedView::Bytes(
            joined(joined(joined(o.project, "build/panini"@), "payload"@), "rt.tar"@),
        ),
        need_at(o, StageView::AppPack { runtime_tag: tag }) == NeedView::Bytes(
            joined(joined(joined(o.project, "build/panini"@), "payload"@), "apps.tar"@),
        ),
        need_at(o, StageView::Payload) == NeedView::Bytes(
            joined(joined(o.project, "build/panini"@), o.compression.file_name()),
        ),
        need_at(o, StageView::ZigVersion { payload }) matches NeedView::Answer(i) && i.program
            == "zig"@ && i.args == seq!["version"@],
        s matches StageView::Code { runtime } ==> need_at(o, s) == NeedView::AppFiles(
            joined(o.project, "build/erlang-shipment"@),
        ),
        s matches StageView::Libs { runtime, app_files } ==> need_at(o, s) == NeedView::Entries(
            joined(runtime.root, "lib"@),
        ),
{
}

/// Whether something was done.
pub open spec fn is_done(got: Got) -> bool {
    got matches Got::Work(r) && r is Ok
}

/// No stage of a pressing is passed by: each is come to from the one before it
/// alone, by what that one needs, and what was had is kept.
pub proof fn no_stage_is_passed_by(o: OrderView, s: StageView, got: Got, t: StageView)
    requires
        stage_after(o, s, got) == Ok::<StageView, Seq<char>>(t),
        t != s,
    ensures
        t is Done ==> s is Finish && is_done(got),
        t is Finish ==> s is Launcher && is_done(got),
        t matches StageView::Launcher { payload, zig } ==> s matches StageView::Zig {
            payload: p,
            version,
        } && p == payload && is_done(got),
        t matches StageView::Zig { payload, version } ==> s == (StageView::ZigVersion { payload })
            && (got matches Got::Answer(a) && said(a) == version),
        t matches StageView::ZigVersion { payload } ==> s == (StageView::Weigh { payload })
            && is_done(got),
        t matches StageView::Weigh { payload } ==> s is Payload && (got matches Got::Bytes(r)
            && r matches Ok(b) && b@ == payload),
        t is Payload ==> s is Pack && is_done(got),
        t matches StageView::Pack { runtime_tag, app_tag } ==> s == (StageView::AppPack {
            runtime_tag,
        }) && (got matches Got::Bytes(r) && r matches Ok(b) && app_tag == hex(djb2_of(b@), 8)),
        t matches StageView::AppPack { runtime_tag } ==> s is RuntimePack && (
        got matches Got::Bytes(r) && r matches Ok(b) && runtime_tag == hex(djb2_of(b@), 8)),
        t is RuntimePack ==> s is Assemble && is_done(got),
        t matches StageView::Assemble { runtime, lib_apps } ==> s matches StageView::Libs {
            runtime: r,
            app_files,
        } && r == runtime,
        t matches StageView::Libs { runtime, app_files } ==> s == (StageView::Code { runtime }) && (
        got matches Got::AppFiles(v) && views(v@) == app_files),
        t matches StageView::Code { runtime } ==> s == (StageView::Musl { runtime }) && is_done(got)
            || (s matches StageView::Boot { root, erts } && runtime.root == root && runtime.erts
            == erts && runtime.musl is None),
        t matches StageView::Musl { runtime } ==> s matches StageView::Libc { root, erts, release }
            && runtime.root == root && runtime.erts == erts && runtime.release == release
            && runtime.musl is Some,
        t matches StageView::Libc { root, erts, release } ==> s == (StageView::Boot { root, erts }),
        t matches StageView::Boot { root, erts } ==> s == (StageView::HostErts { root }) || s == (
        StageView::PrecompiledErts { root }),
        t is HostRoot || t is Precompiled ==> (s is Compile || s is Reuse) && is_done(got),
        t is Compile ==> s is ToolchainRoot || s is ToolchainMusl && is_done(got),
        t is ToolchainRoot ==> s is Toolchain && is_done(got),
        t is PrecompiledRoot ==> s is Precompiled && is_done(got),
{
}

/// The library apps that are bundled are those that the `.app` files ask for, of
/// what the runtime's own library holds.
pub proof fn library_apps_are_those_asked_for(
    o: OrderView,
    s: StageView,
    got: Got,
)
    requires
        s is Libs,
        got is Entries,
    ensures
        stage_after(o, s, got) matches Ok(t) && t == (StageView::Assemble {
            runtime: s->Libs_runtime,
            lib_apps: crate::apps::lib_dirs(
                s->Libs_app_files,
                crate::listing::listed(got->Entries_0),
            ),
        }),
{
}

/// What the host's Erlang says of itself names its emulator.
pub proof fn host_emulator_is_named_by_its_version(o: OrderView, root: Seq<char>, version: String)
    ensures
        stage_after(o, StageView::HostErts { root }, Got::Answer(Ok(version))) == Ok::<
            StageView,
            Seq<char>,
        >(StageView::Boot { root, erts: "erts-"@ + version@ }),
        stage_after(o, StageView::HostRoot, Got::Answer(Ok(version))) == Ok::<
            StageView,
            Seq<char>,
        >(StageView::HostErts { root: version@ }),
{
}

/// A precompiled OTP for Linux is bundled and run with the musl libc whose hash its
/// manifest names; any other, and the host's own, with none.
pub proof fn libc_is_that_of_the_manifest(
    o: OrderView,
    root: Seq<char>,
    erts: Seq<char>,
    release: Seq<char>,
    text: Result<String, String>,
    hash: Seq<char>,
)
    requires
        musl_named(said(text)) == Ok::<Seq<char>, Seq<char>>(hash),
    ensures
        stage_after(o, StageView::Libc { root, erts, release }, Got::Text(text)) matches Ok(t)
            && t matches StageView::Musl { runtime } && runtime.musl matches Some(m) && m.hash
            == hash && m.so == joined(
            joined(cache_of(o.home), "musl"@),
            "libc-musl-"@ + hash + ".so"@,
        ),
        stage_after(o, StageView::ToolchainLibc { root }, Got::Text(text)) matches Ok(t)
            && t matches StageView::ToolchainMusl { root: r, musl } && r == root && musl.hash
            == hash,
{
}

/// Where the boot files are found, the release they are of goes into the runtime,
/// and a precompiled OTP for Linux is asked for its libc first.
pub proof fn boot_files_name_the_release(
    o: OrderView,
    root: Seq<char>,
    erts: Seq<char>,
    got: Got,
    path: Seq<char>,
)
    requires
        got is Releases,
        crate::otp::release_dir(root, got->Releases_0) == Ok::<Seq<char>, Seq<char>>(path),
    ensures
        stage_after(o, StageView::Boot { root, erts }, got) matches Ok(t) && if o.job.otp is Some
            && o.job.target.os@ == "linux"@ {
            t == (StageView::Libc { root, erts, release: last_name(path) })
        } else {
            t matches StageView::Code { runtime } && runtime.root == root && runtime.erts == erts
                && runtime.release == last_name(path) && runtime.musl is None
        },
{
}

} // verus!
