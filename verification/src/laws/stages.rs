//! Promises on how a pressing goes on, and where it ends.

use vstd::prelude::*;

use crate::laws::press::cache_of;
use crate::otp::{erts_dir, musl_tasks, root_in, unpacked_dir};
use crate::path::{joined, last_name};
use crate::pipeline::{assemble_tasks, finish_tasks, pack_tasks, reuse_tasks, weigh_tasks};
use crate::plan::{ActionView, TaskView};
use crate::press::{need_at, stage_after, Got, NeedView, OrderView, StageView};
use crate::text::trimmed;

verus! {

/// Whether Zig can be had for a machine, where the machine has none of the right
/// version.
pub open spec fn has_zig_releases(arch: Seq<char>, os: Seq<char>) -> bool {
    (arch == "x86_64"@ || arch == "aarch64"@) && (os == "macos"@ || os == "linux"@)
}

/// Whether what a Zig says of itself is the version that is needed.
pub open spec fn is_right_version(version: Result<Seq<char>, Seq<char>>) -> bool {
    version is Ok && trimmed(version->Ok_0) == "0.16.0"@
}

/// Where the Zig that was downloaded for a machine is.
pub open spec fn zig_of(arch: Seq<char>, os: Seq<char>, home: Option<Seq<char>>) -> Seq<char> {
    let kept = match home {
        Some(h) => joined(h, ".cache/panini/zig"@),
        None => joined("/tmp"@, ".cache/panini/zig"@),
    };
    joined(joined(kept, "zig-"@ + arch + "-"@ + os + "-0.16.0"@), "zig"@)
}

pub proof fn lemma_zig_of(arch: Seq<char>, os: Seq<char>, home: Option<Seq<char>>)
    ensures
        crate::zig::cached_zig(arch, os, crate::zig::zig_cache(home)) == zig_of(arch, os, home),
{
    reveal_strlit("-");
    reveal_strlit("0.16.0");
    reveal_strlit("-0.16.0");
    assert("-0.16.0"@ == "-"@ + "0.16.0"@);
    let a = "zig-"@ + arch + "-"@ + os;
    assert(a + "-"@ + "0.16.0"@ == a + "-0.16.0"@);
}

/// Where the work of a stage is done, the pressing goes on with the next.
pub proof fn work_done_leads_on(o: OrderView, s: StageView)
    ensures
        ({
            let next = stage_after(o, s, Got::Work(Ok(())));
            let leads_to = |t: StageView| next == Ok::<StageView, Seq<char>>(t);
            let runtime = if o.job.otp is Some {
                StageView::Precompiled
            } else {
                StageView::HostRoot
            };
            &&& s is Toolchain ==> leads_to(StageView::ToolchainRoot)
            &&& s matches StageView::ToolchainMusl { root, .. } ==> leads_to(
                StageView::Compile { bin: Some(joined(root, "bin"@)) },
            )
            &&& s is Compile || s is Reuse ==> leads_to(runtime)
            &&& s is Precompiled ==> leads_to(StageView::PrecompiledRoot)
            &&& s matches StageView::Musl { runtime } ==> leads_to(StageView::Code { runtime })
            &&& s is Assemble ==> leads_to(StageView::RuntimePack)
            &&& s is Pack ==> leads_to(StageView::Payload)
            &&& s matches StageView::Weigh { payload } ==> leads_to(
                StageView::ZigVersion { payload },
            )
            &&& s matches StageView::Zig { payload, version } ==> is_right_version(version)
                ==> leads_to(StageView::Launcher { payload, zig: "zig"@ })
            &&& s matches StageView::Zig { payload, version } ==> !is_right_version(version)
                && has_zig_releases(o.arch, o.os) ==> leads_to(
                StageView::Launcher { payload, zig: zig_of(o.arch, o.os, o.home) },
            )
            &&& s is Launcher ==> leads_to(StageView::Finish)
            &&& s is Finish ==> leads_to(StageView::Done)
        }),
{
    lemma_zig_of(o.arch, o.os, o.home);
}

/// Where the work of a stage, an answer or a file is not to be had, the pressing
/// ends with the reason.
pub proof fn failures_end_a_pressing(o: OrderView, s: StageView, e: String)
    ensures
        s is Toolchain || s is ToolchainMusl || s is Compile || s is Reuse || s is Precompiled
            || s is Musl || s is Assemble || s is Pack || s is Weigh || s is Launcher || s is Finish
            ==> stage_after(o, s, Got::Work(Err(e))) == Err::<StageView, Seq<char>>(e@),
        s is Zig ==> stage_after(o, s, Got::Work(Err(e))) is Err,
        s is HostRoot || s is HostErts ==> stage_after(o, s, Got::Answer(Err(e))) == Err::<
            StageView,
            Seq<char>,
        >(e@),
        s is PrecompiledErts ==> stage_after(o, s, Got::Entries(Err(e))) is Err,
        s is Boot ==> stage_after(o, s, Got::Releases(Err(e))) is Err,
        s is Libc || s is ToolchainLibc ==> stage_after(o, s, Got::Text(Err(e))) is Err,
        s is RuntimePack || s is AppPack || s is Payload ==> stage_after(
            o,
            s,
            Got::Bytes(Err(e)),
        ) is Err,
        o.job.otp is Some && s is PrecompiledRoot ==> stage_after(o, s, Got::Nested(Err(e))) is Err,
{
}

/// A precompiled OTP is bundled from where it was unpacked for the target, with
/// the emulator that it holds.
pub proof fn precompiled_otp_is_bundled_from_its_place(
    o: OrderView,
    version: Seq<char>,
    got: Got,
    root: Seq<char>,
    path: Seq<char>,
)
    requires
        o.job.otp == Some(version),
    ensures
        got is Nested && root_in(
            unpacked_dir(version, o.job.target, cache_of(o.home)),
            got->Nested_0,
        ) == Ok::<Seq<char>, Seq<char>>(root) ==> stage_after(o, StageView::PrecompiledRoot, got)
            == Ok::<StageView, Seq<char>>(StageView::PrecompiledErts { root }),
        got is Entries && erts_dir(root, got->Entries_0) == Ok::<Seq<char>, Seq<char>>(path)
            ==> stage_after(o, StageView::PrecompiledErts { root }, got) == Ok::<
            StageView,
            Seq<char>,
        >(StageView::Boot { root, erts: last_name(path) }),
{
}

/// An OTP to compile with is the one unpacked for this machine; its own `bin`
/// comes first, and on Linux its libc is had before.
pub proof fn toolchain_is_that_of_this_machine(
    o: OrderView,
    version: Seq<char>,
    got: Got,
    root: Seq<char>,
)
    requires
        o.job.otp == Some(version),
        o.job.own_toolchain,
        o.host is Some,
        got is Nested,
        root_in(unpacked_dir(version, o.host->0, cache_of(o.home)), got->Nested_0) == Ok::<
            Seq<char>,
            Seq<char>,
        >(root),
    ensures
        stage_after(o, StageView::ToolchainRoot, got) == Ok::<StageView, Seq<char>>(
            if o.host->0.os@ == "linux"@ {
                StageView::ToolchainLibc { root }
            } else {
                StageView::Compile { bin: Some(joined(root, "bin"@)) }
            },
        ),
{
}

/// A pressing goes on to Zig on every machine that has the right one or that
/// there are releases for, and on no other.
pub proof fn zig_is_asked_for_where_it_can_be_had(
    o: OrderView,
    payload: Seq<u8>,
    a: Result<String, String>,
)
    ensures
        ({
            let version = crate::process::said(a);
            let next = stage_after(o, StageView::ZigVersion { payload }, Got::Answer(a));
            if is_right_version(version) || has_zig_releases(o.arch, o.os) {
                next == Ok::<StageView, Seq<char>>(StageView::Zig { payload, version })
            } else {
                next is Err
            }
        }),
{
}

/// What is read is kept, and the next stage comes.
pub proof fn what_is_read_is_kept(o: OrderView, s: StageView, bytes: Vec<u8>, files: Vec<String>)
    ensures
        s is RuntimePack ==> stage_after(o, s, Got::Bytes(Ok(bytes))) == Ok::<StageView, Seq<char>>(
            StageView::AppPack {
                runtime_tag: crate::text::hex(crate::pipeline::djb2_of(bytes@), 8),
            },
        ),
        s matches StageView::AppPack { runtime_tag } ==> stage_after(o, s, Got::Bytes(Ok(bytes)))
            == Ok::<StageView, Seq<char>>(
            StageView::Pack {
                runtime_tag,
                app_tag: crate::text::hex(crate::pipeline::djb2_of(bytes@), 8),
            },
        ),
        s is Payload ==> stage_after(o, s, Got::Bytes(Ok(bytes))) == Ok::<StageView, Seq<char>>(
            StageView::Weigh { payload: bytes@ },
        ),
        s matches StageView::Code { runtime } ==> stage_after(o, s, Got::AppFiles(files)) == Ok::<
            StageView,
            Seq<char>,
        >(StageView::Libs { runtime, app_files: crate::text::views(files@) }),
{
}

/// The work of a stage is that of the project, the app, the runtime and the
/// packing of the order.
pub proof fn work_is_that_of_the_order(o: OrderView, s: StageView)
    ensures
        s is Reuse ==> need_at(o, s) == NeedView::Work(reuse_tasks(o.project, o.app)),
        s matches StageView::Musl { runtime } ==> runtime.musl is Some ==> need_at(o, s)
            == NeedView::Work(musl_tasks(runtime.musl->0.hash, cache_of(o.home))),
        s matches StageView::ToolchainMusl { root, musl } ==> need_at(o, s) == NeedView::Work(
            musl_tasks(musl.hash, cache_of(o.home)) + seq![
                TaskView::Must {
                    action: ActionView::CopyFile {
                        from: musl.so,
                        to: "/tmp/"@ + ("libc-musl-"@ + musl.hash + ".so"@),
                    },
                    prefix: "install musl: "@,
                    suffix: Seq::empty(),
                },
                TaskView::Must {
                    action: ActionView::MakeExecutable(
                        "/tmp/"@ + ("libc-musl-"@ + musl.hash + ".so"@),
                    ),
                    prefix: "chmod musl: "@,
                    suffix: Seq::empty(),
                },
            ],
        ),
        s matches StageView::Assemble { runtime, lib_apps } ==> need_at(o, s) == NeedView::Work(
            assemble_tasks(o.project, o.app, runtime, lib_apps),
        ),
        s matches StageView::Pack { runtime_tag, app_tag } ==> need_at(o, s) == NeedView::Work(
            pack_tasks(o.project, runtime_tag, app_tag, o.compression),
        ),
        s matches StageView::Weigh { payload } ==> need_at(o, s) == NeedView::Work(
            weigh_tasks(payload.len()),
        ),
        s is Finish ==> need_at(o, s) == NeedView::Work(finish_tasks(o.job.output)),
        s is Done ==> need_at(o, s) is Nothing,
{
}

} // verus!
