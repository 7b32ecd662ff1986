//! Pressing one binary: what is needed from outside at each stage, and which
//! stage what comes back leads to.

use vstd::prelude::*;

use crate::apps::{lib_dirs, needed_lib_apps};
use crate::listing::{listed, Listing};
use crate::otp::{
    cache_dir, cache_path, erl, erts_dir, erts_dir_name, erts_version, fetch_musl,
    find_erts_dir, find_release_dir, locate_root, manifest_path, musl_file, musl_in,
    musl_manifest, musl_named, musl_path, musl_plan, musl_tasks, needs_musl, precompiled_root,
    precompiled_tasks, release_dir, root_dir, root_in, unpacked_dir, Musl, MuslView, Nested,
    Release,
};
use crate::path::{base_name, join, joined, last_name};
use crate::pipeline::{
    app_pack, app_tar, assemble, assemble_tasks, boot_script, build_launcher, compile,
    compile_tasks, content_tag, content_tag_of, finish, finish_tasks, install_musl, is_native,
    job_for, launcher_tasks, musl_placement, pack_payload, pack_tasks, packed_payload, packing,
    payload_dir, reuse, reuse_tasks, runtime_and_app_are_packed_apart, runtime_pack,
    runtime_tar, script_boots_what_is_bundled, shipment, shipment_dir, staging, staging_dir,
    tarball, weigh, weigh_tasks, Compression, Job, JobView, LauncherView, RequestView, Runtime,
    RuntimeView,
};
use crate::plan::{must, runs, ActionView, Plan, TaskView};
use crate::process::{option_view, running, said, Invocation, InvocationView};
use crate::target::Target;
use crate::text::{view_of, views};
use crate::zig::{planned, resolution, resolve, version_query};

verus! {

/// A binary to press, what it is pressed from, and the machine it is pressed on.
pub struct Order {
    pub project: String,
    pub app: String,
    pub job: Job,
    pub compression: Compression,
    /// Where the launcher's own sources are.
    pub template: String,
    /// The target this machine is.
    pub host: Option<Target>,
    /// The names this machine's platform goes by.
    pub arch: String,
    pub os: String,
    pub home: Option<String>,
}

pub struct OrderView {
    pub project: Seq<char>,
    pub app: Seq<char>,
    pub job: JobView,
    pub compression: Compression,
    pub template: Seq<char>,
    pub host: Option<Target>,
    pub arch: Seq<char>,
    pub os: Seq<char>,
    pub home: Option<Seq<char>>,
}

impl View for Order {
    type V = OrderView;

    open spec fn view(&self) -> OrderView {
        OrderView {
            project: self.project@,
            app: self.app@,
            job: self.job@,
            compression: self.compression,
            template: self.template@,
            host: self.host,
            arch: self.arch@,
            os: self.os@,
            home: view_of(self.home),
        }
    }
}

/// How far a pressing is: what is to be done or had next.
pub enum Stage {
    /// The OTP to compile with, in the cache.
    Toolchain,
    /// Where in the cache its root is.
    ToolchainRoot,
    /// Which libc it needs to run here.
    ToolchainLibc { root: String },
    /// That libc, in its place.
    ToolchainMusl { root: String, musl: Musl },
    /// The compiled project, with these programs used before others.
    Compile { bin: Option<String> },
    /// A staging area, the project being compiled already.
    Reuse,
    /// The root of the host's own OTP, to bundle.
    HostRoot,
    /// The version of its emulator.
    HostErts { root: String },
    /// The OTP to bundle, in the cache.
    Precompiled,
    /// Where in the cache its root is.
    PrecompiledRoot,
    /// Its emulator.
    PrecompiledErts { root: String },
    /// Its boot files.
    Boot { root: String, erts: String },
    /// Which libc it needs to run.
    Libc { root: String, erts: String, release: String },
    /// That libc, in the cache.
    Musl { runtime: Runtime },
    /// What the compiled code says it needs.
    Code { runtime: Runtime },
    /// The library apps that it can have.
    Libs { runtime: Runtime, app_files: Vec<String> },
    /// What goes into the payload, the runtime and the app packed apart.
    Assemble { runtime: Runtime, lib_apps: Vec<String> },
    /// What the packed runtime holds.
    RuntimePack,
    /// What the packed app holds.
    AppPack { runtime_tag: String },
    /// The payload, packed.
    Pack { runtime_tag: String, app_tag: String },
    /// What the packed payload holds.
    Payload,
    /// That it is said how large it is.
    Weigh { payload: Vec<u8> },
    /// Which Zig the host has.
    ZigVersion { payload: Vec<u8> },
    /// A Zig to build with.
    Zig { payload: Vec<u8>, version: Result<String, String> },
    /// The launcher, in the place of the binary.
    Launcher { payload: Vec<u8>, zig: String },
    /// That the binary is shown.
    Finish,
    Done,
}

pub enum StageView {
    Toolchain,
    ToolchainRoot,
    ToolchainLibc { root: Seq<char> },
    ToolchainMusl { root: Seq<char>, musl: MuslView },
    Compile { bin: Option<Seq<char>> },
    Reuse,
    HostRoot,
    HostErts { root: Seq<char> },
    Precompiled,
    PrecompiledRoot,
    PrecompiledErts { root: Seq<char> },
    Boot { root: Seq<char>, erts: Seq<char> },
    Libc { root: Seq<char>, erts: Seq<char>, release: Seq<char> },
    Musl { runtime: RuntimeView },
    Code { runtime: RuntimeView },
    Libs { runtime: RuntimeView, app_files: Seq<Seq<char>> },
    Assemble { runtime: RuntimeView, lib_apps: Seq<Seq<char>> },
    RuntimePack,
    AppPack { runtime_tag: Seq<char> },
    Pack { runtime_tag: Seq<char>, app_tag: Seq<char> },
    Payload,
    Weigh { payload: Seq<u8> },
    ZigVersion { payload: Seq<u8> },
    Zig { payload: Seq<u8>, version: Result<Seq<char>, Seq<char>> },
    Launcher { payload: Seq<u8>, zig: Seq<char> },
    Finish,
    Done,
}

impl View for Stage {
    type V = StageView;

    open spec fn view(&self) -> StageView {
        match self {
            Stage::Toolchain => StageView::Toolchain,
            Stage::ToolchainRoot => StageView::ToolchainRoot,
            Stage::ToolchainLibc { root } => StageView::ToolchainLibc { root: root@ },
            Stage::ToolchainMusl { root, musl } => StageView::ToolchainMusl {
                root: root@,
                musl: musl@,
            },
            Stage::Compile { bin } => StageView::Compile { bin: view_of(*bin) },
            Stage::Reuse => StageView::Reuse,
            Stage::HostRoot => StageView::HostRoot,
            Stage::HostErts { root } => StageView::HostErts { root: root@ },
            Stage::Precompiled => StageView::Precompiled,
            Stage::PrecompiledRoot => StageView::PrecompiledRoot,
            Stage::PrecompiledErts { root } => StageView::PrecompiledErts { root: root@ },
            Stage::Boot { root, erts } => StageView::Boot { root: root@, erts: erts@ },
            Stage::Libc { root, erts, release } => StageView::Libc {
                root: root@,
                erts: erts@,
                release: release@,
            },
            Stage::Musl { runtime } => StageView::Musl { runtime: runtime@ },
            Stage::Code { runtime } => StageView::Code { runtime: runtime@ },
            Stage::Libs { runtime, app_files } => StageView::Libs {
                runtime: runtime@,
                app_files: views(app_files@),
            },
            Stage::Assemble { runtime, lib_apps } => StageView::Assemble {
                runtime: runtime@,
                lib_apps: views(lib_apps@),
            },
            Stage::RuntimePack => StageView::RuntimePack,
            Stage::AppPack { runtime_tag } => StageView::AppPack { runtime_tag: runtime_tag@ },
            Stage::Pack { runtime_tag, app_tag } => StageView::Pack {
                runtime_tag: runtime_tag@,
                app_tag: app_tag@,
            },
            Stage::Payload => StageView::Payload,
            Stage::Weigh { payload } => StageView::Weigh { payload: payload@ },
            Stage::ZigVersion { payload } => StageView::ZigVersion { payload: payload@ },
            Stage::Zig { payload, version } => StageView::Zig {
                payload: payload@,
                version: said(*version),
            },
            Stage::Launcher { payload, zig } => StageView::Launcher {
                payload: payload@,
                zig: zig@,
            },
            Stage::Finish => StageView::Finish,
            Stage::Done => StageView::Done,
        }
    }
}

/// What is needed from outside.
pub enum Need {
    /// That a plan is carried out.
    Work(Plan),
    /// What a program says.
    Answer(Invocation),
    /// What a directory holds.
    Entries(String),
    /// What a directory holds, and what each directory in it holds.
    Nested(String),
    /// The releases in a directory.
    Releases(String),
    /// The texts of the `.app` files in a directory and below it.
    AppFiles(String),
    /// The text in a file.
    Text(String),
    /// The bytes in a file.
    Bytes(String),
    /// Nothing: the binary is pressed.
    Nothing,
}

pub enum NeedView {
    Work(Seq<TaskView>),
    Answer(InvocationView),
    Entries(Seq<char>),
    Nested(Seq<char>),
    Releases(Seq<char>),
    AppFiles(Seq<char>),
    Text(Seq<char>),
    Bytes(Seq<char>),
    Nothing,
}

impl View for Need {
    type V = NeedView;

    open spec fn view(&self) -> NeedView {
        match self {
            Need::Work(plan) => NeedView::Work(plan@),
            Need::Answer(query) => NeedView::Answer(query@),
            Need::Entries(dir) => NeedView::Entries(dir@),
            Need::Nested(dir) => NeedView::Nested(dir@),
            Need::Releases(dir) => NeedView::Releases(dir@),
            Need::AppFiles(dir) => NeedView::AppFiles(dir@),
            Need::Text(path) => NeedView::Text(path@),
            Need::Bytes(path) => NeedView::Bytes(path@),
            Need::Nothing => NeedView::Nothing,
        }
    }
}

/// What came from outside: what was needed, or the reason why it did not.
pub enum Got {
    Work(Result<(), String>),
    Answer(Result<String, String>),
    Entries(Listing),
    Nested(Result<Vec<Nested>, String>),
    Releases(Result<Vec<Release>, String>),
    AppFiles(Vec<String>),
    Text(Result<String, String>),
    Bytes(Result<Vec<u8>, String>),
}

/// Whether the app is to be compiled with an OTP of its own, and for which
/// version on which machine.
pub open spec fn toolchain_of(o: OrderView) -> Option<(Seq<char>, Target)> {
    match (o.job.own_toolchain, o.job.otp, o.host) {
        (true, Some(version), Some(host)) => Some((version, host)),
        _ => None,
    }
}

/// The stage a pressing starts at.
pub open spec fn first_stage(o: OrderView) -> StageView {
    if o.job.reuses_shipment {
        StageView::Reuse
    } else if toolchain_of(o) is Some {
        StageView::Toolchain
    } else {
        StageView::Compile { bin: None }
    }
}

/// The stage at which the OTP to bundle is asked for.
pub open spec fn runtime_stage(o: OrderView) -> StageView {
    match o.job.otp {
        Some(_) => StageView::Precompiled,
        None => StageView::HostRoot,
    }
}

/// The launcher of an order, for a payload and a Zig.
pub open spec fn launcher_of(o: OrderView, payload: Seq<u8>, zig: Seq<char>) -> LauncherView {
    LauncherView {
        template: o.template,
        staging: staging_dir(o.project),
        tarball: packed_payload(o.project, o.compression),
        payload,
        app: o.app,
        zig,
        triple: o.job.target.zig@,
        out: o.job.output,
    }
}

/// What is needed at a stage.
pub open spec fn need_at(o: OrderView, s: StageView) -> NeedView {
    let cache = cache_path(o.home);
    match s {
        StageView::Toolchain => match toolchain_of(o) {
            Some((version, host)) => NeedView::Work(precompiled_tasks(version, host, cache)),
            None => NeedView::Nothing,
        },
        StageView::ToolchainRoot => match toolchain_of(o) {
            Some((version, host)) => NeedView::Nested(unpacked_dir(version, host, cache)),
            None => NeedView::Nothing,
        },
        StageView::ToolchainLibc { root } => NeedView::Text(manifest_path(root)),
        StageView::ToolchainMusl { root, musl } => NeedView::Work(
            musl_tasks(musl.hash, cache) + musl_placement(musl.so, musl.hash),
        ),
        StageView::Compile { bin } => NeedView::Work(compile_tasks(o.project, o.app, bin)),
        StageView::Reuse => NeedView::Work(reuse_tasks(o.project, o.app)),
        StageView::HostRoot => NeedView::Answer(
            erl("io:format(\"~s\", [code:root_dir()]), halt()."@),
        ),
        StageView::HostErts { root } => NeedView::Answer(
            erl("io:format(\"~s\", [erlang:system_info(version)]), halt()."@),
        ),
        StageView::Precompiled => match o.job.otp {
            Some(version) => NeedView::Work(precompiled_tasks(version, o.job.target, cache)),
            None => NeedView::Nothing,
        },
        StageView::PrecompiledRoot => match o.job.otp {
            Some(version) => NeedView::Nested(unpacked_dir(version, o.job.target, cache)),
            None => NeedView::Nothing,
        },
        StageView::PrecompiledErts { root } => NeedView::Entries(root),
        StageView::Boot { root, erts } => NeedView::Releases(joined(root, "releases"@)),
        StageView::Libc { root, erts, release } => NeedView::Text(manifest_path(root)),
        StageView::Musl { runtime } => match runtime.musl {
            Some(musl) => NeedView::Work(musl_tasks(musl.hash, cache)),
            None => NeedView::Nothing,
        },
        StageView::Code { runtime } => NeedView::AppFiles(shipment_dir(o.project)),
        StageView::Libs { runtime, app_files } => NeedView::Entries(joined(runtime.root, "lib"@)),
        StageView::Assemble { runtime, lib_apps } => NeedView::Work(
            assemble_tasks(o.project, o.app, runtime, lib_apps),
        ),
        StageView::RuntimePack => NeedView::Bytes(runtime_pack(o.project)),
        StageView::AppPack { runtime_tag } => NeedView::Bytes(app_pack(o.project)),
        StageView::Pack { runtime_tag, app_tag } => NeedView::Work(
            pack_tasks(o.project, runtime_tag, app_tag, o.compression),
        ),
        StageView::Payload => NeedView::Bytes(packed_payload(o.project, o.compression)),
        StageView::Weigh { payload } => NeedView::Work(weigh_tasks(payload.len())),
        StageView::ZigVersion { payload } => NeedView::Answer(
            running("zig"@, seq!["version"@], None),
        ),
        StageView::Zig { payload, version } => match resolution(version, o.arch, o.os, o.home) {
            Ok((tasks, zig)) => NeedView::Work(tasks),
            Err(_) => NeedView::Nothing,
        },
        StageView::Launcher { payload, zig } => NeedView::Work(
            launcher_tasks(launcher_of(o, payload, zig)),
        ),
        StageView::Finish => NeedView::Work(finish_tasks(o.job.output)),
        StageView::Done => NeedView::Nothing,
    }
}

/// Going on where something worked, else ending with the reason.
pub open spec fn if_worked(r: Result<(), String>, next: StageView) -> Result<
    StageView,
    Seq<char>,
> {
    match r {
        Ok(_) => Ok(next),
        Err(e) => Err(e@),
    }
}

/// The stage behind the finding of the root of the OTP to compile with: where it
/// is linked against a musl libc, that comes first.
pub open spec fn with_toolchain(host: Target, root: Seq<char>) -> StageView {
    if host.os@ == "linux"@ {
        StageView::ToolchainLibc { root }
    } else {
        StageView::Compile { bin: Some(joined(root, "bin"@)) }
    }
}

/// The stage behind the finding of the boot files: where the OTP to bundle is
/// linked against a musl libc, that comes first.
pub open spec fn with_release(
    o: OrderView,
    root: Seq<char>,
    erts: Seq<char>,
    release: Seq<char>,
) -> StageView {
    if o.job.otp is Some && o.job.target.os@ == "linux"@ {
        StageView::Libc { root, erts, release }
    } else {
        StageView::Code { runtime: RuntimeView { root, erts, release, musl: None } }
    }
}

/// The stage that what was needed leads to, or the error that a pressing ends
/// with. Anything else that comes is passed over.
pub open spec fn stage_after(o: OrderView, s: StageView, got: Got) -> Result<
    StageView,
    Seq<char>,
> {
    let cache = cache_path(o.home);
    match (s, got) {
        (StageView::Toolchain, Got::Work(r)) => if_worked(r, StageView::ToolchainRoot),
        (StageView::ToolchainRoot, Got::Nested(held)) => match toolchain_of(o) {
            Some((version, host)) => match root_in(unpacked_dir(version, host, cache), held) {
                Ok(root) => Ok(with_toolchain(host, root)),
                Err(e) => Err(e),
            },
            None => Ok(s),
        },
        (StageView::ToolchainLibc { root }, Got::Text(text)) => match musl_named(said(text)) {
            Ok(hash) => Ok(StageView::ToolchainMusl { root, musl: musl_in(hash, cache) }),
            Err(e) => Err(e),
        },
        (StageView::ToolchainMusl { root, musl }, Got::Work(r)) => if_worked(
            r,
            StageView::Compile { bin: Some(joined(root, "bin"@)) },
        ),
        (StageView::Compile { bin }, Got::Work(r)) => if_worked(r, runtime_stage(o)),
        (StageView::Reuse, Got::Work(r)) => if_worked(r, runtime_stage(o)),
        (StageView::HostRoot, Got::Answer(a)) => match said(a) {
            Ok(root) => Ok(StageView::HostErts { root }),
            Err(e) => Err(e),
        },
        (StageView::HostErts { root }, Got::Answer(a)) => match said(a) {
            Ok(version) => Ok(StageView::Boot { root, erts: "erts-"@ + version }),
            Err(e) => Err(e),
        },
        (StageView::Precompiled, Got::Work(r)) => if_worked(r, StageView::PrecompiledRoot),
        (StageView::PrecompiledRoot, Got::Nested(held)) => match o.job.otp {
            Some(version) => match root_in(unpacked_dir(version, o.job.target, cache), held) {
                Ok(root) => Ok(StageView::PrecompiledErts { root }),
                Err(e) => Err(e),
            },
            None => Ok(s),
        },
        (StageView::PrecompiledErts { root }, Got::Entries(listing)) => match erts_dir(
            root,
            listing,
        ) {
            Ok(path) => Ok(StageView::Boot { root, erts: last_name(path) }),
            Err(e) => Err(e),
        },
        (StageView::Boot { root, erts }, Got::Releases(releases)) => match release_dir(
            root,
            releases,
        ) {
            Ok(path) => Ok(with_release(o, root, erts, last_name(path))),
            Err(e) => Err(e),
        },
        (StageView::Libc { root, erts, release }, Got::Text(text)) => match musl_named(said(text)) {
            Ok(hash) => Ok(
                StageView::Musl {
                    runtime: RuntimeView {
                        root,
                        erts,
                        release,
                        musl: Some(musl_in(hash, cache)),
                    },
                },
            ),
            Err(e) => Err(e),
        },
        (StageView::Musl { runtime }, Got::Work(r)) => if_worked(r, StageView::Code { runtime }),
        (StageView::Code { runtime }, Got::AppFiles(files)) => Ok(
            StageView::Libs { runtime, app_files: views(files@) },
        ),
        (StageView::Libs { runtime, app_files }, Got::Entries(listing)) => Ok(
            StageView::Assemble { runtime, lib_apps: lib_dirs(app_files, listed(listing)) },
        ),
        (StageView::Assemble { runtime, lib_apps }, Got::Work(r)) => if_worked(
            r,
            StageView::RuntimePack,
        ),
        (StageView::RuntimePack, Got::Bytes(bytes)) => match bytes {
            Ok(pack) => Ok(StageView::AppPack { runtime_tag: content_tag_of(pack@) }),
            Err(e) => Err("read runtime pack: "@ + e@),
        },
        (StageView::AppPack { runtime_tag }, Got::Bytes(bytes)) => match bytes {
            Ok(pack) => Ok(StageView::Pack { runtime_tag, app_tag: content_tag_of(pack@) }),
            Err(e) => Err("read app pack: "@ + e@),
        },
        (StageView::Pack { runtime_tag, app_tag }, Got::Work(r)) => if_worked(
            r,
            StageView::Payload,
        ),
        (StageView::Payload, Got::Bytes(bytes)) => match bytes {
            Ok(payload) => Ok(StageView::Weigh { payload: payload@ }),
            Err(e) => Err("read tarball: "@ + e@),
        },
        (StageView::Weigh { payload }, Got::Work(r)) => if_worked(
            r,
            StageView::ZigVersion { payload },
        ),
        (StageView::ZigVersion { payload }, Got::Answer(version)) => match resolution(
            said(version),
            o.arch,
            o.os,
            o.home,
        ) {
            Ok(_) => Ok(StageView::Zig { payload, version: said(version) }),
            Err(e) => Err(e),
        },
        (StageView::Zig { payload, version }, Got::Work(r)) => match resolution(
            version,
            o.arch,
            o.os,
            o.home,
        ) {
            Ok((tasks, zig)) => if_worked(r, StageView::Launcher { payload, zig }),
            Err(e) => Err(e),
        },
        (StageView::Launcher { payload, zig }, Got::Work(r)) => if_worked(r, StageView::Finish),
        (StageView::Finish, Got::Work(r)) => if_worked(r, StageView::Done),
        _ => Ok(s),
    }
}

/// A binary on its way.
pub struct Press {
    pub order: Order,
    pub stage: Stage,
}

/// How far a pressing is, or the error it ended with.
pub open spec fn stage_view(r: Result<Stage, String>) -> Result<StageView, Seq<char>> {
    match r {
        Ok(s) => Ok(s@),
        Err(e) => Err(e@),
    }
}

fn worked(r: Result<(), String>, next: Stage) -> (s: Result<Stage, String>)
    ensures
        stage_view(s) == if_worked(r, next@),
{
    match r {
        Ok(_) => Ok(next),
        Err(e) => Err(e),
    }
}

fn text_of(s: &Option<String>) -> (r: Option<&str>)
    ensures
        option_view(r) == view_of(*s),
{
    match s {
        Some(t) => Some(t.as_str()),
        None => None,
    }
}

impl Order {
    fn cache(&self) -> (dir: String)
        ensures
            dir@ == cache_path(self@.home),
    {
        cache_dir(text_of(&self.home))
    }

    fn toolchain(&self) -> (r: Option<(&str, Target)>)
        ensures
            match r {
                Some((version, host)) => toolchain_of(self@) == Some((version@, host)),
                None => toolchain_of(self@) is None,
            },
    {
        match (&self.job.otp, self.host) {
            (Some(version), Some(host)) => if self.job.own_toolchain {
                Some((version.as_str(), host))
            } else {
                None
            },
            _ => None,
        }
    }

    fn runtime_stage(&self) -> (s: Stage)
        ensures
            s@ == runtime_stage(self@),
    {
        match &self.job.otp {
            Some(_) => Stage::Precompiled,
            None => Stage::HostRoot,
        }
    }

    fn zig(&self, version: &Result<String, String>) -> (r: Result<(Plan, String), String>)
        ensures
            planned(r) == resolution(
                said(*version),
                self@.arch,
                self@.os,
                self@.home,
            ),
    {
        resolve(version, self.arch.as_str(), self.os.as_str(), text_of(&self.home))
    }
}

impl Press {
    /// Start on a binary.
    pub fn new(order: Order) -> (press: Press)
        ensures
            press.order == order,
            press.stage@ == first_stage(order@),
    {
        let stage = if order.job.reuses_shipment {
            Stage::Reuse
        } else if order.toolchain().is_some() {
            Stage::Toolchain
        } else {
            Stage::Compile { bin: None }
        };
        Press { order, stage }
    }

    /// What is needed next.
    pub fn need(&self) -> (need: Need)
        ensures
            need@ == need_at(self.order@, self.stage@),
    {
        let o = &self.order;
        let project = o.project.as_str();
        let app = o.app.as_str();
        let cache = o.cache();
        match &self.stage {
            Stage::Toolchain => match o.toolchain() {
                Some((version, host)) => Need::Work(
                    precompiled_root(version, &host, cache.as_str()).0,
                ),
                None => Need::Nothing,
            },
            Stage::ToolchainRoot => match o.toolchain() {
                Some((version, host)) => Need::Nested(
                    precompiled_root(version, &host, cache.as_str()).1,
                ),
                None => Need::Nothing,
            },
            Stage::ToolchainLibc { root } => Need::Text(musl_manifest(root.as_str())),
            Stage::ToolchainMusl { root, musl } => {
                let mut plan = musl_plan(musl.hash.as_str(), cache.as_str());
                plan.add_all(install_musl(musl));
                Need::Work(plan)
            },
            Stage::Compile { bin } => Need::Work(compile(project, app, text_of(bin))),
            Stage::Reuse => Need::Work(reuse(project, app)),
            Stage::HostRoot => Need::Answer(root_dir()),
            Stage::HostErts { root } => Need::Answer(erts_version()),
            Stage::Precompiled => match &o.job.otp {
                Some(version) => Need::Work(
                    precompiled_root(version.as_str(), &o.job.target, cache.as_str()).0,
                ),
                None => Need::Nothing,
            },
            Stage::PrecompiledRoot => match &o.job.otp {
                Some(version) => Need::Nested(
                    precompiled_root(version.as_str(), &o.job.target, cache.as_str()).1,
                ),
                None => Need::Nothing,
            },
            Stage::PrecompiledErts { root } => Need::Entries(root.clone()),
            Stage::Boot { root, erts } => Need::Releases(join(root.as_str(), "releases")),
            Stage::Libc { root, erts, release } => Need::Text(musl_manifest(root.as_str())),
            Stage::Musl { runtime } => match &runtime.musl {
                Some(musl) => Need::Work(musl_plan(musl.hash.as_str(), cache.as_str())),
                None => Need::Nothing,
            },
            Stage::Code { runtime } => Need::AppFiles(shipment(project)),
            Stage::Libs { runtime, app_files } => Need::Entries(
                join(runtime.root.as_str(), "lib"),
            ),
            Stage::Assemble { runtime, lib_apps } => Need::Work(
                assemble(project, app, runtime, lib_apps),
            ),
            Stage::RuntimePack => Need::Bytes(runtime_tar(project)),
            Stage::AppPack { runtime_tag } => Need::Bytes(app_tar(project)),
            Stage::Pack { runtime_tag, app_tag } => Need::Work(
                pack_payload(project, runtime_tag.as_str(), app_tag.as_str(), o.compression),
            ),
            Stage::Payload => Need::Bytes(tarball(project, o.compression)),
            Stage::Weigh { payload } => Need::Work(weigh(payload.len() as u64)),
            Stage::ZigVersion { payload } => Need::Answer(version_query()),
            Stage::Zig { payload, version } => match o.zig(version) {
                Ok((plan, zig)) => Need::Work(plan),
                Err(_) => Need::Nothing,
            },
            Stage::Launcher { payload, zig } => Need::Work(
                build_launcher(
                    staging(project).as_str(),
                    tarball(project, o.compression).as_str(),
                    app,
                    payload.as_slice(),
                    o.job.output.as_str(),
                    o.template.as_str(),
                    zig.as_str(),
                    &o.job.target,
                ),
            ),
            Stage::Finish => Need::Work(finish(o.job.output.as_str())),
            Stage::Done => Need::Nothing,
        }
    }

    /// Go on with what was needed, or end with the reason why it was not to be
    /// had. Anything else that comes is passed over: the same is needed still.
    pub fn advance(self, got: Got) -> (next: Result<Press, String>)
        ensures
            match stage_after(self.order@, self.stage@, got) {
                Ok(s) => next is Ok && next->Ok_0.order == self.order && next->Ok_0.stage@ == s,
                Err(e) => next is Err && next->Err_0@ == e,
            },
    {
        let order = self.order;
        match next_stage(&order, self.stage, got) {
            Ok(stage) => Ok(Press { order, stage }),
            Err(e) => Err(e),
        }
    }
}

fn not_read(prefix: &str, reason: &str) -> (e: String)
    ensures
        e@ == prefix@ + reason@,
{
    let mut e = prefix.to_owned();
    e.append(reason);
    e
}

fn next_stage(o: &Order, stage: Stage, got: Got) -> (next: Result<Stage, String>)
    ensures
        stage_view(next) == stage_after(o@, stage@, got),
{
    match (stage, got) {
        (Stage::Toolchain, Got::Work(r)) => worked(r, Stage::ToolchainRoot),
        (Stage::ToolchainRoot, Got::Nested(held)) => match o.toolchain() {
            Some((version, host)) => {
                let dir = precompiled_root(version, &host, o.cache().as_str()).1;
                let root = match locate_root(dir.as_str(), &held) {
                    Ok(root) => root,
                    Err(e) => {
                        return Err(e);
                    },
                };
                if needs_musl(&host) {
                    Ok(Stage::ToolchainLibc { root })
                } else {
                    Ok(Stage::Compile { bin: Some(join(root.as_str(), "bin")) })
                }
            },
            None => Ok(Stage::ToolchainRoot),
        },
        (Stage::ToolchainLibc { root }, Got::Text(text)) => match fetch_musl(
            &text,
            o.cache().as_str(),
        ) {
            Ok((plan, musl)) => Ok(Stage::ToolchainMusl { root, musl }),
            Err(e) => Err(e),
        },
        (Stage::ToolchainMusl { root, musl }, Got::Work(r)) => {
            let bin = join(root.as_str(), "bin");
            worked(r, Stage::Compile { bin: Some(bin) })
        },
        (Stage::Compile { bin }, Got::Work(r)) => worked(r, o.runtime_stage()),
        (Stage::Reuse, Got::Work(r)) => worked(r, o.runtime_stage()),
        (Stage::HostRoot, Got::Answer(a)) => match a {
            Ok(root) => Ok(Stage::HostErts { root }),
            Err(e) => Err(e),
        },
        (Stage::HostErts { root }, Got::Answer(a)) => match a {
            Ok(version) => Ok(Stage::Boot { root, erts: erts_dir_name(version.as_str()) }),
            Err(e) => Err(e),
        },
        (Stage::Precompiled, Got::Work(r)) => worked(r, Stage::PrecompiledRoot),
        (Stage::PrecompiledRoot, Got::Nested(held)) => match &o.job.otp {
            Some(version) => {
                let dir = precompiled_root(
                    version.as_str(),
                    &o.job.target,
                    o.cache().as_str(),
                ).1;
                match locate_root(dir.as_str(), &held) {
                    Ok(root) => Ok(Stage::PrecompiledErts { root }),
                    Err(e) => Err(e),
                }
            },
            None => Ok(Stage::PrecompiledRoot),
        },
        (Stage::PrecompiledErts { root }, Got::Entries(listing)) => match find_erts_dir(
            root.as_str(),
            &listing,
        ) {
            Ok(path) => Ok(Stage::Boot { root, erts: base_name(path.as_str()) }),
            Err(e) => Err(e),
        },
        (Stage::Boot { root, erts }, Got::Releases(releases)) => match find_release_dir(
            root.as_str(),
            &releases,
        ) {
            Ok(path) => {
                let release = base_name(path.as_str());
                if o.job.otp.is_some() && needs_musl(&o.job.target) {
                    Ok(Stage::Libc { root, erts, release })
                } else {
                    Ok(Stage::Code { runtime: Runtime { root, erts, release, musl: None } })
                }
            },
            Err(e) => Err(e),
        },
        (Stage::Libc { root, erts, release }, Got::Text(text)) => match fetch_musl(
            &text,
            o.cache().as_str(),
        ) {
            Ok((plan, musl)) => Ok(
                Stage::Musl { runtime: Runtime { root, erts, release, musl: Some(musl) } },
            ),
            Err(e) => Err(e),
        },
        (Stage::Musl { runtime }, Got::Work(r)) => worked(r, Stage::Code { runtime }),
        (Stage::Code { runtime }, Got::AppFiles(app_files)) => Ok(
            Stage::Libs { runtime, app_files },
        ),
        (Stage::Libs { runtime, app_files }, Got::Entries(listing)) => {
            let lib_apps = needed_lib_apps(&app_files, &listing);
            Ok(Stage::Assemble { runtime, lib_apps })
        },
        (Stage::Assemble { runtime, lib_apps }, Got::Work(r)) => worked(r, Stage::RuntimePack),
        (Stage::RuntimePack, Got::Bytes(bytes)) => match bytes {
            Ok(pack) => Ok(Stage::AppPack { runtime_tag: content_tag(pack.as_slice()) }),
            Err(reason) => Err(not_read("read runtime pack: ", reason.as_str())),
        },
        (Stage::AppPack { runtime_tag }, Got::Bytes(bytes)) => match bytes {
            Ok(pack) => {
                let app_tag = content_tag(pack.as_slice());
                Ok(Stage::Pack { runtime_tag, app_tag })
            },
            Err(reason) => Err(not_read("read app pack: ", reason.as_str())),
        },
        (Stage::Pack { runtime_tag, app_tag }, Got::Work(r)) => worked(r, Stage::Payload),
        (Stage::Payload, Got::Bytes(bytes)) => match bytes {
            Ok(payload) => Ok(Stage::Weigh { payload }),
            Err(reason) => Err(not_read("read tarball: ", reason.as_str())),
        },
        (Stage::Weigh { payload }, Got::Work(r)) => worked(r, Stage::ZigVersion { payload }),
        (Stage::ZigVersion { payload }, Got::Answer(version)) => match o.zig(&version) {
            Ok(_) => Ok(Stage::Zig { payload, version }),
            Err(e) => Err(e),
        },
        (Stage::Zig { payload, version }, Got::Work(r)) => match o.zig(&version) {
            Ok((plan, zig)) => worked(r, Stage::Launcher { payload, zig }),
            Err(e) => Err(e),
        },
        (Stage::Launcher { payload, zig }, Got::Work(r)) => worked(r, Stage::Finish),
        (Stage::Finish, Got::Work(r)) => worked(r, Stage::Done),
        (same, _) => Ok(same),
    }
}

/// A measure of how much is behind.
pub open spec fn progress(s: StageView) -> int {
    match s {
        StageView::Toolchain => 0,
        StageView::ToolchainRoot => 1,
        StageView::ToolchainLibc { .. } => 2,
        StageView::ToolchainMusl { .. } => 3,
        StageView::Compile { .. } => 4,
        StageView::Reuse => 4,
        StageView::HostRoot => 5,
        StageView::HostErts { .. } => 6,
        StageView::Precompiled => 5,
        StageView::PrecompiledRoot => 6,
        StageView::PrecompiledErts { .. } => 7,
        StageView::Boot { .. } => 8,
        StageView::Libc { .. } => 9,
        StageView::Musl { .. } => 10,
        StageView::Code { .. } => 11,
        StageView::Libs { .. } => 12,
        StageView::Assemble { .. } => 13,
        StageView::RuntimePack => 14,
        StageView::AppPack { .. } => 15,
        StageView::Pack { .. } => 16,
        StageView::Payload => 17,
        StageView::Weigh { .. } => 18,
        StageView::ZigVersion { .. } => 19,
        StageView::Zig { .. } => 20,
        StageView::Launcher { .. } => 21,
        StageView::Finish => 22,
        StageView::Done => 23,
    }
}

/// Being an answer to what is needed.
pub open spec fn is_needed(need: NeedView, got: Got) -> bool {
    match need {
        NeedView::Work(_) => got is Work,
        NeedView::Answer(_) => got is Answer,
        NeedView::Entries(_) => got is Entries,
        NeedView::Nested(_) => got is Nested,
        NeedView::Releases(_) => got is Releases,
        NeedView::AppFiles(_) => got is AppFiles,
        NeedView::Text(_) => got is Text,
        NeedView::Bytes(_) => got is Bytes,
        NeedView::Nothing => false,
    }
}

/// Whether the OTP that is bundled is linked against a musl libc.
pub open spec fn carries_libc(o: OrderView) -> bool {
    o.job.otp is Some && o.job.target.os@ == "linux"@
}

/// What holds at every stage that a pressing comes to.
pub open spec fn can_come_to(o: OrderView, s: StageView) -> bool {
    match s {
        StageView::Toolchain => toolchain_of(o) is Some,
        StageView::ToolchainRoot => toolchain_of(o) is Some,
        StageView::Precompiled => o.job.otp is Some,
        StageView::PrecompiledRoot => o.job.otp is Some,
        StageView::Libc { .. } => carries_libc(o),
        StageView::Musl { runtime } => carries_libc(o) && is_fit(o, runtime),
        StageView::Code { runtime } => is_fit(o, runtime),
        StageView::Libs { runtime, app_files } => is_fit(o, runtime),
        StageView::Assemble { runtime, lib_apps } => is_fit(o, runtime),
        StageView::Zig { payload, version } => resolution(version, o.arch, o.os, o.home) is Ok,
        _ => true,
    }
}

/// Whether an OTP is fit to be bundled for an order: with the libc that it needs,
/// out of the cache, and with none where it needs none.
pub open spec fn is_fit(o: OrderView, runtime: RuntimeView) -> bool {
    match runtime.musl {
        Some(m) => carries_libc(o) && m == musl_in(m.hash, cache_path(o.home)),
        None => !carries_libc(o),
    }
}

/// Every stage but the last needs something, and what is needed leads further
/// on, where it does not end the pressing; nothing else leads anywhere.
pub proof fn what_is_needed_leads_on(o: OrderView, s: StageView, got: Got)
    requires
        can_come_to(o, s),
    ensures
        need_at(o, s) is Nothing <==> s is Done,
        0 <= progress(s) <= 23,
        is_needed(need_at(o, s), got) ==> (stage_after(o, s, got) matches Ok(t) ==> progress(t)
            > progress(s)),
        !is_needed(need_at(o, s), got) ==> stage_after(o, s, got) == Ok::<StageView, Seq<char>>(s),
        stage_after(o, s, got) matches Ok(t) ==> can_come_to(o, t),
{
}

/// Whether what was needed did not come.
pub open spec fn is_missing(got: Got) -> bool {
    match got {
        Got::Work(r) => r is Err,
        Got::Answer(r) => r is Err,
        Got::Entries(r) => r is Err,
        Got::Nested(r) => r is Err,
        Got::Releases(r) => r is Err,
        Got::AppFiles(_) => false,
        Got::Text(r) => r is Err,
        Got::Bytes(r) => r is Err,
    }
}

/// A need that is not met ends a pressing, but for that of a Zig of the host's
/// own, which can be downloaded, and that of OTP's library apps.
pub proof fn unmet_need_ends_a_pressing(o: OrderView, s: StageView, got: Got)
    requires
        can_come_to(o, s),
        is_needed(need_at(o, s), got),
        is_missing(got),
        !(s is ZigVersion),
        !(s is Libs),
    ensures
        stage_after(o, s, got) is Err,
{
}

/// How far a pressing is when all this has come, one after the other, or the
/// error it has ended with.
pub open spec fn pressed(o: OrderView, gots: Seq<Got>) -> Result<StageView, Seq<char>>
    decreases gots.len(),
{
    if gots.len() == 0 {
        Ok(first_stage(o))
    } else {
        match pressed(o, gots.drop_last()) {
            Ok(s) => stage_after(o, s, gots.last()),
            Err(e) => Err(e),
        }
    }
}

/// Whether each thing that has come was what was needed then.
pub open spec fn all_needed(o: OrderView, gots: Seq<Got>) -> bool
    decreases gots.len(),
{
    gots.len() == 0 || all_needed(o, gots.drop_last()) && pressed(o, gots.drop_last()) is Ok
        && is_needed(need_at(o, pressed(o, gots.drop_last())->Ok_0), gots.last())
}

proof fn lemma_pressed(o: OrderView, gots: Seq<Got>)
    requires
        pressed(o, gots) is Ok,
    ensures
        can_come_to(o, pressed(o, gots)->Ok_0),
        all_needed(o, gots) ==> gots.len() <= progress(pressed(o, gots)->Ok_0),
    decreases gots.len(),
{
    if gots.len() > 0 {
        lemma_pressed(o, gots.drop_last());
        what_is_needed_leads_on(o, pressed(o, gots.drop_last())->Ok_0, gots.last());
    }
}

/// A pressing whose needs are met comes to an end.
pub proof fn pressing_ends(o: OrderView, gots: Seq<Got>)
    requires
        all_needed(o, gots),
        pressed(o, gots) is Ok,
    ensures
        gots.len() <= 23,
        need_at(o, pressed(o, gots)->Ok_0) is Nothing <==> pressed(o, gots)->Ok_0 is Done,
{
    lemma_pressed(o, gots);
    what_is_needed_leads_on(o, pressed(o, gots)->Ok_0, Got::Work(Ok(())));
}

/// A Linux binary that bundles a precompiled OTP carries the musl libc that this
/// is linked against, and its boot script puts it in its place.
pub proof fn linux_binaries_carry_their_libc(
    o: OrderView,
    gots: Seq<Got>,
    runtime: RuntimeView,
    lib_apps: Seq<Seq<char>>,
)
    requires
        pressed(o, gots) == Ok::<StageView, Seq<char>>(StageView::Assemble { runtime, lib_apps }),
        carries_libc(o),
    ensures
        runtime.musl is Some,
        ({
            let hash = runtime.musl->0.hash;
            let tasks = need_at(o, StageView::Assemble { runtime, lib_apps })->Work_0;
            let payload = payload_dir(o.project);
            &&& tasks.contains(
                must(
                    ActionView::CopyFile {
                        from: musl_path(hash, cache_path(o.home)),
                        to: joined(payload, musl_file(hash)),
                    },
                    "stage musl: "@,
                ),
            )
            &&& tasks.contains(
                must(
                    ActionView::WriteText {
                        path: joined(payload, "run.sh"@),
                        text: boot_script(o.app, runtime.erts, runtime.release, Some(hash)),
                    },
                    "write run.sh: "@,
                ),
            )
        }),
{
    lemma_pressed(o, gots);
    script_boots_what_is_bundled(o.project, o.app, runtime, lib_apps);
}

/// The task that packs the payload of an order into a file.
pub open spec fn packing_to(o: OrderView, path: Seq<char>) -> TaskView {
    must(
        ActionView::Run(
            running(
                "tar"@,
                o.compression.flags() + seq![path, "-C"@, staging_dir(o.project), "payload"@],
                None,
            ),
        ),
        Seq::empty(),
    )
}

/// The payload that is packed is the one that is read, and the one that is read
/// is the one that the launcher carries, under the tag of what was read.
pub proof fn launcher_carries_what_was_packed(
    o: OrderView,
    runtime_tag: Seq<char>,
    app_tag: Seq<char>,
    payload: Vec<u8>,
    version: Result<String, String>,
)
    requires
        resolution(said(version), o.arch, o.os, o.home) is Ok,
    ensures
        ({
            let packing = StageView::Pack { runtime_tag, app_tag };
            let reading = stage_after(o, packing, Got::Work(Ok(())))->Ok_0;
            let weighing = stage_after(o, reading, Got::Bytes(Ok(payload)))->Ok_0;
            let asking = stage_after(o, weighing, Got::Work(Ok(())))->Ok_0;
            let having = stage_after(o, asking, Got::Answer(version))->Ok_0;
            let building = stage_after(o, having, Got::Work(Ok(())))->Ok_0;
            let zig = resolution(said(version), o.arch, o.os, o.home)->Ok_0.1;
            let path = need_at(o, reading)->Bytes_0;
            &&& need_at(o, packing)->Work_0.last() == packing_to(o, path)
            &&& reading is Payload && building is Launcher
            &&& need_at(o, building) == NeedView::Work(
                launcher_tasks(LauncherView { tarball: path, ..launcher_of(o, payload@, zig) }),
            )
        }),
{
}

/// The runtime that is packed apart is the one that is read, and its tag is a
/// function of what was read alone: whatever the app and the order, the same
/// runtime gets the same tag, which goes with it into the payload. The same holds
/// of the app.
pub proof fn packs_are_tagged_by_what_they_hold(
    o: OrderView,
    other: OrderView,
    runtime: RuntimeView,
    lib_apps: Seq<Seq<char>>,
    pack: Vec<u8>,
    app: Vec<u8>,
)
    ensures
        ({
            let assembling = StageView::Assemble { runtime, lib_apps };
            let reading = stage_after(o, assembling, Got::Work(Ok(())))->Ok_0;
            let tagged = stage_after(o, reading, Got::Bytes(Ok(pack)))->Ok_0;
            let both = stage_after(o, tagged, Got::Bytes(Ok(app)))->Ok_0;
            let tasks = need_at(o, assembling)->Work_0;
            let payload = payload_dir(o.project);
            &&& need_at(o, reading) is Bytes && need_at(o, tagged) is Bytes
            &&& tasks.contains(packing(need_at(o, reading)->Bytes_0, payload, "otp"@))
            &&& tasks.contains(packing(need_at(o, tagged)->Bytes_0, payload, "app"@))
            &&& tagged == (StageView::AppPack { runtime_tag: content_tag_of(pack@) })
            &&& tagged == stage_after(other, reading, Got::Bytes(Ok(pack)))->Ok_0
            &&& both == (StageView::Pack {
                runtime_tag: content_tag_of(pack@),
                app_tag: content_tag_of(app@),
            })
            &&& need_at(o, both)->Work_0.contains(
                must(
                    ActionView::WriteText {
                        path: joined(payload, "rt.tag"@),
                        text: content_tag_of(pack@),
                    },
                    "write rt.tag: "@,
                ),
            )
            &&& need_at(o, both)->Work_0.contains(
                must(
                    ActionView::WriteText {
                        path: joined(payload, "apps.tag"@),
                        text: content_tag_of(app@),
                    },
                    "write apps.tag: "@,
                ),
            )
        }),
{
    runtime_and_app_are_packed_apart(o.project, o.app, runtime, lib_apps);
    let tasks = pack_tasks(
        o.project,
        content_tag_of(pack@),
        content_tag_of(app@),
        o.compression,
    );
    assert(tasks.contains(tasks[0]) && tasks.contains(tasks[1]));
}

/// An app for this machine's OS is compiled with the very version that is
/// bundled with it, or, where none was asked for, both are the host's own.
pub proof fn native_apps_are_compiled_with_what_is_bundled(o: OrderView, r: RequestView)
    requires
        job_for(o.job.target, r) == Ok::<JobView, Seq<char>>(o.job),
        o.host == r.host,
        is_native(o.job.target, r.host),
    ensures
        match r.otp {
            Some(version) => {
                &&& first_stage(o) is Toolchain
                &&& need_at(o, first_stage(o)) == NeedView::Work(
                    precompiled_tasks(version, o.host->0, cache_path(o.home)),
                )
                &&& runtime_stage(o) is Precompiled
                &&& need_at(o, runtime_stage(o)) == NeedView::Work(
                    precompiled_tasks(version, o.job.target, cache_path(o.home)),
                )
            },
            None => {
                &&& first_stage(o) == StageView::Compile { bin: None }
                &&& runtime_stage(o) is HostRoot
            },
        },
{
}

/// Code that is compiled already is not compiled again.
pub proof fn reused_code_is_not_compiled(o: OrderView, i: int)
    requires
        o.job.reuses_shipment,
        0 <= i < need_at(o, first_stage(o))->Work_0.len(),
    ensures
        need_at(o, first_stage(o)) == NeedView::Work(reuse_tasks(o.project, o.app)),
        !runs(need_at(o, first_stage(o))->Work_0[i], "gleam"@),
        stage_after(o, first_stage(o), Got::Work(Ok(()))) == Ok::<StageView, Seq<char>>(
            runtime_stage(o),
        ),
{
}

} // verus!
