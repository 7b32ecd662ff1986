//! Ensure a Zig 0.16.0 toolchain is available. The launcher relies on APIs that
//! only exist in Zig 0.16.0, so that exact version is pinned: the host `zig` is
//! used if it matches, otherwise 0.16.0 is downloaded into the cache once and
//! reused.

use vstd::prelude::*;

use crate::path::{join, joined};
use crate::plan::{carried_out, conclusion, must, Action, ActionView, Plan, Task, TaskView};
use crate::process::{
    capture, download, fetch, make_dirs, making_dirs, option_view, running, said, sh, str_views,
    Invocation,
};
use crate::text::{same, trim, trimmed};

verus! {

/// The version the launcher is written for.
pub const REQUIRED: &'static str = "0.16.0";

/// Ask the host's Zig for its version.
pub fn version_query() -> (query: Invocation)
    ensures
        query@ == running("zig"@, seq!["version"@], None),
{
    let args: Vec<&str> = vec!["version"];
    assert(str_views(args@) == seq!["version"@]);
    capture("zig", args)
}

/// Whether the host's Zig, by its answer, is the one that is needed.
pub open spec fn is_required(version: Result<Seq<char>, Seq<char>>) -> bool {
    version is Ok && trimmed(version->Ok_0) == REQUIRED@
}

/// The names Zig has for a host.
pub open spec fn zig_names(arch: Seq<char>, os: Seq<char>) -> Result<
    (Seq<char>, Seq<char>),
    Seq<char>,
> {
    if arch != "aarch64"@ && arch != "x86_64"@ {
        Err("no Zig 0.16.0 mapping for host arch "@ + arch)
    } else if os != "macos"@ && os != "linux"@ {
        Err("no Zig 0.16.0 mapping for host os "@ + os)
    } else {
        Ok((arch, os))
    }
}

/// A pair of texts or an error, by the words.
pub open spec fn said_pair(r: Result<(String, String), String>) -> Result<
    (Seq<char>, Seq<char>),
    Seq<char>,
> {
    match r {
        Ok(p) => Ok((p.0@, p.1@)),
        Err(e) => Err(e@),
    }
}

/// The architecture and operating system of the host, by the names Zig has for them.
pub fn host_tuple(arch: &str, os: &str) -> (r: Result<(String, String), String>)
    ensures
        said_pair(r) == zig_names(arch@, os@),
{
    if !same(arch, "aarch64") && !same(arch, "x86_64") {
        let mut e = "no Zig 0.16.0 mapping for host arch ".to_owned();
        e.append(arch);
        Err(e)
    } else if !same(os, "macos") && !same(os, "linux") {
        let mut e = "no Zig 0.16.0 mapping for host os ".to_owned();
        e.append(os);
        Err(e)
    } else {
        Ok((arch.to_owned(), os.to_owned()))
    }
}

/// Where Zig is kept, for the given home directory.
pub open spec fn zig_cache(home: Option<Seq<char>>) -> Seq<char> {
    joined(
        match home {
            Some(h) => h,
            None => "/tmp"@,
        },
        ".cache/panini/zig"@,
    )
}

pub fn cache_root(home: Option<&str>) -> (path: String)
    ensures
        path@ == zig_cache(option_view(home)),
{
    match home {
        Some(h) => join(h, ".cache/panini/zig"),
        None => join("/tmp", ".cache/panini/zig"),
    }
}

/// What a release of Zig for a host is called.
pub open spec fn release_name(arch: Seq<char>, os: Seq<char>) -> Seq<char> {
    "zig-"@ + arch + "-"@ + os + "-"@ + REQUIRED@
}

/// Where the cached Zig for a host is.
pub open spec fn cached_zig(arch: Seq<char>, os: Seq<char>, cache: Seq<char>) -> Seq<char> {
    joined(joined(cache, release_name(arch, os)), "zig"@)
}

/// The tasks that fetch and unpack Zig. The tarball unpacks to
/// zig-<arch>-<os>-<ver>/ containing the `zig` binary.
pub open spec fn download_tasks(arch: Seq<char>, os: Seq<char>, cache: Seq<char>) -> Seq<TaskView> {
    let file = release_name(arch, os) + ".tar.xz"@;
    let archive = joined(cache, file);
    seq![making_dirs(cache)] + download(
        "     fetching Zig "@ + REQUIRED@ + " for "@ + arch + "-"@ + os + " (one time)…"@,
        "https://ziglang.org/download/"@ + REQUIRED@ + "/"@ + file,
        archive,
        "zig download failed: "@,
        ""@,
        "finalize zig download: "@,
    ) + seq![
        must(
            ActionView::Run(running("tar"@, seq!["-xf"@, archive, "-C"@, cache], None)),
            Seq::empty(),
        ),
    ]
}

fn zig_release(arch: &str, os: &str) -> (name: String)
    ensures
        name@ == release_name(arch@, os@),
{
    let mut name = "zig-".to_owned();
    name.append(arch);
    name.append("-");
    name.append(os);
    name.append("-");
    name.append(REQUIRED);
    name
}

fn download_plan(cache: &str, arch: &str, os: &str) -> (plan: Plan)
    ensures
        plan@ == download_tasks(arch@, os@, cache@),
{
    let mut file = zig_release(arch, os);
    file.append(".tar.xz");
    let mut url = "https://ziglang.org/download/".to_owned();
    url.append(REQUIRED);
    url.append("/");
    url.append(file.as_str());
    let archive = join(cache, file.as_str());
    let mut note = "     fetching Zig ".to_owned();
    note.append(REQUIRED);
    note.append(" for ");
    note.append(arch);
    note.append("-");
    note.append(os);
    note.append(" (one time)…");
    let mut plan = Plan::new();
    plan.add_task(make_dirs(cache));
    plan.add_all(
        fetch(
            note.as_str(),
            url.as_str(),
            archive.as_str(),
            "zig download failed: ",
            "",
            "finalize zig download: ",
        ),
    );
    let args: Vec<&str> = vec!["-xf", archive.as_str(), "-C", cache];
    assert(str_views(args@) == seq!["-xf"@, archive@, "-C"@, cache@]);
    plan.add_must(Action::Run(sh("tar", args, None)), String::new());
    assert(plan@ == download_tasks(arch@, os@, cache@));
    plan
}

/// The tasks that have a cached Zig in place: nothing where it is there, else
/// the download, after which it has to be there.
pub open spec fn cached_tasks(arch: Seq<char>, os: Seq<char>, cache: Seq<char>) -> Seq<TaskView> {
    let bin = cached_zig(arch, os, cache);
    seq![TaskView::SkipIfExists { path: bin, count: 6 }] + download_tasks(arch, os, cache) + seq![
        TaskView::Require {
            path: bin,
            directory: false,
            message: "zig not found at "@ + bin + " after extraction"@,
        },
    ]
}

/// What to do to have a usable Zig, and its path: the `zig` on PATH where its
/// version is right, else one in the cache.
pub open spec fn resolution(
    version: Result<Seq<char>, Seq<char>>,
    arch: Seq<char>,
    os: Seq<char>,
    home: Option<Seq<char>>,
) -> Result<(Seq<TaskView>, Seq<char>), Seq<char>> {
    if is_required(version) {
        Ok((Seq::empty(), "zig"@))
    } else {
        match zig_names(arch, os) {
            Err(e) => Err(e),
            Ok((a, o)) => Ok(
                (cached_tasks(a, o, zig_cache(home)), cached_zig(a, o, zig_cache(home))),
            ),
        }
    }
}

/// A plan with a path, or an error, by their contents.
pub open spec fn planned(r: Result<(Plan, String), String>) -> Result<
    (Seq<TaskView>, Seq<char>),
    Seq<char>,
> {
    match r {
        Ok(p) => Ok((p.0@, p.1@)),
        Err(e) => Err(e@),
    }
}

/// Path to a usable Zig 0.16.0 (`"zig"` on PATH, or a cached download), and what
/// to do to have it, given what the `zig` on PATH said its version is, and the
/// architecture, operating system and home directory of the host.
pub fn resolve(
    version: &Result<String, String>,
    arch: &str,
    os: &str,
    home: Option<&str>,
) -> (r: Result<(Plan, String), String>)
    ensures
        planned(r) == resolution(said(*version), arch@, os@, option_view(home)),
{
    if let Ok(v) = version {
        if same(trim(v.as_str()), REQUIRED) {
            return Ok((Plan::new(), "zig".to_owned()));
        }
    }
    match host_tuple(arch, os) {
        Err(e) => Err(e),
        Ok((a, o)) => {
            let cache = cache_root(home);
            let dir = join(cache.as_str(), zig_release(a.as_str(), o.as_str()).as_str());
            let bin = join(dir.as_str(), "zig");
            let mut message = "zig not found at ".to_owned();
            message.append(bin.as_str());
            message.append(" after extraction");
            let mut plan = Plan::new();
            plan.add_task(Task::SkipIfExists { path: bin.clone(), count: 6 });
            plan.add_all(download_plan(cache.as_str(), a.as_str(), o.as_str()));
            plan.add_task(Task::Require { path: bin.clone(), directory: false, message });
            assert(plan@ == cached_tasks(a@, o@, cache@));
            Ok((plan, bin))
        },
    }
}

/// Which Zig will be used, in words.
pub open spec fn description(version: Result<Seq<char>, Seq<char>>) -> Seq<char> {
    match version {
        Ok(v) => if trimmed(v) == REQUIRED@ {
            v + " (host)"@
        } else {
            "host has "@ + v + "; will fetch "@ + REQUIRED@
        },
        Err(_) => "not installed; will fetch "@ + REQUIRED@,
    }
}

/// Report which Zig will be used, given what the `zig` on PATH said its version is.
pub fn describe(version: &Result<String, String>) -> (r: String)
    ensures
        r@ == description(said(*version)),
{
    match version {
        Ok(v) => if same(trim(v.as_str()), REQUIRED) {
            let mut r = v.clone();
            r.append(" (host)");
            r
        } else {
            let mut r = "host has ".to_owned();
            r.append(v.as_str());
            r.append("; will fetch ");
            r.append(REQUIRED);
            r
        },
        Err(_) => {
            let mut r = "not installed; will fetch ".to_owned();
            r.append(REQUIRED);
            r
        },
    }
}

/// A Zig of the right version on the host is used as it is, on any platform.
pub proof fn right_host_zig_is_used(
    version: Result<Seq<char>, Seq<char>>,
    arch: Seq<char>,
    os: Seq<char>,
    home: Option<Seq<char>>,
)
    requires
        is_required(version),
    ensures
        resolution(version, arch, os, home) == Ok::<(Seq<TaskView>, Seq<char>), Seq<char>>(
            (Seq::empty(), "zig"@),
        ),
{
}

/// Zig is downloaded once: where it is in the cache, nothing is done.
pub proof fn cached_zig_is_used(
    arch: Seq<char>,
    os: Seq<char>,
    cache: Seq<char>,
    replies: spec_fn(int) -> Result<bool, Seq<char>>,
)
    requires
        replies(0) == Ok::<bool, Seq<char>>(true),
    ensures
        cached_tasks(arch, os, cache)[0] == (TaskView::SkipIfExists {
            path: cached_zig(arch, os, cache),
            count: 6,
        }),
        carried_out(cached_tasks(arch, os, cache), 0, replies) == seq![0int],
        conclusion(cached_tasks(arch, os, cache), 0, replies) == Ok::<(), Seq<char>>(()),
{
    reveal_with_fuel(carried_out, 2);
    reveal_with_fuel(conclusion, 2);
}

/// A Zig that had to be fetched is only used where it was found in place
/// afterwards.
pub proof fn fetched_zig_is_in_place(
    arch: Seq<char>,
    os: Seq<char>,
    cache: Seq<char>,
    replies: spec_fn(int) -> Result<bool, Seq<char>>,
)
    requires
        conclusion(cached_tasks(arch, os, cache), 0, replies) is Ok,
    ensures
        replies(0) == Ok::<bool, Seq<char>>(true) || replies(6) == Ok::<bool, Seq<char>>(true),
        cached_tasks(arch, os, cache)[6] matches TaskView::Require { path, .. } && path
            == cached_zig(arch, os, cache),
{
    reveal_with_fuel(conclusion, 8);
}

} // verus!
