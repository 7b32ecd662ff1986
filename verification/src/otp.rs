//! The Erlang/OTP installation of the host, and precompiled ones.

use vstd::prelude::*;

use crate::listing::{entry_views, first_entry, listed, EntryView, Listing};
use crate::path::{join, joined};
use crate::plan::{
    carried_out, moves_to, must, runs, tasks_are_carried_out_in_order, Action, ActionView, Plan,
    Task, TaskView,
};
use crate::process::{
    capture, download, fetch, make_dirs, making_dirs, option_view, running, said, sh, str_views,
    Invocation,
};
use crate::target::{polite, Target};
use crate::text::{
    begins_with, push_text, same, split, split_on, starts_with, strip_prefix, told, trim,
    trim_end_matches, trimmed, view_of, views, without_end,
};

verus! {

/// Having the host's Erlang evaluate something and halt.
pub open spec fn erl(code: Seq<char>) -> crate::process::InvocationView {
    running("erl"@, seq!["-noshell"@, "-eval"@, code], None)
}

fn ask_erl(code: &str) -> (query: Invocation)
    ensures
        query@ == erl(code@),
{
    let args: Vec<&str> = vec!["-noshell", "-eval", code];
    assert(str_views(args@) == seq!["-noshell"@, "-eval"@, code@]);
    capture("erl", args)
}

/// Ask for the absolute path to the host OTP root (e.g. .../lib/erlang), via `code:root_dir/0`.
pub fn root_dir() -> (query: Invocation)
    ensures
        query@ == erl("io:format(\"~s\", [code:root_dir()]), halt()."@),
{
    ask_erl("io:format(\"~s\", [code:root_dir()]), halt().")
}

/// Ask for the ERTS version string (e.g. "17.0.3"); the runtime dir is `erts-<version>`.
pub fn erts_version() -> (query: Invocation)
    ensures
        query@ == erl("io:format(\"~s\", [erlang:system_info(version)]), halt()."@),
{
    ask_erl("io:format(\"~s\", [erlang:system_info(version)]), halt().")
}

/// Ask for the OTP release number (e.g. "29").
pub fn otp_release() -> (query: Invocation)
    ensures
        query@ == erl("io:format(\"~s\", [erlang:system_info(otp_release)]), halt()."@),
{
    ask_erl("io:format(\"~s\", [erlang:system_info(otp_release)]), halt().")
}

/// Being an `erts-<vsn>` directory.
pub open spec fn is_erts() -> spec_fn(EntryView) -> bool {
    |e: EntryView| e.is_dir && e.name is Some && begins_with(e.name->0, "erts-"@)
}

/// The `erts-<vsn>` directory of an OTP root, given what the root holds.
pub open spec fn erts_dir(root: Seq<char>, listing: Listing) -> Result<Seq<char>, Seq<char>> {
    match listed(listing) {
        Err(e) => Err("read "@ + root + ": "@ + e),
        Ok(entries) => match first_entry(entries, is_erts()) {
            Some(p) => Ok(p),
            None => Err("no erts-* dir in "@ + root),
        },
    }
}

/// Find the single `erts-<vsn>` directory inside an OTP root, given what the
/// root holds.
pub fn find_erts_dir(root: &str, listing: &Listing) -> (dir: Result<String, String>)
    ensures
        said(dir) == erts_dir(root@, *listing),
{
    match listing {
        Err(reason) => {
            let mut e = "read ".to_owned();
            e.append(root);
            e.append(": ");
            e.append(reason.as_str());
            Err(e)
        },
        Ok(entries) => {
            let ghost all = entry_views(entries@);
            let mut i: usize = 0;
            assert(all.skip(0) == all);
            while i < entries.len()
                invariant
                    i <= entries@.len(),
                    all == entry_views(entries@),
                    listed(*listing) == Ok::<Seq<EntryView>, Seq<char>>(all),
                    first_entry(all, is_erts()) == first_entry(all.skip(i as int), is_erts()),
                decreases entries@.len() - i,
            {
                assert(all[i as int] == entries@[i as int]@);
                assert(all.skip(i as int).drop_first() == all.skip(i + 1));
                if entries[i].is_dir {
                    if let Some(name) = &entries[i].name {
                        if starts_with(name.as_str(), "erts-") {
                            return Ok(entries[i].path.clone());
                        }
                    }
                }
                i = i + 1;
            }
            let mut e = "no erts-* dir in ".to_owned();
            e.append(root);
            Err(e)
        },
    }
}

/// The name of the directory that holds the emulator of an ERTS version.
pub fn erts_dir_name(version: &str) -> (name: String)
    ensures
        name@ == "erts-"@ + version@,
{
    let mut name = "erts-".to_owned();
    name.append(version);
    name
}

/// An entry of the `releases` directory of an OTP root.
pub struct Release {
    pub path: String,
    pub is_dir: bool,
    /// Whether it holds a `start.boot`.
    pub has_boot: bool,
}

/// The path of the first release that can be booted.
pub open spec fn first_bootable(releases: Seq<Release>) -> Option<Seq<char>>
    decreases releases.len(),
{
    if releases.len() == 0 {
        None
    } else if releases[0].is_dir && releases[0].has_boot {
        Some(releases[0].path@)
    } else {
        first_bootable(releases.drop_first())
    }
}

/// The release directory of an OTP root, given what its `releases` holds.
pub open spec fn release_dir(root: Seq<char>, releases: Result<Vec<Release>, String>) -> Result<
    Seq<char>,
    Seq<char>,
> {
    match releases {
        Err(e) => Err("read "@ + joined(root, "releases"@) + ": "@ + e@),
        Ok(entries) => match first_bootable(entries@) {
            Some(p) => Ok(p),
            None => Err("no releases/*/start.boot under "@ + root),
        },
    }
}

/// Find the `releases/<name>/` directory inside an OTP root (holds start.boot),
/// given what `releases` holds.
pub fn find_release_dir(root: &str, releases: &Result<Vec<Release>, String>) -> (dir: Result<
    String,
    String,
>)
    ensures
        said(dir) == release_dir(root@, *releases),
{
    match releases {
        Err(reason) => {
            let mut e = "read ".to_owned();
            e.append(join(root, "releases").as_str());
            e.append(": ");
            e.append(reason.as_str());
            Err(e)
        },
        Ok(entries) => {
            let mut i: usize = 0;
            assert(entries@.skip(0) == entries@);
            while i < entries.len()
                invariant
                    i <= entries@.len(),
                    *releases == Ok::<Vec<Release>, String>(*entries),
                    first_bootable(entries@) == first_bootable(entries@.skip(i as int)),
                decreases entries@.len() - i,
            {
                assert(entries@.skip(i as int).drop_first() == entries@.skip(i + 1));
                if entries[i].is_dir && entries[i].has_boot {
                    return Ok(entries[i].path.clone());
                }
                i = i + 1;
            }
            let mut e = "no releases/*/start.boot under ".to_owned();
            e.append(root);
            Err(e)
        },
    }
}

/// Where what was downloaded is kept, for the given home directory.
pub open spec fn cache_path(home: Option<Seq<char>>) -> Seq<char> {
    joined(
        match home {
            Some(h) => h,
            None => "/tmp"@,
        },
        ".cache/panini"@,
    )
}

/// Where what was downloaded is kept, for the given home directory.
pub fn cache_dir(home: Option<&str>) -> (path: String)
    ensures
        path@ == cache_path(option_view(home)),
{
    match home {
        Some(h) => join(h, ".cache/panini"),
        None => join("/tmp", ".cache/panini"),
    }
}

/// Where the archives of precompiled OTPs are kept.
pub open spec fn archives_dir(cache: Seq<char>) -> Seq<char> {
    joined(cache, "otp"@)
}

/// Where the archive of a version is kept.
pub open spec fn archive_path(version: Seq<char>, target: Target, cache: Seq<char>) -> Seq<char> {
    joined(archives_dir(cache), target.archive(version))
}

/// Where the archive of a version is unpacked.
pub open spec fn unpacked_dir(version: Seq<char>, target: Target, cache: Seq<char>) -> Seq<char> {
    joined(archives_dir(cache), without_end(target.archive(version), ".tar.gz"@))
}

/// The tasks that fetch and unpack a precompiled OTP, each where it was not
/// done before.
pub open spec fn precompiled_tasks(
    version: Seq<char>,
    target: Target,
    cache: Seq<char>,
) -> Seq<TaskView> {
    let archive = archive_path(version, target, cache);
    let dir = unpacked_dir(version, target, cache);
    seq![
        making_dirs(archives_dir(cache)),
        TaskView::SkipIfExists { path: archive, count: 3 },
    ] + download(
        "     downloading OTP "@ + version + " for "@ + target.name@
            + " (cached after first use)…"@,
        target.archive_site(version) + target.archive(version) + polite(),
        archive,
        "download failed: "@,
        "\n  (is there a precompiled OTP "@ + version + " for "@ + target.name@
            + "? see https://github.com/erlef/otp_builds)"@,
        "finalize download: "@,
    ) + seq![
        TaskView::SkipIfExists { path: dir, count: 2 },
        TaskView::Try { action: ActionView::MakeDirs(dir) },
        must(
            ActionView::Run(running("tar"@, seq!["-xzf"@, archive, "-C"@, dir], None)),
            Seq::empty(),
        ),
    ]
}

/// A ready-to-bundle OTP for a precompiled version + target: what to do to have
/// it downloaded and extracted in the cache (later builds reuse the cache), and
/// the directory that holds it then.
pub fn precompiled_root(version: &str, target: &Target, cache: &str) -> (r: (Plan, String))
    ensures
        r.0@ == precompiled_tasks(version@, *target, cache@),
        r.1@ == unpacked_dir(version@, *target, cache@),
{
    let archives = join(cache, "otp");
    let name = target.otp_archive_name(version);
    let archive = join(archives.as_str(), name.as_str());
    let dir = join(archives.as_str(), trim_end_matches(name.as_str(), ".tar.gz").as_str());

    let mut note = "     downloading OTP ".to_owned();
    note.append(version);
    note.append(" for ");
    note.append(target.name);
    note.append(" (cached after first use)…");
    let mut suffix = "\n  (is there a precompiled OTP ".to_owned();
    suffix.append(version);
    suffix.append(" for ");
    suffix.append(target.name);
    suffix.append("? see https://github.com/erlef/otp_builds)");

    let mut plan = Plan::new();
    plan.add_task(make_dirs(archives.as_str()));
    plan.add_task(Task::SkipIfExists { path: archive.clone(), count: 3 });
    plan.add_all(
        fetch(
            note.as_str(),
            target.otp_url(version).as_str(),
            archive.as_str(),
            "download failed: ",
            suffix.as_str(),
            "finalize download: ",
        ),
    );
    plan.add_task(Task::SkipIfExists { path: dir.clone(), count: 2 });
    plan.add_try(Action::MakeDirs(dir.clone()));
    let args: Vec<&str> = vec!["-xzf", archive.as_str(), "-C", dir.as_str()];
    assert(str_views(args@) == seq!["-xzf"@, archive@, "-C"@, dir@]);
    plan.add_must(Action::Run(sh("tar", args, None)), String::new());
    assert(plan@ == precompiled_tasks(version@, *target, cache@));
    (plan, dir)
}

/// A directory below an unpacked archive: its entry, and what it holds.
pub struct Nested {
    pub path: String,
    pub name: Option<String>,
    pub is_dir: bool,
    pub listing: Listing,
}

impl Nested {
    /// As an entry of the directory above.
    pub open spec fn entry(self) -> EntryView {
        EntryView { path: self.path@, name: view_of(self.name), is_dir: self.is_dir }
    }
}

/// The first directory that is an OTP root.
pub open spec fn first_root(nested: Seq<Nested>) -> Option<Seq<char>>
    decreases nested.len(),
{
    if nested.len() == 0 {
        None
    } else if nested[0].is_dir && erts_dir(nested[0].path@, nested[0].listing) is Ok {
        Some(nested[0].path@)
    } else {
        first_root(nested.drop_first())
    }
}

/// Whether one of the entries is an `erts-<vsn>` directory.
pub open spec fn holds_erts(nested: Seq<Nested>) -> bool {
    exists|i: int| 0 <= i < nested.len() && is_erts()(#[trigger] nested[i].entry())
}

/// The OTP root in an unpacked archive, given what the archive holds.
pub open spec fn root_in(dir: Seq<char>, held: Result<Vec<Nested>, String>) -> Result<
    Seq<char>,
    Seq<char>,
> {
    match held {
        Err(e) => Err("read extract dir: "@ + e@),
        Ok(nested) => if holds_erts(nested@) {
            Ok(dir)
        } else {
            match first_root(nested@) {
                Some(p) => Ok(p),
                None => Err("could not locate an OTP root inside "@ + dir),
            }
        },
    }
}

/// Find the OTP root in an unpacked archive, given what the archive holds.
/// Archives nest everything under a single top dir (e.g.
/// otp_universal_apple_darwin_27.2), or under none.
pub fn locate_root(dir: &str, held: &Result<Vec<Nested>, String>) -> (root: Result<String, String>)
    ensures
        said(root) == root_in(dir@, *held),
{
    match held {
        Err(reason) => {
            let mut e = "read extract dir: ".to_owned();
            e.append(reason.as_str());
            Err(e)
        },
        Ok(nested) => {
            let mut i: usize = 0;
            while i < nested.len()
                invariant
                    i <= nested@.len(),
                    *held == Ok::<Vec<Nested>, String>(*nested),
                    forall|k: int| 0 <= k < i ==> !is_erts()(#[trigger] nested@[k].entry()),
                decreases nested@.len() - i,
            {
                if nested[i].is_dir {
                    if let Some(name) = &nested[i].name {
                        if starts_with(name.as_str(), "erts-") {
                            assert(is_erts()(nested@[i as int].entry()));
                            return Ok(dir.to_owned());
                        }
                    }
                }
                i = i + 1;
            }
            assert(!holds_erts(nested@));
            let mut i: usize = 0;
            assert(nested@.skip(0) == nested@);
            while i < nested.len()
                invariant
                    i <= nested@.len(),
                    *held == Ok::<Vec<Nested>, String>(*nested),
                    !holds_erts(nested@),
                    first_root(nested@) == first_root(nested@.skip(i as int)),
                decreases nested@.len() - i,
            {
                assert(nested@.skip(i as int).drop_first() == nested@.skip(i + 1));
                if nested[i].is_dir && find_erts_dir(
                    nested[i].path.as_str(),
                    &nested[i].listing,
                ).is_ok() {
                    return Ok(nested[i].path.clone());
                }
                i = i + 1;
            }
            let mut e = "could not locate an OTP root inside ".to_owned();
            e.append(dir);
            Err(e)
        },
    }
}

/// An archive in the cache is not downloaded again, whatever else happens.
pub proof fn cached_archive_is_not_downloaded(
    version: Seq<char>,
    target: Target,
    cache: Seq<char>,
    replies: spec_fn(int) -> Result<bool, Seq<char>>,
    k: int,
)
    requires
        replies(1) == Ok::<bool, Seq<char>>(true),
        0 <= k < carried_out(precompiled_tasks(version, target, cache), 0, replies).len(),
    ensures
        precompiled_tasks(version, target, cache)[1] == (TaskView::SkipIfExists {
            path: archive_path(version, target, cache),
            count: 3,
        }),
        !runs(
            precompiled_tasks(version, target, cache)[carried_out(
                precompiled_tasks(version, target, cache),
                0,
                replies,
            )[k]],
            "curl"@,
        ),
{
    reveal_with_fuel(carried_out, 9);
    reveal_strlit("curl");
    reveal_strlit("tar");
    assert("curl"@.len() != "tar"@.len());
    tasks_are_carried_out_in_order(precompiled_tasks(version, target, cache), 0, replies);
}

/// An archive that is unpacked already is not unpacked again, whatever else
/// happens.
pub proof fn unpacked_archive_is_not_unpacked_again(
    version: Seq<char>,
    target: Target,
    cache: Seq<char>,
    replies: spec_fn(int) -> Result<bool, Seq<char>>,
    k: int,
)
    requires
        replies(5) == Ok::<bool, Seq<char>>(true),
        0 <= k < carried_out(precompiled_tasks(version, target, cache), 0, replies).len(),
    ensures
        precompiled_tasks(version, target, cache)[5] == (TaskView::SkipIfExists {
            path: unpacked_dir(version, target, cache),
            count: 2,
        }),
        !runs(
            precompiled_tasks(version, target, cache)[carried_out(
                precompiled_tasks(version, target, cache),
                0,
                replies,
            )[k]],
            "tar"@,
        ),
{
    reveal_with_fuel(carried_out, 9);
    reveal_strlit("curl");
    reveal_strlit("tar");
    assert("curl"@.len() != "tar"@.len());
    tasks_are_carried_out_in_order(precompiled_tasks(version, target, cache), 0, replies);
}

/// An archive gets its place in the cache only right after its download has
/// succeeded, so what is there is complete.
pub proof fn archive_is_placed_when_complete(
    version: Seq<char>,
    target: Target,
    cache: Seq<char>,
    replies: spec_fn(int) -> Result<bool, Seq<char>>,
    k: int,
)
    requires
        0 <= k < carried_out(precompiled_tasks(version, target, cache), 0, replies).len(),
        moves_to(
            precompiled_tasks(version, target, cache)[carried_out(
                precompiled_tasks(version, target, cache),
                0,
                replies,
            )[k]],
            archive_path(version, target, cache),
        ),
    ensures
        0 < k,
        runs(
            precompiled_tasks(version, target, cache)[carried_out(
                precompiled_tasks(version, target, cache),
                0,
                replies,
            )[k - 1]],
            "curl"@,
        ),
        replies(
            carried_out(precompiled_tasks(version, target, cache), 0, replies)[k - 1],
        ) is Ok,
{
    reveal_with_fuel(carried_out, 9);
    tasks_are_carried_out_in_order(precompiled_tasks(version, target, cache), 0, replies);
}

/// The musl libc that BEAM Machine Linux builds are linked against. Their ELF
/// interpreter is a hardcoded `/tmp/libc-musl-<hash>.so`, so the `.so` must be
/// placed there before any OTP binary (or the produced app) runs.
pub struct Musl {
    /// Cached `.so` file to install at `/tmp/libc-musl-<hash>.so`.
    pub so: String,
    /// Content hash naming the interpreter file.
    pub hash: String,
}

pub struct MuslView {
    pub so: Seq<char>,
    pub hash: Seq<char>,
}

impl View for Musl {
    type V = MuslView;

    open spec fn view(&self) -> MuslView {
        MuslView { so: self.so@, hash: self.hash@ }
    }
}

/// A musl libc, where there is one.
pub open spec fn musl_view(musl: Option<Musl>) -> Option<MuslView> {
    match musl {
        Some(m) => Some(m@),
        None => None,
    }
}

/// Whether the OTP builds for a target are linked against such a musl libc.
pub fn needs_musl(target: &Target) -> (r: bool)
    ensures
        r == (target.os@ == "linux"@),
{
    same(target.os, "linux")
}

/// The name of the interpreter file of a hash.
pub open spec fn musl_file(hash: Seq<char>) -> Seq<char> {
    "libc-musl-"@ + hash + ".so"@
}

impl Musl {
    /// The name of the interpreter file.
    pub fn file_name(&self) -> (name: String)
        ensures
            name@ == musl_file(self.hash@),
    {
        musl_file_name(self.hash.as_str())
    }

    /// The absolute path the OTP binaries expect their interpreter at.
    pub fn tmp_path(&self) -> (path: String)
        ensures
            path@ == "/tmp/"@ + musl_file(self.hash@),
    {
        let mut path = "/tmp/".to_owned();
        path.append(musl_file_name(self.hash.as_str()).as_str());
        path
    }
}

fn musl_file_name(hash: &str) -> (name: String)
    ensures
        name@ == musl_file(hash@),
{
    let mut name = "libc-musl-".to_owned();
    name.append(hash);
    name.append(".so");
    name
}

/// The value of the first line that begins with a key.
pub open spec fn first_value(lines: Seq<Seq<char>>, key: Seq<char>) -> Option<Seq<char>>
    decreases lines.len(),
{
    if lines.len() == 0 {
        None
    } else if begins_with(lines[0], key) {
        Some(trimmed(lines[0].skip(key.len() as int)))
    } else {
        first_value(lines.drop_first(), key)
    }
}

/// The hash a runtime manifest names.
pub open spec fn manifest_hash(manifest: Seq<char>) -> Option<Seq<char>> {
    first_value(split(manifest, '\n'), "MUSL_HASH="@)
}

/// The hash of the musl libc that a runtime manifest names.
pub fn musl_hash(manifest: &str) -> (hash: Option<String>)
    ensures
        view_of(hash) == manifest_hash(manifest@),
{
    let lines = split_on(manifest, '\n');
    let ghost all = views(lines@);
    let mut i: usize = 0;
    assert(all.skip(0) == all);
    while i < lines.len()
        invariant
            i <= lines@.len(),
            all == views(lines@),
            all == split(manifest@, '\n'),
            manifest_hash(manifest@) == first_value(all.skip(i as int), "MUSL_HASH="@),
        decreases lines@.len() - i,
    {
        assert(all[i as int] == lines@[i as int]@);
        assert(all.skip(i as int).drop_first() == all.skip(i + 1));
        if let Some(rest) = strip_prefix(lines[i].as_str(), "MUSL_HASH=") {
            return Some(trim(rest.as_str()).to_owned());
        }
        i = i + 1;
    }
    None
}

/// Where an OTP root keeps its runtime manifest.
pub open spec fn manifest_path(root: Seq<char>) -> Seq<char> {
    joined(root, "burrito_runtime_manifest.txt"@)
}

/// Where an OTP root keeps its runtime manifest.
pub fn musl_manifest(root: &str) -> (path: String)
    ensures
        path@ == manifest_path(root@),
{
    join(root, "burrito_runtime_manifest.txt")
}

/// Where the musl libc of a hash is kept.
pub open spec fn musl_path(hash: Seq<char>, cache: Seq<char>) -> Seq<char> {
    joined(joined(cache, "musl"@), musl_file(hash))
}

/// The musl libc of a hash, as it is kept.
pub open spec fn musl_in(hash: Seq<char>, cache: Seq<char>) -> MuslView {
    MuslView { so: musl_path(hash, cache), hash }
}

/// The tasks that have the musl libc of a hash in the cache, fit to be an
/// interpreter.
pub open spec fn musl_tasks(hash: Seq<char>, cache: Seq<char>) -> Seq<TaskView> {
    let so = musl_path(hash, cache);
    seq![making_dirs(joined(cache, "musl"@)), TaskView::SkipIfExists { path: so, count: 3 }]
        + download(
        "     fetching musl runtime for Linux (cached after first use)…"@,
        "https://beam-machine-universal.b-cdn.net/musl/"@ + musl_file(hash) + polite(),
        so,
        ""@,
        ""@,
        "finalize musl download: "@,
    ) + seq![must(ActionView::MakeExecutable(so), "chmod musl: "@)]
}

/// What to do to have the musl libc of a hash in the cache, fit to be an
/// interpreter.
pub fn musl_plan(hash: &str, cache: &str) -> (plan: Plan)
    ensures
        plan@ == musl_tasks(hash@, cache@),
{
    let dir = join(cache, "musl");
    let name = musl_file_name(hash);
    let so = join(dir.as_str(), name.as_str());
    let mut url = "https://beam-machine-universal.b-cdn.net/musl/".to_owned();
    url.append(name.as_str());
    url.append("?please-respect-my-bandwidth-costs=thank-you");
    let mut plan = Plan::new();
    plan.add_task(make_dirs(dir.as_str()));
    plan.add_task(Task::SkipIfExists { path: so.clone(), count: 3 });
    plan.add_all(
        fetch(
            "     fetching musl runtime for Linux (cached after first use)…",
            url.as_str(),
            so.as_str(),
            "",
            "",
            "finalize musl download: ",
        ),
    );
    // The kernel requires the ELF interpreter itself to be executable.
    plan.add_must(Action::MakeExecutable(so), "chmod musl: ".to_owned());
    assert(plan@ == musl_tasks(hash@, cache@));
    plan
}

/// The hash that a runtime manifest names, given its text, or what is wrong
/// with it.
pub open spec fn musl_named(manifest: Result<Seq<char>, Seq<char>>) -> Result<
    Seq<char>,
    Seq<char>,
> {
    match manifest {
        Err(e) => Err("read runtime manifest: "@ + e),
        Ok(text) => match manifest_hash(text) {
            None => Err("no MUSL_HASH in runtime manifest"@),
            Some(hash) => Ok(hash),
        },
    }
}

/// For a Linux OTP root, the matching musl libc runtime (its hash is in the
/// build's `burrito_runtime_manifest.txt`, of which `manifest` is the text):
/// what to do to have it cached under `<cache>/musl`, and what it is.
pub fn fetch_musl(manifest: &Result<String, String>, cache: &str) -> (r: Result<
    (Plan, Musl),
    String,
>)
    ensures
        match musl_named(said(*manifest)) {
            Err(e) => r is Err && r->Err_0@ == e,
            Ok(hash) => r is Ok && r->Ok_0.0@ == musl_tasks(hash, cache@) && r->Ok_0.1@ == musl_in(
                hash,
                cache@,
            ),
        },
{
    match manifest {
        Err(reason) => {
            let mut e = "read runtime manifest: ".to_owned();
            e.append(reason.as_str());
            Err(e)
        },
        Ok(text) => match musl_hash(text.as_str()) {
            None => Err("no MUSL_HASH in runtime manifest".to_owned()),
            Some(hash) => {
                let dir = join(cache, "musl");
                let so = join(dir.as_str(), musl_file_name(hash.as_str()).as_str());
                let plan = musl_plan(hash.as_str(), cache);
                Ok((plan, Musl { so, hash }))
            },
        },
    }
}

/// A musl libc in the cache is not downloaded again, and one that is gets its
/// place only right after its download has succeeded.
pub proof fn musl_is_fetched_once_and_whole(
    hash: Seq<char>,
    cache: Seq<char>,
    replies: spec_fn(int) -> Result<bool, Seq<char>>,
    k: int,
)
    requires
        0 <= k < carried_out(musl_tasks(hash, cache), 0, replies).len(),
    ensures
        musl_tasks(hash, cache)[1] == (TaskView::SkipIfExists {
            path: musl_path(hash, cache),
            count: 3,
        }),
        replies(1) == Ok::<bool, Seq<char>>(true) ==> !runs(
            musl_tasks(hash, cache)[carried_out(musl_tasks(hash, cache), 0, replies)[k]],
            "curl"@,
        ),
        moves_to(
            musl_tasks(hash, cache)[carried_out(musl_tasks(hash, cache), 0, replies)[k]],
            musl_path(hash, cache),
        ) ==> 0 < k && runs(
            musl_tasks(hash, cache)[carried_out(musl_tasks(hash, cache), 0, replies)[k - 1]],
            "curl"@,
        ) && replies(carried_out(musl_tasks(hash, cache), 0, replies)[k - 1]) is Ok,
{
    reveal_with_fuel(carried_out, 7);
    tasks_are_carried_out_in_order(musl_tasks(hash, cache), 0, replies);
}

/// What is shown of the toolchain, given the answers to what was asked: the
/// lines, and how it ends.
pub open spec fn toolchain(
    gleam: Result<Seq<char>, Seq<char>>,
    root: Result<Seq<char>, Seq<char>>,
    release: Result<Seq<char>, Seq<char>>,
    erts: Result<Seq<char>, Seq<char>>,
    zig: Seq<char>,
) -> (Seq<Seq<char>>, Result<(), Seq<char>>) {
    let top = seq![
        "panini toolchain"@,
        "  gleam:        "@ + (match gleam {
            Ok(v) => v,
            Err(_) => "not found"@,
        }),
    ];
    match (root, release, erts) {
        (Err(e), _, _) => (Seq::empty(), Err(e)),
        (Ok(_), Err(e), _) => (top, Err(e)),
        (Ok(_), Ok(n), Err(e)) => (top.push("  otp release:  "@ + n), Err(e)),
        (Ok(r), Ok(n), Ok(v)) => (
            top + seq![
                "  otp release:  "@ + n,
                "  erts version: "@ + v,
                "  otp root:     "@ + r,
                "  zig:          "@ + zig,
            ],
            Ok(()),
        ),
    }
}

fn labelled(label: &str, value: &str) -> (line: String)
    ensures
        line@ == label@ + value@,
{
    let mut line = label.to_owned();
    line.append(value);
    line
}

/// Show the detected toolchain, given the answers to what was asked: the lines
/// to print, and how it ends.
pub fn print_info(
    gleam: &Result<String, String>,
    root: &Result<String, String>,
    release: &Result<String, String>,
    erts: &Result<String, String>,
    zig: &str,
) -> (r: (Vec<String>, Result<(), String>))
    ensures
        (views(r.0@), told(r.1)) == toolchain(said(*gleam), said(*root), said(*release), said(*erts), zig@),
{
    let mut lines: Vec<String> = Vec::new();
    assert(views(lines@) == Seq::<Seq<char>>::empty());
    let path = match root {
        Err(e) => {
            return (lines, Err(e.clone()));
        },
        Ok(path) => path,
    };
    push_text(&mut lines, "panini toolchain".to_owned());
    match gleam {
        Ok(v) => {
            push_text(&mut lines, labelled("  gleam:        ", v.as_str()));
        },
        Err(_) => {
            push_text(&mut lines, labelled("  gleam:        ", "not found"));
        },
    }
    let ghost top = seq![
        "panini toolchain"@,
        "  gleam:        "@ + (match said(*gleam) {
            Ok(v) => v,
            Err(_) => "not found"@,
        }),
    ];
    assert(views(lines@) == top);
    match release {
        Err(e) => {
            return (lines, Err(e.clone()));
        },
        Ok(n) => {
            push_text(&mut lines, labelled("  otp release:  ", n.as_str()));
        },
    }
    match erts {
        Err(e) => {
            return (lines, Err(e.clone()));
        },
        Ok(v) => {
            push_text(&mut lines, labelled("  erts version: ", v.as_str()));
        },
    }
    push_text(&mut lines, labelled("  otp root:     ", path.as_str()));
    push_text(&mut lines, labelled("  zig:          ", zig));
    assert(views(lines@) == toolchain(
        said(*gleam),
        said(*root),
        said(*release),
        said(*erts),
        zig@,
    ).0);
    (lines, Ok(()))
}

} // verus!
