//! Promises on where the parts of an OTP are found.

use vstd::prelude::*;

use crate::laws::text::{
    is_blank, joined_by, splitting_undoes_joining, trimming_takes_white_space_away,
};
use crate::listing::{entry_views, first_entry, Entry, EntryView, Listing};
use crate::otp::{
    erts_dir, first_bootable, first_root, first_value, holds_erts, is_erts, musl_named, musl_tasks,
    release_dir, root_in, toolchain, Nested, Release,
};
use crate::path::joined;
use crate::plan::{ActionView, TaskView};
use crate::text::{begins_with, whitespace};

verus! {

/// Whether an entry is a directory with the emulator of some version.
pub open spec fn is_emulator(name: Option<String>, is_dir: bool) -> bool {
    is_dir && name is Some && exists|version: Seq<char>|
        name->0@ == #[trigger] ("erts-"@ + version)
}

proof fn lemma_emulator(e: EntryView, name: Option<String>)
    requires
        e.name == crate::text::view_of(name),
    ensures
        is_erts()(e) <==> is_emulator(name, e.is_dir),
{
    let key = "erts-"@;
    if name is Some {
        let n = name->0@;
        if begins_with(n, key) {
            let version = n.skip(key.len() as int);
            assert(n == key + version);
        }
        if exists|version: Seq<char>| n == #[trigger] (key + version) {
            let version = choose|version: Seq<char>| n == #[trigger] (key + version);
            assert(n.subrange(0, key.len() as int) == key);
        }
    }
}

proof fn lemma_first_entry(entries: Seq<EntryView>, p: spec_fn(EntryView) -> bool, i: int)
    requires
        0 <= i <= entries.len(),
        forall|k: int| 0 <= k < i ==> !p(#[trigger] entries[k]),
        i < entries.len() ==> p(entries[i]),
    ensures
        first_entry(entries, p) == (if i < entries.len() {
            Some(entries[i].path)
        } else {
            None
        }),
    decreases i,
{
    if i > 0 {
        assert(!p(entries[0]));
        let rest = entries.drop_first();
        assert forall|k: int| 0 <= k < i - 1 implies !p(#[trigger] rest[k]) by {
            assert(rest[k] == entries[k + 1]);
        }
        if i < entries.len() {
            assert(rest[i - 1] == entries[i]);
        }
        lemma_first_entry(rest, p, i - 1);
    }
}

/// The emulator of an OTP is in the first directory whose name is `erts-` and a
/// version; where there is none, that is an error.
pub proof fn emulator_is_found_by_its_name(root: Seq<char>, entries: Vec<Entry>, i: int, e: String)
    requires
        0 <= i <= entries@.len(),
        forall|k: int|
            0 <= k < i ==> !is_emulator((#[trigger] entries@[k]).name, entries@[k].is_dir),
        i < entries@.len() ==> is_emulator(entries@[i].name, entries@[i].is_dir),
    ensures
        i < entries@.len() ==> erts_dir(root, Ok(entries)) == Ok::<Seq<char>, Seq<char>>(
            entries@[i].path@,
        ),
        i == entries@.len() ==> erts_dir(root, Ok(entries)) is Err,
        erts_dir(root, Err(e)) == Err::<Seq<char>, Seq<char>>("read "@ + root + ": "@ + e@),
{
    let all = entry_views(entries@);
    assert forall|k: int| 0 <= k < i implies !is_erts()(#[trigger] all[k]) by {
        assert(all[k] == entries@[k]@);
        lemma_emulator(all[k], entries@[k].name);
    }
    if i < entries@.len() {
        assert(all[i] == entries@[i]@);
        lemma_emulator(all[i], entries@[i].name);
    }
    lemma_first_entry(all, is_erts(), i);
}

proof fn lemma_first_bootable(releases: Seq<Release>, i: int)
    requires
        0 <= i <= releases.len(),
        forall|k: int|
            0 <= k < i ==> !((#[trigger] releases[k]).is_dir && releases[k].has_boot),
        i < releases.len() ==> releases[i].is_dir && releases[i].has_boot,
    ensures
        first_bootable(releases) == (if i < releases.len() {
            Some(releases[i].path@)
        } else {
            None
        }),
    decreases i,
{
    if i > 0 {
        assert(!(releases[0].is_dir && releases[0].has_boot));
        let rest = releases.drop_first();
        assert forall|k: int| 0 <= k < i - 1 implies !((#[trigger] rest[k]).is_dir
            && rest[k].has_boot) by {
            assert(rest[k] == releases[k + 1]);
        }
        if i < releases.len() {
            assert(rest[i - 1] == releases[i]);
        }
        lemma_first_bootable(rest, i - 1);
    }
}

/// The release of an OTP is the first directory that holds the boot file; where
/// there is none, that is an error.
pub proof fn release_is_found_by_its_boot_file(
    root: Seq<char>,
    releases: Vec<Release>,
    i: int,
    e: String,
)
    requires
        0 <= i <= releases@.len(),
        forall|k: int|
            0 <= k < i ==> !((#[trigger] releases@[k]).is_dir && releases@[k].has_boot),
        i < releases@.len() ==> releases@[i].is_dir && releases@[i].has_boot,
    ensures
        i < releases@.len() ==> release_dir(root, Ok(releases)) == Ok::<Seq<char>, Seq<char>>(
            releases@[i].path@,
        ),
        i == releases@.len() ==> release_dir(root, Ok(releases)) is Err,
        release_dir(root, Err(e)) is Err,
{
    lemma_first_bootable(releases@, i);
}

/// Whether an entry of an unpacked archive is itself an OTP: a directory that
/// holds an emulator.
pub open spec fn is_otp(n: Nested) -> bool {
    n.is_dir && n.listing is Ok && exists|k: int|
        0 <= k < n.listing->Ok_0@.len() && is_emulator(
            (#[trigger] n.listing->Ok_0@[k]).name,
            n.listing->Ok_0@[k].is_dir,
        )
}

proof fn lemma_holds_emulator(path: Seq<char>, listing: Listing, e: String)
    ensures
        erts_dir(path, listing) is Ok <==> listing is Ok && exists|k: int|
            0 <= k < listing->Ok_0@.len() && is_emulator(
                (#[trigger] listing->Ok_0@[k]).name,
                listing->Ok_0@[k].is_dir,
            ),
{
    if listing is Ok {
        let entries = listing->Ok_0;
        let i = lemma_least(entries@, entries@.len() as int);
        if i is Some {
            emulator_is_found_by_its_name(path, entries, i->0, e);
        } else {
            emulator_is_found_by_its_name(path, entries, entries@.len() as int, e);
        }
    }
}

proof fn lemma_least(entries: Seq<Entry>, n: int) -> (i: Option<int>)
    requires
        0 <= n <= entries.len(),
    ensures
        match i {
            Some(i) => 0 <= i < n && is_emulator(entries[i].name, entries[i].is_dir) && forall|k:
                int|
                0 <= k < i ==> !is_emulator((#[trigger] entries[k]).name, entries[k].is_dir),
            None => forall|k: int|
                0 <= k < n ==> !is_emulator((#[trigger] entries[k]).name, entries[k].is_dir),
        },
    decreases n,
{
    if n == 0 {
        None
    } else {
        match lemma_least(entries, n - 1) {
            Some(i) => Some(i),
            None => if is_emulator(entries[n - 1].name, entries[n - 1].is_dir) {
                Some(n - 1)
            } else {
                None
            },
        }
    }
}

proof fn lemma_first_root(nested: Seq<Nested>, i: int, e: String)
    requires
        0 <= i <= nested.len(),
        forall|k: int| 0 <= k < i ==> !is_otp(#[trigger] nested[k]),
        i < nested.len() ==> is_otp(nested[i]),
    ensures
        first_root(nested) == (if i < nested.len() {
            Some(nested[i].path@)
        } else {
            None
        }),
    decreases i,
{
    if nested.len() > 0 {
        lemma_holds_emulator(nested[0].path@, nested[0].listing, e);
    }
    if i > 0 {
        assert(!is_otp(nested[0]));
        let rest = nested.drop_first();
        assert forall|k: int| 0 <= k < i - 1 implies !is_otp(#[trigger] rest[k]) by {
            assert(rest[k] == nested[k + 1]);
        }
        if i < nested.len() {
            assert(rest[i - 1] == nested[i]);
        }
        lemma_first_root(rest, i - 1, e);
    }
}

/// An unpacked archive is an OTP where it holds an emulator itself; else the first
/// directory in it that does is; and else there is none.
pub proof fn otp_is_found_in_its_archive(dir: Seq<char>, held: Vec<Nested>, i: int, e: String)
    requires
        0 <= i <= held@.len(),
        forall|k: int| 0 <= k < i ==> !is_otp(#[trigger] held@[k]),
        i < held@.len() ==> is_otp(held@[i]),
    ensures
        ({
            let is_one = exists|k: int|
                0 <= k < held@.len() && is_emulator((#[trigger] held@[k]).name, held@[k].is_dir);
            &&& is_one ==> root_in(dir, Ok(held)) == Ok::<Seq<char>, Seq<char>>(dir)
            &&& !is_one && i < held@.len() ==> root_in(dir, Ok(held)) == Ok::<Seq<char>, Seq<char>>(
                held@[i].path@,
            )
            &&& !is_one && i == held@.len() ==> root_in(dir, Ok(held)) is Err
            &&& root_in(dir, Err(e)) is Err
        }),
{
    assert forall|k: int| 0 <= k < held@.len() implies is_erts()(#[trigger] held@[k].entry())
        == is_emulator(held@[k].name, held@[k].is_dir) by {
        lemma_emulator(held@[k].entry(), held@[k].name);
    }
    if exists|k: int|
        0 <= k < held@.len() && is_emulator((#[trigger] held@[k]).name, held@[k].is_dir) {
        let k = choose|k: int|
            0 <= k < held@.len() && is_emulator((#[trigger] held@[k]).name, held@[k].is_dir);
        assert(is_erts()(held@[k].entry()));
        assert(holds_erts(held@));
    } else {
        assert(!holds_erts(held@));
    }
    lemma_first_root(held@, i, e);
}

proof fn lemma_first_value(lines: Seq<Seq<char>>, key: Seq<char>, i: int)
    requires
        0 <= i <= lines.len(),
        forall|k: int| 0 <= k < i ==> !begins_with(#[trigger] lines[k], key),
        i < lines.len() ==> begins_with(lines[i], key),
    ensures
        first_value(lines, key) == (if i < lines.len() {
            Some(crate::text::trimmed(lines[i].skip(key.len() as int)))
        } else {
            None
        }),
    decreases i,
{
    if i > 0 {
        assert(!begins_with(lines[0], key));
        let rest = lines.drop_first();
        assert forall|k: int| 0 <= k < i - 1 implies !begins_with(#[trigger] rest[k], key) by {
            assert(rest[k] == lines[k + 1]);
        }
        if i < lines.len() {
            assert(rest[i - 1] == lines[i]);
        }
        lemma_first_value(rest, key, i - 1);
    }
}

/// Whether a line of a manifest says something else than a hash.
pub open spec fn is_other_entry(line: Seq<char>) -> bool {
    forall|value: Seq<char>| line != #[trigger] ("MUSL_HASH="@ + value)
}

proof fn lemma_other_entry(line: Seq<char>)
    ensures
        is_other_entry(line) <==> !begins_with(line, "MUSL_HASH="@),
{
    let key = "MUSL_HASH="@;
    if begins_with(line, key) {
        assert(line == key + line.skip(key.len() as int));
    }
    if !is_other_entry(line) {
        let value = choose|value: Seq<char>| line == #[trigger] (key + value);
        assert(line.subrange(0, key.len() as int) == key);
    }
}

/// The hash of a libc is what stands behind `MUSL_HASH=` on the first line of a
/// manifest that has it there, however many lines there are.
pub proof fn hash_is_that_of_its_line(
    lines: Seq<Seq<char>>,
    i: int,
    before: Seq<char>,
    hash: Seq<char>,
    behind: Seq<char>,
)
    requires
        0 <= i < lines.len(),
        forall|k: int| 0 <= k < lines.len() ==> !(#[trigger] lines[k]).contains('\n'),
        forall|k: int| 0 <= k < i ==> is_other_entry(#[trigger] lines[k]),
        lines[i] == "MUSL_HASH="@ + (before + hash + behind),
        is_blank(before),
        is_blank(behind),
        hash.len() > 0 ==> !whitespace(hash[0]) && !whitespace(hash.last()),
    ensures
        musl_named(Ok(joined_by(lines, '\n'))) == Ok::<Seq<char>, Seq<char>>(hash),
{
    let key = "MUSL_HASH="@;
    splitting_undoes_joining(lines, '\n');
    assert forall|k: int| 0 <= k < i implies !begins_with(#[trigger] lines[k], key) by {
        lemma_other_entry(lines[k]);
    }
    lemma_other_entry(lines[i]);
    assert(lines[i].skip(key.len() as int) == before + hash + behind);
    lemma_first_value(lines, key, i);
    trimming_takes_white_space_away(before, hash, behind);
}

/// A manifest without such a line, or none, names no libc.
pub proof fn manifests_without_a_hash_are_refused(lines: Seq<Seq<char>>, e: Seq<char>)
    requires
        lines.len() > 0,
        forall|k: int| 0 <= k < lines.len() ==> !(#[trigger] lines[k]).contains('\n'),
        forall|k: int| 0 <= k < lines.len() ==> is_other_entry(#[trigger] lines[k]),
    ensures
        musl_named(Ok(joined_by(lines, '\n'))) is Err,
        musl_named(Err(e)) == Err::<Seq<char>, Seq<char>>("read runtime manifest: "@ + e),
{
    let key = "MUSL_HASH="@;
    splitting_undoes_joining(lines, '\n');
    assert forall|k: int| 0 <= k < lines.len() implies !begins_with(#[trigger] lines[k], key) by {
        lemma_other_entry(lines[k]);
    }
    lemma_first_value(lines, key, lines.len() as int);
}

/// A libc is fetched by its hash, once, and made fit to be run.
pub proof fn libc_is_fetched_by_its_hash(hash: Seq<char>, cache: Seq<char>)
    ensures
        ({
            let file = "libc-musl-"@ + hash + ".so"@;
            let so = joined(joined(cache, "musl"@), file);
            let url = "https://beam-machine-universal.b-cdn.net/musl/"@ + file
                + "?please-respect-my-bandwidth-costs=thank-you"@;
            let tasks = musl_tasks(hash, cache);
            &&& tasks.len() == 6
            &&& tasks[1] == (TaskView::SkipIfExists { path: so, count: 3 })
            &&& tasks[3] matches TaskView::Must { action, .. } && (
            action matches ActionView::Run(i) && i.program == "curl"@ && i.args.contains(url))
            &&& tasks[4] matches TaskView::Must { action, .. } && (
            action matches ActionView::Rename { to, .. } && to == so)
            &&& tasks[5] matches TaskView::Must { action, .. } && action
                == ActionView::MakeExecutable(so)
        }),
{
    let file = "libc-musl-"@ + hash + ".so"@;
    let url = "https://beam-machine-universal.b-cdn.net/musl/"@ + file
        + "?please-respect-my-bandwidth-costs=thank-you"@;
    let i = musl_tasks(hash, cache)[3]->Must_action->Run_0;
    assert(i.args[5] == url);
}

/// What is shown of the toolchain is what each tool said, behind its label, and
/// the first of the Erlang's answers that failed is what it ends with.
pub proof fn toolchain_is_shown_as_it_answers(
    gleam: Result<Seq<char>, Seq<char>>,
    root: Seq<char>,
    release: Seq<char>,
    erts: Seq<char>,
    zig: Seq<char>,
    e: Seq<char>,
    other: Result<Seq<char>, Seq<char>>,
    another: Result<Seq<char>, Seq<char>>,
)
    ensures
        ({
            let r = toolchain(gleam, Ok(root), Ok(release), Ok(erts), zig);
            &&& r.1 is Ok
            &&& r.0 == seq![
                "panini toolchain"@,
                "  gleam:        "@ + (if gleam is Ok {
                    gleam->Ok_0
                } else {
                    "not found"@
                }),
                "  otp release:  "@ + release,
                "  erts version: "@ + erts,
                "  otp root:     "@ + root,
                "  zig:          "@ + zig,
            ]
        }),
        toolchain(gleam, Err(e), other, another, zig).1 == Err::<(), Seq<char>>(e),
        toolchain(gleam, Ok(root), Err(e), another, zig).1 == Err::<(), Seq<char>>(e),
        toolchain(gleam, Ok(root), Ok(release), Err(e), zig).1 == Err::<(), Seq<char>>(e),
        toolchain(gleam, Err(e), other, another, zig).0.len() == 0,
{
    let r = toolchain(gleam, Ok(root), Ok(release), Ok(erts), zig);
    assert(r.0 == seq![
        "panini toolchain"@,
        "  gleam:        "@ + (if gleam is Ok {
            gleam->Ok_0
        } else {
            "not found"@
        }),
        "  otp release:  "@ + release,
        "  erts version: "@ + erts,
        "  otp root:     "@ + root,
        "  zig:          "@ + zig,
    ]);
}

} // verus!
