//! Promises on the search for `.app` files.

use vstd::prelude::*;

use crate::laws::path::{is_plain_name, names_come_last};
use crate::listing::EntryView;
use crate::walk::{has_app_ending, is_app_file, is_subdir, own_files, paths_where, subdirs};

verus! {

/// A file is an `.app` file exactly where its name is something followed by
/// `.app`, wherever it lies.
pub proof fn app_files_are_told_by_their_name(dir: Seq<char>, name: Seq<char>, stem: Seq<char>)
    requires
        !stem.contains('/'),
    ensures
        stem.len() > 0 ==> has_app_ending(dir + seq!['/'] + (stem + ".app"@)),
        is_plain_name(name) && has_app_ending(dir + seq!['/'] + name) ==> exists|s: Seq<char>|
            s.len() > 0 && name == #[trigger] (s + ".app"@),
        !has_app_ending(dir + "/.app"@),
{
    reveal_strlit(".app");
    reveal_strlit("/.app");
    let none = Seq::<char>::empty();
    let app = stem + ".app"@;
    let path = dir + seq!['/'] + name;
    if is_plain_name(name) && has_app_ending(path) {
        assert(path + none == path);
        names_come_last(dir, name, none);
        let s = name.take(name.len() - 4);
        assert(name == s + ".app"@);
    }
    if stem.len() > 0 {
        assert forall|i: int| 0 <= i < app.len() implies app[i] != '/' by {
            if i < stem.len() {
                assert(app[i] == stem[i]);
            } else {
                assert(app[i] == ".app"@[i - stem.len()]);
            }
        }
        let p = dir + seq!['/'] + app;
        assert(p + none == p);
        names_come_last(dir, app, none);
        assert(app.skip(app.len() - 4) == ".app"@);
    }
    let bare = ".app"@;
    let q = dir + seq!['/'] + bare;
    assert(q == dir + "/.app"@);
    assert(q + none == q);
    assert forall|i: int| 0 <= i < bare.len() implies bare[i] != '/' by {}
    names_come_last(dir, bare, none);
}

proof fn lemma_taken(entries: Seq<EntryView>, p: spec_fn(EntryView) -> bool, n: int, i: int)
    requires
        0 <= i < n <= entries.len(),
        p(entries[i]),
    ensures
        paths_where(entries, p, n).contains(entries[i].path),
    decreases n,
{
    let all = paths_where(entries, p, n);
    if i == n - 1 {
        assert(all.last() == entries[i].path);
    } else {
        lemma_taken(entries, p, n - 1, i);
        let before = paths_where(entries, p, n - 1);
        let k = choose|k: int| 0 <= k < before.len() && before[k] == entries[i].path;
        assert(all[k] == entries[i].path);
    }
}

proof fn lemma_from(entries: Seq<EntryView>, p: spec_fn(EntryView) -> bool, n: int, k: int) -> (i:
    int)
    requires
        0 <= n <= entries.len(),
        0 <= k < paths_where(entries, p, n).len(),
    ensures
        0 <= i < n,
        p(entries[i]),
        paths_where(entries, p, n)[k] == entries[i].path,
    decreases n,
{
    let before = paths_where(entries, p, n - 1);
    if k < before.len() {
        lemma_from(entries, p, n - 1, k)
    } else {
        n - 1
    }
}

/// Every directory that a listing shows is looked into, and every `.app` file in
/// it is found.
pub proof fn nothing_listed_is_passed_over(
    entries: Seq<EntryView>,
    i: int,
    dir: Seq<char>,
    stem: Seq<char>,
)
    requires
        0 <= i < entries.len(),
        stem.len() > 0,
        !stem.contains('/'),
    ensures
        entries[i].is_dir ==> subdirs(Ok(entries)).contains(entries[i].path),
        !entries[i].is_dir && entries[i].path == dir + seq!['/'] + (stem + ".app"@) ==> own_files(
            Ok(entries),
        ).contains(entries[i].path),
{
    if entries[i].is_dir {
        lemma_taken(entries, is_subdir(), entries.len() as int, i);
    } else if entries[i].path == dir + seq!['/'] + (stem + ".app"@) {
        app_files_are_told_by_their_name(dir, stem, stem);
        lemma_taken(entries, is_app_file(), entries.len() as int, i);
    }
}

/// Nothing else is: what is looked into is a directory that the listing shows,
/// and what is found is a file that it shows.
pub proof fn only_what_is_listed_is_found(entries: Seq<EntryView>, e: Seq<char>, k: int)
    ensures
        0 <= k < subdirs(Ok(entries)).len() ==> exists|i: int|
            0 <= i < entries.len() && (#[trigger] entries[i]).is_dir && entries[i].path == subdirs(
                Ok(entries),
            )[k],
        0 <= k < own_files(Ok(entries)).len() ==> exists|i: int|
            0 <= i < entries.len() && !(#[trigger] entries[i]).is_dir && entries[i].path
                == own_files(Ok(entries))[k],
        subdirs(Err(e)).len() == 0,
        own_files(Err(e)).len() == 0,
{
    let n = entries.len() as int;
    if 0 <= k < subdirs(Ok(entries)).len() {
        let i = lemma_from(entries, is_subdir(), n, k);
        assert(entries[i].is_dir);
    }
    if 0 <= k < own_files(Ok(entries)).len() {
        let i = lemma_from(entries, is_app_file(), n, k);
        assert(!entries[i].is_dir);
    }
}

} // verus!
