//! Searching a directory and those below it for `.app` files.

use vstd::prelude::*;

use crate::listing::{entry_views, listed, EntryView, Listing};
use crate::path::{base_name, joined, last_name};
use crate::text::{chars, same, views};

verus! {

/// Being a directory to look into.
pub open spec fn is_subdir() -> spec_fn(EntryView) -> bool {
    |e: EntryView| e.is_dir
}

/// Having the extension `app`, as the last component of a path.
pub open spec fn has_app_ending(path: Seq<char>) -> bool {
    let name = last_name(path);
    name.len() > 4 && name.skip(name.len() - 4) == ".app"@
}

/// Being an `.app` file.
pub open spec fn is_app_file() -> spec_fn(EntryView) -> bool {
    |e: EntryView| !e.is_dir && has_app_ending(e.path)
}

/// The paths of those of the first `n` entries that have some property, in order.
pub open spec fn paths_where(
    entries: Seq<EntryView>,
    p: spec_fn(EntryView) -> bool,
    n: int,
) -> Seq<Seq<char>>
    decreases n,
{
    if n <= 0 {
        Seq::empty()
    } else if p(entries[n - 1]) {
        paths_where(entries, p, n - 1).push(entries[n - 1].path)
    } else {
        paths_where(entries, p, n - 1)
    }
}

/// A search for `.app` files, depth first: the directories still to be listed,
/// the next one last, and the files found.
pub struct Walk {
    pub pending: Vec<String>,
    pub found: Vec<String>,
}

fn has_app_extension(path: &str) -> (r: bool)
    ensures
        r == has_app_ending(path@),
{
    let name = base_name(path);
    let n: usize = chars(name.as_str()).len();
    if n > 4 {
        assert(name@.subrange(n - 4, n as int) == name@.skip(n - 4));
        same(name.as_str().substring_char(n - 4, n), ".app")
    } else {
        false
    }
}

/// The directories that a listing shows; none where there is none.
pub open spec fn subdirs(listing: Result<Seq<EntryView>, Seq<char>>) -> Seq<Seq<char>> {
    match listing {
        Ok(entries) => paths_where(entries, is_subdir(), entries.len() as int),
        Err(_) => Seq::empty(),
    }
}

/// The `.app` files that a listing shows; none where there is none.
pub open spec fn own_files(listing: Result<Seq<EntryView>, Seq<char>>) -> Seq<Seq<char>> {
    match listing {
        Ok(entries) => paths_where(entries, is_app_file(), entries.len() as int),
        Err(_) => Seq::empty(),
    }
}

impl Walk {
    /// A search that starts at a directory.
    pub fn starting_at(dir: &str) -> (walk: Walk)
        ensures
            views(walk.pending@) == seq![dir@],
            walk.found@.len() == 0,
    {
        let mut pending: Vec<String> = Vec::new();
        pending.push(dir.to_owned());
        assert(views(pending@) == seq![dir@]);
        Walk { pending, found: Vec::new() }
    }

    /// The directory to list next, which is then no longer pending; none where
    /// the search is done.
    pub fn next_dir(&mut self) -> (dir: Option<String>)
        ensures
            final(self).found == old(self).found,
            match dir {
                Some(d) => views(old(self).pending@) == views(final(self).pending@).push(d@),
                None => old(self).pending@.len() == 0 && final(self).pending@.len() == 0,
            },
    {
        let dir = self.pending.pop();
        proof {
            if dir is Some {
                assert(old(self).pending@ == self.pending@.push(dir->0));
                assert(views(old(self).pending@) == views(self.pending@).push(dir->0@));
            }
        }
        dir
    }

    /// Take note of what a directory holds: its directories are pending then,
    /// its `.app` files found. One that could not be read is passed over.
    pub fn visit(&mut self, listing: &Listing)
        ensures
            views(final(self).pending@) == views(old(self).pending@) + subdirs(listed(*listing)),
            views(final(self).found@) == views(old(self).found@) + own_files(listed(*listing)),
    {
        if let Ok(entries) = listing {
            let ghost es = entry_views(entries@);
            let ghost pending = views(self.pending@);
            let ghost found = views(self.found@);
            let mut i: usize = 0;
            assert(pending == pending + paths_where(es, is_subdir(), 0));
            assert(found == found + paths_where(es, is_app_file(), 0));
            while i < entries.len()
                invariant
                    i <= entries@.len(),
                    es == entry_views(entries@),
                    views(self.pending@) == pending + paths_where(es, is_subdir(), i as int),
                    views(self.found@) == found + paths_where(es, is_app_file(), i as int),
                decreases entries@.len() - i,
            {
                let ghost p = self.pending@;
                let ghost f = self.found@;
                assert(es[i as int] == entries@[i as int]@);
                if entries[i].is_dir {
                    self.pending.push(entries[i].path.clone());
                    assert(views(self.pending@) == views(p).push(es[i as int].path));
                } else if has_app_extension(entries[i].path.as_str()) {
                    self.found.push(entries[i].path.clone());
                    assert(views(self.found@) == views(f).push(es[i as int].path));
                }
                proof {
                    assert(views(self.pending@) == pending + paths_where(es, is_subdir(), i + 1));
                    assert(views(self.found@) == found + paths_where(es, is_app_file(), i + 1));
                }
                i = i + 1;
            }
        }
    }
}

/// A file system: what listing each of its directories shows.
pub type Files = spec_fn(Seq<char>) -> Result<Seq<EntryView>, Seq<char>>;

/// What is pending and what was found after listing `n` directories, in turn, or
/// as many as there are.
pub open spec fn walked(
    files: Files,
    pending: Seq<Seq<char>>,
    found: Seq<Seq<char>>,
    n: nat,
) -> (Seq<Seq<char>>, Seq<Seq<char>>)
    decreases n,
{
    if n == 0 || pending.len() == 0 {
        (pending, found)
    } else {
        let listing = files(pending.last());
        walked(
            files,
            pending.drop_last() + subdirs(listing),
            found + own_files(listing),
            (n - 1) as nat,
        )
    }
}

/// Whether no path of directories from `dir` down is longer than `h`.
pub open spec fn is_within(files: Files, dir: Seq<char>, h: nat) -> bool
    decreases h,
{
    h > 0 && forall|i: int|
        0 <= i < subdirs(files(dir)).len() ==> is_within(
            files,
            #[trigger] subdirs(files(dir))[i],
            (h - 1) as nat,
        )
}

/// Whether no path of directories from any of `dirs` down is longer than `h`.
pub open spec fn are_within(files: Files, dirs: Seq<Seq<char>>, h: nat) -> bool {
    forall|i: int| 0 <= i < dirs.len() ==> is_within(files, #[trigger] dirs[i], h)
}

/// The `.app` files in a directory and in those below it: its own, then those
/// of its directories, from the last to the first.
pub open spec fn files_below(files: Files, dir: Seq<char>, h: nat) -> Seq<Seq<char>>
    decreases h, 0nat,
{
    if h == 0 {
        Seq::empty()
    } else {
        own_files(files(dir)) + files_below_all(files, subdirs(files(dir)), (h - 1) as nat)
    }
}

/// The `.app` files in directories and below, from the last directory to the
/// first.
pub open spec fn files_below_all(files: Files, dirs: Seq<Seq<char>>, h: nat) -> Seq<Seq<char>>
    decreases h, dirs.len() + 1,
{
    if dirs.len() == 0 {
        Seq::empty()
    } else {
        files_below(files, dirs.last(), h) + files_below_all(files, dirs.drop_last(), h)
    }
}

/// How many directories there are, each with those below it.
pub open spec fn count_all(files: Files, dirs: Seq<Seq<char>>, h: nat) -> nat
    decreases h, dirs.len(),
{
    if h == 0 || dirs.len() == 0 {
        0
    } else {
        1 + count_all(files, subdirs(files(dirs.last())), (h - 1) as nat) + count_all(
            files,
            dirs.drop_last(),
            h,
        )
    }
}

/// Directories at the end of what is pending are done with, all that is below
/// them included, before any other is listed.
proof fn lemma_walked(
    files: Files,
    before: Seq<Seq<char>>,
    dirs: Seq<Seq<char>>,
    found: Seq<Seq<char>>,
    h: nat,
    n: nat,
)
    requires
        are_within(files, dirs, h),
        n >= count_all(files, dirs, h),
    ensures
        walked(files, before + dirs, found, n) == walked(
            files,
            before,
            found + files_below_all(files, dirs, h),
            (n - count_all(files, dirs, h)) as nat,
        ),
    decreases h, dirs.len(),
{
    if dirs.len() == 0 {
        assert(before + dirs == before);
        assert(found + files_below_all(files, dirs, h) == found);
    } else {
        let dir = dirs.last();
        assert(is_within(files, dirs[dirs.len() - 1], h));
        let listing = files(dir);
        let subs = subdirs(listing);
        let k = (h - 1) as nat;
        let rest = dirs.drop_last();
        assert((before + dirs).last() == dir);
        assert((before + dirs).drop_last() + subs == (before + rest) + subs);
        assert forall|i: int| 0 <= i < rest.len() implies is_within(files, #[trigger] rest[i], h) by {
            assert(rest[i] == dirs[i]);
        }
        let one = found + own_files(listing);
        lemma_walked(files, before + rest, subs, one, k, (n - 1) as nat);
        let two = one + files_below_all(files, subs, k);
        let m = (n - 1 - count_all(files, subs, k)) as nat;
        lemma_walked(files, before, rest, two, h, m);
        assert(two == found + files_below(files, dir, h));
        assert(two + files_below_all(files, rest, h) == found + files_below_all(files, dirs, h));
    }
}

/// A search from a directory ends, and then has found the `.app` files in it
/// and in the directories below, and nothing else, where these go no deeper
/// than some depth.
pub proof fn finished_walk_has_found_the_files(files: Files, dir: Seq<char>, h: nat)
    requires
        is_within(files, dir, h),
    ensures
        walked(
            files,
            seq![dir],
            Seq::empty(),
            count_all(files, seq![dir], h),
        ) == (Seq::<Seq<char>>::empty(), files_below(files, dir, h)),
{
    let none = Seq::<Seq<char>>::empty();
    let dirs = seq![dir];
    assert(are_within(files, dirs, h));
    lemma_walked(files, none, dirs, none, h, count_all(files, dirs, h));
    assert(none + dirs == dirs);
    assert(dirs.drop_last() == none);
    assert(files_below_all(files, none, h) == none);
    assert(files_below_all(files, dirs, h) == files_below(files, dir, h) + none);
    assert(none + files_below_all(files, dirs, h) == files_below(files, dir, h));
}

/// Whether a path is that of an `.app` file in a directory or in one below it.
pub open spec fn lies_below(files: Files, dir: Seq<char>, path: Seq<char>, h: nat) -> bool
    decreases h,
{
    h > 0 && files(dir) is Ok && exists|i: int|
        0 <= i < files(dir)->Ok_0.len() && {
            let e = #[trigger] files(dir)->Ok_0[i];
            is_app_file()(e) && e.path == path || e.is_dir && lies_below(
                files,
                e.path,
                path,
                (h - 1) as nat,
            )
        }
}

proof fn lemma_paths_where(
    entries: Seq<EntryView>,
    p: spec_fn(EntryView) -> bool,
    n: int,
    path: Seq<char>,
)
    requires
        0 <= n <= entries.len(),
    ensures
        paths_where(entries, p, n).contains(path) <==> exists|i: int|
            0 <= i < n && p(#[trigger] entries[i]) && entries[i].path == path,
    decreases n,
{
    if n > 0 {
        lemma_paths_where(entries, p, n - 1, path);
        let before = paths_where(entries, p, n - 1);
        let all = paths_where(entries, p, n);
        if before.contains(path) {
            let k = choose|k: int| 0 <= k < before.len() && before[k] == path;
            assert(all[k] == path);
        }
        if p(entries[n - 1]) && entries[n - 1].path == path {
            assert(all.last() == path);
        }
        if all.contains(path) && !before.contains(path) {
            let k = choose|k: int| 0 <= k < all.len() && all[k] == path;
            assert(k == before.len());
            assert(p(entries[n - 1]));
        }
    }
}

proof fn lemma_below_all(files: Files, dirs: Seq<Seq<char>>, path: Seq<char>, h: nat)
    ensures
        files_below_all(files, dirs, h).contains(path) <==> exists|i: int|
            0 <= i < dirs.len() && files_below(files, #[trigger] dirs[i], h).contains(path),
    decreases dirs.len(),
{
    if dirs.len() > 0 {
        let rest = dirs.drop_last();
        lemma_below_all(files, rest, path, h);
        let (a, b) = (files_below(files, dirs.last(), h), files_below_all(files, rest, h));
        lemma_contains_either(a, b, path);
        assert forall|i: int| 0 <= i < rest.len() implies #[trigger] rest[i] == dirs[i] by {}
        if a.contains(path) {
            assert(files_below(files, dirs[dirs.len() - 1], h).contains(path));
        }
        if b.contains(path) {
            let i = choose|i: int|
                0 <= i < rest.len() && files_below(files, #[trigger] rest[i], h).contains(path);
            assert(files_below(files, dirs[i], h).contains(path));
        }
        if exists|i: int|
            0 <= i < dirs.len() && files_below(files, #[trigger] dirs[i], h).contains(path) {
            let i = choose|i: int|
                0 <= i < dirs.len() && files_below(files, #[trigger] dirs[i], h).contains(path);
            if i < rest.len() {
                assert(files_below(files, rest[i], h).contains(path));
            }
        }
    }
}

proof fn lemma_contains_either(a: Seq<Seq<char>>, b: Seq<Seq<char>>, path: Seq<char>)
    ensures
        (a + b).contains(path) <==> a.contains(path) || b.contains(path),
{
    if a.contains(path) {
        let k = choose|k: int| 0 <= k < a.len() && a[k] == path;
        assert((a + b)[k] == path);
    }
    if b.contains(path) {
        let k = choose|k: int| 0 <= k < b.len() && b[k] == path;
        assert((a + b)[a.len() + k] == path);
    }
    if (a + b).contains(path) {
        let k = choose|k: int| 0 <= k < (a + b).len() && (a + b)[k] == path;
        if k < a.len() {
            assert(a[k] == path);
        } else {
            assert(b[k - a.len()] == path);
        }
    }
}

/// What a finished search has found are the `.app` files in the directory and
/// below it: all of them, and nothing else.
pub proof fn found_files_are_those_below(files: Files, dir: Seq<char>, path: Seq<char>, h: nat)
    ensures
        files_below(files, dir, h).contains(path) <==> lies_below(files, dir, path, h),
    decreases h,
{
    if h > 0 && files(dir) is Ok {
        let es = files(dir)->Ok_0;
        let k = (h - 1) as nat;
        let subs = subdirs(files(dir));
        let (a, b) = (own_files(files(dir)), files_below_all(files, subs, k));
        lemma_contains_either(a, b, path);
        lemma_paths_where(es, is_app_file(), es.len() as int, path);
        lemma_below_all(files, subs, path, k);
        assert forall|i: int| 0 <= i < es.len() && (#[trigger] es[i]).is_dir implies (
        files_below(files, es[i].path, k).contains(path) <==> lies_below(
            files,
            es[i].path,
            path,
            k,
        )) && subs.contains(es[i].path) by {
            found_files_are_those_below(files, es[i].path, path, k);
            lemma_paths_where(es, is_subdir(), es.len() as int, es[i].path);
        }
        if b.contains(path) {
            let j = choose|j: int|
                0 <= j < subs.len() && files_below(files, #[trigger] subs[j], k).contains(path);
            assert(subs.contains(subs[j]));
            lemma_paths_where(es, is_subdir(), es.len() as int, subs[j]);
            let i = choose|i: int|
                0 <= i < es.len() && is_subdir()(#[trigger] es[i]) && es[i].path == subs[j];
            assert(lies_below(files, es[i].path, path, k));
        }
        if lies_below(files, dir, path, h) {
            let i = choose|i: int|
                0 <= i < es.len() && {
                    let e = #[trigger] es[i];
                    is_app_file()(e) && e.path == path || e.is_dir && lies_below(
                        files,
                        e.path,
                        path,
                        k,
                    )
                };
            if !(is_app_file()(es[i]) && es[i].path == path) {
                let j = choose|j: int| 0 <= j < subs.len() && subs[j] == es[i].path;
                assert(files_below(files, subs[j], k).contains(path));
            }
        }
    } else if h > 0 {
        assert(files_below_all(files, Seq::empty(), (h - 1) as nat) == Seq::<Seq<char>>::empty());
    }
}

/// Being the path of something with a name of its own in a directory.
pub open spec fn is_child(dir: Seq<char>, path: Seq<char>) -> bool {
    exists|name: Seq<char>|
        name.len() > 0 && !name.contains('/') && path == #[trigger] joined(dir, name)
}

/// Whether what each listing shows is in the directory listed, under a name of
/// its own.
pub open spec fn is_tree(files: Files) -> bool {
    &&& forall|dir: Seq<char>, i: int|
        files(dir) is Ok && 0 <= i < files(dir)->Ok_0.len() ==> is_child(
            dir,
            (#[trigger] files(dir)->Ok_0[i]).path,
        )
    &&& forall|dir: Seq<char>, i: int, j: int|
        files(dir) is Ok && 0 <= i < j < files(dir)->Ok_0.len() ==> (
        #[trigger] files(dir)->Ok_0[i]).path != (#[trigger] files(dir)->Ok_0[j]).path
}

/// What the paths of all that is in a directory begin with.
spec fn start_of(dir: Seq<char>) -> Seq<char> {
    joined(dir, Seq::empty())
}

proof fn lemma_child(dir: Seq<char>, path: Seq<char>) -> (name: Seq<char>)
    requires
        is_child(dir, path),
    ensures
        name.len() > 0,
        !name.contains('/'),
        path == start_of(dir) + name,
        start_of(path) == path + seq!['/'],
{
    let name = choose|name: Seq<char>|
        name.len() > 0 && !name.contains('/') && path == #[trigger] joined(dir, name);
    reveal_strlit("/");
    assert("/"@ == seq!['/']);
    assert(name.contains(name[0]) && name.contains(name.last()));
    assert(path == start_of(dir) + name);
    assert(path.last() == name.last());
    assert(start_of(path) == path + seq!['/']);
    name
}

/// What is in a directory or below it has a path that begins as the directory
/// says.
proof fn lemma_begins(files: Files, dir: Seq<char>, path: Seq<char>, h: nat) -> (rest: Seq<char>)
    requires
        is_tree(files),
        lies_below(files, dir, path, h),
    ensures
        path == start_of(dir) + rest,
    decreases h,
{
    let es = files(dir)->Ok_0;
    let k = (h - 1) as nat;
    let i = choose|i: int|
        0 <= i < es.len() && {
            let e = #[trigger] es[i];
            is_app_file()(e) && e.path == path || e.is_dir && lies_below(files, e.path, path, k)
        };
    let name = lemma_child(dir, es[i].path);
    if is_app_file()(es[i]) && es[i].path == path {
        name
    } else {
        let rest = lemma_begins(files, es[i].path, path, k);
        let all = name + seq!['/'] + rest;
        assert(path == start_of(dir) + all);
        all
    }
}

/// Two names with something below each are told apart by what stands before
/// the first separator.
proof fn lemma_first_component(
    start: Seq<char>,
    a: Seq<char>,
    b: Seq<char>,
    x: Seq<char>,
    y: Seq<char>,
)
    requires
        !a.contains('/'),
        !b.contains('/'),
        start + a + seq!['/'] + x == start + b + seq!['/'] + y,
    ensures
        a == b,
{
    let p = start + a + seq!['/'] + x;
    let q = start + b + seq!['/'] + y;
    let n = start.len() as int;
    assert(p[n + a.len()] == '/');
    assert(q[n + b.len()] == '/');
    if a.len() < b.len() {
        assert(q[n + a.len()] == b[a.len() as int]);
        assert(b.contains(b[a.len() as int]));
    } else if b.len() < a.len() {
        assert(p[n + b.len()] == a[b.len() as int]);
        assert(a.contains(a[b.len() as int]));
    } else {
        assert forall|i: int| 0 <= i < a.len() implies a[i] == b[i] by {
            assert(p[n + i] == a[i] && q[n + i] == b[i]);
        }
        assert(a == b);
    }
}

proof fn lemma_paths_differ(entries: Seq<EntryView>, p: spec_fn(EntryView) -> bool, n: int)
    requires
        0 <= n <= entries.len(),
        forall|i: int, j: int|
            0 <= i < j < entries.len() ==> (#[trigger] entries[i]).path != (
            #[trigger] entries[j]).path,
    ensures
        paths_where(entries, p, n).no_duplicates(),
    decreases n,
{
    if n > 0 {
        lemma_paths_differ(entries, p, n - 1);
        let before = paths_where(entries, p, n - 1);
        if p(entries[n - 1]) {
            lemma_paths_where(entries, p, n - 1, entries[n - 1].path);
            assert(!before.contains(entries[n - 1].path));
            lemma_joined_without_duplicates(before, seq![entries[n - 1].path]);
            assert(paths_where(entries, p, n) == before + seq![entries[n - 1].path]);
        }
    }
}

proof fn lemma_joined_without_duplicates(a: Seq<Seq<char>>, b: Seq<Seq<char>>)
    requires
        a.no_duplicates(),
        b.no_duplicates(),
        forall|i: int| 0 <= i < b.len() ==> !a.contains(#[trigger] b[i]),
    ensures
        (a + b).no_duplicates(),
{
    let s = a + b;
    assert forall|i: int, j: int| 0 <= i < s.len() && 0 <= j < s.len() && i != j implies s[i]
        != s[j] by {
        if i < a.len() && j >= a.len() {
            assert(s[j] == b[j - a.len()]);
            assert(a.contains(a[i]));
        } else if j < a.len() && i >= a.len() {
            assert(s[i] == b[i - a.len()]);
            assert(a.contains(a[j]));
        }
    }
}

proof fn lemma_below_all_differ(files: Files, dir: Seq<char>, dirs: Seq<Seq<char>>, h: nat)
    requires
        is_tree(files),
        dirs.no_duplicates(),
        forall|i: int| 0 <= i < dirs.len() ==> is_child(dir, #[trigger] dirs[i]),
    ensures
        files_below_all(files, dirs, h).no_duplicates(),
    decreases h, dirs.len() + 1,
{
    if dirs.len() > 0 {
        let rest = dirs.drop_last();
        let last = dirs.last();
        assert forall|i: int| 0 <= i < rest.len() implies is_child(dir, #[trigger] rest[i]) by {
            assert(rest[i] == dirs[i]);
        }
        lemma_below_all_differ(files, dir, rest, h);
        no_file_is_found_twice(files, last, h);
        let (a, b) = (files_below(files, last, h), files_below_all(files, rest, h));
        assert forall|j: int| 0 <= j < b.len() implies !a.contains(#[trigger] b[j]) by {
            if a.contains(b[j]) {
                let path = b[j];
                assert(b.contains(path));
                lemma_below_all(files, rest, path, h);
                let i = choose|i: int|
                    0 <= i < rest.len() && files_below(files, #[trigger] rest[i], h).contains(path);
                found_files_are_those_below(files, rest[i], path, h);
                found_files_are_those_below(files, last, path, h);
                assert(is_child(dir, dirs[i]) && is_child(dir, dirs[dirs.len() - 1]));
                let m = lemma_child(dir, rest[i]);
                let n = lemma_child(dir, last);
                let x = lemma_begins(files, rest[i], path, h);
                let y = lemma_begins(files, last, path, h);
                let start = start_of(dir);
                assert(path == start + m + seq!['/'] + x);
                assert(path == start + n + seq!['/'] + y);
                lemma_first_component(start, m, n, x, y);
                assert(dirs[i] == dirs[dirs.len() - 1]);
            }
        }
        lemma_joined_without_duplicates(a, b);
    }
}

/// A finished search has found no file twice, where what a listing shows is in
/// the directory listed, under a name of its own.
pub proof fn no_file_is_found_twice(files: Files, dir: Seq<char>, h: nat)
    requires
        is_tree(files),
    ensures
        files_below(files, dir, h).no_duplicates(),
    decreases h, 0nat,
{
    if h > 0 && files(dir) is Ok {
        let es = files(dir)->Ok_0;
        let n = es.len() as int;
        let k = (h - 1) as nat;
        let subs = subdirs(files(dir));
        let (a, b) = (own_files(files(dir)), files_below_all(files, subs, k));
        lemma_paths_differ(es, is_app_file(), n);
        lemma_paths_differ(es, is_subdir(), n);
        assert forall|i: int| 0 <= i < subs.len() implies is_child(dir, #[trigger] subs[i]) by {
            assert(subs.contains(subs[i]));
            lemma_paths_where(es, is_subdir(), n, subs[i]);
        }
        lemma_below_all_differ(files, dir, subs, k);
        assert forall|j: int| 0 <= j < b.len() implies !a.contains(#[trigger] b[j]) by {
            if a.contains(b[j]) {
                let path = b[j];
                assert(b.contains(path));
                lemma_paths_where(es, is_app_file(), n, path);
                lemma_below_all(files, subs, path, k);
                let i = choose|i: int|
                    0 <= i < subs.len() && files_below(files, #[trigger] subs[i], k).contains(path);
                found_files_are_those_below(files, subs[i], path, k);
                let own = lemma_child(dir, path);
                let name = lemma_child(dir, subs[i]);
                let rest = lemma_begins(files, subs[i], path, k);
                let start = start_of(dir);
                assert(path == start + name + seq!['/'] + rest);
                let at = start.len() as int + name.len();
                assert(path[at] == '/');
                assert(path[at] == own[name.len() as int]);
                assert(own.contains(own[name.len() as int]));
            }
        }
        lemma_joined_without_duplicates(a, b);
    } else if h > 0 {
        assert(files_below_all(files, Seq::empty(), (h - 1) as nat) == Seq::<Seq<char>>::empty());
    }
}

} // verus!
