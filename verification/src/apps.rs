//! Which OTP applications a shipment needs, so that a minimal (not full)
//! runtime is bundled.

use vstd::prelude::*;

use crate::listing::{entry_views, listed, Entry, EntryView, Listing};
use crate::text::{
    as_index, begins_with, chars, comes_before, find_char, is_before, is_whitespace,
    position_of_char, slice, split, split_on, stands_at, starts_with, strip, stripped,
    text_stands_at, texts_are_ordered, trim, trimmed, view_of, views, whitespace,
};
use crate::versions::{is_older, older, versions_are_ordered};

verus! {

/// A name as it stands in a list of applications: without the white space and
/// the quotes around it.
pub open spec fn bare_name(piece: Seq<char>) -> Seq<char> {
    trimmed(stripped(trimmed(piece), Some('\'')))
}

pub open spec fn is_not_empty() -> spec_fn(Seq<char>) -> bool {
    |s: Seq<char>| s.len() > 0
}

/// The names in a comma-separated list.
pub open spec fn names_in(list: Seq<char>) -> Seq<Seq<char>> {
    split(list, ',').map_values(|p: Seq<char>| bare_name(p)).filter(is_not_empty())
}

/// Whether a text at a place is in single quotes.
pub open spec fn is_quoted(text: Seq<char>, from: int, to: int) -> bool {
    0 < from && to < text.len() && text[from - 1] == '\'' && text[to] == '\''
}

/// Whether the key of an `{applications, ...}` term stands at a place: the word,
/// in single quotes or bare, with an opening brace before it and a comma behind,
/// white space aside.
pub open spec fn is_key_at(text: Seq<char>, p: int) -> bool {
    let end = p + "applications"@.len();
    let quote: int = if is_quoted(text, p, end) {
        1
    } else {
        0
    };
    &&& stands_at(text, "applications"@, p)
    &&& ends_blank_after(text.take(p - quote), '{')
    &&& begins_blank_before(text.skip(end + quote), ',')
}

/// Ending in a character, white space behind it aside.
pub open spec fn ends_blank_after(s: Seq<char>, c: char) -> bool
    decreases s.len(),
{
    s.len() > 0 && (s.last() == c || whitespace(s.last()) && ends_blank_after(s.drop_last(), c))
}

/// Beginning with a character, white space before it aside.
pub open spec fn begins_blank_before(s: Seq<char>, c: char) -> bool
    decreases s.len(),
{
    s.len() > 0 && (s[0] == c || whitespace(s[0]) && begins_blank_before(s.drop_first(), c))
}

/// The place of the first key of an `{applications, ...}` term, from `i` on.
pub open spec fn first_key(text: Seq<char>, i: int) -> Option<int>
    decreases text.len() - i,
{
    if i < 0 || i >= text.len() {
        None
    } else if is_key_at(text, i) {
        Some(i)
    } else {
        first_key(text, i + 1)
    }
}

/// The application names of an `.app` file: those in the first brackets of its
/// `{applications, [a, b, c]}` term.
pub open spec fn applications(text: Seq<char>) -> Seq<Seq<char>> {
    match first_key(text, 0) {
        None => Seq::empty(),
        Some(start) => match find_char(text, '[', start) {
            None => Seq::empty(),
            Some(open) => match find_char(text, ']', open) {
                None => Seq::empty(),
                Some(close) => names_in(text.subrange(open + 1, close)),
            },
        },
    }
}

fn blank_then(v: &Vec<char>, from: usize, c: char) -> (r: bool)
    requires
        from <= v@.len(),
    ensures
        r == begins_blank_before(v@.skip(from as int), c),
{
    let mut i: usize = from;
    while i < v.len()
        invariant
            from <= i <= v@.len(),
            begins_blank_before(v@.skip(from as int), c) == begins_blank_before(
                v@.skip(i as int),
                c,
            ),
        decreases v@.len() - i,
    {
        assert(v@.skip(i as int).drop_first() == v@.skip(i + 1));
        if v[i] == c {
            return true;
        }
        if !is_whitespace(v[i]) {
            return false;
        }
        i = i + 1;
    }
    false
}

fn then_blank(v: &Vec<char>, to: usize, c: char) -> (r: bool)
    requires
        to <= v@.len(),
    ensures
        r == ends_blank_after(v@.take(to as int), c),
{
    let mut i: usize = to;
    while i > 0
        invariant
            i <= to <= v@.len(),
            ends_blank_after(v@.take(to as int), c) == ends_blank_after(v@.take(i as int), c),
        decreases i,
    {
        assert(v@.take(i as int).drop_last() == v@.take(i - 1));
        assert(v@.take(i as int).last() == v@[i - 1]);
        if v[i - 1] == c {
            return true;
        }
        if !is_whitespace(v[i - 1]) {
            return false;
        }
        i = i - 1;
    }
    false
}

fn position_of_key(v: &Vec<char>) -> (r: Option<usize>)
    ensures
        as_index(r) == first_key(v@, 0),
        r is Some ==> r->0 < v@.len(),
{
    let word = chars("applications");
    let n: usize = word.len();
    let mut i: usize = 0;
    while i < v.len()
        invariant
            i <= v@.len(),
            word@ == "applications"@,
            n == word@.len(),
            first_key(v@, 0) == first_key(v@, i as int),
        decreases v@.len() - i,
    {
        if text_stands_at(v, &word, i) {
            let end: usize = i + n;
            let quote: usize = if i > 0 && end < v.len() && v[i - 1] == '\'' && v[end] == '\'' {
                1
            } else {
                0
            };
            if then_blank(v, i - quote, '{') && blank_then(v, end + quote, ',') {
                return Some(i);
            }
        }
        i = i + 1;
    }
    None
}

fn names_of(list: &str) -> (names: Vec<String>)
    ensures
        views(names@) == names_in(list@),
{
    let pieces = split_on(list, ',');
    let ghost all = split(list@, ',').map_values(|p: Seq<char>| bare_name(p));
    let mut names: Vec<String> = Vec::new();
    let mut i: usize = 0;
    proof {
        reveal(Seq::filter);
        assert(views(names@) == all.take(0).filter(is_not_empty()));
    }
    while i < pieces.len()
        invariant
            i <= pieces@.len() == all.len(),
            views(pieces@) == split(list@, ','),
            all == split(list@, ',').map_values(|p: Seq<char>| bare_name(p)),
            views(names@) == all.take(i as int).filter(is_not_empty()),
        decreases pieces@.len() - i,
    {
        let ghost before = names@;
        let name = trim(strip(trim(pieces[i].as_str()), Some('\'')));
        proof {
            reveal(Seq::filter);
            assert(views(pieces@)[i as int] == pieces@[i as int]@);
            assert(all[i as int] == name@);
            assert(all.take(i + 1).drop_last() == all.take(i as int));
        }
        if !name.is_empty() {
            names.push(name.to_owned());
            assert(views(names@) == views(before).push(name@));
        }
        i = i + 1;
    }
    assert(all.take(pieces@.len() as int) == all);
    names
}

/// Extract application names from a `{applications, [a, b, c]}` term.
pub fn parse_applications(text: &str) -> (names: Vec<String>)
    ensures
        views(names@) == applications(text@),
{
    let v = chars(text);
    let none: Vec<String> = Vec::new();
    assert(views(none@) == Seq::<Seq<char>>::empty());
    if let Some(start) = position_of_key(&v) {
        if let Some(open) = position_of_char(&v, '[', start) {
            if let Some(close) = position_of_char(&v, ']', open) {
                return names_of(slice(text, open + 1, close).as_str());
            }
        }
    }
    none
}

/// Names in order, none twice.
pub open spec fn ascending(names: Seq<Seq<char>>) -> bool {
    forall|i: int, j: int|
        0 <= i < j < names.len() ==> comes_before(#[trigger] names[i], #[trigger] names[j])
}

/// Names that have to be looked for: `kernel`, `stdlib` and what the `.app`
/// files name.
pub open spec fn is_needed(app_files: Seq<Seq<char>>, name: Seq<char>) -> bool {
    ||| name == "kernel"@
    ||| name == "stdlib"@
    ||| exists|i: int|
        0 <= i < app_files.len() && #[trigger] applications(app_files[i]).contains(name)
}

/// The needed names, in order, none twice.
pub open spec fn lists_needed(names: Seq<Seq<char>>, app_files: Seq<Seq<char>>) -> bool {
    ascending(names) && forall|n: Seq<char>|
        #[trigger] names.contains(n) <==> is_needed(app_files, n)
}

/// There is only one list of the needed names.
pub proof fn needed_names_are_determined(
    a: Seq<Seq<char>>,
    b: Seq<Seq<char>>,
    app_files: Seq<Seq<char>>,
)
    requires
        lists_needed(a, app_files),
        lists_needed(b, app_files),
    ensures
        a == b,
{
    assert forall|n: Seq<char>| a.contains(n) <==> b.contains(n) by {
        assert(a.contains(n) <==> is_needed(app_files, n));
        assert(b.contains(n) <==> is_needed(app_files, n));
    }
    lemma_same_members(a, b, 0);
    lemma_same_members(b, a, 0);
    assert(a =~= b);
}

/// Two ascending lists with the same members agree from the front on.
proof fn lemma_same_members(a: Seq<Seq<char>>, b: Seq<Seq<char>>, i: int)
    requires
        ascending(a),
        ascending(b),
        forall|n: Seq<char>| a.contains(n) <==> b.contains(n),
        0 <= i,
        forall|k: int| 0 <= k < i && k < a.len() ==> k < b.len() && a[k] == b[k],
    ensures
        a.len() <= b.len(),
        forall|k: int| 0 <= k < a.len() ==> a[k] == b[k],
    decreases a.len() - i,
{
    if i < a.len() {
        assert(a.contains(a[i]));
        let j = choose|j: int| 0 <= j < b.len() && b[j] == a[i];
        if j < i {
            assert(a[j] == b[j]);
            assert(comes_before(a[j], a[i]));
            texts_are_ordered(a[i], a[i], a[i]);
        }
        if i < j {
            assert(b.contains(b[i]));
            let m = choose|m: int| 0 <= m < a.len() && a[m] == b[i];
            assert(comes_before(b[i], b[j]));
            texts_are_ordered(b[i], b[j], b[i]);
            if m < i {
                assert(a[m] == b[m]);
                assert(comes_before(b[m], b[i]));
                texts_are_ordered(b[i], b[i], b[i]);
            } else if m > i {
                assert(comes_before(a[i], a[m]));
            }
        }
        assert(j == i);
        lemma_same_members(a, b, i + 1);
    } else if a.len() > 0 {
        assert(a[a.len() - 1] == b[a.len() - 1]);
    }
}

/// Put a name in its place among names in order, unless it is there.
fn insert_name(names: &mut Vec<String>, name: String)
    requires
        ascending(views(old(names)@)),
    ensures
        ascending(views(final(names)@)),
        forall|n: Seq<char>| #[trigger]
            views(final(names)@).contains(n) <==> views(old(names)@).contains(n) || n == name@,
{
    let ghost s = views(names@);
    let mut i: usize = 0;
    while i < names.len() && is_before(names[i].as_str(), name.as_str())
        invariant
            i <= names@.len(),
            s == views(names@),
            forall|k: int| 0 <= k < i ==> comes_before(#[trigger] s[k], name@),
        decreases names@.len() - i,
    {
        i = i + 1;
    }
    if i < names.len() && names[i] == name {
        assert(s[i as int] == name@);
        return;
    }
    assert(i < s.len() ==> s[i as int] == names@[i as int]@);
    names.insert(i, name);
    proof {
        let t = views(names@);
        assert(t == s.insert(i as int, name@));
        assert forall|k: int| i <= k < s.len() implies comes_before(name@, #[trigger] s[k]) by {
            texts_are_ordered(s[i as int], name@, s[k]);
            texts_are_ordered(name@, s[i as int], s[k]);
            if k > i {
                assert(comes_before(s[i as int], s[k]));
            }
        }
        assert forall|a: int, b: int| 0 <= a < b < t.len() implies comes_before(
            #[trigger] t[a],
            #[trigger] t[b],
        ) by {
            if b == i {
                assert(t[a] == s[a]);
            } else if a == i {
                assert(t[b] == s[b - 1]);
            } else {
                let a2 = if a < i {
                    a
                } else {
                    a - 1
                };
                let b2 = if b < i {
                    b
                } else {
                    b - 1
                };
                assert(t[a] == s[a2] && t[b] == s[b2]);
            }
        }
        assert forall|n: Seq<char>| #[trigger]
            t.contains(n) <==> s.contains(n) || n == name@ by {
            assert(t[i as int] == name@);
            if s.contains(n) {
                let k = choose|k: int| 0 <= k < s.len() && s[k] == n;
                assert(t[if k < i {
                    k
                } else {
                    k + 1
                }] == n);
            }
            if t.contains(n) {
                let k = choose|k: int| 0 <= k < t.len() && t[k] == n;
                if k != i {
                    assert(s[if k < i {
                        k
                    } else {
                        k - 1
                    }] == n);
                }
            }
        }
    }
}

/// The names of the applications a shipment needs, in order, given the texts of
/// its `.app` files; `kernel` and `stdlib` always.
pub fn needed_names(app_files: &Vec<String>) -> (names: Vec<String>)
    ensures
        lists_needed(views(names@), views(app_files@)),
{
    let ghost files = views(app_files@);
    let mut names: Vec<String> = Vec::new();
    assert(ascending(views(names@)));
    insert_name(&mut names, "kernel".to_owned());
    insert_name(&mut names, "stdlib".to_owned());
    let mut i: usize = 0;
    assert forall|n: Seq<char>| #[trigger] views(names@).contains(n) <==> is_needed(
        files.take(0),
        n,
    ) by {}
    while i < app_files.len()
        invariant
            i <= app_files@.len(),
            files == views(app_files@),
            ascending(views(names@)),
            forall|n: Seq<char>| #[trigger]
                views(names@).contains(n) <==> is_needed(files.take(i as int), n),
        decreases app_files@.len() - i,
    {
        let found = parse_applications(app_files[i].as_str());
        let ghost here = applications(files[i as int]);
        assert(views(found@) == here);
        let ghost before = views(names@);
        let mut k: usize = 0;
        while k < found.len()
            invariant
                k <= found@.len(),
                views(found@) == here,
                ascending(views(names@)),
                forall|n: Seq<char>| #[trigger]
                    views(names@).contains(n) <==> before.contains(n) || here.take(
                        k as int,
                    ).contains(n),
            decreases found@.len() - k,
        {
            let ghost t = views(names@);
            insert_name(&mut names, found[k].clone());
            proof {
                assert(here[k as int] == found@[k as int]@);
                assert(here.take(k + 1) == here.take(k as int).push(here[k as int]));
                assert forall|n: Seq<char>| #[trigger]
                    views(names@).contains(n) <==> before.contains(n) || here.take(
                        k + 1,
                    ).contains(n) by {
                    lemma_push_member(here.take(k as int), here[k as int], n);
                    assert(t.contains(n) <==> before.contains(n) || here.take(k as int).contains(n));
                }
            }
            k = k + 1;
        }
        proof {
            assert(here.take(found@.len() as int) == here);
            assert forall|n: Seq<char>| #[trigger] views(names@).contains(n) <==> is_needed(
                files.take(i + 1),
                n,
            ) by {
                assert(before.contains(n) <==> is_needed(files.take(i as int), n));
                let (a, b) = (files.take(i as int), files.take(i + 1));
                if is_needed(a, n) && n != "kernel"@ && n != "stdlib"@ {
                    let m = choose|m: int|
                        0 <= m < a.len() && #[trigger] applications(a[m]).contains(n);
                    assert(b[m] == a[m]);
                }
                if here.contains(n) {
                    assert(applications(b[i as int]).contains(n));
                }
                if is_needed(b, n) && n != "kernel"@ && n != "stdlib"@ {
                    let m = choose|m: int|
                        0 <= m < b.len() && #[trigger] applications(b[m]).contains(n);
                    if m < i {
                        assert(applications(a[m]).contains(n));
                    }
                }
            }
        }
        i = i + 1;
    }
    assert(files.take(app_files@.len() as int) == files);
    names
}

proof fn lemma_push_member(s: Seq<Seq<char>>, v: Seq<char>, n: Seq<char>)
    ensures
        s.push(v).contains(n) <==> s.contains(n) || n == v,
{
    let t = s.push(v);
    assert(t[s.len() as int] == v);
    if s.contains(n) {
        let k = choose|k: int| 0 <= k < s.len() && s[k] == n;
        assert(t[k] == n);
    }
    if t.contains(n) && n != v {
        let k = choose|k: int| 0 <= k < t.len() && t[k] == n;
        assert(s[k] == n);
    }
}

/// Being a directory of an application, `<name>-<vsn>`.
pub open spec fn is_version_of(e: EntryView, name: Seq<char>) -> bool {
    e.is_dir && e.name is Some && begins_with(e.name->0, name + "-"@)
}

/// The version in the name of such a directory.
pub open spec fn version_in(e: EntryView, name: Seq<char>) -> Seq<char> {
    e.name->0.skip(name.len() as int + 1)
}

/// Whether a directory gives way to another: its version is older or, where
/// both count the same, its name comes before.
pub open spec fn gives_way(a: EntryView, b: EntryView, name: Seq<char>) -> bool {
    ||| older(version_in(a, name), version_in(b, name))
    ||| !older(version_in(b, name), version_in(a, name)) && comes_before(a.name->0, b.name->0)
}

/// Of the first `n` entries, the newest directory of an application; of two that
/// are alike, the later.
pub open spec fn newest_of(entries: Seq<EntryView>, name: Seq<char>, n: int) -> Option<EntryView>
    decreases n,
{
    if n <= 0 {
        None
    } else {
        let e = entries[n - 1];
        match newest_of(entries, name, n - 1) {
            None => if is_version_of(e, name) {
                Some(e)
            } else {
                None
            },
            Some(best) => if is_version_of(e, name) && !gives_way(e, best, name) {
                Some(e)
            } else {
                Some(best)
            },
        }
    }
}

/// Newest `<name>-<vsn>` directory for an app name, if any: its path.
pub open spec fn newest_dir(entries: Seq<EntryView>, name: Seq<char>) -> Option<Seq<char>> {
    match newest_of(entries, name, entries.len() as int) {
        Some(e) => Some(e.path),
        None => None,
    }
}

/// A newest directory is a directory of the application, none is newer, and
/// there is one where the application has a directory at all.
pub proof fn newest_is_newest(entries: Seq<EntryView>, name: Seq<char>, n: int)
    requires
        0 <= n <= entries.len(),
    ensures
        match newest_of(entries, name, n) {
            Some(best) => {
                &&& is_version_of(best, name)
                &&& exists|i: int| 0 <= i < n && #[trigger] entries[i] == best
                &&& forall|i: int|
                    0 <= i < n && is_version_of(#[trigger] entries[i], name) ==> !older(
                        version_in(best, name),
                        version_in(entries[i], name),
                    ) && !gives_way(best, entries[i], name)
            },
            None => forall|i: int| 0 <= i < n ==> !is_version_of(#[trigger] entries[i], name),
        },
    decreases n,
{
    if n > 0 {
        newest_is_newest(entries, name, n - 1);
        let e = entries[n - 1];
        lemma_gives_way(e, e, e, name);
        match newest_of(entries, name, n - 1) {
            None => {},
            Some(best) => {
                lemma_gives_way(best, e, e, name);
                lemma_gives_way(e, best, best, name);
                let i = choose|i: int| 0 <= i < n - 1 && #[trigger] entries[i] == best;
                assert(entries[i] == best);
                if is_version_of(e, name) && !gives_way(e, best, name) {
                    assert forall|k: int|
                        0 <= k < n && is_version_of(
                            #[trigger] entries[k],
                            name,
                        ) implies !gives_way(e, entries[k], name) by {
                        lemma_gives_way(e, best, entries[k], name);
                    }
                }
            },
        }
    }
}

/// Giving way carries over, as does not giving way.
proof fn lemma_gives_way(a: EntryView, b: EntryView, c: EntryView, name: Seq<char>)
    ensures
        !gives_way(a, a, name),
        gives_way(a, b, name) ==> !gives_way(b, a, name),
        gives_way(a, b, name) && gives_way(b, c, name) ==> gives_way(a, c, name),
        !gives_way(a, b, name) && !gives_way(b, c, name) ==> !gives_way(a, c, name),
{
    let (va, vb, vc) = (version_in(a, name), version_in(b, name), version_in(c, name));
    let (na, nb, nc) = (a.name->0, b.name->0, c.name->0);
    versions_are_ordered(va, vb, vc);
    versions_are_ordered(va, vc, vb);
    versions_are_ordered(vb, va, vc);
    versions_are_ordered(vb, vc, va);
    versions_are_ordered(vc, va, vb);
    versions_are_ordered(vc, vb, va);
    texts_are_ordered(na, nb, nc);
    texts_are_ordered(na, nc, nb);
    texts_are_ordered(nb, na, nc);
    texts_are_ordered(nb, nc, na);
    texts_are_ordered(nc, na, nb);
    texts_are_ordered(nc, nb, na);
}

/// Whether the directory of a name gives way to that of another.
fn name_gives_way(a: &str, b: &str, name: &str, cut: usize) -> (r: bool)
    requires
        cut == name@.len() + 1,
        cut <= a@.len(),
        cut <= b@.len(),
    ensures
        forall|x: EntryView, y: EntryView|
            x.name == Some(a@) && y.name == Some(b@) ==> #[trigger] gives_way(x, y, name@) == r,
{
    let va = slice(a, cut, chars(a).len());
    let vb = slice(b, cut, chars(b).len());
    assert(va@ == a@.skip(cut as int));
    assert(vb@ == b@.skip(cut as int));
    is_older(va.as_str(), vb.as_str()) || (!is_older(vb.as_str(), va.as_str()) && is_before(a, b))
}

/// Newest `lib/<name>-<vsn>` directory for an app name, if any.
pub fn newest_versioned_dir(entries: &Vec<Entry>, name: &str) -> (dir: Option<String>)
    ensures
        view_of(dir) == newest_dir(entry_views(entries@), name@),
{
    let ghost all = entry_views(entries@);
    let mut prefix = name.to_owned();
    prefix.append("-");
    let cut: usize = chars(prefix.as_str()).len();
    proof {
        reveal_strlit("-");
    }
    let mut best: Option<usize> = None;
    let mut i: usize = 0;
    while i < entries.len()
        invariant
            i <= entries@.len(),
            all == entry_views(entries@),
            prefix@ == name@ + "-"@,
            cut == prefix@.len() == name@.len() + 1,
            match best {
                Some(b) => b < i && is_version_of(all[b as int], name@) && newest_of(
                    all,
                    name@,
                    i as int,
                ) == Some(all[b as int]),
                None => newest_of(all, name@, i as int) is None,
            },
        decreases entries@.len() - i,
    {
        assert(all[i as int] == entries@[i as int]@);
        if entries[i].is_dir {
            if let Some(n) = &entries[i].name {
                if starts_with(n.as_str(), prefix.as_str()) {
                    assert(is_version_of(all[i as int], name@));
                    match best {
                        None => {
                            best = Some(i);
                        },
                        Some(b) => {
                            assert(all[b as int] == entries@[b as int]@);
                            if let Some(m) = &entries[b].name {
                                let worse = name_gives_way(n.as_str(), m.as_str(), name, cut);
                                assert(gives_way(all[i as int], all[b as int], name@) == worse);
                                if !worse {
                                    best = Some(i);
                                }
                            }
                        },
                    }
                }
            }
        }
        i = i + 1;
    }
    match best {
        Some(b) => {
            assert(all[b as int] == entries@[b as int]@);
            Some(entries[b].path.clone())
        },
        None => None,
    }
}

/// The directories of the first `n` names, those that have one.
pub open spec fn dirs_of(names: Seq<Seq<char>>, entries: Seq<EntryView>, n: int) -> Seq<Seq<char>>
    decreases n,
{
    if n <= 0 {
        Seq::empty()
    } else {
        match newest_dir(entries, names[n - 1]) {
            Some(p) => dirs_of(names, entries, n - 1).push(p),
            None => dirs_of(names, entries, n - 1),
        }
    }
}

/// The list of the needed names.
pub open spec fn needed_list(app_files: Seq<Seq<char>>) -> Seq<Seq<char>> {
    choose|names: Seq<Seq<char>>| lists_needed(names, app_files)
}

/// The directories of the needed applications that have one, given what the
/// directory of all of them holds.
pub open spec fn lib_dirs(
    app_files: Seq<Seq<char>>,
    lib: Result<Seq<EntryView>, Seq<char>>,
) -> Seq<Seq<char>> {
    match lib {
        Ok(entries) => dirs_of(
            needed_list(app_files),
            entries,
            needed_list(app_files).len() as int,
        ),
        Err(_) => Seq::empty(),
    }
}

/// Determine which OTP `lib/<app>-<vsn>` directories are needed by scanning the
/// `{applications, [...]}` lists of the `.app` files in the shipment. Anything
/// that maps to a directory under `lib` is included; kernel and stdlib always.
/// Names with no directory are not of OTP (e.g. gleam_stdlib); those already
/// come as .beam with the application.
pub fn needed_lib_apps(app_files: &Vec<String>, lib: &Listing) -> (dirs: Vec<String>)
    ensures
        lists_needed(needed_list(views(app_files@)), views(app_files@)),
        views(dirs@) == lib_dirs(views(app_files@), listed(*lib)),
{
    let names = needed_names(app_files);
    let ghost all = views(names@);
    proof {
        assert(lists_needed(all, views(app_files@)));
        needed_names_are_determined(all, needed_list(views(app_files@)), views(app_files@));
    }
    let mut dirs: Vec<String> = Vec::new();
    assert(views(dirs@) == Seq::<Seq<char>>::empty());
    if let Ok(entries) = lib {
        let ghost es = entry_views(entries@);
        let mut i: usize = 0;
        while i < names.len()
            invariant
                i <= names@.len(),
                all == views(names@),
                es == entry_views(entries@),
                views(dirs@) == dirs_of(all, es, i as int),
            decreases names@.len() - i,
        {
            let ghost before = dirs@;
            assert(all[i as int] == names@[i as int]@);
            if let Some(p) = newest_versioned_dir(entries, names[i].as_str()) {
                dirs.push(p);
                assert(views(dirs@) == views(before).push(p@));
            }
            i = i + 1;
        }
    }
    dirs
}

/// The directory of every needed application that has one is included; with it
/// those of kernel and stdlib.
pub proof fn needed_apps_are_included(
    names: Seq<Seq<char>>,
    app_files: Seq<Seq<char>>,
    entries: Seq<EntryView>,
    name: Seq<char>,
)
    requires
        lists_needed(names, app_files),
        is_needed(app_files, name),
        newest_dir(entries, name) is Some,
    ensures
        dirs_of(names, entries, names.len() as int).contains(newest_dir(entries, name)->0),
{
    assert(names.contains(name));
    let i = choose|i: int| 0 <= i < names.len() && names[i] == name;
    lemma_dir_is_included(names, entries, names.len() as int, i);
}

proof fn lemma_dir_is_included(
    names: Seq<Seq<char>>,
    entries: Seq<EntryView>,
    n: int,
    i: int,
)
    requires
        0 <= i < n <= names.len(),
        newest_dir(entries, names[i]) is Some,
    ensures
        dirs_of(names, entries, n).contains(newest_dir(entries, names[i])->0),
    decreases n,
{
    let p = newest_dir(entries, names[i])->0;
    let t = dirs_of(names, entries, n - 1);
    if i == n - 1 {
        assert(dirs_of(names, entries, n)[t.len() as int] == p);
    } else {
        lemma_dir_is_included(names, entries, n - 1, i);
        let k = choose|k: int| 0 <= k < t.len() && t[k] == p;
        assert(dirs_of(names, entries, n)[k] == p);
    }
}

/// Nothing is included but directories of needed applications, so the runtime
/// stays minimal.
pub proof fn only_needed_apps_are_included(
    names: Seq<Seq<char>>,
    app_files: Seq<Seq<char>>,
    entries: Seq<EntryView>,
    n: int,
    i: int,
)
    requires
        lists_needed(names, app_files),
        0 <= n <= names.len(),
        0 <= i < dirs_of(names, entries, n).len(),
    ensures
        exists|name: Seq<char>|
            is_needed(app_files, name) && #[trigger] newest_dir(entries, name) == Some(
                dirs_of(names, entries, n)[i],
            ),
    decreases n,
{
    assert(names.contains(names[n - 1]));
    if i < dirs_of(names, entries, n - 1).len() {
        only_needed_apps_are_included(names, app_files, entries, n - 1, i);
    } else {
        assert(newest_dir(entries, names[n - 1]) == Some(dirs_of(names, entries, n)[i]));
    }
}

} // verus!
