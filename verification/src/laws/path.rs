//! Promises on paths.

use vstd::prelude::*;

use crate::path::{
    extension_dot, joined, last_name, name_start, parent_of, runnable, tidy_end, with_ending,
};

verus! {

/// Whether a text can name what is in a directory.
pub open spec fn is_plain_name(name: Seq<char>) -> bool {
    name.len() > 0 && !name.contains('/') && name != seq!['.']
}

/// Whether a text is made of slashes.
pub open spec fn is_slashes(s: Seq<char>) -> bool {
    forall|i: int| 0 <= i < s.len() ==> #[trigger] s[i] == '/'
}

/// Whether a directory is written with nothing at its end that could be left out.
pub open spec fn is_tidy(dir: Seq<char>) -> bool {
    dir.len() > 0 && dir.last() != '/' && !(dir.last() == '.' && dir.len() > 1 && dir[dir.len() - 2]
        == '/')
}

/// Joining puts one slash between two paths; what starts at the root stands for
/// itself.
pub proof fn joining_puts_one_slash_between(base: Seq<char>, rel: Seq<char>)
    ensures
        rel.len() > 0 && rel[0] == '/' ==> joined(base, rel) == rel,
        (rel.len() == 0 || rel[0] != '/') && base.len() > 0 && base.last() != '/' ==> joined(
            base,
            rel,
        ) == base + seq!['/'] + rel,
        (rel.len() == 0 || rel[0] != '/') && (base.len() == 0 || base.last() == '/') ==> joined(
            base,
            rel,
        ) == base + rel,
{
    reveal_strlit("/");
    assert("/"@ == seq!['/']);
}

proof fn lemma_slashes(s: Seq<char>, slashes: Seq<char>)
    requires
        s.len() > 0,
        is_slashes(slashes),
    ensures
        tidy_end(s + slashes) == tidy_end(s),
    decreases slashes.len(),
{
    if slashes.len() > 0 {
        let t = s + slashes;
        assert(t.last() == slashes.last());
        assert(slashes[slashes.len() - 1] == '/');
        assert(t.drop_last() == s + slashes.drop_last());
        lemma_slashes(s, slashes.drop_last());
    } else {
        assert(s + slashes == s);
    }
}

proof fn lemma_name_start(a: Seq<char>, name: Seq<char>)
    requires
        !name.contains('/'),
        a.len() == 0 || a.last() == '/',
    ensures
        name_start(a + name) == a.len(),
    decreases name.len(),
{
    let t = a + name;
    if name.len() > 0 {
        assert(t.last() == name.last());
        assert(name[name.len() - 1] != '/');
        assert(t.drop_last() == a + name.drop_last());
        assert forall|i: int| 0 <= i < name.drop_last().len() implies name.drop_last()[i]
            != '/' by {
            assert(name.drop_last()[i] == name[i]);
        }
        lemma_name_start(a, name.drop_last());
    } else {
        assert(t == a);
    }
}

proof fn lemma_name_is_tidy(a: Seq<char>, name: Seq<char>)
    requires
        is_plain_name(name),
        a.len() == 0 || a.last() == '/',
    ensures
        tidy_end(a + name) == a + name,
{
    let t = a + name;
    assert(t.last() == name.last());
    assert(name[name.len() - 1] != '/');
    if t.len() > 1 && t.last() == '.' {
        if name.len() == 1 {
            assert(name == seq!['.']);
        } else {
            assert(t[t.len() - 2] == name[name.len() - 2]);
            assert(name[name.len() - 2] != '/');
        }
    }
}

/// The last component of a path is the name behind its last slash, with or
/// without slashes behind it, and what stands before is the path above.
pub proof fn names_come_last(dir: Seq<char>, name: Seq<char>, slashes: Seq<char>)
    requires
        is_plain_name(name),
        is_slashes(slashes),
    ensures
        last_name(name + slashes) == name,
        last_name(seq!['/'] + name + slashes) == name,
        last_name(dir + seq!['/'] + name + slashes) == name,
        parent_of(name + slashes) == Some(Seq::<char>::empty()),
        parent_of(seq!['/'] + name + slashes) == Some(seq!['/']),
        is_tidy(dir) ==> parent_of(dir + seq!['/'] + name + slashes) == Some(dir),
{
    let root = seq!['/'];
    let none = Seq::<char>::empty();
    reveal_strlit("/");
    assert("/"@ == root);
    lemma_one_name(none, name, slashes);
    assert(none + name == name);
    lemma_one_name(root, name, slashes);
    lemma_one_name(dir + root, name, slashes);
    if is_tidy(dir) {
        lemma_slashes(dir, root);
        assert(tidy_end(dir) == dir);
    }
}

proof fn lemma_one_name(a: Seq<char>, name: Seq<char>, slashes: Seq<char>)
    requires
        is_plain_name(name),
        is_slashes(slashes),
        a.len() == 0 || a.last() == '/',
    ensures
        tidy_end(a + name + slashes) == a + name,
        name_start(a + name) == a.len(),
        last_name(a + name + slashes) == name,
        parent_of(a + name + slashes) == Some(tidy_end(a)),
{
    reveal_strlit("/");
    assert("/"@ == seq!['/']);
    let t = a + name;
    lemma_slashes(t, slashes);
    lemma_name_is_tidy(a, name);
    lemma_name_start(a, name);
    assert(t.skip(a.len() as int) == name);
    assert(t.take(a.len() as int) == a);
    if t == "/"@ {
        assert(name[name.len() - 1] == t[0]);
    }
}

/// Nothing is above the root or the empty path.
pub proof fn nothing_is_above_the_root(slashes: Seq<char>)
    requires
        is_slashes(slashes),
    ensures
        parent_of(slashes) is None,
        last_name(slashes).len() == 0,
{
    reveal_strlit("/");
    assert("/"@ == seq!['/']);
    if slashes.len() > 0 {
        let one = slashes.take(1);
        assert(one == seq!['/']);
        assert(slashes == one + slashes.skip(1));
        lemma_slashes(one, slashes.skip(1));
    }
}

proof fn lemma_dot(t: Seq<char>, k: int, d: int, n: int)
    requires
        0 <= k < d < n <= t.len(),
        t[d] == '.',
        forall|i: int| d < i < n ==> #[trigger] t[i] != '.',
    ensures
        extension_dot(t, k, n) == Some(d),
    decreases n,
{
    if n - 1 > d {
        assert(t[n - 1] != '.');
        lemma_dot(t, k, d, n - 1);
    }
}

proof fn lemma_no_dot(t: Seq<char>, k: int, n: int)
    requires
        0 <= k,
        n <= t.len(),
        forall|i: int| k < i < n ==> #[trigger] t[i] != '.',
    ensures
        extension_dot(t, k, n) is None,
    decreases n,
{
    if n > k + 1 {
        assert(t[n - 1] != '.');
        lemma_no_dot(t, k, n - 1);
    }
}

/// A new ending takes the place of what stands behind the last dot of a name, and
/// of nothing else.
pub proof fn endings_are_replaced(
    dir: Seq<char>,
    stem: Seq<char>,
    old_ext: Seq<char>,
    ext: Seq<char>,
)
    requires
        stem.len() > 0,
        !stem.contains('/'),
        old_ext.len() > 0,
        !old_ext.contains('/'),
        !old_ext.contains('.'),
    ensures
        with_ending(dir + seq!['/'] + stem + seq!['.'] + old_ext, ext) == dir + seq!['/'] + stem
            + seq!['.'] + ext,
        with_ending(stem + seq!['.'] + old_ext, ext) == stem + seq!['.'] + ext,
{
    lemma_replaced(dir + seq!['/'], stem, old_ext, ext);
    lemma_replaced(Seq::empty(), stem, old_ext, ext);
    let none = Seq::<char>::empty();
    assert(none + stem == stem);
}

proof fn lemma_replaced(a: Seq<char>, stem: Seq<char>, old_ext: Seq<char>, ext: Seq<char>)
    requires
        stem.len() > 0,
        !stem.contains('/'),
        old_ext.len() > 0,
        !old_ext.contains('/'),
        !old_ext.contains('.'),
        a.len() == 0 || a.last() == '/',
    ensures
        with_ending(a + stem + seq!['.'] + old_ext, ext) == a + stem + seq!['.'] + ext,
{
    reveal_strlit(".");
    reveal_strlit("..");
    assert("."@ == seq!['.']);
    let dot = seq!['.'];
    let name = stem + dot + old_ext;
    let t = a + stem + dot + old_ext;
    let none = Seq::<char>::empty();
    assert(t == a + name);
    assert(t == a + name + none);
    assert forall|i: int| 0 <= i < name.len() implies name[i] != '/' by {
        if i < stem.len() {
            assert(name[i] == stem[i]);
        } else if i > stem.len() {
            assert(name[i] == old_ext[i - stem.len() - 1]);
        }
    }
    lemma_one_name(a, name, none);
    let d = (a.len() + stem.len()) as int;
    assert forall|i: int| d < i < t.len() implies #[trigger] t[i] != '.' by {
        assert(t[i] == old_ext[i - d - 1]);
    }
    lemma_dot(t, a.len() as int, d, t.len() as int);
    assert(t.take(d) == a + stem);
    assert(name.len() >= 3);
    assert("."@.len() == 1 && ".."@.len() == 2);
}

/// A name without a dot behind its first character gets the ending.
pub proof fn endings_are_put_behind(dir: Seq<char>, name: Seq<char>, ext: Seq<char>)
    requires
        is_plain_name(name),
        forall|i: int| 0 < i < name.len() ==> #[trigger] name[i] != '.',
    ensures
        with_ending(dir + seq!['/'] + name, ext) == dir + seq!['/'] + name + seq!['.'] + ext,
        with_ending(name, ext) == name + seq!['.'] + ext,
{
    lemma_put_behind(dir + seq!['/'], name, ext);
    lemma_put_behind(Seq::empty(), name, ext);
    let none = Seq::<char>::empty();
    assert(none + name == name);
}

proof fn lemma_put_behind(a: Seq<char>, name: Seq<char>, ext: Seq<char>)
    requires
        is_plain_name(name),
        forall|i: int| 0 < i < name.len() ==> #[trigger] name[i] != '.',
        a.len() == 0 || a.last() == '/',
    ensures
        with_ending(a + name, ext) == a + name + seq!['.'] + ext,
{
    reveal_strlit(".");
    reveal_strlit("..");
    assert("."@ == seq!['.']);
    assert(".."@ == seq!['.', '.']);
    let none = Seq::<char>::empty();
    let t = a + name;
    assert(t == t + none);
    lemma_one_name(a, name, none);
    if name == ".."@ {
        assert(name[1] == '.');
    }
    assert forall|i: int| a.len() < i < t.len() implies #[trigger] t[i] != '.' by {
        assert(t[i] == name[i - a.len()]);
    }
    lemma_no_dot(t, a.len() as int, t.len() as int);
}

/// A bare name is run from the directory it is in, any other path as it is.
pub proof fn bare_names_are_run_from_here(out: Seq<char>)
    ensures
        out.contains('/') ==> runnable(out) == out,
        !out.contains('/') ==> runnable(out) == seq!['.', '/'] + out,
{
    reveal_strlit("./");
    assert("./"@ == seq!['.', '/']);
}

} // verus!
