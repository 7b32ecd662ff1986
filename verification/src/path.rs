//! Paths as text, with `/` between their components.

use vstd::prelude::*;

use crate::text::{chars, has_char, same, slice, view_of};

verus! {

/// `rel` below `base`; `rel` itself where it starts at the root.
pub open spec fn joined(base: Seq<char>, rel: Seq<char>) -> Seq<char> {
    if rel.len() > 0 && rel[0] == '/' {
        rel
    } else if base.len() == 0 || base.last() == '/' {
        base + rel
    } else {
        base + "/"@ + rel
    }
}

pub fn join(base: &str, rel: &str) -> (r: String)
    ensures
        r@ == joined(base@, rel@),
{
    let b = chars(base);
    let p = chars(rel);
    if p.len() > 0 && p[0] == '/' {
        return rel.to_owned();
    }
    let mut r = base.to_owned();
    if b.len() > 0 && b[b.len() - 1] != '/' {
        r.append("/");
    }
    r.append(rel);
    r
}

/// A path without the separators and `.` components it ends with, its root and
/// its first component aside.
pub open spec fn tidy_end(s: Seq<char>) -> Seq<char>
    decreases s.len(),
{
    if s.len() > 1 && (s.last() == '/' || (s.last() == '.' && s[s.len() - 2] == '/')) {
        tidy_end(s.drop_last())
    } else {
        s
    }
}

/// Where the last component of a path starts.
pub open spec fn name_start(s: Seq<char>) -> int
    decreases s.len(),
{
    if s.len() == 0 {
        0
    } else if s.last() == '/' {
        s.len() as int
    } else {
        name_start(s.drop_last())
    }
}

/// The path without its last component; nothing for the root and the empty path.
pub open spec fn parent_of(s: Seq<char>) -> Option<Seq<char>> {
    let t = tidy_end(s);
    if t.len() == 0 || t == "/"@ {
        None
    } else {
        Some(tidy_end(t.take(name_start(t))))
    }
}

fn tidy_len(v: &Vec<char>, n: usize) -> (m: usize)
    requires
        n <= v@.len(),
    ensures
        m <= n,
        v@.take(m as int) == tidy_end(v@.take(n as int)),
{
    let mut m: usize = n;
    while m > 1 && (v[m - 1] == '/' || (v[m - 1] == '.' && v[m - 2] == '/'))
        invariant
            m <= n <= v@.len(),
            tidy_end(v@.take(m as int)) == tidy_end(v@.take(n as int)),
        decreases m,
    {
        assert(v@.take(m as int).drop_last() == v@.take(m - 1));
        m = m - 1;
    }
    m
}

fn start_of_name(v: &Vec<char>, n: usize) -> (k: usize)
    requires
        n <= v@.len(),
    ensures
        k <= n,
        k as int == name_start(v@.take(n as int)),
{
    let mut k: usize = n;
    while k > 0 && v[k - 1] != '/'
        invariant
            k <= n <= v@.len(),
            name_start(v@.take(k as int)) == name_start(v@.take(n as int)),
        decreases k,
    {
        assert(v@.take(k as int).drop_last() == v@.take(k - 1));
        k = k - 1;
    }
    k
}

/// The path without its last component; nothing for the root and the empty path.
pub fn parent(s: &str) -> (r: Option<String>)
    ensures
        view_of(r) == parent_of(s@),
{
    let v = chars(s);
    let n: usize = v.len();
    assert(v@.take(n as int) == s@);
    let m = tidy_len(&v, n);
    let ghost t = v@.take(m as int);
    proof {
        reveal_strlit("/");
        assert("/"@ == seq!['/']);
        assert(m == 1 && v@[0] == '/' ==> t == "/"@);
    }
    if m == 0 || (m == 1 && v[0] == '/') {
        None
    } else {
        assert(t != "/"@) by {
            if t == "/"@ {
                assert(t[0] == '/');
            }
        }
        let k = start_of_name(&v, m);
        assert(t.take(k as int) == v@.take(k as int));
        let e = tidy_len(&v, k);
        assert(s@.subrange(0, e as int) == v@.take(e as int));
        Some(slice(s, 0, e))
    }
}

/// The last component of a path.
pub open spec fn last_name(s: Seq<char>) -> Seq<char> {
    tidy_end(s).skip(name_start(tidy_end(s)))
}

/// The last component of a path; empty for the root and the empty path.
pub fn base_name(s: &str) -> (r: String)
    ensures
        r@ == last_name(s@),
{
    let v = chars(s);
    let n: usize = v.len();
    assert(v@.take(n as int) == s@);
    let m = tidy_len(&v, n);
    let k = start_of_name(&v, m);
    assert(s@.subrange(k as int, m as int) == v@.take(m as int).skip(k as int));
    slice(s, k, m)
}

/// The last dot before `n` that is not the first character of the name that
/// starts at `k`.
pub open spec fn extension_dot(s: Seq<char>, k: int, n: int) -> Option<int>
    decreases n,
{
    if n <= k + 1 || n <= 0 {
        None
    } else if s[n - 1] == '.' {
        Some(n - 1)
    } else {
        extension_dot(s, k, n - 1)
    }
}

/// Being the name of a file: not empty, and neither `.` nor `..`.
pub open spec fn is_file_name(name: Seq<char>) -> bool {
    name.len() > 0 && name != "."@ && name != ".."@
}

/// A path with the extension of its last component replaced, or added where it
/// has none; unchanged where that component names no file.
pub open spec fn with_ending(s: Seq<char>, ext: Seq<char>) -> Seq<char> {
    let t = tidy_end(s);
    if !is_file_name(last_name(s)) {
        s
    } else {
        match extension_dot(t, name_start(t), t.len() as int) {
            Some(d) => t.take(d) + "."@ + ext,
            None => t + "."@ + ext,
        }
    }
}

/// A path with the extension of its last component replaced, or added where it
/// has none; unchanged where that component names no file.
pub fn with_extension(s: &str, ext: &str) -> (r: String)
    ensures
        r@ == with_ending(s@, ext@),
{
    let name = base_name(s);
    if name.as_str().is_empty() || same(name.as_str(), ".") || same(name.as_str(), "..") {
        return s.to_owned();
    }
    let v = chars(s);
    let n: usize = v.len();
    assert(v@.take(n as int) == s@);
    let m = tidy_len(&v, n);
    let ghost t = v@.take(m as int);
    let k = start_of_name(&v, m);
    let mut e: usize = m;
    while e - k > 1 && v[e - 1] != '.'
        invariant
            k <= e <= m <= v@.len(),
            t == v@.take(m as int),
            extension_dot(t, k as int, m as int) == extension_dot(t, k as int, e as int),
        decreases e,
    {
        assert(t[e - 1] == v@[e - 1]);
        e = e - 1;
    }
    let mut r = if e - k > 1 {
        assert(t[e - 1] == v@[e - 1]);
        assert(s@.subrange(0, e - 1) == t.take(e - 1));
        slice(s, 0, e - 1)
    } else {
        assert(s@.subrange(0, m as int) == t);
        slice(s, 0, m)
    };
    r.append(".");
    r.append(ext);
    r
}

/// How a program at a path is run from a shell.
pub open spec fn runnable(out: Seq<char>) -> Seq<char> {
    if out.contains('/') {
        out
    } else {
        "./"@ + out
    }
}

/// How to run a finished binary: its path, made explicit where it is a bare name.
pub fn display_run(out: &str) -> (r: String)
    ensures
        r@ == runnable(out@),
{
    if has_char(out, '/') {
        out.to_owned()
    } else {
        let mut r = "./".to_owned();
        r.append(out);
        r
    }
}

/// What is shown to run a binary always names a path, never a command to look up.
pub proof fn runnable_names_a_path(out: Seq<char>)
    ensures
        runnable(out).contains('/'),
{
    if !out.contains('/') {
        reveal_strlit("./");
        assert(runnable(out)[1] == '/');
    }
}

} // verus!
