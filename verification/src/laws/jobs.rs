//! Promises on which binaries a build makes, and when it can be done.

use vstd::prelude::*;

use crate::laws::text::{
    characters_are_found_where_they_first_stand, is_blank, joined_by, splitting_undoes_joining,
    trimming_takes_white_space_away,
};
use crate::path::joined;
use crate::pipeline::{
    app_name, build_jobs, first_name, is_native, job_for, jobs_for, major, name_in, output_base,
    value_of, JobView, RequestView,
};
use crate::target::Target;
use crate::text::{find_char, lemma_find_char, trimmed, whitespace};

verus! {

/// Whether a text is what may follow the major number of a version: nothing, or
/// a dot and more.
pub open spec fn is_tail(t: Seq<char>) -> bool {
    t.len() == 0 || t[0] == '.'
}

/// The major number of a version is what stands before its first dot, or all of
/// it where it has none.
pub proof fn major_stands_before_the_first_dot(m: Seq<char>, tail: Seq<char>)
    requires
        !m.contains('.'),
        is_tail(tail),
    ensures
        major(m + tail) == m,
{
    if tail.len() == 0 {
        assert(m + tail == m);
        lemma_find_char(m, '.', 0);
    } else {
        let rest = tail.drop_first();
        assert(m + tail == m + seq!['.'] + rest);
        characters_are_found_where_they_first_stand(m, '.', rest);
        assert((m + tail).take(m.len() as int) == m);
    }
}

/// A major number holds no dot.
pub proof fn majors_hold_no_dot(version: Seq<char>)
    ensures
        !major(version).contains('.'),
        exists|tail: Seq<char>| is_tail(tail) && version == #[trigger] (major(version) + tail),
{
    lemma_find_char(version, '.', 0);
    match find_char(version, '.', 0) {
        Some(dot) => {
            let m = version.take(dot);
            if m.contains('.') {
                let k = choose|k: int| 0 <= k < m.len() && m[k] == '.';
                assert(version[k] == '.');
            }
            let tail = version.skip(dot);
            assert(tail[0] == version[dot]);
            assert(version == major(version) + tail);
        },
        None => {
            if version.contains('.') {
                let k = choose|k: int| 0 <= k < version.len() && version[k] == '.';
                assert(version[k] == '.');
            }
            let tail = Seq::<char>::empty();
            assert(version == major(version) + tail);
        },
    }
}

/// What is asked of a build, and where.
pub struct Asked {
    pub project: Seq<char>,
    pub toml: Result<Seq<char>, Seq<char>>,
    pub out: Option<Seq<char>>,
    pub otp: Option<Seq<char>>,
    pub targets: Seq<Target>,
    pub host: Option<Target>,
    pub release: Result<Seq<char>, Seq<char>>,
}

impl Asked {
    /// What comes of it.
    pub open spec fn result(self) -> Result<(Seq<char>, Seq<JobView>), Seq<char>> {
        build_jobs(
            self.project,
            self.toml,
            self.out,
            self.otp,
            self.targets,
            self.host,
            self.release,
        )
    }

    /// Whether the target at `i` is of the OS of this machine.
    pub open spec fn is_of_this_os(self, i: int) -> bool {
        self.host is Some && self.host->0.os@ == self.targets[i].os@
    }

    /// Whether the target at `i` is this machine.
    pub open spec fn is_this_machine(self, i: int) -> bool {
        self.host is Some && self.host->0.name@ == self.targets[i].name@
    }

    spec fn request(self) -> RequestView {
        RequestView {
            host: self.host,
            release: self.release,
            otp: self.otp,
            base: output_base(self.project, app_name(self.project, self.toml)->Ok_0, self.out),
            several: self.targets.len() > 1,
        }
    }
}

proof fn lemma_all_or_none(targets: Seq<Target>, r: RequestView, n: int)
    requires
        0 <= n <= targets.len(),
    ensures
        jobs_for(targets, r, n) is Ok <==> forall|i: int|
            0 <= i < n ==> job_for(#[trigger] targets[i], r) is Ok,
        jobs_for(targets, r, n) is Ok ==> jobs_for(targets, r, n)->Ok_0.len() == n,
        jobs_for(targets, r, n) is Ok ==> forall|i: int|
            0 <= i < n ==> {
                let job = #[trigger] jobs_for(targets, r, n)->Ok_0[i];
                let alone = job_for(targets[i], r)->Ok_0;
                job.target == alone.target && job.output == alone.output && job.otp == alone.otp
                    && job.own_toolchain == alone.own_toolchain
            },
    decreases n,
{
    if n > 0 {
        lemma_all_or_none(targets, r, n - 1);
        if jobs_for(targets, r, n) is Ok {
            let before = jobs_for(targets, r, n - 1)->Ok_0;
            let all = jobs_for(targets, r, n)->Ok_0;
            assert forall|i: int| 0 <= i < n implies {
                let job = #[trigger] all[i];
                let alone = job_for(targets[i], r)->Ok_0;
                job.target == alone.target && job.output == alone.output && job.otp == alone.otp
                    && job.own_toolchain == alone.own_toolchain
            } by {
                if i < n - 1 {
                    assert(all[i] == before[i]);
                }
            }
        }
    }
}

/// Each binary is for its target, bundles the version asked for, and goes where
/// it was asked for, or else into the project under the name of the app; of
/// several each has the name of its target behind it.
pub proof fn binaries_are_what_was_asked_for(a: Asked, i: int)
    requires
        a.result() is Ok,
        0 <= i < a.targets.len(),
    ensures
        ({
            let (app, jobs) = a.result()->Ok_0;
            let base = match a.out {
                Some(o) => o,
                None => joined(a.project, app),
            };
            &&& app_name(a.project, a.toml) == Ok::<Seq<char>, Seq<char>>(app)
            &&& jobs.len() == a.targets.len()
            &&& jobs[i].target == a.targets[i]
            &&& jobs[i].otp == a.otp
            &&& jobs[i].own_toolchain <==> a.otp is Some && a.is_of_this_os(i)
            &&& a.targets.len() == 1 ==> jobs[i].output == base
            &&& a.targets.len() > 1 ==> jobs[i].output == base + "-"@ + a.targets[i].name@
        }),
{
    lemma_all_or_none(a.targets, a.request(), a.targets.len() as int);
    assert(job_for(a.targets[i], a.request()) is Ok);
}

/// Without a version a build can be done exactly where every target is this
/// machine.
pub proof fn builds_with_the_hosts_otp_are_for_this_machine(a: Asked)
    requires
        app_name(a.project, a.toml) is Ok,
        a.otp is None,
    ensures
        a.result() is Ok <==> forall|i: int|
            0 <= i < a.targets.len() ==> #[trigger] a.is_this_machine(i),
{
    let n = a.targets.len() as int;
    lemma_all_or_none(a.targets, a.request(), n);
    if a.result() is Ok {
        assert forall|i: int| 0 <= i < n implies #[trigger] a.is_this_machine(i) by {
            assert(job_for(a.targets[i], a.request()) is Ok);
        }
    }
    if forall|i: int| 0 <= i < n ==> #[trigger] a.is_this_machine(i) {
        assert forall|i: int| 0 <= i < n implies job_for(#[trigger] a.targets[i], a.request()) is Ok by {
            assert(a.is_this_machine(i));
        }
    }
}

/// With a version, whose major number is `m`, and an OTP of the host's own, whose
/// major number is `h`, a build can be done exactly where no target is tied to
/// its own OS and every target is of the OS of this machine, or else the two
/// numbers are the same.
pub proof fn builds_with_a_version_need_the_major_for_another_os(
    a: Asked,
    m: Seq<char>,
    version_tail: Seq<char>,
    h: Seq<char>,
    release_tail: Seq<char>,
)
    requires
        app_name(a.project, a.toml) is Ok,
        !m.contains('.') && is_tail(version_tail),
        !h.contains('.') && is_tail(release_tail),
        a.otp == Some(m + version_tail),
        a.release == Ok::<Seq<char>, Seq<char>>(h + release_tail),
    ensures
        a.result() is Ok <==> forall|i: int|
            0 <= i < a.targets.len() ==> !(#[trigger] a.targets[i]).host_only && (a.is_of_this_os(
                i,
            ) || m == h),
{
    let n = a.targets.len() as int;
    let r = a.request();
    major_stands_before_the_first_dot(m, version_tail);
    major_stands_before_the_first_dot(h, release_tail);
    lemma_all_or_none(a.targets, r, n);
    assert forall|i: int| 0 <= i < n implies (job_for(#[trigger] a.targets[i], r) is Ok <==> !(
    a.targets[i]).host_only && (a.is_of_this_os(i) || m == h)) by {}
}

/// With a version and no OTP of the host's own, a build can be done exactly where
/// every target is of the OS of this machine and none is tied to its own OS.
pub proof fn builds_without_erlang_are_for_this_os(a: Asked)
    requires
        app_name(a.project, a.toml) is Ok,
        a.otp is Some,
        a.release is Err,
    ensures
        a.result() is Ok <==> forall|i: int|
            0 <= i < a.targets.len() ==> !(#[trigger] a.targets[i]).host_only && a.is_of_this_os(
                i,
            ),
{
    let n = a.targets.len() as int;
    let r = a.request();
    lemma_all_or_none(a.targets, r, n);
    assert forall|i: int| 0 <= i < n implies (job_for(#[trigger] a.targets[i], r) is Ok <==> !(
    a.targets[i]).host_only && a.is_of_this_os(i)) by {}
}

/// Where the name of the app cannot be read, nothing is built.
pub proof fn builds_need_a_name(a: Asked)
    requires
        app_name(a.project, a.toml) is Err,
    ensures
        a.result() is Err,
{
}

/// A line of a gleam.toml that gives the name of the app.
pub struct NameLine {
    pub before: Seq<char>,
    pub gap: Seq<char>,
    pub value_gap: Seq<char>,
    pub name: Seq<char>,
    /// What stands behind the name: white space, then perhaps a comment.
    pub blank: Seq<char>,
    pub remark: Seq<char>,
}

impl NameLine {
    pub open spec fn is_plain(self) -> bool {
        &&& is_blank(self.before) && is_blank(self.gap) && is_blank(self.value_gap) && is_blank(
            self.blank,
        )
        &&& self.name.len() > 0 && !self.name.contains('"')
        &&& !whitespace(self.name[0]) && !whitespace(self.name.last())
        &&& self.remark.len() > 0 ==> self.remark[0] == '#' && !whitespace(self.remark.last())
    }

    pub open spec fn text(self) -> Seq<char> {
        self.before + "name"@ + self.gap + "="@ + self.value_gap + "\""@ + self.name + "\""@
            + self.blank + self.remark
    }
}

/// Whether a line gives no name: its key, what stands before its first `=`, is
/// another than `name`.
pub open spec fn is_other_line(line: Seq<char>) -> bool {
    forall|key: Seq<char>, value: Seq<char>|
        line == #[trigger] (key + seq!['='] + value) && !key.contains('=') ==> trimmed(key)
            != "name"@
}

proof fn lemma_other_line(line: Seq<char>)
    requires
        is_other_line(line),
    ensures
        name_in(line) is None,
{
    lemma_find_char(line, '=', 0);
    if let Some(eq) = find_char(line, '=', 0) {
        let (key, value) = (line.take(eq), line.skip(eq + 1));
        assert(line == key + seq!['='] + value);
        if key.contains('=') {
            let k = choose|k: int| 0 <= k < key.len() && key[k] == '=';
            assert(line[k] == '=');
        }
    }
}

proof fn lemma_name_line(l: NameLine)
    requires
        l.is_plain(),
    ensures
        name_in(l.text()) == Some(l.name),
{
    reveal_strlit("name");
    reveal_strlit("=");
    reveal_strlit("\"");
    let none = Seq::<char>::empty();
    let key = l.before + "name"@ + l.gap;
    let quoted = seq!['"'] + l.name + seq!['"'];
    let tail = l.blank + l.remark;
    let value = l.value_gap + quoted + tail;
    let line = l.text();
    assert(line == key + seq!['='] + value);
    assert(!key.contains('=')) by {
        if key.contains('=') {
            let k = choose|k: int| 0 <= k < key.len() && key[k] == '=';
            let b = l.before.len() as int;
            if k < b {
                assert(whitespace(l.before[k]));
            } else if k >= b + 4 {
                assert(key[k] == l.gap[k - b - 4]);
                assert(whitespace(l.gap[k - b - 4]));
            } else {
                assert(key[k] == "name"@[k - b]);
            }
        }
    }
    characters_are_found_where_they_first_stand(key, '=', value);
    assert(line.take(key.len() as int) == key);
    assert(line.skip(key.len() as int + 1) == value);
    trimming_takes_white_space_away(l.before, "name"@, l.gap);
    let v = if l.remark.len() == 0 {
        quoted
    } else {
        quoted + tail
    };
    assert(!whitespace('"'));
    if l.remark.len() == 0 {
        assert(value == l.value_gap + quoted + l.blank);
        trimming_takes_white_space_away(l.value_gap, quoted, l.blank);
    } else {
        assert(value == l.value_gap + (quoted + tail) + none);
        assert((quoted + tail).last() == l.remark.last());
        trimming_takes_white_space_away(l.value_gap, quoted + tail, none);
    }
    assert(trimmed(value) == v);
    let close = l.name.len() as int + 1;
    lemma_find_char(v, '"', 1);
    assert(v[0] == '"' && v[close] == '"');
    assert forall|k: int| 1 <= k < close implies v[k] != '"' by {
        assert(v[k] == l.name[k - 1]);
        assert(l.name.contains(l.name[k - 1]));
    }
    assert(find_char(v, '"', 1) == Some(close));
    let behind = v.skip(close + 1);
    if l.remark.len() == 0 {
        assert(behind == none + none + none);
        trimming_takes_white_space_away(none, none, none);
    } else {
        assert(behind == l.blank + l.remark + none);
        assert(!whitespace('#'));
        trimming_takes_white_space_away(l.blank, l.remark, none);
    }
    assert(v.subrange(1, close) == none + l.name + none);
    trimming_takes_white_space_away(none, l.name, none);
    assert(value_of(value) == l.name);
}

proof fn lemma_first_name(before: Seq<Seq<char>>, rest: Seq<Seq<char>>)
    requires
        forall|i: int| 0 <= i < before.len() ==> is_other_line(#[trigger] before[i]),
    ensures
        first_name(before + rest) == first_name(rest),
    decreases before.len(),
{
    if before.len() > 0 {
        let t = before.drop_first();
        assert(is_other_line(before[0]));
        lemma_other_line(before[0]);
        assert((before + rest).drop_first() == t + rest);
        assert forall|i: int| 0 <= i < t.len() implies is_other_line(#[trigger] t[i]) by {
            assert(t[i] == before[i + 1]);
        }
        lemma_first_name(t, rest);
    } else {
        assert(before + rest == rest);
    }
}

/// The name of the app is the value that the first line with the key `name` has,
/// whatever other lines there are.
pub proof fn app_is_named_by_its_line(
    project: Seq<char>,
    before: Seq<Seq<char>>,
    l: NameLine,
    behind: Seq<Seq<char>>,
)
    requires
        l.is_plain(),
        forall|i: int| 0 <= i < before.len() ==> is_other_line(#[trigger] before[i]),
        forall|i: int|
            0 <= i < (before + seq![l.text()] + behind).len() ==> !(#[trigger] (before + seq![
                l.text(),
            ] + behind)[i]).contains('\n'),
    ensures
        app_name(project, Ok(joined_by(before + seq![l.text()] + behind, '\n'))) == Ok::<
            Seq<char>,
            Seq<char>,
        >(l.name),
{
    let lines = before + seq![l.text()] + behind;
    splitting_undoes_joining(lines, '\n');
    let rest = seq![l.text()] + behind;
    assert(lines == before + rest);
    lemma_first_name(before, rest);
    lemma_name_line(l);
    assert(rest[0] == l.text());
}

/// Without a line with the key `name`, or without a gleam.toml, there is no name.
pub proof fn apps_without_a_line_have_no_name(
    project: Seq<char>,
    lines: Seq<Seq<char>>,
    e: Seq<char>,
)
    requires
        lines.len() > 0,
        forall|i: int|
            0 <= i < lines.len() ==> is_other_line(#[trigger] lines[i]) && !lines[i].contains('\n'),
    ensures
        app_name(project, Ok(joined_by(lines, '\n'))) is Err,
        app_name(project, Err(e)) is Err,
{
    splitting_undoes_joining(lines, '\n');
    lemma_first_name(lines, Seq::empty());
    assert(lines + Seq::empty() == lines);
}

/// The release of the machine's own OTP is asked for exactly where a version is
/// asked for and some target is of another OS.
pub proof fn release_is_asked_for_another_os(a: Asked)
    ensures
        crate::pipeline::release_matters(a.otp, a.targets, a.host) <==> a.otp is Some && exists|
            i: int|
            0 <= i < a.targets.len() && !(#[trigger] a.is_of_this_os(i)),
{
    if crate::pipeline::release_matters(a.otp, a.targets, a.host) {
        let i = choose|i: int|
            0 <= i < a.targets.len() && !is_native(#[trigger] a.targets[i], a.host);
        assert(!a.is_of_this_os(i));
    }
    if exists|i: int| 0 <= i < a.targets.len() && !(#[trigger] a.is_of_this_os(i)) {
        let i = choose|i: int| 0 <= i < a.targets.len() && !(#[trigger] a.is_of_this_os(i));
        assert(!is_native(a.targets[i], a.host));
    }
}

} // verus!
