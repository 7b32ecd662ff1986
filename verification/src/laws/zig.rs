//! Promises on which Zig is used.

use vstd::prelude::*;

use crate::laws::stages::{has_zig_releases, zig_of};
use crate::laws::text::{has_text, is_blank, trimming_takes_white_space_away};
use crate::plan::{ActionView, TaskView};
use crate::text::trimmed;
use crate::zig::{description, resolution};

verus! {

proof fn lemma_version(before: Seq<char>, behind: Seq<char>)
    requires
        is_blank(before),
        is_blank(behind),
    ensures
        trimmed(before + "0.16.0"@ + behind) == "0.16.0"@,
{
    reveal_strlit("0.16.0");
    assert("0.16.0"@[0] == '0' && "0.16.0"@.last() == '0');
    trimming_takes_white_space_away(before, "0.16.0"@, behind);
}

/// A Zig 0.16.0 on the machine is used as it is, with nothing done, on every
/// machine and whatever white space its answer has around the version.
pub proof fn zig_of_the_right_version_is_used(
    before: Seq<char>,
    behind: Seq<char>,
    arch: Seq<char>,
    os: Seq<char>,
    home: Option<Seq<char>>,
)
    requires
        is_blank(before),
        is_blank(behind),
    ensures
        resolution(Ok(before + "0.16.0"@ + behind), arch, os, home) == Ok::<
            (Seq<TaskView>, Seq<char>),
            Seq<char>,
        >((Seq::empty(), "zig"@)),
        description(Ok(before + "0.16.0"@ + behind)) == before + "0.16.0"@ + behind + " (host)"@,
{
    lemma_version(before, behind);
}

/// Where there is no Zig or another one, one is used that is downloaded for the
/// machine, once, and has to be there afterwards; a machine without releases is
/// refused.
pub proof fn other_machines_get_a_zig_of_their_own(
    version: Result<Seq<char>, Seq<char>>,
    arch: Seq<char>,
    os: Seq<char>,
    home: Option<Seq<char>>,
)
    requires
        version is Ok ==> trimmed(version->Ok_0) != "0.16.0"@,
    ensures
        ({
            let r = resolution(version, arch, os, home);
            let bin = zig_of(arch, os, home);
            let file = "zig-"@ + arch + "-"@ + os + "-0.16.0.tar.xz"@;
            &&& r is Ok <==> has_zig_releases(arch, os)
            &&& r matches Ok(p) ==> p.1 == bin && p.0.len() == 7 && p.0[0] == (
            TaskView::SkipIfExists { path: bin, count: 6 }) && (
            p.0[3] matches TaskView::Must { action, .. } && action matches ActionView::Run(i)
                && i.program == "curl"@ && i.args.contains(
                "https://ziglang.org/download/0.16.0/"@ + file,
            )) && (p.0[5] matches TaskView::Must { action, .. } && action matches ActionView::Run(i)
                && i.program == "tar"@) && (p.0[6] matches TaskView::Require { path, .. } && path
                == bin)
        }),
{
    crate::laws::stages::lemma_zig_of(arch, os, home);
    if let Ok(p) = resolution(version, arch, os, home) {
        let i = p.0[3]->Must_action->Run_0;
        let site = "https://ziglang.org/download/"@;
        let v = "0.16.0"@;
        let file = "zig-"@ + arch + "-"@ + os + "-0.16.0.tar.xz"@;
        lemma_address();
        assert("zig-"@ + arch + "-"@ + os + "-"@ + v + ".tar.xz"@ == file);
        assert(site + v + "/"@ + file == "https://ziglang.org/download/0.16.0/"@ + file);
        assert(i.args[5] == "https://ziglang.org/download/0.16.0/"@ + file);
    }
}

proof fn lemma_address()
    ensures
        "https://ziglang.org/download/"@ + "0.16.0"@ + "/"@
            == "https://ziglang.org/download/0.16.0/"@,
        "-"@ + "0.16.0"@ + ".tar.xz"@ == "-0.16.0.tar.xz"@,
{
    reveal_strlit("https://ziglang.org/download/");
    reveal_strlit("0.16.0");
    reveal_strlit("/");
    reveal_strlit("https://ziglang.org/download/0.16.0/");
    reveal_strlit("-");
    reveal_strlit(".tar.xz");
    reveal_strlit("-0.16.0.tar.xz");
    assert("https://ziglang.org/download/"@ + "0.16.0"@ + "/"@
        == "https://ziglang.org/download/0.16.0/"@);
    assert("-"@ + "0.16.0"@ + ".tar.xz"@ == "-0.16.0.tar.xz"@);
}

/// What is said of Zig shows the version that the machine has, where it has one,
/// and the one that is fetched, where one is.
pub proof fn zig_is_described_by_its_version(v: Seq<char>, e: Seq<char>)
    ensures
        has_text(description(Ok(v)), v),
        trimmed(v) != "0.16.0"@ ==> has_text(description(Ok(v)), "will fetch 0.16.0"@),
        has_text(description(Err(e)), "not installed"@),
        has_text(description(Err(e)), "will fetch 0.16.0"@),
{
    reveal_strlit("0.16.0");
    reveal_strlit("will fetch 0.16.0");
    reveal_strlit("; will fetch ");
    reveal_strlit("not installed");
    reveal_strlit("not installed; will fetch ");
    let none = Seq::<char>::empty();
    let a = "host has "@;
    let m = "; will fetch "@;
    let n = "0.16.0"@;
    let f = "will fetch 0.16.0"@;
    assert(v + " (host)"@ == none + v + " (host)"@);
    assert(a + v + m + n == a + v + (m + n));
    let semi = seq![';', ' '];
    assert(m + n == semi + f);
    assert(a + v + m + n == (a + v + semi) + f + none);
    let no = "not installed"@;
    assert("not installed; will fetch "@ + n == none + no + (semi + f));
    assert("not installed; will fetch "@ + n == (no + semi) + f + none);
}

} // verus!
