//! Promises on build targets.

use vstd::prelude::*;

use crate::target::{
    crosses, every_target, first_such, is_named, lemma_first_such_sound, lemma_names_differ,
    meaning, parse_finds_every_target, polite, runs_on, Target,
};

verus! {

/// The name of the target for an architecture and an operating system.
pub open spec fn target_name(arch: Seq<char>, os: Seq<char>) -> Seq<char> {
    arch + "-"@ + os
}

/// Whether an operating system is a BSD.
pub open spec fn is_bsd(os: Seq<char>) -> bool {
    os == "freebsd"@ || os == "netbsd"@ || os == "openbsd"@
}

/// Whether a platform is one that binaries can be built for.
pub open spec fn is_supported(arch: Seq<char>, os: Seq<char>) -> bool {
    ||| (arch == "x86_64"@ || arch == "aarch64"@) && (os == "macos"@ || os == "linux"@)
    ||| arch == "x86_64"@ && is_bsd(os)
}

/// The triple that Zig knows a platform by: Linux binaries are static ones.
pub open spec fn triple(arch: Seq<char>, os: Seq<char>) -> Seq<char> {
    if os == "linux"@ {
        arch + "-"@ + os + "-musl"@
    } else {
        arch + "-"@ + os
    }
}

/// Every target is named after its platform, is cross-compiled for by the triple
/// of its platform, and is tied to its own OS where that is a BSD, and only there.
pub proof fn targets_are_told_by_their_platform(t: Target)
    requires
        every_target().contains(t),
    ensures
        is_supported(t.arch@, t.os@),
        t.name@ == target_name(t.arch@, t.os@),
        t.zig@ == triple(t.arch@, t.os@),
        t.host_only <==> is_bsd(t.os@),
{
    let i = choose|i: int| 0 <= i < every_target().len() && every_target()[i] == t;
    lemma_os_names();
    reveal_strlit("macos");
    reveal_strlit("linux");
    reveal_strlit("freebsd");
    reveal_strlit("netbsd");
    reveal_strlit("openbsd");
    reveal_strlit("-");
    reveal_strlit("-musl");
    reveal_strlit("x86_64");
    reveal_strlit("aarch64");
    reveal_strlit("aarch64-macos");
    reveal_strlit("x86_64-macos");
    reveal_strlit("aarch64-linux");
    reveal_strlit("x86_64-linux");
    reveal_strlit("aarch64-linux-musl");
    reveal_strlit("x86_64-linux-musl");
    reveal_strlit("x86_64-freebsd");
    reveal_strlit("x86_64-netbsd");
    reveal_strlit("x86_64-openbsd");
    assert("aarch64-macos"@ == "aarch64"@ + "-"@ + "macos"@);
    assert("x86_64-macos"@ == "x86_64"@ + "-"@ + "macos"@);
    assert("aarch64-linux"@ == "aarch64"@ + "-"@ + "linux"@);
    assert("x86_64-linux"@ == "x86_64"@ + "-"@ + "linux"@);
    assert("aarch64-linux-musl"@ == "aarch64"@ + "-"@ + "linux"@ + "-musl"@);
    assert("x86_64-linux-musl"@ == "x86_64"@ + "-"@ + "linux"@ + "-musl"@);
    assert("x86_64-freebsd"@ == "x86_64"@ + "-"@ + "freebsd"@);
    assert("x86_64-netbsd"@ == "x86_64"@ + "-"@ + "netbsd"@);
    assert("x86_64-openbsd"@ == "x86_64"@ + "-"@ + "openbsd"@);
    let s = every_target();
    assert(t == s[0] || t == s[1] || t == s[2] || t == s[3] || t == s[4] || t == s[5] || t == s[6]);
}

proof fn lemma_os_names()
    ensures
        "macos"@.len() == 5 && "macos"@[0] == 'm',
        "linux"@.len() == 5 && "linux"@[0] == 'l',
        "freebsd"@.len() == 7 && "freebsd"@[0] == 'f',
        "netbsd"@.len() == 6 && "netbsd"@[0] == 'n',
        "openbsd"@.len() == 7 && "openbsd"@[0] == 'o',
        "macos"@ != "linux"@,
        !is_bsd("macos"@),
        !is_bsd("linux"@),
        "freebsd"@ != "linux"@ && "netbsd"@ != "linux"@ && "openbsd"@ != "linux"@,
{
    reveal_strlit("macos");
    reveal_strlit("linux");
    reveal_strlit("freebsd");
    reveal_strlit("netbsd");
    reveal_strlit("openbsd");
    assert("macos"@[0] != "linux"@[0]);
}

/// Every supported platform has a target.
pub proof fn every_platform_has_a_target(arch: Seq<char>, os: Seq<char>) -> (i: int)
    requires
        is_supported(arch, os),
    ensures
        0 <= i < every_target().len(),
        every_target()[i].arch@ == arch,
        every_target()[i].os@ == os,
{
    lemma_os_names();
    let s = every_target();
    if os == "macos"@ {
        if arch == "aarch64"@ {
            assert(s[0].arch@ == arch && s[0].os@ == os);
            0
        } else {
            assert(s[1].arch@ == arch && s[1].os@ == os);
            1
        }
    } else if os == "linux"@ {
        if arch == "aarch64"@ {
            assert(s[2].arch@ == arch && s[2].os@ == os);
            2
        } else {
            assert(s[3].arch@ == arch && s[3].os@ == os);
            3
        }
    } else if os == "freebsd"@ {
        assert(s[4].os@ == os);
        4
    } else if os == "netbsd"@ {
        assert(s[5].os@ == os);
        5
    } else {
        assert(s[6].os@ == os);
        6
    }
}

/// A supported platform is known by its name, and what it is known as is that
/// platform, with the triple that its launcher is compiled for.
pub proof fn platforms_are_known_by_name(arch: Seq<char>, os: Seq<char>, host: Option<Target>)
    requires
        is_supported(arch, os),
    ensures
        meaning(target_name(arch, os), host) matches Ok(t) && t.arch@ == arch && t.os@ == os
            && t.zig@ == triple(arch, os) && (t.host_only <==> is_bsd(os)),
{
    let i = every_platform_has_a_target(arch, os);
    let t = every_target()[i];
    assert(every_target().contains(t));
    targets_are_told_by_their_platform(t);
    parse_finds_every_target(t, host);
}

/// No other name stands for a target, `host` aside.
pub proof fn other_names_are_unknown(name: Seq<char>, host: Option<Target>)
    requires
        name != "host"@,
        forall|arch: Seq<char>, os: Seq<char>|
            is_supported(arch, os) ==> name != #[trigger] target_name(arch, os),
    ensures
        meaning(name, host) is Err,
{
    lemma_first_such_sound(every_target(), is_named(name));
    if meaning(name, host) is Ok {
        let t = meaning(name, host)->Ok_0;
        targets_are_told_by_their_platform(t);
        assert(name == target_name(t.arch@, t.os@));
    }
}

/// `host` stands for the target of this machine.
pub proof fn host_is_this_machine(host: Option<Target>)
    ensures
        match host {
            Some(t) => meaning("host"@, host) == Ok::<Target, Seq<char>>(t),
            None => meaning("host"@, host) is Err,
        },
{
}

/// A machine's target is the one for its platform; there is one exactly where
/// the platform is supported.
pub proof fn machines_have_the_target_of_their_platform(os: Seq<char>, arch: Seq<char>)
    ensures
        match first_such(every_target(), runs_on(os, arch)) {
            Some(t) => is_supported(arch, os) && t.arch@ == arch && t.os@ == os
                && every_target().contains(t),
            None => !is_supported(arch, os),
        },
{
    lemma_first_such_sound(every_target(), runs_on(os, arch));
    match first_such(every_target(), runs_on(os, arch)) {
        Some(t) => targets_are_told_by_their_platform(t),
        None => {
            if is_supported(arch, os) {
                let i = every_platform_has_a_target(arch, os);
                assert(!runs_on(os, arch)(every_target()[i]));
            }
        },
    }
}

/// What `--target all` stands for are the macOS and Linux targets of both
/// architectures, each once, and nothing else.
pub proof fn all_is_macos_and_linux(t: Target)
    ensures
        every_target().filter(crosses()).len() == 4,
        every_target().filter(crosses()).no_duplicates(),
        every_target().filter(crosses()).contains(t) <==> every_target().contains(t) && (t.os@
            == "macos"@ || t.os@ == "linux"@),
{
    crate::cli::lemma_all();
    lemma_names_differ();
    let s = every_target();
    let four = s.take(4);
    assert(four.no_duplicates()) by {
        assert forall|i: int, j: int| 0 <= i < 4 && 0 <= j < 4 && i != j implies four[i]
            != four[j] by {
            assert(s[i].name@ != s[j].name@);
        }
    }
    if s.contains(t) {
        crate::target::cross_capable_is_macos_and_linux(t);
    }
    if four.contains(t) {
        let k = choose|k: int| 0 <= k < 4 && four[k] == t;
        assert(s[k] == t);
        crate::target::cross_capable_is_macos_and_linux(t);
    }
}

/// The archive of a version is fetched from the place of that version and that
/// platform: one for all of macOS, one for each architecture of Linux.
pub proof fn archives_are_fetched_by_version_and_platform(t: Target, version: Seq<char>)
    ensures
        t.os@ == "macos"@ ==> t.archive_site(version) + t.archive(version) + polite()
            == "https://beam-machine-universal.b-cdn.net/OTP-"@ + version
            + "/macos/universal/otp_"@ + version + "_macos_universal.tar.gz"@
            + "?please-respect-my-bandwidth-costs=thank-you"@,
        t.os@ == "linux"@ ==> t.archive_site(version) + t.archive(version) + polite()
            == "https://beam-machine-universal.b-cdn.net/OTP-"@ + version + "/linux/"@ + t.arch@
            + "/any/otp_"@ + version + "_linux_any_"@ + t.arch@ + ".tar.gz"@
            + "?please-respect-my-bandwidth-costs=thank-you"@,
        t.os@ == "macos"@ ==> t.archive(version) == "otp_"@ + version + "_macos_universal.tar.gz"@,
        t.os@ == "linux"@ ==> t.archive(version) == "otp_"@ + version + "_linux_any_"@ + t.arch@
            + ".tar.gz"@,
{
    lemma_os_names();
    let base = "https://beam-machine-universal.b-cdn.net"@;
    assert("https://beam-machine-universal.b-cdn.net/OTP-"@ == base + "/OTP-"@) by {
        reveal_strlit("https://beam-machine-universal.b-cdn.net/OTP-");
        reveal_strlit("https://beam-machine-universal.b-cdn.net");
        reveal_strlit("/OTP-");
    }
    assert("/macos/universal/otp_"@ == "/macos/universal/"@ + "otp_"@) by {
        reveal_strlit("/macos/universal/otp_");
        reveal_strlit("/macos/universal/");
        reveal_strlit("otp_");
    }
    assert("/any/otp_"@ == "/any/"@ + "otp_"@) by {
        reveal_strlit("/any/otp_");
        reveal_strlit("/any/");
        reveal_strlit("otp_");
    }
    let url = t.archive_site(version) + t.archive(version) + polite();
    if t.os@ == "macos"@ {
        assert(url == base + "/OTP-"@ + version + ("/macos/universal/"@ + "otp_"@) + version
            + "_macos_universal.tar.gz"@ + "?please-respect-my-bandwidth-costs=thank-you"@);
    } else if t.os@ == "linux"@ {
        assert(url == base + "/OTP-"@ + version + "/linux/"@ + t.arch@ + ("/any/"@ + "otp_"@)
            + version + "_linux_any_"@ + t.arch@ + ".tar.gz"@
            + "?please-respect-my-bandwidth-costs=thank-you"@);
    }
}

} // verus!
