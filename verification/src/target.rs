//! Build targets: the (os, arch) pairs panini can produce binaries for, and how
//! each maps to a Zig cross-compilation triple and a precompiled OTP archive.

use vstd::prelude::*;

use crate::text::{same, told};

verus! {

/// A supported build target.
#[derive(Clone, Copy, Debug, PartialEq, Eq)]
pub struct Target {
    /// panini's canonical name, e.g. "aarch64-macos".
    pub name: &'static str,
    /// "macos", "linux", or a BSD ("freebsd"/"netbsd"/"openbsd").
    pub os: &'static str,
    /// "x86_64" or "aarch64".
    pub arch: &'static str,
    /// Zig target triple for cross-compiling the launcher.
    pub zig: &'static str,
    /// Buildable only on a host of the same OS: no precompiled OTP runtime
    /// exists to bundle for it, so the host's own Erlang must be used. The BSDs
    /// are host-only for this reason.
    pub host_only: bool,
}

/// Every target panini knows how to build.
pub open spec fn every_target() -> Seq<Target> {
    seq![
        Target {
            name: "aarch64-macos",
            os: "macos",
            arch: "aarch64",
            zig: "aarch64-macos",
            host_only: false,
        },
        Target {
            name: "x86_64-macos",
            os: "macos",
            arch: "x86_64",
            zig: "x86_64-macos",
            host_only: false,
        },
        Target {
            name: "aarch64-linux",
            os: "linux",
            arch: "aarch64",
            zig: "aarch64-linux-musl",
            host_only: false,
        },
        Target {
            name: "x86_64-linux",
            os: "linux",
            arch: "x86_64",
            zig: "x86_64-linux-musl",
            host_only: false,
        },
        Target {
            name: "x86_64-freebsd",
            os: "freebsd",
            arch: "x86_64",
            zig: "x86_64-freebsd",
            host_only: true,
        },
        Target {
            name: "x86_64-netbsd",
            os: "netbsd",
            arch: "x86_64",
            zig: "x86_64-netbsd",
            host_only: true,
        },
        Target {
            name: "x86_64-openbsd",
            os: "openbsd",
            arch: "x86_64",
            zig: "x86_64-openbsd",
            host_only: true,
        },
    ]
}

/// Every target panini knows how to build. (Windows is not yet supported: it
/// needs a .ps1 boot path and a different launcher exec model.)
///
/// macOS and Linux have precompiled OTP runtimes, so they can be cross-built
/// from any supported host. The BSDs are `host_only`: they can only be built on
/// a machine of that OS using its installed Erlang, and are left out of
/// `--target all`.
pub fn all() -> (targets: Vec<Target>)
    ensures
        targets@ == every_target(),
{
    let targets: Vec<Target> =
        vec![
        Target {
            name: "aarch64-macos",
            os: "macos",
            arch: "aarch64",
            zig: "aarch64-macos",
            host_only: false,
        },
        Target {
            name: "x86_64-macos",
            os: "macos",
            arch: "x86_64",
            zig: "x86_64-macos",
            host_only: false,
        },
        Target {
            name: "aarch64-linux",
            os: "linux",
            arch: "aarch64",
            zig: "aarch64-linux-musl",
            host_only: false,
        },
        Target {
            name: "x86_64-linux",
            os: "linux",
            arch: "x86_64",
            zig: "x86_64-linux-musl",
            host_only: false,
        },
        Target {
            name: "x86_64-freebsd",
            os: "freebsd",
            arch: "x86_64",
            zig: "x86_64-freebsd",
            host_only: true,
        },
        Target {
            name: "x86_64-netbsd",
            os: "netbsd",
            arch: "x86_64",
            zig: "x86_64-netbsd",
            host_only: true,
        },
        Target {
            name: "x86_64-openbsd",
            os: "openbsd",
            arch: "x86_64",
            zig: "x86_64-openbsd",
            host_only: true,
        },
    ];
    assert(targets@ == every_target());
    targets
}

/// Whether a target can be built from any supported host.
pub open spec fn crosses() -> spec_fn(Target) -> bool {
    |t: Target| !t.host_only
}

/// The macOS/Linux subset that can be cross-built, which is what `--target all`
/// expands to. The host-only BSDs are left out.
pub fn cross_capable() -> (targets: Vec<Target>)
    ensures
        targets@ == every_target().filter(crosses()),
{
    let known = all();
    let mut targets: Vec<Target> = Vec::new();
    let mut i: usize = 0;
    proof {
        reveal(Seq::filter);
        assert(known@.take(0).filter(crosses()) == targets@);
    }
    while i < known.len()
        invariant
            i <= known@.len(),
            targets@ == known@.take(i as int).filter(crosses()),
        decreases known@.len() - i,
    {
        proof {
            reveal(Seq::filter);
            assert(known@.take(i + 1).drop_last() == known@.take(i as int));
        }
        if !known[i].host_only {
            targets.push(known[i]);
        }
        i = i + 1;
    }
    assert(known@.take(known@.len() as int) == known@);
    targets
}

/// The first target in a list with some property.
pub open spec fn first_such(targets: Seq<Target>, p: spec_fn(Target) -> bool) -> Option<Target>
    decreases targets.len(),
{
    if targets.len() == 0 {
        None
    } else if p(targets[0]) {
        Some(targets[0])
    } else {
        first_such(targets.drop_first(), p)
    }
}

/// Being the target for an operating system and an architecture.
pub open spec fn runs_on(os: Seq<char>, arch: Seq<char>) -> spec_fn(Target) -> bool {
    |t: Target| t.os@ == os && t.arch@ == arch
}

/// Having a name.
pub open spec fn is_named(name: Seq<char>) -> spec_fn(Target) -> bool {
    |t: Target| t.name@ == name
}

/// The target matching a machine, if it is supported. `os` and `arch` are the
/// names the machine's platform goes by, e.g. "linux" and "x86_64".
pub fn host(os: &str, arch: &str) -> (target: Option<Target>)
    ensures
        target == first_such(every_target(), runs_on(os@, arch@)),
{
    let known = all();
    let mut i: usize = 0;
    assert(known@.skip(0) == known@);
    while i < known.len()
        invariant
            i <= known@.len(),
            known@ == every_target(),
            first_such(every_target(), runs_on(os@, arch@)) == first_such(
                known@.skip(i as int),
                runs_on(os@, arch@),
            ),
        decreases known@.len() - i,
    {
        assert(known@.skip(i as int).drop_first() == known@.skip(i + 1));
        if same(known[i].os, os) && same(known[i].arch, arch) {
            return Some(known[i]);
        }
        i = i + 1;
    }
    None
}

/// The target of a name.
fn named(name: &str) -> (target: Option<Target>)
    ensures
        target == first_such(every_target(), is_named(name@)),
{
    let known = all();
    let mut i: usize = 0;
    assert(known@.skip(0) == known@);
    while i < known.len()
        invariant
            i <= known@.len(),
            known@ == every_target(),
            first_such(every_target(), is_named(name@)) == first_such(
                known@.skip(i as int),
                is_named(name@),
            ),
        decreases known@.len() - i,
    {
        assert(known@.skip(i as int).drop_first() == known@.skip(i + 1));
        if same(known[i].name, name) {
            return Some(known[i]);
        }
        i = i + 1;
    }
    None
}

/// What a target name stands for on a given host, or what is wrong with it.
pub open spec fn meaning(name: Seq<char>, host: Option<Target>) -> Result<Target, Seq<char>> {
    if name == "host"@ {
        match host {
            Some(t) => Ok(t),
            None => Err("this host platform is not a supported target"@),
        }
    } else {
        match first_such(every_target(), is_named(name)) {
            Some(t) => Ok(t),
            None => Err("unknown target '"@ + name + "' (see `panini targets`)"@),
        }
    }
}

/// Resolve a target by name, or "host" for the current machine.
pub fn parse(name: &str, host: Option<Target>) -> (r: Result<Target, String>)
    ensures
        told(r) == meaning(name@, host),
{
    if same(name, "host") {
        match host {
            Some(t) => Ok(t),
            None => Err("this host platform is not a supported target".to_owned()),
        }
    } else {
        match named(name) {
            Some(t) => Ok(t),
            None => {
                let mut e = "unknown target '".to_owned();
                e.append(name);
                e.append("' (see `panini targets`)");
                Err(e)
            },
        }
    }
}

impl Target {
    /// Whether this is the target of the current machine.
    pub open spec fn is_this_host(self, host: Option<Target>) -> bool {
        host is Some && host->0.name@ == self.name@
    }

    pub fn is_host(&self, host: Option<Target>) -> (r: bool)
        ensures
            r == self.is_this_host(host),
    {
        match host {
            Some(h) => same(h.name, self.name),
            None => false,
        }
    }

    /// The file name of the precompiled OTP archive for a version.
    pub open spec fn archive(self, version: Seq<char>) -> Seq<char> {
        if self.os@ == "macos"@ {
            "otp_"@ + version + "_macos_universal.tar.gz"@
        } else {
            "otp_"@ + version + "_linux_any_"@ + self.arch@ + ".tar.gz"@
        }
    }

    /// The directory of the download host that holds the archive for a version.
    pub open spec fn archive_site(self, version: Seq<char>) -> Seq<char> {
        if self.os@ == "macos"@ {
            "https://beam-machine-universal.b-cdn.net"@ + "/OTP-"@ + version + "/macos/universal/"@
        } else {
            "https://beam-machine-universal.b-cdn.net"@ + "/OTP-"@ + version + "/linux/"@
                + self.arch@ + "/any/"@
        }
    }

    /// BEAM Machine download URL for a given OTP version.
    /// macOS has a single universal (x86_64+aarch64) archive; Linux is per-arch.
    pub fn otp_url(&self, version: &str) -> (url: String)
        ensures
            url@ == self.archive_site(version@) + self.archive(version@) + polite(),
    {
        let mut url = "https://beam-machine-universal.b-cdn.net".to_owned();
        url.append("/OTP-");
        url.append(version);
        if same(self.os, "macos") {
            url.append("/macos/universal/");
        } else {
            url.append("/linux/");
            url.append(self.arch);
            url.append("/any/");
        }
        url.append(self.otp_archive_name(version).as_str());
        // A bandwidth-courtesy marker requested by the host.
        url.append("?please-respect-my-bandwidth-costs=thank-you");
        url
    }

    /// Stable cache filename for the archive (macOS is arch-independent).
    pub fn otp_archive_name(&self, version: &str) -> (name: String)
        ensures
            name@ == self.archive(version@),
    {
        let mut name = "otp_".to_owned();
        name.append(version);
        if same(self.os, "macos") {
            name.append("_macos_universal.tar.gz");
        } else {
            name.append("_linux_any_");
            name.append(self.arch);
            name.append(".tar.gz");
        }
        name
    }
}

/// The courtesy marker that ends each URL of the download host.
pub open spec fn polite() -> Seq<char> {
    "?please-respect-my-bandwidth-costs=thank-you"@
}

/// The names of the targets, told apart from each other and from "host".
pub proof fn lemma_names_differ()
    ensures
        forall|i: int, j: int|
            0 <= i < 7 && 0 <= j < 7 && i != j ==> #[trigger] every_target()[i].name@
                != #[trigger] every_target()[j].name@,
        forall|i: int| 0 <= i < 7 ==> #[trigger] every_target()[i].name@ != "host"@,
{
    reveal_strlit("aarch64-macos");
    reveal_strlit("x86_64-macos");
    reveal_strlit("aarch64-linux");
    reveal_strlit("x86_64-linux");
    reveal_strlit("x86_64-freebsd");
    reveal_strlit("x86_64-netbsd");
    reveal_strlit("x86_64-openbsd");
    reveal_strlit("host");
    let n = |i: int| every_target()[i].name@;
    assert(n(0)[0] == 'a' && n(1)[0] == 'x' && n(2)[0] == 'a' && n(3)[0] == 'x');
    assert(n(0)[8] == 'm' && n(2)[8] == 'l');
    assert(n(1)[7] == 'm' && n(3)[7] == 'l' && n(4)[7] == 'f' && n(5)[7] == 'n' && n(6)[7] == 'o');
    assert(n(5)[0] == 'x' && n(4)[0] == 'x' && n(6)[0] == 'x');
    assert forall|i: int, j: int| 0 <= i < 7 && 0 <= j < 7 && i != j implies #[trigger] every_target()[i].name@
        != #[trigger] every_target()[j].name@ by {
        assert(n(i) == every_target()[i].name@ && n(j) == every_target()[j].name@);
        assert(n(i)[0] != n(j)[0] || n(i)[7] != n(j)[7] || n(i)[8] != n(j)[8]);
    }
    assert forall|i: int| 0 <= i < 7 implies #[trigger] every_target()[i].name@ != "host"@ by {
        assert("host"@.len() == 4);
        assert(n(i).len() > 4);
    }
}

/// Being found is being the first in the list to have the property.
proof fn lemma_first_such(targets: Seq<Target>, p: spec_fn(Target) -> bool, i: int)
    requires
        0 <= i < targets.len(),
        p(targets[i]),
        forall|j: int| 0 <= j < i ==> !p(#[trigger] targets[j]),
    ensures
        first_such(targets, p) == Some(targets[i]),
    decreases i,
{
    if i > 0 {
        assert(!p(targets[0]));
        let rest = targets.drop_first();
        assert forall|j: int| 0 <= j < i - 1 implies !p(#[trigger] rest[j]) by {
            assert(rest[j] == targets[j + 1]);
        }
        lemma_first_such(rest, p, i - 1);
    }
}

/// What is found is in the list and has the property; where nothing is found,
/// nothing in the list has it.
pub proof fn lemma_first_such_sound(targets: Seq<Target>, p: spec_fn(Target) -> bool)
    ensures
        match first_such(targets, p) {
            Some(t) => targets.contains(t) && p(t),
            None => forall|i: int| 0 <= i < targets.len() ==> !p(#[trigger] targets[i]),
        },
    decreases targets.len(),
{
    if targets.len() > 0 {
        if p(targets[0]) {
            assert(targets.contains(targets[0]));
        } else {
            let rest = targets.drop_first();
            lemma_first_such_sound(rest, p);
            assert forall|i: int| 0 < i < targets.len() implies targets[i] == rest[i - 1] by {}
            match first_such(targets, p) {
                Some(t) => {
                    let i = choose|i: int| 0 <= i < rest.len() && rest[i] == t;
                    assert(targets[i + 1] == t);
                },
                None => {},
            }
        }
    }
}

/// Every target is found again by its name, on every host.
pub proof fn parse_finds_every_target(t: Target, host: Option<Target>)
    requires
        every_target().contains(t),
    ensures
        meaning(t.name@, host) == Ok::<Target, Seq<char>>(t),
{
    let i = choose|i: int| 0 <= i < every_target().len() && every_target()[i] == t;
    lemma_names_differ();
    lemma_first_such(every_target(), is_named(t.name@), i);
}

/// A name resolves to a target that bears it, "host" aside; so two names of one
/// target are one name.
pub proof fn parse_keeps_the_name(name: Seq<char>, host: Option<Target>)
    requires
        name != "host"@,
    ensures
        meaning(name, host) is Ok ==> every_target().contains(meaning(name, host)->Ok_0)
            && meaning(name, host)->Ok_0.name@ == name,
{
    lemma_first_such_sound(every_target(), is_named(name));
}

/// Every target is the host target of the machine it is for.
pub proof fn every_target_is_the_host_of_its_machine(t: Target)
    requires
        every_target().contains(t),
    ensures
        first_such(every_target(), runs_on(t.os@, t.arch@)) == Some(t),
{
    let i = choose|i: int| 0 <= i < every_target().len() && every_target()[i] == t;
    reveal_strlit("macos");
    reveal_strlit("linux");
    reveal_strlit("freebsd");
    reveal_strlit("netbsd");
    reveal_strlit("openbsd");
    reveal_strlit("aarch64");
    reveal_strlit("x86_64");
    assert("macos"@[0] == 'm' && "linux"@[0] == 'l' && "freebsd"@[0] == 'f' && "netbsd"@[0] == 'n'
        && "openbsd"@[0] == 'o' && "aarch64"@[0] == 'a' && "x86_64"@[0] == 'x');
    lemma_first_such(every_target(), runs_on(t.os@, t.arch@), i);
}

/// The cross-capable targets are the macOS and Linux ones, and no others.
pub proof fn cross_capable_is_macos_and_linux(t: Target)
    requires
        every_target().contains(t),
    ensures
        every_target().filter(crosses()).contains(t) <==> t.os@ == "macos"@ || t.os@ == "linux"@,
{
    let i = choose|i: int| 0 <= i < every_target().len() && every_target()[i] == t;
    reveal_strlit("macos");
    reveal_strlit("linux");
    reveal_strlit("freebsd");
    reveal_strlit("netbsd");
    reveal_strlit("openbsd");
    assert("macos"@[0] == 'm' && "linux"@[0] == 'l' && "freebsd"@[0] == 'f' && "netbsd"@[0] == 'n'
        && "openbsd"@[0] == 'o');
    let kept = every_target().filter(crosses());
    if crosses()(t) {
        every_target().lemma_filter_contains(crosses(), i);
    }
    if kept.contains(t) {
        let k = choose|k: int| 0 <= k < kept.len() && kept[k] == t;
        every_target().lemma_filter_pred(crosses(), k);
    }
}

/// macOS runtimes are universal: one archive covers both architectures.
pub proof fn macos_archive_is_universal(a: Target, b: Target, version: Seq<char>)
    requires
        a.os@ == "macos"@,
        b.os@ == "macos"@,
    ensures
        a.archive(version) == b.archive(version),
        a.archive_site(version) == b.archive_site(version),
{
}

/// Cutting the same ends off equal texts leaves equal texts.
proof fn lemma_same_middle(
    front: Seq<char>,
    a: Seq<char>,
    b: Seq<char>,
    back_a: Seq<char>,
    back_b: Seq<char>,
)
    requires
        front + a + back_a == front + b + back_b,
        back_a.len() == back_b.len(),
    ensures
        a == b,
        back_a == back_b,
{
    let x = front + a + back_a;
    let y = front + b + back_b;
    assert(x.len() == y.len());
    assert(a.len() == b.len());
    assert(a == x.subrange(front.len() as int, (front.len() + a.len()) as int));
    assert(b == y.subrange(front.len() as int, (front.len() + b.len()) as int));
    assert(back_a == x.subrange((front.len() + a.len()) as int, x.len() as int));
    assert(back_b == y.subrange((front.len() + b.len()) as int, y.len() as int));
}

/// Archives of different versions never share a cache file.
pub proof fn archive_tells_versions_apart(t: Target, a: Seq<char>, b: Seq<char>)
    requires
        t.archive(a) == t.archive(b),
    ensures
        a == b,
{
    if t.os@ == "macos"@ {
        let back = "_macos_universal.tar.gz"@;
        lemma_same_middle("otp_"@, a, b, back, back);
    } else {
        let back = "_linux_any_"@ + t.arch@ + ".tar.gz"@;
        assert("otp_"@ + a + back == t.archive(a));
        assert("otp_"@ + b + back == t.archive(b));
        lemma_same_middle("otp_"@, a, b, back, back);
    }
}

/// Linux runtimes are per architecture: two architectures never share a cache file.
pub proof fn linux_archive_tells_architectures_apart(a: Target, b: Target, version: Seq<char>)
    requires
        a.os@ == "linux"@,
        b.os@ == "linux"@,
        a.archive(version) == b.archive(version),
    ensures
        a.arch@ == b.arch@,
{
    reveal_strlit("macos");
    reveal_strlit("linux");
    assert("macos"@[0] == 'm' && "linux"@[0] == 'l');
    let front = "otp_"@ + version + "_linux_any_"@;
    lemma_same_middle(front, a.arch@, b.arch@, ".tar.gz"@, ".tar.gz"@);
}

} // verus!
