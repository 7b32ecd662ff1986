//! Promises on the command line.

use vstd::prelude::*;

use crate::cli::{
    arguments_are_taken_in_order, asked, chosen_targets, defaults, is_among, options_from,
    requested, same_target, target_line, target_listing, targets_named, tool_line, with_value,
    with_word, BuildRequestView, Checkup, OptionsView,
};
use crate::laws::target::{is_supported, target_name};
use crate::laws::text::{
    characters_are_found_where_they_first_stand, has_text, is_blank, joined_by,
    splitting_undoes_joining, trimming_takes_white_space_away,
};
use crate::pipeline::Compression;
use crate::process::said;
use crate::target::{every_target, meaning, Target};
use crate::text::{split, trimmed, whitespace};

verus! {

/// Each command is asked for by its own words, help where nothing is said, and
/// any other word is unknown.
pub proof fn commands_are_asked_for_by_their_words(w: Seq<char>)
    ensures
        asked(None) is Help,
        asked(Some(w)) is Build <==> w == "build"@,
        asked(Some(w)) is Info <==> w == "info"@,
        asked(Some(w)) is Doctor <==> w == "doctor"@,
        asked(Some(w)) is OtpVersions <==> w == "otp-versions"@,
        asked(Some(w)) is Targets <==> w == "targets"@,
        asked(Some(w)) is Help <==> w == "help"@ || w == "-h"@ || w == "--help"@,
        asked(Some(w)) is Version <==> w == "version"@ || w == "--version"@ || w == "-V"@,
{
    reveal_strlit("build");
    reveal_strlit("info");
    reveal_strlit("doctor");
    reveal_strlit("otp-versions");
    reveal_strlit("targets");
    reveal_strlit("help");
    reveal_strlit("-h");
    reveal_strlit("--help");
    reveal_strlit("version");
    reveal_strlit("--version");
    reveal_strlit("-V");
    assert("build"@[0] == 'b' && "info"@[0] == 'i' && "doctor"@[0] == 'd' && "otp-versions"@[0]
        == 'o' && "targets"@[0] == 't' && "help"@[0] == 'h' && "version"@[0] == 'v');
    assert("-h"@[1] == 'h' && "-V"@[1] == 'V' && "--help"@[2] == 'h' && "--version"@[2] == 'v');
}

proof fn lemma_option(args: Seq<Seq<char>>, arg: Seq<char>, value: Seq<char>)
    requires
        options_from(args, 0, defaults()) is Ok,
        crate::cli::takes_value(arg),
    ensures
        options_from(args + seq![arg, value], 0, defaults()) == with_value(
            options_from(args, 0, defaults())->Ok_0,
            arg,
            value,
        ),
{
    crate::cli::last_value_counts(args, arg, value);
}

proof fn lemma_option_words()
    ensures
        "-o"@ != "--otp"@ && "-o"@ != "--target"@ && "-o"@ != "--compression"@ && "-o"@
            != "--compress"@,
        "--output"@ != "--otp"@ && "--output"@ != "--target"@ && "--output"@ != "--compression"@
            && "--output"@ != "--compress"@,
        "--otp"@ != "--target"@ && "--otp"@ != "--compression"@ && "--otp"@ != "--compress"@,
        "--target"@ != "--compression"@ && "--target"@ != "--compress"@,
        "--otp"@ != "--output"@,
{
    reveal_strlit("-o");
    reveal_strlit("--output");
    reveal_strlit("--otp");
    reveal_strlit("--target");
    reveal_strlit("--compression");
    reveal_strlit("--compress");
    assert("-o"@.len() == 2 && "--otp"@.len() == 5 && "--output"@.len() == 8);
    assert("--otp"@[2] == 'o' && "--target"@[2] == 't' && "--compression"@[2] == 'c'
        && "--compress"@[2] == 'c' && "--output"@[2] == 'o');
    assert("--target"@.len() == 8 && "--compression"@.len() == 13 && "--compress"@.len() == 10);
}

/// What is said of a build where nothing is: the project here, with the host's
/// own OTP, for the host, packed with gzip.
pub proof fn builds_have_defaults()
    ensures
        options_from(Seq::empty(), 0, defaults()) matches Ok(o) && o.project == "."@ && o.out
            is None && o.otp_version is None && o.target_spec is None && o.compression
            == Compression::Gz,
{
}

/// An option with its value, behind arguments that make sense, says that value
/// and changes nothing else.
pub proof fn options_say_their_value(args: Seq<Seq<char>>, x: Seq<char>)
    requires
        options_from(args, 0, defaults()) is Ok,
    ensures
        ({
            let o = options_from(args, 0, defaults())->Ok_0;
            let ok = |r: Result<OptionsView, Seq<char>>, p: OptionsView| r == Ok::<
                OptionsView,
                Seq<char>,
            >(p);
            let with = |arg: Seq<char>| options_from(args + seq![arg, x], 0, defaults());
            &&& ok(with("-o"@), OptionsView { out: Some(x), ..o })
            &&& ok(with("--output"@), OptionsView { out: Some(x), ..o })
            &&& ok(with("--otp"@), OptionsView { otp_version: Some(x), ..o })
            &&& ok(with("--target"@), OptionsView { target_spec: Some(x), ..o })
            &&& x == "gz"@ ==> ok(
                with("--compression"@),
                OptionsView { compression: Compression::Gz, ..o },
            )
            &&& x == "xz"@ ==> ok(
                with("--compression"@),
                OptionsView { compression: Compression::Xz, ..o },
            )
            &&& x == "zst"@ ==> ok(
                with("--compression"@),
                OptionsView { compression: Compression::Zst, ..o },
            )
            &&& x != "gz"@ && x != "xz"@ && x != "zst"@ ==> with("--compression"@) is Err
            &&& with("--compress"@) == with("--compression"@)
        }),
{
    lemma_option_words();
    crate::laws::payload::compressors_are_told_by_name(x);
    lemma_option(args, "-o"@, x);
    lemma_option(args, "--output"@, x);
    lemma_option(args, "--otp"@, x);
    lemma_option(args, "--target"@, x);
    lemma_option(args, "--compression"@, x);
    lemma_option(args, "--compress"@, x);
    reveal_strlit("gz");
    reveal_strlit("xz");
    reveal_strlit("zst");
    assert("gz"@[0] == 'g' && "xz"@[0] == 'x');
}

/// The first word that is no option names the project; a second word, an option
/// that is not known, or an option without its value is refused.
pub proof fn words_name_the_project(args: Seq<Seq<char>>, word: Seq<char>)
    requires
        options_from(args, 0, defaults()) is Ok,
    ensures
        ({
            let o = options_from(args, 0, defaults())->Ok_0;
            let r = options_from(args.push(word), 0, defaults());
            &&& (word.len() == 0 || word[0] != '-') && !o.project_set ==> r == Ok::<
                OptionsView,
                Seq<char>,
            >(OptionsView { project: word, project_set: true, ..o })
            &&& (word.len() == 0 || word[0] != '-') && o.project_set ==> r is Err
            &&& word.len() > 0 && word[0] == '-' ==> r is Err
        }),
{
    let o = options_from(args, 0, defaults())->Ok_0;
    let more = seq![word];
    assert(args + more == args.push(word));
    arguments_are_taken_in_order(args, more, defaults());
    assert(more[0] == word);
    reveal_strlit("-");
    reveal_strlit("-o");
    reveal_strlit("--output");
    reveal_strlit("--otp");
    reveal_strlit("--target");
    reveal_strlit("--compression");
    reveal_strlit("--compress");
    assert("-"@ == seq!['-']);
    if word.len() > 0 {
        assert(word.subrange(0, 1)[0] == word[0]);
        if word[0] == '-' {
            assert(word.subrange(0, 1) == "-"@);
        }
    }
    if !crate::cli::takes_value(word) {
        match with_word(o, word) {
            Ok(next) => {
                assert(options_from(more, 1, next) == Ok::<OptionsView, Seq<char>>(next));
            },
            Err(_) => {},
        }
    }
}

/// A name in a list of targets, with white space around it.
pub struct Named {
    pub before: Seq<char>,
    pub arch: Seq<char>,
    pub os: Seq<char>,
    pub behind: Seq<char>,
}

impl Named {
    /// Whether it names a supported platform, with nothing but white space around.
    pub open spec fn is_plain(self) -> bool {
        is_supported(self.arch, self.os) && is_blank(self.before) && is_blank(self.behind)
    }

    pub open spec fn name(self) -> Seq<char> {
        target_name(self.arch, self.os)
    }

    pub open spec fn text(self) -> Seq<char> {
        self.before + self.name() + self.behind
    }
}

/// How each of some names is written.
pub open spec fn named_texts(list: Seq<Named>) -> Seq<Seq<char>> {
    list.map_values(|n: Named| n.text())
}

proof fn lemma_named(n: Named, host: Option<Target>)
    requires
        n.is_plain(),
    ensures
        trimmed(n.text()) == n.name(),
        n.name().len() > 0,
        !n.text().contains(','),
        meaning(n.name(), host) matches Ok(t) && t.arch@ == n.arch && t.os@ == n.os && t.name@
            == n.name() && every_target().contains(t),
{
    reveal_strlit("x86_64");
    reveal_strlit("aarch64");
    reveal_strlit("-");
    reveal_strlit("macos");
    reveal_strlit("linux");
    reveal_strlit("freebsd");
    reveal_strlit("netbsd");
    reveal_strlit("openbsd");
    let name = n.name();
    assert(!whitespace(name[0]));
    assert(name.last() == n.os.last());
    assert(!whitespace(name.last()));
    trimming_takes_white_space_away(n.before, name, n.behind);
    let t = n.text();
    assert forall|i: int| 0 <= i < t.len() implies #[trigger] t[i] != ',' by {
        let b = n.before.len() as int;
        if i < b {
            assert(whitespace(n.before[i]));
        } else if i >= b + name.len() {
            assert(t[i] == n.behind[i - b - name.len()]);
            assert(whitespace(n.behind[i - b - name.len()]));
        } else if i < b + n.arch.len() {
            assert(t[i] == n.arch[i - b]);
        } else if i > b + n.arch.len() {
            assert(t[i] == n.os[i - b - n.arch.len() - 1]);
        }
    }
    let k = crate::laws::target::every_platform_has_a_target(n.arch, n.os);
    let target = every_target()[k];
    assert(every_target().contains(target));
    crate::laws::target::targets_are_told_by_their_platform(target);
    crate::target::parse_finds_every_target(target, host);
}

/// Whether a target of some name is among targets.
pub open spec fn has_target(targets: Seq<Target>, name: Seq<char>) -> bool {
    exists|k: int| 0 <= k < targets.len() && (#[trigger] targets[k]).name@ == name
}

/// Whether one of the first `n` of a list has some name.
pub open spec fn is_listed(list: Seq<Named>, name: Seq<char>, n: int) -> bool {
    exists|i: int| 0 <= i < n && (#[trigger] list[i]).name() == name
}

proof fn lemma_has_target(before: Seq<Target>, t: Target, name: Seq<char>)
    ensures
        has_target(before.push(t), name) <==> has_target(before, name) || t.name@ == name,
        is_among(before, t) ==> has_target(before, t.name@),
{
    let all = before.push(t);
    if has_target(before, name) {
        let k = choose|k: int| 0 <= k < before.len() && (#[trigger] before[k]).name@ == name;
        assert(all[k].name@ == name);
    }
    if t.name@ == name {
        assert(all[before.len() as int].name@ == name);
    }
    if has_target(all, name) && t.name@ != name {
        let k = choose|k: int| 0 <= k < all.len() && (#[trigger] all[k]).name@ == name;
        assert(before[k].name@ == name);
    }
    if is_among(before, t) {
        let k = choose|k: int| 0 <= k < before.len() && same_target(#[trigger] before[k], t);
        assert(before[k].name@ == t.name@);
    }
}

proof fn lemma_is_listed(list: Seq<Named>, name: Seq<char>, n: int)
    requires
        0 < n <= list.len(),
    ensures
        is_listed(list, name, n) <==> is_listed(list, name, n - 1) || list[n - 1].name() == name,
{
    if is_listed(list, name, n - 1) {
        let i = choose|i: int| 0 <= i < n - 1 && (#[trigger] list[i]).name() == name;
        assert(list[i].name() == name);
    }
}

proof fn lemma_named_targets(list: Seq<Named>, host: Option<Target>, name: Seq<char>, n: int)
    requires
        0 <= n <= list.len(),
        forall|i: int| 0 <= i < list.len() ==> (#[trigger] list[i]).is_plain(),
    ensures
        targets_named(named_texts(list), host, n) is Ok,
        n > 0 ==> targets_named(named_texts(list), host, n)->Ok_0.len() > 0,
        has_target(targets_named(named_texts(list), host, n)->Ok_0, name) <==> is_listed(
            list,
            name,
            n,
        ),
    decreases n,
{
    if n > 0 {
        lemma_named_targets(list, host, name, n - 1);
        let texts = named_texts(list);
        let last = list[n - 1];
        assert(last.is_plain());
        lemma_named(last, host);
        assert(texts[n - 1] == last.text());
        let before = targets_named(texts, host, n - 1)->Ok_0;
        let t = meaning(last.name(), host)->Ok_0;
        lemma_has_target(before, t, name);
        lemma_is_listed(list, name, n);
        assert(targets_named(texts, host, n)->Ok_0 == (if is_among(before, t) {
            before
        } else {
            before.push(t)
        }));
    }
}

/// A list of platforms stands for the targets of all of them, however many there
/// are, and of no others.
pub proof fn every_target_listed_is_built_for(
    list: Seq<Named>,
    host: Option<Target>,
    name: Seq<char>,
)
    requires
        list.len() > 0,
        forall|i: int| 0 <= i < list.len() ==> (#[trigger] list[i]).is_plain(),
        joined_by(named_texts(list), ',') != "all"@,
    ensures
        chosen_targets(Some(joined_by(named_texts(list), ',')), host) matches Ok(targets) && (
        has_target(targets, name) <==> is_listed(list, name, list.len() as int)),
{
    let texts = named_texts(list);
    assert forall|i: int| 0 <= i < texts.len() implies !(#[trigger] texts[i]).contains(',') by {
        lemma_named(list[i], host);
    }
    splitting_undoes_joining(texts, ',');
    lemma_named_targets(list, host, name, list.len() as int);
}

proof fn lemma_refused(names: Seq<Seq<char>>, host: Option<Target>, i: int, n: int)
    requires
        0 <= i < n <= names.len(),
        trimmed(names[i]).len() > 0,
        meaning(trimmed(names[i]), host) is Err,
    ensures
        targets_named(names, host, n) is Err,
    decreases n,
{
    if i < n - 1 {
        lemma_refused(names, host, i, n - 1);
    }
}

proof fn lemma_blank_names(names: Seq<Seq<char>>, host: Option<Target>, n: int)
    requires
        0 <= n <= names.len(),
        forall|i: int| 0 <= i < names.len() ==> is_blank(#[trigger] names[i]),
    ensures
        targets_named(names, host, n) == Ok::<Seq<Target>, Seq<char>>(Seq::empty()),
    decreases n,
{
    if n > 0 {
        lemma_blank_names(names, host, n - 1);
        let none = Seq::<char>::empty();
        let name = names[n - 1];
        assert(name + none + none == name);
        trimming_takes_white_space_away(name, none, none);
    }
}

/// A list is refused where a name in it, the white space around it aside, is not
/// known, wherever it stands, and where it has no name at all.
pub proof fn lists_with_an_unknown_name_are_refused(
    names: Seq<Seq<char>>,
    i: int,
    before: Seq<char>,
    name: Seq<char>,
    behind: Seq<char>,
    host: Option<Target>,
)
    requires
        names.len() > 0,
        forall|k: int| 0 <= k < names.len() ==> !(#[trigger] names[k]).contains(','),
        joined_by(names, ',') != "all"@,
    ensures
        0 <= i < names.len() && names[i] == before + name + behind && is_blank(before) && is_blank(
            behind,
        ) && name.len() > 0 && !whitespace(name[0]) && !whitespace(name.last()) && meaning(
            name,
            host,
        ) is Err ==> chosen_targets(Some(joined_by(names, ',')), host) is Err,
        (forall|k: int| 0 <= k < names.len() ==> is_blank(#[trigger] names[k])) ==> chosen_targets(
            Some(joined_by(names, ',')),
            host,
        ) is Err,
{
    splitting_undoes_joining(names, ',');
    let n = names.len() as int;
    if 0 <= i < n && names[i] == before + name + behind && is_blank(before) && is_blank(behind)
        && name.len() > 0 && !whitespace(name[0]) && !whitespace(name.last()) && meaning(name, host)
        is Err {
        trimming_takes_white_space_away(before, name, behind);
        lemma_refused(names, host, i, n);
    }
    if forall|k: int| 0 <= k < names.len() ==> is_blank(#[trigger] names[k]) {
        lemma_blank_names(names, host, n);
    }
}

/// Without a list it is the host, where that is supported, and nothing else.
pub proof fn builds_are_for_the_host(host: Option<Target>)
    ensures
        match host {
            Some(t) => chosen_targets(None, host) == Ok::<Seq<Target>, Seq<char>>(seq![t]),
            None => chosen_targets(None, host) is Err,
        },
{
}

proof fn lemma_checkup_texts()
    ensures
        has_text(
            "  \x1b[33m•\x1b[0m erl: none (host-OTP builds unavailable; use --otp <v>)"@,
            "use --otp <v>"@,
        ),
        has_text("  host:  UNSUPPORTED (see `panini targets`)"@, "UNSUPPORTED"@),
        has_text("\n\x1b[32m✓ ready to build\x1b[0m"@, "ready to build"@),
{
    reveal_strlit("  \x1b[33m•\x1b[0m erl: none (host-OTP builds unavailable; use --otp <v>)");
    reveal_strlit("  \x1b[33m•\x1b[0m erl: none (host-OTP builds unavailable; ");
    reveal_strlit("use --otp <v>");
    reveal_strlit(")");
    assert("  \x1b[33m•\x1b[0m erl: none (host-OTP builds unavailable; "@ + "use --otp <v>"@ + ")"@
        == "  \x1b[33m•\x1b[0m erl: none (host-OTP builds unavailable; use --otp <v>)"@);
    reveal_strlit("  host:  UNSUPPORTED (see `panini targets`)");
    reveal_strlit("  host:  ");
    reveal_strlit("UNSUPPORTED");
    reveal_strlit(" (see `panini targets`)");
    assert("  host:  "@ + "UNSUPPORTED"@ + " (see `panini targets`)"@
        == "  host:  UNSUPPORTED (see `panini targets`)"@);
    reveal_strlit("\n\x1b[32m✓ ready to build\x1b[0m");
    reveal_strlit("\n\x1b[32m✓ ");
    reveal_strlit("ready to build");
    reveal_strlit("\x1b[0m");
    assert("\n\x1b[32m✓ "@ + "ready to build"@ + "\x1b[0m"@
        == "\n\x1b[32m✓ ready to build\x1b[0m"@);
}

/// A machine is ready exactly where Gleam, curl and tar answer and its platform is
/// supported; an Erlang and a Zig of its own do not matter.
pub proof fn machines_are_ready_with_three_tools(c: Checkup)
    ensures
        c.is_ready() <==> c.gleam is Ok && c.curl is Ok && c.tar is Ok && c.host is Some,
        c.lines().len() == (if c.is_ready() {
            8int
        } else {
            7
        }),
        c.lines()[1] == tool_line(
            "gleam"@,
            said(c.gleam),
            "install from https://gleam.run/getting-started/"@,
        ),
        c.lines()[2] == tool_line(
            "curl"@,
            said(c.curl),
            "needed to fetch OTP runtimes and Zig"@,
        ),
        c.lines()[3] == tool_line("tar"@, said(c.tar), "needed to pack/unpack payloads"@),
        c.lines()[0] == "panini doctor\n"@,
        c.erl matches Ok(v) ==> has_text(c.lines()[4], trimmed(v@)),
        c.erl is Err ==> has_text(c.lines()[4], "use --otp <v>"@),
        has_text(c.lines()[5], crate::zig::description(said(c.zig))),
        c.host matches Some(t) ==> has_text(c.lines()[6], t.name@),
        c.host is None ==> has_text(c.lines()[6], "UNSUPPORTED"@),
        c.is_ready() ==> has_text(c.lines()[7], "ready to build"@),
{
    lemma_checkup_texts();
    let zig = "  \x1b[36m•\x1b[0m zig: "@;
    let d = crate::zig::description(said(c.zig));
    assert(zig + d == zig + d + Seq::<char>::empty());
    let none = Seq::<char>::empty();
    if let Ok(v) = c.erl {
        let a = "  \x1b[32m✓\x1b[0m erl: "@;
        let t = trimmed(v@);
        assert(a + t == a + t + none);
    }
    if let Some(t) = c.host {
        let a = "  host:  "@;
        let n = t.name@;
        assert(a + n == a + n + none);
    }
}

/// The line of a tool that answers shows the tool and the first line of its
/// answer, whatever else it says; that of one that does not says what it is
/// needed for.
pub proof fn tools_are_shown_by_their_first_line(
    program: Seq<char>,
    first: Seq<char>,
    rest: Seq<char>,
    hint: Seq<char>,
    e: Seq<char>,
)
    requires
        !first.contains('\n'),
    ensures
        tool_line(program, Ok(first), hint) == "  \x1b[32m✓\x1b[0m "@ + program + ": "@ + trimmed(
            first,
        ),
        tool_line(program, Ok(first + seq!['\n'] + rest), hint) == tool_line(
            program,
            Ok(first),
            hint,
        ),
        tool_line(program, Err(e), hint) == "  \x1b[31m✗\x1b[0m "@ + program + ": not found — "@
            + hint,
{
    characters_are_found_where_they_first_stand(first, '\n', rest);
    let s = first + seq!['\n'] + rest;
    assert(s.take(first.len() as int) == first);
    assert(split(s, '\n')[0] == first);
    assert(split(first, '\n')[0] == first);
}

/// Every target is listed, on a line of its own with its name and its triple, and
/// that of the host, alone, is marked.
pub proof fn every_target_is_listed(host: Option<Target>, i: int)
    requires
        0 <= i < every_target().len(),
    ensures
        target_listing(host).len() == every_target().len() + 3,
        ({
            let t = every_target()[i];
            let line = target_listing(host)[i + 1];
            let mark = if host is Some && host->0.name@ == t.name@ {
                "  (host)"@
            } else {
                Seq::empty()
            };
            &&& has_text(line, t.name@)
            &&& exists|a: Seq<char>| line == #[trigger] (a + " zig: "@) + t.zig@ + mark
        }),
{
    let t = every_target()[i];
    let line = target_line(t, host);
    assert(target_listing(host)[i + 1] == line);
    let p = crate::text::padded(t.name@, 16);
    let a = "  "@ + p;
    let mark = if t.is_this_host(host) {
        "  (host)"@
    } else {
        Seq::empty()
    };
    assert(line == a + " zig: "@ + t.zig@ + mark);
    let two = "  "@;
    let rest = p.skip(t.name@.len() as int) + " zig: "@ + t.zig@ + mark;
    assert(p == t.name@ + p.skip(t.name@.len() as int));
    assert(line == two + t.name@ + rest);
}

/// A build is asked for with what its options say and the targets that they
/// stand for; what is wrong with either is what is answered.
pub proof fn builds_are_asked_for_by_their_options(
    args: Seq<Seq<char>>,
    host: Option<Target>,
    o: OptionsView,
    targets: Seq<Target>,
    e: Seq<char>,
)
    ensures
        options_from(args, 0, defaults()) == Ok::<OptionsView, Seq<char>>(o) && chosen_targets(
            o.target_spec,
            host,
        ) == Ok::<Seq<Target>, Seq<char>>(targets) ==> requested(args, host) == Ok::<
            BuildRequestView,
            Seq<char>,
        >(
            BuildRequestView {
                project: o.project,
                out: o.out,
                otp_version: o.otp_version,
                targets,
                compression: o.compression,
            },
        ),
        options_from(args, 0, defaults()) == Err::<OptionsView, Seq<char>>(e) ==> requested(
            args,
            host,
        ) == Err::<BuildRequestView, Seq<char>>(e),
        options_from(args, 0, defaults()) == Ok::<OptionsView, Seq<char>>(o) && chosen_targets(
            o.target_spec,
            host,
        ) == Err::<Seq<Target>, Seq<char>>(e) ==> requested(args, host) == Err::<
            BuildRequestView,
            Seq<char>,
        >(e),
{
}

/// An option at the end, where its value would stand, is told what it misses.
pub proof fn options_are_told_what_they_miss(args: Seq<Seq<char>>, arg: Seq<char>)
    requires
        options_from(args, 0, defaults()) is Ok,
    ensures
        ({
            let r = options_from(args.push(arg), 0, defaults());
            let told = |e: Seq<char>| r == Err::<OptionsView, Seq<char>>(e);
            &&& arg == "-o"@ || arg == "--output"@ ==> told("-o requires a path argument"@)
            &&& arg == "--otp"@ ==> told("--otp requires a version, e.g. 27.2"@)
            &&& arg == "--target"@ ==> told("--target requires a value, e.g. all"@)
            &&& arg == "--compression"@ || arg == "--compress"@ ==> told(
                "--compression requires a value: gz, xz, or zst"@,
            )
        }),
{
    lemma_option_words();
    let more = seq![arg];
    assert(args + more == args.push(arg));
    arguments_are_taken_in_order(args, more, defaults());
    assert(more[0] == arg);
}

} // verus!
