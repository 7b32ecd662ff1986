//! The command line: what is asked for, and what is said in reply.

use vstd::prelude::*;

use crate::pipeline::{build_jobs, compressor, each_target_gets_its_own_binary, Compression};
use crate::process::{capture, option_view, running, said, str_views, Invocation};
use crate::target::{
    all, cross_capable, crosses, every_target, lemma_names_differ, meaning, parse,
    parse_finds_every_target, parse_keeps_the_name, Target,
};
use crate::text::{
    begins_with, pad, padded, push_text, same, split, split_on, starts_with, trim, trimmed,
    view_of, views,
};
use crate::zig::{describe, description};

verus! {

/// What a command word asks for.
pub enum Command {
    Build,
    Info,
    Doctor,
    OtpVersions,
    Targets,
    Help,
    Version,
    Unknown,
}

/// What a command word asks for; help where there is none.
pub open spec fn asked(word: Option<Seq<char>>) -> Command {
    match word {
        None => Command::Help,
        Some(w) => if w == "build"@ {
            Command::Build
        } else if w == "info"@ {
            Command::Info
        } else if w == "doctor"@ {
            Command::Doctor
        } else if w == "otp-versions"@ {
            Command::OtpVersions
        } else if w == "targets"@ {
            Command::Targets
        } else if w == "help"@ || w == "-h"@ || w == "--help"@ {
            Command::Help
        } else if w == "version"@ || w == "--version"@ || w == "-V"@ {
            Command::Version
        } else {
            Command::Unknown
        },
    }
}

impl Command {
    /// What a command word asks for; help where there is none.
    pub fn parse(word: Option<&str>) -> (command: Command)
        ensures
            command == asked(option_view(word)),
    {
        match word {
            None => Command::Help,
            Some(w) => if same(w, "build") {
                Command::Build
            } else if same(w, "info") {
                Command::Info
            } else if same(w, "doctor") {
                Command::Doctor
            } else if same(w, "otp-versions") {
                Command::OtpVersions
            } else if same(w, "targets") {
                Command::Targets
            } else if same(w, "help") || same(w, "-h") || same(w, "--help") {
                Command::Help
            } else if same(w, "version") || same(w, "--version") || same(w, "-V") {
                Command::Version
            } else {
                Command::Unknown
            },
        }
    }
}

/// What `panini help` prints.
pub const HELP: &'static str = "panini — a Burrito for Gleam 🥪\n\nUSAGE:\n  panini build [PROJECT_DIR] [OPTIONS]     Press a Gleam app into one binary\n  panini doctor                            Check the toolchain is ready\n  panini targets                           List supported build targets\n  panini otp-versions                      List OTP versions usable with --otp\n  panini info                              Show detected Gleam/OTP toolchain\n  panini version                           Show the panini version\n  panini help                              Show this help\n\nBUILD OPTIONS:\n  -o, --output PATH     Output binary (default: <project>/<app>)\n  --otp VERSION         Bundle a precompiled OTP version, e.g. 27.2 (downloaded)\n  --target LIST         Comma-separated targets, or 'all' (default: host)\n  --compression KIND    Payload compressor: gz (default), xz, or zst.\n                         xz/zst yield smaller binaries but need that\n                         decompressor present on Linux targets at run time.\n\nEXAMPLES:\n  panini build ./examples/hello -o ./hello\n  panini build ./examples/hello --otp 27.2\n  panini build ./examples/hello --target x86_64-linux,aarch64-linux --otp 27.2\n  panini build ./examples/hello --target all --otp 27.2";

/// The line that says that a command word is not known, before the help.
pub fn unknown_command(word: &str) -> (line: String)
    ensures
        line@ == "panini: unknown command '"@ + word@ + "'\n"@,
{
    let mut line = "panini: unknown command '".to_owned();
    line.append(word);
    line.append("'\n");
    line
}

/// The line that an error ends panini with.
pub fn error_line(e: &str) -> (line: String)
    ensures
        line@ == "\x1b[31merror:\x1b[0m "@ + e@,
{
    let mut line = "\x1b[31merror:\x1b[0m ".to_owned();
    line.append(e);
    line
}

/// What the arguments of `build` say so far.
pub struct Options {
    pub project: String,
    /// Whether the project directory was given.
    pub project_set: bool,
    pub out: Option<String>,
    pub otp_version: Option<String>,
    pub target_spec: Option<String>,
    pub compression: Compression,
}

pub struct OptionsView {
    pub project: Seq<char>,
    pub project_set: bool,
    pub out: Option<Seq<char>>,
    pub otp_version: Option<Seq<char>>,
    pub target_spec: Option<Seq<char>>,
    pub compression: Compression,
}

impl View for Options {
    type V = OptionsView;

    open spec fn view(&self) -> OptionsView {
        OptionsView {
            project: self.project@,
            project_set: self.project_set,
            out: view_of(self.out),
            otp_version: view_of(self.otp_version),
            target_spec: view_of(self.target_spec),
            compression: self.compression,
        }
    }
}

/// What holds where no argument says otherwise.
pub open spec fn defaults() -> OptionsView {
    OptionsView {
        project: "."@,
        project_set: false,
        out: None,
        otp_version: None,
        target_spec: None,
        compression: Compression::Gz,
    }
}

/// Being an argument that takes the one after it as its value.
pub open spec fn takes_value(arg: Seq<char>) -> bool {
    arg == "-o"@ || arg == "--output"@ || arg == "--otp"@ || arg == "--target"@ || arg
        == "--compression"@ || arg == "--compress"@
}

/// The error of an argument whose value is missing.
pub open spec fn missing_value(arg: Seq<char>) -> Seq<char> {
    if arg == "-o"@ || arg == "--output"@ {
        "-o requires a path argument"@
    } else if arg == "--otp"@ {
        "--otp requires a version, e.g. 27.2"@
    } else if arg == "--target"@ {
        "--target requires a value, e.g. all"@
    } else {
        "--compression requires a value: gz, xz, or zst"@
    }
}

/// What an argument and its value say, on top of what was said before.
pub open spec fn with_value(o: OptionsView, arg: Seq<char>, value: Seq<char>) -> Result<
    OptionsView,
    Seq<char>,
> {
    if arg == "-o"@ || arg == "--output"@ {
        Ok(OptionsView { out: Some(value), ..o })
    } else if arg == "--otp"@ {
        Ok(OptionsView { otp_version: Some(value), ..o })
    } else if arg == "--target"@ {
        Ok(OptionsView { target_spec: Some(value), ..o })
    } else {
        match compressor(value) {
            Ok(compression) => Ok(OptionsView { compression, ..o }),
            Err(e) => Err(e),
        }
    }
}

/// What an argument without a value says: the first that is no option is the
/// project directory, and no other is expected.
pub open spec fn with_word(o: OptionsView, arg: Seq<char>) -> Result<OptionsView, Seq<char>> {
    if !begins_with(arg, "-"@) && !o.project_set {
        Ok(OptionsView { project: arg, project_set: true, ..o })
    } else {
        Err("unexpected argument: "@ + arg)
    }
}

/// What the arguments from `i` on say, on top of what was said before.
pub open spec fn options_from(args: Seq<Seq<char>>, i: int, o: OptionsView) -> Result<
    OptionsView,
    Seq<char>,
>
    decreases args.len() - i,
{
    if i < 0 || i >= args.len() {
        Ok(o)
    } else if takes_value(args[i]) {
        if i + 1 >= args.len() {
            Err(missing_value(args[i]))
        } else {
            match with_value(o, args[i], args[i + 1]) {
                Ok(next) => options_from(args, i + 2, next),
                Err(e) => Err(e),
            }
        }
    } else {
        match with_word(o, args[i]) {
            Ok(next) => options_from(args, i + 1, next),
            Err(e) => Err(e),
        }
    }
}

/// Options or an error, as mathematics.
pub open spec fn options_view(r: Result<Options, String>) -> Result<OptionsView, Seq<char>> {
    match r {
        Ok(o) => Ok(o@),
        Err(e) => Err(e@),
    }
}

fn takes_a_value(arg: &str) -> (r: bool)
    ensures
        r == takes_value(arg@),
{
    same(arg, "-o") || same(arg, "--output") || same(arg, "--otp") || same(arg, "--target") || same(
        arg,
        "--compression",
    ) || same(arg, "--compress")
}

fn value_is_missing(arg: &str) -> (e: String)
    ensures
        e@ == missing_value(arg@),
{
    if same(arg, "-o") || same(arg, "--output") {
        "-o requires a path argument".to_owned()
    } else if same(arg, "--otp") {
        "--otp requires a version, e.g. 27.2".to_owned()
    } else if same(arg, "--target") {
        "--target requires a value, e.g. all".to_owned()
    } else {
        "--compression requires a value: gz, xz, or zst".to_owned()
    }
}

/// Read the arguments of `build`: a project directory, `-o OUTPUT`,
/// `--otp VERSION`, `--target LIST`, `--compression KIND`.
pub fn parse_options(args: &Vec<String>) -> (r: Result<Options, String>)
    ensures
        options_view(r) == options_from(views(args@), 0, defaults()),
{
    let mut o = Options {
        project: ".".to_owned(),
        project_set: false,
        out: None,
        otp_version: None,
        target_spec: None,
        compression: Compression::Gz,
    };
    let n: usize = args.len();
    let ghost all = views(args@);
    let mut i: usize = 0;
    while i < n
        invariant
            i <= n,
            n == args@.len(),
            all == views(args@),
            options_from(all, 0, defaults()) == options_from(all, i as int, o@),
        decreases n - i,
    {
        let arg = args[i].as_str();
        let ghost before = o@;
        assert(all[i as int] == arg@);
        if takes_a_value(arg) {
            if n - i < 2 {
                return Err(value_is_missing(arg));
            }
            let value = args[i + 1].as_str();
            assert(all[i + 1] == value@);
            if same(arg, "-o") || same(arg, "--output") {
                o.out = Some(value.to_owned());
            } else if same(arg, "--otp") {
                o.otp_version = Some(value.to_owned());
            } else if same(arg, "--target") {
                o.target_spec = Some(value.to_owned());
            } else {
                match Compression::parse(value) {
                    Ok(compression) => {
                        o.compression = compression;
                    },
                    Err(e) => {
                        return Err(e);
                    },
                }
            }
            assert(with_value(before, arg@, value@) == Ok::<OptionsView, Seq<char>>(o@));
            i = i + 2;
        } else if !starts_with(arg, "-") && !o.project_set {
            o.project = arg.to_owned();
            o.project_set = true;
            i = i + 1;
        } else {
            let mut e = "unexpected argument: ".to_owned();
            e.append(arg);
            return Err(e);
        }
    }
    Ok(o)
}

/// Being the same target, field by field.
pub open spec fn same_target(a: Target, b: Target) -> bool {
    a.name@ == b.name@ && a.os@ == b.os@ && a.arch@ == b.arch@ && a.zig@ == b.zig@ && a.host_only
        == b.host_only
}

/// Being among some targets.
pub open spec fn is_among(targets: Seq<Target>, t: Target) -> bool {
    exists|k: int| 0 <= k < targets.len() && same_target(#[trigger] targets[k], t)
}

/// The targets that the first `n` names stand for, each once, where it is first
/// named; names that are empty but for white space are passed over.
pub open spec fn targets_named(names: Seq<Seq<char>>, host: Option<Target>, n: int) -> Result<
    Seq<Target>,
    Seq<char>,
>
    decreases n,
{
    if n <= 0 {
        Ok(Seq::empty())
    } else {
        match targets_named(names, host, n - 1) {
            Err(e) => Err(e),
            Ok(before) => if trimmed(names[n - 1]).len() == 0 {
                Ok(before)
            } else {
                match meaning(trimmed(names[n - 1]), host) {
                    Err(e) => Err(e),
                    Ok(t) => if is_among(before, t) {
                        Ok(before)
                    } else {
                        Ok(before.push(t))
                    },
                }
            },
        }
    }
}

/// The targets that a `--target` spec stands for, or what is wrong with it.
pub open spec fn chosen_targets(spec: Option<Seq<char>>, host: Option<Target>) -> Result<
    Seq<Target>,
    Seq<char>,
> {
    match spec {
        None => match host {
            Some(t) => Ok(seq![t]),
            None => Err(
                "this host platform isn't a supported target; pass --target explicitly"@,
            ),
        },
        Some(list) => if list == "all"@ {
            Ok(every_target().filter(crosses()))
        } else {
            let names = split(list, ',');
            match targets_named(names, host, names.len() as int) {
                Err(e) => Err(e),
                Ok(targets) => if targets.len() == 0 {
                    Err("no targets given to --target"@)
                } else {
                    Ok(targets)
                },
            }
        },
    }
}

/// Targets or an error, as mathematics.
pub open spec fn targets_view(r: Result<Vec<Target>, String>) -> Result<Seq<Target>, Seq<char>> {
    match r {
        Ok(targets) => Ok(targets@),
        Err(e) => Err(e@),
    }
}

fn holds(targets: &Vec<Target>, t: Target) -> (r: bool)
    ensures
        r == is_among(targets@, t),
{
    let mut i: usize = 0;
    while i < targets.len()
        invariant
            i <= targets@.len(),
            forall|k: int| 0 <= k < i ==> !same_target(#[trigger] targets@[k], t),
        decreases targets@.len() - i,
    {
        let u = targets[i];
        if same(u.name, t.name) && same(u.os, t.os) && same(u.arch, t.arch) && same(u.zig, t.zig)
            && u.host_only == t.host_only {
            assert(same_target(targets@[i as int], t));
            return true;
        }
        i = i + 1;
    }
    false
}

/// Turn a `--target` spec into a target list. `None` is the host, "all" is
/// everything that can be cross-built, anything else a comma-separated list.
pub fn resolve_targets(spec: Option<&str>, host: Option<Target>) -> (r: Result<
    Vec<Target>,
    String,
>)
    ensures
        targets_view(r) == chosen_targets(option_view(spec), host),
{
    let list = match spec {
        None => {
            return match host {
                Some(t) => {
                    let targets: Vec<Target> = vec![t];
                    assert(targets@ == seq![t]);
                    Ok(targets)
                },
                None => Err(
                    "this host platform isn't a supported target; pass --target explicitly".to_owned(),
                ),
            };
        },
        Some(list) => list,
    };
    if same(list, "all") {
        return Ok(cross_capable());
    }
    let names = split_on(list, ',');
    let ghost all = views(names@);
    let mut targets: Vec<Target> = Vec::new();
    let mut i: usize = 0;
    while i < names.len()
        invariant
            i <= names@.len(),
            all == views(names@),
            all == split(list@, ','),
            list@ != "all"@,
            option_view(spec) == Some(list@),
            targets_named(all, host, i as int) == Ok::<Seq<Target>, Seq<char>>(targets@),
        decreases names@.len() - i,
    {
        assert(all[i as int] == names@[i as int]@);
        let name = trim(names[i].as_str());
        if !name.is_empty() {
            match parse(name, host) {
                Ok(t) => {
                    if !holds(&targets, t) {
                        targets.push(t);
                    }
                },
                Err(e) => {
                    proof {
                        lemma_error_stays(all, host, i + 1, all.len() as int);
                    }
                    return Err(e);
                },
            }
        }
        i = i + 1;
    }
    if targets.is_empty() {
        return Err("no targets given to --target".to_owned());
    }
    Ok(targets)
}

/// A name that stands for nothing spoils the list, whatever comes after it.
proof fn lemma_error_stays(names: Seq<Seq<char>>, host: Option<Target>, m: int, n: int)
    requires
        m <= n,
        targets_named(names, host, m) is Err,
    ensures
        targets_named(names, host, n) == targets_named(names, host, m),
    decreases n - m,
{
    if m < n {
        lemma_error_stays(names, host, m, n - 1);
    }
}

/// What `build` is asked to do.
pub struct BuildRequest {
    pub project: String,
    pub out: Option<String>,
    pub otp_version: Option<String>,
    pub targets: Vec<Target>,
    pub compression: Compression,
}

pub struct BuildRequestView {
    pub project: Seq<char>,
    pub out: Option<Seq<char>>,
    pub otp_version: Option<Seq<char>>,
    pub targets: Seq<Target>,
    pub compression: Compression,
}

impl View for BuildRequest {
    type V = BuildRequestView;

    open spec fn view(&self) -> BuildRequestView {
        BuildRequestView {
            project: self.project@,
            out: view_of(self.out),
            otp_version: view_of(self.otp_version),
            targets: self.targets@,
            compression: self.compression,
        }
    }
}

/// A request or an error, as mathematics.
pub open spec fn request_view(r: Result<BuildRequest, String>) -> Result<
    BuildRequestView,
    Seq<char>,
> {
    match r {
        Ok(b) => Ok(b@),
        Err(e) => Err(e@),
    }
}

/// What `build` is asked to do by its arguments, or what is wrong with them.
pub open spec fn requested(args: Seq<Seq<char>>, host: Option<Target>) -> Result<
    BuildRequestView,
    Seq<char>,
> {
    match options_from(args, 0, defaults()) {
        Err(e) => Err(e),
        Ok(o) => match chosen_targets(o.target_spec, host) {
            Err(e) => Err(e),
            Ok(targets) => Ok(
                BuildRequestView {
                    project: o.project,
                    out: o.out,
                    otp_version: o.otp_version,
                    targets,
                    compression: o.compression,
                },
            ),
        },
    }
}

/// What `build` is asked to do by its arguments.
pub fn cmd_build(args: &Vec<String>, host: Option<Target>) -> (r: Result<BuildRequest, String>)
    ensures
        request_view(r) == requested(views(args@), host),
{
    let o = match parse_options(args) {
        Ok(o) => o,
        Err(e) => {
            return Err(e);
        },
    };
    let spec: Option<&str> = match &o.target_spec {
        Some(list) => Some(list.as_str()),
        None => None,
    };
    match resolve_targets(spec, host) {
        Ok(targets) => Ok(
            BuildRequest {
                project: o.project,
                out: o.out,
                otp_version: o.otp_version,
                targets,
                compression: o.compression,
            },
        ),
        Err(e) => Err(e),
    }
}

proof fn lemma_in_order(a: Seq<Seq<char>>, b: Seq<Seq<char>>, i: int, o: OptionsView)
    requires
        0 <= i <= a.len(),
        options_from(a, i, o) is Ok,
    ensures
        options_from(a + b, i, o) == options_from(a + b, a.len() as int, options_from(a, i, o)->Ok_0),
    decreases a.len() - i,
{
    if i < a.len() {
        assert((a + b)[i] == a[i]);
        if takes_value(a[i]) {
            assert((a + b)[i + 1] == a[i + 1]);
            lemma_in_order(a, b, i + 2, with_value(o, a[i], a[i + 1])->Ok_0);
        } else {
            lemma_in_order(a, b, i + 1, with_word(o, a[i])->Ok_0);
        }
    }
}

proof fn lemma_from_there(a: Seq<Seq<char>>, b: Seq<Seq<char>>, i: int, o: OptionsView)
    requires
        0 <= i <= b.len(),
    ensures
        options_from(a + b, a.len() + i, o) == options_from(b, i, o),
    decreases b.len() - i,
{
    if i < b.len() {
        assert((a + b)[a.len() + i] == b[i]);
        if takes_value(b[i]) {
            if i + 1 < b.len() {
                assert((a + b)[a.len() + i + 1] == b[i + 1]);
                match with_value(o, b[i], b[i + 1]) {
                    Ok(next) => lemma_from_there(a, b, i + 2, next),
                    Err(_) => {},
                }
            }
        } else {
            match with_word(o, b[i]) {
                Ok(next) => lemma_from_there(a, b, i + 1, next),
                Err(_) => {},
            }
        }
    }
}

/// Arguments are taken in order: what follows a list of arguments that makes
/// sense is taken on top of what that list says.
pub proof fn arguments_are_taken_in_order(a: Seq<Seq<char>>, b: Seq<Seq<char>>, o: OptionsView)
    requires
        options_from(a, 0, o) is Ok,
    ensures
        options_from(a + b, 0, o) == options_from(b, 0, options_from(a, 0, o)->Ok_0),
{
    lemma_in_order(a, b, 0, o);
    lemma_from_there(a, b, 0, options_from(a, 0, o)->Ok_0);
}

/// Of an option that is given twice the last value counts, wherever the option
/// stands among the others.
pub proof fn last_value_counts(args: Seq<Seq<char>>, arg: Seq<char>, value: Seq<char>)
    requires
        options_from(args, 0, defaults()) is Ok,
        takes_value(arg),
    ensures
        options_from(args + seq![arg, value], 0, defaults()) == with_value(
            options_from(args, 0, defaults())->Ok_0,
            arg,
            value,
        ),
{
    let o = options_from(args, 0, defaults())->Ok_0;
    let more = seq![arg, value];
    arguments_are_taken_in_order(args, more, defaults());
    assert(more[0] == arg && more[1] == value);
    match with_value(o, arg, value) {
        Ok(next) => {
            assert(options_from(more, 2, next) == Ok::<OptionsView, Seq<char>>(next));
        },
        Err(_) => {},
    }
}

/// Being a target of this machine, where there is one, that panini knows.
pub open spec fn is_known_host(host: Option<Target>) -> bool {
    host is Some ==> every_target().contains(host->0)
}

proof fn lemma_meaning_is_known(name: Seq<char>, host: Option<Target>)
    requires
        is_known_host(host),
        meaning(name, host) is Ok,
    ensures
        every_target().contains(meaning(name, host)->Ok_0),
{
    if name != "host"@ {
        parse_keeps_the_name(name, host);
    }
}

proof fn lemma_targets_named(names: Seq<Seq<char>>, host: Option<Target>, n: int)
    requires
        is_known_host(host),
        targets_named(names, host, n) is Ok,
    ensures
        forall|i: int|
            0 <= i < targets_named(names, host, n)->Ok_0.len() ==> every_target().contains(
                #[trigger] targets_named(names, host, n)->Ok_0[i],
            ),
        forall|i: int, j: int|
            0 <= i < j < targets_named(names, host, n)->Ok_0.len() ==> !same_target(
                #[trigger] targets_named(names, host, n)->Ok_0[i],
                #[trigger] targets_named(names, host, n)->Ok_0[j],
            ),
    decreases n,
{
    if n > 0 {
        lemma_targets_named(names, host, n - 1);
        let before = targets_named(names, host, n - 1)->Ok_0;
        let after = targets_named(names, host, n)->Ok_0;
        let name = trimmed(names[n - 1]);
        if name.len() > 0 {
            lemma_meaning_is_known(name, host);
            let t = meaning(name, host)->Ok_0;
            if !is_among(before, t) {
                assert forall|i: int, j: int| 0 <= i < j < after.len() implies !same_target(
                    #[trigger] after[i],
                    #[trigger] after[j],
                ) by {
                    assert(after[i] == before[i]);
                    if j < before.len() {
                        assert(after[j] == before[j]);
                    }
                }
            }
        }
    }
}

/// The targets that are chosen are ones that panini knows, and there is at
/// least one.
pub proof fn chosen_targets_are_known(spec: Option<Seq<char>>, host: Option<Target>)
    requires
        is_known_host(host),
        chosen_targets(spec, host) is Ok,
    ensures
        chosen_targets(spec, host)->Ok_0.len() > 0,
        forall|i: int|
            0 <= i < chosen_targets(spec, host)->Ok_0.len() ==> every_target().contains(
                #[trigger] chosen_targets(spec, host)->Ok_0[i],
            ),
{
    match spec {
        None => {},
        Some(list) => if list == "all"@ {
            lemma_all();
            assert forall|i: int| 0 <= i < 4 implies every_target().contains(
                #[trigger] every_target().take(4)[i],
            ) by {
                assert(every_target()[i] == every_target().take(4)[i]);
            }
        } else {
            lemma_targets_named(split(list, ','), host, split(list, ',').len() as int);
        },
    }
}

pub proof fn lemma_all()
    ensures
        every_target().filter(crosses()) == every_target().take(4),
{
    reveal_with_fuel(Seq::filter, 8);
    let t = every_target();
    assert(t.drop_last() == t.take(6));
    assert(t.take(6).drop_last() == t.take(5));
    assert(t.take(5).drop_last() == t.take(4));
    assert(t.take(4).drop_last() == t.take(3));
    assert(t.take(3).drop_last() == t.take(2));
    assert(t.take(2).drop_last() == t.take(1));
    assert(t.take(1).drop_last() == t.take(0));
    assert(t.filter(crosses()) == t.take(4));
}

/// No target is chosen twice.
pub proof fn chosen_targets_differ(spec: Option<Seq<char>>, host: Option<Target>, i: int, j: int)
    requires
        is_known_host(host),
        chosen_targets(spec, host) is Ok,
        0 <= i < j < chosen_targets(spec, host)->Ok_0.len(),
    ensures
        chosen_targets(spec, host)->Ok_0[i].name@ != chosen_targets(spec, host)->Ok_0[j].name@,
{
    let targets = chosen_targets(spec, host)->Ok_0;
    chosen_targets_are_known(spec, host);
    parse_finds_every_target(targets[i], host);
    parse_finds_every_target(targets[j], host);
    if spec is Some && spec->0 == "all"@ {
        lemma_all();
        lemma_names_differ();
        assert(targets[i] == every_target()[i] && targets[j] == every_target()[j]);
    } else if spec is Some {
        let names = split(spec->0, ',');
        lemma_targets_named(names, host, names.len() as int);
    }
}

/// Every target that a list names is chosen.
pub proof fn named_targets_are_chosen(list: Seq<char>, host: Option<Target>, i: int)
    requires
        list != "all"@,
        chosen_targets(Some(list), host) is Ok,
        0 <= i < split(list, ',').len(),
        trimmed(split(list, ',')[i]).len() > 0,
    ensures
        meaning(trimmed(split(list, ',')[i]), host) is Ok,
        is_among(
            chosen_targets(Some(list), host)->Ok_0,
            meaning(trimmed(split(list, ',')[i]), host)->Ok_0,
        ),
{
    lemma_named_is_chosen(split(list, ','), host, split(list, ',').len() as int, i);
}

proof fn lemma_named_is_chosen(names: Seq<Seq<char>>, host: Option<Target>, n: int, i: int)
    requires
        targets_named(names, host, n) is Ok,
        0 <= i < n <= names.len(),
        trimmed(names[i]).len() > 0,
    ensures
        meaning(trimmed(names[i]), host) is Ok,
        is_among(targets_named(names, host, n)->Ok_0, meaning(trimmed(names[i]), host)->Ok_0),
    decreases n,
{
    let before = targets_named(names, host, n - 1)->Ok_0;
    let after = targets_named(names, host, n)->Ok_0;
    if i < n - 1 {
        lemma_named_is_chosen(names, host, n - 1, i);
        let t = meaning(trimmed(names[i]), host)->Ok_0;
        let k = choose|k: int| 0 <= k < before.len() && same_target(#[trigger] before[k], t);
        assert(same_target(after[k], t));
    } else {
        let t = meaning(trimmed(names[i]), host)->Ok_0;
        if !is_among(before, t) {
            assert(same_target(after.last(), t));
        }
    }
}

/// `--target all` leaves out the targets that can be built on their own OS only.
pub proof fn all_leaves_out_host_only_targets(host: Option<Target>, i: int)
    requires
        chosen_targets(Some("all"@), host) is Ok,
        0 <= i < chosen_targets(Some("all"@), host)->Ok_0.len(),
    ensures
        !chosen_targets(Some("all"@), host)->Ok_0[i].host_only,
{
    lemma_all();
}

/// Whatever targets are asked for, no binary of a build overwrites another.
pub proof fn binaries_do_not_collide(
    args: Seq<Seq<char>>,
    host: Option<Target>,
    project: Seq<char>,
    toml: Result<Seq<char>, Seq<char>>,
    release: Result<Seq<char>, Seq<char>>,
    i: int,
    j: int,
)
    requires
        is_known_host(host),
        requested(args, host) is Ok,
        ({
            let b = requested(args, host)->Ok_0;
            build_jobs(project, toml, b.out, b.otp_version, b.targets, host, release) is Ok
        }),
        0 <= i < j < requested(args, host)->Ok_0.targets.len(),
    ensures
        ({
            let b = requested(args, host)->Ok_0;
            let jobs = build_jobs(
                project,
                toml,
                b.out,
                b.otp_version,
                b.targets,
                host,
                release,
            )->Ok_0.1;
            jobs[i].output != jobs[j].output
        }),
{
    let b = requested(args, host)->Ok_0;
    let o = options_from(args, 0, defaults())->Ok_0;
    chosen_targets_differ(o.target_spec, host, i, j);
    each_target_gets_its_own_binary(
        project,
        toml,
        b.out,
        b.otp_version,
        b.targets,
        host,
        release,
        i,
        j,
    );
}

/// Ask a tool for its version.
pub fn version_query(program: &str) -> (query: Invocation)
    ensures
        query@ == running(program@, seq!["--version"@], None),
{
    let args: Vec<&str> = vec!["--version"];
    assert(str_views(args@) == seq!["--version"@]);
    capture(program, args)
}

/// Ask for the release of the host's own OTP, as `doctor` shows it.
pub fn erl_query() -> (query: Invocation)
    ensures
        query@ == running(
            "erl"@,
            seq![
                "-noshell"@,
                "-eval"@,
                "io:format(\"OTP ~s\",[erlang:system_info(otp_release)]),halt()."@,
            ],
            None,
        ),
{
    let args: Vec<&str> = vec![
        "-noshell",
        "-eval",
        "io:format(\"OTP ~s\",[erlang:system_info(otp_release)]),halt().",
    ];
    assert(str_views(args@) == seq![
        "-noshell"@,
        "-eval"@,
        "io:format(\"OTP ~s\",[erlang:system_info(otp_release)]),halt()."@,
    ]);
    capture("erl", args)
}

/// The line for a tool, given what it said of itself: the first line of that,
/// or what the tool is needed for.
pub open spec fn tool_line(
    program: Seq<char>,
    out: Result<Seq<char>, Seq<char>>,
    hint: Seq<char>,
) -> Seq<char> {
    match out {
        Ok(text) => "  \x1b[32m✓\x1b[0m "@ + program + ": "@ + trimmed(split(text, '\n')[0]),
        Err(_) => "  \x1b[31m✗\x1b[0m "@ + program + ": not found — "@ + hint,
    }
}

/// The ✓/✗ line for a tool, and whether it ran successfully.
pub fn check(program: &str, out: &Result<String, String>, hint: &str) -> (r: (String, bool))
    ensures
        r.0@ == tool_line(program@, said(*out), hint@),
        r.1 == (out is Ok),
{
    match out {
        Ok(text) => {
            let lines = split_on(text.as_str(), '\n');
            assert(views(lines@).len() > 0);
            assert(views(lines@)[0] == lines@[0]@);
            let mut line = "  \x1b[32m✓\x1b[0m ".to_owned();
            line.append(program);
            line.append(": ");
            line.append(trim(lines[0].as_str()));
            (line, true)
        },
        Err(_) => {
            let mut line = "  \x1b[31m✗\x1b[0m ".to_owned();
            line.append(program);
            line.append(": not found — ");
            line.append(hint);
            (line, false)
        },
    }
}

/// What `doctor` asked, and the answers.
pub struct Checkup {
    pub gleam: Result<String, String>,
    pub curl: Result<String, String>,
    pub tar: Result<String, String>,
    pub erl: Result<String, String>,
    pub zig: Result<String, String>,
    /// The target this machine is.
    pub host: Option<Target>,
}

impl Checkup {
    /// Whether panini can build here: with the tools it cannot do without, on a
    /// supported machine. An Erlang of the host's own and a Zig are not among
    /// those tools.
    pub open spec fn is_ready(self) -> bool {
        self.gleam is Ok && self.curl is Ok && self.tar is Ok && self.host is Some
    }

    /// What is shown of it.
    pub open spec fn lines(self) -> Seq<Seq<char>> {
        let shown = seq![
            "panini doctor\n"@,
            tool_line(
                "gleam"@,
                said(self.gleam),
                "install from https://gleam.run/getting-started/"@,
            ),
            tool_line("curl"@, said(self.curl), "needed to fetch OTP runtimes and Zig"@),
            tool_line("tar"@, said(self.tar), "needed to pack/unpack payloads"@),
            match self.erl {
                Ok(v) => "  \x1b[32m✓\x1b[0m erl: "@ + trimmed(v@),
                Err(_) =>
                    "  \x1b[33m•\x1b[0m erl: none (host-OTP builds unavailable; use --otp <v>)"@,
            },
            "  \x1b[36m•\x1b[0m zig: "@ + description(said(self.zig)),
            match self.host {
                Some(t) => "  host:  "@ + t.name@,
                None => "  host:  UNSUPPORTED (see `panini targets`)"@,
            },
        ];
        if self.is_ready() {
            shown.push("\n\x1b[32m✓ ready to build\x1b[0m"@)
        } else {
            shown
        }
    }
}

/// Diagnose whether the toolchain needed to build is present, from the answers
/// to what was asked: the lines to print, and how it ends.
pub fn cmd_doctor(c: &Checkup) -> (r: (Vec<String>, Result<(), String>))
    ensures
        views(r.0@) == c.lines(),
        r.1 is Ok <==> c.is_ready(),
        r.1 is Err ==> r.1->Err_0@ == "some required tools are missing (see above)"@,
{
    let mut lines: Vec<String> = Vec::new();
    push_text(&mut lines, "panini doctor\n".to_owned());
    let gleam = check("gleam", &c.gleam, "install from https://gleam.run/getting-started/");
    push_text(&mut lines, gleam.0);
    let curl = check("curl", &c.curl, "needed to fetch OTP runtimes and Zig");
    push_text(&mut lines, curl.0);
    let tar = check("tar", &c.tar, "needed to pack/unpack payloads");
    push_text(&mut lines, tar.0);
    match &c.erl {
        Ok(v) => {
            let mut line = "  \x1b[32m✓\x1b[0m erl: ".to_owned();
            line.append(trim(v.as_str()));
            push_text(&mut lines, line);
        },
        Err(_) => {
            push_text(
                &mut lines,
                "  \x1b[33m•\x1b[0m erl: none (host-OTP builds unavailable; use --otp <v>)".to_owned(),
            );
        },
    }
    let mut zig = "  \x1b[36m•\x1b[0m zig: ".to_owned();
    zig.append(describe(&c.zig).as_str());
    push_text(&mut lines, zig);
    match c.host {
        Some(t) => {
            let mut line = "  host:  ".to_owned();
            line.append(t.name);
            push_text(&mut lines, line);
        },
        None => {
            push_text(&mut lines, "  host:  UNSUPPORTED (see `panini targets`)".to_owned());
        },
    }
    if gleam.1 && curl.1 && tar.1 && c.host.is_some() {
        push_text(&mut lines, "\n\x1b[32m✓ ready to build\x1b[0m".to_owned());
        assert(views(lines@) == c.lines());
        (lines, Ok(()))
    } else {
        assert(views(lines@) == c.lines());
        (lines, Err("some required tools are missing (see above)".to_owned()))
    }
}

/// The line that lists a target.
pub open spec fn target_line(t: Target, host: Option<Target>) -> Seq<char> {
    "  "@ + padded(t.name@, 16) + " zig: "@ + t.zig@ + (if t.is_this_host(host) {
        "  (host)"@
    } else {
        Seq::empty()
    })
}

/// What lists the targets.
pub open spec fn target_listing(host: Option<Target>) -> Seq<Seq<char>> {
    seq!["supported targets:"@] + every_target().map_values(|t: Target| target_line(t, host))
        + seq![
        "\nUse with: panini build --target <name>[,<name>...]  (or --target all)"@,
        "Cross targets require --otp <version>."@,
    ]
}

/// List the supported build targets: the lines to print.
pub fn cmd_targets(host: Option<Target>) -> (lines: Vec<String>)
    ensures
        views(lines@) == target_listing(host),
{
    let known = all();
    let mut lines: Vec<String> = Vec::new();
    push_text(&mut lines, "supported targets:".to_owned());
    let ghost f = |t: Target| target_line(t, host);
    let mut i: usize = 0;
    assert(views(lines@) == seq!["supported targets:"@] + known@.take(0).map_values(f));
    while i < known.len()
        invariant
            i <= known@.len(),
            f == (|t: Target| target_line(t, host)),
            views(lines@) == seq!["supported targets:"@] + known@.take(i as int).map_values(f),
        decreases known@.len() - i,
    {
        let t = known[i];
        let mut line = "  ".to_owned();
        line.append(pad(t.name, 16).as_str());
        line.append(" zig: ");
        line.append(t.zig);
        if t.is_host(host) {
            line.append("  (host)");
        }
        assert(line@ == target_line(t, host));
        assert(known@.take(i + 1).map_values(f) == known@.take(i as int).map_values(f).push(
            target_line(t, host),
        ));
        push_text(&mut lines, line);
        i = i + 1;
    }
    assert(known@.take(known@.len() as int) == known@);
    push_text(
        &mut lines,
        "\nUse with: panini build --target <name>[,<name>...]  (or --target all)".to_owned(),
    );
    push_text(&mut lines, "Cross targets require --otp <version>.".to_owned());
    assert(views(lines@) == target_listing(host));
    lines
}

} // verus!
