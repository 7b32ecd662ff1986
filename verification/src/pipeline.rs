//! The build pipeline: Gleam shipment -> minimal runtime -> payload -> launcher.

use vstd::prelude::*;

use crate::laws::script::script_boots_the_app;
use crate::laws::text::has_text;
use crate::otp::{musl_file, musl_view, Musl, MuslView};
use crate::path::{base_name, display_run, join, joined, last_name, runnable};
use crate::plan::{
    carried_out, must, next_task, runs, saying, Action, ActionView, Plan, Task, TaskView,
};
use crate::process::{
    copy_tree, copying, make_dirs, making_dirs, option_view, running, said, sh, sh_env, str_views,
    tree_copy, InvocationView,
};
use crate::target::Target;
use crate::text::{
    chars, decimal, decimal_text, find_char, fits_hex, hex, hex_tells_numbers_apart,
    hex_text, lemma_find_char, lemma_hex_len, position_of_char, same, slice, split, split_on, strip,
    stripped, told, trim, trimmed, view_of, views,
};

verus! {

/// The hash of some bytes: each byte is added to 33 times the hash of those
/// before it, modulo 2^32, from 5381 on.
pub open spec fn djb2_of(bytes: Seq<u8>) -> nat
    decreases bytes.len(),
{
    if bytes.len() == 0 {
        5381
    } else {
        (33 * djb2_of(bytes.drop_last()) + bytes.last() as nat) % 0x1_0000_0000
    }
}

/// Small stable hash for cache-busting the extraction dir.
pub fn djb2(bytes: &[u8]) -> (h: u32)
    ensures
        h as nat == djb2_of(bytes@),
{
    let mut h: u32 = 5381;
    let mut i: usize = 0;
    while i < bytes.len()
        invariant
            i <= bytes@.len(),
            h as nat == djb2_of(bytes@.take(i as int)),
        decreases bytes@.len() - i,
    {
        assert(bytes@.take(i + 1).drop_last() == bytes@.take(i as int));
        h = h.wrapping_mul(33).wrapping_add(bytes[i] as u32);
        i = i + 1;
    }
    assert(bytes@.take(bytes@.len() as int) == bytes@);
    h
}

/// One more byte keeps different hashes different: 33 has an inverse modulo 2^32.
proof fn lemma_hashes_stay_apart(a: nat, b: nat, x: nat)
    requires
        a < 0x1_0000_0000,
        b < 0x1_0000_0000,
        (33 * a + x) % 0x1_0000_0000 == (33 * b + x) % 0x1_0000_0000,
    ensures
        a == b,
{
    let q = (33 * a + x) / 0x1_0000_0000 - (33 * b + x) / 0x1_0000_0000;
    assert(33 * (a - b) == 0x1_0000_0000 * q);
    assert(33 * 1041204193 == 8 * 0x1_0000_0000 + 1);
    assert(a - b == 0x1_0000_0000 * (1041204193 * q - 8 * (a - b)));
}

/// Payloads that differ in one byte have different hashes, so a change of one
/// byte never goes unnoticed.
pub proof fn one_changed_byte_is_noticed(a: Seq<u8>, b: Seq<u8>, i: int)
    requires
        a.len() == b.len(),
        0 <= i < a.len(),
        a[i] != b[i],
        forall|k: int| 0 <= k < a.len() && k != i ==> a[k] == b[k],
    ensures
        djb2_of(a) != djb2_of(b),
    decreases a.len(),
{
    let (p, q) = (a.drop_last(), b.drop_last());
    if i == a.len() - 1 {
        assert(p == q);
        let h = 33 * djb2_of(p);
        assert((h + a.last() as nat) % 0x1_0000_0000 != (h + b.last() as nat) % 0x1_0000_0000);
    } else {
        assert(a.last() == b.last());
        assert forall|k: int| 0 <= k < p.len() && k != i implies p[k] == q[k] by {
            assert(a[k] == b[k]);
        }
        one_changed_byte_is_noticed(p, q, i);
        lemma_hash_fits(p);
        lemma_hash_fits(q);
        if djb2_of(a) == djb2_of(b) {
            lemma_hashes_stay_apart(djb2_of(p), djb2_of(q), a.last() as nat);
        }
    }
}

proof fn lemma_hash_fits(bytes: Seq<u8>)
    ensures
        djb2_of(bytes) < 0x1_0000_0000,
{
}

/// The tag of some content: its hash, in eight digits.
pub open spec fn content_tag_of(bytes: Seq<u8>) -> Seq<char> {
    hex(djb2_of(bytes), 8)
}

/// The tag of some content: its hash, in eight digits.
pub fn content_tag(bytes: &[u8]) -> (tag: String)
    ensures
        tag@ == content_tag_of(bytes@),
{
    hex_text(djb2(bytes), 8)
}

/// Content that differs in one byte has another tag.
pub proof fn one_changed_byte_changes_the_content_tag(a: Seq<u8>, b: Seq<u8>, i: int)
    requires
        a.len() == b.len(),
        0 <= i < a.len(),
        a[i] != b[i],
        forall|k: int| 0 <= k < a.len() && k != i ==> a[k] == b[k],
    ensures
        content_tag_of(a) != content_tag_of(b),
{
    one_changed_byte_is_noticed(a, b, i);
    lemma_hash_fits(a);
    lemma_hash_fits(b);
    reveal_with_fuel(fits_hex, 9);
    if content_tag_of(a) == content_tag_of(b) {
        hex_tells_numbers_apart(djb2_of(a), djb2_of(b), 8);
    }
}

/// The per-app cache tag: name and content hash.
pub open spec fn tag_of(app: Seq<char>, payload: Seq<u8>) -> Seq<char> {
    app + "-"@ + content_tag_of(payload)
}

/// The per-app cache tag (name + content hash) for cache-busting.
pub fn cache_tag(app: &str, payload: &[u8]) -> (tag: String)
    ensures
        tag@ == tag_of(app@, payload@),
{
    let mut tag = app.to_owned();
    tag.append("-");
    tag.append(content_tag(payload).as_str());
    tag
}

/// Two payloads have the same cache tag only where they are of the same app and
/// have the same hash.
pub proof fn tags_tell_apps_and_hashes_apart(
    app: Seq<char>,
    payload: Seq<u8>,
    other_app: Seq<char>,
    other_payload: Seq<u8>,
)
    requires
        tag_of(app, payload) == tag_of(other_app, other_payload),
    ensures
        app == other_app,
        djb2_of(payload) == djb2_of(other_payload),
{
    let (n, m) = (djb2_of(payload), djb2_of(other_payload));
    let (a, b) = (tag_of(app, payload), tag_of(other_app, other_payload));
    lemma_hash_fits(payload);
    lemma_hash_fits(other_payload);
    lemma_hex_len(n, 8);
    lemma_hex_len(m, 8);
    assert(a.skip(a.len() - 8) == hex(n, 8));
    assert(b.skip(b.len() - 8) == hex(m, 8));
    assert(a.take(a.len() - 8 - "-"@.len()) == app);
    assert(b.take(b.len() - 8 - "-"@.len()) == other_app);
    reveal_with_fuel(fits_hex, 9);
    hex_tells_numbers_apart(n, m, 8);
}

/// A payload that differs in one byte gets another cache tag, so that what was
/// extracted before is not taken for it.
pub proof fn one_changed_byte_changes_the_tag(app: Seq<char>, a: Seq<u8>, b: Seq<u8>, i: int)
    requires
        a.len() == b.len(),
        0 <= i < a.len(),
        a[i] != b[i],
        forall|k: int| 0 <= k < a.len() && k != i ==> a[k] == b[k],
    ensures
        tag_of(app, a) != tag_of(app, b),
{
    one_changed_byte_is_noticed(a, b, i);
    if tag_of(app, a) == tag_of(app, b) {
        tags_tell_apps_and_hashes_apart(app, a, app, b);
    }
}

/// Being nothing but white space or a comment.
pub open spec fn is_remark(s: Seq<char>) -> bool {
    trimmed(s).len() == 0 || trimmed(s)[0] == '#'
}

/// The text that a value in a gleam.toml stands for: what is between its quotes
/// where at most a comment follows them, else the value without the quotes it
/// begins and ends with; without white space around it.
pub open spec fn value_of(text: Seq<char>) -> Seq<char> {
    let v = trimmed(text);
    match find_char(v, '"', 1) {
        Some(close) if v[0] == '"' && is_remark(v.skip(close + 1)) => trimmed(
            v.subrange(1, close),
        ),
        _ => trimmed(stripped(v, Some('"'))),
    }
}

/// The name a line of a gleam.toml gives: the value behind the first `=` of a
/// line whose key is `name`, where that is not empty.
pub open spec fn name_in(line: Seq<char>) -> Option<Seq<char>> {
    match find_char(line, '=', 0) {
        Some(eq) => {
            let val = value_of(line.skip(eq + 1));
            if trimmed(line.take(eq)) == "name"@ && val.len() > 0 {
                Some(val)
            } else {
                None
            }
        },
        None => None,
    }
}

/// The name the first line that gives one gives.
pub open spec fn first_name(lines: Seq<Seq<char>>) -> Option<Seq<char>>
    decreases lines.len(),
{
    if lines.len() == 0 {
        None
    } else {
        match name_in(lines[0]) {
            Some(n) => Some(n),
            None => first_name(lines.drop_first()),
        }
    }
}

fn value(text: &str) -> (r: String)
    ensures
        r@ == value_of(text@),
{
    let t = trim(text);
    let v = chars(t);
    let n: usize = v.len();
    proof {
        lemma_find_char(t@, '"', 1);
    }
    if n > 0 && v[0] == '"' {
        if let Some(close) = position_of_char(&v, '"', 1) {
            let behind = slice(t, close + 1, n);
            assert(behind@ == t@.skip(close + 1));
            let rest = chars(trim(behind.as_str()));
            if rest.len() == 0 || rest[0] == '#' {
                let inner = slice(t, 1, close);
                return trim(inner.as_str()).to_owned();
            }
        }
    }
    trim(strip(t, Some('"'))).to_owned()
}

fn line_name(line: &str) -> (name: Option<String>)
    ensures
        view_of(name) == name_in(line@),
{
    let v = chars(line);
    let n: usize = v.len();
    if let Some(eq) = position_of_char(&v, '=', 0) {
        proof {
            lemma_find_char(line@, '=', 0);
        }
        let key = slice(line, 0, eq);
        let after = slice(line, eq + 1, n);
        assert(key@ == line@.take(eq as int));
        assert(after@ == line@.skip(eq + 1));
        let val = value(after.as_str());
        if same(trim(key.as_str()), "name") && !val.as_str().is_empty() {
            return Some(val);
        }
    }
    None
}

/// The name of the application, or what is wrong with the project.
pub open spec fn app_name(project: Seq<char>, toml: Result<Seq<char>, Seq<char>>) -> Result<
    Seq<char>,
    Seq<char>,
> {
    match toml {
        Err(_) => Err("no gleam.toml in "@ + project + " — is this a Gleam project?"@),
        Ok(text) => match first_name(split(text, '\n')) {
            Some(n) => Ok(n),
            None => Err("could not find `name` in gleam.toml"@),
        },
    }
}

/// Read `name = "..."` from the text of the project's gleam.toml.
pub fn read_app_name(project: &str, toml: &Result<String, String>) -> (name: Result<String, String>)
    ensures
        said(name) == app_name(project@, said(*toml)),
{
    match toml {
        Err(_) => {
            let mut e = "no gleam.toml in ".to_owned();
            e.append(project);
            e.append(" — is this a Gleam project?");
            Err(e)
        },
        Ok(text) => {
            let lines = split_on(text.as_str(), '\n');
            let ghost all = views(lines@);
            let mut i: usize = 0;
            assert(all.skip(0) == all);
            while i < lines.len()
                invariant
                    i <= lines@.len(),
                    all == views(lines@),
                    all == split(text@, '\n'),
                    said(*toml) == Ok::<Seq<char>, Seq<char>>(text@),
                    first_name(all) == first_name(all.skip(i as int)),
                decreases lines@.len() - i,
            {
                assert(all[i as int] == lines@[i as int]@);
                assert(all.skip(i as int).drop_first() == all.skip(i + 1));
                if let Some(n) = line_name(lines[i].as_str()) {
                    return Ok(n);
                }
                i = i + 1;
            }
            Err("could not find `name` in gleam.toml".to_owned())
        },
    }
}

/// The lines of a boot script that put the musl libc of a hash, which is beside
/// the script, where the runtime looks for it; none where it needs none.
pub open spec fn libc_lines(hash: Option<Seq<char>>) -> Seq<char> {
    match hash {
        None => Seq::empty(),
        Some(h) => "LIBC=\"/tmp/"@ + musl_file(h)
            + "\"\nif [ ! -e \"$LIBC\" ]; then\n  cp \"$HERE/"@ + musl_file(h)
            + "\" \"$LIBC.$$\"\n  chmod 755 \"$LIBC.$$\"\n  mv \"$LIBC.$$\" \"$LIBC\"\nfi\n"@,
    }
}

/// The lines of a boot script that unpack the runtime and the app, which are
/// packed beside the script, each into a directory of the cache that bears the
/// tag of its pack, unless it is there, and link it beside the script. So
/// binaries with the same runtime share one copy of it.
pub open spec fn share_lines() -> Seq<char> {
    "share() {\n  DIR=\"${HOME:-/tmp}/.cache/panini/$1/$(cat \"$HERE/$1.tag\")\"\n  if [ ! -d \"$DIR\" ]; then\n    mkdir -p \"$DIR.$$\"\n    tar -xf \"$HERE/$1.tar\" -C \"$DIR.$$\"\n    mv \"$DIR.$$\" \"$DIR\" || rm -rf \"$DIR.$$\"\n  fi\n  ln -sfn \"$DIR/$2\" \"$HERE/$2\"\n}\nshare rt otp\nshare apps app\n"@
}

/// The boot script of an application, for the emulator in the directory `erts`
/// and the boot files of the release `release` of the runtime beside it.
pub open spec fn boot_script(
    app: Seq<char>,
    erts: Seq<char>,
    release: Seq<char>,
    hash: Option<Seq<char>>,
) -> Seq<char> {
    "#!/bin/sh\nset -eu\nHERE=$(CDPATH= cd \"$(dirname \"$0\")\" && pwd)\n"@ + share_lines()
        + libc_lines(hash) + "export ROOTDIR=\"$HERE/otp\"\nexport ERL_ROOTDIR=\"$ROOTDIR\"\nexport BINDIR=\"$ROOTDIR/"@
        + erts
        + "/bin\"\nexport EMU=beam\nexport PROGNAME=erl\nexec \"$BINDIR/erlexec\" \\\n  -boot \"$ROOTDIR/releases/"@
        + release + "/start\" \\\n  -pa \"$HERE\"/app/*/ebin \\\n  -noshell \\\n  -eval '"@ + app
        + "@@main:run("@ + app + ")' \\\n  -extra \"$@\"\n"@
}

/// A self-locating boot script: sets ROOTDIR, ERL_ROOTDIR and BINDIR to the
/// extracted runtime and boots the Gleam app's generated `@@main` entrypoint via
/// `erlexec`, with an explicit `-boot`, so that the runtime needs no installing.
/// On the first run the runtime is extracted once into a shared directory named
/// by its content, the app's own files into another. Where the runtime is linked against a musl libc, that of `musl` is put in its
/// place first.
pub fn run_sh(app: &str, erts: &str, release: &str, musl: &Option<Musl>) -> (script: String)
    ensures
        script@ == boot_script(app@, erts@, release@, hash_of(musl_view(*musl))),
        has_text(script@, "-eval '"@ + app@ + "@@main:run("@ + app@ + ")'"@),
        has_text(script@, "export BINDIR=\"$ROOTDIR/"@ + erts@ + "/bin\"\n"@),
        has_text(script@, "-boot \"$ROOTDIR/releases/"@ + release@ + "/start\""@),
{
    proof {
        script_boots_the_app(app@, erts@, release@, hash_of(musl_view(*musl)));
    }
    let mut script =
        "#!/bin/sh\nset -eu\nHERE=$(CDPATH= cd \"$(dirname \"$0\")\" && pwd)\n".to_owned();
    script.append(
        "share() {\n  DIR=\"${HOME:-/tmp}/.cache/panini/$1/$(cat \"$HERE/$1.tag\")\"\n  if [ ! -d \"$DIR\" ]; then\n    mkdir -p \"$DIR.$$\"\n    tar -xf \"$HERE/$1.tar\" -C \"$DIR.$$\"\n    mv \"$DIR.$$\" \"$DIR\" || rm -rf \"$DIR.$$\"\n  fi\n  ln -sfn \"$DIR/$2\" \"$HERE/$2\"\n}\nshare rt otp\nshare apps app\n",
    );
    assert(script@ + Seq::<char>::empty() == script@);
    if let Some(m) = musl {
        script.append("LIBC=\"");
        script.append(m.tmp_path().as_str());
        script.append("\"\nif [ ! -e \"$LIBC\" ]; then\n  cp \"$HERE/");
        script.append(m.file_name().as_str());
        script.append(
            "\" \"$LIBC.$$\"\n  chmod 755 \"$LIBC.$$\"\n  mv \"$LIBC.$$\" \"$LIBC\"\nfi\n",
        );
        proof {
            reveal_strlit("LIBC=\"/tmp/");
            reveal_strlit("LIBC=\"");
            reveal_strlit("/tmp/");
            assert("LIBC=\"/tmp/"@ == "LIBC=\""@ + "/tmp/"@);
        }
    }
    assert(script@ == "#!/bin/sh\nset -eu\nHERE=$(CDPATH= cd \"$(dirname \"$0\")\" && pwd)\n"@
        + share_lines() + libc_lines(hash_of(musl_view(*musl))));
    script.append(
        "export ROOTDIR=\"$HERE/otp\"\nexport ERL_ROOTDIR=\"$ROOTDIR\"\nexport BINDIR=\"$ROOTDIR/",
    );
    script.append(erts);
    script.append(
        "/bin\"\nexport EMU=beam\nexport PROGNAME=erl\nexec \"$BINDIR/erlexec\" \\\n  -boot \"$ROOTDIR/releases/",
    );
    script.append(release);
    script.append("/start\" \\\n  -pa \"$HERE\"/app/*/ebin \\\n  -noshell \\\n  -eval '");
    script.append(app);
    script.append("@@main:run(");
    script.append(app);
    script.append(")' \\\n  -extra \"$@\"\n");
    script
}

/// The hash of a musl libc, where there is one.
pub open spec fn hash_of(musl: Option<MuslView>) -> Option<Seq<char>> {
    match musl {
        Some(m) => Some(m.hash),
        None => None,
    }
}

/// The tasks that put the boot script in a payload, with the libc that the
/// runtime needs beside it.
pub open spec fn boot_script_tasks(
    payload: Seq<char>,
    app: Seq<char>,
    erts: Seq<char>,
    release: Seq<char>,
    musl: Option<MuslView>,
) -> Seq<TaskView> {
    let path = joined(payload, "run.sh"@);
    (match musl {
        Some(m) => seq![
            must(
                ActionView::CopyFile { from: m.so, to: joined(payload, musl_file(m.hash)) },
                "stage musl: "@,
            ),
        ],
        None => Seq::empty(),
    }) + seq![
        must(
            ActionView::WriteText { path, text: boot_script(app, erts, release, hash_of(musl)) },
            "write run.sh: "@,
        ),
        must(ActionView::MakeExecutable(path), "chmod run.sh: "@),
    ]
}

/// Put the boot script in a payload, with the libc that the runtime needs
/// beside it.
pub fn write_run_sh(payload: &str, app: &str, erts: &str, release: &str, musl: &Option<Musl>) -> (plan:
    Plan)
    ensures
        plan@ == boot_script_tasks(payload@, app@, erts@, release@, musl_view(*musl)),
{
    let path = join(payload, "run.sh");
    let mut plan = Plan::new();
    if let Some(m) = musl {
        plan.add_must(
            Action::CopyFile {
                from: m.so.clone(),
                to: join(payload, m.file_name().as_str()),
            },
            "stage musl: ".to_owned(),
        );
    }
    plan.add_must(
        Action::WriteText { path: path.clone(), text: run_sh(app, erts, release, musl) },
        "write run.sh: ".to_owned(),
    );
    plan.add_must(Action::MakeExecutable(path), "chmod run.sh: ".to_owned());
    assert(plan@ == boot_script_tasks(payload@, app@, erts@, release@, musl_view(*musl)));
    plan
}

/// The heading of a step of a build.
pub open spec fn heading(n: nat, msg: Seq<char>) -> Seq<char> {
    "\x1b[36m["@ + decimal(n) + "/4]\x1b[0m "@ + msg
}

/// The heading of step `n` of a build.
pub fn step(n: u8, msg: &str) -> (line: String)
    ensures
        line@ == heading(n as nat, msg@),
{
    let mut line = "\x1b[36m[".to_owned();
    line.append(decimal_text(n as u64).as_str());
    line.append("/4]\x1b[0m ");
    line.append(msg);
    line
}

/// How the payload is compressed.
#[derive(Clone, Copy, Debug, PartialEq, Eq, Structural)]
pub enum Compression {
    /// The default: decompresses with tooling present everywhere.
    Gz,
    Xz,
    Zst,
}

/// The compressor a name stands for.
pub open spec fn compressor(kind: Seq<char>) -> Result<Compression, Seq<char>> {
    if kind == "gz"@ {
        Ok(Compression::Gz)
    } else if kind == "xz"@ {
        Ok(Compression::Xz)
    } else if kind == "zst"@ {
        Ok(Compression::Zst)
    } else {
        Err("unknown compression '"@ + kind + "' (use gz, xz, or zst)"@)
    }
}

impl Compression {
    /// The compressor named: `gz`, `xz`, or `zst`.
    pub fn parse(kind: &str) -> (r: Result<Compression, String>)
        ensures
            told(r) == compressor(kind@),
    {
        if same(kind, "gz") {
            Ok(Compression::Gz)
        } else if same(kind, "xz") {
            Ok(Compression::Xz)
        } else if same(kind, "zst") {
            Ok(Compression::Zst)
        } else {
            let mut e = "unknown compression '".to_owned();
            e.append(kind);
            e.append("' (use gz, xz, or zst)");
            Err(e)
        }
    }

    /// The file name of a payload packed so.
    pub open spec fn file_name(self) -> Seq<char> {
        match self {
            Compression::Gz => "payload.tar.gz"@,
            Compression::Xz => "payload.tar.xz"@,
            Compression::Zst => "payload.tar.zst"@,
        }
    }

    /// What tells `tar` to create an archive packed so.
    pub open spec fn flags(self) -> Seq<Seq<char>> {
        match self {
            Compression::Gz => seq!["-czf"@],
            Compression::Xz => seq!["-cJf"@],
            Compression::Zst => seq!["--zstd"@, "-cf"@],
        }
    }
}

/// A binary to build.
pub struct Job {
    pub target: Target,
    /// Where the binary goes.
    pub output: String,
    /// The OTP version to bundle; the host's own where none is given.
    pub otp: Option<String>,
    /// Whether the app is compiled with the OTP that is bundled, downloaded for
    /// this machine, and not with the host's own.
    pub own_toolchain: bool,
    /// Whether the compiled code of the job before this one is bundled again.
    pub reuses_shipment: bool,
}

pub struct JobView {
    pub target: Target,
    pub output: Seq<char>,
    pub otp: Option<Seq<char>>,
    pub own_toolchain: bool,
    pub reuses_shipment: bool,
}

impl View for Job {
    type V = JobView;

    open spec fn view(&self) -> JobView {
        JobView {
            target: self.target,
            output: self.output@,
            otp: view_of(self.otp),
            own_toolchain: self.own_toolchain,
            reuses_shipment: self.reuses_shipment,
        }
    }
}

/// The machine a build runs on, and what was asked of it.
pub struct RequestView {
    /// The target this machine is.
    pub host: Option<Target>,
    /// The release of the host's own OTP, or why there is none to be had.
    pub release: Result<Seq<char>, Seq<char>>,
    /// The OTP version to bundle.
    pub otp: Option<Seq<char>>,
    /// Where the binary goes; of several, what their names begin with.
    pub base: Seq<char>,
    /// Whether there is more than one target.
    pub several: bool,
}

/// The major number of a version.
pub open spec fn major(version: Seq<char>) -> Seq<char> {
    match find_char(version, '.', 0) {
        Some(dot) => version.take(dot),
        None => version,
    }
}

/// Running the OS of this machine.
pub open spec fn is_native(target: Target, host: Option<Target>) -> bool {
    host is Some && host->0.os@ == target.os@
}

/// Where the binary for a target goes.
pub open spec fn output_for(target: Target, r: RequestView) -> Seq<char> {
    if r.several {
        r.base + "-"@ + target.name@
    } else {
        r.base
    }
}

/// What building for one target takes, or why it cannot be done.
///
/// Without a version the host's own OTP is compiled with and bundled, which
/// fits this machine alone. With one, a target of this machine's OS is compiled
/// with the version itself; any other is compiled with the host's own OTP, whose
/// major must then be that of the version.
pub open spec fn job_for(target: Target, r: RequestView) -> Result<JobView, Seq<char>> {
    let job = JobView {
        target,
        output: output_for(target, r),
        otp: r.otp,
        own_toolchain: r.otp is Some && is_native(target, r.host),
        reuses_shipment: false,
    };
    match r.otp {
        None => if target.is_this_host(r.host) {
            Ok(job)
        } else {
            Err("target '"@ + target.name@ + "' is not this host: cross targets require --otp <version>"@)
        },
        Some(version) => if target.host_only {
            Err(
                "no precompiled OTP for target '"@ + target.name@
                    + "': build it on that OS, without --otp"@,
            )
        } else if is_native(target, r.host) {
            Ok(job)
        } else {
            match r.release {
                Err(e) => Err(e),
                Ok(release) => if major(version) == major(release) {
                    Ok(job)
                } else {
                    Err(
                        "OTP "@ + version + " for '"@ + target.name@
                            + "' needs a host OTP of the same major, but the host has "@ + release,
                    )
                },
            }
        },
    }
}

/// A job behind others: the compiled code is portable, so it is bundled again
/// where it was compiled as this job wants it.
pub open spec fn after_jobs(before: Seq<JobView>, job: JobView) -> JobView {
    JobView {
        reuses_shipment: before.len() > 0 && before.last().own_toolchain == job.own_toolchain,
        ..job
    }
}

/// What building for the first `n` targets takes, or why the first that cannot
/// be built for cannot.
pub open spec fn jobs_for(targets: Seq<Target>, r: RequestView, n: int) -> Result<
    Seq<JobView>,
    Seq<char>,
>
    decreases n,
{
    if n <= 0 {
        Ok(Seq::empty())
    } else {
        match jobs_for(targets, r, n - 1) {
            Err(e) => Err(e),
            Ok(before) => match job_for(targets[n - 1], r) {
                Err(e) => Err(e),
                Ok(job) => Ok(before.push(after_jobs(before, job))),
            },
        }
    }
}

/// A job or an error, as mathematics.
pub open spec fn job_view(r: Result<Job, String>) -> Result<JobView, Seq<char>> {
    match r {
        Ok(job) => Ok(job@),
        Err(e) => Err(e@),
    }
}

fn major_of(version: &str) -> (r: String)
    ensures
        r@ == major(version@),
{
    let v = chars(version);
    match position_of_char(&v, '.', 0) {
        Some(dot) => {
            proof {
                lemma_find_char(version@, '.', 0);
            }
            slice(version, 0, dot)
        },
        None => version.to_owned(),
    }
}

fn plan_job(
    target: Target,
    host: Option<Target>,
    release: &Result<String, String>,
    otp: Option<&str>,
    base: &str,
    several: bool,
) -> (job: Result<Job, String>)
    ensures
        job_view(job) == job_for(
            target,
            RequestView {
                host,
                release: said(*release),
                otp: option_view(otp),
                base: base@,
                several,
            },
        ),
{
    let native = match host {
        Some(h) => same(h.os, target.os),
        None => false,
    };
    let mut output = base.to_owned();
    if several {
        output.append("-");
        output.append(target.name);
    }
    match otp {
        None => if target.is_host(host) {
            Ok(Job { target, output, otp: None, own_toolchain: false, reuses_shipment: false })
        } else {
            let mut e = "target '".to_owned();
            e.append(target.name);
            e.append("' is not this host: cross targets require --otp <version>");
            Err(e)
        },
        Some(version) => {
            let job = Job {
                target,
                output,
                otp: Some(version.to_owned()),
                own_toolchain: native,
                reuses_shipment: false,
            };
            if target.host_only {
                let mut e = "no precompiled OTP for target '".to_owned();
                e.append(target.name);
                e.append("': build it on that OS, without --otp");
                Err(e)
            } else if native {
                Ok(job)
            } else {
                match release {
                    Err(e) => Err(e.clone()),
                    Ok(own) => if same(
                        major_of(version).as_str(),
                        major_of(own.as_str()).as_str(),
                    ) {
                        Ok(job)
                    } else {
                        let mut e = "OTP ".to_owned();
                        e.append(version);
                        e.append(" for '");
                        e.append(target.name);
                        e.append("' needs a host OTP of the same major, but the host has ");
                        e.append(own.as_str());
                        Err(e)
                    },
                }
            }
        },
    }
}

/// Where the binary goes; of several, what their names begin with.
pub open spec fn output_base(
    project: Seq<char>,
    app: Seq<char>,
    out: Option<Seq<char>>,
) -> Seq<char> {
    match out {
        Some(o) => o,
        None => joined(project, app),
    }
}

/// The name of the app and the binaries to build, or an error, as mathematics.
pub open spec fn build_view(r: Result<(String, Vec<Job>), String>) -> Result<
    (Seq<char>, Seq<JobView>),
    Seq<char>,
> {
    match r {
        Ok((app, jobs)) => Ok((app@, jobs@.map_values(|j: Job| j@))),
        Err(e) => Err(e@),
    }
}

/// The name of the app and the binaries to build, or why it cannot be done.
pub open spec fn build_jobs(
    project: Seq<char>,
    toml: Result<Seq<char>, Seq<char>>,
    out: Option<Seq<char>>,
    otp: Option<Seq<char>>,
    targets: Seq<Target>,
    host: Option<Target>,
    release: Result<Seq<char>, Seq<char>>,
) -> Result<(Seq<char>, Seq<JobView>), Seq<char>> {
    match app_name(project, toml) {
        Err(e) => Err(e),
        Ok(app) => {
            let r = RequestView {
                host,
                release,
                otp,
                base: output_base(project, app, out),
                several: targets.len() > 1,
            };
            match jobs_for(targets, r, targets.len() as int) {
                Err(e) => Err(e),
                Ok(jobs) => Ok((app, jobs)),
            }
        },
    }
}

/// Decide what building a project takes: the name of its app, from the text of
/// its gleam.toml, and a binary for each target. A target that cannot be built
/// for fails the whole build.
pub fn build(
    project: &str,
    toml: &Result<String, String>,
    out: Option<&str>,
    otp_version: Option<&str>,
    targets: &Vec<Target>,
    host: Option<Target>,
    release: &Result<String, String>,
) -> (r: Result<(String, Vec<Job>), String>)
    ensures
        build_view(r) == build_jobs(
            project@,
            said(*toml),
            option_view(out),
            option_view(otp_version),
            targets@,
            host,
            said(*release),
        ),
{
    let app = match read_app_name(project, toml) {
        Ok(app) => app,
        Err(e) => return Err(e),
    };
    let base = match out {
        Some(o) => o.to_owned(),
        None => join(project, app.as_str()),
    };
    let several = targets.len() > 1;
    let ghost r = RequestView {
        host,
        release: said(*release),
        otp: option_view(otp_version),
        base: base@,
        several,
    };
    let mut jobs: Vec<Job> = Vec::new();
    let mut i: usize = 0;
    assert(jobs@.map_values(|j: Job| j@) == Seq::<JobView>::empty());
    while i < targets.len()
        invariant
            i <= targets@.len(),
            app_name(project@, said(*toml)) == Ok::<Seq<char>, Seq<char>>(app@),
            base@ == output_base(project@, app@, option_view(out)),
            several == (targets@.len() > 1),
            r == (RequestView {
                host,
                release: said(*release),
                otp: option_view(otp_version),
                base: base@,
                several,
            }),
            jobs_for(targets@, r, i as int) == Ok::<Seq<JobView>, Seq<char>>(
                jobs@.map_values(|j: Job| j@),
            ),
        decreases targets@.len() - i,
    {
        let ghost before = jobs@;
        match plan_job(targets[i], host, release, otp_version, base.as_str(), several) {
            Ok(mut job) => {
                let ghost alone = job@;
                let ghost views = before.map_values(|j: Job| j@);
                let n: usize = jobs.len();
                if n > 0 {
                    assert(views.last() == before[n - 1]@);
                    job.reuses_shipment = jobs[n - 1].own_toolchain == job.own_toolchain;
                }
                assert(job@ == after_jobs(views, alone));
                jobs.push(job);
                assert(jobs@.map_values(|j: Job| j@) == views.push(job@));
            },
            Err(e) => {
                proof {
                    lemma_error_stays(targets@, r, i + 1, targets@.len() as int);
                }
                return Err(e);
            },
        }
        i = i + 1;
    }
    Ok((app, jobs))
}

/// Whether the release of the host's own OTP matters to a build: a version is
/// asked for, and for another OS than that of this machine.
pub open spec fn release_matters(
    otp: Option<Seq<char>>,
    targets: Seq<Target>,
    host: Option<Target>,
) -> bool {
    otp is Some && exists|i: int| 0 <= i < targets.len() && !is_native(#[trigger] targets[i], host)
}

/// Whether the release of the host's own OTP has to be asked for, to decide on
/// a build.
pub fn needs_release(otp_version: Option<&str>, targets: &Vec<Target>, host: Option<Target>) -> (r:
    bool)
    ensures
        r == release_matters(option_view(otp_version), targets@, host),
{
    if otp_version.is_none() {
        return false;
    }
    let mut i: usize = 0;
    while i < targets.len()
        invariant
            i <= targets@.len(),
            option_view(otp_version) is Some,
            forall|k: int| 0 <= k < i ==> is_native(#[trigger] targets@[k], host),
        decreases targets@.len() - i,
    {
        let native = match host {
            Some(h) => same(h.os, targets[i].os),
            None => false,
        };
        if !native {
            assert(!is_native(targets@[i as int], host));
            return true;
        }
        i = i + 1;
    }
    false
}

proof fn lemma_release_does_not_matter(
    targets: Seq<Target>,
    r: RequestView,
    other: Result<Seq<char>, Seq<char>>,
    n: int,
)
    requires
        !release_matters(r.otp, targets, r.host),
        0 <= n <= targets.len(),
    ensures
        jobs_for(targets, r, n) == jobs_for(targets, RequestView { release: other, ..r }, n),
    decreases n,
{
    if n > 0 {
        lemma_release_does_not_matter(targets, r, other, n - 1);
        assert(r.otp is Some ==> is_native(targets[n - 1], r.host));
        assert(job_for(targets[n - 1], r) == job_for(
            targets[n - 1],
            RequestView { release: other, ..r },
        ));
    }
}

/// Where the release of the host's own OTP is not asked for, nothing that a
/// build decides depends on it: no Erlang is needed on this machine.
pub proof fn release_is_asked_for_only_where_it_matters(
    project: Seq<char>,
    toml: Result<Seq<char>, Seq<char>>,
    out: Option<Seq<char>>,
    otp: Option<Seq<char>>,
    targets: Seq<Target>,
    host: Option<Target>,
    a: Result<Seq<char>, Seq<char>>,
    b: Result<Seq<char>, Seq<char>>,
)
    requires
        !release_matters(otp, targets, host),
    ensures
        build_jobs(project, toml, out, otp, targets, host, a) == build_jobs(
            project,
            toml,
            out,
            otp,
            targets,
            host,
            b,
        ),
{
    if app_name(project, toml) is Ok {
        let r = RequestView {
            host,
            release: a,
            otp,
            base: output_base(project, app_name(project, toml)->Ok_0, out),
            several: targets.len() > 1,
        };
        lemma_release_does_not_matter(targets, r, b, targets.len() as int);
    }
}

/// A target that cannot be built for fails the build, whatever comes after it.
proof fn lemma_error_stays(targets: Seq<Target>, r: RequestView, m: int, n: int)
    requires
        m <= n,
        jobs_for(targets, r, m) is Err,
    ensures
        jobs_for(targets, r, n) == jobs_for(targets, r, m),
    decreases n - m,
{
    if m < n {
        lemma_error_stays(targets, r, m, n - 1);
    }
}

proof fn lemma_jobs_are_those_of_the_targets(targets: Seq<Target>, r: RequestView, n: int, i: int)
    requires
        0 <= i < n,
        jobs_for(targets, r, n) is Ok,
    ensures
        jobs_for(targets, r, n)->Ok_0.len() == n,
        job_for(targets[i], r) == Ok::<JobView, Seq<char>>(
            JobView { reuses_shipment: false, ..jobs_for(targets, r, n)->Ok_0[i] },
        ),
    decreases n,
{
    if i < n - 1 {
        lemma_jobs_are_those_of_the_targets(targets, r, n - 1, i);
    } else if n > 1 {
        lemma_jobs_are_those_of_the_targets(targets, r, n - 1, 0);
    }
}

/// A build that can be done makes one binary for each target, in their order,
/// and two of them never in the same place.
pub proof fn each_target_gets_its_own_binary(
    project: Seq<char>,
    toml: Result<Seq<char>, Seq<char>>,
    out: Option<Seq<char>>,
    otp: Option<Seq<char>>,
    targets: Seq<Target>,
    host: Option<Target>,
    release: Result<Seq<char>, Seq<char>>,
    i: int,
    j: int,
)
    requires
        build_jobs(project, toml, out, otp, targets, host, release) is Ok,
        0 <= i < targets.len(),
        0 <= j < targets.len(),
        targets[i].name@ != targets[j].name@,
    ensures
        ({
            let jobs = build_jobs(project, toml, out, otp, targets, host, release)->Ok_0.1;
            &&& jobs.len() == targets.len()
            &&& jobs[i].target == targets[i]
            &&& jobs[i].output != jobs[j].output
        }),
{
    let app = app_name(project, toml)->Ok_0;
    let r = RequestView {
        host,
        release,
        otp,
        base: output_base(project, app, out),
        several: targets.len() > 1,
    };
    lemma_jobs_are_those_of_the_targets(targets, r, targets.len() as int, i);
    lemma_jobs_are_those_of_the_targets(targets, r, targets.len() as int, j);
    let base = r.base + "-"@;
    let (a, b) = (targets[i].name@, targets[j].name@);
    assert((base + a).skip(base.len() as int) == a);
    assert((base + b).skip(base.len() as int) == b);
}

/// The job whose compiled code the job at `i` bundles: its own, or that of the
/// last one before it that compiled.
pub open spec fn compiling_job(jobs: Seq<JobView>, i: int) -> int
    decreases i,
{
    if i <= 0 || !jobs[i].reuses_shipment {
        i
    } else {
        compiling_job(jobs, i - 1)
    }
}

proof fn lemma_shipments(targets: Seq<Target>, r: RequestView, n: int, i: int)
    requires
        0 <= i < n,
        jobs_for(targets, r, n) is Ok,
    ensures
        ({
            let jobs = jobs_for(targets, r, n)->Ok_0;
            &&& jobs.len() == n
            &&& jobs[i].reuses_shipment == (i > 0 && jobs[i - 1].own_toolchain
                == jobs[i].own_toolchain)
            &&& jobs[i].otp == r.otp
        }),
    decreases n,
{
    let before = jobs_for(targets, r, n - 1)->Ok_0;
    if i < n - 1 {
        lemma_shipments(targets, r, n - 1, i);
    } else if n > 1 {
        lemma_shipments(targets, r, n - 1, 0);
    }
}

proof fn lemma_compiling_job(jobs: Seq<JobView>, i: int)
    requires
        0 <= i < jobs.len(),
        forall|k: int|
            0 <= k < jobs.len() ==> (#[trigger] jobs[k]).reuses_shipment == (k > 0 && jobs[k
                - 1].own_toolchain == jobs[k].own_toolchain),
    ensures
        0 <= compiling_job(jobs, i) <= i,
        !jobs[compiling_job(jobs, i)].reuses_shipment,
        jobs[compiling_job(jobs, i)].own_toolchain == jobs[i].own_toolchain,
    decreases i,
{
    if i > 0 && jobs[i].reuses_shipment {
        lemma_compiling_job(jobs, i - 1);
    }
}

/// Compiled code is bundled again from target to target: a build compiles anew
/// only for its first target and where a target wants another toolchain than the
/// one before it. What is bundled was always compiled as its target wants it.
pub proof fn shipment_is_reused_across_targets(
    project: Seq<char>,
    toml: Result<Seq<char>, Seq<char>>,
    out: Option<Seq<char>>,
    otp: Option<Seq<char>>,
    targets: Seq<Target>,
    host: Option<Target>,
    release: Result<Seq<char>, Seq<char>>,
    i: int,
)
    requires
        build_jobs(project, toml, out, otp, targets, host, release) is Ok,
        0 <= i < targets.len(),
    ensures
        ({
            let jobs = build_jobs(project, toml, out, otp, targets, host, release)->Ok_0.1;
            let c = compiling_job(jobs, i);
            &&& jobs.len() == targets.len()
            &&& jobs[i].reuses_shipment <==> i > 0 && jobs[i - 1].own_toolchain
                == jobs[i].own_toolchain
            &&& 0 <= c <= i && !jobs[c].reuses_shipment
            &&& jobs[c].own_toolchain == jobs[i].own_toolchain && jobs[c].otp == jobs[i].otp
        }),
{
    let app = app_name(project, toml)->Ok_0;
    let r = RequestView {
        host,
        release,
        otp,
        base: output_base(project, app, out),
        several: targets.len() > 1,
    };
    let n = targets.len() as int;
    let jobs = jobs_for(targets, r, n)->Ok_0;
    assert forall|k: int| 0 <= k < n implies (#[trigger] jobs[k]).reuses_shipment == (k > 0 && jobs[k
        - 1].own_toolchain == jobs[k].own_toolchain) && jobs[k].otp == otp by {
        lemma_shipments(targets, r, n, k);
    }
    lemma_shipments(targets, r, n, i);
    lemma_compiling_job(jobs, i);
}

/// The version an app is compiled with.
pub open spec fn compiled_with(job: JobView, release: Seq<char>) -> Seq<char> {
    if job.own_toolchain {
        job.otp->0
    } else {
        release
    }
}

/// The version an app is bundled with.
pub open spec fn bundled_with(job: JobView, release: Seq<char>) -> Seq<char> {
    match job.otp {
        Some(version) => version,
        None => release,
    }
}

/// The BEAM compatibility rule: what is bundled is never of another major than
/// what the app was compiled with. Where the host has no OTP of its own, it is
/// bundled and compiled with only where no version was asked for.
pub proof fn bytecode_matches_the_runtime(
    project: Seq<char>,
    toml: Result<Seq<char>, Seq<char>>,
    out: Option<Seq<char>>,
    otp: Option<Seq<char>>,
    targets: Seq<Target>,
    host: Option<Target>,
    release: Result<Seq<char>, Seq<char>>,
    i: int,
)
    requires
        build_jobs(project, toml, out, otp, targets, host, release) is Ok,
        0 <= i < targets.len(),
    ensures
        ({
            let job = build_jobs(project, toml, out, otp, targets, host, release)->Ok_0.1[i];
            match release {
                Ok(own) => major(compiled_with(job, own)) == major(bundled_with(job, own)),
                Err(_) => otp is Some ==> job.own_toolchain,
            }
        }),
{
    let app = app_name(project, toml)->Ok_0;
    let r = RequestView {
        host,
        release,
        otp,
        base: output_base(project, app, out),
        several: targets.len() > 1,
    };
    lemma_jobs_are_those_of_the_targets(targets, r, targets.len() as int, i);
}

/// With a version, a target of this machine's OS can be built for whatever the
/// version, and whether or not there is an Erlang on this machine.
pub proof fn native_builds_take_any_version(target: Target, r: RequestView)
    requires
        r.otp is Some,
        !target.host_only,
        is_native(target, r.host),
    ensures
        job_for(target, r) is Ok,
        job_for(target, r)->Ok_0.otp == r.otp,
        job_for(target, r)->Ok_0.own_toolchain,
{
}

/// A target without precompiled runtimes is built on its own machine alone, and
/// then with the OTP that is there.
pub proof fn host_only_targets_stay_home(target: Target, r: RequestView)
    requires
        target.host_only,
        job_for(target, r) is Ok,
    ensures
        target.is_this_host(r.host),
        job_for(target, r)->Ok_0.otp is None,
{
}

/// A target that is not this machine is never built for without a version.
pub proof fn cross_targets_require_a_version(target: Target, r: RequestView)
    requires
        !target.is_this_host(r.host),
        job_for(target, r) is Ok,
    ensures
        job_for(target, r)->Ok_0.otp is Some,
{
}

/// The compiled code of a project.
pub open spec fn shipment_dir(project: Seq<char>) -> Seq<char> {
    joined(project, "build/erlang-shipment"@)
}

/// The staging area of a project.
pub open spec fn staging_dir(project: Seq<char>) -> Seq<char> {
    joined(project, "build/panini"@)
}

/// The payload of a project, before it is packed.
pub open spec fn payload_dir(project: Seq<char>) -> Seq<char> {
    joined(staging_dir(project), "payload"@)
}

/// The packed payload of a project.
pub open spec fn packed_payload(project: Seq<char>, compression: Compression) -> Seq<char> {
    joined(staging_dir(project), compression.file_name())
}

/// What a pressing begins with.
pub open spec fn banner_of(app: Seq<char>) -> Seq<char> {
    "\x1b[1m🥪 panini\x1b[0m  pressing '"@ + app + "' into a single binary\n"@
}

/// The tasks that make a fresh staging area, where there is compiled code.
pub open spec fn staging_tasks(project: Seq<char>) -> Seq<TaskView> {
    seq![
        TaskView::Require {
            path: shipment_dir(project),
            directory: true,
            message: "expected shipment at "@ + shipment_dir(project),
        },
        TaskView::Try { action: ActionView::RemoveTree(staging_dir(project)) },
        making_dirs(payload_dir(project)),
        saying(heading(2, "assembling minimal OTP runtime"@)),
    ]
}

/// The tasks up to the assembling of the runtime: compile the project, with the
/// programs of `toolchain` before those of `PATH`, and make a fresh staging area.
pub open spec fn compile_tasks(
    project: Seq<char>,
    app: Seq<char>,
    toolchain: Option<Seq<char>>,
) -> Seq<TaskView> {
    let export = InvocationView {
        extra_path: toolchain,
        ..running("gleam"@, seq!["export"@, "erlang-shipment"@], Some(project))
    };
    seq![
        saying(banner_of(app)),
        saying(heading(1, "gleam export erlang-shipment"@)),
        must(ActionView::Run(export), Seq::empty()),
    ] + staging_tasks(project)
}

/// The tasks up to the assembling of the runtime where the compiled code is
/// there already.
pub open spec fn reuse_tasks(project: Seq<char>, app: Seq<char>) -> Seq<TaskView> {
    seq![saying(banner_of(app)), saying(heading(1, "reusing erlang-shipment"@))] + staging_tasks(
        project,
    )
}

/// The directory that holds the compiled code of a project.
pub fn shipment(project: &str) -> (path: String)
    ensures
        path@ == shipment_dir(project@),
{
    join(project, "build/erlang-shipment")
}

/// The staging area of a project, under its build directory.
pub fn staging(project: &str) -> (path: String)
    ensures
        path@ == staging_dir(project@),
{
    join(project, "build/panini")
}

fn banner(app: &str) -> (line: String)
    ensures
        line@ == banner_of(app@),
{
    let mut line = "\x1b[1m🥪 panini\x1b[0m  pressing '".to_owned();
    line.append(app);
    line.append("' into a single binary\n");
    line
}

fn stage(project: &str) -> (plan: Plan)
    ensures
        plan@ == staging_tasks(project@),
{
    let shipment = shipment(project);
    let staging = staging(project);
    let mut message = "expected shipment at ".to_owned();
    message.append(shipment.as_str());
    let payload = join(staging.as_str(), "payload");
    let mut plan = Plan::new();
    plan.add_task(Task::Require { path: shipment, directory: true, message });
    plan.add_try(Action::RemoveTree(staging));
    plan.add_task(make_dirs(payload.as_str()));
    plan.add_try(Action::Say(step(2, "assembling minimal OTP runtime")));
    assert(plan@ == staging_tasks(project@));
    plan
}

/// Compile the project, with the programs of `toolchain` before those of
/// `PATH`, and make a fresh staging area.
pub fn compile(project: &str, app: &str, toolchain: Option<&str>) -> (plan: Plan)
    ensures
        plan@ == compile_tasks(project@, app@, option_view(toolchain)),
{
    let args: Vec<&str> = vec!["export", "erlang-shipment"];
    assert(str_views(args@) == seq!["export"@, "erlang-shipment"@]);
    let mut plan = Plan::new();
    plan.add_try(Action::Say(banner(app)));
    plan.add_try(Action::Say(step(1, "gleam export erlang-shipment")));
    plan.add_must(Action::Run(sh_env("gleam", args, Some(project), toolchain)), String::new());
    plan.add_all(stage(project));
    assert(plan@ == compile_tasks(project@, app@, option_view(toolchain)));
    plan
}

/// Make a fresh staging area for code that is compiled already.
pub fn reuse(project: &str, app: &str) -> (plan: Plan)
    ensures
        plan@ == reuse_tasks(project@, app@),
{
    let mut plan = Plan::new();
    plan.add_try(Action::Say(banner(app)));
    plan.add_try(Action::Say(step(1, "reusing erlang-shipment")));
    plan.add_all(stage(project));
    assert(plan@ == reuse_tasks(project@, app@));
    plan
}

/// The OTP to bundle.
pub struct Runtime {
    pub root: String,
    /// The name of the directory of its emulator.
    pub erts: String,
    /// The name of the release whose boot files it is booted with.
    pub release: String,
    /// The musl libc it is linked against, where it is.
    pub musl: Option<Musl>,
}

pub struct RuntimeView {
    pub root: Seq<char>,
    pub erts: Seq<char>,
    pub release: Seq<char>,
    pub musl: Option<MuslView>,
}

impl View for Runtime {
    type V = RuntimeView;

    open spec fn view(&self) -> RuntimeView {
        RuntimeView {
            root: self.root@,
            erts: self.erts@,
            release: self.release@,
            musl: musl_view(self.musl),
        }
    }
}

/// The tasks that copy the first `n` of some library apps to a runtime.
pub open spec fn lib_copies(otp: Seq<char>, lib_apps: Seq<Seq<char>>, n: int) -> Seq<TaskView>
    decreases n,
{
    if n <= 0 {
        Seq::empty()
    } else {
        lib_copies(otp, lib_apps, n - 1) + tree_copy(
            lib_apps[n - 1],
            joined(joined(otp, "lib"@), last_name(lib_apps[n - 1])),
        )
    }
}

/// The file in a payload that the runtime is packed into.
pub open spec fn runtime_pack(project: Seq<char>) -> Seq<char> {
    joined(payload_dir(project), "rt.tar"@)
}

/// The file in a payload that the app is packed into.
pub open spec fn app_pack(project: Seq<char>) -> Seq<char> {
    joined(payload_dir(project), "apps.tar"@)
}

/// The task that packs one directory of a payload, and nothing else.
pub open spec fn packing(pack: Seq<char>, payload: Seq<char>, dir: Seq<char>) -> TaskView {
    must(
        ActionView::Run(running("tar"@, seq!["-cf"@, pack, "-C"@, payload, dir], None)),
        Seq::empty(),
    )
}

/// The task that gives all files of a directory the same time, so that the same
/// files make the same pack whenever they were copied.
pub open spec fn settling(dir: Seq<char>) -> TaskView {
    TaskView::Try {
        action: ActionView::Run(
            running(
                "find"@,
                seq![dir, "-exec"@, "touch"@, "-h"@, "-t"@, "200001010000"@, "{}"@, "+"@],
                None,
            ),
        ),
    }
}

/// The tasks that assemble what goes into the payload: of the OTP to bundle the
/// emulator, the boot files and the library apps named, then the compiled code
/// and the boot script. The OTP and the compiled code are packed apart.
pub open spec fn assemble_tasks(
    project: Seq<char>,
    app: Seq<char>,
    runtime: RuntimeView,
    lib_apps: Seq<Seq<char>>,
) -> Seq<TaskView> {
    let payload = payload_dir(project);
    let otp = joined(payload, "otp"@);
    let (root, erts) = (runtime.root, runtime.erts);
    tree_copy(joined(root, erts), joined(otp, erts)) + tree_copy(
        joined(root, "bin"@),
        joined(otp, "bin"@),
    ) + tree_copy(joined(root, "releases"@), joined(otp, "releases"@)) + lib_copies(
        otp,
        lib_apps,
        lib_apps.len() as int,
    ) + seq![
        saying("     bundled "@ + erts + " + "@ + decimal(lib_apps.len()) + " OTP lib apps"@),
    ] + tree_copy(shipment_dir(project), joined(payload, "app"@)) + boot_script_tasks(
        payload,
        app,
        erts,
        runtime.release,
        runtime.musl,
    ) + seq![
        saying(heading(3, "compressing payload"@)),
        settling(otp),
        packing(runtime_pack(project), payload, "otp"@),
        packing(app_pack(project), payload, "app"@),
    ]
}

/// The tasks that finish the payload and pack it: the tags of the two packs stand
/// beside them, in place of what is packed.
pub open spec fn pack_tasks(
    project: Seq<char>,
    runtime_tag: Seq<char>,
    app_tag: Seq<char>,
    compression: Compression,
) -> Seq<TaskView> {
    let payload = payload_dir(project);
    seq![
        must(
            ActionView::WriteText { path: joined(payload, "rt.tag"@), text: runtime_tag },
            "write rt.tag: "@,
        ),
        must(
            ActionView::WriteText { path: joined(payload, "apps.tag"@), text: app_tag },
            "write apps.tag: "@,
        ),
        must(ActionView::RemoveTree(joined(payload, "otp"@)), "clean payload: "@),
        must(ActionView::RemoveTree(joined(payload, "app"@)), "clean payload: "@),
        must(
            ActionView::Run(
                running(
                    "tar"@,
                    compression.flags() + seq![
                        packed_payload(project, compression),
                        "-C"@,
                        staging_dir(project),
                        "payload"@,
                    ],
                    None,
                ),
            ),
            Seq::empty(),
        ),
    ]
}

fn copy_libs(otp: &str, lib_apps: &Vec<String>) -> (plan: Plan)
    ensures
        plan@ == lib_copies(otp@, views(lib_apps@), lib_apps@.len() as int),
{
    let mut plan = Plan::new();
    let lib = join(otp, "lib");
    let mut i: usize = 0;
    while i < lib_apps.len()
        invariant
            i <= lib_apps@.len(),
            lib@ == joined(otp@, "lib"@),
            plan@ == lib_copies(otp@, views(lib_apps@), i as int),
        decreases lib_apps@.len() - i,
    {
        let dir = lib_apps[i].as_str();
        assert(views(lib_apps@)[i as int] == lib_apps@[i as int]@);
        plan.add_all(copy_tree(dir, join(lib.as_str(), base_name(dir).as_str()).as_str()));
        i = i + 1;
    }
    plan
}

/// The file that the payload of a project is packed into.
pub fn tarball(project: &str, compression: Compression) -> (path: String)
    ensures
        path@ == packed_payload(project@, compression),
{
    let name = match compression {
        Compression::Gz => "payload.tar.gz",
        Compression::Xz => "payload.tar.xz",
        Compression::Zst => "payload.tar.zst",
    };
    join(staging(project).as_str(), name)
}

fn pack_dir(pack: &str, payload: &str, dir: &str) -> (action: Action)
    ensures
        must(action@, Seq::empty()) == packing(pack@, payload@, dir@),
{
    let args: Vec<&str> = vec!["-cf", pack, "-C", payload, dir];
    assert(str_views(args@) == seq!["-cf"@, pack@, "-C"@, payload@, dir@]);
    Action::Run(sh("tar", args, None))
}

/// Where the runtime of a payload is packed.
pub fn runtime_tar(project: &str) -> (path: String)
    ensures
        path@ == runtime_pack(project@),
{
    join(join(staging(project).as_str(), "payload").as_str(), "rt.tar")
}

/// Where the app of a payload is packed.
pub fn app_tar(project: &str) -> (path: String)
    ensures
        path@ == app_pack(project@),
{
    join(join(staging(project).as_str(), "payload").as_str(), "apps.tar")
}

/// Assemble what goes into the payload: of the OTP to bundle the emulator, the
/// boot files and the given library apps, then the compiled code and the boot
/// script. The OTP and the compiled code are packed apart.
pub fn assemble(
    project: &str,
    app: &str,
    runtime: &Runtime,
    lib_apps: &Vec<String>,
) -> (plan: Plan)
    ensures
        plan@ == assemble_tasks(project@, app@, runtime@, views(lib_apps@)),
{
    let root = runtime.root.as_str();
    let erts = runtime.erts.as_str();
    let staging = staging(project);
    let payload = join(staging.as_str(), "payload");
    let otp = join(payload.as_str(), "otp");
    let mut plan = Plan::new();
    plan.add_all(copy_tree(join(root, erts).as_str(), join(otp.as_str(), erts).as_str()));
    plan.add_all(copy_tree(join(root, "bin").as_str(), join(otp.as_str(), "bin").as_str()));
    plan.add_all(
        copy_tree(join(root, "releases").as_str(), join(otp.as_str(), "releases").as_str()),
    );
    plan.add_all(copy_libs(otp.as_str(), lib_apps));
    let mut note = "     bundled ".to_owned();
    note.append(erts);
    note.append(" + ");
    note.append(decimal_text(lib_apps.len() as u64).as_str());
    note.append(" OTP lib apps");
    plan.add_try(Action::Say(note));
    plan.add_all(
        copy_tree(shipment(project).as_str(), join(payload.as_str(), "app").as_str()),
    );
    plan.add_all(
        write_run_sh(payload.as_str(), app, erts, runtime.release.as_str(), &runtime.musl),
    );
    plan.add_try(Action::Say(step(3, "compressing payload")));
    let args: Vec<&str> = vec![
        otp.as_str(),
        "-exec",
        "touch",
        "-h",
        "-t",
        "200001010000",
        "{}",
        "+",
    ];
    assert(str_views(args@) == seq![
        otp@,
        "-exec"@,
        "touch"@,
        "-h"@,
        "-t"@,
        "200001010000"@,
        "{}"@,
        "+"@,
    ]);
    plan.add_try(Action::Run(sh("find", args, None)));
    plan.add_must(
        pack_dir(runtime_tar(project).as_str(), payload.as_str(), "otp"),
        String::new(),
    );
    plan.add_must(pack_dir(app_tar(project).as_str(), payload.as_str(), "app"), String::new());
    assert(plan@ == assemble_tasks(project@, app@, runtime@, views(lib_apps@)));
    plan
}

/// Finish the payload and pack it: the tags of the two packs stand beside them,
/// in place of what is packed.
pub fn pack_payload(
    project: &str,
    runtime_tag: &str,
    app_tag: &str,
    compression: Compression,
) -> (plan: Plan)
    ensures
        plan@ == pack_tasks(project@, runtime_tag@, app_tag@, compression),
{
    let staging = staging(project);
    let payload = join(staging.as_str(), "payload");
    let mut plan = Plan::new();
    plan.add_must(
        Action::WriteText {
            path: join(payload.as_str(), "rt.tag"),
            text: runtime_tag.to_owned(),
        },
        "write rt.tag: ".to_owned(),
    );
    plan.add_must(
        Action::WriteText { path: join(payload.as_str(), "apps.tag"), text: app_tag.to_owned() },
        "write apps.tag: ".to_owned(),
    );
    plan.add_must(
        Action::RemoveTree(join(payload.as_str(), "otp")),
        "clean payload: ".to_owned(),
    );
    plan.add_must(
        Action::RemoveTree(join(payload.as_str(), "app")),
        "clean payload: ".to_owned(),
    );
    let tgz = tarball(project, compression);
    let mut args: Vec<&str> = Vec::new();
    match compression {
        Compression::Gz => args.push("-czf"),
        Compression::Xz => args.push("-cJf"),
        Compression::Zst => {
            args.push("--zstd");
            args.push("-cf");
        },
    }
    assert(str_views(args@) == compression.flags());
    args.push(tgz.as_str());
    args.push("-C");
    args.push(staging.as_str());
    args.push("payload");
    assert(str_views(args@) == compression.flags() + seq![
        packed_payload(project@, compression),
        "-C"@,
        staging_dir(project@),
        "payload"@,
    ]);
    plan.add_must(Action::Run(sh("tar", args, None)), String::new());
    assert(plan@ == pack_tasks(project@, runtime_tag@, app_tag@, compression));
    plan
}

/// The tasks that say how large the packed payload is, in MB, and what is next.
pub open spec fn weigh_tasks(len: nat) -> Seq<TaskView> {
    seq![
        saying("     payload: "@ + decimal(len / 1_048_576) + " MB"@),
        saying(heading(4, "building self-extracting launcher (zig)"@)),
    ]
}

/// Say how large the packed payload is, in MB, and what is next.
pub fn weigh(len: u64) -> (plan: Plan)
    ensures
        plan@ == weigh_tasks(len as nat),
{
    let mut note = "     payload: ".to_owned();
    note.append(decimal_text(len / 1_048_576).as_str());
    note.append(" MB");
    let mut plan = Plan::new();
    plan.add_try(Action::Say(note));
    plan.add_try(Action::Say(step(4, "building self-extracting launcher (zig)")));
    assert(plan@ == weigh_tasks(len as nat));
    plan
}

/// What a launcher is built from.
pub struct LauncherView {
    /// Where the launcher's own sources are.
    pub template: Seq<char>,
    pub staging: Seq<char>,
    /// The packed payload, by its path and by what it holds.
    pub tarball: Seq<char>,
    pub payload: Seq<u8>,
    pub app: Seq<char>,
    /// The Zig to build with, and the triple to build for.
    pub zig: Seq<char>,
    pub triple: Seq<char>,
    pub out: Seq<char>,
}

/// The tasks that build a launcher. Of the template only the sources are
/// copied, never its `.zig-cache` or `zig-out`, which would let Zig take a stale
/// placeholder build for up to date.
pub open spec fn launcher_tasks(l: LauncherView) -> Seq<TaskView> {
    let build_dir = joined(l.staging, "launcher"@);
    let src = joined(build_dir, "src"@);
    let produced = joined(build_dir, "zig-out/bin/panini-app"@);
    seq![
        TaskView::Require {
            path: joined(l.template, "build.zig"@),
            directory: false,
            message: "launcher template not found at "@ + l.template
                + " (run panini from its repo for v0)"@,
        },
        TaskView::Try { action: ActionView::RemoveTree(build_dir) },
        making_dirs(src),
        must(
            ActionView::CopyFile {
                from: joined(l.template, "build.zig"@),
                to: joined(build_dir, "build.zig"@),
            },
            "copy build.zig: "@,
        ),
        must(
            ActionView::CopyFile {
                from: joined(l.template, "src/main.zig"@),
                to: joined(src, "main.zig"@),
            },
            "copy main.zig: "@,
        ),
        must(
            ActionView::CopyFile { from: l.tarball, to: joined(src, "payload.tar.gz"@) },
            "stage payload: "@,
        ),
        must(
            ActionView::WriteText {
                path: joined(src, "gen.zig"@),
                text: "pub const app_tag = \""@ + tag_of(l.app, l.payload) + "\";\n"@,
            },
            "write gen.zig: "@,
        ),
        must(
            ActionView::Run(
                running(
                    l.zig,
                    seq!["build"@, "-Dtarget="@ + l.triple, "-Doptimize=ReleaseFast"@],
                    Some(build_dir),
                ),
            ),
            Seq::empty(),
        ),
        must(
            ActionView::CopyFile { from: produced, to: l.out },
            "copy "@ + produced + " -> "@ + l.out + ": "@,
        ),
        TaskView::Try { action: ActionView::MakeExecutable(l.out) },
    ]
}

/// Stage the Zig launcher template, embed the payload, and compile it for the
/// target.
pub fn build_launcher(
    staging: &str,
    tarball: &str,
    app: &str,
    payload_bytes: &[u8],
    out: &str,
    template: &str,
    zig: &str,
    target: &Target,
) -> (plan: Plan)
    ensures
        plan@ == launcher_tasks(
            LauncherView {
                template: template@,
                staging: staging@,
                tarball: tarball@,
                payload: payload_bytes@,
                app: app@,
                zig: zig@,
                triple: target.zig@,
                out: out@,
            },
        ),
{
    let ghost l = LauncherView {
        template: template@,
        staging: staging@,
        tarball: tarball@,
        payload: payload_bytes@,
        app: app@,
        zig: zig@,
        triple: target.zig@,
        out: out@,
    };
    let mut plan = Plan::new();
    let mut message = "launcher template not found at ".to_owned();
    message.append(template);
    message.append(" (run panini from its repo for v0)");
    plan.add_task(
        Task::Require { path: join(template, "build.zig"), directory: false, message },
    );
    let build_dir = join(staging, "launcher");
    let src = join(build_dir.as_str(), "src");
    plan.add_try(Action::RemoveTree(build_dir.clone()));
    plan.add_task(make_dirs(src.as_str()));
    plan.add_must(
        Action::CopyFile {
            from: join(template, "build.zig"),
            to: join(build_dir.as_str(), "build.zig"),
        },
        "copy build.zig: ".to_owned(),
    );
    plan.add_must(
        Action::CopyFile {
            from: join(template, "src/main.zig"),
            to: join(src.as_str(), "main.zig"),
        },
        "copy main.zig: ".to_owned(),
    );
    plan.add_must(
        Action::CopyFile { from: tarball.to_owned(), to: join(src.as_str(), "payload.tar.gz") },
        "stage payload: ".to_owned(),
    );
    let mut text = "pub const app_tag = \"".to_owned();
    text.append(cache_tag(app, payload_bytes).as_str());
    text.append("\";\n");
    plan.add_must(
        Action::WriteText { path: join(src.as_str(), "gen.zig"), text },
        "write gen.zig: ".to_owned(),
    );
    let mut target_arg = "-Dtarget=".to_owned();
    target_arg.append(target.zig);
    let args: Vec<&str> = vec!["build", target_arg.as_str(), "-Doptimize=ReleaseFast"];
    assert(str_views(args@) == seq!["build"@, "-Dtarget="@ + l.triple, "-Doptimize=ReleaseFast"@]);
    plan.add_must(Action::Run(sh(zig, args, Some(build_dir.as_str()))), String::new());
    let produced = join(build_dir.as_str(), "zig-out/bin/panini-app");
    let mut prefix = "copy ".to_owned();
    prefix.append(produced.as_str());
    prefix.append(" -> ");
    prefix.append(out);
    prefix.append(": ");
    plan.add_must(Action::CopyFile { from: produced, to: out.to_owned() }, prefix);
    plan.add_try(Action::MakeExecutable(out.to_owned()));
    assert(plan@ == launcher_tasks(l));
    plan
}

/// The tasks that say a binary is done.
pub open spec fn finish_tasks(out: Seq<char>) -> Seq<TaskView> {
    seq![
        saying("\n\x1b[32m✓ done\x1b[0m  →  "@ + out),
        saying("  run it with nothing installed:  "@ + runnable(out)),
    ]
}

/// Say that a binary is done, and how to run it.
pub fn finish(out: &str) -> (plan: Plan)
    ensures
        plan@ == finish_tasks(out@),
{
    let mut done = "\n\x1b[32m✓ done\x1b[0m  →  ".to_owned();
    done.append(out);
    let mut run = "  run it with nothing installed:  ".to_owned();
    run.append(display_run(out).as_str());
    let mut plan = Plan::new();
    plan.add_try(Action::Say(done));
    plan.add_try(Action::Say(run));
    assert(plan@ == finish_tasks(out@));
    plan
}

/// Putting a file somewhere.
pub open spec fn puts_at(task: TaskView, place: Seq<char>) -> bool {
    task matches TaskView::Must { action, .. } && action is CopyFile && action->CopyFile_to == place
}

/// A binary is put in its place only by the last but one task, and that one is
/// come to only where every task that has to work before it did: in particular
/// the build in a directory that holds nothing of an earlier build.
pub proof fn binary_is_put_in_place_when_built(
    l: LauncherView,
    replies: spec_fn(int) -> Result<bool, Seq<char>>,
)
    requires
        carried_out(launcher_tasks(l), 0, replies).contains(8),
    ensures
        puts_at(launcher_tasks(l)[8], l.out),
        runs(launcher_tasks(l)[7], l.zig),
        replies(0) == Ok::<bool, Seq<char>>(true),
        forall|i: int| 2 <= i < 8 ==> #[trigger] replies(i) is Ok,
        carried_out(launcher_tasks(l), 0, replies) == Seq::new(
            carried_out(launcher_tasks(l), 0, replies).len(),
            |i: int| i,
        ),
{
    reveal_with_fuel(carried_out, 11);
    let tasks = launcher_tasks(l);
    let done = carried_out(tasks, 0, replies);
    assert(next_task(tasks, 0, replies(0)) is Ok);
    assert(next_task(tasks, 2, replies(2)) is Ok);
    assert(next_task(tasks, 3, replies(3)) is Ok);
    assert(next_task(tasks, 4, replies(4)) is Ok);
    assert(next_task(tasks, 5, replies(5)) is Ok);
    assert(next_task(tasks, 6, replies(6)) is Ok);
    assert(next_task(tasks, 7, replies(7)) is Ok);
}

/// A launcher is built of the template's sources and the payload alone: nothing
/// else is copied from anywhere, the binary itself aside, and what an earlier
/// build left behind is removed before anything is copied.
pub proof fn stale_builds_are_not_reused(
    l: LauncherView,
    i: int,
    from: Seq<char>,
    to: Seq<char>,
    prefix: Seq<char>,
)
    requires
        0 <= i < launcher_tasks(l).len(),
        launcher_tasks(l)[i] == must(ActionView::CopyFile { from, to }, prefix),
    ensures
        from == joined(l.template, "build.zig"@) || from == joined(l.template, "src/main.zig"@)
            || from == l.tarball || to == l.out,
        launcher_tasks(l)[1] == (TaskView::Try {
            action: ActionView::RemoveTree(joined(l.staging, "launcher"@)),
        }),
        i > 1,
{
}

proof fn lemma_lib_is_copied(otp: Seq<char>, lib_apps: Seq<Seq<char>>, n: int, i: int)
    requires
        0 <= i < n <= lib_apps.len(),
    ensures
        lib_copies(otp, lib_apps, n).contains(
            copying(lib_apps[i], joined(joined(otp, "lib"@), last_name(lib_apps[i]))),
        ),
    decreases n,
{
    let t = copying(lib_apps[i], joined(joined(otp, "lib"@), last_name(lib_apps[i])));
    let before = lib_copies(otp, lib_apps, n - 1);
    let all = lib_copies(otp, lib_apps, n);
    if i < n - 1 {
        lemma_lib_is_copied(otp, lib_apps, n - 1, i);
        let k = choose|k: int| 0 <= k < before.len() && before[k] == t;
        assert(all[k] == t);
    } else {
        assert(all.last() == t);
    }
}

/// Every library app that is given is in the payload's runtime, under its own
/// name.
pub proof fn every_lib_app_is_bundled(
    project: Seq<char>,
    app: Seq<char>,
    runtime: RuntimeView,
    lib_apps: Seq<Seq<char>>,
    i: int,
)
    requires
        0 <= i < lib_apps.len(),
    ensures
        assemble_tasks(project, app, runtime, lib_apps).contains(
            copying(
                lib_apps[i],
                joined(
                    joined(joined(payload_dir(project), "otp"@), "lib"@),
                    last_name(lib_apps[i]),
                ),
            ),
        ),
{
    let otp = joined(payload_dir(project), "otp"@);
    let (root, erts) = (runtime.root, runtime.erts);
    let t = copying(lib_apps[i], joined(joined(otp, "lib"@), last_name(lib_apps[i])));
    let before = tree_copy(joined(root, erts), joined(otp, erts)) + tree_copy(
        joined(root, "bin"@),
        joined(otp, "bin"@),
    ) + tree_copy(joined(root, "releases"@), joined(otp, "releases"@));
    let libs = lib_copies(otp, lib_apps, lib_apps.len() as int);
    lemma_lib_is_copied(otp, lib_apps, lib_apps.len() as int, i);
    let k = choose|k: int| 0 <= k < libs.len() && libs[k] == t;
    let all = assemble_tasks(project, app, runtime, lib_apps);
    assert(all[before.len() + k] == t);
}

/// The boot script boots what is bundled with it: the emulator and the boot
/// files that it names are copied to where it looks for them, and with a musl
/// libc, so is that.
pub proof fn script_boots_what_is_bundled(
    project: Seq<char>,
    app: Seq<char>,
    runtime: RuntimeView,
    lib_apps: Seq<Seq<char>>,
)
    ensures
        ({
            let tasks = assemble_tasks(project, app, runtime, lib_apps);
            let payload = payload_dir(project);
            let otp = joined(payload, "otp"@);
            &&& tasks.contains(
                copying(joined(runtime.root, runtime.erts), joined(otp, runtime.erts)),
            )
            &&& tasks.contains(
                copying(joined(runtime.root, "releases"@), joined(otp, "releases"@)),
            )
            &&& tasks.contains(copying(shipment_dir(project), joined(payload, "app"@)))
            &&& tasks.contains(
                must(
                    ActionView::WriteText {
                        path: joined(payload, "run.sh"@),
                        text: boot_script(
                            app,
                            runtime.erts,
                            runtime.release,
                            hash_of(runtime.musl),
                        ),
                    },
                    "write run.sh: "@,
                ),
            )
            &&& runtime.musl matches Some(m) ==> tasks.contains(
                must(
                    ActionView::CopyFile { from: m.so, to: joined(payload, musl_file(m.hash)) },
                    "stage musl: "@,
                ),
            )
        }),
{
    let payload = payload_dir(project);
    let otp = joined(payload, "otp"@);
    let (root, erts) = (runtime.root, runtime.erts);
    let tasks = assemble_tasks(project, app, runtime, lib_apps);
    let emulator = tree_copy(joined(root, erts), joined(otp, erts));
    let programs = emulator + tree_copy(joined(root, "bin"@), joined(otp, "bin"@));
    let boot = programs + tree_copy(joined(root, "releases"@), joined(otp, "releases"@));
    let noted = boot + lib_copies(otp, lib_apps, lib_apps.len() as int) + seq![
        saying("     bundled "@ + erts + " + "@ + decimal(lib_apps.len()) + " OTP lib apps"@),
    ];
    let code = noted + tree_copy(shipment_dir(project), joined(payload, "app"@));
    let script = boot_script_tasks(payload, app, erts, runtime.release, runtime.musl);
    assert(tasks[emulator.len() - 1] == copying(joined(root, erts), joined(otp, erts)));
    assert(tasks[boot.len() - 1] == copying(joined(root, "releases"@), joined(otp, "releases"@)));
    assert(tasks[code.len() - 1] == copying(shipment_dir(project), joined(payload, "app"@)));
    assert(tasks[code.len() + script.len() - 2] == script[script.len() - 2]);
    assert(runtime.musl is Some ==> tasks[code.len() as int] == script[0]);
}

/// The runtime and the app are packed apart: what the one pack holds is the
/// directory that only OTP is copied to, what the other holds is the one that
/// the compiled code is copied to.
pub proof fn runtime_and_app_are_packed_apart(
    project: Seq<char>,
    app: Seq<char>,
    runtime: RuntimeView,
    lib_apps: Seq<Seq<char>>,
)
    ensures
        ({
            let tasks = assemble_tasks(project, app, runtime, lib_apps);
            let payload = payload_dir(project);
            &&& tasks[tasks.len() - 2] == packing(runtime_pack(project), payload, "otp"@)
            &&& tasks[tasks.len() - 1] == packing(app_pack(project), payload, "app"@)
            &&& runtime_pack(project) != app_pack(project)
        }),
{
    let payload = payload_dir(project);
    reveal_strlit("rt.tar");
    reveal_strlit("apps.tar");
    assert(runtime_pack(project).len() != app_pack(project).len());
}

/// The tasks that put the musl libc where OTP's Linux binaries look for it.
pub open spec fn musl_placement(so: Seq<char>, hash: Seq<char>) -> Seq<TaskView> {
    let place = "/tmp/"@ + musl_file(hash);
    seq![
        must(ActionView::CopyFile { from: so, to: place }, "install musl: "@),
        must(ActionView::MakeExecutable(place), "chmod musl: "@),
    ]
}

/// Put the musl libc where OTP's Linux binaries look for it, so that they run.
pub fn install_musl(musl: &Musl) -> (plan: Plan)
    ensures
        plan@ == musl_placement(musl.so@, musl.hash@),
{
    let place = musl.tmp_path();
    let mut plan = Plan::new();
    plan.add_must(
        Action::CopyFile { from: musl.so.clone(), to: place.clone() },
        "install musl: ".to_owned(),
    );
    plan.add_must(Action::MakeExecutable(place), "chmod musl: ".to_owned());
    assert(plan@ == musl_placement(musl.so@, musl.hash@));
    plan
}

} // verus!
