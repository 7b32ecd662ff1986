use panini::listing::Entry;
use panini::otp::{
    cache_dir, erts_dir_name, erts_version, fetch_musl, find_erts_dir, find_release_dir, locate_root, musl_hash,
    musl_manifest, musl_plan, needs_musl, otp_release, precompiled_root, print_info, root_dir, Musl, Nested, Release,
};
use panini::plan::{Action, Plan, Task};
use panini::target::parse;

fn entry(dir: &str, name: &str, is_dir: bool) -> Entry {
    Entry { path: format!("{dir}/{name}"), name: Some(name.to_string()), is_dir }
}

fn said(s: &str) -> Result<String, String> {
    Ok(s.to_string())
}

fn failed(s: &str) -> Result<String, String> {
    Err(s.to_string())
}

/// Carry out a plan: which programs are run and which paths exist is told by
/// `exists` and `works`; the actions done come back in words.
fn carry_out(plan: &Plan, exists: &[&str], works: bool) -> (Vec<String>, Result<(), String>) {
    let mut log = vec![];
    let mut at = 0;
    while at < plan.tasks.len() {
        let reply = match &plan.tasks[at] {
            Task::Must { action, .. } | Task::Try { action } => {
                log.push(match action {
                    Action::MakeDirs(p) => format!("mkdir {p}"),
                    Action::RemoveTree(p) => format!("rm {p}"),
                    Action::WriteText { path, .. } => format!("write {path}"),
                    Action::CopyFile { from, to } => format!("copy {from} {to}"),
                    Action::Rename { from, to } => format!("mv {from} {to}"),
                    Action::MakeExecutable(p) => format!("chmod {p}"),
                    Action::Run(run) => format!("{} {}", run.program, run.args.join(" ")),
                    Action::Say(text) => format!("say {text}"),
                });
                match action {
                    Action::Run(_) if !works => Err("it failed".to_string()),
                    _ => Ok(true),
                }
            }
            Task::SkipIfExists { path, .. } | Task::Require { path, .. } => {
                Ok(exists.contains(&path.as_str()))
            }
        };
        match plan.advance(at, reply) {
            Ok(next) => at = next,
            Err(e) => return (log, Err(e)),
        }
    }
    (log, Ok(()))
}

#[test]
fn erlang_is_asked_about_itself() {
    let expected = [
        (root_dir(), "io:format(\"~s\", [code:root_dir()]), halt()."),
        (erts_version(), "io:format(\"~s\", [erlang:system_info(version)]), halt()."),
        (otp_release(), "io:format(\"~s\", [erlang:system_info(otp_release)]), halt()."),
    ];
    for (query, code) in expected {
        assert_eq!(query.program, "erl");
        assert_eq!(
            query.args,
            vec!["-noshell".to_string(), "-eval".to_string(), code.to_string()]
        );
    }
}

#[test]
fn the_emulator_is_found_in_a_root() {
    let listing = Ok(vec![
        entry("/otp", "erts-old.txt", false),
        entry("/otp", "lib", true),
        entry("/otp", "erts-15.2", true),
    ]);
    assert_eq!(find_erts_dir("/otp", &listing), said("/otp/erts-15.2"));
    assert_eq!(erts_dir_name("15.2"), "erts-15.2");
    assert_eq!(find_erts_dir("/otp", &Ok(vec![])), failed("no erts-* dir in /otp"));
    assert_eq!(find_erts_dir("/otp", &Err("denied".to_string())), failed("read /otp: denied"));
}

fn release(path: &str, is_dir: bool, has_boot: bool) -> Release {
    Release { path: path.to_string(), is_dir, has_boot }
}

#[test]
fn a_release_needs_boot_files() {
    let releases = Ok(vec![
        release("/otp/releases/RELEASES", false, false),
        release("/otp/releases/26", true, false),
        release("/otp/releases/27", true, true),
    ]);
    assert_eq!(find_release_dir("/otp", &releases), said("/otp/releases/27"));
    assert_eq!(
        find_release_dir("/otp", &Ok(vec![])),
        failed("no releases/*/start.boot under /otp")
    );
    assert_eq!(
        find_release_dir("/otp", &Err("denied".to_string())),
        failed("read /otp/releases: denied")
    );
}

#[test]
fn an_archive_is_downloaded_and_unpacked() {
    let t = parse("x86_64-linux", None).unwrap();
    let (plan, dir) = precompiled_root("27.2", &t, "/c");
    assert_eq!(dir, "/c/otp/otp_27.2_linux_any_x86_64");
    let (log, end) = carry_out(&plan, &[], true);
    assert_eq!(end, Ok(()));
    assert_eq!(
        log,
        vec![
            "mkdir /c/otp".to_string(),
            "say      downloading OTP 27.2 for x86_64-linux (cached after first use)…".to_string(),
            format!(
                "curl -fsSL --retry 2 -o /c/otp/otp_27.2_linux_any_x86_64.tar.part {}",
                t.otp_url("27.2")
            ),
            "mv /c/otp/otp_27.2_linux_any_x86_64.tar.part /c/otp/otp_27.2_linux_any_x86_64.tar.gz"
                .to_string(),
            "mkdir /c/otp/otp_27.2_linux_any_x86_64".to_string(),
            "tar -xzf /c/otp/otp_27.2_linux_any_x86_64.tar.gz -C /c/otp/otp_27.2_linux_any_x86_64"
                .to_string(),
        ]
    );
}

#[test]
fn downloads_are_kept_under_home() {
    assert_eq!(cache_dir(Some("/home/ada")), "/home/ada/.cache/panini");
    assert_eq!(cache_dir(None), "/tmp/.cache/panini");
}

#[test]
fn an_archive_that_is_there_is_used() {
    let t = parse("aarch64-macos", None).unwrap();
    let (plan, _) = precompiled_root("27.2", &t, "/c");
    let tgz = "/c/otp/otp_27.2_macos_universal.tar.gz";
    let dir = "/c/otp/otp_27.2_macos_universal";
    let (log, end) = carry_out(&plan, &[tgz], true);
    assert_eq!(end, Ok(()));
    assert!(log.iter().all(|l| !l.starts_with("curl")));
    assert!(log.iter().any(|l| l.starts_with("tar -xzf")));
    let (log, end) = carry_out(&plan, &[tgz, dir], false);
    assert_eq!((log, end), (vec!["mkdir /c/otp".to_string()], Ok(())));
}

#[test]
fn an_archive_that_cannot_be_had_is_explained() {
    let t = parse("x86_64-linux", None).unwrap();
    let (plan, _) = precompiled_root("99.9", &t, "/c");
    let (log, end) = carry_out(&plan, &[], false);
    assert_eq!(
        end,
        Err("download failed: it failed\n  (is there a precompiled OTP 99.9 for x86_64-linux? see https://github.com/erlef/otp_builds)".to_string())
    );
    assert!(log.iter().all(|l| !l.starts_with("mv")));
}

fn nested(path: &str, name: &str, is_dir: bool, listing: Vec<Entry>) -> Nested {
    Nested { path: path.to_string(), name: Some(name.to_string()), is_dir, listing: Ok(listing) }
}

#[test]
fn a_root_is_found_at_the_top_or_one_below() {
    let top = Ok(vec![
        nested("/x/lib", "lib", true, vec![]),
        nested("/x/erts-15", "erts-15", true, vec![]),
    ]);
    assert_eq!(locate_root("/x", &top), said("/x"));
    let below = Ok(vec![
        nested("/x/README", "README", false, vec![entry("/x/README", "erts-1", true)]),
        nested("/x/otp_27", "otp_27", true, vec![entry("/x/otp_27", "erts-15", true)]),
    ]);
    assert_eq!(locate_root("/x", &below), said("/x/otp_27"));
    assert_eq!(
        locate_root("/x", &Ok(vec![])),
        failed("could not locate an OTP root inside /x")
    );
    assert_eq!(
        locate_root("/x", &Err("denied".to_string())),
        failed("read extract dir: denied")
    );
}

#[test]
fn musl_is_named_by_its_hash() {
    assert_eq!(musl_hash("OTP=27\nMUSL_HASH= ab12 \n"), Some("ab12".to_string()));
    assert_eq!(musl_hash("MUSL_HASH=\n"), Some("".to_string()));
    assert_eq!(musl_hash("XMUSL_HASH=1\n MUSL_HASH=2"), None);
    let musl = Musl { so: "/c/x.so".to_string(), hash: "ab12".to_string() };
    assert_eq!(musl.tmp_path(), "/tmp/libc-musl-ab12.so");
    assert_eq!(musl.file_name(), "libc-musl-ab12.so");
    assert_eq!(musl_manifest("/otp"), "/otp/burrito_runtime_manifest.txt");
}

#[test]
fn only_linux_builds_need_musl() {
    for (name, needs) in [("x86_64-linux", true), ("aarch64-linux", true), ("x86_64-macos", false)] {
        assert_eq!(needs_musl(&parse(name, None).unwrap()), needs);
    }
}

#[test]
fn musl_is_fetched_once() {
    let (plan, musl) = fetch_musl(&said("MUSL_HASH=ab12"), "/c").ok().unwrap();
    assert_eq!(musl.so, "/c/musl/libc-musl-ab12.so");
    assert_eq!(musl.hash, "ab12");
    let (log, end) = carry_out(&plan, &[], true);
    assert_eq!(end, Ok(()));
    assert_eq!(
        log,
        vec![
            "mkdir /c/musl",
            "say      fetching musl runtime for Linux (cached after first use)…",
            "curl -fsSL --retry 2 -o /c/musl/libc-musl-ab12.part https://beam-machine-universal.b-cdn.net/musl/libc-musl-ab12.so?please-respect-my-bandwidth-costs=thank-you",
            "mv /c/musl/libc-musl-ab12.part /c/musl/libc-musl-ab12.so",
            "chmod /c/musl/libc-musl-ab12.so",
        ]
    );
    assert_eq!(carry_out(&musl_plan("ab12", "/c"), &[], true).0, log);
    let (log, _) = carry_out(&plan, &["/c/musl/libc-musl-ab12.so"], true);
    assert_eq!(log, vec!["mkdir /c/musl", "chmod /c/musl/libc-musl-ab12.so"]);
}

#[test]
fn musl_needs_a_manifest_with_a_hash() {
    assert_eq!(
        fetch_musl(&failed("no such file"), "/c").err(),
        Some("read runtime manifest: no such file".to_string())
    );
    assert_eq!(
        fetch_musl(&said("OTP=27"), "/c").err(),
        Some("no MUSL_HASH in runtime manifest".to_string())
    );
}

#[test]
fn info_shows_the_toolchain() {
    let (lines, end) = print_info(
        &said("gleam 1.6.0"),
        &said("/otp"),
        &said("27"),
        &said("15.2"),
        "0.16.0 (host)",
    );
    assert_eq!(end, Ok(()));
    assert_eq!(
        lines,
        vec![
            "panini toolchain",
            "  gleam:        gleam 1.6.0",
            "  otp release:  27",
            "  erts version: 15.2",
            "  otp root:     /otp",
            "  zig:          0.16.0 (host)",
        ]
    );
}

#[test]
fn info_stops_where_erlang_does_not_answer() {
    let (lines, end) = print_info(&failed("x"), &failed("no erl"), &said("27"), &said("15"), "z");
    assert_eq!((lines.len(), end), (0, Err("no erl".to_string())));
    let (lines, end) = print_info(&failed("x"), &said("/otp"), &failed("r"), &said("15"), "z");
    assert_eq!(lines, vec!["panini toolchain", "  gleam:        not found"]);
    assert_eq!(end, Err("r".to_string()));
    let (lines, end) = print_info(&failed("x"), &said("/otp"), &said("27"), &failed("e"), "z");
    assert_eq!(lines.len(), 3);
    assert_eq!(end, Err("e".to_string()));
}
