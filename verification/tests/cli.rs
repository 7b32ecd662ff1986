use panini::cli::{
    check, cmd_build, cmd_doctor, cmd_targets, erl_query, error_line, parse_options,
    resolve_targets, unknown_command, version_query, BuildRequest, Checkup, Command, HELP,
};
use panini::pipeline::Compression;
use panini::target::{host, Target};

fn texts(v: &[&str]) -> Vec<String> {
    v.iter().map(|s| s.to_string()).collect()
}

fn said(s: &str) -> Result<String, String> {
    Ok(s.to_string())
}

fn failed(s: &str) -> Result<String, String> {
    Err(s.to_string())
}

fn here() -> Option<Target> {
    host("linux", "x86_64")
}

fn request(args: &[&str]) -> Result<BuildRequest, String> {
    cmd_build(&texts(args), here())
}

#[test]
fn commands_are_words() {
    assert!(matches!(Command::parse(None), Command::Help));
    assert!(matches!(Command::parse(Some("build")), Command::Build));
    assert!(matches!(Command::parse(Some("info")), Command::Info));
    assert!(matches!(Command::parse(Some("doctor")), Command::Doctor));
    assert!(matches!(Command::parse(Some("otp-versions")), Command::OtpVersions));
    assert!(matches!(Command::parse(Some("targets")), Command::Targets));
    for w in ["help", "-h", "--help"] {
        assert!(matches!(Command::parse(Some(w)), Command::Help));
    }
    for w in ["version", "--version", "-V"] {
        assert!(matches!(Command::parse(Some(w)), Command::Version));
    }
    for w in ["", "Build", "-v"] {
        assert!(matches!(Command::parse(Some(w)), Command::Unknown));
    }
}

#[test]
fn errors_are_told() {
    assert_eq!(unknown_command("bake"), "panini: unknown command 'bake'\n");
    assert_eq!(error_line("no"), "\x1b[31merror:\x1b[0m no");
}

#[test]
fn help_lists_commands_and_options() {
    assert!(HELP.starts_with("panini — a Burrito for Gleam 🥪\n\nUSAGE:\n  panini build [PROJECT_DIR]"));
    assert!(HELP.contains("\n\nBUILD OPTIONS:\n  -o, --output PATH     Output binary (default: <project>/<app>)\n"));
    assert!(HELP.ends_with("\n  panini build ./examples/hello --target all --otp 27.2"));
}

#[test]
fn without_arguments_the_project_here_is_built_for_the_host() {
    let r = request(&[]).ok().unwrap();
    assert_eq!(r.project, ".");
    assert_eq!((r.out, r.otp_version), (None, None));
    assert_eq!(r.targets, vec![here().unwrap()]);
    assert_eq!(r.compression, Compression::Gz);
}

#[test]
fn arguments_come_in_any_order() {
    for args in [
        ["./app", "-o", "hello", "--otp", "27.2", "--target", "host", "--compression", "xz"],
        ["--compress", "xz", "--target", "host", "--otp", "27.2", "--output", "hello", "./app"],
    ] {
        let r = request(&args).ok().unwrap();
        assert_eq!(r.project, "./app");
        assert_eq!(r.out, Some("hello".to_string()));
        assert_eq!(r.otp_version, Some("27.2".to_string()));
        assert_eq!(r.targets, vec![here().unwrap()]);
        assert_eq!(r.compression, Compression::Xz);
    }
}

#[test]
fn the_last_value_of_an_option_counts() {
    let r = request(&["--otp", "26", "x", "--otp", "27"]).ok().unwrap();
    assert_eq!(r.otp_version, Some("27".to_string()));
    let o = parse_options(&texts(&["-o", "--otp", "-o", "b"])).ok().unwrap();
    assert_eq!((o.out, o.otp_version), (Some("b".to_string()), None));
}

#[test]
fn a_missing_value_is_named() {
    let cases = [
        ("-o", "-o requires a path argument"),
        ("--output", "-o requires a path argument"),
        ("--otp", "--otp requires a version, e.g. 27.2"),
        ("--target", "--target requires a value, e.g. all"),
        ("--compression", "--compression requires a value: gz, xz, or zst"),
        ("--compress", "--compression requires a value: gz, xz, or zst"),
    ];
    for (arg, e) in cases {
        assert_eq!(request(&["x", arg]).err(), Some(e.to_string()));
    }
}

#[test]
fn other_arguments_are_unexpected() {
    assert_eq!(request(&["a", "b"]).err(), Some("unexpected argument: b".to_string()));
    assert_eq!(request(&["--fast"]).err(), Some("unexpected argument: --fast".to_string()));
    assert_eq!(request(&["-"]).err(), Some("unexpected argument: -".to_string()));
    assert_eq!(
        request(&["--compression", "zip"]).err(),
        Some("unknown compression 'zip' (use gz, xz, or zst)".to_string())
    );
}

fn names(spec: Option<&str>) -> Result<Vec<&'static str>, String> {
    resolve_targets(spec, here()).map(|v| v.iter().map(|t| t.name).collect())
}

#[test]
fn targets_are_listed_by_name() {
    assert_eq!(names(None), Ok(vec!["x86_64-linux"]));
    assert_eq!(
        names(Some("all")),
        Ok(vec!["aarch64-macos", "x86_64-macos", "aarch64-linux", "x86_64-linux"])
    );
    assert_eq!(
        names(Some(" aarch64-linux , host,, aarch64-linux,x86_64-linux")),
        Ok(vec!["aarch64-linux", "x86_64-linux"])
    );
    assert_eq!(names(Some("x86_64-openbsd")), Ok(vec!["x86_64-openbsd"]));
}

#[test]
fn a_target_list_must_make_sense() {
    for list in ["", " , ,", ","] {
        assert_eq!(names(Some(list)), Err("no targets given to --target".to_string()));
    }
    assert_eq!(
        names(Some("x86_64-linux,plan9,riscv64")),
        Err("unknown target 'plan9' (see `panini targets`)".to_string())
    );
    assert_eq!(
        names(Some("all,x86_64-linux")),
        Err("unknown target 'all' (see `panini targets`)".to_string())
    );
    assert_eq!(
        resolve_targets(None, None),
        Err("this host platform isn't a supported target; pass --target explicitly".to_string())
    );
}

#[test]
fn arguments_are_read_before_targets_are_looked_up() {
    assert_eq!(
        request(&["--target", "plan9", "--otp"]).err(),
        Some("--otp requires a version, e.g. 27.2".to_string())
    );
}

#[test]
fn tools_are_asked_for_their_version() {
    let q = version_query("tar");
    assert_eq!((q.program.as_str(), q.args), ("tar", texts(&["--version"])));
    let q = erl_query();
    assert_eq!(
        q.args,
        texts(&[
            "-noshell",
            "-eval",
            "io:format(\"OTP ~s\",[erlang:system_info(otp_release)]),halt()."
        ])
    );
}

#[test]
fn a_tool_is_shown_by_its_first_line() {
    assert_eq!(
        check("tar", &said("tar (GNU tar) 1.35 \nCopyright"), "hint"),
        ("  \x1b[32m✓\x1b[0m tar: tar (GNU tar) 1.35".to_string(), true)
    );
    assert_eq!(check("tar", &said(""), "hint"), ("  \x1b[32m✓\x1b[0m tar: ".to_string(), true));
    assert_eq!(
        check("tar", &failed("x"), "needed to pack"),
        ("  \x1b[31m✗\x1b[0m tar: not found — needed to pack".to_string(), false)
    );
}

fn healthy() -> Checkup {
    Checkup {
        gleam: said("gleam 1.6.0"),
        curl: said("curl 8"),
        tar: said("tar 1.35"),
        erl: said("OTP 27"),
        zig: said("0.16.0"),
        host: here(),
    }
}

#[test]
fn a_healthy_machine_is_ready() {
    let (lines, end) = cmd_doctor(&healthy());
    assert_eq!(end, Ok(()));
    assert_eq!(
        lines,
        texts(&[
            "panini doctor\n",
            "  \x1b[32m✓\x1b[0m gleam: gleam 1.6.0",
            "  \x1b[32m✓\x1b[0m curl: curl 8",
            "  \x1b[32m✓\x1b[0m tar: tar 1.35",
            "  \x1b[32m✓\x1b[0m erl: OTP 27",
            "  \x1b[36m•\x1b[0m zig: 0.16.0 (host)",
            "  host:  x86_64-linux",
            "\n\x1b[32m✓ ready to build\x1b[0m",
        ])
    );
}

#[test]
fn erlang_and_zig_can_be_missing() {
    let (lines, end) = cmd_doctor(&Checkup { erl: failed("x"), zig: failed("x"), ..healthy() });
    assert_eq!(end, Ok(()));
    assert_eq!(
        lines[4],
        "  \x1b[33m•\x1b[0m erl: none (host-OTP builds unavailable; use --otp <v>)"
    );
    assert_eq!(lines[5], "  \x1b[36m•\x1b[0m zig: not installed; will fetch 0.16.0");
}

#[test]
fn tools_and_a_supported_machine_are_needed() {
    let missing = Err("some required tools are missing (see above)".to_string());
    for c in [
        Checkup { gleam: failed("x"), ..healthy() },
        Checkup { curl: failed("x"), ..healthy() },
        Checkup { tar: failed("x"), ..healthy() },
        Checkup { host: None, ..healthy() },
    ] {
        let (lines, end) = cmd_doctor(&c);
        assert_eq!(end, missing);
        assert_eq!(lines.len(), 7);
    }
    let (lines, _) = cmd_doctor(&Checkup { host: None, ..healthy() });
    assert_eq!(lines[6], format!("  {:<6} UNSUPPORTED (see `panini targets`)", "host:"));
}

#[test]
fn targets_are_shown_with_the_host_marked() {
    let lines = cmd_targets(here());
    assert_eq!(lines.len(), 10);
    assert_eq!(lines[0], "supported targets:");
    assert_eq!(lines[1], format!("  {:<16} zig: {}{}", "aarch64-macos", "aarch64-macos", ""));
    assert_eq!(lines[4], "  x86_64-linux     zig: x86_64-linux-musl  (host)");
    assert_eq!(lines[8], "\nUse with: panini build --target <name>[,<name>...]  (or --target all)");
    assert_eq!(lines[9], "Cross targets require --otp <version>.");
    assert!(cmd_targets(None).iter().all(|l| !l.ends_with("(host)")));
}
