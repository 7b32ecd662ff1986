use panini::otp::Musl;
use panini::pipeline::{
    app_tar, assemble, build, build_launcher, cache_tag, compile, content_tag, djb2, finish,
    install_musl, needs_release, pack_payload, read_app_name, reuse, run_sh, runtime_tar, shipment, staging, step, tarball, weigh,
    write_run_sh, Compression, Job, Runtime,
};
use panini::plan::{Action, Plan, Task};
use panini::target::{all, host, parse, Target};

fn said(s: &str) -> Result<String, String> {
    Ok(s.to_string())
}

fn failed(s: &str) -> Result<String, String> {
    Err(s.to_string())
}

fn in_words(plan: &Plan) -> Vec<String> {
    plan.tasks
        .iter()
        .map(|t| match t {
            Task::Must { action, .. } | Task::Try { action } => match action {
                Action::MakeDirs(p) => format!("mkdir {p}"),
                Action::RemoveTree(p) => format!("rm {p}"),
                Action::WriteText { path, .. } => format!("write {path}"),
                Action::CopyFile { from, to } => format!("copy {from} {to}"),
                Action::Rename { from, to } => format!("mv {from} {to}"),
                Action::MakeExecutable(p) => format!("chmod {p}"),
                Action::Run(run) => format!("{} {}", run.program, run.args.join(" ")),
                Action::Say(text) => format!("say {text}"),
            },
            Task::SkipIfExists { path, count } => format!("skip {count} {path}"),
            Task::Require { path, directory, .. } => format!("require {directory} {path}"),
        })
        .collect()
}

#[test]
fn the_hash_is_that_of_bernstein() {
    assert_eq!(djb2(b""), 5381);
    assert_eq!(djb2(b"a"), 177_670);
    assert_eq!(djb2(b"hello"), 261_238_937);
    assert_eq!(djb2(b"hello world"), 894_552_257);
}

#[test]
fn a_changed_byte_changes_the_hash() {
    let a = vec![7u8; 1000];
    for i in [0, 1, 500, 999] {
        let mut b = a.clone();
        b[i] = 8;
        assert_ne!(djb2(&a), djb2(&b));
        assert_ne!(cache_tag("hello", &a), cache_tag("hello", &b));
    }
}

#[test]
fn the_cache_tag_is_name_and_hash() {
    assert_eq!(cache_tag("hello", b""), "hello-00001505");
    assert_eq!(cache_tag("hello", b"hello"), format!("hello-{:08x}", 261_238_937));
}

#[test]
fn the_app_is_named_in_gleam_toml() {
    for toml in [
        "name = \"hello\"\nversion = \"1\"",
        "# app\n  name=\"hello\"  \r\n",
        "name = hello",
        "name = \"hello\" # the app",
        "name = \"hello\"# \"the\" app",
        "name = \"\"hello\"\"",
        "name = \"hello",
        "name = \" hello \"",
        "name = \"\"\nname = \"hello\"\nname = \"other\"",
        "namespace = \"x\"\nname = \"hello\"\n",
        "names = \"x\"\nname_of = \"y\"\n name = \"hello\"",
    ] {
        assert_eq!(read_app_name("/p", &said(toml)), said("hello"), "{toml}");
    }
}

#[test]
fn quotes_inside_a_name_stay() {
    assert_eq!(read_app_name("/p", &said("name = \"a\"b\"")), said("a\"b"));
    assert_eq!(read_app_name("/p", &said("name = \"a\" b")), said("a\" b"));
}

#[test]
fn a_project_without_a_name_is_refused() {
    for toml in ["", "version = \"1\"", "name", "name = \"\"", "[name]\nx = 1", "namespace = \"x\""] {
        assert_eq!(
            read_app_name("/p", &said(toml)),
            failed("could not find `name` in gleam.toml")
        );
    }
    assert_eq!(
        read_app_name("/p", &failed("no such file")),
        failed("no gleam.toml in /p — is this a Gleam project?")
    );
}

#[test]
fn the_boot_script_starts_the_app() {
    let app = "hello";
    let expected = format!(
        "#!/bin/sh\n\
         set -eu\n\
         HERE=$(CDPATH= cd \"$(dirname \"$0\")\" && pwd)\n\
         share() {{\n  \
           DIR=\"${{HOME:-/tmp}}/.cache/panini/$1/$(cat \"$HERE/$1.tag\")\"\n  \
           if [ ! -d \"$DIR\" ]; then\n    \
             mkdir -p \"$DIR.$$\"\n    \
             tar -xf \"$HERE/$1.tar\" -C \"$DIR.$$\"\n    \
             mv \"$DIR.$$\" \"$DIR\" || rm -rf \"$DIR.$$\"\n  \
           fi\n  \
           ln -sfn \"$DIR/$2\" \"$HERE/$2\"\n\
         }}\n\
         share rt otp\n\
         share apps app\n\
         export ROOTDIR=\"$HERE/otp\"\n\
         export ERL_ROOTDIR=\"$ROOTDIR\"\n\
         export BINDIR=\"$ROOTDIR/erts-15.2/bin\"\n\
         export EMU=beam\n\
         export PROGNAME=erl\n\
         exec \"$BINDIR/erlexec\" \\\n  \
           -boot \"$ROOTDIR/releases/27/start\" \\\n  \
           -pa \"$HERE\"/app/*/ebin \\\n  \
           -noshell \\\n  \
           -eval '{app}@@main:run({app})' \\\n  \
           -extra \"$@\"\n",
    );
    assert_eq!(run_sh(app, "erts-15.2", "27", &None), expected);
    let plan = write_run_sh("/payload", app, "erts-15.2", "27", &None);
    assert_eq!(in_words(&plan), vec!["write /payload/run.sh", "chmod /payload/run.sh"]);
    assert_eq!(plan.advance(0, Err("x".to_string())), Err("write run.sh: x".to_string()));
    assert_eq!(plan.advance(1, Err("x".to_string())), Err("chmod run.sh: x".to_string()));
}

#[test]
fn the_boot_script_puts_the_libc_in_its_place() {
    let musl = Some(Musl { so: "/c/m.so".to_string(), hash: "ab".to_string() });
    let plain = run_sh("hello", "erts-15.2", "27", &None);
    let script = run_sh("hello", "erts-15.2", "27", &musl);
    let lines = "LIBC=\"/tmp/libc-musl-ab.so\"\n\
         if [ ! -e \"$LIBC\" ]; then\n  \
           cp \"$HERE/libc-musl-ab.so\" \"$LIBC.$$\"\n  \
           chmod 755 \"$LIBC.$$\"\n  \
           mv \"$LIBC.$$\" \"$LIBC\"\n\
         fi\n";
    assert_eq!(script.replace(lines, ""), plain);
    assert!(script.contains(&format!("{lines}export ROOTDIR")));
    let plan = write_run_sh("/payload", "hello", "erts-15.2", "27", &musl);
    assert_eq!(
        in_words(&plan),
        vec!["copy /c/m.so /payload/libc-musl-ab.so", "write /payload/run.sh", "chmod /payload/run.sh"]
    );
    assert_eq!(plan.advance(0, Err("x".to_string())), Err("stage musl: x".to_string()));
}

#[test]
fn steps_are_numbered() {
    assert_eq!(step(3, "compressing payload"), "\x1b[36m[3/4]\x1b[0m compressing payload");
}

#[test]
fn compressors_are_known_by_name() {
    assert_eq!(Compression::parse("gz"), Ok(Compression::Gz));
    assert_eq!(Compression::parse("xz"), Ok(Compression::Xz));
    assert_eq!(Compression::parse("zst"), Ok(Compression::Zst));
    assert_eq!(
        Compression::parse("lzma"),
        Err("unknown compression 'lzma' (use gz, xz, or zst)".to_string())
    );
}

fn target(name: &str) -> Target {
    parse(name, None).unwrap()
}

fn plan_build(
    out: Option<&str>,
    otp: Option<&str>,
    targets: &[&str],
    host: Option<Target>,
    release: Result<String, String>,
) -> Result<(String, Vec<Job>), String> {
    let targets: Vec<Target> = targets.iter().map(|n| target(n)).collect();
    build("/p", &said("name = \"hello\""), out, otp, &targets, host, &release)
}

fn outputs(r: Result<(String, Vec<Job>), String>) -> Vec<String> {
    r.ok().unwrap().1.into_iter().map(|j| j.output).collect()
}

#[test]
fn a_host_build_takes_the_hosts_own_otp() {
    let here = host("linux", "x86_64");
    let (app, jobs) =
        plan_build(None, None, &["x86_64-linux"], here, failed("no erl")).ok().unwrap();
    assert_eq!(app, "hello");
    assert_eq!(jobs.len(), 1);
    assert_eq!(jobs[0].target.name, "x86_64-linux");
    assert_eq!(jobs[0].output, "/p/hello");
    assert_eq!(jobs[0].otp, None);
    assert!(!jobs[0].own_toolchain);
}

#[test]
fn outputs_are_named_after_their_targets() {
    let here = host("macos", "aarch64");
    assert_eq!(
        outputs(plan_build(None, Some("27.2"), &["x86_64-linux", "x86_64-macos"], here, said("27"))),
        vec!["/p/hello-x86_64-linux", "/p/hello-x86_64-macos"]
    );
    assert_eq!(
        outputs(plan_build(Some("./hi"), Some("27.2"), &["x86_64-linux"], here, said("27"))),
        vec!["./hi"]
    );
    assert_eq!(
        outputs(plan_build(Some("hi"), Some("27.2"), &["x86_64-linux", "aarch64-linux"], here, said("27"))),
        vec!["hi-x86_64-linux", "hi-aarch64-linux"]
    );
}

#[test]
fn native_targets_are_compiled_with_the_version_asked_for() {
    let here = host("linux", "x86_64");
    let (_, jobs) = plan_build(
        None,
        Some("26.2"),
        &["x86_64-linux", "aarch64-linux"],
        here,
        failed("no erl"),
    )
    .ok()
    .unwrap();
    assert!(jobs.iter().all(|j| j.own_toolchain && j.otp == Some("26.2".to_string())));
}

#[test]
fn cross_targets_need_a_host_otp_of_the_same_major() {
    let here = host("macos", "aarch64");
    let (_, jobs) =
        plan_build(None, Some("27.2"), &["x86_64-linux"], here, said("27")).ok().unwrap();
    assert!(!jobs[0].own_toolchain);
    assert_eq!(
        plan_build(None, Some("26.2"), &["x86_64-linux"], here, said("27")).err(),
        Some(
            "OTP 26.2 for 'x86_64-linux' needs a host OTP of the same major, but the host has 27"
                .to_string()
        )
    );
    assert_eq!(
        plan_build(None, Some("26.2"), &["x86_64-linux"], here, failed("no erl")).err(),
        Some("no erl".to_string())
    );
}

#[test]
fn cross_targets_need_a_version() {
    let here = host("macos", "aarch64");
    for t in ["x86_64-linux", "x86_64-macos", "x86_64-freebsd"] {
        assert_eq!(
            plan_build(None, None, &[t], here, said("27")).err(),
            Some(format!(
                "target '{t}' is not this host: cross targets require --otp <version>"
            ))
        );
    }
}

#[test]
fn the_bsds_are_built_at_home() {
    let here = host("freebsd", "x86_64");
    assert!(plan_build(None, None, &["x86_64-freebsd"], here, said("27")).is_ok());
    assert_eq!(
        plan_build(None, Some("27.2"), &["x86_64-freebsd"], here, said("27")).err(),
        Some(
            "no precompiled OTP for target 'x86_64-freebsd': build it on that OS, without --otp"
                .to_string()
        )
    );
}

#[test]
fn the_first_error_fails_a_build() {
    let here = host("macos", "aarch64");
    let r = plan_build(None, Some("26"), &["aarch64-macos", "x86_64-linux", "x86_64-netbsd"], here, said("27"));
    assert!(r.err().unwrap().starts_with("OTP 26 for 'x86_64-linux'"));
    let r = build("/p", &failed("x"), None, None, &all(), here, &said("27"));
    assert_eq!(r.err(), Some("no gleam.toml in /p — is this a Gleam project?".to_string()));
}

#[test]
fn compiling_makes_a_fresh_staging_area() {
    let plan = compile("/p", "hello", Some("/otp/bin"));
    assert_eq!(
        in_words(&plan),
        vec![
            "say \x1b[1m🥪 panini\x1b[0m  pressing 'hello' into a single binary\n",
            "say \x1b[36m[1/4]\x1b[0m gleam export erlang-shipment",
            "gleam export erlang-shipment",
            "require true /p/build/erlang-shipment",
            "rm /p/build/panini",
            "mkdir /p/build/panini/payload",
            "say \x1b[36m[2/4]\x1b[0m assembling minimal OTP runtime",
        ]
    );
    match &plan.tasks[2] {
        Task::Must { action: Action::Run(run), .. } => {
            assert_eq!(run.cwd, Some("/p".to_string()));
            assert_eq!(run.extra_path, Some("/otp/bin".to_string()));
        }
        _ => panic!("gleam is not run"),
    }
    assert_eq!(
        plan.advance(3, Ok(false)),
        Err("expected shipment at /p/build/erlang-shipment".to_string())
    );
    assert_eq!(shipment("/p"), "/p/build/erlang-shipment");
    assert_eq!(staging("/p"), "/p/build/panini");
}

fn runtime() -> Runtime {
    Runtime {
        root: "/otp".to_string(),
        erts: "erts-15.2".to_string(),
        release: "27".to_string(),
        musl: None,
    }
}

#[test]
fn code_that_is_compiled_is_staged_again() {
    assert_eq!(
        in_words(&reuse("/p", "hello")),
        vec![
            "say \x1b[1m🥪 panini\x1b[0m  pressing 'hello' into a single binary\n",
            "say \x1b[36m[1/4]\x1b[0m reusing erlang-shipment",
            "require true /p/build/erlang-shipment",
            "rm /p/build/panini",
            "mkdir /p/build/panini/payload",
            "say \x1b[36m[2/4]\x1b[0m assembling minimal OTP runtime",
        ]
    );
}

fn reused(otp: &str, targets: &[&str], here: Option<Target>) -> Vec<bool> {
    let (_, jobs) = plan_build(None, Some(otp), targets, here, said("27")).ok().unwrap();
    jobs.iter().map(|j| j.reuses_shipment).collect()
}

#[test]
fn compiled_code_is_reused_across_targets() {
    let here = host("macos", "aarch64");
    assert_eq!(
        reused("27.2", &["aarch64-macos", "x86_64-macos", "aarch64-linux", "x86_64-linux"], here),
        vec![false, true, false, true]
    );
    assert_eq!(reused("27.2", &["x86_64-linux", "aarch64-linux"], here), vec![false, true]);
    assert_eq!(
        reused("27.2", &["x86_64-linux", "x86_64-macos", "aarch64-linux"], here),
        vec![false, false, false]
    );
}

#[test]
fn the_release_is_asked_for_where_it_matters() {
    let here = host("macos", "aarch64");
    let native = vec![target("x86_64-macos"), target("aarch64-macos")];
    let mixed = vec![target("x86_64-macos"), target("x86_64-linux")];
    assert!(!needs_release(None, &mixed, here));
    assert!(!needs_release(Some("27.2"), &native, here));
    assert!(needs_release(Some("27.2"), &mixed, here));
    assert!(needs_release(Some("27.2"), &native, None));
}

#[test]
fn the_payload_is_runtime_app_and_script() {
    let libs = vec!["/otp/lib/kernel-10.1".to_string(), "/otp/lib/stdlib-6.0".to_string()];
    let plan = assemble("/p", "hello", &runtime(), &libs);
    let payload = "/p/build/panini/payload";
    assert_eq!(
        in_words(&plan),
        vec![
            format!("mkdir {payload}/otp"),
            format!("cp -R /otp/erts-15.2 {payload}/otp/erts-15.2"),
            format!("mkdir {payload}/otp"),
            format!("cp -R /otp/bin {payload}/otp/bin"),
            format!("mkdir {payload}/otp"),
            format!("cp -R /otp/releases {payload}/otp/releases"),
            format!("mkdir {payload}/otp/lib"),
            format!("cp -R /otp/lib/kernel-10.1 {payload}/otp/lib/kernel-10.1"),
            format!("mkdir {payload}/otp/lib"),
            format!("cp -R /otp/lib/stdlib-6.0 {payload}/otp/lib/stdlib-6.0"),
            "say      bundled erts-15.2 + 2 OTP lib apps".to_string(),
            format!("mkdir {payload}"),
            format!("cp -R /p/build/erlang-shipment {payload}/app"),
            format!("write {payload}/run.sh"),
            format!("chmod {payload}/run.sh"),
            "say \x1b[36m[3/4]\x1b[0m compressing payload".to_string(),
            format!("find {payload}/otp -exec touch -h -t 200001010000 {{}} +"),
            format!("tar -cf {payload}/rt.tar -C {payload} otp"),
            format!("tar -cf {payload}/apps.tar -C {payload} app"),
        ]
    );
    assert_eq!(runtime_tar("/p"), format!("{payload}/rt.tar"));
    assert_eq!(app_tar("/p"), format!("{payload}/apps.tar"));
}

#[test]
fn the_payload_holds_two_tagged_packs() {
    let plan = pack_payload("/p", "00001505", "0f923099", Compression::Gz);
    let payload = "/p/build/panini/payload";
    assert_eq!(
        in_words(&plan),
        vec![
            format!("write {payload}/rt.tag"),
            format!("write {payload}/apps.tag"),
            format!("rm {payload}/otp"),
            format!("rm {payload}/app"),
            "tar -czf /p/build/panini/payload.tar.gz -C /p/build/panini payload".to_string(),
        ]
    );
    let written: Vec<&str> = plan
        .tasks
        .iter()
        .filter_map(|t| match t {
            Task::Must { action: Action::WriteText { text, .. }, .. } => Some(text.as_str()),
            _ => None,
        })
        .collect();
    assert_eq!(written, vec!["00001505", "0f923099"]);
    let errors = ["write rt.tag: x", "write apps.tag: x", "clean payload: x", "clean payload: x", "x"];
    for (at, e) in errors.iter().enumerate() {
        assert_eq!(plan.advance(at, Err("x".to_string())), Err(e.to_string()));
    }
}

#[test]
fn packs_are_tagged_by_their_content() {
    assert_eq!(content_tag(b""), "00001505");
    assert_eq!(content_tag(b"hello"), "0f923099");
    assert_ne!(content_tag(b"hello"), content_tag(b"hallo"));
}

#[test]
fn the_payload_is_packed_as_asked() {
    let pack = |c: Compression| in_words(&pack_payload("/p", "1", "2", c)).pop();
    assert_eq!(
        pack(Compression::Xz),
        Some("tar -cJf /p/build/panini/payload.tar.xz -C /p/build/panini payload".to_string())
    );
    assert_eq!(
        pack(Compression::Zst),
        Some("tar --zstd -cf /p/build/panini/payload.tar.zst -C /p/build/panini payload".to_string())
    );
    assert_eq!(tarball("/p", Compression::Gz), "/p/build/panini/payload.tar.gz");
}

#[test]
fn the_payload_is_weighed_in_mb() {
    for (len, mb) in [(0, 0), (1_048_575, 0), (1_048_576, 1), (50_000_000, 47)] {
        assert_eq!(in_words(&weigh(len))[0], format!("say      payload: {mb} MB"));
    }
}

#[test]
fn the_launcher_is_built_for_the_target() {
    let plan = build_launcher(
        "/s",
        "/s/payload.tar.xz",
        "hello",
        b"hello",
        "/out/hello",
        "/t",
        "/z/zig",
        &target("x86_64-linux"),
    );
    assert_eq!(
        in_words(&plan),
        vec![
            "require false /t/build.zig",
            "rm /s/launcher",
            "mkdir /s/launcher/src",
            "copy /t/build.zig /s/launcher/build.zig",
            "copy /t/src/main.zig /s/launcher/src/main.zig",
            "copy /s/payload.tar.xz /s/launcher/src/payload.tar.gz",
            "write /s/launcher/src/gen.zig",
            "/z/zig build -Dtarget=x86_64-linux-musl -Doptimize=ReleaseFast",
            "copy /s/launcher/zig-out/bin/panini-app /out/hello",
            "chmod /out/hello",
        ]
    );
    match &plan.tasks[6] {
        Task::Must { action: Action::WriteText { text, .. }, .. } => {
            assert_eq!(text, &format!("pub const app_tag = \"hello-{:08x}\";\n", 261_238_937));
        }
        _ => panic!("no tag is written"),
    }
    let errors = [
        (0, "launcher template not found at /t (run panini from its repo for v0)"),
        (2, "mkdir /s/launcher/src: x"),
        (3, "copy build.zig: x"),
        (4, "copy main.zig: x"),
        (5, "stage payload: x"),
        (6, "write gen.zig: x"),
        (7, "x"),
        (8, "copy /s/launcher/zig-out/bin/panini-app -> /out/hello: x"),
    ];
    for (at, e) in errors {
        assert_eq!(plan.advance(at, Err("x".to_string())), Err(e.to_string()));
    }
    for at in [1, 9] {
        assert_eq!(plan.advance(at, Err("x".to_string())), Ok(at + 1));
    }
}

#[test]
fn a_finished_binary_is_shown() {
    assert_eq!(
        in_words(&finish("hello")),
        vec![
            "say \n\x1b[32m✓ done\x1b[0m  →  hello",
            "say   run it with nothing installed:  ./hello",
        ]
    );
}

#[test]
fn musl_is_put_where_it_is_looked_for() {
    let musl = Musl { so: "/c/m.so".to_string(), hash: "ab".to_string() };
    assert_eq!(
        in_words(&install_musl(&musl)),
        vec!["copy /c/m.so /tmp/libc-musl-ab.so", "chmod /tmp/libc-musl-ab.so"]
    );
}
