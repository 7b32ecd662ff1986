use panini::listing::Entry;
use panini::otp::{Nested, Release};
use panini::pipeline::{build, Compression, Job};
use panini::plan::{Action, Plan, Task};
use panini::press::{Got, Need, Order, Press, Stage};
use panini::target::{host, parse, Target};

fn order_of(job: Job, here: Option<Target>) -> Order {
    Order {
        project: "/p".to_string(),
        app: "hello".to_string(),
        job,
        compression: Compression::Gz,
        template: "/t".to_string(),
        host: here,
        arch: "x86_64".to_string(),
        os: "linux".to_string(),
        home: Some("/h".to_string()),
    }
}

fn jobs(otp: Option<&str>, targets: &[&str], here: Option<Target>) -> Vec<Job> {
    let targets: Vec<Target> = targets.iter().map(|t| parse(t, here).unwrap()).collect();
    let toml = Ok("name = \"hello\"".to_string());
    build("/p", &toml, None, otp, &targets, here, &Ok("27".to_string())).ok().unwrap().1
}

fn order(otp: Option<&str>, target: &str, here: Option<Target>) -> Order {
    order_of(jobs(otp, &[target], here).pop().unwrap(), here)
}

fn in_words(plan: &Plan) -> String {
    let mut words = vec![];
    for task in &plan.tasks {
        match task {
            Task::Must { action: Action::Run(run), .. } if run.program != "cp" => words.push(
                format!("{:?} {} {}", run.extra_path, run.program, run.args.join(" ")),
            ),
            Task::Must { action: Action::CopyFile { from, to }, .. } if from.contains("musl") => {
                words.push(format!("copy {from} {to}"))
            }
            Task::Must { action: Action::WriteText { text, .. }, .. } if text.contains("LIBC") => {
                words.push("write with libc".to_string())
            }
            _ => {}
        }
    }
    words.join("; ")
}

fn entry(dir: &str, name: &str) -> Entry {
    Entry { path: format!("{dir}/{name}"), name: Some(name.to_string()), is_dir: true }
}

fn nested(dir: &str, name: &str) -> Nested {
    let e = entry(dir, name);
    Nested { path: e.path, name: e.name, is_dir: true, listing: Ok(vec![]) }
}

/// Meet a need, as a machine would that has everything.
fn meet(need: Need, log: &mut Vec<String>) -> Option<Got> {
    Some(match need {
        Need::Work(plan) => {
            log.push(in_words(&plan));
            Got::Work(Ok(()))
        }
        Need::Answer(run) => {
            log.push(format!("ask {}", run.program));
            Got::Answer(Ok(match run.program.as_str() {
                "zig" => "0.16.0".to_string(),
                _ if run.args[2].contains("root_dir") => "/otp".to_string(),
                _ => "15.2".to_string(),
            }))
        }
        Need::Entries(dir) => {
            log.push(format!("list {dir}"));
            Got::Entries(Ok(vec![entry(&dir, "erts-15.2"), entry(&dir, "kernel-10")]))
        }
        Need::Nested(dir) => {
            log.push(format!("look into {dir}"));
            Got::Nested(Ok(vec![nested(&dir, "erts-15.2")]))
        }
        Need::Releases(dir) => {
            log.push(format!("releases {dir}"));
            Got::Releases(Ok(vec![Release {
                path: format!("{dir}/27"),
                is_dir: true,
                has_boot: true,
            }]))
        }
        Need::AppFiles(dir) => {
            log.push(format!("apps {dir}"));
            Got::AppFiles(vec![])
        }
        Need::Text(path) => {
            log.push(format!("text {path}"));
            Got::Text(Ok("MUSL_HASH=ab".to_string()))
        }
        Need::Bytes(path) => {
            log.push(format!("read {path}"));
            Got::Bytes(Ok(b"hello".to_vec()))
        }
        Need::Nothing => return None,
    })
}

fn press_it(order: Order) -> Vec<String> {
    let mut log = vec![];
    let mut press = Press::new(order);
    while let Some(got) = meet(press.need(), &mut log) {
        press = press.advance(got).ok().unwrap();
    }
    assert!(matches!(press.stage, Stage::Done));
    log
}

#[test]
fn a_host_build_is_pressed_stage_by_stage() {
    let here = host("linux", "x86_64");
    assert_eq!(
        press_it(order(None, "host", here)),
        vec![
            "None gleam export erlang-shipment",
            "ask erl",
            "ask erl",
            "releases /otp/releases",
            "apps /p/build/erlang-shipment",
            "list /otp/lib",
            "None tar -cf /p/build/panini/payload/rt.tar -C /p/build/panini/payload otp; None tar -cf /p/build/panini/payload/apps.tar -C /p/build/panini/payload app",
            "read /p/build/panini/payload/rt.tar",
            "read /p/build/panini/payload/apps.tar",
            "None tar -czf /p/build/panini/payload.tar.gz -C /p/build/panini payload",
            "read /p/build/panini/payload.tar.gz",
            "",
            "ask zig",
            "",
            "None zig build -Dtarget=x86_64-linux-musl -Doptimize=ReleaseFast",
            "",
        ]
    );
}

#[test]
fn a_native_build_is_compiled_with_what_is_bundled() {
    let here = host("linux", "x86_64");
    let own = "/h/.cache/panini/otp/otp_26.2_linux_any_x86_64";
    let other = "/h/.cache/panini/otp/otp_26.2_linux_any_aarch64";
    let log = press_it(order(Some("26.2"), "aarch64-linux", here));
    assert!(log[0].ends_with(&format!("tar -xzf {own}.tar.gz -C {own}")));
    assert_eq!(log[1], format!("look into {own}"));
    assert_eq!(log[2], format!("text {own}/burrito_runtime_manifest.txt"));
    assert!(log[3].ends_with(
        "copy /h/.cache/panini/musl/libc-musl-ab.so /tmp/libc-musl-ab.so"
    ));
    assert_eq!(log[4], format!("Some(\"{own}/bin\") gleam export erlang-shipment"));
    assert!(log[5].ends_with(&format!("tar -xzf {other}.tar.gz -C {other}")));
    assert_eq!(log[6], format!("look into {other}"));
    assert_eq!(log[7], format!("list {other}"));
    assert_eq!(log[8], format!("releases {other}/releases"));
    assert_eq!(log[9], format!("text {other}/burrito_runtime_manifest.txt"));
    assert!(log[10].starts_with("None curl"));
    assert_eq!(log.len(), 23);
}

#[test]
fn a_linux_binary_carries_its_libc() {
    let here = host("macos", "aarch64");
    let log = press_it(order(Some("27.2"), "x86_64-linux", here));
    assert_eq!(log[0], "None gleam export erlang-shipment");
    assert!(log.iter().any(|l| l.starts_with(
        "copy /h/.cache/panini/musl/libc-musl-ab.so /p/build/panini/payload/libc-musl-ab.so; write with libc"
    )));
}

#[test]
fn a_macos_build_needs_no_libc() {
    let here = host("macos", "aarch64");
    let log = press_it(order(Some("27.2"), "x86_64-macos", here));
    assert_eq!(
        log[2],
        "Some(\"/h/.cache/panini/otp/otp_27.2_macos_universal/bin\") gleam export erlang-shipment"
    );
    assert!(log.iter().all(|l| !l.contains("musl") && !l.contains("libc")));
}

#[test]
fn compiled_code_is_not_compiled_again() {
    let here = host("macos", "aarch64");
    let all = ["aarch64-macos", "x86_64-macos", "aarch64-linux", "x86_64-linux"];
    let compiled: Vec<usize> = jobs(Some("27.2"), &all, here)
        .into_iter()
        .map(|job| {
            press_it(order_of(job, here)).iter().filter(|l| l.contains("gleam export")).count()
        })
        .collect();
    assert_eq!(compiled, vec![1, 0, 1, 0]);
}

#[test]
fn the_launcher_carries_the_payload_that_was_read() {
    let here = host("linux", "x86_64");
    let press = Press {
        order: order(None, "host", here),
        stage: Stage::Launcher { payload: b"hello".to_vec(), zig: "zig".to_string() },
    };
    let plan = match press.need() {
        Need::Work(plan) => plan,
        _ => panic!("nothing to do"),
    };
    assert!(plan.tasks.iter().any(|t| matches!(
        t,
        Task::Must { action: Action::CopyFile { from, .. }, .. }
            if from == "/p/build/panini/payload.tar.gz"
    )));
    assert!(plan.tasks.iter().any(|t| matches!(
        t,
        Task::Must { action: Action::WriteText { text, .. }, .. }
            if text == "pub const app_tag = \"hello-0f923099\";\n"
    )));
}

fn fails(stage: Stage, got: Got) -> Option<String> {
    let here = host("linux", "x86_64");
    Press { order: order(Some("26.2"), "host", here), stage }.advance(got).err()
}

#[test]
fn a_need_that_is_not_met_ends_a_pressing() {
    let no = || "no".to_string();
    let root = || "/r".to_string();
    let cached = "/h/.cache/panini/otp/otp_26.2_linux_any_x86_64";
    assert_eq!(fails(Stage::Toolchain, Got::Work(Err(no()))), Some(no()));
    assert_eq!(
        fails(Stage::ToolchainRoot, Got::Nested(Err(no()))),
        Some("read extract dir: no".to_string())
    );
    assert_eq!(
        fails(Stage::ToolchainRoot, Got::Nested(Ok(vec![]))),
        Some(format!("could not locate an OTP root inside {cached}"))
    );
    assert_eq!(
        fails(Stage::ToolchainLibc { root: root() }, Got::Text(Err(no()))),
        Some("read runtime manifest: no".to_string())
    );
    assert_eq!(fails(Stage::Compile { bin: None }, Got::Work(Err(no()))), Some(no()));
    assert_eq!(fails(Stage::HostRoot, Got::Answer(Err(no()))), Some(no()));
    assert_eq!(fails(Stage::HostErts { root: root() }, Got::Answer(Err(no()))), Some(no()));
    assert_eq!(
        fails(Stage::PrecompiledErts { root: root() }, Got::Entries(Ok(vec![]))),
        Some("no erts-* dir in /r".to_string())
    );
    assert_eq!(
        fails(Stage::Boot { root: root(), erts: "erts-1".to_string() }, Got::Releases(Ok(vec![]))),
        Some("no releases/*/start.boot under /r".to_string())
    );
    assert_eq!(
        fails(Stage::RuntimePack, Got::Bytes(Err(no()))),
        Some("read runtime pack: no".to_string())
    );
    assert_eq!(
        fails(Stage::AppPack { runtime_tag: "1".to_string() }, Got::Bytes(Err(no()))),
        Some("read app pack: no".to_string())
    );
    assert_eq!(
        fails(Stage::Payload, Got::Bytes(Err("denied".to_string()))),
        Some("read tarball: denied".to_string())
    );
}

#[test]
fn binaries_with_the_same_runtime_share_it() {
    let here = host("linux", "x86_64");
    let tags = |app: &str, code: &[u8]| {
        let order = Order { app: app.to_string(), ..order(None, "host", here) };
        let press = Press { order, stage: Stage::RuntimePack };
        let press = press.advance(Got::Bytes(Ok(b"runtime".to_vec()))).ok().unwrap();
        match press.advance(Got::Bytes(Ok(code.to_vec()))).ok().unwrap().stage {
            Stage::Pack { runtime_tag, app_tag } => (runtime_tag, app_tag),
            _ => panic!("nothing is packed"),
        }
    };
    let (a, b) = (tags("a", b"code a"), tags("b", b"code b"));
    assert_eq!(a.0, b.0);
    assert_ne!(a.1, b.1);
}

#[test]
fn a_zig_that_is_missing_is_downloaded() {
    let here = host("linux", "x86_64");
    let press =
        Press { order: order(None, "host", here), stage: Stage::ZigVersion { payload: vec![] } };
    let press = press.advance(Got::Answer(Err("no zig".to_string()))).ok().unwrap();
    match press.need() {
        Need::Work(plan) => assert!(in_words(&plan).contains("ziglang.org")),
        _ => panic!("nothing is downloaded"),
    }
    let press = press.advance(Got::Work(Ok(()))).ok().unwrap();
    match press.stage {
        Stage::Launcher { zig, .. } => {
            assert_eq!(zig, "/h/.cache/panini/zig/zig-x86_64-linux-0.16.0/zig")
        }
        _ => panic!("no launcher is built"),
    }
}

#[test]
fn what_is_not_needed_is_passed_over() {
    let here = host("linux", "x86_64");
    let press = Press::new(order(None, "host", here));
    let press = press.advance(Got::Answer(Ok("zig".to_string()))).ok().unwrap();
    assert!(matches!(press.stage, Stage::Compile { bin: None }));
    let done = Press { order: order(None, "host", here), stage: Stage::Done };
    assert!(matches!(done.need(), Need::Nothing));
    assert!(matches!(done.advance(Got::Work(Ok(()))).ok().unwrap().stage, Stage::Done));
}
