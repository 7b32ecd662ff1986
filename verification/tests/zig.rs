use panini::plan::{Action, Task};
use panini::zig::{cache_root, describe, host_tuple, resolve, version_query, REQUIRED};

fn said(s: &str) -> Result<String, String> {
    Ok(s.to_string())
}

fn failed(s: &str) -> Result<String, String> {
    Err(s.to_string())
}

#[test]
fn zig_is_pinned() {
    assert_eq!(REQUIRED, "0.16.0");
    let query = version_query();
    assert_eq!((query.program.as_str(), query.args), ("zig", vec!["version".to_string()]));
}

#[test]
fn zig_has_names_for_the_host() {
    assert_eq!(host_tuple("x86_64", "linux"), Ok(("x86_64".to_string(), "linux".to_string())));
    assert_eq!(host_tuple("aarch64", "macos"), Ok(("aarch64".to_string(), "macos".to_string())));
    assert_eq!(
        host_tuple("riscv64", "freebsd"),
        Err("no Zig 0.16.0 mapping for host arch riscv64".to_string())
    );
    assert_eq!(
        host_tuple("x86_64", "freebsd"),
        Err("no Zig 0.16.0 mapping for host os freebsd".to_string())
    );
}

#[test]
fn zig_is_cached_under_home() {
    assert_eq!(cache_root(Some("/home/ada")), "/home/ada/.cache/panini/zig");
    assert_eq!(cache_root(None), "/tmp/.cache/panini/zig");
}

#[test]
fn the_hosts_zig_is_used_where_it_matches() {
    let (plan, zig) = resolve(&said("0.16.0"), "x86_64", "linux", None).ok().unwrap();
    assert_eq!((plan.tasks.len(), zig.as_str()), (0, "zig"));
    let (plan, zig) = resolve(&said("0.16.0"), "riscv64", "plan9", None).ok().unwrap();
    assert_eq!((plan.tasks.len(), zig.as_str()), (0, "zig"));
}

#[test]
fn another_zig_is_replaced_by_a_download() {
    for version in [said("0.13.0"), said("0.16.0-dev"), failed("no zig")] {
        let (plan, zig) = resolve(&version, "x86_64", "linux", Some("/h")).ok().unwrap();
        assert_eq!(zig, "/h/.cache/panini/zig/zig-x86_64-linux-0.16.0/zig");
        assert_eq!(plan.advance(0, Ok(true)), Ok(plan.tasks.len()));
        let runs: Vec<String> = plan
            .tasks
            .iter()
            .filter_map(|t| match t {
                Task::Must { action: Action::Run(run), .. } => {
                    Some(format!("{} {}", run.program, run.args.join(" ")))
                }
                _ => None,
            })
            .collect();
        assert_eq!(
            runs,
            vec![
                "curl -fsSL --retry 2 -o /h/.cache/panini/zig/zig-x86_64-linux-0.16.0.tar.part https://ziglang.org/download/0.16.0/zig-x86_64-linux-0.16.0.tar.xz",
                "tar -xf /h/.cache/panini/zig/zig-x86_64-linux-0.16.0.tar.xz -C /h/.cache/panini/zig",
            ]
        );
    }
}

#[test]
fn a_download_without_zig_in_it_is_an_error() {
    let (plan, _) = resolve(&failed("no zig"), "aarch64", "macos", Some("/h")).ok().unwrap();
    let last = plan.tasks.len() - 1;
    assert_eq!(
        plan.advance(last, Ok(false)),
        Err("zig not found at /h/.cache/panini/zig/zig-aarch64-macos-0.16.0/zig after extraction"
            .to_string())
    );
    assert_eq!(
        plan.advance(3, Err("404".to_string())),
        Err("zig download failed: 404".to_string())
    );
}

#[test]
fn no_zig_can_be_had_for_some_hosts() {
    assert_eq!(
        resolve(&failed("no zig"), "x86_64", "openbsd", None).err(),
        Some("no Zig 0.16.0 mapping for host os openbsd".to_string())
    );
}

#[test]
fn zig_is_described() {
    assert_eq!(describe(&said("0.16.0")), "0.16.0 (host)");
    assert_eq!(describe(&said("0.13.0")), "host has 0.13.0; will fetch 0.16.0");
    assert_eq!(describe(&failed("x")), "not installed; will fetch 0.16.0");
}
