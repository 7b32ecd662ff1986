use panini::target::{all, cross_capable, host, parse};

#[test]
fn targets_are_known_by_name() {
    let names: Vec<&str> = all().iter().map(|t| t.name).collect();
    assert_eq!(
        names,
        vec![
            "aarch64-macos",
            "x86_64-macos",
            "aarch64-linux",
            "x86_64-linux",
            "x86_64-freebsd",
            "x86_64-netbsd",
            "x86_64-openbsd"
        ]
    );
    for t in all() {
        assert_eq!(parse(t.name, None), Ok(t));
    }
}

#[test]
fn cross_capable_leaves_out_the_bsds() {
    let names: Vec<&str> = cross_capable().iter().map(|t| t.name).collect();
    assert_eq!(names, vec!["aarch64-macos", "x86_64-macos", "aarch64-linux", "x86_64-linux"]);
}

#[test]
fn hosts_are_found_by_os_and_architecture() {
    for t in all() {
        assert_eq!(host(t.os, t.arch), Some(t));
        assert!(t.is_host(host(t.os, t.arch)));
        assert!(!t.is_host(None));
    }
    assert_eq!(host("windows", "x86_64"), None);
    assert_eq!(host("linux", "riscv64"), None);
    assert_eq!(host("freebsd", "aarch64"), None);
}

#[test]
fn host_names_this_machine() {
    let here = host("linux", "x86_64");
    assert_eq!(parse("host", here).unwrap().name, "x86_64-linux");
    assert_eq!(
        parse("host", None),
        Err("this host platform is not a supported target".to_string())
    );
}

#[test]
fn unknown_targets_are_refused() {
    assert_eq!(
        parse("riscv64-linux", None),
        Err("unknown target 'riscv64-linux' (see `panini targets`)".to_string())
    );
    assert_eq!(parse("", None), Err("unknown target '' (see `panini targets`)".to_string()));
}

#[test]
fn linux_archives_are_per_architecture() {
    let t = parse("aarch64-linux", None).unwrap();
    assert_eq!(t.otp_archive_name("27.2"), "otp_27.2_linux_any_aarch64.tar.gz");
    assert_eq!(
        t.otp_url("27.2"),
        "https://beam-machine-universal.b-cdn.net/OTP-27.2/linux/aarch64/any/otp_27.2_linux_any_aarch64.tar.gz?please-respect-my-bandwidth-costs=thank-you"
    );
    let u = parse("x86_64-linux", None).unwrap();
    assert_ne!(t.otp_archive_name("27.2"), u.otp_archive_name("27.2"));
    assert_ne!(t.otp_archive_name("27.2"), t.otp_archive_name("27.3"));
}

#[test]
fn macos_archives_are_universal() {
    let t = parse("aarch64-macos", None).unwrap();
    let u = parse("x86_64-macos", None).unwrap();
    assert_eq!(t.otp_archive_name("27.2"), "otp_27.2_macos_universal.tar.gz");
    assert_eq!(
        t.otp_url("27.2"),
        "https://beam-machine-universal.b-cdn.net/OTP-27.2/macos/universal/otp_27.2_macos_universal.tar.gz?please-respect-my-bandwidth-costs=thank-you"
    );
    assert_eq!(t.otp_url("27.2"), u.otp_url("27.2"));
    assert_eq!(t.otp_archive_name("27.2"), u.otp_archive_name("27.2"));
}
