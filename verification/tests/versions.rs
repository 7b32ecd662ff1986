use panini::versions::{
    available_versions, cmp_version, extract_otp_versions, is_older, list_versions,
    sort_newest_first, tags_query,
};
use std::cmp::Ordering;

fn texts(v: &[&str]) -> Vec<String> {
    v.iter().map(|s| s.to_string()).collect()
}

fn by_components(a: &str, b: &str) -> Ordering {
    let key = |v: &str| -> Vec<u32> {
        let mut k: Vec<u32> = v.split('.').map(|n| n.parse::<u32>().unwrap_or(0)).collect();
        k.resize(10, 0);
        k
    };
    key(a).cmp(&key(b))
}

#[test]
fn versions_are_compared_number_by_number() {
    let samples = [
        "27.2", "27.10", "27", "27.0", "27.0.0.0", "27.0.0.0.9", "26.2.5.1", "25.3", "", "x", "27.x",
        "+27", "027", "4294967295", "4294967296", "27.-1", "9.9.9.9.9",
        "22.3.4.12.1", "22.3.4.12.2", "22.3.4.12",
    ];
    for a in samples {
        for b in samples {
            assert_eq!(cmp_version(a, b), by_components(a, b), "{a} {b}");
            assert_eq!(is_older(a, b), by_components(a, b) == Ordering::Less);
        }
    }
}

#[test]
fn trailing_zeros_make_no_difference() {
    assert_eq!(cmp_version("27", "27.0"), Ordering::Equal);
    assert_eq!(cmp_version("27.2", "27.2.0.0"), Ordering::Equal);
}

#[test]
fn every_number_is_compared() {
    assert_eq!(cmp_version("22.3.4.12.1", "22.3.4.12.2"), Ordering::Less);
    assert_eq!(cmp_version("1.2.3.4.5.6.10", "1.2.3.4.5.6.9"), Ordering::Greater);
    assert_eq!(cmp_version("1.2.3.4.0.0", "1.2.3.4"), Ordering::Equal);
    assert_eq!(
        sort_newest_first(texts(&["22.3.4.12.1", "22.3.4.12.10", "22.3.4.12.2"])),
        texts(&["22.3.4.12.10", "22.3.4.12.2", "22.3.4.12.1"])
    );
}

#[test]
fn sorting_puts_the_newest_first_and_is_stable() {
    let sorted = sort_newest_first(texts(&["26.2", "27.10", "27", "27.2", "27.0", "25.3"]));
    assert_eq!(sorted, texts(&["27.10", "27.2", "27", "27.0", "26.2", "25.3"]));
    assert_eq!(sort_newest_first(vec![]), texts(&[]));
}

#[test]
fn tags_are_extracted() {
    assert_eq!(
        extract_otp_versions("{\"name\":\"OTP-27.2\"},{\"name\":\"OTP-26.2.5\"}"),
        texts(&["27.2", "26.2.5"])
    );
}

#[test]
fn tags_without_a_dot_or_of_old_are_passed_over() {
    assert_eq!(extract_otp_versions("OTP-27 OTP-R16B03 OTP-.1 OTP-27. OTP-27.1"), texts(&["27.1"]));
    assert_eq!(extract_otp_versions("OTP-"), texts(&[]));
    assert_eq!(extract_otp_versions(""), texts(&[]));
    assert_eq!(extract_otp_versions("🥪OTP-25.3🥪"), texts(&["25.3"]));
    assert_eq!(extract_otp_versions("OTP-OTP-26.1"), texts(&["26.1"]));
}

#[test]
fn release_candidates_keep_their_number() {
    assert_eq!(extract_otp_versions("OTP-28.0-rc1"), texts(&["28.0"]));
}

#[test]
fn only_precompiled_versions_are_available() {
    assert_eq!(
        available_versions("OTP-25.2 OTP-25.3 OTP-27.2 OTP-24.9 OTP-27.2 OTP-26.1"),
        texts(&["27.2", "26.1", "25.3"])
    );
}

#[test]
fn versions_are_listed_five_a_line() {
    let shown = list_versions("OTP-25.3 OTP-26.0 OTP-26.1 OTP-26.2 OTP-27.0 OTP-27.1");
    assert_eq!(
        shown,
        "OTP versions available via --otp (newest first):\n\n  27.1        27.0        26.2        26.1        26.0      \n  25.3      \n\n  precompiled runtimes: https://github.com/erlef/otp_builds  (macOS builds are universal)\n  usage: panini build --otp <version> [--target <t>]\n"
    );
    let full = list_versions("OTP-26.0 OTP-26.1 OTP-26.2 OTP-27.0 OTP-27.1");
    assert_eq!(
        full,
        "OTP versions available via --otp (newest first):\n\n  27.1        27.0        26.2        26.1        26.0      \n\n  precompiled runtimes: https://github.com/erlef/otp_builds  (macOS builds are universal)\n  usage: panini build --otp <version> [--target <t>]\n"
    );
}

#[test]
fn tags_are_asked_for_with_a_token_if_there_is_one() {
    let plain = tags_query(None);
    assert_eq!(plain.program, "curl");
    assert_eq!(
        plain.args,
        texts(&[
            "-fsSL",
            "https://api.github.com/repos/erlang/otp/tags?per_page=100",
            "-H",
            "Accept: application/vnd.github+json"
        ])
    );
    assert_eq!(tags_query(Some("")).args, plain.args);
    let with = tags_query(Some("t0k"));
    assert_eq!(with.args[..4], plain.args[..]);
    assert_eq!(with.args[4..], texts(&["-H", "Authorization: Bearer t0k"])[..]);
}
