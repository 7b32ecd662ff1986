use panini::apps::{needed_lib_apps, needed_names, newest_versioned_dir, parse_applications};
use panini::listing::Entry;

fn texts(v: &[&str]) -> Vec<String> {
    v.iter().map(|s| s.to_string()).collect()
}

fn entry(dir: &str, name: &str, is_dir: bool) -> Entry {
    Entry { path: format!("{dir}/{name}"), name: Some(name.to_string()), is_dir }
}

fn dirs(names: &[&str]) -> Vec<Entry> {
    names.iter().map(|n| entry("/otp/lib", n, true)).collect()
}

#[test]
fn applications_are_read_from_an_app_term() {
    assert_eq!(
        parse_applications(
            "{application, hello, [\n {applications, [gleam_stdlib,\n  'ssl', kernel ]},\n {modules, []}]}."
        ),
        texts(&["gleam_stdlib", "ssl", "kernel"])
    );
}

#[test]
fn only_the_applications_term_counts() {
    assert_eq!(
        parse_applications(
            "{application, a, [{included_applications, [x]}, {applications, [kernel]}]}."
        ),
        texts(&["kernel"])
    );
    assert_eq!(
        parse_applications(
            "{application, a, [{description, \"applications, [x]\"}, {optional_applications,[y]}, { applications\n , [kernel] }]}."
        ),
        texts(&["kernel"])
    );
}

#[test]
fn the_key_of_the_term_may_be_quoted() {
    assert_eq!(parse_applications("{'applications', [kernel]}"), texts(&["kernel"]));
    assert_eq!(parse_applications("{ 'applications' , ['ssl', kernel]}"), texts(&["ssl", "kernel"]));
    assert_eq!(
        parse_applications("{'included_applications', [x]}, {'applications', [kernel]}"),
        texts(&["kernel"])
    );
    assert_eq!(parse_applications("{'applications, [x]}, {applications', [y]}"), texts(&[]));
    assert_eq!(parse_applications("'applications', [x]"), texts(&[]));
}

#[test]
fn broken_app_terms_name_nothing() {
    assert_eq!(parse_applications(""), texts(&[]));
    assert_eq!(parse_applications("{application, hello}"), texts(&[]));
    assert_eq!(parse_applications("applications"), texts(&[]));
    assert_eq!(parse_applications("{applications"), texts(&[]));
    assert_eq!(parse_applications("{applications, kernel}"), texts(&[]));
    assert_eq!(parse_applications("{applications, [a, b"), texts(&[]));
    assert_eq!(parse_applications("{applications, [ , '' ]"), texts(&[]));
    assert_eq!(parse_applications("applications, [a]"), texts(&[]));
    assert_eq!(parse_applications("{applications [a]}"), texts(&[]));
}

#[test]
fn kernel_and_stdlib_are_always_needed() {
    assert_eq!(needed_names(&vec![]), texts(&["kernel", "stdlib"]));
}

#[test]
fn needed_names_are_listed_once_and_in_order() {
    let files = texts(&["{applications, [ssl, kernel]}", "{applications, [crypto, ssl]}", "junk"]);
    assert_eq!(needed_names(&files), texts(&["crypto", "kernel", "ssl", "stdlib"]));
}

#[test]
fn the_newest_version_of_an_app_is_taken() {
    let patched = dirs(&["ssl-9.6.2.3.2", "ssl-9.6.2.3.10", "ssl-9.6.2.3.9"]);
    assert_eq!(newest_versioned_dir(&patched, "ssl"), Some("/otp/lib/ssl-9.6.2.3.10".to_string()));
    let lib = dirs(&["kernel-9.2", "kernel-10.1", "kernel-9.10", "stdlib-6.0", "kernelx-99"]);
    assert_eq!(newest_versioned_dir(&lib, "kernel"), Some("/otp/lib/kernel-10.1".to_string()));
    assert_eq!(newest_versioned_dir(&lib, "stdlib"), Some("/otp/lib/stdlib-6.0".to_string()));
    assert_eq!(newest_versioned_dir(&lib, "crypto"), None);
}

#[test]
fn files_and_nameless_entries_are_no_versions() {
    let lib = vec![
        entry("/otp/lib", "kernel-10.1", false),
        Entry { path: "/otp/lib/kernel-10.2".to_string(), name: None, is_dir: true },
        entry("/otp/lib", "kernel-9.2", true),
    ];
    assert_eq!(newest_versioned_dir(&lib, "kernel"), Some("/otp/lib/kernel-9.2".to_string()));
}

#[test]
fn equal_versions_go_by_name() {
    let lib = dirs(&["kernel-9.2", "kernel-9.2.0"]);
    assert_eq!(newest_versioned_dir(&lib, "kernel"), Some("/otp/lib/kernel-9.2.0".to_string()));
    let back = dirs(&["kernel-9.2.0", "kernel-9.2"]);
    assert_eq!(newest_versioned_dir(&back, "kernel"), Some("/otp/lib/kernel-9.2.0".to_string()));
}

#[test]
fn only_needed_apps_with_a_directory_are_bundled() {
    let files = texts(&["{applications, [ssl, gleam_stdlib]}"]);
    let lib = Ok(dirs(&["stdlib-6.0", "ssl-11.1", "kernel-10.1", "wx-2.4"]));
    assert_eq!(
        needed_lib_apps(&files, &lib),
        texts(&["/otp/lib/kernel-10.1", "/otp/lib/ssl-11.1", "/otp/lib/stdlib-6.0"])
    );
    assert_eq!(needed_lib_apps(&files, &Err("denied".to_string())), texts(&[]));
}
