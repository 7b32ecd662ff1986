use panini::path::{base_name, display_run, join, parent, with_extension};
use std::path::Path;

const PATHS: [&str; 19] = [
    "a", "a/b", "/a/b", "/a", "a/", "a//b", "/", "out.tar.gz", "x/.hidden", "x/.hidden.gz", "a/b.c/d",
    "dir.d/file", "zig-0.16.0.tar.xz", "a/b//",
    "", "a/./", "x/y/.", "./a", "b./",
];

#[test]
fn joining_is_that_of_paths() {
    for a in PATHS {
        for b in ["b", "b/c", "/abs"] {
            assert_eq!(join(a, b), Path::new(a).join(b).to_str().unwrap(), "{a} {b}");
        }
    }
    assert_eq!(join("", "b"), "b");
}

#[test]
fn parents_are_those_of_paths() {
    for p in PATHS {
        let expected = Path::new(p).parent().map(|q| q.to_str().unwrap().to_string());
        assert_eq!(parent(p), expected, "{p}");
    }
}

#[test]
fn last_components_are_those_of_paths() {
    for p in PATHS {
        let expected = Path::new(p).file_name().map(|n| n.to_str().unwrap()).unwrap_or("");
        assert_eq!(base_name(p), expected, "{p}");
    }
}

#[test]
fn extensions_are_replaced_as_in_paths() {
    for p in [".", "..", "a/.."] {
        assert_eq!(with_extension(p, "part"), p);
    }
    for p in PATHS {
        let expected = Path::new(p).with_extension("part");
        assert_eq!(with_extension(p, "part"), expected.to_str().unwrap(), "{p}");
    }
}

#[test]
fn bare_name_is_run_from_here() {
    assert_eq!(display_run("hello"), "./hello");
    assert_eq!(display_run("out/hello"), "out/hello");
    assert_eq!(display_run("/abs/hello"), "/abs/hello");
    assert_eq!(display_run("./hello"), "./hello");
}
