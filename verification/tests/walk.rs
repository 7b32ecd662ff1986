use panini::listing::{Entry, Listing};
use panini::walk::Walk;

fn entry(dir: &str, name: &str, is_dir: bool) -> Entry {
    Entry { path: format!("{dir}/{name}"), name: Some(name.to_string()), is_dir }
}

fn held(dir: &str) -> Listing {
    match dir {
        "/s" => Ok(vec![
            entry("/s", "a", true),
            entry("/s", "b", true),
            entry("/s", "x.app", false),
            entry("/s", ".app", false),
            entry("/s", "x.appx", false),
        ]),
        "/s/a" => Err("denied".to_string()),
        "/s/b" => Ok(vec![
            entry("/s/b", "y.app", false),
            entry("/s/b", "z.app", true),
            Entry { path: "/s/b/\u{fffd}.app".to_string(), name: None, is_dir: false },
        ]),
        _ => Ok(vec![]),
    }
}

fn walk(dir: &str) -> (Vec<String>, Vec<String>) {
    let mut walk = Walk::starting_at(dir);
    let mut visited = vec![];
    while let Some(dir) = walk.next_dir() {
        walk.visit(&held(&dir));
        visited.push(dir);
    }
    (visited, walk.found)
}

#[test]
fn app_files_are_found_in_all_directories() {
    let (visited, found) = walk("/s");
    assert_eq!(visited, vec!["/s", "/s/b", "/s/b/z.app", "/s/a"]);
    assert_eq!(found, vec!["/s/x.app", "/s/b/y.app", "/s/b/\u{fffd}.app"]);
}

#[test]
fn each_file_is_found_once() {
    let (_, mut found) = walk("/s");
    let n = found.len();
    found.sort();
    found.dedup();
    assert_eq!(found.len(), n);
}

#[test]
fn a_directory_that_cannot_be_read_holds_nothing() {
    assert_eq!(walk("/s/a"), (vec!["/s/a".to_string()], vec![]));
}
