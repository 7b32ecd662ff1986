use panini::plan::{Action, Plan, Task};
use panini::process::{capture, copy_tree, fetch, make_dirs, sh, sh_env, Outcome};

fn exited(success: bool, status: &str, stdout: &str) -> Outcome {
    Outcome::Exited { success, status: status.to_string(), stdout: stdout.to_string() }
}

#[test]
fn a_run_says_what_where_and_with_which_programs() {
    let run = sh_env("gleam", vec!["export", "erlang-shipment"], Some("/p"), Some("/otp/bin"));
    assert_eq!(run.program, "gleam");
    assert_eq!(run.args, vec!["export".to_string(), "erlang-shipment".to_string()]);
    assert_eq!(run.cwd, Some("/p".to_string()));
    assert_eq!(run.extra_path, Some("/otp/bin".to_string()));
    let plain = sh("tar", vec![], None);
    assert_eq!((plain.cwd, plain.extra_path), (None, None));
}

#[test]
fn extra_programs_come_before_those_of_path() {
    let run = sh_env("gleam", vec![], None, Some("/otp/bin"));
    assert_eq!(run.search_path(Some("/usr/bin:/bin")), Some("/otp/bin:/usr/bin:/bin".to_string()));
    assert_eq!(run.search_path(None), Some("/otp/bin:".to_string()));
    assert_eq!(sh("gleam", vec![], None).search_path(Some("/usr/bin")), None);
}

#[test]
fn a_run_for_its_effect_must_succeed() {
    let run = sh("zig", vec!["build"], None);
    assert_eq!(run.effect(&exited(true, "exit status: 0", "x")), Ok(()));
    assert_eq!(
        run.effect(&exited(false, "exit status: 3", "")),
        Err("`zig` exited with exit status: 3".to_string())
    );
    assert_eq!(
        run.effect(&Outcome::NotStarted("No such file".to_string())),
        Err("failed to run `zig`: No such file (is it installed?)".to_string())
    );
}

#[test]
fn a_run_for_its_output_gives_it_trimmed() {
    let run = capture("zig", vec!["version"]);
    assert_eq!(run.output(&exited(true, "exit status: 0", " 0.16.0\n")), Ok("0.16.0".to_string()));
    assert_eq!(
        run.output(&exited(false, "exit status: 1", "0.16.0")),
        Err("`zig` exited with exit status: 1".to_string())
    );
    assert_eq!(
        run.output(&Outcome::NotStarted("No such file".to_string())),
        Err("failed to run `zig`: No such file".to_string())
    );
}

fn run_args(task: &Task) -> Vec<String> {
    match task {
        Task::Must { action: Action::Run(run), .. } => {
            let mut all = vec![run.program.clone()];
            all.extend(run.args.clone());
            all
        }
        _ => panic!("not a run"),
    }
}

fn words(v: &[&str]) -> Vec<String> {
    v.iter().map(|s| s.to_string()).collect()
}

#[test]
fn trees_are_copied_into_a_directory_that_is_made() {
    let plan = copy_tree("/otp/bin", "/p/payload/otp/bin");
    assert_eq!(plan.tasks.len(), 2);
    match &plan.tasks[0] {
        Task::Must { action: Action::MakeDirs(dir), prefix, suffix } => {
            assert_eq!(dir, "/p/payload/otp");
            assert_eq!(prefix, "mkdir /p/payload/otp: ");
            assert_eq!(suffix, "");
        }
        _ => panic!("no directory is made"),
    }
    assert_eq!(run_args(&plan.tasks[1]), words(&["cp", "-R", "/otp/bin", "/p/payload/otp/bin"]));
    assert_eq!(copy_tree("/x", "/").tasks.len(), 1);
}

#[test]
fn a_directory_that_cannot_be_made_is_named() {
    let mut plan = Plan::new();
    plan.add_task(make_dirs("/cache"));
    assert_eq!(
        plan.advance(0, Err("denied".to_string())),
        Err("mkdir /cache: denied".to_string())
    );
}

#[test]
fn files_are_fetched_beside_their_place() {
    let plan = fetch("fetching", "https://x/y.so", "/c/y.so", "failed: ", " (sorry)", "finalize: ");
    assert_eq!(
        run_args(&plan.tasks[1]),
        words(&["curl", "-fsSL", "--retry", "2", "-o", "/c/y.part", "https://x/y.so"])
    );
    match &plan.tasks[2] {
        Task::Must { action: Action::Rename { from, to }, prefix, .. } => {
            assert_eq!((from.as_str(), to.as_str()), ("/c/y.part", "/c/y.so"));
            assert_eq!(prefix, "finalize: ");
        }
        _ => panic!("nothing is moved"),
    }
    assert_eq!(plan.advance(1, Err("404".to_string())), Err("failed: 404 (sorry)".to_string()));
}
