use panini::plan::{Action, Plan, Task};

fn sample() -> Plan {
    let mut plan = Plan::new();
    plan.add_try(Action::Say("hello".to_string()));
    plan.add_task(Task::SkipIfExists { path: "/cached".to_string(), count: 1 });
    plan.add_must(Action::MakeDirs("/cached".to_string()), "mkdir: ".to_string());
    plan.add_task(Task::Require {
        path: "/cached".to_string(),
        directory: true,
        message: "nothing there".to_string(),
    });
    plan
}

fn walk(plan: &Plan, replies: &[Result<bool, &str>]) -> (Vec<usize>, Result<(), String>) {
    let mut done = vec![];
    let mut at = 0;
    while at < plan.tasks.len() {
        done.push(at);
        match plan.advance(at, replies[at].map_err(|e| e.to_string())) {
            Ok(next) => at = next,
            Err(e) => return (done, Err(e)),
        }
    }
    (done, Ok(()))
}

#[test]
fn tasks_are_done_one_after_the_other() {
    let replies = [Ok(true), Ok(false), Ok(true), Ok(true)];
    assert_eq!(walk(&sample(), &replies), (vec![0, 1, 2, 3], Ok(())));
}

#[test]
fn what_may_fail_does_not_stop_a_plan() {
    let replies = [Err("broken pipe"), Ok(false), Ok(true), Ok(true)];
    assert_eq!(walk(&sample(), &replies), (vec![0, 1, 2, 3], Ok(())));
}

#[test]
fn what_must_work_stops_a_plan() {
    let replies = [Ok(true), Ok(false), Err("denied"), Ok(true)];
    assert_eq!(walk(&sample(), &replies), (vec![0, 1, 2], Err("mkdir: denied".to_string())));
}

#[test]
fn what_is_there_already_is_skipped() {
    let replies = [Ok(true), Ok(true), Err("unused"), Ok(true)];
    assert_eq!(walk(&sample(), &replies), (vec![0, 1, 3], Ok(())));
}

#[test]
fn what_is_required_must_be_there() {
    for missing in [Ok(false), Err("denied")] {
        let replies = [Ok(true), Ok(true), Ok(true), missing];
        assert_eq!(walk(&sample(), &replies), (vec![0, 1, 3], Err("nothing there".to_string())));
    }
}

#[test]
fn skipping_stops_at_the_end() {
    let mut plan = Plan::new();
    plan.add_task(Task::SkipIfExists { path: "/x".to_string(), count: usize::MAX });
    plan.add_all(sample());
    assert_eq!(plan.tasks.len(), 5);
    assert_eq!(plan.advance(0, Ok(true)), Ok(5));
}
