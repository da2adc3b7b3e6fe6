use irename::executor::{Action, Execution};
use irename::planner::{CollisionError, MovePair};

fn pair(source: &str, destination: &str) -> MovePair {
    MovePair { source: String::from(source), destination: String::from(destination) }
}

fn three_moves() -> Vec<MovePair> {
    vec![pair("/d/a", "/d/x"), pair("/d/b", "/d/y"), pair("/d/c", "/d/z")]
}

#[test]
fn a_colliding_plan_is_never_started() {
    let plan = vec![pair("/d/a.txt", "/d/x.txt"), pair("/d/b.txt", "/d/x.txt")];
    let refused = Execution::start(plan, false);
    assert_eq!(
        refused.err(),
        Some(CollisionError { first: 0, second: 1, destination: String::from("/d/x.txt") })
    );
}

#[test]
fn moves_are_made_in_plan_order() {
    let mut execution = Execution::start(three_moves(), false).ok().unwrap();
    assert_eq!(execution.completed(), 0);
    assert_eq!(execution.action(), Action::Rename(pair("/d/a", "/d/x")));
    assert_eq!(execution.action(), Action::Rename(pair("/d/a", "/d/x")));
    execution.report(true);
    assert_eq!(execution.action(), Action::Rename(pair("/d/b", "/d/y")));
    execution.report(true);
    assert_eq!(execution.action(), Action::Rename(pair("/d/c", "/d/z")));
    assert!(!execution.is_finished());
    execution.report(true);
    assert_eq!(execution.action(), Action::Finish);
    assert!(execution.is_finished());
    assert!(execution.succeeded());
    assert_eq!(execution.completed(), 3);
    execution.report(true);
    assert_eq!(execution.completed(), 3);
}

#[test]
fn a_failure_stops_the_run_and_undoes_nothing() {
    let mut execution = Execution::start(three_moves(), false).ok().unwrap();
    execution.report(true);
    assert_eq!(execution.action(), Action::Rename(pair("/d/b", "/d/y")));
    execution.report(false);
    assert_eq!(execution.action(), Action::Finish);
    assert!(execution.is_finished());
    assert!(!execution.succeeded());
    assert_eq!(execution.completed(), 1);
    execution.report(true);
    assert_eq!(execution.action(), Action::Finish);
    assert!(!execution.succeeded());
    assert_eq!(execution.completed(), 1);
}

#[test]
fn a_dry_run_prints_and_renames_nothing() {
    let mut execution = Execution::start(vec![pair("/d/a.txt", "/d/b.txt")], true).ok().unwrap();
    assert_eq!(execution.action(), Action::Print(String::from("mv /d/a.txt /d/b.txt")));
    execution.report(true);
    assert_eq!(execution.action(), Action::Finish);
    assert!(execution.succeeded());
}

#[test]
fn an_empty_plan_is_finished_at_once() {
    let execution = Execution::start(vec![], false).ok().unwrap();
    assert_eq!(execution.action(), Action::Finish);
    assert!(execution.succeeded());
    assert_eq!(execution.completed(), 0);
}
