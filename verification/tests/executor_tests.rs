// Tests of the schedule scenarios and the publish executor.

use parity_publish::apply::{
    create_dependency_aware_batches, CrateInfo, PublishExecutor, PublishOutcome,
};
use parity_publish::plan::{BumpKind, Publish};
use parity_publish::poll::{elapsed_after, poll_step, PollDecision};

fn entry(name: &str, deps: Vec<&str>) -> CrateInfo {
    CrateInfo {
        pkg: Publish {
            name: name.to_string(),
            from: "1.0.0".to_string(),
            to: "1.0.1".to_string(),
            bump: BumpKind::Patch,
            reason: None,
            publish: true,
            verify: true,
            rewrite_dep: vec![],
            remove_dep: vec![],
            remove_feature: vec![],
        },
        dependencies: deps.iter().map(|d| d.to_string()).collect(),
    }
}

fn names(batch: &Vec<CrateInfo>) -> Vec<String> {
    batch.iter().map(|c| c.pkg.name.clone()).collect()
}

#[test]
fn schedule_fan_out() {
    // packages {A (no deps), B (dep A), C (dep A)}, batch size 2:
    // schedule = [ {A}, {B, C} ]
    let items = vec![entry("A", vec![]), entry("B", vec!["A"]), entry("C", vec!["A"])];
    let batches = create_dependency_aware_batches(&items, 2);
    assert_eq!(batches.len(), 2);
    assert_eq!(names(&batches[0]), vec!["A"]);
    assert_eq!(names(&batches[1]), vec!["B", "C"]);
}

#[test]
fn schedule_linear_chain_serial() {
    // packages {A, B (dep A), C (dep B)}, batch size 1: strictly serial
    let items = vec![entry("A", vec![]), entry("B", vec!["A"]), entry("C", vec!["B"])];
    let batches = create_dependency_aware_batches(&items, 1);
    assert_eq!(batches.len(), 3);
    assert_eq!(names(&batches[0]), vec!["A"]);
    assert_eq!(names(&batches[1]), vec!["B"]);
    assert_eq!(names(&batches[2]), vec!["C"]);
}

fn outcome(name: &str, success: bool) -> PublishOutcome {
    PublishOutcome {
        name: name.to_string(),
        success,
        elapsed_secs: 1,
        error: if success {
            None
        } else {
            Some("the registry refused the upload".to_string())
        },
    }
}

#[test]
fn failed_publish_does_not_stop_the_run() {
    // A's publish fails; B and C, which depend on A, are still
    // dispatched, and the run exits nonzero reporting A as failed
    let items = vec![entry("A", vec![]), entry("B", vec!["A"]), entry("C", vec!["A"])];
    let schedule = create_dependency_aware_batches(&items, 2);
    let mut ex = PublishExecutor::new(schedule);

    assert!(!ex.finished());
    assert_eq!(ex.next_batch_names(), vec!["A"]);
    ex.record_batch(vec![outcome("A", false)]);

    // optimistic continuation: the next batch is still dispatched
    assert!(!ex.finished());
    assert_eq!(ex.next_batch_names(), vec!["B", "C"]);
    ex.record_batch(vec![outcome("B", true), outcome("C", true)]);
    assert!(ex.finished());

    assert_eq!(ex.exit_code(), 1);
    assert_eq!(ex.published_count(), 2);
    let failed = ex.failed();
    assert_eq!(failed.len(), 1);
    assert_eq!(failed[0].name, "A");
}

#[test]
fn poll_timeout_never_fails_the_run() {
    // A publishes but the registry does not show it in time; the poller
    // logs a timeout, B and C are dispatched anyway, and the run still
    // exits zero
    let items = vec![entry("A", vec![]), entry("B", vec!["A"]), entry("C", vec!["A"])];
    let schedule = create_dependency_aware_batches(&items, 2);
    let mut ex = PublishExecutor::new(schedule);

    ex.record_batch(vec![outcome("A", true)]);

    let mut elapsed = 0;
    let mut rounds = 0;
    loop {
        match poll_step(false, elapsed, 60) {
            PollDecision::Retry => {
                rounds += 1;
                elapsed = elapsed_after(rounds, 5);
            }
            PollDecision::TimedOut => {
                ex.record_poll_timeout("A".to_string());
                break;
            }
            PollDecision::Confirmed => panic!("the registry never showed the version"),
        }
    }
    assert_eq!(rounds, 12);

    assert!(!ex.finished());
    assert_eq!(ex.next_batch_names(), vec!["B", "C"]);
    ex.record_batch(vec![outcome("B", true), outcome("C", true)]);

    assert_eq!(ex.exit_code(), 0);
    assert_eq!(ex.poll_warnings.len(), 1);
}

#[test]
fn poll_confirms_immediately() {
    assert_eq!(poll_step(true, 0, 60), PollDecision::Confirmed);
    assert_eq!(poll_step(true, 120, 60), PollDecision::Confirmed);
    assert_eq!(poll_step(false, 0, 60), PollDecision::Retry);
    assert_eq!(poll_step(false, 60, 60), PollDecision::TimedOut);
}

#[test]
fn successful_run_exits_zero() {
    let items = vec![entry("A", vec![])];
    let schedule = create_dependency_aware_batches(&items, 10);
    let mut ex = PublishExecutor::new(schedule);
    ex.record_batch(vec![outcome("A", true)]);
    assert!(ex.finished());
    assert_eq!(ex.exit_code(), 0);
    assert_eq!(ex.published_count(), 1);
    assert!(ex.failed().is_empty());
}

#[test]
fn unbounded_batch_size_layers() {
    // size zero means no size limit: one batch per dependency layer
    let items = vec![
        entry("a", vec![]),
        entry("b", vec![]),
        entry("c", vec!["a", "b"]),
        entry("d", vec!["a"]),
    ];
    let batches = create_dependency_aware_batches(&items, 0);
    assert_eq!(batches.len(), 2);
    assert_eq!(names(&batches[0]), vec!["a", "b"]);
    assert_eq!(names(&batches[1]), vec!["c", "d"]);
}
