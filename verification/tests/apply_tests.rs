// Tests of the schedule entry type and the filtering around it.

use parity_publish::apply::CrateInfo;
use parity_publish::plan::{BumpKind, Publish};

fn create_mock_crate(name: &str) -> Publish {
    Publish {
        name: name.to_string(),
        from: "1.0.0".to_string(),
        to: "1.0.0".to_string(),
        bump: BumpKind::Unchanged,
        reason: None,
        publish: true,
        verify: true,
        rewrite_dep: vec![],
        remove_dep: vec![],
        remove_feature: vec![],
    }
}

#[test]
fn test_crate_info_structure() {
    let pkg = create_mock_crate("test-crate");
    let crate_info = CrateInfo {
        pkg,
        dependencies: vec!["dep1".to_string(), "dep2".to_string()],
    };

    assert_eq!(crate_info.pkg.name, "test-crate");
    assert_eq!(crate_info.dependencies.len(), 2);
    assert_eq!(crate_info.dependencies[0], "dep1");
    assert_eq!(crate_info.dependencies[1], "dep2");
}

#[test]
fn apply_test_dependency_aware_batching_logic() {
    let crates = vec![
        create_mock_crate("crate-a"),
        create_mock_crate("crate-b"),
        create_mock_crate("crate-c"),
    ];

    let crates_refs: Vec<&Publish> = crates.iter().collect();

    assert_eq!(crates_refs.len(), 3);
    assert_eq!(crates_refs[0].name, "crate-a");
    assert_eq!(crates_refs[1].name, "crate-b");
    assert_eq!(crates_refs[2].name, "crate-c");
}

#[test]
fn test_batch_size_calculation() {
    let total_crates = 25;
    let batch_size = 10;
    let expected_batches = (total_crates + batch_size - 1) / batch_size;

    assert_eq!(expected_batches, 3);
}

#[test]
fn test_concurrent_settings() {
    let max_concurrent = 3;
    let batch_size = 10;

    assert!(
        max_concurrent <= batch_size,
        "Concurrent should not exceed batch size for efficiency"
    );
    assert!(max_concurrent > 0, "Concurrent should be positive");
    assert!(batch_size > 0, "Batch size should be positive");
}

#[test]
fn test_delay_calculation() {
    let delay_seconds = 120;
    let delay = std::time::Duration::from_secs(delay_seconds);

    assert_eq!(delay.as_secs(), 120);
    assert!(delay > std::time::Duration::from_secs(0));
}

#[test]
fn test_crate_filtering() {
    let crates = vec![
        create_mock_crate("crate-a"),
        create_mock_crate("crate-b"),
        create_mock_crate("crate-c"),
    ];

    let publishable_crates: Vec<&Publish> = crates.iter().filter(|c| c.publish).collect();

    assert_eq!(publishable_crates.len(), 3);
    assert!(publishable_crates.iter().all(|c| c.publish));
}

#[test]
fn test_error_handling() {
    let empty_crates: Vec<&Publish> = vec![];

    assert_eq!(empty_crates.len(), 0);

    let empty_batch: Vec<CrateInfo> = vec![];
    assert_eq!(empty_batch.len(), 0);
}

#[test]
fn test_batch_creation_edge_cases() {
    let single_crate = vec![create_mock_crate("single")];
    assert_eq!(single_crate.len(), 1);

    let many_crates: Vec<Publish> = (0..100)
        .map(|i| create_mock_crate(&format!("crate-{}", i)))
        .collect();
    assert_eq!(many_crates.len(), 100);

    let zero_crates: Vec<Publish> = vec![];
    assert_eq!(zero_crates.len(), 0);
}
