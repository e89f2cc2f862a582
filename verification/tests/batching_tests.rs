// Tests of dependency-aware batching, run against the library's
// scheduler.

use parity_publish::apply::{create_dependency_aware_batches, CrateInfo};
use parity_publish::plan::{BumpKind, Publish};
use std::collections::{HashMap, HashSet};
use std::time::Instant;

#[derive(Debug, Clone, PartialEq)]
struct MockCrate {
    name: String,
    version: String,
    dependencies: Vec<String>,
    publish: bool,
}

impl MockCrate {
    fn new(name: &str, version: &str) -> Self {
        Self {
            name: name.to_string(),
            version: version.to_string(),
            dependencies: vec![],
            publish: true,
        }
    }

    fn with_dependencies(mut self, deps: Vec<&str>) -> Self {
        self.dependencies = deps.iter().map(|s| s.to_string()).collect();
        self
    }

    fn with_publish(mut self, publish: bool) -> Self {
        self.publish = publish;
        self
    }
}

#[derive(Debug)]
struct MockWorkspace {
    crates: HashMap<String, MockCrate>,
}

impl MockWorkspace {
    fn new() -> Self {
        Self {
            crates: HashMap::new(),
        }
    }

    fn add_crate(&mut self, crate_info: MockCrate) {
        self.crates.insert(crate_info.name.clone(), crate_info);
    }

    fn get_crate(&self, name: &str) -> Option<&MockCrate> {
        self.crates.get(name)
    }

    fn get_dependencies(&self, crate_name: &str) -> Vec<String> {
        self.crates
            .get(crate_name)
            .map(|c| c.dependencies.clone())
            .unwrap_or_default()
    }
}

fn scenario_simple_no_deps() -> Vec<MockCrate> {
    vec![
        MockCrate::new("crate-a", "1.0.0"),
        MockCrate::new("crate-b", "1.0.0"),
        MockCrate::new("crate-c", "1.0.0"),
    ]
}

fn scenario_linear_chain() -> Vec<MockCrate> {
    vec![
        MockCrate::new("crate-a", "1.0.0"),
        MockCrate::new("crate-b", "1.0.0").with_dependencies(vec!["crate-a"]),
        MockCrate::new("crate-c", "1.0.0").with_dependencies(vec!["crate-b"]),
    ]
}

fn scenario_diamond_deps() -> Vec<MockCrate> {
    vec![
        MockCrate::new("crate-a", "1.0.0"),
        MockCrate::new("crate-b", "1.0.0").with_dependencies(vec!["crate-a"]),
        MockCrate::new("crate-c", "1.0.0").with_dependencies(vec!["crate-a"]),
        MockCrate::new("crate-d", "1.0.0").with_dependencies(vec!["crate-b", "crate-c"]),
    ]
}

fn scenario_complex_deps() -> Vec<MockCrate> {
    vec![
        MockCrate::new("crate-base", "1.0.0"),
        MockCrate::new("crate-utils", "1.0.0").with_dependencies(vec!["crate-base"]),
        MockCrate::new("crate-core", "1.0.0").with_dependencies(vec!["crate-base"]),
        MockCrate::new("crate-feature1", "1.0.0").with_dependencies(vec!["crate-core"]),
        MockCrate::new("crate-feature2", "1.0.0").with_dependencies(vec!["crate-core"]),
        MockCrate::new("crate-app", "1.0.0")
            .with_dependencies(vec!["crate-utils", "crate-feature1", "crate-feature2"]),
    ]
}

fn scenario_large(size: usize) -> Vec<MockCrate> {
    let mut crates = Vec::with_capacity(size);

    for i in 0..(size / 4) {
        crates.push(MockCrate::new(&format!("crate-base-{}", i), "1.0.0"));
    }

    for i in 0..(size / 2) {
        let base_idx = i % (size / 4);
        crates.push(
            MockCrate::new(&format!("crate-mid-{}", i), "1.0.0")
                .with_dependencies(vec![&format!("crate-base-{}", base_idx)]),
        );
    }

    for i in 0..(size / 4) {
        let mid_idx = i % (size / 2);
        crates.push(
            MockCrate::new(&format!("crate-top-{}", i), "1.0.0")
                .with_dependencies(vec![&format!("crate-mid-{}", mid_idx)]),
        );
    }

    crates
}

fn to_items(crates: &[MockCrate]) -> Vec<CrateInfo> {
    crates
        .iter()
        .map(|c| CrateInfo {
            pkg: Publish {
                name: c.name.clone(),
                from: c.version.clone(),
                to: c.version.clone(),
                bump: BumpKind::Unchanged,
                reason: None,
                publish: c.publish,
                verify: true,
                rewrite_dep: vec![],
                remove_dep: vec![],
                remove_feature: vec![],
            },
            dependencies: c.dependencies.clone(),
        })
        .collect()
}

fn run_batching(crates: &[MockCrate], target_batch_size: usize) -> Vec<Vec<CrateInfo>> {
    create_dependency_aware_batches(&to_items(crates), target_batch_size)
}

fn assert_dependency_order(batches: &[Vec<CrateInfo>]) {
    let mut processed = HashSet::new();

    for (batch_idx, batch) in batches.iter().enumerate() {
        for crate_info in batch {
            for dep in &crate_info.dependencies {
                assert!(
                    processed.contains(dep),
                    "Crate {} in batch {} depends on {} which hasn't been processed yet",
                    crate_info.pkg.name,
                    batch_idx,
                    dep
                );
            }
        }

        for crate_info in batch {
            processed.insert(crate_info.pkg.name.clone());
        }
    }
}

fn assert_all_crates_included(original_crates: &[MockCrate], batches: &[Vec<CrateInfo>]) {
    let mut found_crates = HashSet::new();

    for batch in batches {
        for crate_info in batch {
            found_crates.insert(crate_info.pkg.name.clone());
        }
    }

    let original_names: HashSet<_> = original_crates.iter().map(|c| c.name.clone()).collect();

    assert_eq!(
        found_crates, original_names,
        "Not all crates were included in batches"
    );
}

fn assert_batch_size_bounds(batches: &[Vec<CrateInfo>], target_size: usize) {
    for (batch_idx, batch) in batches.iter().enumerate() {
        assert!(
            batch.len() <= target_size * 2,
            "Batch {} has {} crates, which is too large for target size {}",
            batch_idx,
            batch.len(),
            target_size
        );

        if !batch.is_empty() {
            assert!(batch.len() >= 1, "Batch {} is empty, which is not allowed", batch_idx);
        }
    }
}

#[test]
fn test_dependency_aware_batching_core() {
    let crates = scenario_linear_chain();
    let batches = run_batching(&crates, 2);

    assert_eq!(batches.len(), 3);

    assert_eq!(batches[0].len(), 1);
    assert_eq!(batches[0][0].pkg.name, "crate-a");

    assert_eq!(batches[1].len(), 1);
    assert_eq!(batches[1][0].pkg.name, "crate-b");

    assert_eq!(batches[2].len(), 1);
    assert_eq!(batches[2][0].pkg.name, "crate-c");

    assert_dependency_order(&batches);
    assert_all_crates_included(&crates, &batches);
}

#[test]
fn test_dependency_aware_batching_diamond() {
    let crates = scenario_diamond_deps();
    let batches = run_batching(&crates, 2);

    assert!(batches.len() >= 3);

    assert_eq!(batches[0].len(), 1);
    assert_eq!(batches[0][0].pkg.name, "crate-a");

    assert_eq!(batches[1].len(), 2);
    assert!(batches[1].iter().any(|c| c.pkg.name == "crate-b"));
    assert!(batches[1].iter().any(|c| c.pkg.name == "crate-c"));

    assert_eq!(batches[2].len(), 1);
    assert_eq!(batches[2][0].pkg.name, "crate-d");

    assert_dependency_order(&batches);
    assert_all_crates_included(&crates, &batches);
}

#[test]
fn test_dependency_aware_batching_complex() {
    let crates = scenario_complex_deps();
    let batches = run_batching(&crates, 3);

    assert!(batches.len() >= 3);

    assert_eq!(batches[0].len(), 1);
    assert_eq!(batches[0][0].pkg.name, "crate-base");

    assert_dependency_order(&batches);
    assert_all_crates_included(&crates, &batches);
    assert_batch_size_bounds(&batches, 3);
}

#[test]
fn test_dependency_aware_batching_no_deps() {
    let crates = scenario_simple_no_deps();
    let batches = run_batching(&crates, 2);

    assert_eq!(batches.len(), 2);
    assert_eq!(batches[0].len(), 2);
    assert_eq!(batches[1].len(), 1);

    assert_all_crates_included(&crates, &batches);
}

#[test]
fn test_dependency_aware_batching_empty_input() {
    let crates: Vec<MockCrate> = vec![];
    let batches = run_batching(&crates, 5);

    assert_eq!(batches.len(), 0);
}

#[test]
fn test_dependency_aware_batching_single_crate() {
    let crates = vec![MockCrate::new("single-crate", "1.0.0")];
    let batches = run_batching(&crates, 5);

    assert_eq!(batches.len(), 1);
    assert_eq!(batches[0].len(), 1);
    assert_eq!(batches[0][0].pkg.name, "single-crate");
}

#[test]
fn test_dependency_aware_batching_large_batch_size() {
    let crates = scenario_simple_no_deps();
    let batches = run_batching(&crates, 10);

    assert_eq!(batches.len(), 1);
    assert_eq!(batches[0].len(), 3);
}

#[test]
fn test_dependency_aware_batching_performance() {
    let scenarios = vec![
        ("small", scenario_simple_no_deps()),
        ("linear", scenario_linear_chain()),
        ("diamond", scenario_diamond_deps()),
        ("complex", scenario_complex_deps()),
        ("large", scenario_large(100)),
    ];

    for (name, crates) in scenarios {
        let start = Instant::now();
        let batches = run_batching(&crates, 10);
        let duration = start.elapsed();
        println!(
            "scenario {}: {} crates -> {} batches in {:?}",
            name,
            crates.len(),
            batches.len(),
            duration
        );
    }
}

#[test]
fn test_dependency_aware_batching_edge_cases() {
    let crates = vec![
        MockCrate::new("crate-a", "1.0.0").with_dependencies(vec!["crate-b"]),
        MockCrate::new("crate-b", "1.0.0").with_dependencies(vec!["crate-a"]),
    ];

    let batches = run_batching(&crates, 2);

    assert!(batches.len() > 0);

    let crates = vec![MockCrate::new("crate-self", "1.0.0").with_dependencies(vec!["crate-self"])];

    let batches = run_batching(&crates, 1);
    assert_eq!(batches.len(), 1);
    assert_eq!(batches[0].len(), 1);
}

#[test]
fn test_dependency_aware_batching_mixed_publish_flags() {
    let crates = vec![
        MockCrate::new("crate-a", "1.0.0").with_publish(true),
        MockCrate::new("crate-b", "1.0.0").with_publish(false),
        MockCrate::new("crate-c", "1.0.0").with_publish(true),
    ];

    let publishable_crates: Vec<&MockCrate> = crates.iter().filter(|c| c.publish).collect();
    assert_eq!(publishable_crates.len(), 2);

    let owned_crates: Vec<MockCrate> = publishable_crates.iter().map(|c| (*c).clone()).collect();
    let batches = run_batching(&owned_crates, 2);
    assert_eq!(batches.len(), 1);
    assert_eq!(batches[0].len(), 2);
}

#[test]
fn test_mock_workspace() {
    let mut workspace = MockWorkspace::new();

    let crate_a = MockCrate::new("crate-a", "1.0.0");
    let crate_b = MockCrate::new("crate-b", "1.0.0").with_dependencies(vec!["crate-a"]);

    workspace.add_crate(crate_a.clone());
    workspace.add_crate(crate_b.clone());

    assert_eq!(workspace.get_crate("crate-a"), Some(&crate_a));
    assert_eq!(workspace.get_crate("crate-b"), Some(&crate_b));
    assert_eq!(workspace.get_crate("crate-c"), None);

    assert_eq!(workspace.get_dependencies("crate-a"), Vec::<String>::new());
    assert_eq!(
        workspace.get_dependencies("crate-b"),
        vec!["crate-a".to_string()]
    );
}

#[test]
fn test_mock_crate_builder() {
    let crate_info = MockCrate::new("test-crate", "1.0.0")
        .with_dependencies(vec!["dep1", "dep2"])
        .with_publish(false);

    assert_eq!(crate_info.name, "test-crate");
    assert_eq!(crate_info.version, "1.0.0");
    assert_eq!(
        crate_info.dependencies,
        vec!["dep1".to_string(), "dep2".to_string()]
    );
    assert_eq!(crate_info.publish, false);
}

#[test]
fn batching_preserves_input_order() {
    // the concatenation of the batches is exactly the input list
    let crates = scenario_complex_deps();
    let batches = run_batching(&crates, 2);
    let flattened: Vec<String> = batches
        .iter()
        .flat_map(|b| b.iter().map(|c| c.pkg.name.clone()))
        .collect();
    let input: Vec<String> = crates.iter().map(|c| c.name.clone()).collect();
    assert_eq!(flattened, input);
}
