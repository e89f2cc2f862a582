// Integration tests for the release-planning library.

use parity_publish::plan::BumpKind;

#[derive(Debug, PartialEq)]
struct TestPublish {
    name: String,
    from: String,
    to: String,
    bump: TestBumpKind,
    reason: Option<String>,
    publish: bool,
    verify: bool,
}

#[derive(Debug, PartialEq)]
enum TestBumpKind {
    Unchanged,
    Patch,
}

fn parse_bump(s: &str) -> Result<BumpKind, String> {
    match s.to_lowercase().as_str() {
        "none" => Ok(BumpKind::Unchanged),
        "patch" => Ok(BumpKind::Patch),
        "minor" => Ok(BumpKind::Minor),
        "major" => Ok(BumpKind::Major),
        _ => Err(format!("Unknown bump kind: {}", s)),
    }
}

#[test]
fn test_bump_kind_parsing() {
    assert_eq!(parse_bump("none").unwrap(), BumpKind::Unchanged);
    assert_eq!(parse_bump("patch").unwrap(), BumpKind::Patch);
    assert_eq!(parse_bump("minor").unwrap(), BumpKind::Minor);
    assert_eq!(parse_bump("major").unwrap(), BumpKind::Major);
}

#[test]
fn test_publish_struct_creation() {
    let publish = TestPublish {
        name: "test-crate".to_string(),
        from: "1.0.0".to_string(),
        to: "1.0.1".to_string(),
        bump: TestBumpKind::Patch,
        reason: Some("Bug fix".to_string()),
        publish: true,
        verify: true,
    };

    assert_eq!(publish.name, "test-crate");
    assert_eq!(publish.from, "1.0.0");
    assert_eq!(publish.to, "1.0.1");
    assert_eq!(publish.bump, TestBumpKind::Patch);
    assert_eq!(publish.reason, Some("Bug fix".to_string()));
    assert!(publish.publish);
    assert!(publish.verify);
}

#[test]
fn test_concurrent_settings_validation() {
    let test_cases = vec![
        (1, 1, true),
        (3, 10, true),
        (5, 5, true),
        (10, 5, false),
    ];

    for (concurrent, batch_size, should_be_valid) in test_cases {
        let is_valid = concurrent <= batch_size;
        assert_eq!(
            is_valid, should_be_valid,
            "Concurrent {} vs batch size {} should be valid: {}",
            concurrent, batch_size, should_be_valid
        );
    }
}

#[test]
fn test_batch_delay_calculation() {
    let delays = vec![60, 120, 300, 600];

    for delay_seconds in delays {
        let delay = std::time::Duration::from_secs(delay_seconds);
        assert_eq!(delay.as_secs(), delay_seconds);
        assert!(delay > std::time::Duration::from_secs(0));

        assert!(
            delay >= std::time::Duration::from_secs(30),
            "Delay {} seconds is too short",
            delay_seconds
        );
        assert!(
            delay <= std::time::Duration::from_secs(3600),
            "Delay {} seconds is too long",
            delay_seconds
        );
    }
}

#[derive(Debug, PartialEq)]
struct FilterPublish {
    name: String,
    from: String,
    to: String,
    bump: TestBumpKind,
    reason: Option<String>,
    publish: bool,
    verify: bool,
}

#[test]
fn test_crate_filtering_logic() {
    let crates = vec![
        FilterPublish {
            name: "crate-a".to_string(),
            from: "1.0.0".to_string(),
            to: "1.0.1".to_string(),
            bump: TestBumpKind::Patch,
            reason: None,
            publish: true,
            verify: true,
        },
        FilterPublish {
            name: "crate-b".to_string(),
            from: "1.0.0".to_string(),
            to: "1.0.1".to_string(),
            bump: TestBumpKind::Patch,
            reason: None,
            publish: false,
            verify: true,
        },
        FilterPublish {
            name: "crate-c".to_string(),
            from: "1.0.0".to_string(),
            to: "1.0.1".to_string(),
            bump: TestBumpKind::Patch,
            reason: None,
            publish: true,
            verify: true,
        },
    ];

    let publishable_crates: Vec<&FilterPublish> = crates.iter().filter(|c| c.publish).collect();

    assert_eq!(publishable_crates.len(), 2);
    assert_eq!(publishable_crates[0].name, "crate-a");
    assert_eq!(publishable_crates[1].name, "crate-c");

    assert!(!publishable_crates.iter().any(|c| c.name == "crate-b"));
}

#[derive(Debug, Clone)]
struct TestCrate {
    name: String,
    dependencies: Vec<String>,
}

#[derive(Debug)]
struct TestCrateInfo<'a> {
    pkg: &'a TestCrate,
    dependencies: Vec<String>,
}

#[test]
fn integration_tests_test_dependency_aware_batching_logic() {
    let crates = vec![
        TestCrate {
            name: "crate-a".to_string(),
            dependencies: vec![],
        },
        TestCrate {
            name: "crate-b".to_string(),
            dependencies: vec!["crate-a".to_string()],
        },
        TestCrate {
            name: "crate-c".to_string(),
            dependencies: vec!["crate-a".to_string()],
        },
    ];

    let mut batches: Vec<Vec<TestCrateInfo>> = vec![];
    let mut processed = std::collections::HashSet::new();

    let first_batch: Vec<TestCrateInfo> = crates
        .iter()
        .filter(|c| c.dependencies.is_empty())
        .map(|c| TestCrateInfo {
            pkg: c,
            dependencies: c.dependencies.clone(),
        })
        .collect();

    batches.push(first_batch);

    for crate_info in &batches[0] {
        processed.insert(crate_info.pkg.name.clone());
    }

    let second_batch: Vec<TestCrateInfo> = crates
        .iter()
        .filter(|c| !c.dependencies.is_empty())
        .filter(|c| c.dependencies.iter().all(|dep| processed.contains(dep)))
        .map(|c| TestCrateInfo {
            pkg: c,
            dependencies: c.dependencies.clone(),
        })
        .collect();

    if !second_batch.is_empty() {
        batches.push(second_batch);
    }

    assert_eq!(batches.len(), 2);
    assert_eq!(batches[0].len(), 1);
    assert_eq!(batches[1].len(), 2);

    assert_eq!(batches[0][0].pkg.name, "crate-a");
    assert!(batches[1].iter().any(|c| c.pkg.name == "crate-b"));
    assert!(batches[1].iter().any(|c| c.pkg.name == "crate-c"));
}

#[test]
fn test_staging_registry_environment_variables() {
    let staging_url = "https://staging.crates.io";
    let custom_url = "https://custom.registry.com";

    let mut env_vars = std::collections::HashMap::new();

    env_vars.insert("CARGO_REGISTRY_INDEX".to_string(), staging_url.to_string());
    env_vars.insert("CARGO_REGISTRY_STAGING".to_string(), "true".to_string());

    assert_eq!(
        env_vars.get("CARGO_REGISTRY_INDEX"),
        Some(&staging_url.to_string())
    );
    assert_eq!(
        env_vars.get("CARGO_REGISTRY_STAGING"),
        Some(&"true".to_string())
    );

    env_vars.insert("CARGO_REGISTRY_INDEX".to_string(), custom_url.to_string());
    env_vars.remove("CARGO_REGISTRY_STAGING");

    assert_eq!(
        env_vars.get("CARGO_REGISTRY_INDEX"),
        Some(&custom_url.to_string())
    );
    assert_eq!(env_vars.get("CARGO_REGISTRY_STAGING"), None);
}

#[test]
fn test_registry_url_validation() {
    let valid_urls = vec![
        "https://crates.io",
        "https://staging.crates.io",
        "https://custom.registry.com",
        "https://registry.example.org",
    ];

    for url in valid_urls {
        assert!(url.starts_with("https://"), "URL {} should use HTTPS", url);
        assert!(url.contains("."), "URL {} should contain a domain", url);
        assert!(!url.ends_with("/"), "URL {} should not end with slash", url);
    }

    let staging_url = "https://staging.crates.io";
    assert_eq!(staging_url, "https://staging.crates.io");

    let production_url = "https://crates.io";
    assert_eq!(production_url, "https://crates.io");
}
