// Tests of the registry selection for publish operations.

use parity_publish::apply::effective_registry_url;

#[derive(Debug, Clone, PartialEq)]
struct TestApply {
    publish: bool,
    staging: bool,
    registry_url: Option<String>,
}

#[test]
fn test_staging_registry_options() {
    let apply = TestApply {
        publish: true,
        staging: false,
        registry_url: None,
    };

    let apply_staging = TestApply {
        publish: true,
        staging: true,
        registry_url: None,
    };

    let apply_custom = TestApply {
        publish: true,
        staging: false,
        registry_url: Some("https://custom.registry.com".to_string()),
    };

    let apply_staging_custom = TestApply {
        publish: true,
        staging: true,
        registry_url: Some("https://custom.registry.com".to_string()),
    };

    assert!(!apply.staging);
    assert!(apply_staging.staging);
    assert_eq!(apply.registry_url, None);
    assert_eq!(
        apply_custom.registry_url,
        Some("https://custom.registry.com".to_string())
    );
    assert_eq!(
        apply_staging_custom.registry_url,
        Some("https://custom.registry.com".to_string())
    );
}

#[test]
fn test_registry_url_priority() {
    let apply = TestApply {
        publish: true,
        staging: true,
        registry_url: Some("https://custom.registry.com".to_string()),
    };

    let effective_url = apply.registry_url.as_ref().unwrap();
    assert_eq!(effective_url, "https://custom.registry.com");

    assert!(apply.staging);
}

#[test]
fn test_effective_registry_url_selection() {
    // an explicit location wins over the staging flag
    let url = Some("https://custom.registry.com".to_string());
    assert_eq!(
        effective_registry_url(true, &url),
        Some("https://custom.registry.com".to_string())
    );
    // the staging flag alone selects the staging registry
    assert_eq!(
        effective_registry_url(true, &None),
        Some("https://staging.crates.io".to_string())
    );
    // with neither, nothing is overridden
    assert_eq!(effective_registry_url(false, &None), None);
}
