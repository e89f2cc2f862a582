// Tests of the apply option record.

#[derive(Debug, Clone, PartialEq)]
struct TestApply {
    publish: bool,
    dry_run: bool,
    skip_verify: bool,
    allow_dirty: bool,
    print: bool,
    max_concurrent: usize,
    batch_delay: u64,
    batch_size: usize,
}

#[test]
fn test_cli_struct_creation() {
    let apply = TestApply {
        publish: false,
        dry_run: false,
        skip_verify: false,
        allow_dirty: false,
        print: false,
        max_concurrent: 3,
        batch_delay: 120,
        batch_size: 10,
    };

    assert_eq!(apply.max_concurrent, 3);
    assert_eq!(apply.batch_delay, 120);
    assert_eq!(apply.batch_size, 10);
}

#[test]
fn test_cli_struct_clone() {
    let apply = TestApply {
        publish: true,
        dry_run: false,
        skip_verify: false,
        allow_dirty: false,
        print: false,
        max_concurrent: 5,
        batch_delay: 60,
        batch_size: 15,
    };

    let cloned = apply.clone();

    assert_eq!(cloned.publish, apply.publish);
    assert_eq!(cloned.max_concurrent, apply.max_concurrent);
    assert_eq!(cloned.batch_delay, apply.batch_delay);
    assert_eq!(cloned.batch_size, apply.batch_size);
}

#[test]
fn test_library_apply_defaults() {
    let apply = parity_publish::cli::Apply::default();
    assert_eq!(apply.poll_interval, 5);
    assert_eq!(apply.poll_timeout, 60);
    assert_eq!(apply.max_concurrent, 3);
    assert_eq!(apply.batch_size, 10);
    assert!(!apply.publish && !apply.dry_run && !apply.staging);
    assert_eq!(apply.registry_url, None);
}
