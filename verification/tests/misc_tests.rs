// Tests of the smaller decision helpers: checks, claims, status rows,
// registry lookups and display shortening.

use parity_publish::check::{check, fill_needs_publish, Issues};
use parity_publish::claim::{claim_action, claim_exit_code, ClaimAction};
use parity_publish::cli::{Check, Status};
use parity_publish::plan::BumpKind;
use parity_publish::prdoc::req_change_breaking;
use parity_publish::public_api::{classify_bump, fmt_change};
use parity_publish::registry::{max_release, CrateVersions, RegistrySnapshot, RegistryVersion};
use parity_publish::shared::{bool_true, is_default, is_not_default, str_eq, Owner};
use parity_publish::status::{status_color, status_skip, StatusColor};
use parity_publish::apply::{remove_dev_features, FeatureEntry, FeatureNeed};
use parity_publish::changed::ChangeKind;
use parity_publish::poll::elapsed_after;
use parity_publish::version::parse_version;
use parity_publish::workspace::{Package, WorkspaceGraph};
use parity_publish::SemVer;

fn check_opts() -> Check {
    Check {
        allow_nonfatal: false,
        quiet: false,
        paths: 0,
        no_check_owner: false,
        allow_unpublished: false,
        recursive: false,
    }
}

#[test]
fn issues_and_exit_status() {
    let clean = Issues::clean("a".to_string(), "crates/a".to_string());
    assert!(!clean.has_issue());
    assert!(!clean.ret_err(&check_opts()));

    let mut bad = Issues::clean("b".to_string(), "crates/b".to_string());
    bad.no_license = true;
    assert!(bad.has_issue());
    assert!(bad.ret_err(&check_opts()));

    assert_eq!(check(&vec![clean], &check_opts()), 0);
    let mut nonfatal = Issues::clean("c".to_string(), "crates/c".to_string());
    nonfatal.no_desc = true;
    assert_eq!(check(&vec![nonfatal.clone()], &check_opts()), 1);
    let mut lax = check_opts();
    lax.allow_nonfatal = true;
    lax.allow_unpublished = true;
    assert_eq!(check(&vec![nonfatal], &lax), 0);
}

#[test]
fn claim_decisions() {
    assert_eq!(claim_action(false, Owner::Nobody), ClaimAction::NotPublishable);
    assert_eq!(claim_action(true, Owner::Us), ClaimAction::AlreadyOurs);
    assert_eq!(claim_action(true, Owner::Other), ClaimAction::OwnedElsewhere);
    assert_eq!(claim_action(true, Owner::Nobody), ClaimAction::ClaimName);

    assert_eq!(claim_exit_code(&vec![ClaimAction::AlreadyOurs]), 0);
    assert_eq!(
        claim_exit_code(&vec![ClaimAction::ClaimName, ClaimAction::OwnedElsewhere]),
        1
    );
}

#[test]
fn status_rows() {
    assert_eq!(status_color(false, true), StatusColor::Red);
    assert_eq!(status_color(true, false), StatusColor::Yellow);
    assert_eq!(status_color(true, true), StatusColor::Green);

    let filters = Status {
        missing: false,
        external: true,
        version: false,
        quiet: false,
    };
    // the external filter hides rows we own
    assert!(status_skip(&filters, true, true, true));
    assert!(!status_skip(&filters, true, false, true));
    // a package the registry does not know always shows
    assert!(!status_skip(&filters, false, true, true));
}

#[test]
fn registry_lookups() {
    let reg = RegistrySnapshot {
        crates: vec![CrateVersions {
            name: "a".to_string(),
            versions: vec![
                RegistryVersion {
                    version: parse_version("1.0.0").unwrap(),
                    yanked: false,
                },
                RegistryVersion {
                    version: parse_version("1.2.0").unwrap(),
                    yanked: true,
                },
                RegistryVersion {
                    version: parse_version("2.0.0-rc.1").unwrap(),
                    yanked: false,
                },
            ],
        }],
    };
    assert!(reg.version_exists("a", &SemVer::release(1, 0, 0)));
    assert!(reg.version_exists("a", &SemVer::release(1, 2, 0)));
    assert!(!reg.version_exists("a", &SemVer::release(3, 0, 0)));
    assert!(!reg.version_exists("missing", &SemVer::release(1, 0, 0)));

    // the highest full release: prereleases don't count, yanked do
    let m = max_release(&reg.crates[0].versions).unwrap();
    assert_eq!(m.render(), "1.2.0");
    assert!(max_release(&vec![]).is_none());
}

#[test]
fn bump_classification() {
    assert_eq!(classify_bump(Some(BumpKind::Major), false), BumpKind::Major);
    assert_eq!(classify_bump(Some(BumpKind::Minor), false), BumpKind::Minor);
    assert_eq!(classify_bump(Some(BumpKind::Patch), true), BumpKind::Minor);
    assert_eq!(classify_bump(Some(BumpKind::Patch), false), BumpKind::Patch);
    assert_eq!(classify_bump(None, true), BumpKind::Minor);
    assert_eq!(classify_bump(None, false), BumpKind::Unchanged);
}

#[test]
fn bump_kind_ordering() {
    assert_eq!(BumpKind::Patch.max(BumpKind::Major), BumpKind::Major);
    assert_eq!(BumpKind::Minor.max(BumpKind::Unchanged), BumpKind::Minor);
    assert_eq!(BumpKind::default(), BumpKind::Unchanged);
}

#[test]
fn dependency_requirement_breakage() {
    assert!(req_change_breaking(1, 0, 2, 0));
    assert!(req_change_breaking(0, 3, 0, 4));
    assert!(!req_change_breaking(0, 3, 0, 3));
    assert!(!req_change_breaking(1, 0, 1, 5));
}

#[test]
fn shared_helpers() {
    assert!(str_eq("abc", "abc"));
    assert!(!str_eq("abc", "abd"));
    assert!(is_default(&BumpKind::Unchanged));
    assert!(!is_default(&BumpKind::Major));
    assert!(is_not_default(&true));
    assert!(!is_not_default(&false));
    assert!(bool_true());
}

#[test]
fn change_shortening() {
    // paths are cut to their last two segments
    assert_eq!(fmt_change("pub fn a::b::c::d"), "pub fn c::d");
    assert_eq!(fmt_change("short one"), "short one");
    assert_eq!(fmt_change(""), "");
}

#[test]
fn dev_only_features_are_stripped() {
    let dev = vec!["quickcheck".to_string(), "serde".to_string()];
    let non_dev = vec!["serde".to_string()];
    let features = vec![
        FeatureEntry {
            name: "testing".to_string(),
            needs: vec![
                FeatureNeed::Dep("quickcheck".to_string()),
                FeatureNeed::OtherFeature("std".to_string()),
            ],
        },
        FeatureEntry {
            name: "std".to_string(),
            needs: vec![FeatureNeed::DepFeature(
                "serde".to_string(),
                "std".to_string(),
                true,
            )],
        },
        FeatureEntry {
            name: "extra".to_string(),
            needs: vec![FeatureNeed::DepFeature(
                "quickcheck".to_string(),
                "use_logging".to_string(),
                false,
            )],
        },
    ];
    let removed = remove_dev_features(&dev, &non_dev, &features);
    assert_eq!(removed.len(), 2);
    assert_eq!(removed[0].feature, "testing");
    assert_eq!(removed[0].value.as_deref(), Some("dep:quickcheck"));
    assert_eq!(removed[1].feature, "extra");
    assert_eq!(removed[1].value.as_deref(), Some("quickcheck/use_logging"));
}

#[test]
fn feature_need_rendering() {
    assert_eq!(FeatureNeed::OtherFeature("std".to_string()).render(), "std");
    assert_eq!(FeatureNeed::Dep("serde".to_string()).render(), "dep:serde");
    assert_eq!(
        FeatureNeed::DepFeature("serde".to_string(), "std".to_string(), true).render(),
        "serde?/std"
    );
}

#[test]
fn kind_labels() {
    assert_eq!(BumpKind::Unchanged.label(), "None");
    assert_eq!(BumpKind::Major.label(), "Major");
    assert_eq!(ChangeKind::Dependency.label(), "Dependency");
    assert_eq!(ChangeKind::Manifest.label(), "Manifest");
}

#[test]
fn change_wrapping() {
    // a long rendering is wrapped at the column limit
    let mut long = String::new();
    for i in 0..40 {
        long.push_str(&format!("word{} ", i));
    }
    let out = fmt_change(long.trim_end());
    assert!(out.contains('\n'));
}

#[test]
fn poll_elapsed_saturates() {
    assert_eq!(elapsed_after(12, 5), 60);
    assert_eq!(elapsed_after(u64::MAX, 2), u64::MAX);
    assert_eq!(elapsed_after(0, 5), 0);
}

#[test]
fn unpublished_dependencies_are_flagged() {
    let mk = |name: &str, publish: bool, deps: Vec<&str>| Package {
        name: name.to_string(),
        path: format!("crates/{}", name),
        version: SemVer::release(1, 0, 0),
        publish,
        deps: deps.iter().map(|d| d.to_string()).collect(),
        external_deps: vec![],
    };
    let w = WorkspaceGraph::new(vec![
        mk("hidden", false, vec![]),
        mk("app", true, vec!["hidden"]),
        mk("tool", true, vec!["hidden"]),
        mk("loner", false, vec![]),
    ])
    .unwrap();

    let mut record = Issues::clean("hidden".to_string(), "crates/hidden".to_string());
    fill_needs_publish(&w, &mut record);
    let deps = record.needs_publish.as_ref().unwrap();
    assert_eq!(deps.len(), 2);
    assert_eq!(deps[0].name, "app");
    assert_eq!(deps[0].path, "crates/app");
    assert_eq!(deps[1].name, "tool");
    assert!(record.has_issue());

    // a publishable crate, and one nobody depends on, stay clean
    let mut fine = Issues::clean("app".to_string(), "crates/app".to_string());
    fill_needs_publish(&w, &mut fine);
    assert!(fine.needs_publish.is_none());
    let mut alone = Issues::clean("loner".to_string(), "crates/loner".to_string());
    fill_needs_publish(&w, &mut alone);
    assert!(alone.needs_publish.is_none());
}
