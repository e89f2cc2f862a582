// Tests of the version planner: fresh planning, reuse, demotion and the
// explicit bump paths.

use parity_publish::apply::build_schedule_items;
use parity_publish::changed::{Change, ChangeKind};
use parity_publish::plan::{
    apply_bump, generate_plan, patch_bump, select_to_publish, BumpKind, Options, PlanError,
    PlanRequest, Planner, PublishReason,
};
use parity_publish::registry::{CrateVersions, RegistrySnapshot, RegistryVersion};
use parity_publish::workspace::{Package, WorkspaceGraph};
use parity_publish::SemVer;

fn pkg(name: &str, version: SemVer, deps: Vec<&str>) -> Package {
    Package {
        name: name.to_string(),
        path: format!("crates/{}", name),
        version,
        publish: true,
        deps: deps.iter().map(|d| d.to_string()).collect(),
        external_deps: vec![],
    }
}

fn snapshot(entries: Vec<(&str, Vec<&str>)>) -> RegistrySnapshot {
    RegistrySnapshot {
        crates: entries
            .into_iter()
            .map(|(name, versions)| CrateVersions {
                name: name.to_string(),
                versions: versions
                    .into_iter()
                    .map(|v| RegistryVersion {
                        version: parity_publish::version::parse_version(v).unwrap(),
                        yanked: false,
                    })
                    .collect(),
            })
            .collect(),
    }
}

fn empty_plan() -> Planner {
    Planner {
        options: Options { description: None },
        crates: vec![],
        remove_crates: vec![],
    }
}

fn request() -> PlanRequest {
    PlanRequest {
        fresh: false,
        all: false,
        crates: vec![],
        pre: None,
        description: None,
    }
}

#[test]
fn fresh_plan_from_registry() {
    let g = WorkspaceGraph::new(vec![pkg("a", SemVer::release(0, 1, 0), vec![])]).unwrap();
    let s = snapshot(vec![("a", vec!["0.9.0", "1.4.2", "1.5.0-rc.1"])]);
    let mut req = request();
    req.all = true;
    let p = generate_plan(&g, &s, &empty_plan(), &req, &vec![]).unwrap();
    assert_eq!(p.crates.len(), 1);
    let e = &p.crates[0];
    // `from` is the highest full release the registry knows
    assert_eq!(e.from, "1.4.2");
    // a release of everything defaults to a breaking bump
    assert_eq!(e.to, "2.0.0");
    assert!(e.publish);
    assert_eq!(e.reason, Some(PublishReason::All));
}

#[test]
fn unknown_package_seeds_from_disk() {
    let g = WorkspaceGraph::new(vec![pkg("new", SemVer::release(0, 0, 1), vec![])]).unwrap();
    let s = snapshot(vec![]);
    let p = generate_plan(&g, &s, &empty_plan(), &request(), &vec![]).unwrap();
    // a never-released package starts at 0.1.0, and with nothing asking
    // for a release it keeps to == from
    assert_eq!(p.crates[0].from, "0.1.0");
    assert_eq!(p.crates[0].to, "0.1.0");
    assert!(!p.crates[0].publish);
    assert_eq!(p.crates[0].bump, BumpKind::Unchanged);
}

#[test]
fn plan_is_idempotent() {
    // P3: re-running the planner with no registry or source changes
    // reproduces the prior plan entry for entry
    let g = WorkspaceGraph::new(vec![
        pkg("a", SemVer::release(0, 1, 0), vec![]),
        pkg("b", SemVer::release(0, 1, 0), vec!["a"]),
    ])
    .unwrap();
    let s = snapshot(vec![("a", vec!["0.3.2"]), ("b", vec!["1.2.3"])]);
    let mut req = request();
    req.all = true;
    let first = generate_plan(&g, &s, &empty_plan(), &req, &vec![]).unwrap();
    let second = generate_plan(&g, &s, &first, &req, &vec![]).unwrap();
    assert_eq!(first.crates.len(), second.crates.len());
    for (x, y) in first.crates.iter().zip(second.crates.iter()) {
        assert_eq!(x.name, y.name);
        assert_eq!(x.from, y.from);
        assert_eq!(x.to, y.to);
        assert_eq!(x.bump, y.bump);
        assert_eq!(x.publish, y.publish);
    }
}

#[test]
fn plan_monotone_and_zero_x_rule() {
    // P4 and P5 on concrete values: 0.3.2 -> 0.4.0, 1.2.3 -> 2.0.0
    let g = WorkspaceGraph::new(vec![
        pkg("zero", SemVer::release(0, 1, 0), vec![]),
        pkg("one", SemVer::release(1, 0, 0), vec![]),
    ])
    .unwrap();
    let s = snapshot(vec![("zero", vec!["0.3.2"]), ("one", vec!["1.2.3"])]);
    let mut req = request();
    req.all = true;
    let p = generate_plan(&g, &s, &empty_plan(), &req, &vec![]).unwrap();
    let zero = p.crates.iter().find(|e| e.name == "zero").unwrap();
    assert_eq!((zero.from.as_str(), zero.to.as_str()), ("0.3.2", "0.4.0"));
    let one = p.crates.iter().find(|e| e.name == "one").unwrap();
    assert_eq!((one.from.as_str(), one.to.as_str()), ("1.2.3", "2.0.0"));
    for e in &p.crates {
        let f = parity_publish::version::parse_version(&e.from).unwrap();
        let t = parity_publish::version::parse_version(&e.to).unwrap();
        assert!(f.le(&t));
        if !e.publish {
            assert_eq!(e.from, e.to);
        }
    }
}

#[test]
fn stale_plan_is_demoted() {
    // P6: when the version the planner would publish already exists in
    // the registry, the entry is forced to publish = false with
    // from = to.  A bump lands on an existing version only when it
    // saturates at the numeric limit of a component.
    let g = WorkspaceGraph::new(vec![pkg("a", SemVer::release(0, 1, 0), vec![])]).unwrap();
    let top = "0.18446744073709551615.3";
    let s = snapshot(vec![("a", vec![top])]);
    let mut req = request();
    req.all = true;
    let p = generate_plan(&g, &s, &empty_plan(), &req, &vec![]).unwrap();
    let e = &p.crates[0];
    assert!(!e.publish);
    assert_eq!(e.from, "0.18446744073709551615.3");
    assert_eq!(e.to, e.from);
}

#[test]
fn on_disk_version_is_adopted() {
    // the manifest already moved ahead of the registry compatibly
    let g = WorkspaceGraph::new(vec![pkg("a", SemVer::release(1, 6, 0), vec![])]).unwrap();
    let s = snapshot(vec![("a", vec!["1.4.2"])]);
    let mut req = request();
    req.all = true;
    let p = generate_plan(&g, &s, &empty_plan(), &req, &vec![]).unwrap();
    assert_eq!(p.crates[0].from, "1.4.2");
    assert_eq!(p.crates[0].to, "1.6.0");
}

#[test]
fn dependency_cascade_publishes_dependents() {
    let g = WorkspaceGraph::new(vec![
        pkg("base", SemVer::release(1, 0, 0), vec![]),
        pkg("mid", SemVer::release(1, 0, 0), vec!["base"]),
    ])
    .unwrap();
    let s = snapshot(vec![("base", vec!["1.0.0"]), ("mid", vec!["1.0.0"])]);
    let changes = vec![Change {
        name: "base".to_string(),
        path: "crates/base".to_string(),
        kind: ChangeKind::Files,
        bump: BumpKind::Major,
    }];
    let p = generate_plan(&g, &s, &empty_plan(), &request(), &changes).unwrap();
    let base = p.crates.iter().find(|e| e.name == "base").unwrap();
    assert!(base.publish);
    assert_eq!(base.reason, Some(PublishReason::Changed));
    let mid = p.crates.iter().find(|e| e.name == "mid").unwrap();
    assert!(mid.publish);
    assert_eq!(mid.reason, Some(PublishReason::Bumped));
}

#[test]
fn prerelease_suffix_applies_and_validates() {
    let g = WorkspaceGraph::new(vec![pkg("a", SemVer::release(1, 0, 0), vec![])]).unwrap();
    let s = snapshot(vec![("a", vec!["1.0.0"])]);
    let mut req = request();
    req.all = true;
    req.pre = Some("rc.1".to_string());
    let p = generate_plan(&g, &s, &empty_plan(), &req, &vec![]).unwrap();
    assert_eq!(p.crates[0].to, "2.0.0-rc.1");

    req.pre = Some("!!".to_string());
    let r = generate_plan(&g, &s, &empty_plan(), &req, &vec![]);
    assert!(matches!(r, Err(PlanError::InvalidPrerelease)));
}

#[test]
fn plan_fails_on_cycles() {
    let g = WorkspaceGraph::new(vec![
        pkg("a", SemVer::release(1, 0, 0), vec!["b"]),
        pkg("b", SemVer::release(1, 0, 0), vec!["a"]),
    ])
    .unwrap();
    let s = snapshot(vec![]);
    let r = generate_plan(&g, &s, &empty_plan(), &request(), &vec![]);
    match r {
        Err(PlanError::CyclicDependency(rem)) => assert_eq!(rem.len(), 2),
        other => panic!("expected a cycle, got {:?}", other),
    }
}

fn plan_with(name: &str, from: &str, to: &str) -> Planner {
    Planner {
        options: Options { description: None },
        crates: vec![parity_publish::plan::Publish {
            name: name.to_string(),
            from: from.to_string(),
            to: to.to_string(),
            bump: BumpKind::Unchanged,
            reason: None,
            publish: true,
            verify: true,
            rewrite_dep: vec![],
            remove_dep: vec![],
            remove_feature: vec![],
        }],
        remove_crates: vec![],
    }
}

#[test]
fn apply_bump_skips_taken_versions() {
    let mut p = plan_with("a", "1.0.0", "1.0.0");
    let s = snapshot(vec![("a", vec!["1.0.0", "1.0.1", "1.0.2"])]);
    let changes = vec![Change {
        name: "a".to_string(),
        path: "crates/a".to_string(),
        kind: ChangeKind::Files,
        bump: BumpKind::Patch,
    }];
    apply_bump(&None, &mut p, &s, &changes).unwrap();
    // 1.0.1 and 1.0.2 are taken, so the patch bump lands on 1.0.3
    assert_eq!(p.crates[0].from, "1.0.0");
    assert_eq!(p.crates[0].to, "1.0.3");
    assert_eq!(p.crates[0].bump, BumpKind::Patch);
    assert_eq!(p.crates[0].reason, Some(PublishReason::Changed));
}

#[test]
fn apply_bump_zero_x_major() {
    let mut p = plan_with("a", "0.3.2", "0.3.2");
    let s = snapshot(vec![("a", vec!["0.3.2"])]);
    let changes = vec![Change {
        name: "a".to_string(),
        path: "crates/a".to_string(),
        kind: ChangeKind::Files,
        bump: BumpKind::Major,
    }];
    apply_bump(&None, &mut p, &s, &changes).unwrap();
    assert_eq!(p.crates[0].to, "0.4.0");
}

#[test]
fn apply_bump_rejects_malformed_plans() {
    let mut p = plan_with("a", "1.0.0", "not-a-version");
    let s = snapshot(vec![]);
    let changes = vec![Change {
        name: "a".to_string(),
        path: "crates/a".to_string(),
        kind: ChangeKind::Files,
        bump: BumpKind::Patch,
    }];
    let r = apply_bump(&None, &mut p, &s, &changes);
    assert!(matches!(r, Err(PlanError::MalformedEntry(_))));
    // the plan is untouched on failure
    assert_eq!(p.crates[0].to, "not-a-version");
}

#[test]
fn patch_bump_moves_requested_entries() {
    let mut p = plan_with("a", "1.0.0", "1.2.3");
    patch_bump(&mut p, &vec!["a".to_string()]).unwrap();
    assert_eq!(p.crates[0].from, "1.2.3");
    assert_eq!(p.crates[0].to, "1.2.4");
    assert_eq!(p.crates[0].bump, BumpKind::Patch);
    assert_eq!(p.crates[0].reason, Some(PublishReason::Bumped));
    // names without an entry are ignored
    patch_bump(&mut p, &vec!["missing".to_string()]).unwrap();
    assert_eq!(p.crates[0].to, "1.2.4");
}

#[test]
fn explicit_requests_take_priority() {
    let g = WorkspaceGraph::new(vec![pkg("a", SemVer::release(1, 0, 0), vec![])]).unwrap();
    let s = snapshot(vec![("a", vec!["1.0.0"])]);
    let mut req = request();
    req.all = true;
    req.crates = vec!["a".to_string()];
    let p = generate_plan(&g, &s, &empty_plan(), &req, &vec![]).unwrap();
    assert_eq!(p.crates[0].reason, Some(PublishReason::Specified));
}

#[test]
fn description_carries_over() {
    let g = WorkspaceGraph::new(vec![pkg("a", SemVer::release(1, 0, 0), vec![])]).unwrap();
    let s = snapshot(vec![]);
    let mut req = request();
    req.description = Some("for the next milestone".to_string());
    let first = generate_plan(&g, &s, &empty_plan(), &req, &vec![]).unwrap();
    assert_eq!(
        first.options.description.as_deref(),
        Some("for the next milestone")
    );
    // a later run without the flag keeps the recorded description
    let second = generate_plan(&g, &s, &first, &request(), &vec![]).unwrap();
    assert_eq!(
        second.options.description.as_deref(),
        Some("for the next milestone")
    );
}

#[test]
fn ineligible_packages_never_publish() {
    let mut member = pkg("a", SemVer::release(1, 0, 0), vec![]);
    member.publish = false;
    let g = WorkspaceGraph::new(vec![member]).unwrap();
    let s = snapshot(vec![("a", vec!["1.0.0"])]);
    let mut req = request();
    req.all = true;
    let p = generate_plan(&g, &s, &empty_plan(), &req, &vec![]).unwrap();
    assert!(!p.crates[0].publish);
    assert_eq!(p.crates[0].from, p.crates[0].to);
}

#[test]
fn no_change_reports_leave_entries_alone() {
    // a change without a release-relevant severity never rewrites the
    // entry, even when a prerelease suffix is configured: rewriting
    // could only move the version backwards
    let mut p = plan_with("a", "1.0.0", "1.2.3");
    let s = snapshot(vec![("a", vec!["1.2.3"])]);
    let changes = vec![Change {
        name: "a".to_string(),
        path: "crates/a".to_string(),
        kind: ChangeKind::Files,
        bump: BumpKind::Unchanged,
    }];
    apply_bump(&Some("alpha".to_string()), &mut p, &s, &changes).unwrap();
    assert_eq!(p.crates[0].from, "1.0.0");
    assert_eq!(p.crates[0].to, "1.2.3");
    assert_eq!(p.crates[0].bump, BumpKind::Unchanged);
    assert_eq!(p.crates[0].reason, None);
}

#[test]
fn selection_skips_versions_the_registry_holds() {
    let mut p = plan_with("a", "1.0.0", "1.0.1");
    p.crates.push(parity_publish::plan::Publish {
        name: "b".to_string(),
        from: "1.0.0".to_string(),
        to: "1.0.1".to_string(),
        bump: BumpKind::Patch,
        reason: None,
        publish: true,
        verify: true,
        rewrite_dep: vec![],
        remove_dep: vec![],
        remove_feature: vec![],
    });
    p.crates.push(parity_publish::plan::Publish {
        name: "c".to_string(),
        from: "1.0.0".to_string(),
        to: "1.0.0".to_string(),
        bump: BumpKind::Unchanged,
        reason: None,
        publish: false,
        verify: true,
        rewrite_dep: vec![],
        remove_dep: vec![],
        remove_feature: vec![],
    });
    // the registry already shows a@1.0.1, so only b is left to publish
    let s = snapshot(vec![("a", vec!["1.0.0", "1.0.1"]), ("b", vec!["1.0.0"])]);
    let selected = select_to_publish(&p, &s);
    assert_eq!(selected.len(), 1);
    assert_eq!(selected[0].name, "b");
}

#[test]
fn schedule_items_carry_graph_dependencies() {
    let g = WorkspaceGraph::new(vec![
        pkg("base", SemVer::release(1, 0, 0), vec![]),
        pkg("mid", SemVer::release(1, 0, 0), vec!["base"]),
    ])
    .unwrap();
    let s = snapshot(vec![("base", vec!["1.0.0"]), ("mid", vec!["1.0.0"])]);
    let changes = vec![Change {
        name: "base".to_string(),
        path: "crates/base".to_string(),
        kind: ChangeKind::Files,
        bump: BumpKind::Major,
    }];
    let p = generate_plan(&g, &s, &empty_plan(), &request(), &changes).unwrap();
    let items = build_schedule_items(&p, &s, &g);
    assert_eq!(items.len(), 2);
    assert_eq!(items[0].pkg.name, "base");
    assert_eq!(items[0].dependencies, Vec::<String>::new());
    assert_eq!(items[1].pkg.name, "mid");
    assert_eq!(items[1].dependencies, vec!["base"]);
    // and the schedule built from them is dependency-safe
    let batches = parity_publish::apply::create_dependency_aware_batches(&items, 10);
    assert_eq!(batches.len(), 2);
    assert_eq!(batches[0][0].pkg.name, "base");
    assert_eq!(batches[1][0].pkg.name, "mid");
}
