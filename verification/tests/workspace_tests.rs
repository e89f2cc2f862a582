// Tests of the workspace graph and its topological ordering.

use parity_publish::changed::{Change, ChangeKind};
use parity_publish::plan::BumpKind;
use parity_publish::workspace::{Package, WorkspaceError, WorkspaceGraph};
use parity_publish::SemVer;

fn pkg(name: &str, deps: Vec<&str>) -> Package {
    Package {
        name: name.to_string(),
        path: format!("crates/{}", name),
        version: SemVer::release(1, 0, 0),
        publish: true,
        deps: deps.iter().map(|d| d.to_string()).collect(),
        external_deps: vec![],
    }
}

fn graph(pkgs: Vec<Package>) -> WorkspaceGraph {
    WorkspaceGraph::new(pkgs).unwrap()
}

#[test]
fn order_places_dependencies_first() {
    // P1: every package comes strictly after all its intra-workspace
    // dependencies
    let g = graph(vec![
        pkg("app", vec!["core", "util"]),
        pkg("core", vec!["util"]),
        pkg("util", vec![]),
    ]);
    let order = g.order().unwrap();
    assert_eq!(order, vec!["util", "core", "app"]);
}

#[test]
fn order_ignores_outside_names() {
    let g = graph(vec![pkg("a", vec!["serde"]), pkg("b", vec!["a"])]);
    let order = g.order().unwrap();
    assert_eq!(order, vec!["a", "b"]);
}

#[test]
fn order_detects_cycles() {
    let g = graph(vec![pkg("a", vec!["b"]), pkg("b", vec!["a"]), pkg("c", vec![])]);
    match g.order() {
        Err(WorkspaceError::CyclicDependency(rem)) => {
            assert_eq!(rem, vec!["a", "b"]);
        }
        other => panic!("expected a cycle, got {:?}", other),
    }
}

#[test]
fn order_empty_workspace() {
    let g = graph(vec![]);
    assert_eq!(g.order().unwrap(), Vec::<String>::new());
}

#[test]
fn duplicate_names_are_refused() {
    let r = WorkspaceGraph::new(vec![pkg("a", vec![]), pkg("a", vec![])]);
    assert!(matches!(r, Err(WorkspaceError::DuplicateName(_))));
}

#[test]
fn dependencies_and_dependents() {
    let g = graph(vec![
        pkg("app", vec!["core", "anyhow"]),
        pkg("core", vec![]),
    ]);
    assert_eq!(g.dependencies("app"), vec!["core"]);
    assert_eq!(g.dependencies("missing"), Vec::<String>::new());
    assert_eq!(g.dependents("core"), vec!["app"]);
    assert_eq!(g.dependents("app"), Vec::<String>::new());
}

#[test]
fn indirect_changes_propagate() {
    let g = graph(vec![
        pkg("base", vec![]),
        pkg("mid", vec!["base"]),
        pkg("top", vec!["mid"]),
    ]);
    let mut changed = vec![Change {
        name: "base".to_string(),
        path: "crates/base".to_string(),
        kind: ChangeKind::Files,
        bump: BumpKind::Major,
    }];
    parity_publish::changed::find_indirect_changes(&g, &mut changed);
    assert_eq!(changed.len(), 3);
    assert_eq!(changed[0].name, "base");
    let mid = changed.iter().find(|c| c.name == "mid").unwrap();
    assert_eq!(mid.kind, ChangeKind::Dependency);
    assert_eq!(mid.bump, BumpKind::Major);
    let top = changed.iter().find(|c| c.name == "top").unwrap();
    assert_eq!(top.bump, BumpKind::Major);
}

#[test]
fn indirect_changes_respect_severity() {
    // a patch-level change does not drag dependents in
    let g = graph(vec![pkg("base", vec![]), pkg("mid", vec!["base"])]);
    let mut changed = vec![Change {
        name: "base".to_string(),
        path: "crates/base".to_string(),
        kind: ChangeKind::Files,
        bump: BumpKind::Patch,
    }];
    parity_publish::changed::find_indirect_changes(&g, &mut changed);
    assert_eq!(changed.len(), 1);
}

#[test]
fn order_is_deterministic() {
    // the canonical tie-break: repeated runs give identical orderings,
    // with simultaneously-ready packages emitted in workspace order
    let g = graph(vec![
        pkg("zeta", vec![]),
        pkg("alpha", vec![]),
        pkg("mid", vec!["zeta", "alpha"]),
    ]);
    let first = g.order().unwrap();
    let second = g.order().unwrap();
    assert_eq!(first, second);
    assert_eq!(first, vec!["zeta", "alpha", "mid"]);
}
