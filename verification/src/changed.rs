//! What changed since a reference point: the change detector's report,
//! one entry per package, and the propagation of breaking changes to
//! dependents.

use vstd::prelude::*;

use crate::plan::BumpKind;

verus! {

/// How a package changed.
#[derive(Debug, Copy, Clone, PartialEq, Eq, Structural)]
pub enum ChangeKind {
    /// Source files changed.
    Files,
    /// Only the manifest changed, in a release-relevant way.
    Manifest,
    /// A dependency of the package changed.
    Dependency,
}

impl ChangeKind {
    /// A short label for the kind.
    pub fn label(self) -> (r: &'static str)
        ensures
            self == ChangeKind::Files ==> r@ == "Files"@,
            self == ChangeKind::Manifest ==> r@ == "Manifest"@,
            self == ChangeKind::Dependency ==> r@ == "Dependency"@,
    {
        match self {
            ChangeKind::Files => "Files",
            ChangeKind::Manifest => "Manifest",
            ChangeKind::Dependency => "Dependency",
        }
    }
}

/// One changed package.
#[derive(Debug, Clone)]
pub struct Change {
    pub name: String,
    pub path: String,
    pub kind: ChangeKind,
    pub bump: BumpKind,
}

/// Mathematical image of a [`Change`].
pub struct ChangeView {
    pub name: Seq<char>,
    pub path: Seq<char>,
    pub kind: ChangeKind,
    pub bump: BumpKind,
}

impl View for Change {
    type V = ChangeView;

    open spec fn view(&self) -> ChangeView {
        ChangeView { name: self.name@, path: self.path@, kind: self.kind, bump: self.bump }
    }
}

/// The views of a list of changes.
pub open spec fn change_views(s: Seq<Change>) -> Seq<ChangeView> {
    s.map_values(|c: Change| c@)
}

/// The bump the change list reports for this name: the first matching
/// entry's, if any.
pub open spec fn change_for(s: Seq<ChangeView>, n: Seq<char>) -> Option<BumpKind>
    decreases s.len(),
{
    if s.len() == 0 {
        None
    } else if s.first().name == n {
        Some(s.first().bump)
    } else {
        change_for(s.drop_first(), n)
    }
}

/// The bump reported for this name, as [`change_for`].
pub fn change_bump_for(changes: &Vec<Change>, name: &str) -> (r: Option<BumpKind>)
    ensures
        r == change_for(change_views(changes@), name@),
{
    let ghost cv = change_views(changes@);
    proof {
        assert(cv.skip(0) =~= cv);
    }
    let n = changes.len();
    let mut i: usize = 0;
    while i < n
        invariant
            n == changes@.len(),
            cv == change_views(changes@),
            i <= n,
            change_for(cv, name@) == change_for(cv.skip(i as int), name@),
            forall|j: int| 0 <= j < i ==> (#[trigger] cv[j]).name != name@,
        decreases n - i,
    {
        proof {
            assert(cv.skip(i as int).first() == cv[i as int]);
            assert(cv.skip(i as int).drop_first() =~= cv.skip(i + 1));
        }
        if crate::shared::str_eq(changes[i].name.as_str(), name) {
            proof {
                assert(change_for(cv.skip(i as int), name@) == Some(cv[i as int].bump));
            }
            return Some(changes[i].bump);
        }
        i += 1;
    }
    proof {
        assert(cv.skip(n as int).len() == 0);
    }
    None
}

/// Whether the change list holds an entry of this name with a breaking
/// bump.
pub open spec fn reported_major(cs: Seq<ChangeView>, n: Seq<char>) -> bool {
    exists|k: int| 0 <= k < cs.len() && (#[trigger] cs[k]).name == n && cs[k].bump == BumpKind::Major
}

/// Whether the change list holds an entry of this name with a breaking
/// bump, as [`reported_major`].
fn has_major_change(changed: &Vec<Change>, name: &str) -> (r: bool)
    ensures
        r == reported_major(change_views(changed@), name@),
{
    let n = changed.len();
    let mut k: usize = 0;
    while k < n
        invariant
            n == changed@.len(),
            k <= n,
            forall|j: int|
                0 <= j < k ==> !((#[trigger] change_views(changed@)[j]).name == name@
                    && change_views(changed@)[j].bump == BumpKind::Major),
        decreases n - k,
    {
        if changed[k].bump == BumpKind::Major && crate::shared::str_eq(
            changed[k].name.as_str(),
            name,
        ) {
            proof {
                assert(change_views(changed@)[k as int].name == name@);
            }
            return true;
        }
        k += 1;
    }
    false
}

/// Whether the name belongs to a flagged package; `flagged` is indexed
/// like the graph.
pub open spec fn flagged_name(g: Seq<crate::workspace::PackageView>, fl: Seq<bool>, nm: Seq<char>) -> bool {
    exists|j: int| 0 <= j < g.len() && (#[trigger] g[j]).name == nm && fl[j]
}

/// Whether one of the package's declared dependencies belongs to a
/// flagged package.
pub open spec fn flagged_dep(g: Seq<crate::workspace::PackageView>, fl: Seq<bool>, j: int) -> bool {
    exists|d: int| 0 <= d < g[j].deps.len() && flagged_name(g, fl, #[trigger] g[j].deps[d])
}

/// Whether one of the package's declared dependencies carries a
/// breaking change in the list.
pub open spec fn breaking_dep(
    g: Seq<crate::workspace::PackageView>,
    cs: Seq<ChangeView>,
    j: int,
) -> bool {
    exists|d: int| 0 <= d < g[j].deps.len() && reported_major(cs, #[trigger] g[j].deps[d])
}

/// No publishable package still waits on a flagged dependency: the
/// propagation has reached its fixed point.
pub open spec fn dependents_saturated(g: Seq<crate::workspace::PackageView>, fl: Seq<bool>) -> bool {
    forall|m: int|
        #![trigger fl[m]]
        0 <= m < g.len() && g[m].publish && !fl[m] ==> !flagged_dep(g, fl, m)
}

/// Propagate breaking changes to dependents: every publishable package
/// that depends, directly or through other workspace members, on a
/// package with a breaking change is itself marked as breaking — an
/// existing entry is raised to a breaking bump, a missing one is
/// appended as a dependency change.  The entries already in the list
/// keep their name, path and kind; only their bump can be raised.
pub fn find_indirect_changes(w: &crate::workspace::WorkspaceGraph, changed: &mut Vec<Change>)
    requires
        w.wf(),
    ensures
        final(changed)@.len() >= old(changed)@.len(),
        forall|k: int|
            0 <= k < old(changed)@.len() ==> {
                &&& (#[trigger] final(changed)@[k])@.name == old(changed)@[k]@.name
                &&& final(changed)@[k]@.path == old(changed)@[k]@.path
                &&& final(changed)@[k]@.kind == old(changed)@[k]@.kind
                &&& (final(changed)@[k]@.bump == old(changed)@[k]@.bump || final(changed)@[k]@.bump
                    == BumpKind::Major)
            },
        forall|k: int|
            old(changed)@.len() <= k < final(changed)@.len() ==> {
                &&& (#[trigger] final(changed)@[k])@.kind == ChangeKind::Dependency
                &&& final(changed)@[k]@.bump == BumpKind::Major
                &&& crate::workspace::has_pkg(w@, final(changed)@[k]@.name)
                &&& crate::workspace::pkg_named(w@, final(changed)@[k]@.name).publish
            },
        forall|j: int, d: int|
            #![trigger w@[j].deps[d]]
            0 <= j < w@.len() && w@[j].publish && 0 <= d < w@[j].deps.len() && reported_major(
                change_views(old(changed)@),
                w@[j].deps[d],
            ) ==> reported_major(change_views(final(changed)@), w@[j].name),
        forall|k: int|
            #![trigger final(changed)@[k]]
            0 <= k < old(changed)@.len() && final(changed)@[k]@.bump == BumpKind::Major && old(
                changed,
            )@[k]@.bump != BumpKind::Major ==> exists|j: int|
                0 <= j < w@.len() && (#[trigger] w@[j]).name == final(changed)@[k]@.name
                    && breaking_dep(w@, change_views(final(changed)@), j),
        forall|k: int|
            #![trigger final(changed)@[k]]
            old(changed)@.len() <= k < final(changed)@.len() ==> exists|j: int|
                0 <= j < w@.len() && (#[trigger] w@[j]).name == final(changed)@[k]@.name
                    && breaking_dep(w@, change_views(final(changed)@), j),
        forall|m: int, d: int|
            #![trigger w@[m].deps[d]]
            0 <= m < w@.len() && w@[m].publish && 0 <= d < w@[m].deps.len() && reported_major(
                change_views(final(changed)@),
                w@[m].deps[d],
            ) ==> reported_major(change_views(final(changed)@), w@[m].name),
{
    let n = w.packages.len();
    let mut flagged: Vec<bool> = Vec::new();
    while flagged.len() < n
        invariant
            flagged@.len() <= n,
            forall|j: int| 0 <= j < flagged@.len() ==> !flagged@[j],
        decreases n - flagged@.len(),
    {
        flagged.push(false);
    }
    // seed: publishable packages with a direct dependency on a breaking
    // change
    let mut i: usize = 0;
    while i < n
        invariant
            w.wf(),
            n == w@.len(),
            flagged@.len() == n,
            i <= n,
            changed@ == old(changed)@,
            forall|j: int| 0 <= j < n && flagged@[j] ==> (#[trigger] w@[j]).publish,
            forall|j: int|
                #![trigger flagged@[j]]
                0 <= j < n && flagged@[j] ==> breaking_dep(w@, change_views(old(changed)@), j)
                    || flagged_dep(w@, flagged@, j),
            forall|j: int, d: int|
                #![trigger w@[j].deps[d]]
                0 <= j < i && w@[j].publish && 0 <= d < w@[j].deps.len() && reported_major(
                    change_views(old(changed)@),
                    w@[j].deps[d],
                ) ==> flagged@[j],
        decreases n - i,
    {
        if w.packages[i].publish {
            let nd = w.packages[i].deps.len();
            let mut d: usize = 0;
            while d < nd
                invariant
                    w.wf(),
                    n == w@.len(),
                    flagged@.len() == n,
                    i < n,
                    w@[i as int].publish,
                    nd == w.packages@[i as int].deps@.len(),
                    d <= nd,
                    changed@ == old(changed)@,
                    forall|j: int| 0 <= j < n && flagged@[j] ==> (#[trigger] w@[j]).publish,
                    forall|j: int|
                        #![trigger flagged@[j]]
                        0 <= j < n && flagged@[j] ==> breaking_dep(w@, change_views(old(changed)@), j)
                            || flagged_dep(w@, flagged@, j),
                    forall|j: int, d2: int|
                        #![trigger w@[j].deps[d2]]
                        0 <= j < i && w@[j].publish && 0 <= d2 < w@[j].deps.len()
                            && reported_major(
                            change_views(old(changed)@),
                            w@[j].deps[d2],
                        ) ==> flagged@[j],
                    forall|d2: int|
                        #![trigger w@[i as int].deps[d2]]
                        0 <= d2 < d && reported_major(
                            change_views(old(changed)@),
                            w@[i as int].deps[d2],
                        ) ==> flagged@[i as int],
                decreases nd - d,
            {
                if has_major_change(changed, w.packages[i].deps[d].as_str()) {
                    let ghost fl0 = flagged@;
                    flagged.set(i, true);
                    proof {
                        assert(w@[i as int].deps[d as int]
                            == w.packages@[i as int].deps@[d as int]@);
                        assert(reported_major(
                            change_views(old(changed)@),
                            w@[i as int].deps[d as int],
                        ));
                        assert(breaking_dep(w@, change_views(old(changed)@), i as int));
                        assert forall|j: int|
                            #![trigger flagged@[j]]
                            0 <= j < n && flagged@[j] implies breaking_dep(
                            w@,
                            change_views(old(changed)@),
                            j,
                        ) || flagged_dep(w@, flagged@, j) by {
                            if j != i as int {
                                assert(fl0[j]);
                                if flagged_dep(w@, fl0, j) {
                                    let d2 = choose|d2: int|
                                        0 <= d2 < w@[j].deps.len() && flagged_name(
                                            w@,
                                            fl0,
                                            #[trigger] w@[j].deps[d2],
                                        );
                                    let j2 = choose|j2: int|
                                        0 <= j2 < w@.len() && (#[trigger] w@[j2]).name == w@[
                                            j].deps[d2] && fl0[j2];
                                    assert(flagged@[j2]);
                                    assert(flagged_name(w@, flagged@, w@[j].deps[d2]));
                                }
                            }
                        }
                    }
                }
                d += 1;
            }
        }
        i += 1;
    }
    proof {
        crate::workspace::lemma_count_true_bounds(flagged@);
    }
    // closure: sweep until the propagation reaches its fixed point — a
    // sweep that changes nothing proves saturation, and each other
    // sweep flags at least one more package, so enough sweeps exist
    let mut pass: usize = 0;
    while pass < n
        invariant
            w.wf(),
            n == w@.len(),
            flagged@.len() == n,
            pass <= n,
            changed@ == old(changed)@,
            forall|j: int| 0 <= j < n && flagged@[j] ==> (#[trigger] w@[j]).publish,
            forall|j: int|
                #![trigger flagged@[j]]
                0 <= j < n && flagged@[j] ==> breaking_dep(w@, change_views(old(changed)@), j)
                    || flagged_dep(w@, flagged@, j),
            forall|j: int, d: int|
                #![trigger w@[j].deps[d]]
                0 <= j < n && w@[j].publish && 0 <= d < w@[j].deps.len() && reported_major(
                    change_views(old(changed)@),
                    w@[j].deps[d],
                ) ==> flagged@[j],
            dependents_saturated(w@, flagged@) || crate::workspace::count_true(flagged@)
                >= pass,
        decreases n - pass,
    {
        proof {
            crate::workspace::lemma_count_true_bounds(flagged@);
        }
        let ghost fs = flagged@;
        let mut any = false;
        let mut i: usize = 0;
        while i < n
            invariant
                w.wf(),
                n == w@.len(),
                flagged@.len() == n,
                i <= n,
                changed@ == old(changed)@,
                forall|j: int| 0 <= j < n && flagged@[j] ==> (#[trigger] w@[j]).publish,
                forall|j: int|
                    #![trigger flagged@[j]]
                    0 <= j < n && flagged@[j] ==> breaking_dep(w@, change_views(old(changed)@), j)
                        || flagged_dep(w@, flagged@, j),
                forall|j: int, d: int|
                    #![trigger w@[j].deps[d]]
                    0 <= j < n && w@[j].publish && 0 <= d < w@[j].deps.len() && reported_major(
                        change_views(old(changed)@),
                        w@[j].deps[d],
                    ) ==> flagged@[j],
                !any ==> flagged@ == fs,
                any ==> crate::workspace::count_true(flagged@) > crate::workspace::count_true(
                    fs,
                ),
                any ==> !dependents_saturated(w@, fs),
                !any ==> forall|m: int|
                    #![trigger flagged@[m]]
                    0 <= m < i && w@[m].publish && !flagged@[m] ==> !flagged_dep(
                        w@,
                        flagged@,
                        m,
                    ),
            decreases n - i,
        {
            if w.packages[i].publish && !flagged[i] {
                let nd = w.packages[i].deps.len();
                let mut d: usize = 0;
                let mut hit = false;
                while d < nd
                    invariant
                        w.wf(),
                        n == w@.len(),
                        flagged@.len() == n,
                        i < n,
                        nd == w.packages@[i as int].deps@.len(),
                        d <= nd,
                        hit ==> flagged_dep(w@, flagged@, i as int),
                        !hit ==> forall|d2: int|
                            0 <= d2 < d ==> !flagged_name(
                                w@,
                                flagged@,
                                #[trigger] w@[i as int].deps[d2],
                            ),
                    decreases nd - d,
                {
                    match w.find_package(w.packages[i].deps[d].as_str()) {
                        Some(j) => {
                            if flagged[j] {
                                proof {
                                    assert(w@[j as int].name == w@[i as int].deps[d as int]);
                                    assert(flagged_name(
                                        w@,
                                        flagged@,
                                        w@[i as int].deps[d as int],
                                    ));
                                }
                                hit = true;
                            } else {
                                proof {
                                    assert forall|j2: int|
                                        0 <= j2 < w@.len() && (#[trigger] w@[j2]).name == w@[
                                            i as int].deps[d as int] implies !flagged@[j2] by {
                                        if j2 != j as int {
                                            assert(w@[j2].name != w@[j as int].name);
                                        }
                                    }
                                }
                            }
                        },
                        None => {
                            proof {
                                assert(!crate::workspace::has_pkg(
                                    w@,
                                    w@[i as int].deps[d as int],
                                ));
                            }
                        },
                    }
                    d += 1;
                }
                if hit {
                    let ghost fl0 = flagged@;
                    proof {
                        if !any {
                            // the first hit of a sweep shows the flags
                            // were not yet saturated
                            assert(fl0 == fs);
                            assert(w@[i as int].publish && !fs[i as int] && flagged_dep(
                                w@,
                                fs,
                                i as int,
                            ));
                            assert(!dependents_saturated(w@, fs));
                        }
                    }
                    flagged.set(i, true);
                    any = true;
                    proof {
                        crate::workspace::lemma_count_true_update(fl0, i as int);
                        assert forall|j: int|
                            #![trigger flagged@[j]]
                            0 <= j < n && flagged@[j] implies breaking_dep(
                            w@,
                            change_views(old(changed)@),
                            j,
                        ) || flagged_dep(w@, flagged@, j) by {
                            if j == i as int {
                                let d2 = choose|d2: int|
                                    0 <= d2 < w@[j].deps.len() && flagged_name(
                                        w@,
                                        fl0,
                                        #[trigger] w@[j].deps[d2],
                                    );
                                let j2 = choose|j2: int|
                                    0 <= j2 < w@.len() && (#[trigger] w@[j2]).name == w@[
                                        j].deps[d2] && fl0[j2];
                                assert(flagged@[j2]);
                                assert(flagged_name(w@, flagged@, w@[j].deps[d2]));
                            } else {
                                assert(fl0[j]);
                                if flagged_dep(w@, fl0, j) {
                                    let d2 = choose|d2: int|
                                        0 <= d2 < w@[j].deps.len() && flagged_name(
                                            w@,
                                            fl0,
                                            #[trigger] w@[j].deps[d2],
                                        );
                                    let j2 = choose|j2: int|
                                        0 <= j2 < w@.len() && (#[trigger] w@[j2]).name == w@[
                                            j].deps[d2] && fl0[j2];
                                    assert(flagged@[j2]);
                                    assert(flagged_name(w@, flagged@, w@[j].deps[d2]));
                                }
                            }
                        }
                    }
                } else {
                    proof {
                        // no dependency of this package is flagged
                        if !any {
                            assert forall|d2: int|
                                0 <= d2 < w@[i as int].deps.len() implies !flagged_name(
                                w@,
                                flagged@,
                                #[trigger] w@[i as int].deps[d2],
                            ) by {}
                            assert(!flagged_dep(w@, flagged@, i as int));
                        }
                    }
                }
            }
            i += 1;
        }
        proof {
            if !any {
                assert(flagged@ == fs);
                assert(dependents_saturated(w@, flagged@));
            }
        }
        pass += 1;
    }
    proof {
        crate::workspace::lemma_count_true_bounds(flagged@);
        if !dependents_saturated(w@, flagged@) {
            assert(crate::workspace::count_true(flagged@) == n);
            crate::workspace::lemma_count_true_all(flagged@);
            assert forall|m: int|
                #![trigger flagged@[m]]
                0 <= m < w@.len() && w@[m].publish && !flagged@[m] implies !flagged_dep(
                w@,
                flagged@,
                m,
            ) by {}
            assert(dependents_saturated(w@, flagged@));
        }
    }

    // apply: raise existing entries, append missing ones
    let ghost base = changed@;
    let mut i: usize = 0;
    while i < n
        invariant
            w.wf(),
            n == w@.len(),
            flagged@.len() == n,
            i <= n,
            base == old(changed)@,
            forall|j: int| 0 <= j < n && flagged@[j] ==> (#[trigger] w@[j]).publish,
            forall|j: int, d: int|
                #![trigger w@[j].deps[d]]
                0 <= j < n && w@[j].publish && 0 <= d < w@[j].deps.len() && reported_major(
                    change_views(old(changed)@),
                    w@[j].deps[d],
                ) ==> flagged@[j],
            forall|j: int|
                0 <= j < i && flagged@[j] ==> reported_major(
                    change_views(changed@),
                    (#[trigger] w@[j]).name,
                ),
            changed@.len() >= base.len(),
            forall|k: int|
                0 <= k < base.len() ==> {
                    &&& (#[trigger] changed@[k])@.name == base[k]@.name
                    &&& changed@[k]@.path == base[k]@.path
                    &&& changed@[k]@.kind == base[k]@.kind
                    &&& (changed@[k]@.bump == base[k]@.bump || changed@[k]@.bump
                        == BumpKind::Major)
                },
            forall|k: int|
                base.len() <= k < changed@.len() ==> {
                    &&& (#[trigger] changed@[k])@.kind == ChangeKind::Dependency
                    &&& changed@[k]@.bump == BumpKind::Major
                    &&& crate::workspace::has_pkg(w@, changed@[k]@.name)
                    &&& crate::workspace::pkg_named(w@, changed@[k]@.name).publish
                },
            forall|j: int|
                #![trigger flagged@[j]]
                0 <= j < n && flagged@[j] ==> breaking_dep(w@, change_views(old(changed)@), j)
                    || flagged_dep(w@, flagged@, j),
            dependents_saturated(w@, flagged@),
            forall|k: int|
                #![trigger changed@[k]]
                0 <= k < base.len() && changed@[k]@.bump == BumpKind::Major && base[k]@.bump
                    != BumpKind::Major ==> exists|j: int|
                    0 <= j < n && flagged@[j] && (#[trigger] w@[j]).name == changed@[k]@.name,
            forall|k: int|
                #![trigger changed@[k]]
                base.len() <= k < changed@.len() ==> exists|j: int|
                    0 <= j < n && flagged@[j] && (#[trigger] w@[j]).name == changed@[k]@.name,
        decreases n - i,
    {
        if flagged[i] {
            let ghost pre = change_views(changed@);
            let found = find_change(changed, w.packages[i].name.as_str());
            match found {
                Some(ci) => {
                    let e = Change {
                        name: changed[ci].name.clone(),
                        path: changed[ci].path.clone(),
                        kind: changed[ci].kind,
                        bump: BumpKind::Major,
                    };
                    changed.set(ci, e);
                    proof {
                        let cur = change_views(changed@);
                        assert(cur[ci as int].name == w@[i as int].name);
                        assert(cur[ci as int].bump == BumpKind::Major);
                        assert forall|j: int| 0 <= j < i + 1 && flagged@[j] implies
                            reported_major(cur, (#[trigger] w@[j]).name) by {
                            if j == i as int {
                                assert(cur[ci as int].name == w@[j].name && cur[
                                    ci as int].bump == BumpKind::Major);
                            } else {
                                let k0 = choose|k0: int|
                                    0 <= k0 < pre.len() && (#[trigger] pre[k0]).name == w@[
                                        j].name && pre[k0].bump == BumpKind::Major;
                                if k0 == ci as int {
                                    assert(cur[ci as int].name == pre[ci as int].name);
                                } else {
                                    assert(cur[k0] == pre[k0]);
                                }
                            }
                        }
                        // every raised or appended entry names a flagged
                        // package
                        assert forall|k: int|
                            #![trigger cur[k]]
                            0 <= k < base.len() && cur[k].bump == BumpKind::Major && base[
                            k]@.bump != BumpKind::Major implies exists|j: int|
                            0 <= j < n && flagged@[j] && (#[trigger] w@[j]).name == cur[
                                k].name by {
                            if k == ci as int {
                                assert(flagged@[i as int] && w@[i as int].name == cur[k].name);
                            } else {
                                assert(cur[k] == pre[k]);
                                let j = choose|j: int|
                                    0 <= j < n && flagged@[j] && (#[trigger] w@[j]).name
                                        == pre[k].name;
                                assert(w@[j].name == cur[k].name);
                            }
                        }
                        assert forall|k: int|
                            #![trigger cur[k]]
                            base.len() <= k < cur.len() implies exists|j: int|
                            0 <= j < n && flagged@[j] && (#[trigger] w@[j]).name == cur[
                                k].name by {
                            if k == ci as int {
                                assert(flagged@[i as int] && w@[i as int].name == cur[k].name);
                            } else {
                                assert(cur[k] == pre[k]);
                                let j = choose|j: int|
                                    0 <= j < n && flagged@[j] && (#[trigger] w@[j]).name
                                        == pre[k].name;
                                assert(w@[j].name == cur[k].name);
                            }
                        }
                    }
                },
                None => {
                    proof {
                        let j = choose|j: int| 0 <= j < w@.len() && w@[j].name == w@[
                            i as int].name;
                        if j != i as int {
                            assert(false);
                        }
                        assert(crate::workspace::pkg_named(w@, w@[i as int].name) == w@[
                            i as int]);
                    }
                    changed.push(
                        Change {
                            name: w.packages[i].name.clone(),
                            path: w.packages[i].path.clone(),
                            kind: ChangeKind::Dependency,
                            bump: BumpKind::Major,
                        },
                    );
                    proof {
                        let cur = change_views(changed@);
                        assert(cur[cur.len() - 1].name == w@[i as int].name);
                        assert(cur[cur.len() - 1].bump == BumpKind::Major);
                        assert forall|j: int| 0 <= j < i + 1 && flagged@[j] implies
                            reported_major(cur, (#[trigger] w@[j]).name) by {
                            if j == i as int {
                            } else {
                                let k0 = choose|k0: int|
                                    0 <= k0 < pre.len() && (#[trigger] pre[k0]).name == w@[
                                        j].name && pre[k0].bump == BumpKind::Major;
                                assert(cur[k0] == pre[k0]);
                            }
                        }
                        assert forall|k: int|
                            #![trigger cur[k]]
                            base.len() <= k < cur.len() implies exists|j: int|
                            0 <= j < n && flagged@[j] && (#[trigger] w@[j]).name == cur[
                                k].name by {
                            if k == cur.len() - 1 {
                                assert(flagged@[i as int] && w@[i as int].name == cur[k].name);
                            } else {
                                assert(cur[k] == pre[k]);
                                let j = choose|j: int|
                                    0 <= j < n && flagged@[j] && (#[trigger] w@[j]).name
                                        == pre[k].name;
                                assert(w@[j].name == cur[k].name);
                            }
                        }
                    }
                },
            }
        }
        i += 1;
    }
    proof {
        assert forall|j: int, d: int|
            #![trigger w@[j].deps[d]]
            0 <= j < w@.len() && w@[j].publish && 0 <= d < w@[j].deps.len() && reported_major(
                change_views(old(changed)@),
                w@[j].deps[d],
            ) implies reported_major(change_views(changed@), w@[j].name) by {
            assert(flagged@[j]);
        }
        // every flagged package has a dependency whose breaking change
        // stands in the final list: its seed reason is preserved, and a
        // flagged dependency got its own breaking entry
        let cur = change_views(changed@);
        assert forall|j: int|
            #![trigger flagged@[j]]
            0 <= j < n && flagged@[j] implies breaking_dep(w@, cur, j) by {
            if breaking_dep(w@, change_views(old(changed)@), j) {
                let d = choose|d: int|
                    0 <= d < w@[j].deps.len() && reported_major(
                        change_views(old(changed)@),
                        #[trigger] w@[j].deps[d],
                    );
                let e = choose|e: int|
                    0 <= e < base.len() && (#[trigger] change_views(old(changed)@)[e]).name
                        == w@[j].deps[d] && change_views(old(changed)@)[e].bump
                        == BumpKind::Major;
                assert(cur[e].name == base[e]@.name && cur[e].bump == BumpKind::Major);
                assert(reported_major(cur, w@[j].deps[d]));
            } else {
                let d = choose|d: int|
                    0 <= d < w@[j].deps.len() && flagged_name(
                        w@,
                        flagged@,
                        #[trigger] w@[j].deps[d],
                    );
                let j2 = choose|j2: int|
                    0 <= j2 < w@.len() && (#[trigger] w@[j2]).name == w@[j].deps[d]
                        && flagged@[j2];
                assert(reported_major(cur, w@[j2].name));
                assert(reported_major(cur, w@[j].deps[d]));
            }
        }
        assert forall|k: int|
            #![trigger cur[k]]
            0 <= k < base.len() && cur[k].bump == BumpKind::Major && base[k]@.bump
                != BumpKind::Major implies exists|j: int|
            0 <= j < w@.len() && (#[trigger] w@[j]).name == cur[k].name && breaking_dep(
                w@,
                cur,
                j,
            ) by {
            let j = choose|j: int|
                0 <= j < n && flagged@[j] && (#[trigger] w@[j]).name == cur[k].name;
            assert(breaking_dep(w@, cur, j));
        }
        assert forall|k: int|
            #![trigger cur[k]]
            base.len() <= k < cur.len() implies exists|j: int|
            0 <= j < w@.len() && (#[trigger] w@[j]).name == cur[k].name && breaking_dep(
                w@,
                cur,
                j,
            ) by {
            let j = choose|j: int|
                0 <= j < n && flagged@[j] && (#[trigger] w@[j]).name == cur[k].name;
            assert(breaking_dep(w@, cur, j));
        }
        // fixed point: a breaking change in the final list propagates to
        // every publishable dependent inside the final list itself
        assert forall|m: int, d: int|
            #![trigger w@[m].deps[d]]
            0 <= m < w@.len() && w@[m].publish && 0 <= d < w@[m].deps.len() && reported_major(
                cur,
                w@[m].deps[d],
            ) implies reported_major(cur, w@[m].name) by {
            let k = choose|k: int|
                0 <= k < cur.len() && (#[trigger] cur[k]).name == w@[m].deps[d] && cur[k].bump
                    == BumpKind::Major;
            if 0 <= k < base.len() && base[k]@.bump == BumpKind::Major {
                assert(change_views(old(changed)@)[k].name == w@[m].deps[d]);
                assert(reported_major(change_views(old(changed)@), w@[m].deps[d]));
                assert(flagged@[m]);
            } else {
                let j2 = choose|j2: int|
                    0 <= j2 < n && flagged@[j2] && (#[trigger] w@[j2]).name == cur[k].name;
                assert(flagged_name(w@, flagged@, w@[m].deps[d]));
                assert(flagged_dep(w@, flagged@, m));
                assert(flagged@[m]);
            }
        }
    }
}

/// The index of the first change entry bearing this name, if any.
fn find_change(changed: &Vec<Change>, name: &str) -> (r: Option<usize>)
    ensures
        match r {
            Some(i) => i < changed@.len() && changed@[i as int]@.name == name@,
            None => true,
        },
{
    let n = changed.len();
    let mut k: usize = 0;
    while k < n
        invariant
            n == changed@.len(),
            k <= n,
        decreases n - k,
    {
        if crate::shared::str_eq(changed[k].name.as_str(), name) {
            return Some(k);
        }
        k += 1;
    }
    None
}

} // verus!
