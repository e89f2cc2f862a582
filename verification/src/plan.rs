//! The release plan: which packages to publish, from which version to
//! which, and why, together with the manifest-rewrite instructions that
//! accompany each entry.

use vstd::prelude::*;

use crate::changed::{change_bump_for, change_for, change_views, Change, ChangeView};
use crate::registry::{max_release, spec_max_release, snap_has_version, versions_of, RegistrySnapshot, RegistryVersion, RegistryVersionView};
use crate::version::{prerelease_ok, pre_ok, spec_bump_breaking, spec_render, SemVer, SemVerView};
use crate::workspace::{blocked, deps_precede, has_pkg, pkg_named, str_views, Package, PackageView, WorkspaceError, WorkspaceGraph};

verus! {

/// Severity of a change that requires a version increase.
#[derive(Debug, Default, Copy, Clone, PartialEq, Eq, Structural)]
pub enum BumpKind {
    /// No release-relevant change.
    #[default]
    Unchanged,
    Patch,
    Minor,
    Major,
}

impl BumpKind {
    /// Rank of a bump kind: a larger rank means a more severe change.
    pub open spec fn rank(self) -> int {
        match self {
            BumpKind::Unchanged => 0,
            BumpKind::Patch => 1,
            BumpKind::Minor => 2,
            BumpKind::Major => 3,
        }
    }

    /// Executable rank, equal to the specification rank.
    pub fn rank_exec(self) -> (r: u8)
        ensures
            r as int == self.rank(),
    {
        match self {
            BumpKind::Unchanged => 0,
            BumpKind::Patch => 1,
            BumpKind::Minor => 2,
            BumpKind::Major => 3,
        }
    }

    /// The more severe of two bump kinds.
    pub fn max(self, other: BumpKind) -> (r: BumpKind)
        ensures
            r == self || r == other,
            r.rank() >= self.rank() && r.rank() >= other.rank(),
    {
        if self.rank_exec() >= other.rank_exec() {
            self
        } else {
            other
        }
    }

    /// A short label for the kind.
    pub fn label(self) -> (r: &'static str)
        ensures
            self == BumpKind::Unchanged ==> r@ == "None"@,
            self == BumpKind::Patch ==> r@ == "Patch"@,
            self == BumpKind::Minor ==> r@ == "Minor"@,
            self == BumpKind::Major ==> r@ == "Major"@,
    {
        match self {
            BumpKind::Unchanged => "None",
            BumpKind::Patch => "Patch",
            BumpKind::Minor => "Minor",
            BumpKind::Major => "Major",
        }
    }
}

/// Why a package is being released.
#[derive(Debug, Copy, Clone, PartialEq, Eq, Structural)]
pub enum PublishReason {
    /// Its version was bumped by an explicit patch request.
    Bumped,
    /// It was named on the command line.
    Specified,
    /// The change detector reported it changed.
    Changed,
    /// A release of everything was requested.
    All,
}

/// Plan-wide options.
#[derive(Debug, Clone)]
pub struct Options {
    pub description: Option<String>,
}

/// An instruction to rewrite one dependency declaration.
#[derive(Debug, Clone)]
pub struct RewriteDep {
    pub name: String,
    pub version: Option<String>,
    pub path: Option<String>,
}

/// An instruction to remove one dependency declaration.
#[derive(Debug, Clone)]
pub struct RemoveDep {
    pub name: String,
    pub package: Option<String>,
}

/// An instruction to remove a feature, or one entry of a feature list.
#[derive(Debug, Clone)]
pub struct RemoveFeature {
    pub feature: String,
    pub value: Option<String>,
}

/// An instruction to drop a crate from the workspace manifest.
#[derive(Debug, Clone)]
pub struct RemoveCrate {
    pub name: String,
}

/// One release decision: a package, its version movement, and the
/// manifest edits that go with it.
#[derive(Debug, Clone)]
pub struct Publish {
    pub name: String,
    pub from: String,
    pub to: String,
    pub bump: BumpKind,
    pub reason: Option<PublishReason>,
    pub publish: bool,
    pub verify: bool,
    pub rewrite_dep: Vec<RewriteDep>,
    pub remove_dep: Vec<RemoveDep>,
    pub remove_feature: Vec<RemoveFeature>,
}

/// The whole persisted plan.
#[derive(Debug, Clone)]
pub struct Planner {
    pub options: Options,
    pub crates: Vec<Publish>,
    pub remove_crates: Vec<RemoveCrate>,
}

/// The view of an optional string.
pub open spec fn opt_view(o: Option<String>) -> Option<Seq<char>> {
    match o {
        Some(s) => Some(s@),
        None => None,
    }
}

/// Mathematical image of a [`RewriteDep`].
pub struct RewriteDepView {
    pub name: Seq<char>,
    pub version: Option<Seq<char>>,
    pub path: Option<Seq<char>>,
}

impl View for RewriteDep {
    type V = RewriteDepView;

    open spec fn view(&self) -> RewriteDepView {
        RewriteDepView {
            name: self.name@,
            version: opt_view(self.version),
            path: opt_view(self.path),
        }
    }
}

/// Mathematical image of a [`RemoveDep`].
pub struct RemoveDepView {
    pub name: Seq<char>,
    pub package: Option<Seq<char>>,
}

impl View for RemoveDep {
    type V = RemoveDepView;

    open spec fn view(&self) -> RemoveDepView {
        RemoveDepView { name: self.name@, package: opt_view(self.package) }
    }
}

/// Mathematical image of a [`RemoveFeature`].
pub struct RemoveFeatureView {
    pub feature: Seq<char>,
    pub value: Option<Seq<char>>,
}

impl View for RemoveFeature {
    type V = RemoveFeatureView;

    open spec fn view(&self) -> RemoveFeatureView {
        RemoveFeatureView { feature: self.feature@, value: opt_view(self.value) }
    }
}

/// Mathematical image of a [`RemoveCrate`].
pub struct RemoveCrateView {
    pub name: Seq<char>,
}

impl View for RemoveCrate {
    type V = RemoveCrateView;

    open spec fn view(&self) -> RemoveCrateView {
        RemoveCrateView { name: self.name@ }
    }
}

/// Mathematical image of a [`Publish`] entry.
pub struct PublishView {
    pub name: Seq<char>,
    pub from: Seq<char>,
    pub to: Seq<char>,
    pub bump: BumpKind,
    pub reason: Option<PublishReason>,
    pub publish: bool,
    pub verify: bool,
    pub rewrite_dep: Seq<RewriteDepView>,
    pub remove_dep: Seq<RemoveDepView>,
    pub remove_feature: Seq<RemoveFeatureView>,
}

impl View for Publish {
    type V = PublishView;

    open spec fn view(&self) -> PublishView {
        PublishView {
            name: self.name@,
            from: self.from@,
            to: self.to@,
            bump: self.bump,
            reason: self.reason,
            publish: self.publish,
            verify: self.verify,
            rewrite_dep: self.rewrite_dep@.map_values(|d: RewriteDep| d@),
            remove_dep: self.remove_dep@.map_values(|d: RemoveDep| d@),
            remove_feature: self.remove_feature@.map_values(|d: RemoveFeature| d@),
        }
    }
}

/// Mathematical image of a [`Planner`].
pub struct PlannerView {
    pub description: Option<Seq<char>>,
    pub crates: Seq<PublishView>,
    pub remove_crates: Seq<RemoveCrateView>,
}

impl View for Planner {
    type V = PlannerView;

    open spec fn view(&self) -> PlannerView {
        PlannerView {
            description: opt_view(self.options.description),
            crates: self.crates@.map_values(|c: Publish| c@),
            remove_crates: self.remove_crates@.map_values(|c: RemoveCrate| c@),
        }
    }
}

/// A copy of an optional string whose view equals the original's.
pub fn dup_opt_string(o: &Option<String>) -> (r: Option<String>)
    ensures
        opt_view(r) == opt_view(*o),
{
    match o {
        Some(s) => Some(s.clone()),
        None => None,
    }
}

impl RewriteDep {
    /// A copy whose view equals this one's.
    pub fn duplicate(&self) -> (r: RewriteDep)
        ensures
            r@ == self@,
    {
        RewriteDep {
            name: self.name.clone(),
            version: dup_opt_string(&self.version),
            path: dup_opt_string(&self.path),
        }
    }
}

impl RemoveDep {
    /// A copy whose view equals this one's.
    pub fn duplicate(&self) -> (r: RemoveDep)
        ensures
            r@ == self@,
    {
        RemoveDep { name: self.name.clone(), package: dup_opt_string(&self.package) }
    }
}

impl RemoveFeature {
    /// A copy whose view equals this one's.
    pub fn duplicate(&self) -> (r: RemoveFeature)
        ensures
            r@ == self@,
    {
        RemoveFeature { feature: self.feature.clone(), value: dup_opt_string(&self.value) }
    }
}

impl RemoveCrate {
    /// A copy whose view equals this one's.
    pub fn duplicate(&self) -> (r: RemoveCrate)
        ensures
            r@ == self@,
    {
        RemoveCrate { name: self.name.clone() }
    }
}

impl Publish {
    /// A copy whose view equals this one's.
    pub fn duplicate(&self) -> (r: Publish)
        ensures
            r@ == self@,
    {
        let mut rewrite_dep: Vec<RewriteDep> = Vec::new();
        let mut i: usize = 0;
        while i < self.rewrite_dep.len()
            invariant
                i <= self.rewrite_dep@.len(),
                rewrite_dep@.len() == i,
                forall|k: int| 0 <= k < i ==> (#[trigger] rewrite_dep@[k])@ == self.rewrite_dep@[k]@,
            decreases self.rewrite_dep@.len() - i,
        {
            rewrite_dep.push(self.rewrite_dep[i].duplicate());
            i += 1;
        }
        let mut remove_dep: Vec<RemoveDep> = Vec::new();
        let mut i: usize = 0;
        while i < self.remove_dep.len()
            invariant
                i <= self.remove_dep@.len(),
                remove_dep@.len() == i,
                forall|k: int| 0 <= k < i ==> (#[trigger] remove_dep@[k])@ == self.remove_dep@[k]@,
            decreases self.remove_dep@.len() - i,
        {
            remove_dep.push(self.remove_dep[i].duplicate());
            i += 1;
        }
        let mut remove_feature: Vec<RemoveFeature> = Vec::new();
        let mut i: usize = 0;
        while i < self.remove_feature.len()
            invariant
                i <= self.remove_feature@.len(),
                remove_feature@.len() == i,
                forall|k: int|
                    0 <= k < i ==> (#[trigger] remove_feature@[k])@ == self.remove_feature@[k]@,
            decreases self.remove_feature@.len() - i,
        {
            remove_feature.push(self.remove_feature[i].duplicate());
            i += 1;
        }
        let r = Publish {
            name: self.name.clone(),
            from: self.from.clone(),
            to: self.to.clone(),
            bump: self.bump,
            reason: self.reason,
            publish: self.publish,
            verify: self.verify,
            rewrite_dep,
            remove_dep,
            remove_feature,
        };
        proof {
            assert(r@.rewrite_dep =~= self@.rewrite_dep);
            assert(r@.remove_dep =~= self@.remove_dep);
            assert(r@.remove_feature =~= self@.remove_feature);
        }
        r
    }
}

/// A version floor for seeding: a package that has never been released
/// starts at `0.1.0` rather than below it.
pub open spec fn floor_version(v: SemVerView) -> SemVerView {
    if v.major == 0 && v.minor == 0 {
        SemVerView { major: 0, minor: 1, patch: 0, pre: Seq::empty() }
    } else {
        v
    }
}

/// The `from` version of a package: the highest full release the
/// registry knows, or the on-disk version stripped of its prerelease
/// identifier when the registry knows none, floored at `0.1.0`.
pub open spec fn spec_from(vs: Seq<RegistryVersionView>, disk: SemVerView) -> SemVerView {
    match spec_max_release(vs) {
        Some(m) => floor_version(m),
        None => floor_version(disk.stripped()),
    }
}

/// What a request asked the planner to do.
#[derive(Debug, Clone)]
pub struct PlanRequest {
    /// Start fresh, discarding any prior plan.
    pub fresh: bool,
    /// Release every package.
    pub all: bool,
    /// The package names named explicitly.
    pub crates: Vec<String>,
    /// A prerelease suffix for the published versions.
    pub pre: Option<String>,
    /// A description suffix for the plan.
    pub description: Option<String>,
}

/// Mathematical image of a [`PlanRequest`].
pub struct PlanRequestView {
    pub fresh: bool,
    pub all: bool,
    pub crates: Seq<Seq<char>>,
    pub pre: Option<Seq<char>>,
    pub description: Option<Seq<char>>,
}

impl View for PlanRequest {
    type V = PlanRequestView;

    open spec fn view(&self) -> PlanRequestView {
        PlanRequestView {
            fresh: self.fresh,
            all: self.all,
            crates: str_views(self.crates@),
            pre: opt_view(self.pre),
            description: opt_view(self.description),
        }
    }
}

/// Whether the change list reports a release-relevant change for this
/// name.
pub open spec fn changed_reported(changes: Seq<ChangeView>, n: Seq<char>) -> bool {
    match change_for(changes, n) {
        Some(b) => b != BumpKind::Unchanged,
        None => false,
    }
}

/// Whether some earlier entry is a dependency of this package and was
/// already decided to need a non-patch release.
pub open spec fn dep_cascade(prior: Seq<PublishView>, deps: Seq<Seq<char>>) -> bool {
    exists|k: int, d: int|
        #![trigger prior[k].name, deps[d]]
        0 <= k < prior.len() && 0 <= d < deps.len() && prior[k].name == deps[d] && prior[k].publish
            && prior[k].bump.rank() >= 2
}

/// Whether the package must release: it is eligible, and was named
/// explicitly, or reported changed, or everything is being released, or
/// one of its dependencies was already decided to need a non-patch
/// release — dependencies are always visited first, so one forward pass
/// suffices.
pub open spec fn spec_should_publish(
    gp: PackageView,
    req: PlanRequestView,
    changes: Seq<ChangeView>,
    prior: Seq<PublishView>,
) -> bool {
    gp.publish && (req.all || req.crates.contains(gp.name) || changed_reported(changes, gp.name)
        || dep_cascade(prior, gp.deps))
}

/// Why the package is released, the most specific ground first.
pub open spec fn spec_reason(
    gp: PackageView,
    req: PlanRequestView,
    changes: Seq<ChangeView>,
    prior: Seq<PublishView>,
) -> PublishReason {
    if req.crates.contains(gp.name) {
        PublishReason::Specified
    } else if changed_reported(changes, gp.name) {
        PublishReason::Changed
    } else if dep_cascade(prior, gp.deps) {
        PublishReason::Bumped
    } else {
        PublishReason::All
    }
}

/// The bump kind recorded in the entry: the reported classification, or
/// a breaking bump when none was reported.
pub open spec fn spec_kind(changes: Seq<ChangeView>, n: Seq<char>) -> BumpKind {
    match change_for(changes, n) {
        Some(b) => if b != BumpKind::Unchanged {
            b
        } else {
            BumpKind::Major
        },
        None => BumpKind::Major,
    }
}

/// The numeric part of `to`: the on-disk version (stripped) when it is
/// already ahead of `from` and compatible with it, else a breaking bump
/// of `from`.
pub open spec fn spec_base_to(from: SemVerView, disk: SemVerView) -> SemVerView {
    if from.lt(disk) && from.compatible(disk) {
        disk.stripped()
    } else {
        spec_bump_breaking(from)
    }
}

/// A version with the configured prerelease suffix applied.
pub open spec fn with_pre(v: SemVerView, pre: Option<Seq<char>>) -> SemVerView {
    match pre {
        Some(p) => SemVerView { pre: p, ..v },
        None => v,
    }
}

/// The `to` version of a releasing package.
pub open spec fn spec_to(from: SemVerView, disk: SemVerView, pre: Option<Seq<char>>) -> SemVerView {
    with_pre(spec_base_to(from, disk), pre)
}

/// The entry the planner computes for a package it has no prior entry
/// for.  When the computed `to` already exists as a full release in the
/// registry, the planning is stale: the entry is demoted to
/// `publish = false` with `from` set to that version.
pub open spec fn fresh_entry(
    gp: PackageView,
    vs: Seq<RegistryVersionView>,
    snapv: Seq<crate::registry::CrateVersionsView>,
    prior: Seq<PublishView>,
    req: PlanRequestView,
    changes: Seq<ChangeView>,
) -> PublishView {
    let from = spec_from(vs, gp.version);
    if !spec_should_publish(gp, req, changes, prior) {
        PublishView {
            name: gp.name,
            from: spec_render(from),
            to: spec_render(from),
            bump: BumpKind::Unchanged,
            reason: None,
            publish: false,
            verify: true,
            rewrite_dep: Seq::empty(),
            remove_dep: Seq::empty(),
            remove_feature: Seq::empty(),
        }
    } else {
        let to = spec_to(from, gp.version, req.pre);
        if to.is_release() && snap_has_version(snapv, gp.name, to) {
            PublishView {
                name: gp.name,
                from: spec_render(to),
                to: spec_render(to),
                bump: spec_kind(changes, gp.name),
                reason: Some(spec_reason(gp, req, changes, prior)),
                publish: false,
                verify: true,
                rewrite_dep: Seq::empty(),
                remove_dep: Seq::empty(),
                remove_feature: Seq::empty(),
            }
        } else {
            PublishView {
                name: gp.name,
                from: spec_render(from),
                to: spec_render(to),
                bump: spec_kind(changes, gp.name),
                reason: Some(spec_reason(gp, req, changes, prior)),
                publish: true,
                verify: true,
                rewrite_dep: Seq::empty(),
                remove_dep: Seq::empty(),
                remove_feature: Seq::empty(),
            }
        }
    }
}

/// Stale-version demotion: whenever the version the planner would
/// publish already exists as a full release in the registry, the
/// computed entry has `publish` false and `from` equal to `to`.
pub proof fn lemma_stale_demotion(
    gp: PackageView,
    vs: Seq<RegistryVersionView>,
    snapv: Seq<crate::registry::CrateVersionsView>,
    prior: Seq<PublishView>,
    req: PlanRequestView,
    changes: Seq<ChangeView>,
)
    ensures
        ({
            let to = spec_to(spec_from(vs, gp.version), gp.version, req.pre);
            (to.is_release() && snap_has_version(snapv, gp.name, to)) ==> {
                let e = fresh_entry(gp, vs, snapv, prior, req, changes);
                !e.publish && e.from == e.to
            }
        }),
{
}

/// The `from` version of a package, as [`spec_from`].
pub fn get_version(snapshot: &RegistrySnapshot, pkg: &Package) -> (r: SemVer)
    requires
        snapshot.wf(),
    ensures
        r@ == spec_from(versions_of(snapshot@, pkg@.name), pkg@.version),
{
    let base = match snapshot.find_crate(pkg.name.as_str()) {
        Some(i) => {
            proof {
                let j = choose|j: int|
                    0 <= j < snapshot@.len() && snapshot@[j].name == pkg@.name;
                if j != i as int {
                    assert(false);
                }
                assert(versions_of(snapshot@, pkg@.name) == snapshot@[i as int].versions);
            }
            match max_release(&snapshot.crates[i].versions) {
                Some(v) => v,
                None => pkg.version.strip_pre(),
            }
        },
        None => {
            proof {
                assert(versions_of(snapshot@, pkg@.name) =~= Seq::<RegistryVersionView>::empty());
            }
            pkg.version.strip_pre()
        },
    };
    if base.major == 0 && base.minor == 0 {
        let r = SemVer::release(0, 1, 0);
        proof {
            assert(r@.pre =~= Seq::<char>::empty());
        }
        r
    } else {
        base
    }
}

/// Whether some earlier entry covers a dependency of the package with a
/// non-patch release, as [`dep_cascade`].
fn dep_cascade_exec(prior: &Vec<Publish>, pkg: &Package) -> (r: bool)
    ensures
        r == dep_cascade(prior@.map_values(|c: Publish| c@), pkg@.deps),
{
    let ghost pv = prior@.map_values(|c: Publish| c@);
    let np = prior.len();
    let mut k: usize = 0;
    while k < np
        invariant
            np == prior@.len(),
            pv == prior@.map_values(|c: Publish| c@),
            k <= np,
            forall|k2: int, d: int|
                #![trigger pv[k2].name, pkg@.deps[d]]
                0 <= k2 < k && 0 <= d < pkg@.deps.len() ==> !(pv[k2].name == pkg@.deps[d]
                    && pv[k2].publish && pv[k2].bump.rank() >= 2),
        decreases np - k,
    {
        if prior[k].publish && prior[k].bump.rank_exec() >= 2 {
            let nd = pkg.deps.len();
            let mut d: usize = 0;
            while d < nd
                invariant
                    np == prior@.len(),
                    pv == prior@.map_values(|c: Publish| c@),
                    k < np,
                    nd == pkg@.deps.len(),
                    d <= nd,
                    pv[k as int].publish && pv[k as int].bump.rank() >= 2,
                    forall|d2: int|
                        0 <= d2 < d ==> pv[k as int].name != #[trigger] pkg@.deps[d2],
                decreases nd - d,
            {
                if crate::shared::str_eq(prior[k].name.as_str(), pkg.deps[d].as_str()) {
                    proof {
                        assert(pv[k as int].name == pkg@.deps[d as int]);
                    }
                    return true;
                }
                d += 1;
            }
        }
        k += 1;
    }
    false
}

/// The entry the planner computes afresh for one package, as
/// [`fresh_entry`].
pub fn plan_entry(
    pkg: &Package,
    snapshot: &RegistrySnapshot,
    prior: &Vec<Publish>,
    req: &PlanRequest,
    changes: &Vec<Change>,
) -> (r: Publish)
    requires
        snapshot.wf(),
    ensures
        r@ == fresh_entry(
            pkg@,
            versions_of(snapshot@, pkg@.name),
            snapshot@,
            prior@.map_values(|c: Publish| c@),
            req@,
            change_views(changes@),
        ),
{
    let from = get_version(snapshot, pkg);
    let requested = crate::apply::contains_name(&req.crates, pkg.name.as_str());
    let reported = match change_bump_for(changes, pkg.name.as_str()) {
        Some(b) => b.rank_exec() > 0,
        None => false,
    };
    let cascade = dep_cascade_exec(prior, pkg);
    let should = pkg.publish && (req.all || requested || reported || cascade);
    if !should {
        let r = Publish {
            name: pkg.name.clone(),
            from: from.render(),
            to: from.render(),
            bump: BumpKind::Unchanged,
            reason: None,
            publish: false,
            verify: true,
            rewrite_dep: Vec::new(),
            remove_dep: Vec::new(),
            remove_feature: Vec::new(),
        };
        proof {
            assert(r@.rewrite_dep =~= Seq::<RewriteDepView>::empty());
            assert(r@.remove_dep =~= Seq::<RemoveDepView>::empty());
            assert(r@.remove_feature =~= Seq::<RemoveFeatureView>::empty());
        }
        return r;
    }
    let base = if from.lt(&pkg.version) && from.compatible(&pkg.version) {
        pkg.version.strip_pre()
    } else {
        from.bump_breaking()
    };
    let to = match &req.pre {
        Some(p) => SemVer { major: base.major, minor: base.minor, patch: base.patch, pre: p.clone() },
        None => base,
    };
    proof {
        assert(to@ == spec_to(from@, pkg@.version, req@.pre));
    }
    let kind = match change_bump_for(changes, pkg.name.as_str()) {
        Some(b) => if b.rank_exec() > 0 {
            b
        } else {
            BumpKind::Major
        },
        None => BumpKind::Major,
    };
    let reason = if requested {
        PublishReason::Specified
    } else if reported {
        PublishReason::Changed
    } else if cascade {
        PublishReason::Bumped
    } else {
        PublishReason::All
    };
    let stale = to.is_release() && snapshot.version_exists(pkg.name.as_str(), &to);
    let r = if stale {
        Publish {
            name: pkg.name.clone(),
            from: to.render(),
            to: to.render(),
            bump: kind,
            reason: Some(reason),
            publish: false,
            verify: true,
            rewrite_dep: Vec::new(),
            remove_dep: Vec::new(),
            remove_feature: Vec::new(),
        }
    } else {
        Publish {
            name: pkg.name.clone(),
            from: from.render(),
            to: to.render(),
            bump: kind,
            reason: Some(reason),
            publish: true,
            verify: true,
            rewrite_dep: Vec::new(),
            remove_dep: Vec::new(),
            remove_feature: Vec::new(),
        }
    };
    proof {
        assert(r@.rewrite_dep =~= Seq::<RewriteDepView>::empty());
        assert(r@.remove_dep =~= Seq::<RemoveDepView>::empty());
        assert(r@.remove_feature =~= Seq::<RemoveFeatureView>::empty());
    }
    r
}

/// A failure while planning.
#[derive(Debug, Clone)]
pub enum PlanError {
    /// The workspace has no dependency-respecting order: the named
    /// packages block each other.
    CyclicDependency(Vec<String>),
    /// The configured prerelease suffix is not a well-formed prerelease
    /// identifier.
    InvalidPrerelease,
    /// The named plan entry's version does not parse: the persisted plan
    /// is malformed.
    MalformedEntry(String),
}

/// The first prior entry bearing this name, if any.
pub open spec fn old_entry_for(olds: Seq<PublishView>, n: Seq<char>) -> Option<PublishView>
    decreases olds.len(),
{
    if olds.len() == 0 {
        None
    } else if olds.first().name == n {
        Some(olds.first())
    } else {
        old_entry_for(olds.drop_first(), n)
    }
}

/// The names of the plan entries, in order.
pub open spec fn entry_names(entries: Seq<PublishView>) -> Seq<Seq<char>> {
    entries.map_values(|e: PublishView| e.name)
}

/// The views of the plan entries.
pub open spec fn entry_views(entries: Seq<Publish>) -> Seq<PublishView> {
    entries.map_values(|e: Publish| e@)
}

/// What one generated entry must be: the prior entry verbatim when one
/// exists and a fresh start was not requested — this is what makes
/// repeated planning idempotent — and the freshly computed entry
/// otherwise.
pub open spec fn per_entry_ok(
    g: Seq<PackageView>,
    snapv: Seq<crate::registry::CrateVersionsView>,
    oldv: PlannerView,
    reqv: PlanRequestView,
    cv: Seq<ChangeView>,
    entries: Seq<PublishView>,
    k: int,
) -> bool {
    match (if reqv.fresh {
        None
    } else {
        old_entry_for(oldv.crates, entries[k].name)
    }) {
        Some(e) => entries[k] == e,
        None => entries[k] == fresh_entry(
            pkg_named(g, entries[k].name),
            versions_of(snapv, entries[k].name),
            snapv,
            entries.take(k),
            reqv,
            cv,
        ),
    }
}

/// The index of the first prior entry bearing this name, if any.
fn find_old(olds: &Vec<Publish>, name: &str) -> (r: Option<usize>)
    ensures
        match r {
            Some(i) => i < olds@.len() && old_entry_for(entry_views(olds@), name@) == Some(
                entry_views(olds@)[i as int],
            ) && entry_views(olds@)[i as int].name == name@,
            None => old_entry_for(entry_views(olds@), name@) is None,
        },
{
    let ghost ov = entry_views(olds@);
    proof {
        assert(ov.skip(0) =~= ov);
    }
    let n = olds.len();
    let mut i: usize = 0;
    while i < n
        invariant
            n == olds@.len(),
            ov == entry_views(olds@),
            i <= n,
            old_entry_for(ov, name@) == old_entry_for(ov.skip(i as int), name@),
        decreases n - i,
    {
        proof {
            assert(ov.skip(i as int).first() == ov[i as int]);
            assert(ov.skip(i as int).drop_first() =~= ov.skip(i + 1));
        }
        if crate::shared::str_eq(olds[i].name.as_str(), name) {
            proof {
                assert(ov[i as int].name == name@);
                assert(old_entry_for(ov.skip(i as int), name@) == Some(ov[i as int]));
            }
            return Some(i);
        }
        i += 1;
    }
    proof {
        assert(ov.skip(n as int).len() == 0);
    }
    None
}

/// Generate the plan: every workspace package gets one entry, in
/// dependency order.  An entry already present in the prior plan is
/// reused verbatim unless a fresh plan was requested; the rest are
/// computed as [`fresh_entry`] says.  Fails exactly when the workspace
/// has no dependency order or the prerelease suffix is ill-formed.
#[verifier::rlimit(60)]
pub fn generate_plan(
    graph: &WorkspaceGraph,
    snapshot: &RegistrySnapshot,
    old_plan: &Planner,
    req: &PlanRequest,
    changes: &Vec<Change>,
) -> (r: Result<Planner, PlanError>)
    requires
        graph.wf(),
        snapshot.wf(),
    ensures
        match r {
            Ok(p) => {
                &&& p@.description == (if req@.description is Some {
                    req@.description
                } else {
                    old_plan@.description
                })
                &&& p@.remove_crates.len() == 0
                &&& forall|i: int|
                    0 <= i < graph@.len() ==> entry_names(p@.crates).contains(
                        #[trigger] graph@[i].name,
                    )
                &&& forall|k: int|
                    0 <= k < p@.crates.len() ==> has_pkg(
                        graph@,
                        #[trigger] entry_names(p@.crates)[k],
                    )
                &&& forall|k1: int, k2: int|
                    0 <= k1 < k2 < p@.crates.len() ==> entry_names(p@.crates)[k1] != entry_names(
                        p@.crates,
                    )[k2]
                &&& deps_precede(graph@, entry_names(p@.crates))
                &&& forall|k: int|
                    0 <= k < p@.crates.len() ==> per_entry_ok(
                        graph@,
                        snapshot@,
                        old_plan@,
                        req@,
                        change_views(changes@),
                        p@.crates,
                        k,
                    )
            },
            Err(e) => match e {
                PlanError::InvalidPrerelease => req@.pre matches Some(s) && !pre_ok(s),
                PlanError::CyclicDependency(rem) => rem@.len() > 0 && forall|k: int|
                    0 <= k < rem@.len() ==> has_pkg(graph@, #[trigger] str_views(rem@)[k])
                        && blocked(graph@, str_views(rem@), str_views(rem@)[k]),
                PlanError::MalformedEntry(_) => false,
            },
        },
{
    if let Some(p) = &req.pre {
        if !prerelease_ok(p.as_str()) {
            return Err(PlanError::InvalidPrerelease);
        }
    }
    let order = match graph.order() {
        Ok(o) => o,
        Err(e) => {
            match e {
                WorkspaceError::CyclicDependency(rem) => {
                    return Err(PlanError::CyclicDependency(rem));
                },
                WorkspaceError::DuplicateName(n) => {
                    proof {
                        assert(false);
                    }
                    return Err(PlanError::CyclicDependency(Vec::new()));
                },
            }
        },
    };
    let ghost g = graph@;
    let ghost oldv = old_plan@;
    let ghost reqv = req@;
    let ghost cv = change_views(changes@);
    let ghost snapv = snapshot@;
    let n = order.len();
    let mut crates: Vec<Publish> = Vec::new();
    let mut k: usize = 0;
    while k < n
        invariant
            graph.wf(),
            snapshot.wf(),
            g == graph@,
            oldv == old_plan@,
            reqv == req@,
            cv == change_views(changes@),
            snapv == snapshot@,
            n == order@.len(),
            k <= n,
            crates@.len() == k,
            entry_names(entry_views(crates@)) =~= str_views(order@).take(k as int),
            forall|j: int|
                0 <= j < k ==> per_entry_ok(g, snapv, oldv, reqv, cv, entry_views(crates@), j),
            forall|j: int| 0 <= j < order@.len() ==> has_pkg(g, #[trigger] str_views(order@)[j]),
            forall|j1: int, j2: int|
                0 <= j1 < j2 < order@.len() ==> str_views(order@)[j1] != str_views(order@)[j2],
            deps_precede(g, str_views(order@)),
            forall|i: int| 0 <= i < g.len() ==> str_views(order@).contains(#[trigger] g[i].name),
        decreases n - k,
    {
        let ghost pre_entries = entry_views(crates@);
        let name = &order[k];
        proof {
            assert(name@ == str_views(order@)[k as int]);
        }
        let old_idx = if req.fresh {
            None
        } else {
            find_old(&old_plan.crates, name.as_str())
        };
        match old_idx {
            Some(oi) => {
                crates.push(old_plan.crates[oi].duplicate());
            },
            None => {
                let pi = match graph.find_package(name.as_str()) {
                    Some(pi) => pi,
                    None => {
                        proof {
                            assert(has_pkg(g, name@));
                            assert(false);
                        }
                        return Err(PlanError::InvalidPrerelease);
                    },
                };
                proof {
                    let j = choose|j: int| 0 <= j < g.len() && g[j].name == name@;
                    if j != pi as int {
                        assert(false);
                    }
                    assert(pkg_named(g, name@) == g[pi as int]);
                    assert((&graph.packages[pi as int])@ == g[pi as int]);
                }
                let e = plan_entry(&graph.packages[pi], snapshot, &crates, req, changes);
                crates.push(e);
            },
        }
        proof {
            let entries = entry_views(crates@);
            assert(entries =~= pre_entries.push(crates@[k as int]@));
            assert(entries.take(k as int) =~= pre_entries);
            assert(entry_names(entries) =~= entry_names(pre_entries).push(entries[k as int].name));
            assert(str_views(order@).take(k + 1) =~= str_views(order@).take(k as int).push(
                str_views(order@)[k as int],
            ));
            assert(entries[k as int].name == name@);
            assert(entry_names(entries) =~= str_views(order@).take(k + 1));
            assert forall|j: int| 0 <= j < k + 1 implies per_entry_ok(
                g,
                snapv,
                oldv,
                reqv,
                cv,
                entries,
                j,
            ) by {
                if j < k as int {
                    assert(entries[j] == pre_entries[j]);
                    assert(entries.take(j) =~= pre_entries.take(j));
                    assert(per_entry_ok(g, snapv, oldv, reqv, cv, pre_entries, j));
                } else {
                    assert(entries.take(k as int) =~= pre_entries);
                }
            }
        }
        k += 1;
    }
    let description = match &req.description {
        Some(d) => Some(d.clone()),
        None => dup_opt_string(&old_plan.options.description),
    };
    let p = Planner { options: Options { description }, crates, remove_crates: Vec::new() };
    proof {
        assert(p@.remove_crates =~= Seq::<RemoveCrateView>::empty());
        assert(p@.crates =~= entry_views(p.crates@));
        assert(entry_names(p@.crates) =~= str_views(order@).take(n as int));
        assert(str_views(order@).take(n as int) =~= str_views(order@));
        assert forall|i: int| 0 <= i < graph@.len() implies entry_names(p@.crates).contains(
            #[trigger] graph@[i].name,
        ) by {
            assert(str_views(order@).contains(graph@[i].name));
            let j = choose|j: int|
                0 <= j < str_views(order@).len() && str_views(order@)[j] == graph@[i].name;
            assert(entry_names(p@.crates)[j] == graph@[i].name);
        }
    }
    Ok(p)
}

/// Idempotence: regenerating a plan on top of a prior plan that already
/// has an entry for every package, with no fresh start requested,
/// reproduces every prior entry verbatim — the same `from`, `to`, bump
/// and publish flag.  The hypotheses are exactly what [`generate_plan`]
/// ensures of its result together with a prior plan that covers all
/// packages.
pub proof fn lemma_plan_idempotent(
    g: Seq<PackageView>,
    snapv: Seq<crate::registry::CrateVersionsView>,
    oldv: PlannerView,
    reqv: PlanRequestView,
    cv: Seq<ChangeView>,
    entries: Seq<PublishView>,
)
    requires
        !reqv.fresh,
        forall|k: int| 0 <= k < entries.len() ==> per_entry_ok(g, snapv, oldv, reqv, cv, entries, k),
        forall|k: int|
            0 <= k < entries.len() ==> old_entry_for(oldv.crates, (#[trigger] entries[k]).name)
                is Some,
    ensures
        forall|k: int|
            0 <= k < entries.len() ==> Some(#[trigger] entries[k]) == old_entry_for(
                oldv.crates,
                entries[k].name,
            ),
{
    assert forall|k: int| 0 <= k < entries.len() implies Some(#[trigger] entries[k])
        == old_entry_for(oldv.crates, entries[k].name) by {
        assert(per_entry_ok(g, snapv, oldv, reqv, cv, entries, k));
        assert(old_entry_for(oldv.crates, entries[k].name) is Some);
    }
}

/// The maximum release, when there is one, is itself a full release.
pub proof fn lemma_max_release_is_release(vs: Seq<RegistryVersionView>)
    ensures
        spec_max_release(vs) matches Some(m) ==> m.is_release(),
    decreases vs.len(),
{
    if vs.len() > 0 {
        lemma_max_release_is_release(vs.drop_last());
    }
}

/// The planner's `from` never carries a prerelease identifier.
pub proof fn lemma_spec_from_is_release(vs: Seq<RegistryVersionView>, disk: SemVerView)
    ensures
        spec_from(vs, disk).is_release(),
{
    lemma_max_release_is_release(vs);
}

/// Whether an entry's versions move monotonically: `to >= from`, and
/// `to = from` wherever `publish` is false, read off the canonical
/// renderings.
pub open spec fn monotone_entry(e: PublishView) -> bool {
    exists|fv: SemVerView, tv: SemVerView|
        #![auto]
        e.from == spec_render(fv) && e.to == spec_render(tv) && fv.le(tv) && (!e.publish
            ==> fv.eq(tv))
}

/// Monotonicity: every entry the planner computes afresh moves its
/// version forward, `to >= from`, and a non-publishing entry keeps
/// `to = from`.  A `from` with a numeric component at the limit is
/// exempt, as its bump saturates there.
pub proof fn lemma_fresh_entry_monotone(
    gp: PackageView,
    vs: Seq<RegistryVersionView>,
    snapv: Seq<crate::registry::CrateVersionsView>,
    prior: Seq<PublishView>,
    req: PlanRequestView,
    changes: Seq<ChangeView>,
)
    requires
        spec_from(vs, gp.version).major < u64::MAX,
        spec_from(vs, gp.version).minor < u64::MAX,
        spec_from(vs, gp.version).patch < u64::MAX,
    ensures
        monotone_entry(fresh_entry(gp, vs, snapv, prior, req, changes)),
{
    let from = spec_from(vs, gp.version);
    let e = fresh_entry(gp, vs, snapv, prior, req, changes);
    lemma_spec_from_is_release(vs, gp.version);
    if !spec_should_publish(gp, req, changes, prior) {
        assert(e.from == spec_render(from) && e.to == spec_render(from));
        assert(from.le(from));
    } else {
        let to = spec_to(from, gp.version, req.pre);
        if to.is_release() && snap_has_version(snapv, gp.name, to) {
            assert(e.from == spec_render(to) && e.to == spec_render(to));
            assert(to.le(to));
        } else {
            assert(e.from == spec_render(from) && e.to == spec_render(to));
            let base = spec_base_to(from, gp.version);
            if from.lt(gp.version) && from.compatible(gp.version) {
                assert(from.pre.len() == 0);
                assert(from.triple_lt(gp.version));
                assert(from.triple_lt(base));
                assert(from.triple_lt(to));
            } else {
                assert(base == spec_bump_breaking(from));
                assert(from.triple_lt(to));
            }
            assert(from.le(to));
        }
    }
}

/// A first match comes from the list itself.
proof fn lemma_old_entry_member(olds: Seq<PublishView>, n: Seq<char>)
    ensures
        old_entry_for(olds, n) matches Some(e) ==> olds.contains(e),
    decreases olds.len(),
{
    if olds.len() > 0 {
        if olds.first().name == n {
            assert(olds[0] == olds.first());
        } else {
            lemma_old_entry_member(olds.drop_first(), n);
            match old_entry_for(olds.drop_first(), n) {
                Some(e) => {
                    let i = choose|i: int|
                        0 <= i < olds.drop_first().len() && olds.drop_first()[i] == e;
                    assert(olds[i + 1] == e);
                },
                None => {},
            }
        }
    }
}

/// Monotonicity of a whole generated plan: when every entry of the prior
/// plan moves its version forward, so does every entry of the generated
/// plan — reused entries carry the prior plan's property, fresh entries
/// have it by construction.  Versions with a numeric component at the
/// limit are exempt.
pub proof fn lemma_plan_monotone(
    g: Seq<PackageView>,
    snapv: Seq<crate::registry::CrateVersionsView>,
    oldv: PlannerView,
    reqv: PlanRequestView,
    cv: Seq<ChangeView>,
    entries: Seq<PublishView>,
)
    requires
        forall|k: int| 0 <= k < entries.len() ==> per_entry_ok(g, snapv, oldv, reqv, cv, entries, k),
        forall|k: int|
            0 <= k < oldv.crates.len() ==> monotone_entry(#[trigger] oldv.crates[k]),
        forall|k: int|
            0 <= k < entries.len() ==> {
                let fv = spec_from(
                    versions_of(snapv, (#[trigger] entries[k]).name),
                    pkg_named(g, entries[k].name).version,
                );
                fv.major < u64::MAX && fv.minor < u64::MAX && fv.patch < u64::MAX
            },
    ensures
        forall|k: int| 0 <= k < entries.len() ==> monotone_entry(#[trigger] entries[k]),
{
    assert forall|k: int| 0 <= k < entries.len() implies monotone_entry(#[trigger] entries[k]) by {
        assert(per_entry_ok(g, snapv, oldv, reqv, cv, entries, k));
        let fv = spec_from(
            versions_of(snapv, entries[k].name),
            pkg_named(g, entries[k].name).version,
        );
        assert(fv.major < u64::MAX && fv.minor < u64::MAX && fv.patch < u64::MAX);
        let looked = if reqv.fresh {
            None
        } else {
            old_entry_for(oldv.crates, entries[k].name)
        };
        match looked {
            Some(e) => {
                lemma_old_entry_member(oldv.crates, entries[k].name);
                let i = choose|i: int| 0 <= i < oldv.crates.len() && oldv.crates[i] == e;
                assert(monotone_entry(oldv.crates[i]));
            },
            None => {
                lemma_fresh_entry_monotone(
                    pkg_named(g, entries[k].name),
                    versions_of(snapv, entries[k].name),
                    snapv,
                    entries.take(k),
                    reqv,
                    cv,
                );
            },
        }
    }
}

/// Whether the version list holds exactly this version.
pub open spec fn vs_has(vs: Seq<RegistryVersionView>, v: SemVerView) -> bool {
    exists|k: int| 0 <= k < vs.len() && (#[trigger] vs[k]).version.eq(v)
}

/// Whether the version list holds a `0.x` version with this minor
/// component.
pub open spec fn vs_has_minor0(vs: Seq<RegistryVersionView>, minor: u64) -> bool {
    exists|k: int|
        0 <= k < vs.len() && (#[trigger] vs[k]).version.major == 0 && vs[k].version.minor == minor
}

/// Whether the version list holds a version with this major component.
pub open spec fn vs_has_major(vs: Seq<RegistryVersionView>, major: u64) -> bool {
    exists|k: int| 0 <= k < vs.len() && (#[trigger] vs[k]).version.major == major
}

/// The next patch version the registry does not hold yet: the patch
/// component is incremented, repeatedly while the result is taken.  At
/// the numeric limit the version stays put.
pub open spec fn skip_taken_patch(vs: Seq<RegistryVersionView>, v: SemVerView) -> SemVerView
    decreases u64::MAX - v.patch,
{
    if v.patch == u64::MAX {
        v
    } else {
        let w = SemVerView { patch: (v.patch + 1) as u64, ..v };
        if vs_has(vs, w) {
            skip_taken_patch(vs, w)
        } else {
            w
        }
    }
}

/// The next compatible version the registry does not hold yet: for a
/// `0.x` version the patch moves, otherwise the minor moves and the
/// patch resets, repeatedly while the result is taken.
pub open spec fn skip_taken_minor(vs: Seq<RegistryVersionView>, v: SemVerView) -> SemVerView
    decreases
            u64::MAX - if v.major == 0 {
                v.patch
            } else {
                v.minor
            },
{
    if v.major == 0 {
        if v.patch == u64::MAX {
            v
        } else {
            let w = SemVerView { patch: (v.patch + 1) as u64, ..v };
            if vs_has(vs, w) {
                skip_taken_minor(vs, w)
            } else {
                w
            }
        }
    } else {
        if v.minor == u64::MAX {
            v
        } else {
            let w = SemVerView { minor: (v.minor + 1) as u64, patch: 0, ..v };
            if vs_has(vs, w) {
                skip_taken_minor(vs, w)
            } else {
                w
            }
        }
    }
}

/// The next breaking version whose breaking component the registry does
/// not use yet: for a `0.x` version the minor moves until no `0.minor`
/// release is taken; otherwise the major moves until no release with
/// that major exists.
pub open spec fn skip_taken_major(vs: Seq<RegistryVersionView>, v: SemVerView) -> SemVerView
    decreases
            u64::MAX - if v.major == 0 {
                v.minor
            } else {
                v.major
            },
{
    if v.major == 0 {
        if v.minor == u64::MAX {
            v
        } else {
            let w = SemVerView { minor: (v.minor + 1) as u64, patch: 0, ..v };
            if vs_has_minor0(vs, w.minor) {
                skip_taken_major(vs, w)
            } else {
                w
            }
        }
    } else {
        if v.major == u64::MAX {
            v
        } else {
            let w = SemVerView { major: (v.major + 1) as u64, minor: 0, patch: 0, ..v };
            if vs_has_major(vs, w.major) {
                skip_taken_major(vs, w)
            } else {
                w
            }
        }
    }
}

/// Whether the version list holds exactly this version, as [`vs_has`].
fn has_version_in(versions: &Vec<RegistryVersion>, v: &SemVer) -> (r: bool)
    ensures
        r == vs_has(versions@.map_values(|x: RegistryVersion| x@), v@),
{
    let ghost vs = versions@.map_values(|x: RegistryVersion| x@);
    let n = versions.len();
    let mut k: usize = 0;
    while k < n
        invariant
            n == versions@.len(),
            vs == versions@.map_values(|x: RegistryVersion| x@),
            k <= n,
            forall|j: int| 0 <= j < k ==> !(#[trigger] vs[j]).version.eq(v@),
        decreases n - k,
    {
        if versions[k].version.same(v) {
            proof {
                assert(vs[k as int].version.eq(v@));
            }
            return true;
        }
        k += 1;
    }
    false
}

/// Whether the version list holds a `0.x` version with this minor
/// component, as [`vs_has_minor0`].
fn has_minor0_in(versions: &Vec<RegistryVersion>, minor: u64) -> (r: bool)
    ensures
        r == vs_has_minor0(versions@.map_values(|x: RegistryVersion| x@), minor),
{
    let ghost vs = versions@.map_values(|x: RegistryVersion| x@);
    let n = versions.len();
    let mut k: usize = 0;
    while k < n
        invariant
            n == versions@.len(),
            vs == versions@.map_values(|x: RegistryVersion| x@),
            k <= n,
            forall|j: int|
                0 <= j < k ==> !((#[trigger] vs[j]).version.major == 0 && vs[j].version.minor
                    == minor),
        decreases n - k,
    {
        if versions[k].version.major == 0 && versions[k].version.minor == minor {
            proof {
                assert(vs[k as int].version.major == 0 && vs[k as int].version.minor == minor);
            }
            return true;
        }
        k += 1;
    }
    false
}

/// Whether the version list holds a version with this major component,
/// as [`vs_has_major`].
fn has_major_in(versions: &Vec<RegistryVersion>, major: u64) -> (r: bool)
    ensures
        r == vs_has_major(versions@.map_values(|x: RegistryVersion| x@), major),
{
    let ghost vs = versions@.map_values(|x: RegistryVersion| x@);
    let n = versions.len();
    let mut k: usize = 0;
    while k < n
        invariant
            n == versions@.len(),
            vs == versions@.map_values(|x: RegistryVersion| x@),
            k <= n,
            forall|j: int| 0 <= j < k ==> (#[trigger] vs[j]).version.major != major,
        decreases n - k,
    {
        if versions[k].version.major == major {
            proof {
                assert(vs[k as int].version.major == major);
            }
            return true;
        }
        k += 1;
    }
    false
}

/// The next free patch version, as [`skip_taken_patch`].
fn skip_patch_exec(versions: &Vec<RegistryVersion>, v: &SemVer) -> (r: SemVer)
    ensures
        r@ == skip_taken_patch(versions@.map_values(|x: RegistryVersion| x@), v@),
{
    let ghost vs = versions@.map_values(|x: RegistryVersion| x@);
    let mut cur = v.duplicate();
    let mut done = false;
    while !done
        invariant
            vs == versions@.map_values(|x: RegistryVersion| x@),
            !done ==> skip_taken_patch(vs, v@) == skip_taken_patch(vs, cur@),
            done ==> cur@ == skip_taken_patch(vs, v@),
        decreases (u64::MAX - cur.patch) + if done {
            0int
        } else {
            1int
        },
    {
        if cur.patch == u64::MAX {
            done = true;
        } else {
            cur.patch = cur.patch + 1;
            if !has_version_in(versions, &cur) {
                done = true;
            }
        }
    }
    cur
}

/// The next free compatible version, as [`skip_taken_minor`].
fn skip_minor_exec(versions: &Vec<RegistryVersion>, v: &SemVer) -> (r: SemVer)
    ensures
        r@ == skip_taken_minor(versions@.map_values(|x: RegistryVersion| x@), v@),
{
    let ghost vs = versions@.map_values(|x: RegistryVersion| x@);
    let mut cur = v.duplicate();
    let mut done = false;
    while !done
        invariant
            vs == versions@.map_values(|x: RegistryVersion| x@),
            cur.major == v.major,
            !done ==> skip_taken_minor(vs, v@) == skip_taken_minor(vs, cur@),
            done ==> cur@ == skip_taken_minor(vs, v@),
        decreases (u64::MAX - if cur.major == 0 {
            cur.patch
        } else {
            cur.minor
        }) + if done {
            0int
        } else {
            1int
        },
    {
        if cur.major == 0 {
            if cur.patch == u64::MAX {
                done = true;
            } else {
                cur.patch = cur.patch + 1;
                if !has_version_in(versions, &cur) {
                    done = true;
                }
            }
        } else {
            if cur.minor == u64::MAX {
                done = true;
            } else {
                cur.minor = cur.minor + 1;
                cur.patch = 0;
                if !has_version_in(versions, &cur) {
                    done = true;
                }
            }
        }
    }
    cur
}

/// The next free breaking version, as [`skip_taken_major`].
fn skip_major_exec(versions: &Vec<RegistryVersion>, v: &SemVer) -> (r: SemVer)
    ensures
        r@ == skip_taken_major(versions@.map_values(|x: RegistryVersion| x@), v@),
{
    let ghost vs = versions@.map_values(|x: RegistryVersion| x@);
    let mut cur = v.duplicate();
    let mut done = false;
    while !done
        invariant
            vs == versions@.map_values(|x: RegistryVersion| x@),
            cur.major == 0 <==> v.major == 0,
            !done ==> skip_taken_major(vs, v@) == skip_taken_major(vs, cur@),
            done ==> cur@ == skip_taken_major(vs, v@),
        decreases (u64::MAX - if cur.major == 0 {
            cur.minor
        } else {
            cur.major
        }) + if done {
            0int
        } else {
            1int
        },
    {
        if cur.major == 0 {
            if cur.minor == u64::MAX {
                done = true;
            } else {
                cur.minor = cur.minor + 1;
                cur.patch = 0;
                if !has_minor0_in(versions, cur.minor) {
                    done = true;
                }
            }
        } else {
            if cur.major == u64::MAX {
                done = true;
            } else {
                cur.major = cur.major + 1;
                cur.minor = 0;
                cur.patch = 0;
                if !has_major_in(versions, cur.major) {
                    done = true;
                }
            }
        }
    }
    cur
}

/// The index of the first entry bearing this name, or a negative value
/// when there is none.
pub open spec fn first_idx(entries: Seq<PublishView>, n: Seq<char>) -> int
    decreases entries.len(),
{
    if entries.len() == 0 {
        -1
    } else if entries.first().name == n {
        0
    } else {
        let r = first_idx(entries.drop_first(), n);
        if r < 0 {
            -1
        } else {
            r + 1
        }
    }
}

proof fn lemma_first_idx(entries: Seq<PublishView>, n: Seq<char>)
    ensures
        first_idx(entries, n) >= 0 ==> 0 <= first_idx(entries, n) < entries.len() && entries[
            first_idx(entries, n)].name == n,
        first_idx(entries, n) < 0 ==> forall|k: int|
            0 <= k < entries.len() ==> (#[trigger] entries[k]).name != n,
    decreases entries.len(),
{
    if entries.len() > 0 {
        lemma_first_idx(entries.drop_first(), n);
        if entries.first().name != n && first_idx(entries, n) < 0 {
            assert forall|k: int| 0 <= k < entries.len() implies (#[trigger] entries[k]).name
                != n by {
                if k > 0 {
                    assert(entries.drop_first()[k - 1] == entries[k]);
                }
            }
        }
    }
}

/// What one change makes of the entry it matches: the old `to` becomes
/// the new `from`, and the new `to` is the next free version of the
/// reported severity, with the configured prerelease suffix.  `None`
/// when the entry's `to` does not parse.  Only meaningful severities
/// reach this point: [`apply_one`] leaves an entry untouched on a
/// no-change report, as rewriting it could only move the version
/// backwards.
pub open spec fn bumped_entry(
    e: PublishView,
    ch: ChangeView,
    vs: Seq<RegistryVersionView>,
    pre: Option<Seq<char>>,
) -> Option<PublishView> {
    match crate::version::sem_parse(e.to) {
        None => None,
        Some(t) => {
            let v = SemVerView { major: t.0, minor: t.1, patch: t.2, pre: t.3 };
            let w = match ch.bump {
                BumpKind::Unchanged => v,  // unreachable from apply_one
                BumpKind::Patch => skip_taken_patch(vs, v),
                BumpKind::Minor => skip_taken_minor(vs, v),
                BumpKind::Major => skip_taken_major(vs, v),
            };
            let w2 = SemVerView {
                pre: match pre {
                    Some(p) => p,
                    None => Seq::empty(),
                },
                ..w
            };
            Some(
                PublishView {
                    from: e.to,
                    to: spec_render(w2),
                    bump: ch.bump,
                    reason: Some(PublishReason::Changed),
                    ..e
                },
            )
        },
    }
}

/// What one change does to the plan: nothing when the change reports no
/// release-relevant severity, no entry bears its name, or the entry is
/// not publishing; otherwise the first matching entry is re-bumped.
/// `None` when that entry's `to` does not parse.
pub open spec fn apply_one(
    entries: Seq<PublishView>,
    ch: ChangeView,
    snapv: Seq<crate::registry::CrateVersionsView>,
    pre: Option<Seq<char>>,
) -> Option<Seq<PublishView>> {
    let i = first_idx(entries, ch.name);
    if ch.bump == BumpKind::Unchanged {
        Some(entries)
    } else if i < 0 {
        Some(entries)
    } else if !entries[i].publish {
        Some(entries)
    } else {
        match bumped_entry(entries[i], ch, versions_of(snapv, ch.name), pre) {
            None => None,
            Some(e2) => Some(entries.update(i, e2)),
        }
    }
}

/// What the whole change list does to the plan, change by change.
pub open spec fn apply_changes(
    entries: Seq<PublishView>,
    changes: Seq<ChangeView>,
    snapv: Seq<crate::registry::CrateVersionsView>,
    pre: Option<Seq<char>>,
) -> Option<Seq<PublishView>>
    decreases changes.len(),
{
    if changes.len() == 0 {
        Some(entries)
    } else {
        match apply_one(entries, changes.first(), snapv, pre) {
            None => None,
            Some(e2) => apply_changes(e2, changes.drop_first(), snapv, pre),
        }
    }
}

proof fn lemma_apply_changes_push(
    entries: Seq<PublishView>,
    changes: Seq<ChangeView>,
    ch: ChangeView,
    snapv: Seq<crate::registry::CrateVersionsView>,
    pre: Option<Seq<char>>,
)
    ensures
        apply_changes(entries, changes.push(ch), snapv, pre) == (match apply_changes(
            entries,
            changes,
            snapv,
            pre,
        ) {
            None => None::<Seq<PublishView>>,
            Some(e2) => apply_one(e2, ch, snapv, pre),
        }),
    decreases changes.len(),
{
    if changes.len() == 0 {
        assert(changes.push(ch).first() == ch);
        assert(changes.push(ch).drop_first() =~= Seq::<ChangeView>::empty());
        match apply_one(entries, ch, snapv, pre) {
            None => {},
            Some(e2) => {
                assert(apply_changes(e2, changes.push(ch).drop_first(), snapv, pre) == Some(e2));
            },
        }
    } else {
        assert(changes.push(ch).first() == changes.first());
        assert(changes.push(ch).drop_first() =~= changes.drop_first().push(ch));
        match apply_one(entries, changes.first(), snapv, pre) {
            None => {},
            Some(e2) => {
                lemma_apply_changes_push(e2, changes.drop_first(), ch, snapv, pre);
                assert(apply_changes(entries, changes.push(ch), snapv, pre) == apply_changes(
                    e2,
                    changes.drop_first().push(ch),
                    snapv,
                    pre,
                ));
                assert(apply_changes(entries, changes, snapv, pre) == apply_changes(
                    e2,
                    changes.drop_first(),
                    snapv,
                    pre,
                ));
            },
        }
    }
}

/// A copy of a plan entry list whose views equal the originals'.
fn dup_entries(v: &Vec<Publish>) -> (r: Vec<Publish>)
    ensures
        entry_views(r@) == entry_views(v@),
{
    let mut r: Vec<Publish> = Vec::new();
    let mut i: usize = 0;
    while i < v.len()
        invariant
            i <= v@.len(),
            entry_views(r@) =~= entry_views(v@).take(i as int),
        decreases v@.len() - i,
    {
        let ghost prev = entry_views(r@);
        r.push(v[i].duplicate());
        proof {
            assert(entry_views(r@) =~= prev.push(v@[i as int]@));
            assert(entry_views(v@).take(i + 1) =~= entry_views(v@).take(i as int).push(
                entry_views(v@)[i as int],
            ));
        }
        i += 1;
    }
    proof {
        assert(entry_views(v@).take(v@.len() as int) =~= entry_views(v@));
    }
    r
}

/// The index of the first entry of the list bearing this name, as
/// [`first_idx`].
fn find_first_entry(entries: &Vec<Publish>, name: &str) -> (r: Option<usize>)
    ensures
        match r {
            Some(i) => i < entries@.len() && first_idx(entry_views(entries@), name@) == i as int,
            None => first_idx(entry_views(entries@), name@) < 0,
        },
{
    let ghost ev = entry_views(entries@);
    proof {
        lemma_first_idx(ev, name@);
    }
    let n = entries.len();
    let mut i: usize = 0;
    while i < n
        invariant
            n == entries@.len(),
            ev == entry_views(entries@),
            i <= n,
            forall|j: int| 0 <= j < i ==> (#[trigger] ev[j]).name != name@,
        decreases n - i,
    {
        if crate::shared::str_eq(entries[i].name.as_str(), name) {
            proof {
                assert(ev[i as int].name == name@);
                lemma_first_idx_found(ev, name@, i as int);
            }
            return Some(i);
        }
        i += 1;
    }
    proof {
        if first_idx(ev, name@) >= 0 {
            assert(ev[first_idx(ev, name@)].name == name@);
            assert(false);
        }
    }
    None
}

proof fn lemma_first_idx_found(entries: Seq<PublishView>, n: Seq<char>, i: int)
    requires
        0 <= i < entries.len(),
        entries[i].name == n,
        forall|j: int| 0 <= j < i ==> (#[trigger] entries[j]).name != n,
    ensures
        first_idx(entries, n) == i,
    decreases entries.len(),
{
    if entries.first().name == n {
        assert(i == 0);
    } else {
        assert(entries.drop_first()[i - 1] == entries[i]);
        assert(forall|j: int|
            0 <= j < i - 1 ==> (#[trigger] entries.drop_first()[j]) == entries[j + 1]);
        lemma_first_idx_found(entries.drop_first(), n, i - 1);
    }
}

/// Re-bump every changed entry of the plan: the prior `to` becomes the
/// new `from`, and the new `to` is the next registry-free version of the
/// reported severity, with the prerelease suffix applied, as
/// [`apply_changes`].  When a matched entry's recorded version does not
/// parse the plan is malformed: nothing is modified and an error names
/// the entry.
#[verifier::rlimit(60)]
pub fn apply_bump(
    pre: &Option<String>,
    planner: &mut Planner,
    snapshot: &RegistrySnapshot,
    changes: &Vec<Change>,
) -> (r: Result<(), PlanError>)
    requires
        snapshot.wf(),
    ensures
        match r {
            Ok(()) => {
                &&& apply_changes(
                    old(planner)@.crates,
                    change_views(changes@),
                    snapshot@,
                    opt_view(*pre),
                ) == Some(final(planner)@.crates)
                &&& final(planner)@.description == old(planner)@.description
                &&& final(planner)@.remove_crates == old(planner)@.remove_crates
            },
            Err(e) => {
                &&& e matches PlanError::MalformedEntry(_)
                &&& apply_changes(
                    old(planner)@.crates,
                    change_views(changes@),
                    snapshot@,
                    opt_view(*pre),
                ) is None
                &&& final(planner)@ == old(planner)@
            },
        },
{
    let ghost cv = change_views(changes@);
    let ghost old_entries = entry_views(old(planner).crates@);
    proof {
        assert(old_entries =~= old(planner)@.crates);
    }
    let ghost snapv = snapshot@;
    let ghost prev = opt_view(*pre);
    let empty_versions: Vec<RegistryVersion> = Vec::new();
    let mut work = dup_entries(&planner.crates);
    let n = changes.len();
    let mut k: usize = 0;
    while k < n
        invariant
            snapshot.wf(),
            cv == change_views(changes@),
            snapv == snapshot@,
            prev == opt_view(*pre),
            n == changes@.len(),
            k <= n,
            planner@ == old(planner)@,
            old_entries == planner@.crates,
            apply_changes(old_entries, cv.take(k as int), snapv, prev) == Some(
                entry_views(work@),
            ),
            empty_versions@.len() == 0,
        decreases n - k,
    {
        let ghost cur = entry_views(work@);
        proof {
            assert(cv.take(k + 1) =~= cv.take(k as int).push(cv[k as int]));
            lemma_apply_changes_push(old_entries, cv.take(k as int), cv[k as int], snapv, prev);
            lemma_first_idx(cur, cv[k as int].name);
        }
        let ch = &changes[k];
        proof {
            assert(ch@ == cv[k as int]);
        }
        // a report with no release-relevant severity leaves the plan as
        // it stands
        if ch.bump != BumpKind::Unchanged {
            match find_first_entry(&work, ch.name.as_str()) {
                None => {},
                Some(i) => {
                    if work[i].publish {
                        let parsed = crate::version::parse_version(work[i].to.as_str());
                        match parsed {
                            None => {
                                proof {
                                    assert(bumped_entry(
                                        cur[i as int],
                                        cv[k as int],
                                        versions_of(snapv, cv[k as int].name),
                                        prev,
                                    ) is None);
                                    assert(apply_one(cur, cv[k as int], snapv, prev) is None);
                                    lemma_apply_changes_tail(old_entries, cv, k as int, snapv, prev);
                                    assert(apply_changes(old_entries, cv, snapv, prev) is None);
                                }
                                return Err(PlanError::MalformedEntry(work[i].name.clone()));
                            },
                            Some(v) => {
                                let ghost vv = SemVerView {
                                    major: v.major,
                                    minor: v.minor,
                                    patch: v.patch,
                                    pre: v.pre@,
                                };
                                proof {
                                    assert(v@ == vv);
                                }
                                let vidx = snapshot.find_crate(ch.name.as_str());
                                let versions = match vidx {
                                    Some(vi) => {
                                        proof {
                                            let j = choose|j: int|
                                                0 <= j < snapv.len() && snapv[j].name == ch@.name;
                                            if j != vi as int {
                                                assert(false);
                                            }
                                            assert(versions_of(snapv, ch@.name) == snapv[
                                                vi as int].versions);
                                        }
                                        &snapshot.crates[vi].versions
                                    },
                                    None => {
                                        proof {
                                            assert(versions_of(snapv, ch@.name) =~= Seq::<
                                                RegistryVersionView,
                                            >::empty());
                                            assert(versions_of(snapv, ch@.name) =~= empty_versions@
                                                .map_values(|x: RegistryVersion| x@));
                                        }
                                        &empty_versions
                                    },
                                };
                                proof {
                                    assert(versions@.map_values(|x: RegistryVersion| x@)
                                        =~= versions_of(snapv, ch@.name));
                                }
                                let w = match ch.bump {
                                    BumpKind::Unchanged => v,
                                    BumpKind::Patch => skip_patch_exec(versions, &v),
                                    BumpKind::Minor => skip_minor_exec(versions, &v),
                                    BumpKind::Major => skip_major_exec(versions, &v),
                                };
                                let w2 = SemVer {
                                    major: w.major,
                                    minor: w.minor,
                                    patch: w.patch,
                                    pre: match pre {
                                        Some(p) => p.clone(),
                                        None => String::new(),
                                    },
                                };
                                let mut e2 = work[i].duplicate();
                                e2.from = work[i].to.clone();
                                e2.to = w2.render();
                                e2.bump = ch.bump;
                                e2.reason = Some(PublishReason::Changed);
                                let ghost expected = bumped_entry(
                                    cur[i as int],
                                    cv[k as int],
                                    versions_of(snapv, cv[k as int].name),
                                    prev,
                                );
                                proof {
                                    assert(w2@.pre =~= (match prev {
                                        Some(p) => p,
                                        None => Seq::<char>::empty(),
                                    }));
                                    assert(expected == Some(e2@));
                                }
                                work.set(i, e2);
                                proof {
                                    assert(entry_views(work@) =~= cur.update(
                                        i as int,
                                        expected.unwrap(),
                                    ));
                                }
                            },
                        }
                    }
                },
            }
        }
        k += 1;
    }
    proof {
        assert(cv.take(n as int) =~= cv);
    }
    let ghost final_entries = entry_views(work@);
    planner.crates = work;
    proof {
        assert(planner@.crates =~= final_entries);
    }
    Ok(())
}

/// What an explicit patch request makes of an entry: the old `to`
/// becomes the new `from` and the patch component moves up one,
/// saturating at the numeric limit.  `None` when the entry's `to` does
/// not parse.
pub open spec fn patched_entry(e: PublishView) -> Option<PublishView> {
    match crate::version::sem_parse(e.to) {
        None => None,
        Some(t) => {
            let v = SemVerView { major: t.0, minor: t.1, patch: t.2, pre: t.3 };
            let w = if v.patch == u64::MAX {
                v
            } else {
                SemVerView { patch: (v.patch + 1) as u64, ..v }
            };
            Some(
                PublishView {
                    from: e.to,
                    to: spec_render(w),
                    bump: BumpKind::Patch,
                    reason: Some(PublishReason::Bumped),
                    ..e
                },
            )
        },
    }
}

/// What one requested name does to the plan: nothing when no entry
/// bears it or the entry is not publishing, else the first matching
/// entry is patch-bumped.
pub open spec fn patch_one(entries: Seq<PublishView>, n: Seq<char>) -> Option<Seq<PublishView>> {
    let i = first_idx(entries, n);
    if i < 0 {
        Some(entries)
    } else if !entries[i].publish {
        Some(entries)
    } else {
        match patched_entry(entries[i]) {
            None => None,
            Some(e2) => Some(entries.update(i, e2)),
        }
    }
}

/// What the whole request does to the plan, name by name.
pub open spec fn patch_all(entries: Seq<PublishView>, names: Seq<Seq<char>>) -> Option<
    Seq<PublishView>,
>
    decreases names.len(),
{
    if names.len() == 0 {
        Some(entries)
    } else {
        match patch_one(entries, names.first()) {
            None => None,
            Some(e2) => patch_all(e2, names.drop_first()),
        }
    }
}

proof fn lemma_patch_all_push(entries: Seq<PublishView>, names: Seq<Seq<char>>, n: Seq<char>)
    ensures
        patch_all(entries, names.push(n)) == (match patch_all(entries, names) {
            None => None::<Seq<PublishView>>,
            Some(e2) => patch_one(e2, n),
        }),
    decreases names.len(),
{
    if names.len() == 0 {
        assert(names.push(n).first() == n);
        assert(names.push(n).drop_first() =~= Seq::<Seq<char>>::empty());
        match patch_one(entries, n) {
            None => {},
            Some(e2) => {
                assert(patch_all(e2, names.push(n).drop_first()) == Some(e2));
            },
        }
    } else {
        assert(names.push(n).first() == names.first());
        assert(names.push(n).drop_first() =~= names.drop_first().push(n));
        match patch_one(entries, names.first()) {
            None => {},
            Some(e2) => {
                lemma_patch_all_push(e2, names.drop_first(), n);
                assert(patch_all(entries, names.push(n)) == patch_all(
                    e2,
                    names.drop_first().push(n),
                ));
                assert(patch_all(entries, names) == patch_all(e2, names.drop_first()));
            },
        }
    }
}

proof fn lemma_patch_all_tail(entries: Seq<PublishView>, names: Seq<Seq<char>>, k: int)
    requires
        0 <= k < names.len(),
        patch_all(entries, names.take(k)) matches Some(e2) && patch_one(e2, names[k]) is None,
    ensures
        patch_all(entries, names) is None,
    decreases names.len(),
{
    if k == 0 {
        assert(names.take(0) =~= Seq::<Seq<char>>::empty());
        assert(names.first() == names[0]);
    } else {
        assert(names.take(k).first() == names.first());
        assert(names.take(k).drop_first() =~= names.drop_first().take(k - 1));
        match patch_one(entries, names.first()) {
            None => {},
            Some(e3) => {
                assert(names.drop_first()[k - 1] == names[k]);
                lemma_patch_all_tail(e3, names.drop_first(), k - 1);
            },
        }
    }
}

/// Patch-bump every requested entry of the plan, as [`patch_all`]: the
/// prior `to` becomes the new `from` and the patch component moves up
/// one.  When a matched entry's recorded version does not parse the
/// plan is malformed: nothing is modified and an error names the entry.
#[verifier::rlimit(60)]
pub fn patch_bump(planner: &mut Planner, names: &Vec<String>) -> (r: Result<(), PlanError>)
    ensures
        match r {
            Ok(()) => {
                &&& patch_all(old(planner)@.crates, str_views(names@)) == Some(
                    final(planner)@.crates,
                )
                &&& final(planner)@.description == old(planner)@.description
                &&& final(planner)@.remove_crates == old(planner)@.remove_crates
            },
            Err(e) => {
                &&& e matches PlanError::MalformedEntry(_)
                &&& patch_all(old(planner)@.crates, str_views(names@)) is None
                &&& final(planner)@ == old(planner)@
            },
        },
{
    let ghost nv = str_views(names@);
    let ghost old_entries = entry_views(old(planner).crates@);
    proof {
        assert(old_entries =~= old(planner)@.crates);
    }
    let mut work = dup_entries(&planner.crates);
    let n = names.len();
    let mut k: usize = 0;
    while k < n
        invariant
            nv == str_views(names@),
            n == names@.len(),
            k <= n,
            planner@ == old(planner)@,
            old_entries == planner@.crates,
            patch_all(old_entries, nv.take(k as int)) == Some(entry_views(work@)),
        decreases n - k,
    {
        let ghost cur = entry_views(work@);
        proof {
            assert(nv.take(k + 1) =~= nv.take(k as int).push(nv[k as int]));
            lemma_patch_all_push(old_entries, nv.take(k as int), nv[k as int]);
        }
        let name = &names[k];
        proof {
            assert(name@ == nv[k as int]);
        }
        match find_first_entry(&work, name.as_str()) {
            None => {},
            Some(i) => {
                if work[i].publish {
                    match crate::version::parse_version(work[i].to.as_str()) {
                        None => {
                            proof {
                                assert(patched_entry(cur[i as int]) is None);
                                assert(patch_one(cur, nv[k as int]) is None);
                                lemma_patch_all_tail(old_entries, nv, k as int);
                            }
                            return Err(PlanError::MalformedEntry(work[i].name.clone()));
                        },
                        Some(v) => {
                            let w = if v.patch == u64::MAX {
                                v
                            } else {
                                SemVer {
                                    major: v.major,
                                    minor: v.minor,
                                    patch: v.patch + 1,
                                    pre: v.pre,
                                }
                            };
                            let mut e2 = work[i].duplicate();
                            e2.from = work[i].to.clone();
                            e2.to = w.render();
                            e2.bump = BumpKind::Patch;
                            e2.reason = Some(PublishReason::Bumped);
                            let ghost expected = patched_entry(cur[i as int]);
                            proof {
                                assert(expected == Some(e2@));
                            }
                            work.set(i, e2);
                            proof {
                                assert(entry_views(work@) =~= cur.update(
                                    i as int,
                                    expected.unwrap(),
                                ));
                            }
                        },
                    }
                }
            },
        }
        k += 1;
    }
    proof {
        assert(nv.take(n as int) =~= nv);
    }
    let ghost final_entries = entry_views(work@);
    planner.crates = work;
    proof {
        assert(planner@.crates =~= final_entries);
    }
    Ok(())
}

/// The predicate "this entry is still to publish": it is marked for
/// publishing and the registry does not already hold its `to` version.
/// An entry whose `to` does not parse is kept; its publish attempt
/// fails on its own.
pub open spec fn pending_pred(
    snapv: Seq<crate::registry::CrateVersionsView>,
) -> spec_fn(PublishView) -> bool {
    |e: PublishView|
        e.publish && match crate::version::sem_parse(e.to) {
            Some(t) => !snap_has_version(
                snapv,
                e.name,
                SemVerView { major: t.0, minor: t.1, patch: t.2, pre: t.3 },
            ),
            None => true,
        }
}

/// The entries of the plan that still need publishing: exactly those
/// marked `publish` whose `to` the registry does not already hold, in
/// plan order.  A version the registry shows already is skipped, not an
/// error: an earlier run published it.
pub fn select_to_publish(planner: &Planner, snapshot: &RegistrySnapshot) -> (r: Vec<Publish>)
    requires
        snapshot.wf(),
    ensures
        entry_views(r@) == planner@.crates.filter(pending_pred(snapshot@)),
{
    let ghost ev = planner@.crates;
    proof {
        assert(ev =~= entry_views(planner.crates@));
    }
    let n = planner.crates.len();
    let mut r: Vec<Publish> = Vec::new();
    let mut k: usize = 0;
    while k < n
        invariant
            snapshot.wf(),
            ev == planner@.crates,
            n == planner.crates@.len(),
            k <= n,
            forall|j: int| 0 <= j < n ==> ev[j] == (#[trigger] planner.crates@[j])@,
            entry_views(r@) =~= ev.take(k as int).filter(pending_pred(snapshot@)),
        decreases n - k,
    {
        let ghost prev = entry_views(r@);
        let e = &planner.crates[k];
        let keep = if !e.publish {
            false
        } else {
            match crate::version::parse_version(e.to.as_str()) {
                Some(v) => !snapshot.version_exists(e.name.as_str(), &v),
                None => true,
            }
        };
        proof {
            assert(keep == pending_pred(snapshot@)(ev[k as int]));
        }
        if keep {
            r.push(e.duplicate());
        }
        proof {
            assert(ev.take(k + 1) =~= ev.take(k as int).push(ev[k as int]));
            crate::workspace::lemma_filter_push(
                ev.take(k as int),
                pending_pred(snapshot@),
                ev[k as int],
            );
            if keep {
                assert(entry_views(r@) =~= prev.push(ev[k as int]));
            }
            assert(entry_views(r@) =~= ev.take(k + 1).filter(pending_pred(snapshot@)));
        }
        k += 1;
    }
    proof {
        assert(ev.take(n as int) =~= ev);
    }
    r
}

/// A patch skip keeps the leading components and strictly raises the
/// patch, unless it starts at the numeric limit.
pub proof fn lemma_skip_patch_raises(vs: Seq<RegistryVersionView>, v: SemVerView)
    requires
        v.patch < u64::MAX,
    ensures
        skip_taken_patch(vs, v).major == v.major,
        skip_taken_patch(vs, v).minor == v.minor,
        skip_taken_patch(vs, v).patch > v.patch,
        v.triple_lt(skip_taken_patch(vs, v)),
    decreases u64::MAX - v.patch,
{
    let w = SemVerView { patch: (v.patch + 1) as u64, ..v };
    if vs_has(vs, w) {
        if w.patch < u64::MAX {
            lemma_skip_patch_raises(vs, w);
        } else {
            assert(skip_taken_patch(vs, w) == w);
        }
    }
}

/// A compatible skip strictly raises the moving component: the patch of
/// a `0.x` version, the minor otherwise.
pub proof fn lemma_skip_minor_raises(vs: Seq<RegistryVersionView>, v: SemVerView)
    requires
        v.major == 0 ==> v.patch < u64::MAX,
        v.major != 0 ==> v.minor < u64::MAX,
    ensures
        skip_taken_minor(vs, v).major == v.major,
        v.triple_lt(skip_taken_minor(vs, v)),
    decreases
            u64::MAX - if v.major == 0 {
                v.patch
            } else {
                v.minor
            },
{
    if v.major == 0 {
        let w = SemVerView { patch: (v.patch + 1) as u64, ..v };
        if vs_has(vs, w) {
            if w.patch < u64::MAX {
                lemma_skip_minor_raises(vs, w);
            } else {
                assert(skip_taken_minor(vs, w) == w);
            }
        }
    } else {
        let w = SemVerView { minor: (v.minor + 1) as u64, patch: 0, ..v };
        if vs_has(vs, w) {
            if w.minor < u64::MAX {
                lemma_skip_minor_raises(vs, w);
            } else {
                assert(skip_taken_minor(vs, w) == w);
            }
        }
    }
}

/// A breaking skip strictly raises the breaking component: the minor of
/// a `0.x` version, the major otherwise.
pub proof fn lemma_skip_major_raises(vs: Seq<RegistryVersionView>, v: SemVerView)
    requires
        v.major == 0 ==> v.minor < u64::MAX,
        v.major != 0 ==> v.major < u64::MAX,
    ensures
        v.triple_lt(skip_taken_major(vs, v)),
    decreases
            u64::MAX - if v.major == 0 {
                v.minor
            } else {
                v.major
            },
{
    if v.major == 0 {
        let w = SemVerView { minor: (v.minor + 1) as u64, patch: 0, ..v };
        if vs_has_minor0(vs, w.minor) {
            if w.minor < u64::MAX {
                lemma_skip_major_raises(vs, w);
            } else {
                assert(skip_taken_major(vs, w) == w);
            }
        }
    } else {
        let w = SemVerView { major: (v.major + 1) as u64, minor: 0, patch: 0, ..v };
        if vs_has_major(vs, w.major) {
            if w.major < u64::MAX {
                lemma_skip_major_raises(vs, w);
            } else {
                assert(skip_taken_major(vs, w) == w);
            }
        }
    }
}

/// Monotonicity of the re-bump: whenever a change rewrites an entry,
/// the entry moves forward — the old `to` becomes the new `from`, and
/// the new `to` renders a version whose numeric components lie strictly
/// above the old ones, whatever prerelease suffix is applied.  A `to`
/// with a numeric component at the limit is exempt, as its skip
/// saturates there.
pub proof fn lemma_bumped_entry_monotone(
    e: PublishView,
    ch: ChangeView,
    vs: Seq<RegistryVersionView>,
    pre: Option<Seq<char>>,
)
    requires
        ch.bump != BumpKind::Unchanged,
        match crate::version::sem_parse(e.to) {
            Some(t) => t.0 < u64::MAX && t.1 < u64::MAX && t.2 < u64::MAX,
            None => true,
        },
    ensures
        bumped_entry(e, ch, vs, pre) matches Some(e2) ==> {
            &&& e2.from == e.to
            &&& exists|v: SemVerView, w: SemVerView|
                #![auto]
                crate::version::sem_parse(e.to) == Some((v.major, v.minor, v.patch, v.pre))
                    && e2.to == spec_render(w) && v.triple_lt(w) && v.le(w)
        },
{
    match crate::version::sem_parse(e.to) {
        None => {},
        Some(t) => {
            let v = SemVerView { major: t.0, minor: t.1, patch: t.2, pre: t.3 };
            let w0 = match ch.bump {
                BumpKind::Unchanged => v,
                BumpKind::Patch => skip_taken_patch(vs, v),
                BumpKind::Minor => skip_taken_minor(vs, v),
                BumpKind::Major => skip_taken_major(vs, v),
            };
            match ch.bump {
                BumpKind::Unchanged => {},
                BumpKind::Patch => lemma_skip_patch_raises(vs, v),
                BumpKind::Minor => lemma_skip_minor_raises(vs, v),
                BumpKind::Major => lemma_skip_major_raises(vs, v),
            }
            let w = SemVerView {
                pre: match pre {
                    Some(p) => p,
                    None => Seq::empty(),
                },
                ..w0
            };
            assert(v.triple_lt(w));
            assert(crate::version::sem_parse(e.to) == Some((v.major, v.minor, v.patch, v.pre)));
        },
    }
}

/// What one change leaves of each entry: untouched, or moved forward as
/// [`lemma_bumped_entry_monotone`] says.
pub proof fn lemma_apply_one_monotone(
    entries: Seq<PublishView>,
    ch: ChangeView,
    snapv: Seq<crate::registry::CrateVersionsView>,
    pre: Option<Seq<char>>,
)
    requires
        forall|j: int|
            0 <= j < entries.len() ==> match crate::version::sem_parse(
                (#[trigger] entries[j]).to,
            ) {
                Some(t) => t.0 < u64::MAX && t.1 < u64::MAX && t.2 < u64::MAX,
                None => true,
            },
    ensures
        apply_one(entries, ch, snapv, pre) matches Some(out) ==> out.len() == entries.len()
            && forall|j: int|
            0 <= j < entries.len() ==> (#[trigger] out[j]) == entries[j] || {
                &&& out[j].from == entries[j].to
                &&& exists|v: SemVerView, w: SemVerView|
                    #![auto]
                    crate::version::sem_parse(entries[j].to) == Some(
                        (v.major, v.minor, v.patch, v.pre),
                    ) && out[j].to == spec_render(w) && v.triple_lt(w) && v.le(w)
            },
{
    if ch.bump != BumpKind::Unchanged {
        let i = first_idx(entries, ch.name);
        lemma_first_idx(entries, ch.name);
        if 0 <= i < entries.len() && entries[i].publish {
            lemma_bumped_entry_monotone(entries[i], ch, versions_of(snapv, ch.name), pre);
        }
    }
}

/// A failed step fails the whole fold.
proof fn lemma_apply_changes_tail(
    entries: Seq<PublishView>,
    changes: Seq<ChangeView>,
    k: int,
    snapv: Seq<crate::registry::CrateVersionsView>,
    pre: Option<Seq<char>>,
)
    requires
        0 <= k < changes.len(),
        apply_changes(entries, changes.take(k), snapv, pre) matches Some(e2) && apply_one(
            e2,
            changes[k],
            snapv,
            pre,
        ) is None,
    ensures
        apply_changes(entries, changes, snapv, pre) is None,
    decreases changes.len(),
{
    if k == 0 {
        assert(changes.take(0) =~= Seq::<ChangeView>::empty());
        assert(changes.first() == changes[0]);
    } else {
        assert(changes.take(k).first() == changes.first());
        assert(changes.take(k).drop_first() =~= changes.drop_first().take(k - 1));
        match apply_one(entries, changes.first(), snapv, pre) {
            None => {},
            Some(e3) => {
                assert(changes.drop_first()[k - 1] == changes[k]);
                lemma_apply_changes_tail(e3, changes.drop_first(), k - 1, snapv, pre);
            },
        }
    }
}

} // verus!
