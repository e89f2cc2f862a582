//! Pre-publish checks: what is wrong with each crate and whether the
//! run as a whole must fail.

use vstd::prelude::*;

use crate::cli::Check;
use crate::workspace::{
    has_pkg, lemma_filter_push, pkg_named, PackageView, WorkspaceGraph,
};

verus! {

/// A crate that another crate depends on, by name and path.
#[derive(Debug, Clone)]
pub struct NamePath {
    pub name: String,
    pub path: String,
}

/// Everything the pre-publish check found wrong with one crate.
#[derive(Debug, Clone)]
pub struct Issues {
    pub name: String,
    pub path: String,
    pub no_desc: bool,
    pub no_repo: bool,
    pub no_license: bool,
    pub unpublished: bool,
    pub taken: bool,
    pub broken_readme: bool,
    pub prerelease: bool,
    pub version_zero: bool,
    pub needs_publish: Option<Vec<NamePath>>,
}

impl Issues {
    /// A record with nothing wrong, for the named crate.
    pub fn clean(name: String, path: String) -> (r: Issues)
        ensures
            r.name@ == name@,
            r.path@ == path@,
            !r.has_issue_spec(),
    {
        Issues {
            name,
            path,
            no_desc: false,
            no_repo: false,
            no_license: false,
            unpublished: false,
            taken: false,
            broken_readme: false,
            prerelease: false,
            version_zero: false,
            needs_publish: None,
        }
    }

    /// Whether anything at all was found.
    pub open spec fn has_issue_spec(&self) -> bool {
        self.no_license || self.taken || self.broken_readme || self.needs_publish is Some
            || self.no_desc || self.no_repo || self.unpublished || self.prerelease
            || self.version_zero
    }

    /// Whether anything at all was found.
    pub fn has_issue(&self) -> (r: bool)
        ensures
            r == self.has_issue_spec(),
    {
        self.no_license || self.taken || self.broken_readme || self.needs_publish.is_some()
            || self.no_desc || self.no_repo || self.unpublished || self.prerelease
            || self.version_zero
    }

    /// Whether what was found fails the run under the given options.
    /// Missing description and repository are nonfatal when allowed;
    /// being unpublished is excused by its own flag.
    pub open spec fn ret_err_spec(&self, check: Check) -> bool {
        self.no_license || self.taken || self.broken_readme || self.needs_publish is Some
            || self.prerelease || self.version_zero || (self.no_desc && !check.allow_nonfatal) || (
        self.no_repo && !check.allow_nonfatal) || (self.no_desc && !check.allow_unpublished)
    }

    /// Whether what was found fails the run, as [`Issues::ret_err_spec`].
    pub fn ret_err(&self, check: &Check) -> (r: bool)
        ensures
            r == self.ret_err_spec(*check),
    {
        let no_desc = self.no_desc && !check.allow_nonfatal;
        let no_repo = self.no_repo && !check.allow_nonfatal;
        let unpublished = self.no_desc && !check.allow_unpublished;
        self.no_license || self.taken || self.broken_readme || self.needs_publish.is_some()
            || self.prerelease || self.version_zero || no_desc || no_repo || unpublished
    }
}

/// Mathematical image of a [`NamePath`].
pub struct NamePathView {
    pub name: Seq<char>,
    pub path: Seq<char>,
}

impl View for NamePath {
    type V = NamePathView;

    open spec fn view(&self) -> NamePathView {
        NamePathView { name: self.name@, path: self.path@ }
    }
}

/// The predicate "this package is publishable and declares a dependency
/// on `n`", as a value.
pub open spec fn publishing_dependent_pred(n: Seq<char>) -> spec_fn(PackageView) -> bool {
    |p: PackageView| p.publish && p.deps.contains(n)
}

/// Name and path of a package, as a value.
pub open spec fn name_path_of() -> spec_fn(PackageView) -> NamePathView {
    |p: PackageView| NamePathView { name: p.name, path: p.path }
}

/// The publishable packages that declare a dependency on the named
/// package, in workspace order, with their paths.
pub fn publishing_dependents(w: &WorkspaceGraph, name: &str) -> (r: Vec<NamePath>)
    ensures
        r@.map_values(|np: NamePath| np@) == w@.filter(
            publishing_dependent_pred(name@),
        ).map_values(name_path_of()),
{
    let n = w.packages.len();
    let mut r: Vec<NamePath> = Vec::new();
    let mut i: usize = 0;
    while i < n
        invariant
            n == w@.len(),
            i <= n,
            r@.map_values(|np: NamePath| np@) =~= w@.take(i as int).filter(
                publishing_dependent_pred(name@),
            ).map_values(name_path_of()),
        decreases n - i,
    {
        let ghost prev = r@.map_values(|np: NamePath| np@);
        let hit = w.packages[i].publish && WorkspaceGraph::has_dep(&w.packages[i], name);
        if hit {
            r.push(
                NamePath {
                    name: w.packages[i].name.clone(),
                    path: w.packages[i].path.clone(),
                },
            );
        }
        proof {
            assert(w@.take(i + 1) =~= w@.take(i as int).push(w@[i as int]));
            lemma_filter_push(w@.take(i as int), publishing_dependent_pred(name@), w@[i as int]);
            assert(publishing_dependent_pred(name@)(w@[i as int]) == (w@[i as int].publish && w@[
                i as int].deps.contains(name@)));
            if hit {
                assert(r@.map_values(|np: NamePath| np@) =~= prev.push(
                    name_path_of()(w@[i as int]),
                ));
                assert(r@.map_values(|np: NamePath| np@) =~= w@.take(i + 1).filter(
                    publishing_dependent_pred(name@),
                ).map_values(name_path_of()));
            } else {
                assert(r@.map_values(|np: NamePath| np@) =~= w@.take(i + 1).filter(
                    publishing_dependent_pred(name@),
                ).map_values(name_path_of()));
            }
        }
        i += 1;
    }
    proof {
        assert(w@.take(n as int) =~= w@);
    }
    r
}

/// Fill the dependents finding of one crate's record: a crate that is
/// set to not publish, while publishable crates depend on it, cannot be
/// left out of the release.  The finding lists exactly the publishable
/// direct dependents; with none, the record is left untouched.
pub fn fill_needs_publish(w: &WorkspaceGraph, issues: &mut Issues)
    requires
        w.wf(),
        has_pkg(w@, old(issues).name@),
    ensures
        final(issues).name@ == old(issues).name@,
        final(issues).path@ == old(issues).path@,
        pkg_named(w@, old(issues).name@).publish ==> final(issues).needs_publish == old(
            issues,
        ).needs_publish,
        !pkg_named(w@, old(issues).name@).publish ==> (if w@.filter(
            publishing_dependent_pred(old(issues).name@),
        ).len() > 0 {
            final(issues).needs_publish matches Some(deps) && deps@.map_values(
                |np: NamePath| np@,
            ) == w@.filter(publishing_dependent_pred(old(issues).name@)).map_values(
                name_path_of(),
            )
        } else {
            final(issues).needs_publish == old(issues).needs_publish
        }),
        final(issues).no_desc == old(issues).no_desc,
        final(issues).no_repo == old(issues).no_repo,
        final(issues).no_license == old(issues).no_license,
        final(issues).unpublished == old(issues).unpublished,
        final(issues).taken == old(issues).taken,
        final(issues).broken_readme == old(issues).broken_readme,
        final(issues).prerelease == old(issues).prerelease,
        final(issues).version_zero == old(issues).version_zero,
{
    let eligible = match w.find_package(issues.name.as_str()) {
        Some(i) => {
            proof {
                let j = choose|j: int| 0 <= j < w@.len() && w@[j].name == issues.name@;
                if j != i as int {
                    assert(false);
                }
                assert(pkg_named(w@, issues.name@) == w@[i as int]);
            }
            w.packages[i].publish
        },
        None => {
            proof {
                assert(false);
            }
            true
        },
    };
    if !eligible {
        let deps = publishing_dependents(w, issues.name.as_str());
        if deps.len() > 0 {
            proof {
                assert(deps@.map_values(|np: NamePath| np@).len() == w@.filter(
                    publishing_dependent_pred(issues.name@),
                ).map_values(name_path_of()).len());
            }
            issues.needs_publish = Some(deps);
        } else {
            proof {
                assert(deps@.map_values(|np: NamePath| np@).len() == w@.filter(
                    publishing_dependent_pred(issues.name@),
                ).map_values(name_path_of()).len());
            }
        }
    }
}

/// The exit status of a check run: one exactly when some crate's
/// findings fail the run under the given options, else zero.
pub fn check(issues: &Vec<Issues>, opts: &Check) -> (r: i32)
    ensures
        (r == 1) == (exists|k: int|
            0 <= k < issues@.len() && (#[trigger] issues@[k]).ret_err_spec(*opts)),
        r == 0 || r == 1,
{
    let n = issues.len();
    let mut k: usize = 0;
    while k < n
        invariant
            n == issues@.len(),
            k <= n,
            forall|j: int| 0 <= j < k ==> !(#[trigger] issues@[j]).ret_err_spec(*opts),
        decreases n - k,
    {
        if issues[k].ret_err(opts) {
            return 1;
        }
        k += 1;
    }
    0
}

} // verus!
