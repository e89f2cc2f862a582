//! A snapshot of what the remote registry knows: for each package name,
//! the versions it has seen and whether each is yanked.  The snapshot is
//! read-only during a run; how it was fetched is not this crate's
//! concern.

use vstd::prelude::*;

use crate::shared::str_eq;
use crate::version::{SemVer, SemVerView};

verus! {

/// One version known to the registry.
#[derive(Debug, Clone)]
pub struct RegistryVersion {
    pub version: SemVer,
    pub yanked: bool,
}

/// Mathematical image of a [`RegistryVersion`].
pub struct RegistryVersionView {
    pub version: SemVerView,
    pub yanked: bool,
}

impl View for RegistryVersion {
    type V = RegistryVersionView;

    open spec fn view(&self) -> RegistryVersionView {
        RegistryVersionView { version: self.version@, yanked: self.yanked }
    }
}

/// The versions the registry knows for one package name.
#[derive(Debug, Clone)]
pub struct CrateVersions {
    pub name: String,
    pub versions: Vec<RegistryVersion>,
}

/// Mathematical image of a [`CrateVersions`].
pub struct CrateVersionsView {
    pub name: Seq<char>,
    pub versions: Seq<RegistryVersionView>,
}

impl View for CrateVersions {
    type V = CrateVersionsView;

    open spec fn view(&self) -> CrateVersionsView {
        CrateVersionsView {
            name: self.name@,
            versions: self.versions@.map_values(|v: RegistryVersion| v@),
        }
    }
}

/// The whole snapshot.
#[derive(Debug, Clone)]
pub struct RegistrySnapshot {
    pub crates: Vec<CrateVersions>,
}

impl View for RegistrySnapshot {
    type V = Seq<CrateVersionsView>;

    open spec fn view(&self) -> Seq<CrateVersionsView> {
        self.crates@.map_values(|c: CrateVersions| c@)
    }
}

/// Whether the snapshot has an entry for this package name.
pub open spec fn snap_has(s: Seq<CrateVersionsView>, n: Seq<char>) -> bool {
    exists|i: int| 0 <= i < s.len() && s[i].name == n
}

/// The versions recorded for this name; empty when the snapshot has no
/// entry (meaningful when names are unique).
pub open spec fn versions_of(s: Seq<CrateVersionsView>, n: Seq<char>) -> Seq<RegistryVersionView> {
    if snap_has(s, n) {
        s[choose|i: int| 0 <= i < s.len() && s[i].name == n].versions
    } else {
        Seq::empty()
    }
}

/// Whether the snapshot records exactly this version for this name.
pub open spec fn snap_has_version(s: Seq<CrateVersionsView>, n: Seq<char>, v: SemVerView) -> bool {
    exists|k: int| 0 <= k < versions_of(s, n).len() && versions_of(s, n)[k].version.eq(v)
}

impl RegistrySnapshot {
    /// Pairwise distinct package names.
    pub open spec fn wf(&self) -> bool {
        forall|i: int, j: int|
            0 <= i < j < self@.len() ==> (#[trigger] self@[i]).name != (#[trigger] self@[j]).name
    }

    /// The index of the entry for this name, if any.
    pub fn find_crate(&self, name: &str) -> (r: Option<usize>)
        ensures
            match r {
                Some(i) => i < self@.len() && self@[i as int].name == name@,
                None => !snap_has(self@, name@),
            },
    {
        let n = self.crates.len();
        let mut i: usize = 0;
        while i < n
            invariant
                n == self@.len(),
                i <= n,
                forall|j: int| 0 <= j < i ==> (#[trigger] self@[j]).name != name@,
            decreases n - i,
        {
            if str_eq(self.crates[i].name.as_str(), name) {
                return Some(i);
            }
            i += 1;
        }
        None
    }

    /// Whether the registry records exactly this version for this name.
    /// A package that the registry does not know at all is a normal
    /// answer, not an error: the result is then simply false.
    pub fn version_exists(&self, name: &str, ver: &SemVer) -> (r: bool)
        requires
            self.wf(),
        ensures
            r == snap_has_version(self@, name@, ver@),
    {
        match self.find_crate(name) {
            None => {
                proof {
                    assert(!snap_has(self@, name@));
                    assert(versions_of(self@, name@).len() == 0);
                }
                false
            },
            Some(i) => {
                proof {
                    let j = choose|j: int| 0 <= j < self@.len() && self@[j].name == name@;
                    if j != i as int {
                        assert(false);
                    }
                    assert(versions_of(self@, name@) == self@[i as int].versions);
                }
                let entry = &self.crates[i];
                assert(entry@ == self@[i as int]);
                let nv = entry.versions.len();
                let mut k: usize = 0;
                while k < nv
                    invariant
                        nv == entry@.versions.len(),
                        entry@ == self@[i as int],
                        versions_of(self@, name@) == entry@.versions,
                        k <= nv,
                        forall|k2: int|
                            0 <= k2 < k ==> !(#[trigger] entry@.versions[k2]).version.eq(ver@),
                    decreases nv - k,
                {
                    if entry.versions[k].version.same(ver) {
                        proof {
                            assert(entry@.versions[k as int].version.eq(ver@));
                        }
                        return true;
                    }
                    k += 1;
                }
                false
            },
        }
    }
}

/// The highest full-release version in the list, scanning from the
/// front: later entries win only when strictly larger.  Yanked versions
/// are considered too, as the registry still owns those version numbers.
pub open spec fn spec_max_release(vs: Seq<RegistryVersionView>) -> Option<SemVerView>
    decreases vs.len(),
{
    if vs.len() == 0 {
        None
    } else {
        let rest = spec_max_release(vs.drop_last());
        if !vs.last().version.is_release() {
            rest
        } else {
            match rest {
                None => Some(vs.last().version),
                Some(m) => if m.triple_lt(vs.last().version) {
                    Some(vs.last().version)
                } else {
                    Some(m)
                },
            }
        }
    }
}

/// The highest full-release version in the list, as
/// [`spec_max_release`].
pub fn max_release(versions: &Vec<RegistryVersion>) -> (r: Option<SemVer>)
    ensures
        match r {
            Some(v) => spec_max_release(versions@.map_values(|x: RegistryVersion| x@)) == Some(
                v@,
            ),
            None => spec_max_release(versions@.map_values(|x: RegistryVersion| x@)) is None,
        },
{
    let ghost vs = versions@.map_values(|x: RegistryVersion| x@);
    let n = versions.len();
    let mut best: Option<SemVer> = None;
    let mut k: usize = 0;
    while k < n
        invariant
            n == versions@.len(),
            vs == versions@.map_values(|x: RegistryVersion| x@),
            k <= n,
            match best {
                Some(v) => spec_max_release(vs.take(k as int)) == Some(v@) && v@.is_release(),
                None => spec_max_release(vs.take(k as int)) is None,
            },
        decreases n - k,
    {
        proof {
            assert(vs.take(k + 1).drop_last() =~= vs.take(k as int));
            assert(vs.take(k + 1).last() == vs[k as int]);
        }
        if versions[k].version.is_release() {
            let better = match &best {
                None => true,
                Some(b) => b.lt(&versions[k].version),
            };
            proof {
                assert(vs[k as int].version == versions@[k as int]@.version);
            }
            if better {
                best = Some(versions[k].version.duplicate());
            }
        }
        k += 1;
    }
    proof {
        assert(vs.take(n as int) =~= vs);
    }
    best
}

} // verus!
