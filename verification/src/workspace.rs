//! The in-memory model of a workspace: its packages and the dependency
//! edges between them, and the topological ordering that every later
//! stage relies on.

use vstd::prelude::*;

use crate::shared::str_eq;
use crate::version::{SemVer, SemVerView};

verus! {

/// One releasable package of the workspace.
#[derive(Debug, Clone)]
pub struct Package {
    /// The package's unique name.
    pub name: String,
    /// Where the package lives, relative to the workspace root.
    pub path: String,
    /// The version currently written in its manifest.
    pub version: SemVer,
    /// Whether the package may be published at all.
    pub publish: bool,
    /// Names of the intra-workspace dependencies (development-only edges
    /// excluded).  A name that no workspace member bears is ignored for
    /// ordering purposes.
    pub deps: Vec<String>,
    /// Names of dependencies outside the workspace.
    pub external_deps: Vec<String>,
}

/// Mathematical image of a [`Package`].
pub struct PackageView {
    pub name: Seq<char>,
    pub path: Seq<char>,
    pub version: SemVerView,
    pub publish: bool,
    pub deps: Seq<Seq<char>>,
    pub external_deps: Seq<Seq<char>>,
}

impl View for Package {
    type V = PackageView;

    open spec fn view(&self) -> PackageView {
        PackageView {
            name: self.name@,
            path: self.path@,
            version: self.version@,
            publish: self.publish,
            deps: self.deps@.map_values(|d: String| d@),
            external_deps: self.external_deps@.map_values(|d: String| d@),
        }
    }
}

/// The views of a sequence of strings.
pub open spec fn str_views(s: Seq<String>) -> Seq<Seq<char>> {
    s.map_values(|x: String| x@)
}

/// Whether some package of the graph bears this name.
pub open spec fn has_pkg(g: Seq<PackageView>, n: Seq<char>) -> bool {
    exists|i: int| 0 <= i < g.len() && g[i].name == n
}

/// Whether the named package is marked emitted; `emitted` is indexed like
/// the graph.
pub open spec fn emitted_name(g: Seq<PackageView>, emitted: Seq<bool>, n: Seq<char>) -> bool {
    exists|j: int| 0 <= j < g.len() && g[j].name == n && emitted[j]
}

/// Whether every intra-workspace dependency of `p` is already emitted.
pub open spec fn ready(g: Seq<PackageView>, emitted: Seq<bool>, p: PackageView) -> bool {
    forall|d: int|
        0 <= d < p.deps.len() && has_pkg(g, #[trigger] p.deps[d]) ==> emitted_name(
            g,
            emitted,
            p.deps[d],
        )
}

/// The package of the graph bearing this name (meaningful only when
/// [`has_pkg`] holds and names are unique).
pub open spec fn pkg_named(g: Seq<PackageView>, n: Seq<char>) -> PackageView {
    g[choose|i: int| 0 <= i < g.len() && g[i].name == n]
}

/// Whether the named package has an intra-workspace dependency inside the
/// name set `s`: the shape of a dependency cycle certificate.
pub open spec fn blocked(g: Seq<PackageView>, s: Seq<Seq<char>>, n: Seq<char>) -> bool {
    exists|i: int, d: int|
        #![trigger g[i].deps[d]]
        0 <= i < g.len() && g[i].name == n && 0 <= d < g[i].deps.len() && has_pkg(g, g[i].deps[d])
            && s.contains(g[i].deps[d])
}

/// The dependency-order property of an ordering: every intra-workspace
/// dependency of a package appears strictly before the package itself.
pub open spec fn deps_precede(g: Seq<PackageView>, o: Seq<Seq<char>>) -> bool {
    forall|k: int, i: int, d: int|
        #![trigger o[k], g[i].deps[d]]
        0 <= k < o.len() && 0 <= i < g.len() && g[i].name == o[k] && 0 <= d < g[i].deps.len()
            && has_pkg(g, g[i].deps[d]) ==> exists|j: int| 0 <= j < k && #[trigger] o[j] == g[
            i].deps[d]
}

/// The predicate "some package of `g` bears this name", as a value.
pub open spec fn member_pred(g: Seq<PackageView>) -> spec_fn(Seq<char>) -> bool {
    |d: Seq<char>| has_pkg(g, d)
}

/// The predicate "this package declares a dependency on `n`", as a value.
pub open spec fn depends_on_pred(n: Seq<char>) -> spec_fn(PackageView) -> bool {
    |p: PackageView| p.deps.contains(n)
}

/// The name of a package, as a value.
pub open spec fn name_of() -> spec_fn(PackageView) -> Seq<char> {
    |p: PackageView| p.name
}

pub proof fn lemma_filter_push<A>(s: Seq<A>, pred: spec_fn(A) -> bool, x: A)
    ensures
        s.push(x).filter(pred) == if pred(x) {
            s.filter(pred).push(x)
        } else {
            s.filter(pred)
        },
{
    reveal(Seq::filter);
    assert(s.push(x).drop_last() =~= s);
    assert(s.push(x).last() == x);
}

/// Pairwise distinct package names.
pub open spec fn distinct_names(g: Seq<PackageView>) -> bool {
    forall|i: int, j: int|
        0 <= i < j < g.len() ==> (#[trigger] g[i]).name != (#[trigger] g[j]).name
}

/// Whether the name stands before position `k` of the ordering.
pub open spec fn placed(o: Seq<Seq<char>>, k: int, n: Seq<char>) -> bool {
    exists|j: int| 0 <= j < k && o[j] == n
}

/// Whether every intra-workspace dependency of `p` stands before
/// position `k` of the ordering.
pub open spec fn ready_at(g: Seq<PackageView>, o: Seq<Seq<char>>, k: int, p: PackageView) -> bool {
    forall|d: int|
        0 <= d < p.deps.len() && has_pkg(g, #[trigger] p.deps[d]) ==> placed(o, k, p.deps[d])
}

/// The ordering is canonical: each position holds the first package in
/// workspace order that is not yet placed and whose intra-workspace
/// dependencies all are.  This is the stable tie-break that makes
/// repeated runs produce identical orderings.
pub open spec fn canonical_order(g: Seq<PackageView>, o: Seq<Seq<char>>) -> bool {
    forall|k: int|
        #![trigger o[k]]
        0 <= k < o.len() ==> exists|idx: int|
            #![trigger g[idx]]
            0 <= idx < g.len() && g[idx].name == o[k] && !placed(o, k, g[idx].name) && ready_at(
                g,
                o,
                k,
                g[idx],
            ) && forall|idx2: int|
                0 <= idx2 < idx ==> placed(o, k, (#[trigger] g[idx2]).name) || !ready_at(
                    g,
                    o,
                    k,
                    g[idx2],
                )
}

proof fn lemma_canonical_prefix(g: Seq<PackageView>, o1: Seq<Seq<char>>, o2: Seq<Seq<char>>, k: int)
    requires
        distinct_names(g),
        canonical_order(g, o1),
        canonical_order(g, o2),
        0 <= k <= o1.len(),
        k <= o2.len(),
    ensures
        o1.take(k) =~= o2.take(k),
    decreases k,
{
    if k > 0 {
        lemma_canonical_prefix(g, o1, o2, k - 1);
        assert(o1.take(k - 1) == o2.take(k - 1));
        assert forall|j: int| 0 <= j < k - 1 implies o1[j] == o2[j] by {
            assert(o1.take(k - 1)[j] == o2.take(k - 1)[j]);
        }
        // the two prefixes agree, so placement and readiness agree too
        assert forall|n: Seq<char>| placed(o1, k - 1, n) == #[trigger] placed(o2, k - 1, n) by {
            if placed(o1, k - 1, n) {
                let j = choose|j: int| 0 <= j < k - 1 && o1[j] == n;
                assert(o2[j] == n);
            }
            if placed(o2, k - 1, n) {
                let j = choose|j: int| 0 <= j < k - 1 && o2[j] == n;
                assert(o1[j] == n);
            }
        }
        let idx1 = choose|idx: int|
            #![trigger g[idx]]
            0 <= idx < g.len() && g[idx].name == o1[k - 1] && !placed(o1, k - 1, g[idx].name)
                && ready_at(g, o1, k - 1, g[idx]) && forall|idx2: int|
                0 <= idx2 < idx ==> placed(o1, k - 1, (#[trigger] g[idx2]).name) || !ready_at(
                    g,
                    o1,
                    k - 1,
                    g[idx2],
                );
        let idx2 = choose|idx: int|
            #![trigger g[idx]]
            0 <= idx < g.len() && g[idx].name == o2[k - 1] && !placed(o2, k - 1, g[idx].name)
                && ready_at(g, o2, k - 1, g[idx]) && forall|idx3: int|
                0 <= idx3 < idx ==> placed(o2, k - 1, (#[trigger] g[idx3]).name) || !ready_at(
                    g,
                    o2,
                    k - 1,
                    g[idx3],
                );
        assert forall|p: PackageView| ready_at(g, o1, k - 1, p) == #[trigger] ready_at(
            g,
            o2,
            k - 1,
            p,
        ) by {
            assert(forall|d: int|
                0 <= d < p.deps.len() ==> placed(o1, k - 1, #[trigger] p.deps[d]) == placed(
                    o2,
                    k - 1,
                    p.deps[d],
                ));
        }
        if idx1 < idx2 {
            assert(placed(o2, k - 1, g[idx1].name) || !ready_at(g, o2, k - 1, g[idx1]));
            assert(false);
        }
        if idx2 < idx1 {
            assert(placed(o1, k - 1, g[idx2].name) || !ready_at(g, o1, k - 1, g[idx2]));
            assert(false);
        }
        assert(o1[k - 1] == o2[k - 1]);
    }
}

/// The orderer is deterministic: the canonical tie-break leaves exactly
/// one ordering of a given length for a given graph, so repeated runs
/// on one workspace produce identical orderings.
pub proof fn lemma_order_deterministic(
    g: Seq<PackageView>,
    o1: Seq<Seq<char>>,
    o2: Seq<Seq<char>>,
)
    requires
        distinct_names(g),
        canonical_order(g, o1),
        canonical_order(g, o2),
        o1.len() == o2.len(),
    ensures
        o1 == o2,
{
    lemma_canonical_prefix(g, o1, o2, o1.len() as int);
    assert(o1.take(o1.len() as int) =~= o1);
    assert(o2.take(o2.len() as int) =~= o2);
    assert(o1 =~= o2);
}

/// A failure while building or ordering the workspace graph.
#[derive(Debug, Clone)]
pub enum WorkspaceError {
    /// Two packages bear the same name.
    DuplicateName(String),
    /// No order exists: the named packages each depend, directly or
    /// through the others, on another member of the set.
    CyclicDependency(Vec<String>),
}

/// The workspace: a list of packages with pairwise distinct names.
#[derive(Debug, Clone)]
pub struct WorkspaceGraph {
    pub packages: Vec<Package>,
}

impl View for WorkspaceGraph {
    type V = Seq<PackageView>;

    open spec fn view(&self) -> Seq<PackageView> {
        self.packages@.map_values(|p: Package| p@)
    }
}

/// How many entries of the sequence are true.
pub open spec fn count_true(s: Seq<bool>) -> int
    decreases s.len(),
{
    if s.len() == 0 {
        0
    } else {
        count_true(s.drop_last()) + if s.last() {
            1int
        } else {
            0int
        }
    }
}

proof fn lemma_count_true_none(s: Seq<bool>)
    requires
        forall|i: int| 0 <= i < s.len() ==> !s[i],
    ensures
        count_true(s) == 0,
    decreases s.len(),
{
    if s.len() > 0 {
        assert(forall|i: int| 0 <= i < s.drop_last().len() ==> !s.drop_last()[i]);
        lemma_count_true_none(s.drop_last());
    }
}

pub proof fn lemma_count_true_bounds(s: Seq<bool>)
    ensures
        0 <= count_true(s) <= s.len(),
    decreases s.len(),
{
    if s.len() > 0 {
        lemma_count_true_bounds(s.drop_last());
    }
}

pub proof fn lemma_count_true_update(s: Seq<bool>, i: int)
    requires
        0 <= i < s.len(),
        !s[i],
    ensures
        count_true(s.update(i, true)) == count_true(s) + 1,
    decreases s.len(),
{
    if i == s.len() - 1 {
        assert(s.update(i, true).drop_last() =~= s.drop_last());
    } else {
        lemma_count_true_update(s.drop_last(), i);
        assert(s.update(i, true).drop_last() =~= s.drop_last().update(i, true));
    }
}

pub proof fn lemma_count_true_all(s: Seq<bool>)
    requires
        count_true(s) == s.len(),
    ensures
        forall|i: int| 0 <= i < s.len() ==> s[i],
    decreases s.len(),
{
    if s.len() > 0 {
        lemma_count_true_bounds(s.drop_last());
        lemma_count_true_all(s.drop_last());
        assert forall|i: int| 0 <= i < s.len() implies s[i] by {
            if i < s.len() - 1 {
                assert(s.drop_last()[i]);
            }
        }
    }
}

proof fn lemma_count_true_missing(s: Seq<bool>)
    requires
        count_true(s) < s.len(),
    ensures
        exists|i: int| 0 <= i < s.len() && !s[i],
    decreases s.len(),
{
    if s.len() > 0 {
        if !s.last() {
            assert(!s[s.len() - 1]);
        } else {
            lemma_count_true_missing(s.drop_last());
            let i = choose|i: int| 0 <= i < s.drop_last().len() && !s.drop_last()[i];
            assert(!s[i]);
        }
    }
}

impl WorkspaceGraph {
    /// Pairwise distinct package names.
    pub open spec fn wf(&self) -> bool {
        forall|i: int, j: int|
            0 <= i < j < self@.len() ==> (#[trigger] self@[i]).name != (#[trigger] self@[j]).name
    }

    /// A graph over the given packages.  Fails exactly when two packages
    /// bear the same name.
    pub fn new(packages: Vec<Package>) -> (r: Result<WorkspaceGraph, WorkspaceError>)
        ensures
            match r {
                Ok(g) => g.wf() && g.packages@ == packages@,
                Err(_) => exists|i: int, j: int|
                    0 <= i < j < packages@.len() && (#[trigger] packages@[i])@.name == (
                    #[trigger] packages@[j])@.name,
            },
    {
        let g = WorkspaceGraph { packages };
        let n = g.packages.len();
        let mut i: usize = 0;
        while i < n
            invariant
                n == g@.len(),
                g.packages@ == packages@,
                i <= n,
                forall|a: int, b: int|
                    0 <= a < b < g@.len() && a < i ==> (#[trigger] g@[a]).name != (
                    #[trigger] g@[b]).name,
            decreases n - i,
        {
            let mut j: usize = i + 1;
            while j < n
                invariant
                    n == g@.len(),
                    g.packages@ == packages@,
                    i < j <= n,
                    forall|b: int|
                        i < b < j ==> (#[trigger] g@[b]).name != g@[i as int].name,
                decreases n - j,
            {
                if str_eq(g.packages[i].name.as_str(), g.packages[j].name.as_str()) {
                    proof {
                        assert((packages@[i as int])@.name == (packages@[j as int])@.name);
                    }
                    return Err(WorkspaceError::DuplicateName(g.packages[i].name.clone()));
                }
                j += 1;
            }
            i += 1;
        }
        Ok(g)
    }

    /// The index of the package bearing this name, if any.
    pub fn find_package(&self, name: &str) -> (r: Option<usize>)
        ensures
            match r {
                Some(i) => i < self@.len() && self@[i as int].name == name@,
                None => !has_pkg(self@, name@),
            },
    {
        let n = self.packages.len();
        let mut i: usize = 0;
        while i < n
            invariant
                n == self@.len(),
                i <= n,
                forall|j: int| 0 <= j < i ==> (#[trigger] self@[j]).name != name@,
            decreases n - i,
        {
            if str_eq(self.packages[i].name.as_str(), name) {
                return Some(i);
            }
            i += 1;
        }
        None
    }

    /// Whether every intra-workspace dependency of package `i` is marked
    /// emitted.
    fn deps_ready(&self, i: usize, emitted: &Vec<bool>) -> (r: bool)
        requires
            self.wf(),
            i < self@.len(),
            emitted@.len() == self@.len(),
        ensures
            r == ready(self@, emitted@, self@[i as int]),
    {
        let p = &self.packages[i];
        let nd = p.deps.len();
        assert(p@ == self@[i as int]);
        let mut d: usize = 0;
        while d < nd
            invariant
                self.wf(),
                i < self@.len(),
                emitted@.len() == self@.len(),
                p@ == self@[i as int],
                nd == p@.deps.len(),
                d <= nd,
                forall|d2: int|
                    0 <= d2 < d && has_pkg(self@, #[trigger] p@.deps[d2]) ==> emitted_name(
                        self@,
                        emitted@,
                        p@.deps[d2],
                    ),
            decreases nd - d,
        {
            match self.find_package(p.deps[d].as_str()) {
                Some(j) => {
                    if !emitted[j] {
                        proof {
                            assert(self@[j as int].name == p@.deps[d as int]);
                            assert forall|j2: int|
                                0 <= j2 < self@.len() && self@[j2].name == p@.deps[d as int]
                                implies !emitted@[j2] by {
                                if j2 != j as int {
                                    assert(self@[j2].name != self@[j as int].name);
                                }
                            }
                            assert(!ready(self@, emitted@, self@[i as int]));
                        }
                        return false;
                    }
                },
                None => {},
            }
            d += 1;
        }
        true
    }

    /// The intra-workspace dependencies of the named package: those of
    /// its declared dependencies that some workspace member bears, in
    /// declaration order.  Empty when no member bears the name.
    pub fn dependencies(&self, name: &str) -> (r: Vec<String>)
        requires
            self.wf(),
        ensures
            !has_pkg(self@, name@) ==> r@.len() == 0,
            has_pkg(self@, name@) ==> str_views(r@) == pkg_named(self@, name@).deps.filter(
                member_pred(self@),
            ),
    {
        match self.find_package(name) {
            None => Vec::new(),
            Some(i) => {
                proof {
                    let j = choose|j: int| 0 <= j < self@.len() && self@[j].name == name@;
                    if j != i as int {
                        assert(false);
                    }
                    assert(pkg_named(self@, name@) == self@[i as int]);
                }
                let p = &self.packages[i];
                assert(p@ == self@[i as int]);
                let nd = p.deps.len();
                let mut r: Vec<String> = Vec::new();
                let mut d: usize = 0;
                while d < nd
                    invariant
                        self.wf(),
                        i < self@.len(),
                        p@ == self@[i as int],
                        nd == p@.deps.len(),
                        d <= nd,
                        str_views(r@) == p@.deps.take(d as int).filter(member_pred(self@)),
                    decreases nd - d,
                {
                    let ghost svr = str_views(r@);
                    let dep_member = self.find_package(p.deps[d].as_str()).is_some();
                    if dep_member {
                        r.push(p.deps[d].clone());
                    }
                    proof {
                        assert(p@.deps.take(d + 1) =~= p@.deps.take(d as int).push(
                            p@.deps[d as int],
                        ));
                        lemma_filter_push(
                            p@.deps.take(d as int),
                            member_pred(self@),
                            p@.deps[d as int],
                        );
                        assert(member_pred(self@)(p@.deps[d as int]) == has_pkg(
                            self@,
                            p@.deps[d as int],
                        ));
                        if dep_member {
                            assert(str_views(r@) =~= svr.push(p@.deps[d as int]));
                        }
                    }
                    d += 1;
                }
                proof {
                    assert(p@.deps.take(nd as int) =~= p@.deps);
                }
                r
            },
        }
    }

    /// Whether the package declares a dependency bearing this name.
    pub fn has_dep(p: &Package, name: &str) -> (r: bool)
        ensures
            r == p@.deps.contains(name@),
    {
        let nd = p.deps.len();
        let mut d: usize = 0;
        while d < nd
            invariant
                nd == p@.deps.len(),
                d <= nd,
                forall|d2: int| 0 <= d2 < d ==> #[trigger] p@.deps[d2] != name@,
            decreases nd - d,
        {
            if str_eq(p.deps[d].as_str(), name) {
                assert(p@.deps[d as int] == name@);
                return true;
            }
            d += 1;
        }
        false
    }

    /// The names of the packages that declare a dependency on `name`, in
    /// workspace order.
    pub fn dependents(&self, name: &str) -> (r: Vec<String>)
        ensures
            str_views(r@) == self@.filter(depends_on_pred(name@)).map_values(name_of()),
    {
        let n = self.packages.len();
        let mut r: Vec<String> = Vec::new();
        let mut i: usize = 0;
        while i < n
            invariant
                n == self@.len(),
                i <= n,
                str_views(r@) == self@.take(i as int).filter(depends_on_pred(name@)).map_values(
                    name_of(),
                ),
            decreases n - i,
        {
            let ghost svr = str_views(r@);
            let hit = Self::has_dep(&self.packages[i], name);
            if hit {
                r.push(self.packages[i].name.clone());
            }
            proof {
                assert(self@.take(i + 1) =~= self@.take(i as int).push(self@[i as int]));
                lemma_filter_push(
                    self@.take(i as int),
                    depends_on_pred(name@),
                    self@[i as int],
                );
                assert(depends_on_pred(name@)(self@[i as int]) == self@[i as int].deps.contains(
                    name@,
                ));
                if hit {
                    assert(str_views(r@) =~= svr.push(self@[i as int].name));
                    assert(str_views(r@) =~= self@.take(i + 1).filter(
                        depends_on_pred(name@),
                    ).map_values(name_of()));
                } else {
                    assert(str_views(r@) =~= self@.take(i + 1).filter(
                        depends_on_pred(name@),
                    ).map_values(name_of()));
                }
            }
            i += 1;
        }
        proof {
            assert(self@.take(n as int) =~= self@);
        }
        r
    }

    /// A dependency-respecting order of all package names: Kahn's
    /// algorithm restricted to intra-workspace edges.  Each position
    /// holds the first ready package in workspace order — the canonical
    /// tie-break, so repeated runs produce identical orderings (see
    /// [`canonical_order`] and [`lemma_order_deterministic`]).  On
    /// success every package appears exactly once and strictly after
    /// all its intra-workspace dependencies; when no such order exists
    /// the error carries a nonempty set of packages each of which
    /// depends on another member of that same set.
    #[verifier::rlimit(100)]
    pub fn order(&self) -> (r: Result<Vec<String>, WorkspaceError>)
        requires
            self.wf(),
        ensures
            match r {
                Ok(o) => {
                    &&& forall|i: int|
                        0 <= i < self@.len() ==> str_views(o@).contains(#[trigger] self@[i].name)
                    &&& forall|k: int|
                        0 <= k < o@.len() ==> has_pkg(self@, #[trigger] str_views(o@)[k])
                    &&& forall|k1: int, k2: int|
                        0 <= k1 < k2 < o@.len() ==> str_views(o@)[k1] != str_views(o@)[k2]
                    &&& deps_precede(self@, str_views(o@))
                    &&& canonical_order(self@, str_views(o@))
                },
                Err(e) => {
                    &&& e matches WorkspaceError::CyclicDependency(rem)
                    &&& rem@.len() > 0
                    &&& forall|k: int|
                        0 <= k < rem@.len() ==> has_pkg(self@, #[trigger] str_views(rem@)[k])
                    &&& forall|k: int|
                        0 <= k < rem@.len() ==> blocked(
                            self@,
                            str_views(rem@),
                            #[trigger] str_views(rem@)[k],
                        )
                },
            },
    {
        let n = self.packages.len();
        let mut emitted: Vec<bool> = Vec::new();
        while emitted.len() < n
            invariant
                emitted@.len() <= n,
                forall|j: int| 0 <= j < emitted@.len() ==> !emitted@[j],
            decreases n - emitted@.len(),
        {
            emitted.push(false);
        }
        proof {
            lemma_count_true_none(emitted@);
        }
        let mut out: Vec<String> = Vec::new();
        let mut stalled = false;
        while !stalled && out.len() < n
            invariant
                self.wf(),
                n == self@.len(),
                emitted@.len() == n,
                out@.len() == count_true(emitted@),
                count_true(emitted@) <= n,
                forall|k: int|
                    0 <= k < out@.len() ==> emitted_name(
                        self@,
                        emitted@,
                        #[trigger] str_views(out@)[k],
                    ),
                forall|j: int|
                    0 <= j < n && emitted@[j] ==> str_views(out@).contains(
                        #[trigger] self@[j].name,
                    ),
                forall|k1: int, k2: int|
                    0 <= k1 < k2 < out@.len() ==> str_views(out@)[k1] != str_views(out@)[k2],
                deps_precede(self@, str_views(out@)),
                canonical_order(self@, str_views(out@)),
                stalled ==> forall|j: int|
                    0 <= j < n && !emitted@[j] ==> !ready(self@, emitted@, #[trigger] self@[j]),
            decreases (n - count_true(emitted@)) + if stalled {
                0int
            } else {
                1int
            },
        {
            proof {
                lemma_count_true_bounds(emitted@);
            }
            // find the first package that is not yet emitted and whose
            // dependencies all are
            let mut idx: usize = 0;
            let mut found = false;
            while idx < n && !found
                invariant
                    self.wf(),
                    n == self@.len(),
                    emitted@.len() == n,
                    idx <= n,
                    forall|j: int|
                        0 <= j < idx && !emitted@[j] ==> !ready(
                            self@,
                            emitted@,
                            #[trigger] self@[j],
                        ),
                    found ==> idx < n && !emitted@[idx as int] && ready(
                        self@,
                        emitted@,
                        self@[idx as int],
                    ),
                decreases (n - idx) + if found {
                    0int
                } else {
                    1int
                },
            {
                if !emitted[idx] && self.deps_ready(idx, &emitted) {
                    found = true;
                } else {
                    idx += 1;
                }
            }
            if found {
                let ghost em0 = emitted@;
                let ghost sv0 = str_views(out@);
                emitted.set(idx, true);
                proof {
                    lemma_count_true_update(em0, idx as int);
                    lemma_count_true_bounds(emitted@);
                }
                out.push(self.packages[idx].name.clone());
                proof {
                    let sv1 = str_views(out@);
                    assert(sv1 =~= sv0.push(self@[idx as int].name));
                    // the pushed name was not in the order before
                    assert forall|k: int| 0 <= k < sv0.len() implies sv0[k] != self@[
                        idx as int].name by {
                        if sv0[k] == self@[idx as int].name {
                            let j = choose|j: int|
                                0 <= j < self@.len() && self@[j].name == sv0[k] && em0[j];
                            assert(self@[j].name == self@[idx as int].name);
                            if j != idx as int {
                                assert(false);
                            }
                        }
                    }
                    // order entries still name emitted members
                    assert forall|k: int| 0 <= k < sv1.len() implies emitted_name(
                        self@,
                        emitted@,
                        sv1[k],
                    ) by {
                        if k < sv0.len() {
                            let j = choose|j: int|
                                0 <= j < self@.len() && self@[j].name == sv0[k] && em0[j];
                            assert(emitted@[j]);
                        } else {
                            assert(sv1[k] == self@[idx as int].name && emitted@[idx as int]);
                        }
                    }
                    // emitted members still appear in the order
                    assert forall|j: int| 0 <= j < n && emitted@[j] implies sv1.contains(
                        self@[j].name,
                    ) by {
                        if j == idx as int {
                            assert(sv1[sv0.len() as int] == self@[j].name);
                        } else {
                            assert(em0[j]);
                            let k = choose|k: int| 0 <= k < sv0.len() && sv0[k] == self@[
                                j].name;
                            assert(sv1[k] == self@[j].name);
                        }
                    }
                    // the new entry's dependencies all stand earlier
                    assert forall|k: int, i2: int, d: int|
                        #![trigger sv1[k], self@[i2].deps[d]]
                        0 <= k < sv1.len() && 0 <= i2 < self@.len() && self@[i2].name == sv1[k]
                            && 0 <= d < self@[i2].deps.len() && has_pkg(
                            self@,
                            self@[i2].deps[d],
                        ) implies exists|j: int|
                        0 <= j < k && #[trigger] sv1[j] == self@[i2].deps[d] by {
                        if k < sv0.len() {
                            assert(deps_precede(self@, sv0));
                            let j = choose|j: int|
                                0 <= j < k && #[trigger] sv0[j] == self@[i2].deps[d];
                            assert(sv1[j] == self@[i2].deps[d]);
                        } else {
                            if i2 != idx as int {
                                assert(false);
                            }
                            assert(ready(self@, em0, self@[idx as int]));
                            assert(emitted_name(self@, em0, self@[i2].deps[d]));
                            let j2 = choose|j2: int|
                                0 <= j2 < self@.len() && self@[j2].name == self@[i2].deps[d]
                                    && em0[j2];
                            let j = choose|j: int|
                                0 <= j < sv0.len() && sv0[j] == self@[j2].name;
                            assert(sv1[j] == self@[i2].deps[d]);
                        }
                    }
                    // names placed in the old prefix stay placed, and
                    // readiness over the prefix means readiness over the
                    // emitted flags
                    assert forall|k: int, nm: Seq<char>|
                        0 <= k <= sv0.len() implies #[trigger] placed(sv1, k, nm) == placed(
                        sv0,
                        k,
                        nm,
                    ) by {
                        if placed(sv1, k, nm) {
                            let j = choose|j: int| 0 <= j < k && sv1[j] == nm;
                            assert(sv0[j] == nm);
                        }
                        if placed(sv0, k, nm) {
                            let j = choose|j: int| 0 <= j < k && sv0[j] == nm;
                            assert(sv1[j] == nm);
                        }
                    }
                    // the order stays canonical: old positions keep their
                    // witnesses, and the new one holds the first ready
                    // unemitted package
                    assert forall|k: int| #![trigger sv1[k]] 0 <= k < sv1.len() implies exists|
                        idxw: int,
                    |
                        #![trigger self@[idxw]]
                        0 <= idxw < self@.len() && self@[idxw].name == sv1[k] && !placed(
                            sv1,
                            k,
                            self@[idxw].name,
                        ) && ready_at(self@, sv1, k, self@[idxw]) && forall|idx2: int|
                            0 <= idx2 < idxw ==> placed(sv1, k, (#[trigger] self@[idx2]).name)
                                || !ready_at(self@, sv1, k, self@[idx2]) by {
                        if k < sv0.len() {
                            assert(canonical_order(self@, sv0));
                            assert(sv0[k] == sv1[k]);
                            let idxw = choose|idxw: int|
                                #![trigger self@[idxw]]
                                0 <= idxw < self@.len() && self@[idxw].name == sv0[k] && !placed(
                                    sv0,
                                    k,
                                    self@[idxw].name,
                                ) && ready_at(self@, sv0, k, self@[idxw]) && forall|idx2: int|
                                    0 <= idx2 < idxw ==> placed(
                                        sv0,
                                        k,
                                        (#[trigger] self@[idx2]).name,
                                    ) || !ready_at(self@, sv0, k, self@[idx2]);
                            assert forall|p: PackageView|
                                ready_at(self@, sv1, k, p) == #[trigger] ready_at(
                                self@,
                                sv0,
                                k,
                                p,
                            ) by {
                                assert(forall|d: int|
                                    0 <= d < p.deps.len() ==> placed(
                                        sv1,
                                        k,
                                        #[trigger] p.deps[d],
                                    ) == placed(sv0, k, p.deps[d]));
                            }
                            assert(0 <= idxw < self@.len() && self@[idxw].name == sv1[k]
                                && !placed(sv1, k, self@[idxw].name) && ready_at(
                                self@,
                                sv1,
                                k,
                                self@[idxw],
                            ));
                        } else {
                            let idxw = idx as int;
                            assert(self@[idxw].name == sv1[k]);
                            assert(!placed(sv1, k, self@[idxw].name));
                            assert forall|d: int|
                                0 <= d < self@[idxw].deps.len() && has_pkg(
                                    self@,
                                    #[trigger] self@[idxw].deps[d],
                                ) implies placed(sv1, k, self@[idxw].deps[d]) by {
                                assert(emitted_name(self@, em0, self@[idxw].deps[d]));
                                let j2 = choose|j2: int|
                                    0 <= j2 < self@.len() && self@[j2].name == self@[
                                        idxw].deps[d] && em0[j2];
                                let j = choose|j: int|
                                    0 <= j < sv0.len() && sv0[j] == self@[j2].name;
                                assert(sv1[j] == self@[idxw].deps[d]);
                            }
                            assert forall|idx2: int| 0 <= idx2 < idxw implies placed(
                                sv1,
                                k,
                                (#[trigger] self@[idx2]).name,
                            ) || !ready_at(self@, sv1, k, self@[idx2]) by {
                                if em0[idx2] {
                                    let j = choose|j: int|
                                        0 <= j < sv0.len() && sv0[j] == self@[idx2].name;
                                    assert(sv1[j] == self@[idx2].name);
                                    assert(placed(sv1, k, self@[idx2].name));
                                } else {
                                    assert(!ready(self@, em0, self@[idx2]));
                                    if ready_at(self@, sv1, k, self@[idx2]) {
                                        assert forall|d: int|
                                            0 <= d < self@[idx2].deps.len() && has_pkg(
                                                self@,
                                                #[trigger] self@[idx2].deps[d],
                                            ) implies emitted_name(
                                            self@,
                                            em0,
                                            self@[idx2].deps[d],
                                        ) by {
                                            assert(placed(sv1, k, self@[idx2].deps[d]));
                                            let j = choose|j: int|
                                                0 <= j < k && sv1[j] == self@[idx2].deps[d];
                                            assert(sv0[j] == self@[idx2].deps[d]);
                                            let j2 = choose|j2: int|
                                                0 <= j2 < self@.len() && self@[j2].name == sv0[
                                                    j] && em0[j2];
                                            assert(emitted_name(
                                                self@,
                                                em0,
                                                self@[idx2].deps[d],
                                            ));
                                        }
                                        assert(ready(self@, em0, self@[idx2]));
                                        assert(false);
                                    }
                                }
                            }
                        }
                    }
                    assert(canonical_order(self@, sv1));
                }
            } else {
                stalled = true;
            }
        }
        proof {
            lemma_count_true_bounds(emitted@);
        }
        if out.len() == n {
            proof {
                lemma_count_true_all(emitted@);
                assert forall|i: int| 0 <= i < self@.len() implies str_views(out@).contains(
                    #[trigger] self@[i].name,
                ) by {
                    assert(emitted@[i]);
                }
                assert forall|k: int| 0 <= k < out@.len() implies has_pkg(
                    self@,
                    #[trigger] str_views(out@)[k],
                ) by {
                    let j = choose|j: int|
                        0 <= j < self@.len() && self@[j].name == str_views(out@)[k] && emitted@[j];
                    assert(0 <= j < self@.len() && self@[j].name == str_views(out@)[k]);
                }
            }
            Ok(out)
        } else {
            let mut rem: Vec<String> = Vec::new();
            let ghost mut ridx: Seq<int> = Seq::empty();
            let mut i: usize = 0;
            while i < n
                invariant
                    self.wf(),
                    n == self@.len(),
                    emitted@.len() == n,
                    i <= n,
                    forall|j: int|
                        0 <= j < n && !emitted@[j] ==> !ready(self@, emitted@, #[trigger] self@[j]),
                    ridx.len() == rem@.len(),
                    forall|k: int|
                        0 <= k < rem@.len() ==> 0 <= #[trigger] ridx[k] < n && self@[
                            ridx[k]].name == str_views(rem@)[k] && !emitted@[ridx[k]],
                    forall|j: int|
                        0 <= j < i && !emitted@[j] ==> str_views(rem@).contains(
                            #[trigger] self@[j].name,
                        ),
                decreases n - i,
            {
                if !emitted[i] {
                    let ghost sv0 = str_views(rem@);
                    rem.push(self.packages[i].name.clone());
                    proof {
                        ridx = ridx.push(i as int);
                        let sv1 = str_views(rem@);
                        assert(sv1 =~= sv0.push(self@[i as int].name));
                        assert forall|j: int| 0 <= j < i + 1 && !emitted@[j] implies sv1.contains(
                            #[trigger] self@[j].name,
                        ) by {
                            if j == i as int {
                                assert(sv1[sv0.len() as int] == self@[j].name);
                            } else {
                                let k = choose|k: int| 0 <= k < sv0.len() && sv0[k] == self@[
                                    j].name;
                                assert(sv1[k] == self@[j].name);
                            }
                        }
                    }
                }
                i += 1;
            }
            proof {
                assert(count_true(emitted@) < n);
                lemma_count_true_missing(emitted@);
                let jw = choose|j: int| 0 <= j < emitted@.len() && !emitted@[j];
                assert(str_views(rem@).contains(self@[jw].name));
                assert(rem@.len() > 0);
                assert forall|k: int| 0 <= k < rem@.len() implies has_pkg(
                    self@,
                    #[trigger] str_views(rem@)[k],
                ) && blocked(self@, str_views(rem@), str_views(rem@)[k]) by {
                    let j = ridx[k];
                    assert(0 <= j < n as int && self@[j].name == str_views(rem@)[k]
                        && !emitted@[j]);
                    assert(has_pkg(self@, str_views(rem@)[k]));
                    assert(!ready(self@, emitted@, self@[j]));
                    assert(exists|d: int|
                        0 <= d < self@[j].deps.len() && has_pkg(
                            self@,
                            #[trigger] self@[j].deps[d],
                        ) && !emitted_name(self@, emitted@, self@[j].deps[d]));
                    let d = choose|d: int|
                        0 <= d < self@[j].deps.len() && has_pkg(
                            self@,
                            #[trigger] self@[j].deps[d],
                        ) && !emitted_name(self@, emitted@, self@[j].deps[d]);
                    let j2 = choose|j2: int|
                        0 <= j2 < self@.len() && self@[j2].name == self@[j].deps[d];
                    assert(!emitted@[j2]);
                    assert(str_views(rem@).contains(self@[j2].name));
                    assert(blocked(self@, str_views(rem@), str_views(rem@)[k]));
                }
            }
            Err(WorkspaceError::CyclicDependency(rem))
        }
    }
}

} // verus!
