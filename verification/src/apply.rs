//! Executing a plan: grouping the entries to publish into
//! dependency-safe batches and tracking the outcome of each publish
//! operation.

use vstd::prelude::*;

use crate::plan::{Publish, PublishView};
use crate::shared::str_eq;
use crate::workspace::{lemma_filter_push, str_views};

verus! {

/// One entry of the release schedule: the plan entry together with the
/// names of its intra-workspace dependencies.
#[derive(Debug, Clone)]
pub struct CrateInfo {
    pub pkg: Publish,
    pub dependencies: Vec<String>,
}

/// Mathematical image of a [`CrateInfo`].
pub struct CrateInfoView {
    pub pkg: PublishView,
    pub dependencies: Seq<Seq<char>>,
}

impl View for CrateInfo {
    type V = CrateInfoView;

    open spec fn view(&self) -> CrateInfoView {
        CrateInfoView {
            pkg: self.pkg@,
            dependencies: self.dependencies@.map_values(|d: String| d@),
        }
    }
}

/// A copy of a string list whose elements equal the originals.
pub fn dup_strings(v: &Vec<String>) -> (r: Vec<String>)
    ensures
        r@ == v@,
{
    let mut r: Vec<String> = Vec::new();
    let mut i: usize = 0;
    while i < v.len()
        invariant
            i <= v@.len(),
            r@ =~= v@.take(i as int),
        decreases v@.len() - i,
    {
        r.push(v[i].clone());
        proof {
            assert(r@ =~= v@.take(i + 1));
        }
        i += 1;
    }
    proof {
        assert(v@.take(v@.len() as int) =~= v@);
    }
    r
}

impl CrateInfo {
    /// A copy whose view equals this one's.
    pub fn duplicate(&self) -> (r: CrateInfo)
        ensures
            r@ == self@,
    {
        CrateInfo { pkg: self.pkg.duplicate(), dependencies: dup_strings(&self.dependencies) }
    }
}

/// The views of the schedule entries.
pub open spec fn views_of(items: Seq<CrateInfo>) -> Seq<CrateInfoView> {
    items.map_values(|c: CrateInfo| c@)
}

/// The package names of a sequence of schedule entries.
pub open spec fn item_names(s: Seq<CrateInfoView>) -> Seq<Seq<char>> {
    s.map_values(|c: CrateInfoView| c.pkg.name)
}

/// Whether some entry of the list bears this package name.
pub open spec fn name_listed(s: Seq<CrateInfoView>, n: Seq<char>) -> bool {
    exists|i: int| 0 <= i < s.len() && s[i].pkg.name == n
}

/// The views of a built schedule.
pub open spec fn sched_view(r: Seq<Vec<CrateInfo>>) -> Seq<Seq<CrateInfoView>> {
    r.map_values(|b: Vec<CrateInfo>| views_of(b@))
}

/// The input list is in dependency order: every dependency that appears
/// in the list at all appears strictly before its dependent.
pub open spec fn dep_ordered(s: Seq<CrateInfoView>) -> bool {
    forall|k: int, d: int|
        #![trigger s[k].dependencies[d]]
        0 <= k < s.len() && 0 <= d < s[k].dependencies.len() && name_listed(
            s,
            s[k].dependencies[d],
        ) ==> exists|j: int| 0 <= j < k && (#[trigger] s[j].pkg.name) == s[k].dependencies[d]
}

/// The scheduler's correctness property: for every batch and every entry
/// in it, every dependency of the entry that is part of this release at
/// all lies in a strictly earlier batch.
pub open spec fn schedule_safe(sched: Seq<Seq<CrateInfoView>>, listed: Seq<CrateInfoView>) -> bool {
    forall|b: int, k: int, d: int|
        #![trigger sched[b][k].dependencies[d]]
        0 <= b < sched.len() && 0 <= k < sched[b].len() && 0 <= d
            < sched[b][k].dependencies.len() && name_listed(
            listed,
            sched[b][k].dependencies[d],
        ) ==> exists|b2: int, k2: int|
            #![trigger sched[b2][k2]]
            0 <= b2 < b && 0 <= k2 < sched[b2].len() && sched[b2][k2].pkg.name == sched[b][
                k].dependencies[d]
}

/// One batch boundary is justified: the batch before it reached the
/// target size, or the first member of the new batch depends on a
/// package inside that previous batch.
pub open spec fn batch_boundary_ok(
    prev: Seq<CrateInfoView>,
    first: CrateInfoView,
    listed: Seq<CrateInfoView>,
    target: int,
) -> bool {
    ||| (target > 0 && prev.len() >= target)
    ||| exists|d: int, k2: int|
        #![trigger first.dependencies[d], prev[k2]]
        0 <= d < first.dependencies.len() && name_listed(listed, first.dependencies[d]) && 0 <= k2
            < prev.len() && prev[k2].pkg.name == first.dependencies[d]
}

/// The scheduler never closes a batch early: every batch boundary is
/// justified as [`batch_boundary_ok`] says.  Together with
/// [`schedule_safe`], the partition into the input order and the size
/// bound, this pins the greedy grouping: a package joins the open batch
/// whenever its dependencies allow it.
pub open spec fn grouping_tight(
    sched: Seq<Seq<CrateInfoView>>,
    listed: Seq<CrateInfoView>,
    target: int,
) -> bool {
    forall|b: int|
        #![trigger sched[b]]
        1 <= b < sched.len() ==> batch_boundary_ok(sched[b - 1], sched[b][0], listed, target)
}

/// Whether the list of strings holds one viewing equal to `s`.
pub fn contains_name(v: &Vec<String>, s: &str) -> (r: bool)
    ensures
        r == str_views(v@).contains(s@),
{
    let n = v.len();
    let mut i: usize = 0;
    while i < n
        invariant
            n == v@.len(),
            i <= n,
            forall|j: int| 0 <= j < i ==> #[trigger] str_views(v@)[j] != s@,
        decreases n - i,
    {
        if str_eq(v[i].as_str(), s) {
            assert(str_views(v@)[i as int] == s@);
            return true;
        }
        i += 1;
    }
    false
}

/// Whether some schedule entry bears this package name.
pub fn listed_exec(items: &Vec<CrateInfo>, s: &str) -> (r: bool)
    ensures
        r == name_listed(views_of(items@), s@),
{
    let n = items.len();
    let mut i: usize = 0;
    while i < n
        invariant
            n == items@.len(),
            i <= n,
            forall|j: int| 0 <= j < i ==> (#[trigger] views_of(items@)[j]).pkg.name != s@,
        decreases n - i,
    {
        if str_eq(items[i].pkg.name.as_str(), s) {
            assert(views_of(items@)[i as int].pkg.name == s@);
            return true;
        }
        i += 1;
    }
    false
}

/// Whether every dependency of `c` that is part of this release is
/// already released.
fn deps_ok(c: &CrateInfo, items: &Vec<CrateInfo>, released: &Vec<String>) -> (r: bool)
    ensures
        r == (forall|d: int|
            0 <= d < c@.dependencies.len() && name_listed(
                views_of(items@),
                #[trigger] c@.dependencies[d],
            ) ==> str_views(released@).contains(c@.dependencies[d])),
{
    let nd = c.dependencies.len();
    let mut d: usize = 0;
    while d < nd
        invariant
            nd == c@.dependencies.len(),
            d <= nd,
            forall|d2: int|
                0 <= d2 < d && name_listed(views_of(items@), #[trigger] c@.dependencies[d2])
                    ==> str_views(released@).contains(c@.dependencies[d2]),
        decreases nd - d,
    {
        if listed_exec(items, c.dependencies[d].as_str()) {
            if !contains_name(released, c.dependencies[d].as_str()) {
                proof {
                    assert(name_listed(views_of(items@), c@.dependencies[d as int]));
                    assert(!str_views(released@).contains(c@.dependencies[d as int]));
                }
                return false;
            }
        }
        d += 1;
    }
    true
}

proof fn lemma_flatten_index<A>(s: Seq<Seq<A>>, m: int)
    requires
        0 <= m < s.flatten().len(),
    ensures
        exists|b: int, k: int|
            0 <= b < s.len() && 0 <= k < s[b].len() && s[b][k] == s.flatten()[m],
    decreases s.len(),
{
    if s.len() > 0 {
        if m < s.first().len() {
            assert(s.flatten()[m] == s.first()[m]);
            assert(s[0][m] == s.flatten()[m]);
        } else {
            lemma_flatten_index(s.drop_first(), m - s.first().len());
            let (b, k) = choose|b: int, k: int|
                0 <= b < s.drop_first().len() && 0 <= k < s.drop_first()[b].len()
                    && s.drop_first()[b][k] == s.drop_first().flatten()[m - s.first().len()];
            assert(s[b + 1][k] == s.flatten()[m]);
        }
    }
}

/// Closing a batch whose members' released dependencies are all recorded
/// keeps the schedule safe.
proof fn lemma_close_preserves_safe(
    sched: Seq<Seq<CrateInfoView>>,
    cur: Seq<CrateInfoView>,
    rel: Seq<Seq<char>>,
    iv: Seq<CrateInfoView>,
)
    requires
        schedule_safe(sched, iv),
        rel == item_names(sched.flatten()),
        forall|k: int, d: int|
            #![trigger cur[k].dependencies[d]]
            0 <= k < cur.len() && 0 <= d < cur[k].dependencies.len() && name_listed(
                iv,
                cur[k].dependencies[d],
            ) ==> rel.contains(cur[k].dependencies[d]),
    ensures
        schedule_safe(sched.push(cur), iv),
{
    let sched1 = sched.push(cur);
    assert forall|b: int, k: int, d: int|
        #![trigger sched1[b][k].dependencies[d]]
        0 <= b < sched1.len() && 0 <= k < sched1[b].len() && 0 <= d < sched1[b][
        k].dependencies.len() && name_listed(iv, sched1[b][k].dependencies[d]) implies exists|
        b2: int,
        k2: int,
    |
        #![trigger sched1[b2][k2]]
        0 <= b2 < b && 0 <= k2 < sched1[b2].len() && sched1[b2][k2].pkg.name == sched1[b][
        k].dependencies[d] by {
        if b < sched.len() {
            assert(sched1[b] == sched[b]);
            assert(sched[b][k].dependencies[d] == sched1[b][k].dependencies[d]);
            let (b2, k2) = choose|b2: int, k2: int|
                #![trigger sched[b2][k2]]
                0 <= b2 < b && 0 <= k2 < sched[b2].len() && sched[b2][k2].pkg.name == sched[b][
                    k].dependencies[d];
            assert(sched1[b2] == sched[b2]);
            assert(sched1[b2][k2].pkg.name == sched1[b][k].dependencies[d]);
        } else {
            assert(sched1[b] == cur);
            let dep = cur[k].dependencies[d];
            assert(rel.contains(dep));
            let m = choose|m: int| 0 <= m < rel.len() && rel[m] == dep;
            assert(sched.flatten()[m].pkg.name == dep);
            lemma_flatten_index(sched, m);
            let (b2, k2) = choose|b2: int, k2: int|
                0 <= b2 < sched.len() && 0 <= k2 < sched[b2].len() && sched[b2][k2]
                    == sched.flatten()[m];
            assert(sched1[b2] == sched[b2]);
            assert(sched1[b2][k2].pkg.name == dep);
        }
    }
}

/// Closing a batch at a justified boundary keeps the grouping tight.
proof fn lemma_close_preserves_grouping(
    sched0: Seq<Seq<CrateInfoView>>,
    curv: Seq<CrateInfoView>,
    iv: Seq<CrateInfoView>,
    target: int,
)
    requires
        grouping_tight(sched0, iv, target),
        sched0.len() > 0 ==> batch_boundary_ok(sched0[sched0.len() - 1], curv[0], iv, target),
    ensures
        grouping_tight(sched0.push(curv), iv, target),
{
    let sched1 = sched0.push(curv);
    assert forall|b: int| 1 <= b < sched1.len() implies batch_boundary_ok(
        (#[trigger] sched1[b - 1]),
        sched1[b][0],
        iv,
        target,
    ) by {
        if b < sched0.len() {
            assert(sched1[b] == sched0[b] && sched1[b - 1] == sched0[b - 1]);
        } else {
            assert(sched1[b] == curv);
            assert(sched1[b - 1] == sched0[sched0.len() - 1]);
        }
    }
}

/// When a candidate cannot join and the input is in dependency order,
/// the dependency that blocks it sits inside the open batch.
proof fn lemma_conflict_dep_in_current(
    fl: Seq<CrateInfoView>,
    curv: Seq<CrateInfoView>,
    rel: Seq<Seq<char>>,
    iv: Seq<CrateInfoView>,
    i: int,
    target: int,
)
    requires
        dep_ordered(iv),
        0 <= i < iv.len(),
        fl + curv == iv.take(i),
        rel == item_names(fl),
        exists|d: int|
            0 <= d < iv[i].dependencies.len() && name_listed(
                iv,
                #[trigger] iv[i].dependencies[d],
            ) && !rel.contains(iv[i].dependencies[d]),
    ensures
        batch_boundary_ok(curv, iv[i], iv, target),
{
    let dst = choose|d: int|
        0 <= d < iv[i].dependencies.len() && name_listed(iv, #[trigger] iv[i].dependencies[d])
            && !rel.contains(iv[i].dependencies[d]);
    let dep = iv[i].dependencies[dst];
    let j = choose|j: int| 0 <= j < i && (#[trigger] iv[j].pkg.name) == iv[i].dependencies[dst];
    let flen = fl.len() as int;
    if j < flen {
        assert(fl[j] == iv.take(i)[j]);
        assert(item_names(fl)[j] == iv[j].pkg.name);
        assert(rel[j] == dep);
        assert(false);
    }
    assert(iv.take(i).len() == i);
    assert((fl + curv).len() == i);
    assert(flen <= j < i);
    assert((fl + curv)[j] == iv.take(i)[j]);
    vstd::seq::axiom_seq_add_index2(fl, curv, j);
    assert((fl + curv)[j] == curv[j - flen]);
    assert(curv[j - flen].pkg.name == dep);
    assert(batch_boundary_ok(curv, iv[i], iv, target));
}

/// An element of a filtered sequence comes from the sequence itself.
proof fn lemma_filter_member<A>(s: Seq<A>, pred: spec_fn(A) -> bool, x: A)
    requires
        s.filter(pred).contains(x),
    ensures
        s.contains(x),
    decreases s.len(),
{
    reveal(Seq::filter);
    if s.len() > 0 {
        if s.last() =~= x && pred(s.last()) {
            assert(s[s.len() - 1] == s.last());
        } else {
            if s.filter(pred).last() == x && pred(s.last()) {
                assert(s[s.len() - 1] == x);
            } else {
                assert(s.drop_last().filter(pred).contains(x));
                lemma_filter_member(s.drop_last(), pred, x);
                let j = choose|j: int| 0 <= j < s.drop_last().len() && s.drop_last()[j] == x;
                assert(s[j] == x);
            }
        }
    }
}

/// Append the batch to the schedule and record its members as released.
fn close_batch(
    batches: &mut Vec<Vec<CrateInfo>>,
    released: &mut Vec<String>,
    current: Vec<CrateInfo>,
) -> (r: ())
    ensures
        final(batches)@ == old(batches)@.push(current),
        str_views(final(released)@) =~= str_views(old(released)@) + item_names(
            views_of(current@),
        ),
{
    let n = current.len();
    let mut k: usize = 0;
    while k < n
        invariant
            n == current@.len(),
            k <= n,
            str_views(released@) =~= str_views(old(released)@) + item_names(
                views_of(current@),
            ).take(k as int),
        decreases n - k,
    {
        let ghost prev = released@;
        released.push(current[k].pkg.name.clone());
        proof {
            let t = item_names(views_of(current@));
            assert(views_of(current@)[k as int] == current@[k as int]@);
            assert(t[k as int] == current@[k as int]@.pkg.name);
            assert(str_views(released@) =~= str_views(prev).push(t[k as int]));
            assert(t.take(k + 1) =~= t.take(k as int).push(t[k as int]));
            assert((str_views(old(released)@) + t.take(k as int)).push(t[k as int]) =~= str_views(
                old(released)@,
            ) + t.take(k + 1));
            assert(str_views(released@) =~= str_views(old(released)@) + t.take(k + 1));
        }
        k += 1;
    }
    proof {
        assert(item_names(views_of(current@)).take(n as int) =~= item_names(views_of(current@)));
    }
    batches.push(current);
}

proof fn lemma_sched_view_push(s: Seq<Vec<CrateInfo>>, b: Vec<CrateInfo>)
    ensures
        sched_view(s.push(b)) =~= sched_view(s).push(views_of(b@)),
{
}

proof fn lemma_item_names_add(a: Seq<CrateInfoView>, b: Seq<CrateInfoView>)
    ensures
        item_names(a + b) =~= item_names(a) + item_names(b),
{
}

/// Group the entries into dependency-safe batches: the release schedule.
/// Entries are taken in order; a candidate joins the current batch only
/// when every one of its dependencies that is part of this release
/// already lies in a closed batch — never on a sibling within the same
/// batch — and otherwise the current batch is closed first.  A batch
/// that reaches `target_batch_size` members is closed at once; a size of
/// zero means no size limit.
///
/// The concatenation of the returned batches is exactly the input list,
/// no batch is empty, no batch exceeds the target size, and on an input
/// in dependency order the schedule satisfies [`schedule_safe`] — every
/// in-release dependency lies in a strictly earlier batch — and
/// [`grouping_tight`]: no batch is closed before it has to be.
#[verifier::rlimit(100)]
pub fn create_dependency_aware_batches(items: &Vec<CrateInfo>, target_batch_size: usize) -> (r:
    Vec<Vec<CrateInfo>>)
    ensures
        sched_view(r@).flatten() =~= views_of(items@),
        forall|b: int| 0 <= b < r@.len() ==> (#[trigger] sched_view(r@)[b]).len() > 0,
        target_batch_size > 0 ==> forall|b: int|
            0 <= b < r@.len() ==> (#[trigger] sched_view(r@)[b]).len() <= target_batch_size,
        dep_ordered(views_of(items@)) ==> schedule_safe(sched_view(r@), views_of(items@)),
        dep_ordered(views_of(items@)) ==> grouping_tight(
            sched_view(r@),
            views_of(items@),
            target_batch_size as int,
        ),
{
    let ghost iv = views_of(items@);
    let n = items.len();
    let mut batches: Vec<Vec<CrateInfo>> = Vec::new();
    let mut current: Vec<CrateInfo> = Vec::new();
    let mut released: Vec<String> = Vec::new();
    let mut i: usize = 0;
    while i < n
        invariant
            n == items@.len(),
            iv == views_of(items@),
            i <= n,
            sched_view(batches@).flatten() + views_of(current@) =~= iv.take(i as int),
            forall|b: int|
                0 <= b < batches@.len() ==> (#[trigger] sched_view(batches@)[b]).len() > 0,
            target_batch_size > 0 ==> current@.len() < target_batch_size,
            target_batch_size > 0 ==> forall|b: int|
                0 <= b < batches@.len() ==> (#[trigger] sched_view(batches@)[b]).len()
                    <= target_batch_size,
            str_views(released@) =~= item_names(sched_view(batches@).flatten()),
            dep_ordered(iv) ==> schedule_safe(sched_view(batches@), iv),
            dep_ordered(iv) ==> forall|k: int, d: int|
                #![trigger views_of(current@)[k].dependencies[d]]
                0 <= k < current@.len() && 0 <= d < views_of(current@)[k].dependencies.len()
                    && name_listed(iv, views_of(current@)[k].dependencies[d]) ==> str_views(
                    released@,
                ).contains(views_of(current@)[k].dependencies[d]),
            current@.len() == 0 && batches@.len() > 0 ==> target_batch_size > 0 && sched_view(
                batches@,
            )[batches@.len() - 1].len() >= target_batch_size,
            dep_ordered(iv) && current@.len() > 0 && batches@.len() > 0 ==> batch_boundary_ok(
                sched_view(batches@)[batches@.len() - 1],
                views_of(current@)[0],
                iv,
                target_batch_size as int,
            ),
            dep_ordered(iv) ==> grouping_tight(
                sched_view(batches@),
                iv,
                target_batch_size as int,
            ),
        decreases n - i,
    {
        let ghost entry_sched = sched_view(batches@);
        let ghost entry_cur = views_of(current@);
        let ghost entry_rel = str_views(released@);
        let c = items[i].duplicate();
        proof {
            assert(c@ == iv[i as int]);
        }
        let ok = deps_ok(&c, items, &released);
        if !ok && current.len() > 0 {
            let ghost sched0 = sched_view(batches@);
            let ghost curv = views_of(current@);
            proof {
                if dep_ordered(iv) {
                    lemma_close_preserves_safe(sched0, curv, item_names(sched0.flatten()), iv);
                }
            }
            let cur = current;
            current = Vec::new();
            close_batch(&mut batches, &mut released, cur);
            proof {
                lemma_sched_view_push(batches@.drop_last(), batches@.last());
                assert(batches@.drop_last().push(batches@.last()) =~= batches@);
                assert(sched_view(batches@) =~= sched0.push(curv));
                Seq::lemma_flatten_push(sched0, curv);
                assert(sched_view(batches@).flatten() =~= sched0.flatten() + curv);
                assert(sched_view(batches@).flatten() + views_of(current@) =~= iv.take(i as int));
                lemma_item_names_add(sched0.flatten(), curv);
                assert(str_views(released@) =~= item_names(sched_view(batches@).flatten()));
                if dep_ordered(iv) {
                    lemma_close_preserves_grouping(sched0, curv, iv, target_batch_size as int);
                    assert(grouping_tight(
                        sched_view(batches@),
                        iv,
                        target_batch_size as int,
                    ));
                }
            }
        }
        let ghost cur_pre = views_of(current@);
        let ghost relc = str_views(released@);
        proof {
            // when the candidate could not join the old batch, the batch
            // was closed, so the candidate's listed dependencies are all
            // released once the input is in dependency order
            if dep_ordered(iv) && !ok {
                assert(current@.len() == 0);
                assert(sched_view(batches@).flatten() =~= iv.take(i as int));
                assert forall|d: int|
                    0 <= d < iv[i as int].dependencies.len() && name_listed(
                        iv,
                        #[trigger] iv[i as int].dependencies[d],
                    ) implies relc.contains(iv[i as int].dependencies[d]) by {
                    let j = choose|j: int|
                        0 <= j < i as int && (#[trigger] iv[j].pkg.name) == iv[
                            i as int].dependencies[d];
                    let fl = sched_view(batches@).flatten();
                    assert(fl[j] == iv.take(i as int)[j]);
                    assert(item_names(fl)[j] == iv[j].pkg.name);
                    assert(relc[j] == iv[i as int].dependencies[d]);
                }
            }
        }
        current.push(c);
        proof {
            assert(views_of(current@) =~= cur_pre.push(iv[i as int]));
            assert(iv.take(i + 1) =~= iv.take(i as int).push(iv[i as int]));
            assert(sched_view(batches@).flatten() + cur_pre.push(iv[i as int]) =~= (sched_view(
                batches@,
            ).flatten() + cur_pre).push(iv[i as int]));
            assert(sched_view(batches@).flatten() + views_of(current@) =~= iv.take(i + 1));
            if dep_ordered(iv) {
                assert forall|k: int, d: int|
                    #![trigger views_of(current@)[k].dependencies[d]]
                    0 <= k < current@.len() && 0 <= d < views_of(current@)[k].dependencies.len()
                        && name_listed(
                        iv,
                        views_of(current@)[k].dependencies[d],
                    ) implies str_views(released@).contains(
                    views_of(current@)[k].dependencies[d]) by {
                    if k < cur_pre.len() {
                        assert(views_of(current@)[k] == cur_pre[k]);
                        assert(cur_pre[k].dependencies[d] == views_of(
                            current@,
                        )[k].dependencies[d]);
                    } else {
                        assert(views_of(current@)[k] == iv[i as int]);
                        assert(str_views(released@) == relc);
                    }
                }
                // the open batch still starts at a justified boundary
                if batches@.len() > 0 {
                    let last = sched_view(batches@)[batches@.len() - 1];
                    if cur_pre.len() > 0 {
                        assert(views_of(current@)[0] == cur_pre[0]);
                        assert(batch_boundary_ok(last, cur_pre[0], iv, target_batch_size as int));
                    } else if !ok && entry_cur.len() > 0 {
                        // the batch just closed holds a dependency of the
                        // candidate that was not yet released
                        assert(last == entry_cur);
                        assert(entry_sched.flatten() + entry_cur =~= iv.take(i as int));
                        lemma_conflict_dep_in_current(
                            entry_sched.flatten(),
                            entry_cur,
                            entry_rel,
                            iv,
                            i as int,
                            target_batch_size as int,
                        );
                        assert(views_of(current@)[0] == iv[i as int]);
                        assert(batch_boundary_ok(
                            last,
                            views_of(current@)[0],
                            iv,
                            target_batch_size as int,
                        ));
                    } else {
                        // no close happened, so the batch list is the
                        // entry state and its last batch was full
                        assert(entry_cur.len() == 0);
                        assert(sched_view(batches@) == entry_sched);
                        assert(last.len() >= target_batch_size && target_batch_size > 0);
                        assert(batch_boundary_ok(
                            last,
                            views_of(current@)[0],
                            iv,
                            target_batch_size as int,
                        ));
                    }
                }
            }
        }
        if target_batch_size > 0 && current.len() >= target_batch_size {
            let ghost sched0 = sched_view(batches@);
            let ghost curv = views_of(current@);
            proof {
                if dep_ordered(iv) {
                    lemma_close_preserves_safe(sched0, curv, item_names(sched0.flatten()), iv);
                }
            }
            let cur = current;
            current = Vec::new();
            close_batch(&mut batches, &mut released, cur);
            proof {
                if dep_ordered(iv) {
                    lemma_close_preserves_grouping(sched0, curv, iv, target_batch_size as int);
                }
                lemma_sched_view_push(batches@.drop_last(), batches@.last());
                assert(batches@.drop_last().push(batches@.last()) =~= batches@);
                assert(sched_view(batches@) =~= sched0.push(curv));
                Seq::lemma_flatten_push(sched0, curv);
                assert(sched_view(batches@).flatten() =~= sched0.flatten() + curv);
                assert(sched_view(batches@).flatten() + views_of(current@) =~= iv.take(i + 1));
                lemma_item_names_add(sched0.flatten(), curv);
                assert(str_views(released@) =~= item_names(sched_view(batches@).flatten()));
            }
        }
        i += 1;
    }
    if current.len() > 0 {
        let ghost sched0 = sched_view(batches@);
        let ghost curv = views_of(current@);
        proof {
            if dep_ordered(iv) {
                lemma_close_preserves_safe(sched0, curv, item_names(sched0.flatten()), iv);
            }
        }
        let cur = current;
        close_batch(&mut batches, &mut released, cur);
        proof {
            lemma_sched_view_push(batches@.drop_last(), batches@.last());
            assert(batches@.drop_last().push(batches@.last()) =~= batches@);
            assert(sched_view(batches@) =~= sched0.push(curv));
            Seq::lemma_flatten_push(sched0, curv);
            assert(sched_view(batches@).flatten() =~= sched0.flatten() + curv);
            if dep_ordered(iv) {
                lemma_close_preserves_grouping(sched0, curv, iv, target_batch_size as int);
                assert(grouping_tight(sched_view(batches@), iv, target_batch_size as int));
            }
        }
    }
    proof {
        assert(iv.take(n as int) =~= iv);
        assert(sched_view(batches@).flatten() =~= views_of(items@));
    }
    batches
}

/// One requirement inside a feature declaration.
#[derive(Debug, Clone)]
pub enum FeatureNeed {
    /// Enables another feature of the same package.
    OtherFeature(String),
    /// Enables an optional dependency.
    Dep(String),
    /// Enables a feature of a dependency; a weak need does not enable
    /// the dependency itself.
    DepFeature(String, String, bool),
}

/// One row of a package's feature table.
#[derive(Debug, Clone)]
pub struct FeatureEntry {
    pub name: String,
    pub needs: Vec<FeatureNeed>,
}

/// Mathematical image of a [`FeatureNeed`].
pub enum FeatureNeedView {
    OtherFeature(Seq<char>),
    Dep(Seq<char>),
    DepFeature(Seq<char>, Seq<char>, bool),
}

impl View for FeatureNeed {
    type V = FeatureNeedView;

    open spec fn view(&self) -> FeatureNeedView {
        match self {
            FeatureNeed::OtherFeature(n) => FeatureNeedView::OtherFeature(n@),
            FeatureNeed::Dep(n) => FeatureNeedView::Dep(n@),
            FeatureNeed::DepFeature(n, f, w) => FeatureNeedView::DepFeature(n@, f@, *w),
        }
    }
}

/// The dependency a feature need refers to, if any.
pub open spec fn need_dep(n: FeatureNeedView) -> Option<Seq<char>> {
    match n {
        FeatureNeedView::OtherFeature(_) => None,
        FeatureNeedView::Dep(d) => Some(d),
        FeatureNeedView::DepFeature(d, _, _) => Some(d),
    }
}

/// The manifest text of a feature need.
pub open spec fn spec_need_str(n: FeatureNeedView) -> Seq<char> {
    match n {
        FeatureNeedView::OtherFeature(f) => f,
        FeatureNeedView::Dep(d) => "dep:"@ + d,
        FeatureNeedView::DepFeature(d, f, w) => if w {
            d + "?/"@ + f
        } else {
            d + "/"@ + f
        },
    }
}

impl FeatureNeed {
    /// The manifest text of this need, as [`spec_need_str`].
    pub fn render(&self) -> (r: String)
        ensures
            r@ == spec_need_str(self@),
    {
        match self {
            FeatureNeed::OtherFeature(f) => f.clone(),
            FeatureNeed::Dep(d) => {
                let mut s = String::new();
                s.append("dep:");
                s.append(d.as_str());
                proof {
                    assert(s@ =~= spec_need_str(self@));
                }
                s
            },
            FeatureNeed::DepFeature(d, f, w) => {
                let mut s = d.clone();
                if *w {
                    s.append("?/");
                } else {
                    s.append("/");
                }
                s.append(f.as_str());
                proof {
                    assert(s@ =~= spec_need_str(self@));
                }
                s
            },
        }
    }
}

/// Whether a dependency is development-only: among the development
/// dependencies and not also a regular one.
pub open spec fn dev_only(dev: Seq<Seq<char>>, non_dev: Seq<Seq<char>>, d: Seq<char>) -> bool {
    dev.contains(d) && !non_dev.contains(d)
}

/// The feature parts to strip before publishing: every feature need
/// that refers to a development-only dependency, paired with the
/// feature that holds it.  Development-only dependencies are not part
/// of a published package, so features must not reference them.  The
/// result lists exactly the referring needs, feature by feature in
/// table order.
pub fn remove_dev_features(
    dev_deps: &Vec<String>,
    non_dev_deps: &Vec<String>,
    features: &Vec<FeatureEntry>,
) -> (r: Vec<crate::plan::RemoveFeature>)
    ensures
        forall|k: int|
            #![trigger r@[k]]
            0 <= k < r@.len() ==> exists|i: int, j: int|
                #![trigger features@[i].needs@[j]]
                0 <= i < features@.len() && 0 <= j < features@[i].needs@.len() && {
                    let need = features@[i].needs@[j]@;
                    &&& need_dep(need) matches Some(d) && dev_only(
                        str_views(dev_deps@),
                        str_views(non_dev_deps@),
                        d,
                    )
                    &&& r@[k]@.feature == features@[i].name@
                    &&& r@[k]@.value == Some(spec_need_str(need))
                },
        forall|i: int, j: int|
            #![trigger features@[i].needs@[j]]
            0 <= i < features@.len() && 0 <= j < features@[i].needs@.len() && (need_dep(
                features@[i].needs@[j]@,
            ) matches Some(d) && dev_only(str_views(dev_deps@), str_views(non_dev_deps@), d))
                ==> exists|k: int|
                0 <= k < r@.len() && (#[trigger] r@[k])@.feature == features@[i].name@
                    && r@[k]@.value == Some(spec_need_str(features@[i].needs@[j]@)),
{
    let mut r: Vec<crate::plan::RemoveFeature> = Vec::new();
    let ghost mut widx: Seq<(int, int)> = Seq::empty();
    let ghost mut cov: Map<(int, int), int> = Map::empty();
    let nf = features.len();
    let mut i: usize = 0;
    while i < nf
        invariant
            nf == features@.len(),
            i <= nf,
            widx.len() == r@.len(),
            forall|k: int|
                #![trigger widx[k]]
                0 <= k < r@.len() ==> {
                    let (wi, wj) = widx[k];
                    &&& 0 <= wi < features@.len()
                    &&& 0 <= wj < features@[wi].needs@.len()
                    &&& need_dep(features@[wi].needs@[wj]@) matches Some(d) && dev_only(
                        str_views(dev_deps@),
                        str_views(non_dev_deps@),
                        d,
                    )
                    &&& r@[k]@.feature == features@[wi].name@
                    &&& r@[k]@.value == Some(spec_need_str(features@[wi].needs@[wj]@))
                },
            forall|i2: int, j2: int|
                #![trigger features@[i2].needs@[j2]]
                0 <= i2 < i && 0 <= j2 < features@[i2].needs@.len() && (need_dep(
                    features@[i2].needs@[j2]@,
                ) matches Some(d) && dev_only(str_views(dev_deps@), str_views(non_dev_deps@), d))
                    ==> cov.contains_key((i2, j2)) && 0 <= cov[(i2, j2)] < r@.len() && r@[
                    cov[(i2, j2)]]@.feature == features@[i2].name@ && r@[cov[
                    (i2, j2)]]@.value == Some(spec_need_str(features@[i2].needs@[j2]@)),
        decreases nf - i,
    {
        let entry = &features[i];
        let nn = entry.needs.len();
        let mut j: usize = 0;
        while j < nn
            invariant
                nf == features@.len(),
                i < nf,
                nn == entry.needs@.len(),
                entry.needs@ == features@[i as int].needs@,
                entry.name@ == features@[i as int].name@,
                j <= nn,
                widx.len() == r@.len(),
                forall|k: int|
                    #![trigger widx[k]]
                    0 <= k < r@.len() ==> {
                        let (wi, wj) = widx[k];
                        &&& 0 <= wi < features@.len()
                        &&& 0 <= wj < features@[wi].needs@.len()
                        &&& need_dep(features@[wi].needs@[wj]@) matches Some(d) && dev_only(
                            str_views(dev_deps@),
                            str_views(non_dev_deps@),
                            d,
                        )
                        &&& r@[k]@.feature == features@[wi].name@
                        &&& r@[k]@.value == Some(spec_need_str(features@[wi].needs@[wj]@))
                    },
                forall|i2: int, j2: int|
                    #![trigger features@[i2].needs@[j2]]
                    0 <= i2 < i && 0 <= j2 < features@[i2].needs@.len() && (need_dep(
                        features@[i2].needs@[j2]@,
                    ) matches Some(d) && dev_only(
                        str_views(dev_deps@),
                        str_views(non_dev_deps@),
                        d,
                    )) ==> cov.contains_key((i2, j2)) && 0 <= cov[(i2, j2)] < r@.len() && r@[
                        cov[(i2, j2)]]@.feature == features@[i2].name@ && r@[cov[
                        (i2, j2)]]@.value == Some(spec_need_str(features@[i2].needs@[j2]@)),
                forall|j2: int|
                    #![trigger features@[i as int].needs@[j2]]
                    0 <= j2 < j && (need_dep(features@[i as int].needs@[j2]@) matches Some(d)
                        && dev_only(str_views(dev_deps@), str_views(non_dev_deps@), d)) ==> cov
                        .contains_key((i as int, j2)) && 0 <= cov[(i as int, j2)] < r@.len()
                        && r@[cov[(i as int, j2)]]@.feature == features@[i as int].name@ && r@[
                        cov[(i as int, j2)]]@.value == Some(
                        spec_need_str(features@[i as int].needs@[j2]@),
                    ),
            decreases nn - j,
        {
            let dep = match &entry.needs[j] {
                FeatureNeed::OtherFeature(_) => None,
                FeatureNeed::Dep(d) => Some(d),
                FeatureNeed::DepFeature(d, _, _) => Some(d),
            };
            if let Some(d) = dep {
                if contains_name(dev_deps, d.as_str()) && !contains_name(
                    non_dev_deps,
                    d.as_str(),
                ) {
                    let value = entry.needs[j].render();
                    r.push(
                        crate::plan::RemoveFeature {
                            feature: entry.name.clone(),
                            value: Some(value),
                        },
                    );
                    proof {
                        widx = widx.push((i as int, j as int));
                        cov = cov.insert((i as int, j as int), r@.len() - 1);
                        assert(r@[r@.len() - 1]@.feature == features@[i as int].name@);
                        assert(r@[r@.len() - 1]@.value == Some(
                            spec_need_str(features@[i as int].needs@[j as int]@),
                        ));
                    }
                }
            }
            j += 1;
        }
        i += 1;
    }
    proof {
        assert forall|k: int| #![trigger r@[k]] 0 <= k < r@.len() implies exists|i2: int, j2: int|
            #![trigger features@[i2].needs@[j2]]
            0 <= i2 < features@.len() && 0 <= j2 < features@[i2].needs@.len() && {
                let need = features@[i2].needs@[j2]@;
                &&& need_dep(need) matches Some(d) && dev_only(
                    str_views(dev_deps@),
                    str_views(non_dev_deps@),
                    d,
                )
                &&& r@[k]@.feature == features@[i2].name@
                &&& r@[k]@.value == Some(spec_need_str(need))
            } by {
            let (wi, wj) = widx[k];
            assert(0 <= wi < features@.len() && 0 <= wj < features@[wi].needs@.len());
            assert(features@[wi].needs@[wj] == features@[wi].needs@[wj]);
        }
    }
    r
}

/// The result of one publish operation.
#[derive(Debug, Clone)]
pub struct PublishOutcome {
    pub name: String,
    pub success: bool,
    pub elapsed_secs: u64,
    pub error: Option<String>,
}

/// Mathematical image of a [`PublishOutcome`].
pub struct PublishOutcomeView {
    pub name: Seq<char>,
    pub success: bool,
    pub elapsed_secs: u64,
    pub error: Option<Seq<char>>,
}

impl View for PublishOutcome {
    type V = PublishOutcomeView;

    open spec fn view(&self) -> PublishOutcomeView {
        PublishOutcomeView {
            name: self.name@,
            success: self.success,
            elapsed_secs: self.elapsed_secs,
            error: crate::plan::opt_view(self.error),
        }
    }
}

/// The views of a list of outcomes.
pub open spec fn outcome_views(s: Seq<PublishOutcome>) -> Seq<PublishOutcomeView> {
    s.map_values(|o: PublishOutcome| o@)
}

/// Whether every recorded outcome succeeded.
pub open spec fn all_succeeded(s: Seq<PublishOutcomeView>) -> bool {
    forall|k: int| 0 <= k < s.len() ==> (#[trigger] s[k]).success
}

/// The predicate "this outcome failed", as a value.
pub open spec fn failed_pred() -> spec_fn(PublishOutcomeView) -> bool {
    |o: PublishOutcomeView| !o.success
}

/// Walks the release schedule batch by batch and collects the outcome of
/// every publish operation.  The caller dispatches one batch at a time;
/// the executor owns the cursor and the outcome list, and is only ever
/// updated between batches, never concurrently with the workers.
#[derive(Debug)]
pub struct PublishExecutor {
    pub schedule: Vec<Vec<CrateInfo>>,
    pub next_batch: usize,
    pub outcomes: Vec<PublishOutcome>,
    pub poll_warnings: Vec<String>,
}

impl PublishExecutor {
    /// The cursor never passes the end of the schedule.
    pub open spec fn wf(&self) -> bool {
        self.next_batch <= self.schedule@.len()
    }

    /// A fresh executor at the start of the schedule.
    pub fn new(schedule: Vec<Vec<CrateInfo>>) -> (r: PublishExecutor)
        ensures
            r.schedule@ == schedule@,
            r.next_batch == 0,
            r.outcomes@.len() == 0,
            r.poll_warnings@.len() == 0,
            r.wf(),
    {
        PublishExecutor {
            schedule,
            next_batch: 0,
            outcomes: Vec::new(),
            poll_warnings: Vec::new(),
        }
    }

    /// Whether every batch has been dispatched.
    pub fn finished(&self) -> (r: bool)
        ensures
            r == (self.next_batch == self.schedule@.len()),
    {
        self.next_batch == self.schedule.len()
    }

    /// The package names of the batch to dispatch next.
    pub fn next_batch_names(&self) -> (r: Vec<String>)
        requires
            self.next_batch < self.schedule@.len(),
        ensures
            str_views(r@) == item_names(sched_view(self.schedule@)[self.next_batch as int]),
    {
        let batch = &self.schedule[self.next_batch];
        let ghost bv = sched_view(self.schedule@)[self.next_batch as int];
        proof {
            assert(bv == views_of(batch@));
        }
        let n = batch.len();
        let mut r: Vec<String> = Vec::new();
        let mut k: usize = 0;
        while k < n
            invariant
                n == batch@.len(),
                bv == views_of(batch@),
                k <= n,
                str_views(r@) =~= item_names(bv).take(k as int),
            decreases n - k,
        {
            let ghost prev = r@;
            r.push(batch[k].pkg.name.clone());
            proof {
                assert(views_of(batch@)[k as int] == batch@[k as int]@);
                assert(item_names(bv)[k as int] == batch@[k as int]@.pkg.name);
                assert(str_views(r@) =~= str_views(prev).push(item_names(bv)[k as int]));
                assert(item_names(bv).take(k + 1) =~= item_names(bv).take(k as int).push(
                    item_names(bv)[k as int],
                ));
                assert(str_views(r@) =~= item_names(bv).take(k + 1));
            }
            k += 1;
        }
        proof {
            assert(item_names(bv).take(n as int) =~= item_names(bv));
        }
        r
    }

    /// Record the outcomes of the batch just dispatched and advance to
    /// the following batch.  The cursor advances whatever the outcomes
    /// say — optimistic continuation: a failed package is recorded, not
    /// fatal, and the dependents of a failed package are still
    /// dispatched with the later batches.
    pub fn record_batch(&mut self, outcomes: Vec<PublishOutcome>)
        requires
            old(self).wf(),
            old(self).next_batch < old(self).schedule@.len(),
        ensures
            final(self).schedule@ == old(self).schedule@,
            final(self).next_batch == old(self).next_batch + 1,
            final(self).outcomes@ == old(self).outcomes@ + outcomes@,
            final(self).poll_warnings@ == old(self).poll_warnings@,
            final(self).wf(),
    {
        let mut outcomes = outcomes;
        self.outcomes.append(&mut outcomes);
        let total = self.schedule.len();
        assert(self.next_batch < total);
        self.next_batch += 1;
    }

    /// Record that the availability poller gave up waiting for a package
    /// to appear in the registry.  This is a warning only: the outcomes
    /// and the cursor are untouched, so an availability timeout never
    /// fails the run and never stops the later batches.
    pub fn record_poll_timeout(&mut self, name: String)
        ensures
            final(self).schedule@ == old(self).schedule@,
            final(self).next_batch == old(self).next_batch,
            final(self).outcomes@ == old(self).outcomes@,
            final(self).poll_warnings@ == old(self).poll_warnings@.push(name),
    {
        self.poll_warnings.push(name);
    }

    /// How many recorded outcomes succeeded.
    pub fn published_count(&self) -> (r: usize)
        ensures
            r as int == outcome_views(self.outcomes@).filter(|o: PublishOutcomeView| o.success).len(),
    {
        let ghost ov = outcome_views(self.outcomes@);
        let n = self.outcomes.len();
        let mut r: usize = 0;
        let mut k: usize = 0;
        while k < n
            invariant
                n == self.outcomes@.len(),
                ov == outcome_views(self.outcomes@),
                k <= n,
                r as int == ov.take(k as int).filter(|o: PublishOutcomeView| o.success).len(),
                r <= k,
            decreases n - k,
        {
            proof {
                assert(ov.take(k + 1) =~= ov.take(k as int).push(ov[k as int]));
                lemma_filter_push(ov.take(k as int), |o: PublishOutcomeView| o.success, ov[k as int]);
                assert(ov[k as int].success == self.outcomes@[k as int]@.success);
            }
            if self.outcomes[k].success {
                r += 1;
            }
            k += 1;
        }
        proof {
            assert(ov.take(n as int) =~= ov);
        }
        r
    }

    /// The recorded outcomes that failed, in order.
    pub fn failed(&self) -> (r: Vec<PublishOutcome>)
        ensures
            outcome_views(r@) == outcome_views(self.outcomes@).filter(failed_pred()),
    {
        let ghost ov = outcome_views(self.outcomes@);
        let n = self.outcomes.len();
        let mut r: Vec<PublishOutcome> = Vec::new();
        let mut k: usize = 0;
        while k < n
            invariant
                n == self.outcomes@.len(),
                ov == outcome_views(self.outcomes@),
                k <= n,
                outcome_views(r@) =~= ov.take(k as int).filter(failed_pred()),
            decreases n - k,
        {
            let ghost rv = outcome_views(r@);
            proof {
                assert(ov.take(k + 1) =~= ov.take(k as int).push(ov[k as int]));
                lemma_filter_push(ov.take(k as int), failed_pred(), ov[k as int]);
                assert(failed_pred()(ov[k as int]) == !self.outcomes@[k as int]@.success);
            }
            if !self.outcomes[k].success {
                r.push(self.outcomes[k].duplicate());
                proof {
                    assert(outcome_views(r@) =~= rv.push(ov[k as int]));
                }
            }
            k += 1;
        }
        proof {
            assert(ov.take(n as int) =~= ov);
        }
        r
    }

    /// The run's exit status: zero exactly when every recorded outcome
    /// succeeded, one otherwise.  It depends on the publish outcomes
    /// alone, never on the poll warnings.
    pub fn exit_code(&self) -> (r: i32)
        ensures
            (r == 0) == all_succeeded(outcome_views(self.outcomes@)),
            r == 0 || r == 1,
    {
        let ghost ov = outcome_views(self.outcomes@);
        let n = self.outcomes.len();
        let mut k: usize = 0;
        while k < n
            invariant
                n == self.outcomes@.len(),
                ov == outcome_views(self.outcomes@),
                k <= n,
                forall|j: int| 0 <= j < k ==> (#[trigger] ov[j]).success,
            decreases n - k,
        {
            if !self.outcomes[k].success {
                proof {
                    assert(!ov[k as int].success);
                }
                return 1;
            }
            k += 1;
        }
        0
    }
}

impl PublishOutcome {
    /// A copy whose view equals this one's.
    pub fn duplicate(&self) -> (r: PublishOutcome)
        ensures
            r@ == self@,
    {
        PublishOutcome {
            name: self.name.clone(),
            success: self.success,
            elapsed_secs: self.elapsed_secs,
            error: crate::plan::dup_opt_string(&self.error),
        }
    }
}

/// The package decisions of the schedule entries.
pub open spec fn item_pkgs(s: Seq<CrateInfoView>) -> Seq<PublishView> {
    s.map_values(|c: CrateInfoView| c.pkg)
}

/// The schedule input built from a plan: the entries still to publish —
/// exactly as [`crate::plan::select_to_publish`] chooses them — each
/// paired with its package's intra-workspace dependencies from the
/// graph.  On a plan whose entries stand in dependency order with
/// distinct names, the result satisfies [`dep_ordered`], so the batch
/// invariant and the tight grouping of
/// [`create_dependency_aware_batches`] hold for it.
#[verifier::rlimit(60)]
pub fn build_schedule_items(
    planner: &crate::plan::Planner,
    snapshot: &crate::registry::RegistrySnapshot,
    graph: &crate::workspace::WorkspaceGraph,
) -> (r: Vec<CrateInfo>)
    requires
        graph.wf(),
        snapshot.wf(),
    ensures
        item_pkgs(views_of(r@)) == planner@.crates.filter(crate::plan::pending_pred(snapshot@)),
        forall|k: int|
            #![trigger views_of(r@)[k]]
            0 <= k < r@.len() ==> {
                let c = views_of(r@)[k];
                if crate::workspace::has_pkg(graph@, c.pkg.name) {
                    c.dependencies == crate::workspace::pkg_named(
                        graph@,
                        c.pkg.name,
                    ).deps.filter(crate::workspace::member_pred(graph@))
                } else {
                    c.dependencies.len() == 0
                }
            },
        (crate::workspace::deps_precede(
            graph@,
            crate::plan::entry_names(planner@.crates),
        ) && (forall|k1: int, k2: int|
            0 <= k1 < k2 < planner@.crates.len() ==> (#[trigger] planner@.crates[k1]).name != (
            #[trigger] planner@.crates[k2]).name)) ==> dep_ordered(views_of(r@)),
{
    let ghost ev = planner@.crates;
    proof {
        assert(ev =~= crate::plan::entry_views(planner.crates@));
    }
    let n = planner.crates.len();
    let mut r: Vec<CrateInfo> = Vec::new();
    let ghost mut oidx: Seq<int> = Seq::empty();
    let mut k: usize = 0;
    while k < n
        invariant
            graph.wf(),
            snapshot.wf(),
            ev == planner@.crates,
            n == planner.crates@.len(),
            k <= n,
            forall|j: int| 0 <= j < n ==> ev[j] == (#[trigger] planner.crates@[j])@,
            oidx.len() == r@.len(),
            forall|kk: int| 0 <= kk < oidx.len() ==> 0 <= #[trigger] oidx[kk] < k,
            forall|a: int, b: int| 0 <= a < b < oidx.len() ==> oidx[a] < oidx[b],
            forall|kk: int|
                #![trigger views_of(r@)[kk]]
                0 <= kk < r@.len() ==> views_of(r@)[kk].pkg == ev[oidx[kk]],
            forall|kk: int|
                #![trigger views_of(r@)[kk]]
                0 <= kk < r@.len() ==> {
                    let c = views_of(r@)[kk];
                    if crate::workspace::has_pkg(graph@, c.pkg.name) {
                        c.dependencies == crate::workspace::pkg_named(
                            graph@,
                            c.pkg.name,
                        ).deps.filter(crate::workspace::member_pred(graph@))
                    } else {
                        c.dependencies.len() == 0
                    }
                },
            item_pkgs(views_of(r@)) =~= ev.take(k as int).filter(
                crate::plan::pending_pred(snapshot@),
            ),
        decreases n - k,
    {
        let ghost prev = views_of(r@);
        let e = &planner.crates[k];
        let keep = if !e.publish {
            false
        } else {
            match crate::version::parse_version(e.to.as_str()) {
                Some(v) => !snapshot.version_exists(e.name.as_str(), &v),
                None => true,
            }
        };
        proof {
            assert(keep == crate::plan::pending_pred(snapshot@)(ev[k as int]));
        }
        if keep {
            let dependencies = graph.dependencies(e.name.as_str());
            r.push(CrateInfo { pkg: e.duplicate(), dependencies });
            proof {
                oidx = oidx.push(k as int);
                assert(views_of(r@) =~= prev.push(r@[r@.len() - 1]@));
                assert(views_of(r@)[r@.len() - 1].pkg == ev[k as int]);
            }
        }
        proof {
            assert(ev.take(k + 1) =~= ev.take(k as int).push(ev[k as int]));
            crate::workspace::lemma_filter_push(
                ev.take(k as int),
                crate::plan::pending_pred(snapshot@),
                ev[k as int],
            );
            if keep {
                assert(item_pkgs(views_of(r@)) =~= item_pkgs(prev).push(ev[k as int]));
            }
            assert(item_pkgs(views_of(r@)) =~= ev.take(k + 1).filter(
                crate::plan::pending_pred(snapshot@),
            ));
        }
        k += 1;
    }
    proof {
        assert(ev.take(n as int) =~= ev);
        let g = graph@;
        let names = crate::plan::entry_names(ev);
        let iv = views_of(r@);
        if crate::workspace::deps_precede(g, names) && (forall|k1: int, k2: int|
            0 <= k1 < k2 < ev.len() ==> (#[trigger] ev[k1]).name != (#[trigger] ev[k2]).name) {
            assert forall|kk: int, d: int|
                #![trigger iv[kk].dependencies[d]]
                0 <= kk < iv.len() && 0 <= d < iv[kk].dependencies.len() && name_listed(
                    iv,
                    iv[kk].dependencies[d],
                ) implies exists|j: int|
                0 <= j < kk && (#[trigger] iv[j].pkg.name) == iv[kk].dependencies[d] by {
                let dd = iv[kk].dependencies[d];
                let ok = oidx[kk];
                assert(iv[kk].pkg == ev[ok]);
                // the dependency comes from the package's declared list
                assert(crate::workspace::has_pkg(g, iv[kk].pkg.name));
                let p = crate::workspace::pkg_named(g, iv[kk].pkg.name);
                assert(iv[kk].dependencies.contains(dd));
                lemma_filter_member(p.deps, crate::workspace::member_pred(g), dd);
                let dp = choose|dp: int| 0 <= dp < p.deps.len() && p.deps[dp] == dd;
                let ip = choose|ip: int| 0 <= ip < g.len() && g[ip].name == iv[kk].pkg.name;
                assert(g[ip] == p);
                // the plan places the dependency's entry strictly earlier
                assert(names[ok] == ev[ok].name);
                assert(g[ip].deps[dp] == dd && crate::workspace::has_pkg(g, dd));
                let jn = choose|jn: int| 0 <= jn < ok && #[trigger] names[jn] == g[ip].deps[dp];
                // the listed dependency is itself a selected entry
                let k2 = choose|k2: int|
                    0 <= k2 < iv.len() && (#[trigger] iv[k2]).pkg.name == dd;
                let ok2 = oidx[k2];
                assert(iv[k2].pkg == ev[ok2]);
                assert(names[ok2] == dd);
                if ok2 != jn {
                    assert(ev[ok2].name == ev[jn].name);
                    assert(false);
                }
                if k2 > kk {
                    assert(oidx[kk] < oidx[k2]);
                    assert(false);
                }
                if k2 == kk {
                    assert(names[jn] == names[ok]);
                    assert(false);
                }
                assert(iv[k2].pkg.name == dd);
            }
        }
    }
    r
}

/// The registry that publish operations are sent to: an explicitly
/// configured location wins over the staging flag, the staging flag over
/// the default, and with neither set no location is overridden at all.
pub fn effective_registry_url(staging: bool, registry_url: &Option<String>) -> (r: Option<String>)
    ensures
        match registry_url {
            Some(u) => r matches Some(s) && s@ == u@,
            None => {
                &&& staging ==> (r matches Some(s) && s@ == "https://staging.crates.io"@)
                &&& !staging ==> r is None
            },
        },
{
    match registry_url {
        Some(u) => Some(u.clone()),
        None => {
            if staging {
                Some("https://staging.crates.io".to_owned())
            } else {
                None
            }
        },
    }
}

} // verus!
