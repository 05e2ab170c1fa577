//! The steps of arranging block devices into a forest: each device that names a
//! parent present among the roots moves under it; the others stay roots.
use vstd::prelude::*;
use crate::installer::forest::{
    children_sorted, forest_sorted, lemma_forest_all_permutation, lemma_forest_names_flat,
    lemma_forest_names_permutation, lemma_forest_names_pointwise, lemma_forest_under_permutation,
    lemma_permutation_member, sorted_by_name, sorted_version,
    distinct_roots, forest_all, forest_names, forest_under, has_child_named, has_root,
    is_last_record, last_record_of, lemma_forest_names_push, lemma_forest_names_remove,
    lemma_forest_names_update, lemma_forest_names_has_root, lemma_last_record_same, root_has_child, same_record, tree_all,
    tree_names, tree_under,
};
use crate::installer::probe::DiskInfo;

verus! {

/// No device in `flat` has children yet.
pub open spec fn childless(flat: Seq<DiskInfo>) -> bool {
    forall|k: int| 0 <= k < flat.len() ==> (#[trigger] flat[k]).children@.len() == 0
}

/// No later device in `flat` has the name of the one at `k`.
pub open spec fn is_last_index(flat: Seq<DiskInfo>, k: int) -> bool {
    forall|k2: int| k < k2 < flat.len() ==> (#[trigger] flat[k2]).sysname@ != flat[k].sysname@
}

/// `d` names no parent, or one that no device in `s` is called.
pub open spec fn parent_missing(s: Seq<DiskInfo>, d: DiskInfo) -> bool {
    match d.parent_sysname {
        None => true,
        Some(p) => !has_root(s, p@),
    }
}

/// `s` holds a device called `p` whose own parent is missing from `s`.
pub open spec fn top_device(s: Seq<DiskInfo>, p: Seq<char>) -> bool {
    exists|m: int| 0 <= m < s.len() && (#[trigger] s[m]).sysname@ == p && parent_missing(s, s[m])
}

/// A root of `s` is called `c` and names `p` as its parent.
pub open spec fn pending_pair(s: Seq<DiskInfo>, c: Seq<char>, p: Seq<char>) -> bool {
    exists|m: int|
        0 <= m < s.len() && (#[trigger] s[m]).sysname@ == c && (s[m].parent_sysname matches Some(
            q,
        ) && q@ == p)
}

/// `d` describes a root of `s0`.
pub open spec fn record_in(s0: Seq<DiskInfo>, d: DiskInfo) -> bool {
    exists|m0: int| 0 <= m0 < s0.len() && same_record(#[trigger] s0[m0], d)
}

/// Every root of `s` describes a root of `s0`.
pub open spec fn roots_from(s: Seq<DiskInfo>, s0: Seq<DiskInfo>) -> bool {
    forall|m: int| 0 <= m < s.len() ==> record_in(s0, #[trigger] s[m])
}

/// What holds after the first `kk` (child, parent) pairs of `pv` were handled, starting
/// from the roots `s0` taken from `flat`.
pub open spec fn attach_inv(
    flat: Seq<DiskInfo>,
    s0: Seq<DiskInfo>,
    pv: Seq<(Seq<char>, Seq<char>)>,
    kk: int,
    s: Seq<DiskInfo>,
) -> bool {
    &&& distinct_roots(s)
    &&& forest_names(s) == forest_names(s0)
    &&& roots_from(s, s0)
    &&& (childless(flat) ==> forest_all(s, last_record_of(flat)))
    &&& (childless(flat) ==> forest_under(s, None))
    &&& (forall|k: int| kk <= k < pv.len() ==> pending_pair(s, (#[trigger] pv[k]).0, pv[k].1))
    &&& (forall|m0: int|
        0 <= m0 < s0.len() && parent_missing(s0, #[trigger] s0[m0]) ==> has_root(s, s0[m0].sysname@))
    &&& (forall|k: int|
        0 <= k < kk && top_device(s0, (#[trigger] pv[k]).1) ==> root_has_child(s, pv[k].1, pv[k].0))
    &&& settled(s, pv, kk)
}

/// Of the first `kk` pairs, each whose child is still a root (and is not its own
/// parent) has a parent that is not a root.
pub open spec fn settled(s: Seq<DiskInfo>, pv: Seq<(Seq<char>, Seq<char>)>, kk: int) -> bool {
    forall|k: int|
        0 <= k < kk && has_root(s, (#[trigger] pv[k]).0) && pv[k].0 != pv[k].1 ==> !has_root(s, pv[k].1)
}

/// Facts about the roots and the pairs that do not change while pairs are handled.
pub open spec fn pairs_ok(s0: Seq<DiskInfo>, pv: Seq<(Seq<char>, Seq<char>)>) -> bool {
    &&& distinct_roots(s0)
    &&& forall|k1: int, k2: int| 0 <= k1 < k2 < pv.len() ==> (#[trigger] pv[k1]).0 != (#[trigger] pv[k2]).0
}

proof fn lemma_remove_index(s: Seq<DiskInfo>, ci: int, m: int) -> (m1: int)
    requires
        0 <= ci < s.len(),
        0 <= m < s.len(),
        m != ci,
    ensures
        0 <= m1 < s.len() - 1,
        s.remove(ci)[m1] == s[m],
{
    if m < ci { m } else { m - 1 }
}

/// A device named in `s0` whose record appears among the roots of `s` is the one in `s0`.
proof fn lemma_record_of_name(s0: Seq<DiskInfo>, s: Seq<DiskInfo>, m: int, m0: int)
    requires
        distinct_roots(s0),
        roots_from(s, s0),
        0 <= m < s.len(),
        0 <= m0 < s0.len(),
        s0[m0].sysname@ == s[m].sysname@,
    ensures
        same_record(s0[m0], s[m]),
{
    assert(record_in(s0, s[m]));
    let w = choose|w: int| 0 <= w < s0.len() && same_record(#[trigger] s0[w], s[m]);
    if w != m0 {
        if w < m0 {
            assert(s0[w].sysname@ != s0[m0].sysname@);
        } else {
            assert(s0[m0].sysname@ != s0[w].sysname@);
        }
    }
}

/// Handling a pair whose parent is not a root leaves the roots as they were.
pub proof fn lemma_attach_put_back(
    flat: Seq<DiskInfo>,
    s0: Seq<DiskInfo>,
    pv: Seq<(Seq<char>, Seq<char>)>,
    kk: int,
    s: Seq<DiskInfo>,
    ci: int,
)
    requires
        pairs_ok(s0, pv),
        0 <= kk < pv.len(),
        attach_inv(flat, s0, pv, kk, s),
        0 <= ci < s.len(),
        s[ci].sysname@ == pv[kk].0,
        forall|j: int| 0 <= j < s.remove(ci).len() ==> (#[trigger] s.remove(ci)[j]).sysname@ != pv[kk].1,
    ensures
        attach_inv(flat, s0, pv, kk + 1, s),
{
    let (c, p) = (pv[kk].0, pv[kk].1);
    lemma_remove_shift(s, ci);
    assert(settled(s, pv, kk + 1)) by {
        if c != p {
            assert forall|m: int| 0 <= m < s.len() implies (#[trigger] s[m]).sysname@ != p by {
                if m != ci {
                    let m1 = lemma_remove_index(s, ci, m);
                    assert(s.remove(ci)[m1].sysname@ != p);
                }
            }
        }
    }
    if top_device(s0, p) {
        let m0 = choose|m0: int| 0 <= m0 < s0.len() && (#[trigger] s0[m0]).sysname@ == p && parent_missing(s0, s0[m0]);
        assert(has_root(s, s0[m0].sysname@));
        let m = choose|m: int| 0 <= m < s.len() && (#[trigger] s[m]).sysname@ == p;
        if m == ci {
            // the device would name itself as its parent
            assert(pending_pair(s, c, p));
            let w = choose|w: int| 0 <= w < s.len() && (#[trigger] s[w]).sysname@ == c && (s[w].parent_sysname matches Some(q) && q@ == p);
            assert(w == ci) by {
                if w != ci {
                    if w < ci { assert(s[w].sysname@ != s[ci].sysname@); } else { assert(s[ci].sysname@ != s[w].sysname@); }
                }
            }
            lemma_record_of_name(s0, s, ci, m0);
            assert(has_root(s0, p));
        } else {
            let m1 = lemma_remove_index(s, ci, m);
            assert(s.remove(ci)[m1].sysname@ == p);
        }
    }
}

/// The situation of a step that moves root `ci` of `s` under root `pi` of what is left.
pub open spec fn attach_pre(
    flat: Seq<DiskInfo>,
    s0: Seq<DiskInfo>,
    pv: Seq<(Seq<char>, Seq<char>)>,
    kk: int,
    s: Seq<DiskInfo>,
    ci: int,
    pi: int,
    par2: DiskInfo,
) -> bool {
    &&& pairs_ok(s0, pv)
    &&& 0 <= kk < pv.len()
    &&& attach_inv(flat, s0, pv, kk, s)
    &&& 0 <= ci < s.len()
    &&& s[ci].sysname@ == pv[kk].0
    &&& 0 <= pi < s.len() - 1
    &&& s.remove(ci)[pi].sysname@ == pv[kk].1
    &&& same_record(s.remove(ci)[pi], par2)
    &&& par2.children@ == s.remove(ci)[pi].children@.push(s[ci])
}

proof fn lemma_remove_shift(s: Seq<DiskInfo>, ci: int)
    requires
        0 <= ci < s.len(),
    ensures
        forall|j: int| 0 <= j < s.len() - 1 ==> #[trigger] s.remove(ci)[j] == s[if j < ci { j } else { j + 1 }],
{
}

/// The moved child names the parent it moves under, and no device of `s0` called like
/// the child misses its parent.
proof fn lemma_attach_facts(
    flat: Seq<DiskInfo>,
    s0: Seq<DiskInfo>,
    pv: Seq<(Seq<char>, Seq<char>)>,
    kk: int,
    s: Seq<DiskInfo>,
    ci: int,
    pi: int,
    par2: DiskInfo,
)
    requires
        attach_pre(flat, s0, pv, kk, s, ci, pi, par2),
    ensures
        s[ci].parent_sysname matches Some(q) && q@ == pv[kk].1,
        has_root(s0, pv[kk].1),
        !top_device(s0, pv[kk].0),
{
    let (c, p) = (pv[kk].0, pv[kk].1);
    let s1 = s.remove(ci);
    lemma_remove_shift(s, ci);
    assert(pending_pair(s, c, p));
    let w = choose|w: int| 0 <= w < s.len() && (#[trigger] s[w]).sysname@ == c && (s[w].parent_sysname matches Some(q) && q@ == p);
    assert(w == ci) by {
        if w != ci {
            if w < ci { assert(s[w].sysname@ != s[ci].sysname@); } else { assert(s[ci].sysname@ != s[w].sysname@); }
        }
    }
    let pj = if pi < ci { pi } else { pi + 1 };
    assert(s[pj] == s1[pi]);
    assert(record_in(s0, s[pj]));
    let pm0 = choose|m0: int| 0 <= m0 < s0.len() && same_record(#[trigger] s0[m0], s[pj]);
    assert(s0[pm0].sysname@ == p);
    assert forall|m0: int| 0 <= m0 < s0.len() && (#[trigger] s0[m0]).sysname@ == c implies !parent_missing(s0, s0[m0]) by {
        lemma_record_of_name(s0, s, ci, m0);
    }
}

proof fn lemma_attach_shape(
    flat: Seq<DiskInfo>,
    s0: Seq<DiskInfo>,
    pv: Seq<(Seq<char>, Seq<char>)>,
    kk: int,
    s: Seq<DiskInfo>,
    ci: int,
    pi: int,
    par2: DiskInfo,
)
    requires
        attach_pre(flat, s0, pv, kk, s, ci, pi, par2),
    ensures
        distinct_roots(s.remove(ci).update(pi, par2)),
        forest_names(s.remove(ci).update(pi, par2)) == forest_names(s0),
        roots_from(s.remove(ci).update(pi, par2), s0),
{
    let child = s[ci];
    let s1 = s.remove(ci);
    let par = s1[pi];
    let s2 = s1.update(pi, par2);
    lemma_remove_shift(s, ci);
    assert forall|i: int, j: int| 0 <= i < j < s2.len() implies (#[trigger] s2[i]).sysname@ != (#[trigger] s2[j]).sysname@ by {
        let si = if i < ci { i } else { i + 1 };
        let sj = if j < ci { j } else { j + 1 };
        assert(s2[i].sysname@ == s[si].sysname@);
        assert(s2[j].sysname@ == s[sj].sysname@);
    }
    lemma_forest_names_remove(s, ci);
    lemma_forest_names_update(s1, pi, par2);
    lemma_forest_names_push(par.children@, child);
    assert(tree_names(par2) =~= tree_names(par).add(tree_names(child)));
    assert(forest_names(s) == tree_names(child).add(forest_names(s1)));
    assert(forest_names(s2).add(tree_names(par)) == tree_names(par2).add(forest_names(s1)));
    assert(forest_names(s2).add(tree_names(par)) =~= forest_names(s).add(tree_names(par)));
    assert forall|n: Seq<char>| #[trigger] forest_names(s2).count(n) == forest_names(s).count(n) by {
        assert(forest_names(s2).add(tree_names(par)).count(n) == forest_names(s).add(tree_names(par)).count(n));
    }
    assert(forest_names(s2) =~= forest_names(s));
    assert(forest_names(s2) =~= forest_names(s0));
    assert forall|m: int| 0 <= m < s2.len() implies record_in(s0, #[trigger] s2[m]) by {
        let sm = if m < ci { m } else { m + 1 };
        assert(record_in(s0, s[sm]));
        let m0 = choose|m0: int| 0 <= m0 < s0.len() && same_record(#[trigger] s0[m0], s[sm]);
        assert(same_record(s0[m0], s2[m]));
    }
}

proof fn lemma_attach_childless(
    flat: Seq<DiskInfo>,
    s0: Seq<DiskInfo>,
    pv: Seq<(Seq<char>, Seq<char>)>,
    kk: int,
    s: Seq<DiskInfo>,
    ci: int,
    pi: int,
    par2: DiskInfo,
)
    requires
        attach_pre(flat, s0, pv, kk, s, ci, pi, par2),
        childless(flat),
    ensures
        forest_all(s.remove(ci).update(pi, par2), last_record_of(flat)),
        forest_under(s.remove(ci).update(pi, par2), None),
{
    let child = s[ci];
    let s1 = s.remove(ci);
    let par = s1[pi];
    let s2 = s1.update(pi, par2);
    lemma_attach_facts(flat, s0, pv, kk, s, ci, pi, par2);
    lemma_remove_shift(s, ci);
    let pj = if pi < ci { pi } else { pi + 1 };
    assert(s[pj] == par);
    let q = last_record_of(flat);
    assert(tree_all(par, q));
    assert(tree_all(child, q));
    lemma_last_record_same(flat, par, par2);
    assert(forest_all(par2.children@, q)) by {
        assert forall|j: int| 0 <= j < par2.children@.len() implies tree_all(#[trigger] par2.children@[j], q) by {
            if j < par.children@.len() {
                assert(par2.children@[j] == par.children@[j]);
            }
        }
    }
    assert(tree_all(par2, q));
    assert forall|m: int| 0 <= m < s2.len() implies tree_all(#[trigger] s2[m], q) by {
        if m != pi {
            assert(s2[m] == s1[m]);
        }
    }
    assert(tree_under(par, None));
    assert(tree_under(child, None));
    assert(forest_under(par2.children@, Some(par2.sysname@))) by {
        assert forall|j: int| 0 <= j < par2.children@.len() implies tree_under(#[trigger] par2.children@[j], Some(par2.sysname@)) by {
            if j < par.children@.len() {
                assert(par2.children@[j] == par.children@[j]);
            }
        }
    }
    assert forall|m: int| 0 <= m < s2.len() implies tree_under(#[trigger] s2[m], None) by {
        if m != pi {
            assert(s2[m] == s1[m]);
        }
    }
}

proof fn lemma_attach_progress(
    flat: Seq<DiskInfo>,
    s0: Seq<DiskInfo>,
    pv: Seq<(Seq<char>, Seq<char>)>,
    kk: int,
    s: Seq<DiskInfo>,
    ci: int,
    pi: int,
    par2: DiskInfo,
)
    requires
        attach_pre(flat, s0, pv, kk, s, ci, pi, par2),
    ensures
        forall|k: int| kk + 1 <= k < pv.len() ==> pending_pair(s.remove(ci).update(pi, par2), (#[trigger] pv[k]).0, pv[k].1),
        forall|m0: int| 0 <= m0 < s0.len() && parent_missing(s0, #[trigger] s0[m0]) ==> has_root(s.remove(ci).update(pi, par2), s0[m0].sysname@),
{
    let s1 = s.remove(ci);
    let s2 = s1.update(pi, par2);
    lemma_attach_facts(flat, s0, pv, kk, s, ci, pi, par2);
    lemma_remove_shift(s, ci);
    assert forall|k: int| kk + 1 <= k < pv.len() implies pending_pair(s2, (#[trigger] pv[k]).0, pv[k].1) by {
        assert(pv[kk].0 != pv[k].0);
        let m = choose|m: int| 0 <= m < s.len() && (#[trigger] s[m]).sysname@ == pv[k].0 && (s[m].parent_sysname matches Some(q) && q@ == pv[k].1);
        let m1 = lemma_remove_index(s, ci, m);
        assert(s2[m1].sysname@ == pv[k].0);
        assert(s2[m1].parent_sysname == s[m].parent_sysname);
    }
    assert forall|m0: int| 0 <= m0 < s0.len() && parent_missing(s0, #[trigger] s0[m0]) implies has_root(s2, s0[m0].sysname@) by {
        let m = choose|m: int| 0 <= m < s.len() && (#[trigger] s[m]).sysname@ == s0[m0].sysname@;
        if m == ci {
            assert(top_device(s0, pv[kk].0));
        }
        let m1 = lemma_remove_index(s, ci, m);
        assert(s2[m1].sysname@ == s0[m0].sysname@);
    }
}

proof fn lemma_attach_children(
    flat: Seq<DiskInfo>,
    s0: Seq<DiskInfo>,
    pv: Seq<(Seq<char>, Seq<char>)>,
    kk: int,
    s: Seq<DiskInfo>,
    ci: int,
    pi: int,
    par2: DiskInfo,
)
    requires
        attach_pre(flat, s0, pv, kk, s, ci, pi, par2),
    ensures
        forall|k: int| 0 <= k < kk + 1 && top_device(s0, (#[trigger] pv[k]).1) ==> root_has_child(s.remove(ci).update(pi, par2), pv[k].1, pv[k].0),
{
    let child = s[ci];
    let s1 = s.remove(ci);
    let par = s1[pi];
    let s2 = s1.update(pi, par2);
    lemma_attach_facts(flat, s0, pv, kk, s, ci, pi, par2);
    lemma_remove_shift(s, ci);
    assert forall|k: int| 0 <= k < kk + 1 && top_device(s0, (#[trigger] pv[k]).1) implies root_has_child(s2, pv[k].1, pv[k].0) by {
        if k == kk {
            let j = par.children@.len() as int;
            assert(par2.children@[j] == child);
            assert(has_child_named(par2, pv[kk].0));
            assert(s2[pi] == par2);
        } else {
            let m = choose|m: int| 0 <= m < s.len() && (#[trigger] s[m]).sysname@ == pv[k].1 && has_child_named(s[m], pv[k].0);
            assert(m != ci);
            let m1 = lemma_remove_index(s, ci, m);
            if m1 == pi {
                let j = choose|j: int| 0 <= j < par.children@.len() && (#[trigger] par.children@[j]).sysname@ == pv[k].0;
                assert(par2.children@[j] == par.children@[j]);
                assert(has_child_named(par2, pv[k].0));
            } else {
                assert(s2[m1] == s1[m1]);
            }
        }
    }
}

/// Handling a pair whose parent `p` is a root moves the child under it.
pub proof fn lemma_attach_step(
    flat: Seq<DiskInfo>,
    s0: Seq<DiskInfo>,
    pv: Seq<(Seq<char>, Seq<char>)>,
    kk: int,
    s: Seq<DiskInfo>,
    ci: int,
    pi: int,
    par2: DiskInfo,
)
    requires
        attach_pre(flat, s0, pv, kk, s, ci, pi, par2),
    ensures
        attach_inv(flat, s0, pv, kk + 1, s.remove(ci).update(pi, par2)),
{
    lemma_attach_shape(flat, s0, pv, kk, s, ci, pi, par2);
    if childless(flat) {
        lemma_attach_childless(flat, s0, pv, kk, s, ci, pi, par2);
    }
    lemma_attach_progress(flat, s0, pv, kk, s, ci, pi, par2);
    lemma_attach_children(flat, s0, pv, kk, s, ci, pi, par2);
    lemma_attach_settled(flat, s0, pv, kk, s, ci, pi, par2);
}

/// A root after the step was a root before it, and is not the child that moved.
proof fn lemma_attach_settled(
    flat: Seq<DiskInfo>,
    s0: Seq<DiskInfo>,
    pv: Seq<(Seq<char>, Seq<char>)>,
    kk: int,
    s: Seq<DiskInfo>,
    ci: int,
    pi: int,
    par2: DiskInfo,
)
    requires
        attach_pre(flat, s0, pv, kk, s, ci, pi, par2),
    ensures
        settled(s.remove(ci).update(pi, par2), pv, kk + 1),
{
    let s1 = s.remove(ci);
    let s2 = s1.update(pi, par2);
    lemma_remove_shift(s, ci);
    assert forall|n: Seq<char>| has_root(s2, n) implies has_root(s, n) && n != pv[kk].0 by {
        let m = choose|m: int| 0 <= m < s2.len() && (#[trigger] s2[m]).sysname@ == n;
        let sm = if m < ci { m } else { m + 1 };
        assert(s2[m].sysname@ == s[sm].sysname@);
        if sm < ci {
            assert(s[sm].sysname@ != s[ci].sysname@);
        } else {
            assert(s[ci].sysname@ != s[sm].sysname@);
        }
    }
    assert forall|k: int|
        0 <= k < kk + 1 && has_root(s2, (#[trigger] pv[k]).0) && pv[k].0 != pv[k].1 implies !has_root(s2, pv[k].1) by {
        assert(has_root(s, pv[k].0));
        if k < kk {
            assert(!has_root(s, pv[k].1));
        }
    }
}

/// Pairs of (child name, parent name), as text.
pub open spec fn pair_view(pairs: Seq<(String, String)>) -> Seq<(Seq<char>, Seq<char>)> {
    pairs.map_values(|x: (String, String)| (x.0@, x.1@))
}

/// `d` is the last device of `flat` with its name.
pub open spec fn kept_from(flat: Seq<DiskInfo>, d: DiskInfo) -> bool {
    exists|k: int| 0 <= k < flat.len() && #[trigger] flat[k] == d && is_last_index(flat, k)
}

/// `nodes` keeps, for each name in `flat`, the last device with that name.
pub open spec fn keeps_last(flat: Seq<DiskInfo>, nodes: Seq<DiskInfo>) -> bool {
    &&& distinct_roots(nodes)
    &&& forall|m: int| 0 <= m < nodes.len() ==> kept_from(flat, #[trigger] nodes[m])
    &&& forall|k: int| 0 <= k < flat.len() ==> has_root(nodes, #[trigger] flat[k].sysname@)
}

/// `pv` lists (name, parent name) for exactly the devices of `nodes` that name a parent,
/// in the order of `nodes`; `src` says which device each pair comes from.
pub open spec fn pairs_of(nodes: Seq<DiskInfo>, pv: Seq<(Seq<char>, Seq<char>)>, src: Seq<int>) -> bool {
    &&& pv.len() == src.len()
    &&& forall|k: int|
        0 <= k < pv.len() ==> {
            &&& 0 <= #[trigger] src[k] < nodes.len()
            &&& pv[k].0 == nodes[src[k]].sysname@
            &&& (nodes[src[k]].parent_sysname matches Some(q) && q@ == pv[k].1)
        }
    &&& forall|k1: int, k2: int| 0 <= k1 < k2 < src.len() ==> #[trigger] src[k1] < #[trigger] src[k2]
    &&& forall|m: int|
        0 <= m < nodes.len() && (#[trigger] nodes[m]).parent_sysname is Some ==> exists|k: int|
            0 <= k < src.len() && src[k] == m
}

/// The device kept for a last index of `flat` is that very device.
pub proof fn lemma_kept_device(flat: Seq<DiskInfo>, nodes: Seq<DiskInfo>, k: int) -> (m: int)
    requires
        keeps_last(flat, nodes),
        0 <= k < flat.len(),
        is_last_index(flat, k),
    ensures
        0 <= m < nodes.len(),
        nodes[m] == flat[k],
{
    assert(has_root(nodes, flat[k].sysname@));
    let m = choose|m: int| 0 <= m < nodes.len() && (#[trigger] nodes[m]).sysname@ == flat[k].sysname@;
    assert(kept_from(flat, nodes[m]));
    let k1 = choose|k1: int| 0 <= k1 < flat.len() && #[trigger] flat[k1] == nodes[m] && is_last_index(flat, k1);
    if k1 < k {
        assert(flat[k].sysname@ != flat[k1].sysname@);
    } else if k1 > k {
        assert(flat[k1].sysname@ != flat[k].sysname@);
    }
    m
}

/// The kept devices carry the same names as `flat`.
pub proof fn lemma_kept_names(flat: Seq<DiskInfo>, nodes: Seq<DiskInfo>, n: Seq<char>)
    requires
        keeps_last(flat, nodes),
    ensures
        has_root(nodes, n) == has_root(flat, n),
{
    if has_root(nodes, n) {
        let m = choose|m: int| 0 <= m < nodes.len() && (#[trigger] nodes[m]).sysname@ == n;
        assert(kept_from(flat, nodes[m]));
        let k = choose|k: int| 0 <= k < flat.len() && #[trigger] flat[k] == nodes[m] && is_last_index(flat, k);
        assert(flat[k].sysname@ == n);
    }
    if has_root(flat, n) {
        let k = choose|k: int| 0 <= k < flat.len() && (#[trigger] flat[k]).sysname@ == n;
        assert(has_root(nodes, flat[k].sysname@));
    }
}

/// Before any pair is handled, the invariant holds of the kept devices.
pub proof fn lemma_attach_init(
    flat: Seq<DiskInfo>,
    nodes: Seq<DiskInfo>,
    pv: Seq<(Seq<char>, Seq<char>)>,
    src: Seq<int>,
)
    requires
        keeps_last(flat, nodes),
        pairs_of(nodes, pv, src),
    ensures
        pairs_ok(nodes, pv),
        attach_inv(flat, nodes, pv, 0, nodes),
{
    assert forall|k1: int, k2: int| 0 <= k1 < k2 < pv.len() implies (#[trigger] pv[k1]).0 != (#[trigger] pv[k2]).0 by {
        assert(src[k1] < src[k2]);
        assert(nodes[src[k1]].sysname@ != nodes[src[k2]].sysname@);
    }
    assert forall|m: int| 0 <= m < nodes.len() implies record_in(nodes, #[trigger] nodes[m]) by {
        assert(same_record(nodes[m], nodes[m]));
    }
    if childless(flat) {
        let q = last_record_of(flat);
        assert forall|m: int| 0 <= m < nodes.len() implies tree_all(#[trigger] nodes[m], q) && tree_under(nodes[m], None) by {
            assert(kept_from(flat, nodes[m]));
            let k = choose|k: int| 0 <= k < flat.len() && #[trigger] flat[k] == nodes[m] && is_last_index(flat, k);
            assert(same_record(flat[k], nodes[m]));
            assert(is_last_record(flat, nodes[m]));
            assert(nodes[m].children@.len() == 0);
            assert(forest_all(nodes[m].children@, q));
            assert(forest_under(nodes[m].children@, Some(nodes[m].sysname@)));
            assert(q(nodes[m]));
        }
        assert(forest_all(nodes, q));
        assert(forest_under(nodes, None));
    }
    assert(distinct_roots(nodes));
    assert(roots_from(nodes, nodes));
    assert forall|k: int| 0 <= k < pv.len() implies pending_pair(nodes, (#[trigger] pv[k]).0, pv[k].1) by {
        assert(nodes[src[k]].sysname@ == pv[k].0);
    }
    assert forall|m0: int| 0 <= m0 < nodes.len() && parent_missing(nodes, #[trigger] nodes[m0]) implies has_root(nodes, nodes[m0].sysname@) by {
        assert(nodes[m0].sysname@ == nodes[m0].sysname@);
    }
    assert(forall|k: int| 0 <= k < pv.len() ==> pending_pair(nodes, (#[trigger] pv[k]).0, pv[k].1));
}

/// What the finished forest holds, stated over the input list.
pub open spec fn built_from(flat: Seq<DiskInfo>, roots: Seq<DiskInfo>) -> bool {
    &&& forest_sorted(roots)
    &&& (exists|kept: Seq<DiskInfo>| keeps_last(flat, kept) && #[trigger] forest_names(kept) == forest_names(roots))
    &&& (childless(flat) ==> forall|n: Seq<char>|
        #[trigger] forest_names(roots).count(n) == if has_root(flat, n) { 1nat } else { 0nat })
    &&& (childless(flat) ==> forest_all(roots, last_record_of(flat)))
    &&& (childless(flat) ==> forest_under(roots, None))
    &&& (forall|k: int|
        0 <= k < flat.len() && #[trigger] is_last_index(flat, k) && parent_missing(flat, flat[k])
            ==> has_root(roots, flat[k].sysname@))
    &&& (forall|k: int, kp: int|
        0 <= k < flat.len() && 0 <= kp < flat.len() && #[trigger] is_last_index(flat, k)
            && #[trigger] is_last_index(flat, kp) && (flat[k].parent_sysname matches Some(q) && q@
            == flat[kp].sysname@) && parent_missing(flat, flat[kp]) ==> root_has_child(
            roots,
            flat[kp].sysname@,
            flat[k].sysname@,
        ))
    &&& (forall|k: int| 0 <= k < flat.len() ==> forest_names(roots).count(#[trigger] flat[k].sysname@) > 0)
    &&& (forall|i: int|
        0 <= i < roots.len() && (#[trigger] roots[i]).parent_sysname is Some
            && roots[i].parent_sysname->0@ != roots[i].sysname@ ==> !has_root(roots, roots[i].parent_sysname->0@))
}

/// The state at the end: all pairs handled, roots sorted, then every level below sorted.
pub open spec fn finish_pre(
    flat: Seq<DiskInfo>,
    s0: Seq<DiskInfo>,
    pv: Seq<(Seq<char>, Seq<char>)>,
    src: Seq<int>,
    e: Seq<DiskInfo>,
    sorted: Seq<DiskInfo>,
    roots: Seq<DiskInfo>,
) -> bool {
    &&& keeps_last(flat, s0)
    &&& pairs_of(s0, pv, src)
    &&& pairs_ok(s0, pv)
    &&& attach_inv(flat, s0, pv, pv.len() as int, e)
    &&& sorted.to_multiset() == e.to_multiset()
    &&& sorted_by_name(sorted)
    &&& roots.len() == sorted.len()
    &&& forall|i: int| 0 <= i < sorted.len() ==> sorted_version(sorted[i], #[trigger] roots[i])
}

proof fn lemma_finish_shape(
    flat: Seq<DiskInfo>,
    s0: Seq<DiskInfo>,
    pv: Seq<(Seq<char>, Seq<char>)>,
    src: Seq<int>,
    e: Seq<DiskInfo>,
    sorted: Seq<DiskInfo>,
    roots: Seq<DiskInfo>,
)
    requires
        finish_pre(flat, s0, pv, src, e, sorted, roots),
    ensures
        forest_sorted(roots),
        exists|kept: Seq<DiskInfo>| keeps_last(flat, kept) && #[trigger] forest_names(kept) == forest_names(roots),
        childless(flat) ==> forall|n: Seq<char>|
            #[trigger] forest_names(roots).count(n) == if has_root(flat, n) { 1nat } else { 0nat },
{
    assert forall|i: int, j: int| 0 <= i < j < roots.len() implies crate::installer::names::name_le(
        #[trigger] roots[i].sysname@,
        #[trigger] roots[j].sysname@,
    ) by {
        assert(sorted_version(sorted[i], roots[i]));
        assert(sorted_version(sorted[j], roots[j]));
    }
    assert forall|i: int| 0 <= i < roots.len() implies tree_all(#[trigger] roots[i], children_sorted()) by {
        assert(sorted_version(sorted[i], roots[i]));
    }
    assert forall|i: int| 0 <= i < roots.len() implies tree_names(#[trigger] roots[i]) == tree_names(sorted[i]) by {
        assert(sorted_version(sorted[i], roots[i]));
    }
    lemma_forest_names_pointwise(roots, sorted);
    lemma_forest_names_permutation(sorted, e);
    assert(keeps_last(flat, s0) && forest_names(s0) == forest_names(roots));
    if childless(flat) {
        assert forall|m: int| 0 <= m < s0.len() implies (#[trigger] s0[m]).children@.len() == 0 by {
            assert(kept_from(flat, s0[m]));
        }
        assert forall|n: Seq<char>| #[trigger] forest_names(roots).count(n) == if has_root(flat, n) { 1nat } else { 0nat } by {
            lemma_forest_names_flat(s0, n);
            lemma_kept_names(flat, s0, n);
        }
    }
}

proof fn lemma_finish_records(
    flat: Seq<DiskInfo>,
    s0: Seq<DiskInfo>,
    pv: Seq<(Seq<char>, Seq<char>)>,
    src: Seq<int>,
    e: Seq<DiskInfo>,
    sorted: Seq<DiskInfo>,
    roots: Seq<DiskInfo>,
)
    requires
        finish_pre(flat, s0, pv, src, e, sorted, roots),
        childless(flat),
    ensures
        forest_all(roots, last_record_of(flat)),
        forest_under(roots, None),
{
    let q = last_record_of(flat);
    lemma_forest_all_permutation(e, sorted, q);
    lemma_forest_under_permutation(e, sorted, None);
    assert forall|i: int| 0 <= i < roots.len() implies tree_all(#[trigger] roots[i], q) && tree_under(roots[i], None) by {
        assert(sorted_version(sorted[i], roots[i]));
        assert(tree_all(sorted[i], q));
        assert(tree_under(sorted[i], None));
    }
}

proof fn lemma_finish_roots(
    flat: Seq<DiskInfo>,
    s0: Seq<DiskInfo>,
    pv: Seq<(Seq<char>, Seq<char>)>,
    src: Seq<int>,
    e: Seq<DiskInfo>,
    sorted: Seq<DiskInfo>,
    roots: Seq<DiskInfo>,
)
    requires
        finish_pre(flat, s0, pv, src, e, sorted, roots),
    ensures
        forall|k: int|
            0 <= k < flat.len() && #[trigger] is_last_index(flat, k) && parent_missing(flat, flat[k])
                ==> has_root(roots, flat[k].sysname@),
{
    assert forall|k: int| 0 <= k < flat.len() && #[trigger] is_last_index(flat, k) && parent_missing(flat, flat[k]) implies has_root(roots, flat[k].sysname@) by {
        let m0 = lemma_kept_device(flat, s0, k);
        match flat[k].parent_sysname {
            Some(p) => { lemma_kept_names(flat, s0, p@); },
            None => {},
        }
        assert(parent_missing(s0, s0[m0]));
        assert(has_root(e, s0[m0].sysname@));
        let m = choose|m: int| 0 <= m < e.len() && (#[trigger] e[m]).sysname@ == s0[m0].sysname@;
        let j = lemma_permutation_member(sorted, e, m);
        assert(sorted_version(sorted[j], roots[j]));
        assert(roots[j].sysname@ == flat[k].sysname@);
    }
}

proof fn lemma_finish_children(
    flat: Seq<DiskInfo>,
    s0: Seq<DiskInfo>,
    pv: Seq<(Seq<char>, Seq<char>)>,
    src: Seq<int>,
    e: Seq<DiskInfo>,
    sorted: Seq<DiskInfo>,
    roots: Seq<DiskInfo>,
)
    requires
        finish_pre(flat, s0, pv, src, e, sorted, roots),
    ensures
        forall|k: int, kp: int|
            0 <= k < flat.len() && 0 <= kp < flat.len() && #[trigger] is_last_index(flat, k)
                && #[trigger] is_last_index(flat, kp) && (flat[k].parent_sysname matches Some(q) && q@
                == flat[kp].sysname@) && parent_missing(flat, flat[kp]) ==> root_has_child(
                roots,
                flat[kp].sysname@,
                flat[k].sysname@,
            ),
{
    assert forall|k: int, kp: int|
        0 <= k < flat.len() && 0 <= kp < flat.len() && #[trigger] is_last_index(flat, k)
            && #[trigger] is_last_index(flat, kp) && (flat[k].parent_sysname matches Some(q) && q@
            == flat[kp].sysname@) && parent_missing(flat, flat[kp]) implies root_has_child(
            roots,
            flat[kp].sysname@,
            flat[k].sysname@,
        ) by {
        let mc = lemma_kept_device(flat, s0, k);
        let mp = lemma_kept_device(flat, s0, kp);
        assert(s0[mc].parent_sysname is Some);
        let t = choose|t: int| 0 <= t < src.len() && src[t] == mc;
        assert(0 <= src[t] < s0.len());
        match flat[kp].parent_sysname {
            Some(pp) => { lemma_kept_names(flat, s0, pp@); },
            None => {},
        }
        assert(parent_missing(s0, s0[mp]));
        assert(top_device(s0, pv[t].1));
        assert(root_has_child(e, pv[t].1, pv[t].0));
        let m = choose|m: int| 0 <= m < e.len() && (#[trigger] e[m]).sysname@ == pv[t].1 && has_child_named(e[m], pv[t].0);
        let j = lemma_permutation_member(sorted, e, m);
        assert(sorted_version(sorted[j], roots[j]));
        let jj = choose|jj: int| 0 <= jj < sorted[j].children@.len() && (#[trigger] sorted[j].children@[jj]).sysname@ == pv[t].0;
        assert(has_child_named(roots[j], sorted[j].children@[jj].sysname@));
    }
}

/// The finished forest is sorted, holds each name once, keeps each device's record,
/// and has its children placed as the pairs asked.
pub proof fn lemma_finish(
    flat: Seq<DiskInfo>,
    s0: Seq<DiskInfo>,
    pv: Seq<(Seq<char>, Seq<char>)>,
    src: Seq<int>,
    e: Seq<DiskInfo>,
    sorted: Seq<DiskInfo>,
    roots: Seq<DiskInfo>,
)
    requires
        finish_pre(flat, s0, pv, src, e, sorted, roots),
    ensures
        built_from(flat, roots),
{
    lemma_finish_shape(flat, s0, pv, src, e, sorted, roots);
    if childless(flat) {
        lemma_finish_records(flat, s0, pv, src, e, sorted, roots);
    }
    lemma_finish_roots(flat, s0, pv, src, e, sorted, roots);
    lemma_finish_children(flat, s0, pv, src, e, sorted, roots);
    lemma_finish_present(flat, s0, pv, src, e, sorted, roots);
    lemma_finish_settled(flat, s0, pv, src, e, sorted, roots);
}

/// Every name of the input occurs somewhere in the forest.
proof fn lemma_finish_present(
    flat: Seq<DiskInfo>,
    s0: Seq<DiskInfo>,
    pv: Seq<(Seq<char>, Seq<char>)>,
    src: Seq<int>,
    e: Seq<DiskInfo>,
    sorted: Seq<DiskInfo>,
    roots: Seq<DiskInfo>,
)
    requires
        finish_pre(flat, s0, pv, src, e, sorted, roots),
    ensures
        forall|k: int| 0 <= k < flat.len() ==> forest_names(roots).count(#[trigger] flat[k].sysname@) > 0,
{
    assert forall|i: int| 0 <= i < roots.len() implies tree_names(#[trigger] roots[i]) == tree_names(sorted[i]) by {
        assert(sorted_version(sorted[i], roots[i]));
    }
    lemma_forest_names_pointwise(roots, sorted);
    lemma_forest_names_permutation(sorted, e);
    assert forall|k: int| 0 <= k < flat.len() implies forest_names(roots).count(#[trigger] flat[k].sysname@) > 0 by {
        assert(has_root(s0, flat[k].sysname@));
        let m = choose|m: int| 0 <= m < s0.len() && (#[trigger] s0[m]).sysname@ == flat[k].sysname@;
        lemma_forest_names_has_root(s0, m);
    }
}

/// A root that names another device as its parent has that parent below some root,
/// not among the roots.
proof fn lemma_finish_settled(
    flat: Seq<DiskInfo>,
    s0: Seq<DiskInfo>,
    pv: Seq<(Seq<char>, Seq<char>)>,
    src: Seq<int>,
    e: Seq<DiskInfo>,
    sorted: Seq<DiskInfo>,
    roots: Seq<DiskInfo>,
)
    requires
        finish_pre(flat, s0, pv, src, e, sorted, roots),
    ensures
        forall|i: int|
            0 <= i < roots.len() && (#[trigger] roots[i]).parent_sysname is Some
                && roots[i].parent_sysname->0@ != roots[i].sysname@ ==> !has_root(roots, roots[i].parent_sysname->0@),
{
    assert forall|i: int|
        0 <= i < roots.len() && (#[trigger] roots[i]).parent_sysname is Some
            && roots[i].parent_sysname->0@ != roots[i].sysname@
            implies !has_root(roots, roots[i].parent_sysname->0@) by {
        let q = roots[i].parent_sysname->0@;
        assert(sorted_version(sorted[i], roots[i]));
        let j = lemma_permutation_member(e, sorted, i);
        assert(record_in(s0, e[j]));
        let m0 = choose|m0: int| 0 <= m0 < s0.len() && same_record(#[trigger] s0[m0], e[j]);
        assert(s0[m0].parent_sysname is Some);
        let t = choose|t: int| 0 <= t < src.len() && src[t] == m0;
        assert(0 <= src[t] < s0.len());
        assert(pv[t].0 == e[j].sysname@);
        assert(pv[t].1 == q);
        assert(has_root(e, pv[t].0));
        assert(!has_root(e, q));
        if has_root(roots, q) {
            let r = choose|r: int| 0 <= r < roots.len() && (#[trigger] roots[r]).sysname@ == q;
            assert(sorted_version(sorted[r], roots[r]));
            let j2 = lemma_permutation_member(e, sorted, r);
            assert(e[j2].sysname@ == q);
        }
    }
}

} // verus!
