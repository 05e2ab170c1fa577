//! The device forest: what it means for a list of `DiskInfo` trees to be sorted, to
//! hold a given set of names, and to have every child under the device it names as
//! its parent.
use vstd::prelude::*;
use vstd::multiset::Multiset;
use crate::installer::names::{lemma_name_le_antisymmetric, name_le, name_lt};
use vstd::set_lib::{lemma_int_range, lemma_subset_equality, set_int_range};
use crate::installer::probe::DiskInfo;

verus! {

broadcast use vstd::seq_lib::group_to_multiset_ensures;

/// `a` and `b` describe the same device: every field but `children` agrees.
pub open spec fn same_record(a: DiskInfo, b: DiskInfo) -> bool {
    &&& a.sysname == b.sysname
    &&& a.devnode == b.devnode
    &&& a.syspath == b.syspath
    &&& a.devtype == b.devtype
    &&& a.parent_sysname == b.parent_sysname
    &&& a.major == b.major
    &&& a.minor == b.minor
    &&& a.bus == b.bus
    &&& a.transport == b.transport
    &&& a.id_path == b.id_path
    &&& a.model == b.model
    &&& a.serial == b.serial
    &&& a.fs_type == b.fs_type
    &&& a.fs_uuid == b.fs_uuid
    &&& a.part_uuid == b.part_uuid
    &&& a.part_label == b.part_label
    &&& a.label == b.label
    &&& a.is_whole_disk == b.is_whole_disk
    &&& a.is_partition == b.is_partition
}

/// `a` and `b` are the same tree: the same device, with the same children in the same
/// order, all the way down.
pub open spec fn same_tree(a: DiskInfo, b: DiskInfo) -> bool
    decreases a,
{
    &&& same_record(a, b)
    &&& a.children@.len() == b.children@.len()
    &&& forall|i: int| 0 <= i < a.children@.len() ==> same_tree(#[trigger] a.children@[i], b.children@[i])
}

/// The names of a device and of everything below it, each as often as it occurs.
pub open spec fn tree_names(d: DiskInfo) -> Multiset<Seq<char>>
    decreases d,
{
    Multiset::singleton(d.sysname@).add(forest_names(d.children@))
}

/// The names of every device in a forest, each as often as it occurs.
pub open spec fn forest_names(s: Seq<DiskInfo>) -> Multiset<Seq<char>>
    decreases s,
{
    if s.len() == 0 {
        Multiset::empty()
    } else {
        tree_names(s[s.len() - 1]).add(forest_names(s.subrange(0, s.len() - 1)))
    }
}

/// `q` holds of a device and of every device below it.
pub open spec fn tree_all(d: DiskInfo, q: spec_fn(DiskInfo) -> bool) -> bool
    decreases d,
{
    q(d) && forest_all(d.children@, q)
}

/// `q` holds of every device in a forest.
pub open spec fn forest_all(s: Seq<DiskInfo>, q: spec_fn(DiskInfo) -> bool) -> bool
    decreases s,
{
    forall|i: int| 0 <= i < s.len() ==> tree_all(#[trigger] s[i], q)
}

/// A list of devices ordered by name, as `String::cmp` orders them.
pub open spec fn sorted_by_name(s: Seq<DiskInfo>) -> bool {
    forall|i: int, j: int| 0 <= i < j < s.len() ==> name_le(#[trigger] s[i].sysname@, #[trigger] s[j].sysname@)
}

pub open spec fn children_sorted() -> spec_fn(DiskInfo) -> bool {
    |d: DiskInfo| sorted_by_name(d.children@)
}

/// Every list of siblings in the forest, the roots included, is ordered by name.
pub open spec fn forest_sorted(s: Seq<DiskInfo>) -> bool {
    sorted_by_name(s) && forest_all(s, children_sorted())
}

/// Every device in `s` names `parent` as its parent (when `parent` is given), and so on
/// down: each child names the device it sits under.
pub open spec fn forest_under(s: Seq<DiskInfo>, parent: Option<Seq<char>>) -> bool
    decreases s,
{
    forall|i: int| 0 <= i < s.len() ==> tree_under(#[trigger] s[i], parent)
}

pub open spec fn tree_under(d: DiskInfo, parent: Option<Seq<char>>) -> bool
    decreases d,
{
    &&& (parent matches Some(p) ==> (d.parent_sysname matches Some(q) && q@ == p))
    &&& forest_under(d.children@, Some(d.sysname@))
}

/// `n` describes the last device in `flat` with its name (its children aside).
pub open spec fn is_last_record(flat: Seq<DiskInfo>, n: DiskInfo) -> bool {
    exists|k: int|
        0 <= k < flat.len() && same_record(#[trigger] flat[k], n) && (forall|k2: int|
            k < k2 < flat.len() ==> (#[trigger] flat[k2]).sysname@ != n.sysname@)
}

pub open spec fn last_record_of(flat: Seq<DiskInfo>) -> spec_fn(DiskInfo) -> bool {
    |n: DiskInfo| is_last_record(flat, n)
}

/// `new` lists the elements `old[p[k]]`-wise: `p` maps each position of `new` to a
/// distinct position of `old`, and keeps the order of equally named entries.
pub open spec fn stable_perm(old: Seq<DiskInfo>, new: Seq<DiskInfo>, p: Seq<int>) -> bool {
    &&& p.len() == new.len()
    &&& old.len() == new.len()
    &&& forall|k: int| 0 <= k < p.len() ==> 0 <= #[trigger] p[k] < old.len()
    &&& forall|k1: int, k2: int| 0 <= k1 < k2 < p.len() ==> #[trigger] p[k1] != #[trigger] p[k2]
    &&& forall|k1: int, k2: int|
        0 <= k1 < k2 < p.len() && (#[trigger] new[k1]).sysname@ == (#[trigger] new[k2]).sysname@ ==> p[k1] < p[k2]
}

/// `new` is `old` with the children of every device stably sorted by name, all the way
/// down.
pub open spec fn sorted_tree(old: DiskInfo, new: DiskInfo) -> bool
    decreases old,
{
    &&& same_record(old, new)
    &&& sorted_by_name(new.children@)
    &&& exists|p: Seq<int>|
        #[trigger] stable_perm(old.children@, new.children@, p) && forall|k: int|
            0 <= k < p.len() ==> sorted_tree(old.children@[p[k]], #[trigger] new.children@[k])
}

/// `new` is `old` with every list of children reordered by name, all the way down:
/// the same device, the same names below it, each child still under it, and every
/// device below it one that was below `old`.
pub open spec fn sorted_version(old: DiskInfo, new: DiskInfo) -> bool {
    &&& same_record(old, new)
    &&& sorted_tree(old, new)
    &&& tree_names(new) == tree_names(old)
    &&& tree_all(new, children_sorted())
    &&& (forest_under(old.children@, Some(old.sysname@)) ==> forest_under(new.children@, Some(old.sysname@)))
    &&& (forall|flat: Seq<DiskInfo>| tree_all(old, last_record_of(flat)) ==> #[trigger] tree_all(new, last_record_of(flat)))
    &&& (forall|j: int| 0 <= j < old.children@.len() ==> has_child_named(new, (#[trigger] old.children@[j]).sysname@))
}

pub proof fn lemma_last_record_same(flat: Seq<DiskInfo>, a: DiskInfo, b: DiskInfo)
    requires
        same_record(a, b),
        is_last_record(flat, a),
    ensures
        is_last_record(flat, b),
{
    let k = choose|k: int|
        0 <= k < flat.len() && same_record(#[trigger] flat[k], a) && (forall|k2: int|
            k < k2 < flat.len() ==> (#[trigger] flat[k2]).sysname@ != a.sysname@);
    assert(same_record(flat[k], b));
}

/// Some root of `s` is called `n`.
pub open spec fn has_root(s: Seq<DiskInfo>, n: Seq<char>) -> bool {
    exists|m: int| 0 <= m < s.len() && (#[trigger] s[m]).sysname@ == n
}

/// One of `d`'s children is called `c`.
pub open spec fn has_child_named(d: DiskInfo, c: Seq<char>) -> bool {
    exists|j: int| 0 <= j < d.children@.len() && (#[trigger] d.children@[j]).sysname@ == c
}

/// A root called `p` has a child called `c`.
pub open spec fn root_has_child(s: Seq<DiskInfo>, p: Seq<char>, c: Seq<char>) -> bool {
    exists|m: int| 0 <= m < s.len() && (#[trigger] s[m]).sysname@ == p && has_child_named(s[m], c)
}

/// No two roots share a name.
pub open spec fn distinct_roots(s: Seq<DiskInfo>) -> bool {
    forall|i: int, j: int| 0 <= i < j < s.len() ==> (#[trigger] s[i]).sysname@ != (#[trigger] s[j]).sysname@
}

pub proof fn lemma_forest_names_push(s: Seq<DiskInfo>, x: DiskInfo)
    ensures
        forest_names(s.push(x)) == tree_names(x).add(forest_names(s)),
{
    assert(s.push(x).subrange(0, s.len() as int) =~= s);
}

pub proof fn lemma_forest_names_remove(s: Seq<DiskInfo>, k: int)
    requires
        0 <= k < s.len(),
    ensures
        forest_names(s) == tree_names(s[k]).add(forest_names(s.remove(k))),
    decreases s.len(),
{
    let n = s.len() as int;
    if k == n - 1 {
        assert(s.remove(k) =~= s.subrange(0, n - 1));
    } else {
        let t = s.subrange(0, n - 1);
        lemma_forest_names_remove(t, k);
        assert(s.remove(k).subrange(0, n - 2) =~= t.remove(k));
        assert(s.remove(k)[n - 2] == s[n - 1]);
        assert(forest_names(s) =~= tree_names(s[k]).add(forest_names(s.remove(k))));
    }
}

pub proof fn lemma_forest_names_update(s: Seq<DiskInfo>, k: int, x: DiskInfo)
    requires
        0 <= k < s.len(),
    ensures
        forest_names(s.update(k, x)).add(tree_names(s[k])) == tree_names(x).add(forest_names(s)),
{
    lemma_forest_names_remove(s, k);
    lemma_forest_names_remove(s.update(k, x), k);
    assert(s.update(k, x).remove(k) =~= s.remove(k));
    assert(forest_names(s.update(k, x)).add(tree_names(s[k])) =~= tree_names(x).add(forest_names(s)));
}

/// Reordering a forest's roots keeps its names.
pub proof fn lemma_forest_names_permutation(s1: Seq<DiskInfo>, s2: Seq<DiskInfo>)
    requires
        s1.to_multiset() == s2.to_multiset(),
    ensures
        forest_names(s1) == forest_names(s2),
    decreases s1.len(),
{
    if s1.len() == 0 {
        assert(s2.to_multiset().len() == 0);
        assert(s2.len() == 0);
    } else {
        let n = s1.len() as int;
        let x = s1[n - 1];
        assert(s1.contains(x));
        assert(s2.to_multiset().count(x) > 0);
        assert(s2.contains(x));
        let k = choose|k: int| 0 <= k < s2.len() && s2[k] == x;
        let t1 = s1.subrange(0, n - 1);
        assert(s1 =~= t1.push(x));
        assert(t1.to_multiset() =~= s1.to_multiset().remove(x));
        assert(s2.remove(k).to_multiset() =~= s2.to_multiset().remove(x));
        lemma_forest_names_permutation(t1, s2.remove(k));
        lemma_forest_names_remove(s2, k);
    }
}

/// Forests whose roots pairwise hold the same names hold the same names.
pub proof fn lemma_forest_names_pointwise(s1: Seq<DiskInfo>, s2: Seq<DiskInfo>)
    requires
        s1.len() == s2.len(),
        forall|i: int| 0 <= i < s1.len() ==> tree_names(#[trigger] s1[i]) == tree_names(s2[i]),
    ensures
        forest_names(s1) == forest_names(s2),
    decreases s1.len(),
{
    if s1.len() > 0 {
        let n = s1.len() as int;
        lemma_forest_names_pointwise(s1.subrange(0, n - 1), s2.subrange(0, n - 1));
        assert(tree_names(s1[n - 1]) == tree_names(s2[n - 1]));
    }
}

/// Every root's name occurs in the forest.
pub proof fn lemma_forest_names_has_root(s: Seq<DiskInfo>, k: int)
    requires
        0 <= k < s.len(),
    ensures
        forest_names(s).count(s[k].sysname@) > 0,
{
    lemma_forest_names_remove(s, k);
}

/// The names of a forest of childless devices with distinct names: each root once.
pub proof fn lemma_forest_names_flat(s: Seq<DiskInfo>, n: Seq<char>)
    requires
        distinct_roots(s),
        forall|i: int| 0 <= i < s.len() ==> (#[trigger] s[i]).children@.len() == 0,
    ensures
        forest_names(s).count(n) == if has_root(s, n) { 1nat } else { 0nat },
    decreases s.len(),
{
    if s.len() > 0 {
        let m = s.len() as int;
        let t = s.subrange(0, m - 1);
        assert forall|i: int, j: int| 0 <= i < j < t.len() implies (#[trigger] t[i]).sysname@ != (#[trigger] t[j]).sysname@ by {
            assert(t[i] == s[i] && t[j] == s[j]);
        }
        lemma_forest_names_flat(t, n);
        let x = s[m - 1];
        assert(x.children@ =~= Seq::<DiskInfo>::empty());
        assert(forest_names(x.children@) =~= Multiset::empty());
        assert(forest_names(s) == tree_names(x).add(forest_names(t)));
        assert(tree_names(x).count(n) == if x.sysname@ == n { 1nat } else { 0nat });
        if has_root(s, n) {
            let w = choose|w: int| 0 <= w < s.len() && (#[trigger] s[w]).sysname@ == n;
            if w == m - 1 {
                if has_root(t, n) {
                    let v = choose|v: int| 0 <= v < t.len() && (#[trigger] t[v]).sysname@ == n;
                    assert(s[v] == t[v]);
                    assert(s[v].sysname@ == n);
                    assert(false);
                }
            } else {
                assert(t[w] == s[w]);
                assert(has_root(t, n));
                assert(x.sysname@ != n);
            }
        } else {
            if has_root(t, n) {
                let v = choose|v: int| 0 <= v < t.len() && (#[trigger] t[v]).sysname@ == n;
                assert(s[v] == t[v]);
                assert(false);
            }
            assert(x.sysname@ != n);
        }
    }
}

/// A reordering of a list keeps every element it had.
pub proof fn lemma_permutation_member(s1: Seq<DiskInfo>, s2: Seq<DiskInfo>, i: int) -> (j: int)
    requires
        s1.to_multiset() == s2.to_multiset(),
        0 <= i < s2.len(),
    ensures
        0 <= j < s1.len(),
        s1[j] == s2[i],
{
    assert(s2.contains(s2[i]));
    assert(s1.to_multiset().count(s2[i]) > 0);
    assert(s1.contains(s2[i]));
    choose|j: int| 0 <= j < s1.len() && s1[j] == s2[i]
}

/// Properties that hold of every tree of a list hold of every tree of its reordering.
pub proof fn lemma_forest_all_permutation(s1: Seq<DiskInfo>, s2: Seq<DiskInfo>, q: spec_fn(DiskInfo) -> bool)
    requires
        s1.to_multiset() == s2.to_multiset(),
        forest_all(s1, q),
    ensures
        forest_all(s2, q),
{
    assert forall|i: int| 0 <= i < s2.len() implies tree_all(#[trigger] s2[i], q) by {
        let j = lemma_permutation_member(s1, s2, i);
    }
}

pub proof fn lemma_forest_under_permutation(s1: Seq<DiskInfo>, s2: Seq<DiskInfo>, p: Option<Seq<char>>)
    requires
        s1.to_multiset() == s2.to_multiset(),
        forest_under(s1, p),
    ensures
        forest_under(s2, p),
{
    assert forall|i: int| 0 <= i < s2.len() implies tree_under(#[trigger] s2[i], p) by {
        let j = lemma_permutation_member(s1, s2, i);
    }
}

/// An injective map of the positions `0..n` into `0..n` reaches every position.
proof fn lemma_index_map_onto(p: Seq<int>, m: int)
    requires
        forall|k: int| 0 <= k < p.len() ==> 0 <= #[trigger] p[k] < p.len(),
        forall|k1: int, k2: int| 0 <= k1 < k2 < p.len() ==> #[trigger] p[k1] != #[trigger] p[k2],
        0 <= m < p.len(),
    ensures
        exists|k: int| 0 <= k < p.len() && p[k] == m,
{
    assert(p.no_duplicates()) by {
        assert forall|i: int, j: int| 0 <= i < p.len() && 0 <= j < p.len() && i != j implies p[i] != p[j] by {
            if i < j {
                assert(p[i] != p[j]);
            } else {
                assert(p[j] != p[i]);
            }
        }
    }
    p.unique_seq_to_set();
    lemma_int_range(0, p.len() as int);
    assert(p.to_set().subset_of(set_int_range(0, p.len() as int)));
    lemma_subset_equality(p.to_set(), set_int_range(0, p.len() as int));
    assert(set_int_range(0, p.len() as int).contains(m));
    assert(p.to_set().contains(m));
}

/// A stable reordering of a list sorted by name into a list sorted by name moves
/// nothing: position `k` comes from position `k`, for every `k` below `n`.
proof fn lemma_stable_sorted_identity(old: Seq<DiskInfo>, new: Seq<DiskInfo>, p: Seq<int>, n: int)
    requires
        stable_perm(old, new, p),
        sorted_by_name(old),
        sorted_by_name(new),
        forall|k: int| 0 <= k < new.len() ==> (#[trigger] new[k]).sysname@ == old[p[k]].sysname@,
        0 <= n <= p.len(),
    ensures
        forall|j: int| 0 <= j < n ==> #[trigger] p[j] == j,
    decreases n,
{
    if n > 0 {
        let k = n - 1;
        lemma_stable_sorted_identity(old, new, p, k);
        if p[k] != k {
            assert forall|j: int| 0 <= j < k implies p[k] != #[trigger] p[j] by {}
            assert(p[k] > k) by {
                if p[k] < k {
                    assert(p[p[k]] == p[k]);
                }
            }
            lemma_index_map_onto(p, k);
            let m = choose|m: int| 0 <= m < p.len() && p[m] == k;
            assert(m > k) by {
                if m < k {
                    assert(p[m] == m);
                }
            }
            assert(name_le(new[k].sysname@, new[m].sysname@));
            assert(name_le(old[k].sysname@, old[p[k]].sysname@));
            lemma_name_le_antisymmetric(new[k].sysname@, new[m].sysname@);
            assert(new[k].sysname@ == new[m].sysname@);
            assert(p[k] < p[m]);
        }
    }
}

/// Sorting the children of a tree whose children are already sorted at every level
/// gives the same tree.
pub proof fn lemma_sorted_tree_unchanged(b: DiskInfo, c: DiskInfo)
    requires
        tree_all(b, children_sorted()),
        sorted_tree(b, c),
    ensures
        same_tree(b, c),
    decreases b,
{
    let bc = b.children@;
    let cc = c.children@;
    let p = choose|p: Seq<int>|
        #[trigger] stable_perm(bc, cc, p) && forall|k: int| 0 <= k < p.len() ==> sorted_tree(bc[p[k]], #[trigger] cc[k]);
    assert forall|k: int| 0 <= k < cc.len() implies (#[trigger] cc[k]).sysname@ == bc[p[k]].sysname@ by {
        assert(sorted_tree(bc[p[k]], cc[k]));
    }
    assert(sorted_by_name(bc));
    lemma_stable_sorted_identity(bc, cc, p, p.len() as int);
    assert forall|k: int| 0 <= k < bc.len() implies same_tree(#[trigger] bc[k], cc[k]) by {
        assert(p[k] == k);
        assert(sorted_tree(bc[k], cc[k]));
        assert(tree_all(bc[k], children_sorted()));
        assert(decreases_to!(b => b.children));
        assert(decreases_to!(b.children => bc));
        assert(decreases_to!(bc => bc[k]));
        lemma_sorted_tree_unchanged(bc[k], cc[k]);
    }
}

/// Sorting the children of a device all the way down, a second time, changes
/// nothing: what the second sort gives is the same tree as what the first gave.
pub proof fn lemma_sort_children_idempotent(a: DiskInfo, b: DiskInfo, c: DiskInfo)
    requires
        sorted_version(a, b),
        sorted_version(b, c),
    ensures
        same_tree(b, c),
{
    lemma_sorted_tree_unchanged(b, c);
}

} // verus!
