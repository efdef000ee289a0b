use vstd::prelude::*;

verus! {

broadcast use vstd::seq_lib::group_to_multiset_ensures;

/// Sequences with the same elements keep the same elements when every
/// element is mapped.
pub proof fn lemma_map_same_multiset<A, B>(s1: Seq<A>, s2: Seq<A>, f: spec_fn(A) -> B)
    requires
        s1.to_multiset() == s2.to_multiset(),
    ensures
        s1.map_values(f).to_multiset() == s2.map_values(f).to_multiset(),
    decreases s1.len(),
{
    if s1.len() == 0 {
        assert(s2.to_multiset().len() == 0);
        assert(s1.map_values(f) =~= Seq::<B>::empty());
        assert(s2.map_values(f) =~= Seq::<B>::empty());
    } else {
        let a = s1[0];
        assert(s1.to_multiset().count(a) > 0);
        assert(s2.contains(a));
        let j = choose|j: int| 0 <= j < s2.len() && s2[j] == a;
        let t1 = s1.remove(0);
        let t2 = s2.remove(j);
        vstd::seq_lib::to_multiset_remove(s1, 0);
        vstd::seq_lib::to_multiset_remove(s2, j);
        lemma_map_same_multiset(t1, t2, f);
        assert(s1.map_values(f) =~= t1.map_values(f).insert(0, f(a)));
        assert(s2.map_values(f) =~= t2.map_values(f).insert(j, f(a)));
        vstd::seq_lib::to_multiset_insert(t1.map_values(f), 0, f(a));
        vstd::seq_lib::to_multiset_insert(t2.map_values(f), j, f(a));
    }
}

/// An element that passes the filter is, mapped, in the filtered and mapped
/// list.
pub proof fn lemma_filter_map_has<A, B>(s: Seq<A>, p: spec_fn(A) -> bool, f: spec_fn(A) -> B, k: int)
    requires
        0 <= k < s.len(),
        p(s[k]),
    ensures
        s.filter(p).map_values(f).contains(f(s[k])),
{
    broadcast use vstd::seq_lib::group_filter_ensures;
    s.lemma_filter_contains(p, k);
    let t = choose|t: int| 0 <= t < s.filter(p).len() && s.filter(p)[t] == s[k];
    assert(s.filter(p).map_values(f)[t] == f(s[k]));
}

/// Every element of the filtered and mapped list comes from an element
/// that passes the filter.
pub proof fn lemma_filter_map_from<A, B>(s: Seq<A>, p: spec_fn(A) -> bool, f: spec_fn(A) -> B, y: B) -> (k: int)
    requires
        s.filter(p).map_values(f).contains(y),
    ensures
        0 <= k < s.len(),
        p(s[k]),
        f(s[k]) == y,
{
    broadcast use vstd::seq_lib::group_filter_ensures;
    let fs = s.filter(p);
    let t = choose|t: int| 0 <= t < fs.map_values(f).len() && fs.map_values(f)[t] == y;
    assert(fs.contains(fs[t]));
    s.lemma_filter_contains_rev(p, fs[t]);
    let k = choose|k: int| 0 <= k < s.len() && s[k] == fs[t];
    k
}

} // verus!
