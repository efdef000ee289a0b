use vstd::prelude::*;
use crate::text::{text_less, text_lt, lemma_text_lt_asymmetric, lemma_text_lt_total, lemma_text_lt_transitive};

verus! {

broadcast use vstd::seq_lib::group_to_multiset_ensures;

/// The keys of `s` never increase: each key is at least every later key.
pub open spec fn keys_desc<T>(s: Seq<(String, T)>) -> bool {
    forall|i: int, j: int| 0 <= i < j < s.len() ==> !text_lt(#[trigger] s[i].0@, #[trigger] s[j].0@)
}

proof fn lemma_insert_keeps_desc<T>(s: Seq<(String, T)>, p: int, x: (String, T))
    requires
        keys_desc(s),
        0 <= p <= s.len(),
        forall|k: int| 0 <= k < p ==> !text_lt(#[trigger] s[k].0@, x.0@),
        p < s.len() ==> text_lt(s[p].0@, x.0@),
    ensures
        keys_desc(s.insert(p, x)),
{
    let t = s.insert(p, x);
    assert forall|i: int, j: int| 0 <= i < j < t.len() implies !text_lt(#[trigger] t[i].0@, #[trigger] t[j].0@) by {
        if i < p && j < p {
            assert(t[i] == s[i] && t[j] == s[j]);
        } else if i < p && j == p {
            assert(t[i] == s[i]);
        } else if i < p {
            assert(t[i] == s[i] && t[j] == s[j - 1]);
        } else if i == p {
            assert(t[j] == s[j - 1]);
            let a = s[p].0@;
            let b = s[j - 1].0@;
            if text_lt(x.0@, b) {
                lemma_text_lt_total(a, b);
                if a == b {
                    lemma_text_lt_asymmetric(a, x.0@);
                } else if text_lt(b, a) {
                    lemma_text_lt_transitive(x.0@, b, a);
                    lemma_text_lt_asymmetric(a, x.0@);
                } else {
                    assert(p < j - 1);
                }
            }
        } else {
            assert(t[i] == s[i - 1] && t[j] == s[j - 1]);
        }
    }
}

/// The items in the order of their keys, greatest first; items with equal
/// keys keep their order.
pub fn sort_desc_by_key<T>(v: Vec<(String, T)>) -> (r: Vec<(String, T)>)
    ensures
        r@.to_multiset() == v@.to_multiset(),
        r@.len() == v@.len(),
        keys_desc(r@),
{
    let ghost orig = v@;
    let mut input = v;
    let mut out: Vec<(String, T)> = Vec::new();
    assert(input@ =~= orig);
    while input.len() > 0
        invariant
            out@.to_multiset().add(input@.to_multiset()) == orig.to_multiset(),
            keys_desc(out@),
        decreases input.len(),
    {
        let ghost before = input@;
        let item = input.remove(0);
        let mut p: usize = 0;
        while p < out.len() && !text_less(out[p].0.as_str(), item.0.as_str())
            invariant
                p <= out.len(),
                forall|k: int| 0 <= k < p ==> !text_lt(#[trigger] out@[k].0@, item.0@),
            decreases out.len() - p,
        {
            p = p + 1;
        }
        proof {
            lemma_insert_keeps_desc(out@, p as int, item);
            assert(before.to_multiset() == input@.to_multiset().insert(item)) by {
                vstd::seq_lib::to_multiset_remove(before, 0);
                assert(before.to_multiset().remove(item).insert(item) =~= before.to_multiset());
            }
        }
        let ghost out_before = out@;
        out.insert(p, item);
        proof {
            vstd::seq_lib::to_multiset_insert(out_before, p as int, item);
            assert(out@.to_multiset().add(input@.to_multiset()) =~= orig.to_multiset());
        }
    }
    proof {
        assert(input@.to_multiset() =~= vstd::multiset::Multiset::empty());
        assert(out@.to_multiset() =~= orig.to_multiset());
        assert(out@.to_multiset().len() == orig.to_multiset().len());
    }
    out
}

/// The items of keyed pairs, in order.
pub fn values_of<T>(v: Vec<(String, T)>) -> (r: Vec<T>)
    ensures
        r@ == v@.map_values(|p: (String, T)| p.1),
{
    let ghost orig = v@;
    let mut input = v;
    let mut rev: Vec<T> = Vec::new();
    while input.len() > 0
        invariant
            input@.len() + rev@.len() == orig.len(),
            input@ == orig.take(input@.len() as int),
            forall|i: int| 0 <= i < rev@.len() ==> #[trigger] rev@[i] == orig[orig.len() - 1 - i].1,
        decreases input.len(),
    {
        let ghost before = input@;
        let item = input.pop().unwrap();
        proof {
            assert(input@ =~= orig.take(input@.len() as int));
        }
        rev.push(item.1);
    }
    let mut out: Vec<T> = Vec::new();
    while rev.len() > 0
        invariant
            rev@.len() + out@.len() == orig.len(),
            forall|i: int| 0 <= i < rev@.len() ==> #[trigger] rev@[i] == orig[orig.len() - 1 - i].1,
            forall|i: int| 0 <= i < out@.len() ==> #[trigger] out@[i] == orig[i].1,
        decreases rev.len(),
    {
        let x = rev.pop().unwrap();
        out.push(x);
    }
    proof {
        assert(out@ =~= orig.map_values(|p: (String, T)| p.1));
    }
    out
}

/// Items that are ordered by a text key.
pub trait Keyed: Sized {
    spec fn key_of(&self) -> Seq<char>;

    fn key(&self) -> (r: String)
        ensures
            r@ == self.key_of();
}

/// Greatest key first.
pub open spec fn sorted_desc<T: Keyed>(s: Seq<T>) -> bool {
    forall|i: int, j: int| 0 <= i < j < s.len() ==> !text_lt((#[trigger] s[i]).key_of(), (#[trigger] s[j]).key_of())
}

/// The items, greatest key first; items with equal keys keep their order.
pub fn sort_keyed_desc<T: Keyed>(v: Vec<T>) -> (r: Vec<T>)
    ensures
        r@.to_multiset() == v@.to_multiset(),
        r@.len() == v@.len(),
        sorted_desc(r@),
{
    let ghost orig = v@;
    let mut input = v;
    let mut rest: Vec<T> = Vec::new();
    while input.len() > 0
        invariant
            input@.len() + rest@.len() == orig.len(),
            input@ == orig.take(input@.len() as int),
            forall|i: int| 0 <= i < rest@.len() ==> #[trigger] rest@[i] == orig[orig.len() - 1 - i],
        decreases input.len(),
    {
        let item = input.pop().unwrap();
        proof {
            assert(input@ =~= orig.take(input@.len() as int));
        }
        rest.push(item);
    }
    let mut keyed: Vec<(String, T)> = Vec::new();
    while rest.len() > 0
        invariant
            rest@.len() + keyed@.len() == orig.len(),
            forall|i: int| 0 <= i < rest@.len() ==> #[trigger] rest@[i] == orig[orig.len() - 1 - i],
            forall|i: int| 0 <= i < keyed@.len() ==> #[trigger] keyed@[i].1 == orig[i] && keyed@[i].0@ == orig[i].key_of(),
        decreases rest.len(),
    {
        let item = rest.pop().unwrap();
        let k = item.key();
        keyed.push((k, item));
    }
    let ghost keyed_in = keyed@;
    let sorted = sort_desc_by_key(keyed);
    let ghost sorted_pairs = sorted@;
    let out = values_of(sorted);
    proof {
        let f = |p: (String, T)| p.1;
        assert(keyed_in.map_values(f) =~= orig);
        crate::multiset_facts::lemma_map_same_multiset(sorted_pairs, keyed_in, f);
        assert(out@ =~= sorted_pairs.map_values(f));
        assert forall|i: int| 0 <= i < sorted_pairs.len() implies #[trigger] sorted_pairs[i].0@ == sorted_pairs[i].1.key_of() by {
            assert(sorted_pairs.to_multiset().count(sorted_pairs[i]) > 0);
            assert(keyed_in.contains(sorted_pairs[i]));
        }
        assert forall|i: int, j: int| 0 <= i < j < out@.len() implies !text_lt((#[trigger] out@[i]).key_of(), (#[trigger] out@[j]).key_of()) by {
            assert(sorted_pairs[i].0@ == sorted_pairs[i].1.key_of());
            assert(sorted_pairs[j].0@ == sorted_pairs[j].1.key_of());
        }
    }
    out
}

} // verus!
