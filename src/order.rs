//! Orderings: of texts, character by character, and of items by a rank,
//! through itertools' sorts.

use vstd::prelude::*;
use itertools::Itertools;
use crate::text::texts;

verus! {

/// Whether text `a` comes before text `b` or equals it, character by
/// character.
pub open spec fn text_le(a: Seq<char>, b: Seq<char>) -> bool
    decreases a.len(),
{
    if a.len() == 0 {
        true
    } else if b.len() == 0 {
        false
    } else if a[0] != b[0] {
        (a[0] as u32) < (b[0] as u32)
    } else {
        text_le(a.drop_first(), b.drop_first())
    }
}

/// Relies on itertools' `Itertools::sorted`: the same items in ascending
/// order. `String`s are ordered by their UTF-8 bytes, which orders them
/// character by character.
#[verifier::external_body]
pub(crate) fn sorted_texts(v: &Vec<String>) -> (r: Vec<String>)
    ensures
        texts(r@).to_multiset() == texts(v@).to_multiset(),
        forall|i: int, j: int| 0 <= i < j < r@.len() ==> text_le(#[trigger] r@[i]@, #[trigger] r@[j]@),
{
    v.iter().sorted().cloned().collect()
}

/// Relies on itertools' `Itertools::sorted_by_key` with the rank as key:
/// the same entries, by ascending rank.
#[verifier::external_body]
fn sort_by_rank<T>(v: Vec<(i128, T)>) -> (r: Vec<(i128, T)>)
    ensures
        r@.to_multiset() == v@.to_multiset(),
        forall|i: int, j: int| 0 <= i < j < r@.len() ==> (#[trigger] r@[i]).0 <= (#[trigger] r@[j]).0,
{
    v.into_iter().sorted_by_key(|e| e.0).collect()
}

pub(crate) proof fn lemma_map_multiset<A, B>(a: Seq<A>, b: Seq<A>, f: spec_fn(A) -> B)
    requires
        a.to_multiset() == b.to_multiset(),
    ensures
        a.map_values(f).to_multiset() == b.map_values(f).to_multiset(),
    decreases a.len(),
{
    broadcast use vstd::seq_lib::group_to_multiset_ensures;
    if a.len() == 0 {
        assert(b.to_multiset().len() == 0);
        assert(b.len() == 0);
        assert(a.map_values(f) =~= Seq::<B>::empty());
        assert(b.map_values(f) =~= Seq::<B>::empty());
    } else {
        let x = a.last();
        let a1 = a.drop_last();
        assert(a =~= a1.push(x));
        assert(a.to_multiset() == a1.to_multiset().insert(x));
        assert(b.to_multiset().count(x) > 0);
        assert(b.contains(x));
        let j = choose|j: int| 0 <= j < b.len() && b[j] == x;
        let b1 = b.remove(j);
        assert(b1.to_multiset() == b.to_multiset().remove(x));
        assert(a1.to_multiset() =~= b1.to_multiset());
        lemma_map_multiset(a1, b1, f);
        assert(a.map_values(f) =~= a1.map_values(f).push(f(x)));
        assert(b.map_values(f) =~= b1.map_values(f).insert(j, f(x)));
        assert(b1.map_values(f).insert(j, f(x)).to_multiset() == b1.map_values(f).to_multiset().insert(f(x)));
        assert(a1.map_values(f).push(f(x)).to_multiset() == a1.map_values(f).to_multiset().insert(f(x)));
    }
}

/// The items of `v` by ascending `rank`; each entry of `v` is an item with
/// its rank.
pub(crate) fn sort_ranked<T>(v: Vec<(i128, T)>, Ghost(rank): Ghost<spec_fn(T) -> int>) -> (r: Vec<T>)
    requires
        forall|k: int| 0 <= k < v@.len() ==> (#[trigger] v@[k]).0 == rank(v@[k].1),
    ensures
        r@.to_multiset() == v@.map_values(|e: (i128, T)| e.1).to_multiset(),
        forall|i: int, j: int| 0 <= i < j < r@.len() ==> rank(#[trigger] r@[i]) <= rank(#[trigger] r@[j]),
{
    broadcast use vstd::seq_lib::group_to_multiset_ensures;
    let ghost unsorted = v@;
    let sorted = sort_by_rank(v);
    let ghost all = sorted@;
    assert forall|k: int| 0 <= k < all.len() implies (#[trigger] all[k]).0 == rank(all[k].1) by {
        assert(all.to_multiset().count(all[k]) > 0);
        assert(unsorted.to_multiset().count(all[k]) > 0);
        assert(unsorted.contains(all[k]));
    }
    let mut rest = sorted;
    let mut r: Vec<T> = Vec::new();
    while rest.len() > 0
        invariant
            r@.len() + rest@.len() == all.len(),
            r@ =~= all.subrange(0, r@.len() as int).map_values(|e: (i128, T)| e.1),
            rest@ =~= all.subrange(r@.len() as int, all.len() as int),
        decreases rest@.len(),
    {
        let e = rest.remove(0);
        r.push(e.1);
    }
    assert(all.subrange(0, all.len() as int) =~= all);
    proof {
        lemma_map_multiset(all, unsorted, |e: (i128, T)| e.1);
    }
    assert forall|i: int, j: int| 0 <= i < j < r@.len() implies rank(#[trigger] r@[i]) <= rank(#[trigger] r@[j]) by {
        assert(r@[i] == all[i].1);
        assert(r@[j] == all[j].1);
        assert(all[i].0 <= all[j].0);
    }
    r
}

/// A sequence with the same items as one without duplicates has none.
pub(crate) proof fn lemma_same_items_no_duplicates<A>(s: Seq<A>, t: Seq<A>)
    requires
        s.to_multiset() == t.to_multiset(),
        s.no_duplicates(),
    ensures
        t.no_duplicates(),
{
    s.lemma_multiset_has_no_duplicates();
    t.lemma_multiset_has_no_duplicates_conv();
}

/// Items with distinct keys keep them distinct in any order.
pub(crate) proof fn lemma_same_items_distinct_keys<A, B>(s: Seq<A>, t: Seq<A>, key: spec_fn(A) -> B)
    requires
        s.to_multiset() == t.to_multiset(),
        s.map_values(key).no_duplicates(),
    ensures
        t.map_values(key).no_duplicates(),
{
    lemma_map_multiset(s, t, key);
    lemma_same_items_no_duplicates(s.map_values(key), t.map_values(key));
}

} // verus!
