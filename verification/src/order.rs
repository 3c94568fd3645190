//! Ranking by cost: nodes are ordered by a key of two numbers, so that the order of
//! the keys is the order of tuples that the standard library documents.

use vstd::prelude::*;
use vstd::relations::{sorted_by, total_ordering};

verus! {

/// The order of keys: by the first number, then by the second.
pub open spec fn key_le(a: (u64, usize), b: (u64, usize)) -> bool {
    a.0 < b.0 || (a.0 == b.0 && a.1 <= b.1)
}

/// `key_le` as a relation.
pub open spec fn key_order() -> spec_fn((u64, usize), (u64, usize)) -> bool {
    |a: (u64, usize), b: (u64, usize)| key_le(a, b)
}

/// The keys of `keys` in ascending order.
pub open spec fn ranking(keys: Seq<(u64, usize)>) -> Seq<(u64, usize)> {
    keys.sort_by(key_order())
}

/// The first `n` entries of `s`, or all of `s` where it has fewer.
pub open spec fn top_of(s: Seq<(u64, usize)>, n: usize) -> Seq<(u64, usize)> {
    if n < s.len() {
        s.take(n as int)
    } else {
        s
    }
}

/// The entries of `s` after the first `n`.
pub open spec fn beyond(s: Seq<(u64, usize)>, n: usize) -> Seq<(u64, usize)> {
    if n < s.len() {
        s.skip(n as int)
    } else {
        Seq::empty()
    }
}

pub proof fn lemma_key_order_total()
    ensures
        total_ordering(key_order()),
{
    let r = key_order();
    assert forall|x: (u64, usize), y: (u64, usize)| #[trigger] r(x, y) && #[trigger] r(y, x) implies x == y by {
        assert(x.0 == y.0 && x.1 == y.1);
    }
    assert forall|x: (u64, usize), y: (u64, usize), z: (u64, usize)| #[trigger] r(x, y) && #[trigger] r(y, z) implies r(x, z) by {}
    assert forall|x: (u64, usize), y: (u64, usize)| #[trigger] r(x, y) || #[trigger] r(y, x) by {}
    assert forall|x: (u64, usize)| #[trigger] r(x, x) by {}
}

/// A ranking holds the keys that were ranked, each as often as it was there, in
/// ascending order.
pub proof fn lemma_ranking(keys: Seq<(u64, usize)>)
    ensures
        ranking(keys).len() == keys.len(),
        ranking(keys).to_multiset() == keys.to_multiset(),
        sorted_by(ranking(keys), key_order()),
        forall|e: (u64, usize)| ranking(keys).contains(e) <==> keys.contains(e),
{
    broadcast use vstd::seq_lib::group_to_multiset_ensures;

    lemma_key_order_total();
    keys.lemma_sort_by_ensures(key_order());
    let r = ranking(keys);
    assert(r.to_multiset().len() == keys.to_multiset().len());
    assert forall|e: (u64, usize)| r.contains(e) <==> keys.contains(e) by {
        assert(r.to_multiset().count(e) == keys.to_multiset().count(e));
    }
}

/// `sort_unstable` of the standard library on a vector of pairs: the same pairs,
/// in the ascending order of tuples, which compares the first numbers and then the
/// second.
#[verifier::external_body]
fn sort_keys(v: &mut Vec<(u64, usize)>)
    ensures
        final(v)@.to_multiset() == old(v)@.to_multiset(),
        sorted_by(final(v)@, key_order()),
{
    v.sort_unstable();
}

/// Ranks a vector of keys.
pub fn rank_keys(keys: Vec<(u64, usize)>) -> (r: Vec<(u64, usize)>)
    ensures
        r@ == ranking(keys@),
{
    let mut v = keys;
    sort_keys(&mut v);
    proof {
        lemma_key_order_total();
        lemma_ranking(keys@);
        vstd::seq_lib::lemma_sorted_unique(v@, ranking(keys@), key_order());
    }
    v
}

} // verus!
