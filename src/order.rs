//! Ordering by key: the places of a list of keys, smallest key first, with
//! equal keys kept in their order.

use itertools::Itertools;
use vstd::multiset::Multiset;
use vstd::prelude::*;
use vstd::relations::{sorted_by, total_ordering};
use vstd::seq_lib::lemma_sorted_unique;

verus! {

/// Pairs compared on their first value, then on their second.
pub open spec fn lex_leq(a: (int, int), b: (int, int)) -> bool {
    a.0 < b.0 || (a.0 == b.0 && a.1 <= b.1)
}

/// The lexicographic order on pairs, as a relation.
pub open spec fn lex_order() -> spec_fn((int, int), (int, int)) -> bool {
    |a: (int, int), b: (int, int)| lex_leq(a, b)
}

/// The pairs are in lexicographic order.
pub open spec fn lex_sorted(s: Seq<(int, int)>) -> bool {
    forall|i: int, j: int| 0 <= i < j < s.len() ==> lex_leq(s[i], s[j])
}

/// The pairs, as integers.
pub open spec fn pair_ints(v: Seq<(i128, usize)>) -> Seq<(int, int)> {
    v.map_values(|p: (i128, usize)| (p.0 as int, p.1 as int))
}

/// The keys, as integers.
pub open spec fn key_ints(v: Seq<i128>) -> Seq<int> {
    v.map_values(|k: i128| k as int)
}

/// Relies on itertools' `Itertools::sorted`, which collects the items and
/// sorts them with the standard library's `sort`: the result holds the
/// same pairs, in the lexicographic order that std gives tuples.
#[verifier::external_body]
fn sorted_pairs(v: Vec<(i128, usize)>) -> (r: Vec<(i128, usize)>)
    ensures
        pair_ints(r@).to_multiset() == pair_ints(v@).to_multiset(),
        lex_sorted(pair_ints(r@)),
{
    v.into_iter().sorted().collect()
}

/// Each key with its place.
pub open spec fn keyed(keys: Seq<int>) -> Seq<(int, int)> {
    Seq::new(keys.len(), |i: int| (keys[i], i))
}

/// The places of the keys, smallest key first; equal keys keep their order.
pub open spec fn order_of(keys: Seq<int>) -> Seq<int> {
    keyed(keys).sort_by(lex_order()).map_values(|p: (int, int)| p.1)
}

/// The keys, taken in the order that `order_of` gives.
pub open spec fn in_order(keys: Seq<int>) -> Seq<int> {
    Seq::new(keys.len(), |j: int| keys[order_of(keys)[j]])
}

proof fn lemma_multiset_map<A, B>(s1: Seq<A>, s2: Seq<A>, f: spec_fn(A) -> B)
    requires
        s1.to_multiset() == s2.to_multiset(),
    ensures
        s1.map_values(f).to_multiset() == s2.map_values(f).to_multiset(),
    decreases s1.len(),
{
    broadcast use vstd::seq_lib::group_to_multiset_ensures;
    broadcast use vstd::multiset::group_multiset_axioms;

    if s1.len() == 0 {
        assert(s1.to_multiset().len() == s1.len());
        assert(s2.to_multiset().len() == s2.len());
        assert(s2.len() == 0);
        assert(s1.map_values(f) =~= s2.map_values(f));
    } else {
        let x = s1.last();
        let t1 = s1.drop_last();
        assert(s1 =~= t1.push(x));
        assert(s2.to_multiset().count(x) > 0);
        assert(s2.contains(x));
        let i = choose|i: int| 0 <= i < s2.len() && s2[i] == x;
        let t2 = s2.remove(i);
        assert(t2.to_multiset() =~= s2.to_multiset().remove(x));
        assert(t1.to_multiset() =~= s1.to_multiset().remove(x));
        lemma_multiset_map(t1, t2, f);
        assert(s1.map_values(f) =~= t1.map_values(f).push(f(x)));
        assert(s2.map_values(f).remove(i) =~= t2.map_values(f));
        assert(s2.map_values(f)[i] == f(x));
        assert(s2.map_values(f).to_multiset().remove(f(x)) =~= t2.map_values(f).to_multiset());
        assert(s2.map_values(f).to_multiset().count(f(x)) > 0);
        assert(s2.map_values(f).to_multiset() =~= t2.map_values(f).to_multiset().insert(f(x)));
    }
}

/// The order of the keys holds each place once, and taking the keys in
/// that order sorts them.
pub proof fn lemma_order_sorts(keys: Seq<int>)
    ensures
        order_of(keys).len() == keys.len(),
        forall|j: int| 0 <= j < keys.len() ==> 0 <= #[trigger] order_of(keys)[j] < keys.len(),
        in_order(keys) == keys.sort(),
        order_of(keys).no_duplicates(),
        forall|w: int| 0 <= w < keys.len() ==> #[trigger] order_of(keys).contains(w),
        forall|i: int, j: int|
            0 <= i < j < keys.len() ==> keys[#[trigger] order_of(keys)[i]] <= keys[#[trigger] order_of(
                keys,
            )[j]],
{
    broadcast use vstd::seq_lib::group_to_multiset_ensures;

    let s = keyed(keys).sort_by(lex_order());
    let leq = |x: int, y: int| x <= y;
    assert(total_ordering(lex_order()));
    keyed(keys).lemma_sort_by_ensures(lex_order());
    assert(s.len() == keyed(keys).len()) by {
        assert(s.to_multiset().len() == keyed(keys).to_multiset().len());
    }
    let first = |p: (int, int)| p.0;
    assert forall|j: int| 0 <= j < s.len() implies #[trigger] s[j] == (keys[s[j].1], s[j].1)
        && 0 <= s[j].1 < keys.len() by {
        assert(s.contains(s[j]));
        assert(keyed(keys).contains(s[j]));
    }
    lemma_multiset_map(s, keyed(keys), first);
    assert(keyed(keys).map_values(first) =~= keys);
    assert(s.map_values(first) =~= in_order(keys));
    keys.lemma_sort_ensures();
    assert(total_ordering(leq));
    assert(sorted_by(in_order(keys), leq)) by {
        assert forall|i: int, j: int| 0 <= i < j < in_order(keys).len() implies #[trigger] leq(
            in_order(keys)[i],
            in_order(keys)[j],
        ) by {
            assert(sorted_by(s, lex_order()));
            assert(lex_order()(s[i], s[j]));
            assert(lex_leq(s[i], s[j]));
        }
    }
    lemma_sorted_unique(in_order(keys), keys.sort(), leq);
    assert forall|i: int, j: int| 0 <= i < j < keys.len() implies keys[#[trigger] order_of(keys)[i]]
        <= keys[#[trigger] order_of(keys)[j]] by {
        assert(sorted_by(s, lex_order()));
        assert(lex_order()(s[i], s[j]));
    }
    assert(keyed(keys).no_duplicates());
    keyed(keys).lemma_multiset_has_no_duplicates();
    s.lemma_multiset_has_no_duplicates_conv();
    assert forall|a: int, b: int| 0 <= a < b < keys.len() implies order_of(keys)[a] != order_of(
        keys,
    )[b] by {
        assert(s[a] != s[b]);
    }
    assert forall|w: int| 0 <= w < keys.len() implies #[trigger] order_of(keys).contains(w) by {
        assert(keyed(keys).contains(keyed(keys)[w]));
        assert(keyed(keys).to_multiset().count(keyed(keys)[w]) > 0);
        assert(s.to_multiset().count(keyed(keys)[w]) > 0);
        assert(s.contains(keyed(keys)[w]));
        let p = choose|p: int| 0 <= p < s.len() && s[p] == keyed(keys)[w];
        assert(order_of(keys)[p] == w);
    }
}

/// The places of the keys, smallest key first; equal keys keep their order.
pub fn rank_order(keys: &Vec<i128>) -> (r: Vec<usize>)
    ensures
        r@.len() == keys@.len(),
        forall|j: int| 0 <= j < r@.len() ==> #[trigger] r@[j] as int == order_of(key_ints(keys@))[j],
{
    let ghost ks = key_ints(keys@);
    let n = keys.len();
    let mut v: Vec<(i128, usize)> = Vec::new();
    let mut i: usize = 0;
    while i < n
        invariant
            i <= n,
            n == keys@.len(),
            ks == key_ints(keys@),
            pair_ints(v@) == keyed(ks).take(i as int),
        decreases n - i,
    {
        let ghost before = v@;
        v.push((keys[i], i));
        proof {
            assert(pair_ints(v@) =~= pair_ints(before).push(keyed(ks)[i as int]));
            assert(keyed(ks).take(i as int + 1) =~= keyed(ks).take(i as int).push(keyed(ks)[i as int]));
        }
        i = i + 1;
    }
    proof {
        assert(keyed(ks).take(i as int) =~= keyed(ks));
    }
    let sorted = sorted_pairs(v);
    proof {
        let leq = lex_order();
        assert(total_ordering(leq));
        keyed(ks).lemma_sort_by_ensures(leq);
        assert(sorted_by(pair_ints(sorted@), leq));
        lemma_sorted_unique(pair_ints(sorted@), keyed(ks).sort_by(leq), leq);
        pair_ints(sorted@).to_multiset_ensures();
        keyed(ks).to_multiset_ensures();
    }
    let mut r: Vec<usize> = Vec::new();
    let mut j: usize = 0;
    while j < sorted.len()
        invariant
            j <= sorted@.len(),
            sorted@.len() == n,
            n == keys@.len(),
            ks == key_ints(keys@),
            pair_ints(sorted@) == keyed(ks).sort_by(lex_order()),
            r@.len() == j,
            forall|k: int| 0 <= k < j ==> #[trigger] r@[k] as int == order_of(ks)[k],
        decreases sorted@.len() - j,
    {
        proof {
            assert(pair_ints(sorted@)[j as int].1 == sorted@[j as int].1 as int);
        }
        r.push(sorted[j].1);
        j = j + 1;
    }
    r
}

} // verus!
