//! Counts per author: how many comments, merged pull requests or commits
//! each login accounts for.

use crate::order::{key_ints, lemma_order_sorts, order_of, rank_order};
use vstd::prelude::*;

verus! {

/// The count that `m` gives `k`, or zero where `k` is absent.
pub open spec fn count_in(m: Map<Seq<char>, nat>, k: Seq<char>) -> nat {
    if m.contains_key(k) {
        m[k]
    } else {
        0
    }
}

/// `m` with `n` more counted for `k`; `k` is present afterwards.
pub open spec fn bump(m: Map<Seq<char>, nat>, k: Seq<char>, n: nat) -> Map<Seq<char>, nat> {
    m.insert(k, count_in(m, k) + n)
}

/// The keys of both maps, each with the sum of its two counts.
pub open spec fn sum_maps(a: Map<Seq<char>, nat>, b: Map<Seq<char>, nat>) -> Map<Seq<char>, nat> {
    Map::new(
        |k: Seq<char>| a.contains_key(k) || b.contains_key(k),
        |k: Seq<char>| count_in(a, k) + count_in(b, k),
    )
}

/// Each name that occurs in `names`, with the number of times it occurs.
pub open spec fn occurrences(names: Seq<Seq<char>>) -> Map<Seq<char>, nat>
    decreases names.len(),
{
    if names.len() == 0 {
        Map::empty()
    } else {
        bump(occurrences(names.drop_last()), names.last(), 1)
    }
}

/// The text of each string, in order.
pub open spec fn texts(v: Seq<String>) -> Seq<Seq<char>> {
    v.map_values(|s: String| s@)
}

/// The map that a list of (name, count) pairs spells out; a later pair for
/// a name overrides an earlier one.
pub open spec fn entries_map(s: Seq<(String, usize)>) -> Map<Seq<char>, nat>
    decreases s.len(),
{
    if s.len() == 0 {
        Map::empty()
    } else {
        entries_map(s.drop_last()).insert(s.last().0@, s.last().1 as nat)
    }
}

/// No name occurs twice in the list.
pub open spec fn keys_unique(s: Seq<(String, usize)>) -> bool {
    forall|i: int, j: int| 0 <= i < j < s.len() ==> s[i].0@ != s[j].0@
}

proof fn lemma_entries_dom(s: Seq<(String, usize)>, k: Seq<char>)
    ensures
        entries_map(s).contains_key(k) <==> exists|i: int| 0 <= i < s.len() && s[i].0@ == k,
    decreases s.len(),
{
    if s.len() > 0 {
        lemma_entries_dom(s.drop_last(), k);
        if entries_map(s.drop_last()).contains_key(k) {
            let i = choose|i: int| 0 <= i < s.drop_last().len() && s.drop_last()[i].0@ == k;
            assert(s[i].0@ == k);
        }
        if exists|i: int| 0 <= i < s.len() && s[i].0@ == k {
            let i = choose|i: int| 0 <= i < s.len() && s[i].0@ == k;
            if i < s.len() - 1 {
                assert(s.drop_last()[i].0@ == k);
            }
        }
    }
}

proof fn lemma_entries_value(s: Seq<(String, usize)>, i: int)
    requires
        keys_unique(s),
        0 <= i < s.len(),
    ensures
        entries_map(s).contains_key(s[i].0@),
        entries_map(s)[s[i].0@] == s[i].1 as nat,
    decreases s.len(),
{
    if i < s.len() - 1 {
        assert(keys_unique(s.drop_last()));
        lemma_entries_value(s.drop_last(), i);
        assert(s.drop_last()[i] == s[i]);
    }
}

proof fn lemma_entries_update(s: Seq<(String, usize)>, i: int, e: (String, usize))
    requires
        keys_unique(s),
        0 <= i < s.len(),
        e.0@ == s[i].0@,
    ensures
        entries_map(s.update(i, e)) == entries_map(s).insert(e.0@, e.1 as nat),
        keys_unique(s.update(i, e)),
    decreases s.len(),
{
    let t = s.update(i, e);
    if i == s.len() - 1 {
        assert(t.drop_last() =~= s.drop_last());
        assert(entries_map(t) =~= entries_map(s).insert(e.0@, e.1 as nat));
    } else {
        assert(keys_unique(s.drop_last()));
        assert(t.drop_last() =~= s.drop_last().update(i, e));
        lemma_entries_update(s.drop_last(), i, e);
        assert(s.last().0@ != e.0@);
        assert(entries_map(t) =~= entries_map(s).insert(e.0@, e.1 as nat));
    }
}

proof fn lemma_entries_bounded(s: Seq<(String, usize)>, k: Seq<char>)
    ensures
        count_in(entries_map(s), k) <= usize::MAX,
    decreases s.len(),
{
    if s.len() > 0 {
        lemma_entries_bounded(s.drop_last(), k);
    }
}

proof fn lemma_occurrences_bound(names: Seq<Seq<char>>, k: Seq<char>)
    ensures
        count_in(occurrences(names), k) <= names.len(),
    decreases names.len(),
{
    if names.len() > 0 {
        lemma_occurrences_bound(names.drop_last(), k);
    }
}

proof fn lemma_unique_len(s: Seq<(String, usize)>)
    requires
        keys_unique(s),
    ensures
        entries_map(s).dom().finite(),
        entries_map(s).dom().len() == s.len(),
    decreases s.len(),
{
    if s.len() > 0 {
        assert(keys_unique(s.drop_last()));
        lemma_unique_len(s.drop_last());
        lemma_entries_dom(s.drop_last(), s.last().0@);
        if entries_map(s.drop_last()).contains_key(s.last().0@) {
            let i = choose|i: int| 0 <= i < s.drop_last().len() && s.drop_last()[i].0@ == s.last().0@;
            assert(s[i].0@ == s[s.len() - 1].0@);
        }
    }
}

/// How many times each name was counted.
///
/// Its view maps each name counted to its count. Names are kept in the
/// order in which they were first counted.
pub struct Tally {
    entries: Vec<(String, usize)>,
}

impl View for Tally {
    type V = Map<Seq<char>, nat>;

    closed spec fn view(&self) -> Map<Seq<char>, nat> {
        entries_map(self.entries@)
    }
}

/// Every count of a tally fits in `usize`.
pub proof fn lemma_count_bounded(t: &Tally, k: Seq<char>)
    ensures
        count_in(t@, k) <= usize::MAX,
{
    lemma_entries_bounded(t.entries@, k);
}

impl Tally {
    #[verifier::type_invariant]
    spec fn unique(self) -> bool {
        keys_unique(self.entries@)
    }

    /// A tally with nothing counted.
    pub fn new() -> (r: Tally)
        ensures
            r@ == Map::<Seq<char>, nat>::empty(),
    {
        Tally { entries: Vec::new() }
    }

    /// Moves the entries out, leaving none.
    fn take_entries(&mut self) -> (r: Vec<(String, usize)>)
        ensures
            r@ == old(self).entries@,
            final(self).entries@ == Seq::<(String, usize)>::empty(),
    {
        let mut r: Vec<(String, usize)> = Vec::new();
        core::mem::swap(&mut self.entries, &mut r);
        r
    }

    /// Where `name` stands in the entries, if it has been counted.
    fn position(&self, name: &String) -> (r: Option<usize>)
        ensures
            r is None ==> !self@.contains_key(name@),
            r matches Some(i) ==> i < self.entries@.len() && self.entries@[i as int].0@ == name@,
    {
        proof {
            lemma_entries_dom(self.entries@, name@);
        }
        let mut i: usize = 0;
        while i < self.entries.len()
            invariant
                i <= self.entries@.len(),
                forall|j: int| 0 <= j < i ==> self.entries@[j].0@ != name@,
            decreases self.entries@.len() - i,
        {
            if self.entries[i].0 == *name {
                return Some(i);
            }
            i = i + 1;
        }
        None
    }

    /// How many times `name` was counted; zero if never.
    pub fn get(&self, name: &String) -> (r: usize)
        ensures
            r == count_in(self@, name@),
    {
        proof {
            use_type_invariant(self);
        }
        match self.position(name) {
            Some(i) => {
                proof {
                    lemma_entries_value(self.entries@, i as int);
                }
                self.entries[i].1
            },
            None => 0,
        }
    }

    /// Counts `name` `n` more times.
    pub fn add(&mut self, name: String, n: usize)
        requires
            count_in(old(self)@, name@) + n <= usize::MAX,
        ensures
            final(self)@ == bump(old(self)@, name@, n as nat),
    {
        proof {
            use_type_invariant(&*self);
        }
        match self.position(&name) {
            Some(i) => {
                proof {
                    lemma_entries_value(self.entries@, i as int);
                }
                let total = self.entries[i].1 + n;
                proof {
                    lemma_entries_update(self.entries@, i as int, (name, total));
                }
                let mut entries = self.take_entries();
                entries.set(i, (name, total));
                self.entries = entries;
            },
            None => {
                proof {
                    assert forall|j: int| 0 <= j < self.entries@.len() implies self.entries@[j].0@
                        != name@ by {
                        lemma_entries_dom(self.entries@, name@);
                    }
                    assert(self.entries@.push((name, n)).drop_last() =~= self.entries@);
                }
                let mut entries = self.take_entries();
                entries.push((name, n));
                self.entries = entries;
            },
        }
    }

    /// Sets the count of `name` to `n`, whatever it was.
    pub fn insert(&mut self, name: String, n: usize)
        ensures
            final(self)@ == old(self)@.insert(name@, n as nat),
    {
        proof {
            use_type_invariant(&*self);
        }
        match self.position(&name) {
            Some(i) => {
                proof {
                    lemma_entries_update(self.entries@, i as int, (name, n));
                }
                let mut entries = self.take_entries();
                entries.set(i, (name, n));
                self.entries = entries;
            },
            None => {
                proof {
                    assert forall|j: int| 0 <= j < self.entries@.len() implies self.entries@[j].0@
                        != name@ by {
                        lemma_entries_dom(self.entries@, name@);
                    }
                    assert(self.entries@.push((name, n)).drop_last() =~= self.entries@);
                }
                let mut entries = self.take_entries();
                entries.push((name, n));
                self.entries = entries;
            },
        }
    }

    /// Counts each name in `names` once per occurrence.
    pub fn count(names: &Vec<String>) -> (r: Tally)
        ensures
            r@ == occurrences(texts(names@)),
    {
        let ghost all = texts(names@);
        let mut tally = Tally::new();
        let mut i: usize = 0;
        while i < names.len()
            invariant
                i <= names@.len(),
                all == texts(names@),
                tally@ == occurrences(all.take(i as int)),
            decreases names@.len() - i,
        {
            proof {
                lemma_occurrences_bound(all.take(i as int), names@[i as int]@);
                assert(all.take(i as int + 1).drop_last() =~= all.take(i as int));
            }
            tally.add(names[i].clone(), 1);
            i = i + 1;
        }
        proof {
            assert(all.take(i as int) =~= all);
        }
        tally
    }

    /// Adds the counts of `other` to these, name by name.
    pub fn merge(&mut self, other: &Tally)
        requires
            forall|k: Seq<char>| count_in(old(self)@, k) + count_in(other@, k) <= usize::MAX,
        ensures
            final(self)@ == sum_maps(old(self)@, other@),
    {
        proof {
            use_type_invariant(other);
        }
        let ghost a = self@;
        let ghost b = other.entries@;
        assert forall|k: Seq<char>| count_in(a, k) + count_in(entries_map(b), k) <= usize::MAX by {
            assert(count_in(old(self)@, k) + count_in(other@, k) <= usize::MAX);
        }
        let mut j: usize = 0;
        while j < other.entries.len()
            invariant
                j <= b.len(),
                b == other.entries@,
                keys_unique(b),
                forall|k: Seq<char>| count_in(a, k) + count_in(entries_map(b), k) <= usize::MAX,
                self@ == sum_maps(a, entries_map(b.take(j as int))),
            decreases b.len() - j,
        {
            let (name, n) = (other.entries[j].0.clone(), other.entries[j].1);
            proof {
                let m = entries_map(b.take(j as int));
                assert(b.take(j as int + 1).drop_last() =~= b.take(j as int));
                assert(keys_unique(b.take(j as int)));
                lemma_entries_dom(b.take(j as int), name@);
                assert(!m.contains_key(name@));
                lemma_entries_value(b, j as int);
                assert(count_in(entries_map(b), name@) == n);
                assert(sum_maps(a, m.insert(name@, n as nat)) =~= bump(sum_maps(a, m), name@, n as nat));
            }
            self.add(name, n);
            j = j + 1;
        }
        proof {
            assert(b.take(j as int) =~= b);
        }
    }

    /// Adds the counts of `other` to these where every sum fits in `usize`,
    /// and says whether they did; where one does not, some counts may have
    /// been added.
    pub fn checked_merge(&mut self, other: &Tally) -> (r: bool)
        ensures
            r == forall|k: Seq<char>| count_in(old(self)@, k) + count_in(other@, k) <= usize::MAX,
            r ==> final(self)@ == sum_maps(old(self)@, other@),
    {
        proof {
            use_type_invariant(other);
        }
        let ghost a = self@;
        let ghost b = other.entries@;
        let mut j: usize = 0;
        while j < other.entries.len()
            invariant
                j <= b.len(),
                b == other.entries@,
                a == old(self)@,
                keys_unique(b),
                forall|t: int| 0 <= t < j ==> count_in(a, #[trigger] b[t].0@) + b[t].1 <= usize::MAX,
                self@ == sum_maps(a, entries_map(b.take(j as int))),
            decreases b.len() - j,
        {
            let (name, n) = (other.entries[j].0.clone(), other.entries[j].1);
            let ghost m = entries_map(b.take(j as int));
            proof {
                assert(b.take(j as int + 1).drop_last() =~= b.take(j as int));
                assert(keys_unique(b.take(j as int)));
                lemma_entries_dom(b.take(j as int), name@);
                assert(!m.contains_key(name@));
                assert(count_in(self@, name@) == count_in(a, name@));
            }
            let have = self.get(&name);
            if have > usize::MAX - n {
                proof {
                    lemma_entries_value(b, j as int);
                    assert(count_in(a, name@) + count_in(other@, name@) > usize::MAX);
                }
                return false;
            }
            proof {
                assert(sum_maps(a, m.insert(name@, n as nat)) =~= bump(sum_maps(a, m), name@, n as nat));
            }
            self.add(name, n);
            j = j + 1;
        }
        proof {
            assert(b.take(j as int) =~= b);
            assert forall|k: Seq<char>| count_in(a, k) + count_in(other@, k) <= usize::MAX by {
                lemma_entries_dom(b, k);
                lemma_entries_bounded(old(self).entries@, k);
                if other@.contains_key(k) {
                    let t = choose|t: int| 0 <= t < b.len() && b[t].0@ == k;
                    lemma_entries_value(b, t);
                    assert(count_in(a, b[t].0@) + b[t].1 <= usize::MAX);
                }
            }
        }
        true
    }

    /// The counts of both tallies, added name by name.
    pub fn combine(self, other: Tally) -> (r: Tally)
        requires
            forall|k: Seq<char>| count_in(self@, k) + count_in(other@, k) <= usize::MAX,
        ensures
            r@ == sum_maps(self@, other@),
    {
        let mut acc = self;
        acc.merge(&other);
        acc
    }

    /// The names counted, each once, with their counts, in the order in
    /// which they were first counted.
    pub fn pairs(&self) -> (r: Vec<(String, usize)>)
        ensures
            keys_unique(r@),
            entries_map(r@) == self@,
    {
        proof {
            use_type_invariant(self);
        }
        let mut r: Vec<(String, usize)> = Vec::new();
        let mut i: usize = 0;
        while i < self.entries.len()
            invariant
                i <= self.entries@.len(),
                keys_unique(self.entries@),
                r@ =~= self.entries@.take(i as int),
            decreases self.entries@.len() - i,
        {
            r.push((self.entries[i].0.clone(), self.entries[i].1));
            i = i + 1;
        }
        proof {
            assert(self.entries@.take(i as int) =~= self.entries@);
        }
        r
    }

    /// How many names have been counted.
    pub fn len(&self) -> (r: usize)
        ensures
            r == self@.dom().len(),
    {
        proof {
            use_type_invariant(self);
            lemma_unique_len(self.entries@);
        }
        self.entries.len()
    }

    /// The names counted, with their counts, most counted first: at most
    /// `n` of them, and no name left out was counted more often than one
    /// listed. Names counted equally come in the order in which they were
    /// first counted.
    pub fn top(&self, n: usize) -> (r: Vec<(String, usize)>)
        ensures
            r@.len() == if n < self@.dom().len() {
                n as nat
            } else {
                self@.dom().len()
            },
            keys_unique(r@),
            forall|j: int|
                0 <= j < r@.len() ==> #[trigger] self@.contains_key(r@[j].0@) && self@[r@[j].0@]
                    == r@[j].1,
            forall|i: int, j: int| 0 <= i < j < r@.len() ==> r@[i].1 >= r@[j].1,
            forall|k: Seq<char>, j: int|
                #![trigger self@.contains_key(k), r@[j]]
                self@.contains_key(k) && (forall|i: int| 0 <= i < r@.len() ==> r@[i].0@ != k) && 0
                    <= j < r@.len() ==> self@[k] <= r@[j].1,
    {
        proof {
            use_type_invariant(self);
            lemma_unique_len(self.entries@);
        }
        let ghost e = self.entries@;
        let ghost kv = Seq::new(e.len(), |i: int| -(e[i].1 as int));
        let len = self.entries.len();
        let mut keys: Vec<i128> = Vec::new();
        let mut i: usize = 0;
        while i < len
            invariant
                i <= len,
                len == e.len(),
                e == self.entries@,
                kv == Seq::new(e.len(), |i: int| -(e[i].1 as int)),
                key_ints(keys@) == kv.take(i as int),
            decreases len - i,
        {
            let ghost before = keys@;
            keys.push(-(self.entries[i].1 as i128));
            proof {
                assert(key_ints(keys@) =~= key_ints(before).push(kv[i as int]));
                assert(kv.take(i as int + 1) =~= kv.take(i as int).push(kv[i as int]));
            }
            i = i + 1;
        }
        proof {
            assert(kv.take(i as int) =~= kv);
            lemma_order_sorts(kv);
        }
        let order = rank_order(&keys);
        let m = if n < len {
            n
        } else {
            len
        };
        let mut r: Vec<(String, usize)> = Vec::new();
        let mut j: usize = 0;
        while j < m
            invariant
                j <= m,
                m <= len,
                len == e.len(),
                e == self.entries@,
                order@.len() == len,
                forall|t: int| 0 <= t < len ==> #[trigger] order@[t] as int == order_of(kv)[t],
                forall|t: int| 0 <= t < len ==> 0 <= #[trigger] order_of(kv)[t] < len,
                r@.len() == j,
                forall|t: int| 0 <= t < j ==> #[trigger] r@[t] == e[order_of(kv)[t]],
            decreases m - j,
        {
            let o = order[j];
            proof {
                assert(order@[j as int] as int == order_of(kv)[j as int]);
                assert(0 <= order_of(kv)[j as int] < len);
            }
            r.push((self.entries[o].0.clone(), self.entries[o].1));
            j = j + 1;
        }
        proof {
            assert forall|t: int| 0 <= t < r@.len() implies #[trigger] self@.contains_key(r@[t].0@)
                && self@[r@[t].0@] == r@[t].1 by {
                lemma_entries_value(e, order_of(kv)[t]);
            }
            assert forall|a: int, b: int| 0 <= a < b < r@.len() implies r@[a].0@ != r@[b].0@ by {
                assert(order_of(kv)[a] != order_of(kv)[b]);
            }
            assert forall|a: int, b: int| 0 <= a < b < r@.len() implies r@[a].1 >= r@[b].1 by {
                assert(kv[order_of(kv)[a]] <= kv[order_of(kv)[b]]);
            }
            assert forall|k: Seq<char>, t: int|
                #![trigger self@.contains_key(k), r@[t]]
                self@.contains_key(k) && (forall|i: int| 0 <= i < r@.len() ==> r@[i].0@ != k) && 0
                    <= t < r@.len() implies self@[k] <= r@[t].1 by {
                lemma_entries_dom(e, k);
                let w = choose|w: int| 0 <= w < e.len() && e[w].0@ == k;
                lemma_entries_value(e, w);
                assert(order_of(kv).contains(w));
                let p = choose|p: int| 0 <= p < order_of(kv).len() && order_of(kv)[p] == w;
                if p < m {
                    assert(r@[p].0@ == k);
                }
                assert(t < p);
                assert(kv[order_of(kv)[t]] <= kv[order_of(kv)[p]]);
            }
        }
        r
    }
}

} // verus!
