//! Response-time distributions, and the statistics of a whole collection
//! of issues and pull requests.

use crate::tally::{bump, count_in, lemma_count_bounded, occurrences, sum_maps, texts, Tally};
use crate::thread::{Issue, Thread, PR};
use crate::time::{Timestamp, TIME_LIMIT};
use crate::order::{in_order, key_ints, lemma_order_sorts, order_of, rank_order};
use vstd::prelude::*;

verus! {

/// The values, as integers.
pub open spec fn ints(s: Seq<i64>) -> Seq<int> {
    s.map_values(|x: i64| x as int)
}

/// For each event that happened, in order, how many seconds after the
/// posting it came.
pub open spec fn delays(evs: Seq<(Timestamp, Option<Timestamp>)>) -> Seq<int>
    decreases evs.len(),
{
    if evs.len() == 0 {
        Seq::empty()
    } else {
        let rest = delays(evs.drop_last());
        match evs.last().1 {
            Some(t) => rest.push(t.seconds() - evs.last().0.seconds()),
            None => rest,
        }
    }
}

/// How many of the events happened.
pub open spec fn happened(evs: Seq<(Timestamp, Option<Timestamp>)>) -> nat {
    delays(evs).len()
}

/// The sum of the values.
pub open spec fn sum_of(d: Seq<int>) -> int
    decreases d.len(),
{
    if d.len() == 0 {
        0
    } else {
        sum_of(d.drop_last()) + d.last()
    }
}

/// `a / n`, rounded towards zero as Rust's integer division rounds.
pub open spec fn trunc_div(a: int, n: int) -> int {
    if a >= 0 {
        a / n
    } else {
        -((-a) / n)
    }
}

/// The value at index `len / 2` of the values sorted ascending: for an even
/// count, the upper of the two middle values, not their average.
pub open spec fn median_of(d: Seq<int>) -> int {
    d.sort()[(d.len() / 2) as int]
}

/// The sum of the values over their count, rounded towards zero.
pub open spec fn mean_of(d: Seq<int>) -> int {
    trunc_div(sum_of(d), d.len() as int)
}

/// The median and mean of the delays; absent where there are none.
pub open spec fn times_of(d: Seq<int>) -> Option<ResponseTimes> {
    if d.len() == 0 {
        None
    } else {
        Some(ResponseTimes { median: median_of(d) as i64, mean: mean_of(d) as i64 })
    }
}

/// How long, in seconds, it took for something to happen to threads.
#[derive(Clone, Copy, Debug, PartialEq, Eq, Structural)]
pub struct ResponseTimes {
    pub median: i64,
    pub mean: i64,
}

/// The median and mean time to the events that happened; absent where
/// none did.
pub fn resp_times(evs: &Vec<(Timestamp, Option<Timestamp>)>) -> (r: Option<ResponseTimes>)
    ensures
        r == times_of(delays(evs@)),
{
    // Each delay lies within 2 * TIME_LIMIT of zero, so the sum of at most
    // usize::MAX of them lies far within i128.
    let mut d: Vec<i64> = Vec::new();
    let mut keys: Vec<i128> = Vec::new();
    let mut sum: i128 = 0;
    let mut i: usize = 0;
    while i < evs.len()
        invariant
            i <= evs@.len(),
            ints(d@) == delays(evs@.take(i as int)),
            key_ints(keys@) == ints(d@),
            d@.len() <= i,
            sum == sum_of(ints(d@)),
            forall|j: int| 0 <= j < d@.len() ==> -2 * TIME_LIMIT <= #[trigger] d@[j] <= 2 * TIME_LIMIT,
            -(d@.len() as int) * 20_000_000_000_000 <= sum <= d@.len() as int * 20_000_000_000_000,
        decreases evs@.len() - i,
    {
        proof {
            assert(evs@.take(i as int + 1).drop_last() =~= evs@.take(i as int));
        }
        match evs[i].1 {
            Some(t) => {
                let x = t.seconds_since_epoch() - evs[i].0.seconds_since_epoch();
                proof {
                    assert(ints(d@.push(x)).drop_last() =~= ints(d@));
                    assert(key_ints(keys@.push(x as i128)) =~= key_ints(keys@).push(x as int));
                    assert(ints(d@.push(x)) =~= ints(d@).push(x as int));
                }
                sum = sum + x as i128;
                d.push(x);
                keys.push(x as i128);
                proof {
                    assert(ints(d@) =~= delays(evs@.take(i as int + 1)));
                }
            },
            None => {},
        }
        i = i + 1;
    }
    proof {
        assert(evs@.take(i as int) =~= evs@);
    }
    let n = d.len();
    if n == 0 {
        return None;
    }
    let ghost dv = ints(d@);
    let order = rank_order(&keys);
    proof {
        lemma_order_sorts(dv);
        assert(order@[(n / 2) as int] as int == order_of(dv)[(n / 2) as int]);
        assert(in_order(dv)[(n / 2) as int] == dv[order_of(dv)[(n / 2) as int]]);
    }
    let median = d[order[n / 2]];
    let mean: i64 = if sum >= 0 {
        let q = (sum as u128 / n as u128) as i128;
        proof {
            assert((sum as int) / (n as int) <= 20_000_000_000_000) by (nonlinear_arith)
                requires
                    0 <= sum as int <= n as int * 20_000_000_000_000,
                    n > 0,
            ;
        }
        q as i64
    } else {
        let q = ((-sum) as u128 / n as u128) as i128;
        proof {
            assert((-sum) as int / (n as int) <= 20_000_000_000_000) by (nonlinear_arith)
                requires
                    0 <= (-sum) as int <= n as int * 20_000_000_000_000,
                    n > 0,
            ;
        }
        -(q as i64)
    };
    Some(ResponseTimes { median, mean })
}

/// What a thread's statistics time it to.
#[derive(Clone, Copy, Debug, PartialEq, Eq, Structural)]
pub enum Milestone {
    Closed,
    Response,
    OfficialResponse,
}

/// When the thread reached the milestone, if it did.
pub open spec fn milestone_of(t: Thread, m: Milestone) -> Option<Timestamp> {
    match m {
        Milestone::Closed => t.closed,
        Milestone::Response => t.first_response,
        Milestone::OfficialResponse => t.first_official_response,
    }
}

/// The threads of the issues.
pub open spec fn issue_view(issues: Seq<Issue>) -> Seq<Thread> {
    issues.map_values(|i: Issue| i.0)
}

/// The threads of the pull requests.
pub open spec fn pr_view(prs: Seq<PR>) -> Seq<Thread> {
    prs.map_values(|p: PR| p.thread)
}

/// Each thread's opening time, with the time it reached the milestone.
pub open spec fn events(ts: Seq<Thread>, m: Milestone) -> Seq<(Timestamp, Option<Timestamp>)> {
    ts.map_values(|t: Thread| (t.posted, milestone_of(t, m)))
}

/// Each pull request's opening time, with its merge time.
pub open spec fn merge_events(prs: Seq<PR>) -> Seq<(Timestamp, Option<Timestamp>)> {
    prs.map_values(|p: PR| (p.thread.posted, p.merged))
}

/// How many pull requests were closed without being merged.
pub open spec fn closed_unmerged(prs: Seq<PR>) -> nat
    decreases prs.len(),
{
    if prs.len() == 0 {
        0
    } else {
        closed_unmerged(prs.drop_last()) + if prs.last().thread.closed is Some
            && prs.last().merged is None {
            1nat
        } else {
            0nat
        }
    }
}

/// The author of each merged pull request, in order.
pub open spec fn merged_authors(prs: Seq<PR>) -> Seq<Seq<char>>
    decreases prs.len(),
{
    if prs.len() == 0 {
        Seq::empty()
    } else {
        let rest = merged_authors(prs.drop_last());
        if prs.last().merged is Some {
            rest.push(prs.last().thread.author@)
        } else {
            rest
        }
    }
}

/// For each author of a merged pull request, the commits in their merged
/// pull requests.
pub open spec fn commit_totals(prs: Seq<PR>) -> Map<Seq<char>, nat>
    decreases prs.len(),
{
    if prs.len() == 0 {
        Map::empty()
    } else {
        let rest = commit_totals(prs.drop_last());
        if prs.last().merged is Some {
            bump(rest, prs.last().thread.author@, prs.last().commits as nat)
        } else {
            rest
        }
    }
}

/// For each commenter, the comments left over all the threads.
pub open spec fn comment_totals(ts: Seq<Thread>) -> Map<Seq<char>, nat>
    decreases ts.len(),
{
    if ts.len() == 0 {
        Map::empty()
    } else {
        sum_maps(comment_totals(ts.drop_last()), ts.last().comments@)
    }
}

/// For each commenter, the comments left on all the issues and pull
/// requests.
pub open spec fn commentor_totals(issues: Seq<Issue>, prs: Seq<PR>) -> Map<Seq<char>, nat> {
    sum_maps(comment_totals(issue_view(issues)), comment_totals(pr_view(prs)))
}

proof fn lemma_sum_count(a: Map<Seq<char>, nat>, b: Map<Seq<char>, nat>, k: Seq<char>)
    ensures
        count_in(sum_maps(a, b), k) == count_in(a, k) + count_in(b, k),
{
}

proof fn lemma_commit_prefix(prs: Seq<PR>, i: int, k: Seq<char>)
    requires
        0 <= i <= prs.len(),
    ensures
        count_in(commit_totals(prs.take(i)), k) <= count_in(commit_totals(prs), k),
    decreases prs.len() - i,
{
    if i < prs.len() {
        lemma_commit_prefix(prs, i + 1, k);
        assert(prs.take(i + 1).drop_last() =~= prs.take(i));
    } else {
        assert(prs.take(i) =~= prs);
    }
}

proof fn lemma_comment_prefix(ts: Seq<Thread>, i: int, k: Seq<char>)
    requires
        0 <= i <= ts.len(),
    ensures
        count_in(comment_totals(ts.take(i)), k) <= count_in(comment_totals(ts), k),
    decreases ts.len() - i,
{
    if i < ts.len() {
        lemma_comment_prefix(ts, i + 1, k);
        assert(ts.take(i + 1).drop_last() =~= ts.take(i));
        lemma_sum_count(comment_totals(ts.take(i)), ts.take(i + 1).last().comments@, k);
    } else {
        assert(ts.take(i) =~= ts);
    }
}

fn milestone(t: &Thread, m: Milestone) -> (r: Option<Timestamp>)
    ensures
        r == milestone_of(*t, m),
{
    match m {
        Milestone::Closed => t.closed,
        Milestone::Response => t.first_response,
        Milestone::OfficialResponse => t.first_official_response,
    }
}

fn issue_events(issues: &Vec<Issue>, m: Milestone) -> (r: Vec<(Timestamp, Option<Timestamp>)>)
    ensures
        r@ == events(issue_view(issues@), m),
{
    let mut r: Vec<(Timestamp, Option<Timestamp>)> = Vec::new();
    let mut i: usize = 0;
    while i < issues.len()
        invariant
            i <= issues@.len(),
            r@ == events(issue_view(issues@), m).take(i as int),
        decreases issues@.len() - i,
    {
        let t = &issues[i].0;
        r.push((t.posted, milestone(t, m)));
        i = i + 1;
        proof {
            assert(r@ =~= events(issue_view(issues@), m).take(i as int));
        }
    }
    proof {
        assert(events(issue_view(issues@), m).take(i as int) =~= events(issue_view(issues@), m));
    }
    r
}

fn pr_events(prs: &Vec<PR>, m: Milestone) -> (r: Vec<(Timestamp, Option<Timestamp>)>)
    ensures
        r@ == events(pr_view(prs@), m),
{
    let mut r: Vec<(Timestamp, Option<Timestamp>)> = Vec::new();
    let mut i: usize = 0;
    while i < prs.len()
        invariant
            i <= prs@.len(),
            r@ == events(pr_view(prs@), m).take(i as int),
        decreases prs@.len() - i,
    {
        let t = &prs[i].thread;
        r.push((t.posted, milestone(t, m)));
        i = i + 1;
        proof {
            assert(r@ =~= events(pr_view(prs@), m).take(i as int));
        }
    }
    proof {
        assert(events(pr_view(prs@), m).take(i as int) =~= events(pr_view(prs@), m));
    }
    r
}

fn pr_merge_events(prs: &Vec<PR>) -> (r: Vec<(Timestamp, Option<Timestamp>)>)
    ensures
        r@ == merge_events(prs@),
{
    let mut r: Vec<(Timestamp, Option<Timestamp>)> = Vec::new();
    let mut i: usize = 0;
    while i < prs.len()
        invariant
            i <= prs@.len(),
            r@ == merge_events(prs@).take(i as int),
        decreases prs@.len() - i,
    {
        r.push((prs[i].thread.posted, prs[i].merged));
        i = i + 1;
        proof {
            assert(r@ =~= merge_events(prs@).take(i as int));
        }
    }
    proof {
        assert(merge_events(prs@).take(i as int) =~= merge_events(prs@));
    }
    r
}

/// How many of the events happened.
pub fn count_happened(evs: &Vec<(Timestamp, Option<Timestamp>)>) -> (r: usize)
    ensures
        r == happened(evs@),
{
    let mut c: usize = 0;
    let mut i: usize = 0;
    while i < evs.len()
        invariant
            i <= evs@.len(),
            c == delays(evs@.take(i as int)).len(),
            c <= i,
        decreases evs@.len() - i,
    {
        proof {
            assert(evs@.take(i as int + 1).drop_last() =~= evs@.take(i as int));
        }
        if evs[i].1.is_some() {
            c = c + 1;
        }
        i = i + 1;
    }
    proof {
        assert(evs@.take(i as int) =~= evs@);
    }
    c
}

fn count_closed_unmerged(prs: &Vec<PR>) -> (r: usize)
    ensures
        r == closed_unmerged(prs@),
{
    let mut c: usize = 0;
    let mut i: usize = 0;
    while i < prs.len()
        invariant
            i <= prs@.len(),
            c == closed_unmerged(prs@.take(i as int)),
            c <= i,
        decreases prs@.len() - i,
    {
        proof {
            assert(prs@.take(i as int + 1).drop_last() =~= prs@.take(i as int));
        }
        if prs[i].is_closed_not_merged() {
            c = c + 1;
        }
        i = i + 1;
    }
    proof {
        assert(prs@.take(i as int) =~= prs@);
    }
    c
}

fn merged_author_names(prs: &Vec<PR>) -> (r: Vec<String>)
    ensures
        texts(r@) == merged_authors(prs@),
{
    let mut r: Vec<String> = Vec::new();
    let mut i: usize = 0;
    while i < prs.len()
        invariant
            i <= prs@.len(),
            texts(r@) == merged_authors(prs@.take(i as int)),
        decreases prs@.len() - i,
    {
        proof {
            assert(prs@.take(i as int + 1).drop_last() =~= prs@.take(i as int));
        }
        if prs[i].is_merged() {
            let name = prs[i].thread.author.clone();
            proof {
                assert(texts(r@.push(name)) =~= texts(r@).push(name@));
            }
            r.push(name);
        }
        i = i + 1;
    }
    proof {
        assert(prs@.take(i as int) =~= prs@);
    }
    r
}

fn commits_by_author(prs: &Vec<PR>) -> (r: Tally)
    requires
        forall|k: Seq<char>| #[trigger] count_in(commit_totals(prs@), k) <= usize::MAX,
    ensures
        r@ == commit_totals(prs@),
{
    let mut r = Tally::new();
    let mut i: usize = 0;
    while i < prs.len()
        invariant
            i <= prs@.len(),
            forall|k: Seq<char>| #[trigger] count_in(commit_totals(prs@), k) <= usize::MAX,
            r@ == commit_totals(prs@.take(i as int)),
        decreases prs@.len() - i,
    {
        proof {
            assert(prs@.take(i as int + 1).drop_last() =~= prs@.take(i as int));
        }
        if prs[i].is_merged() {
            let name = prs[i].thread.author.clone();
            proof {
                lemma_commit_prefix(prs@, i as int + 1, name@);
                assert(count_in(commit_totals(prs@), name@) <= usize::MAX);
            }
            r.add(name, prs[i].commits);
        }
        i = i + 1;
    }
    proof {
        assert(prs@.take(i as int) =~= prs@);
    }
    r
}

fn issue_comments_by_author(issues: &Vec<Issue>) -> (r: Tally)
    requires
        forall|k: Seq<char>| #[trigger] count_in(comment_totals(issue_view(issues@)), k) <= usize::MAX,
    ensures
        r@ == comment_totals(issue_view(issues@)),
{
    let ghost ts = issue_view(issues@);
    let mut r = Tally::new();
    let mut i: usize = 0;
    while i < issues.len()
        invariant
            i <= issues@.len(),
            ts == issue_view(issues@),
            forall|k: Seq<char>| #[trigger] count_in(comment_totals(ts), k) <= usize::MAX,
            r@ == comment_totals(ts.take(i as int)),
        decreases issues@.len() - i,
    {
        proof {
            assert(ts.take(i as int + 1).drop_last() =~= ts.take(i as int));
            assert forall|k: Seq<char>|
                count_in(r@, k) + count_in(issues@[i as int].0.comments@, k) <= usize::MAX by {
                lemma_comment_prefix(ts, i as int + 1, k);
                lemma_sum_count(r@, issues@[i as int].0.comments@, k);
                assert(count_in(comment_totals(ts), k) <= usize::MAX);
            }
        }
        r.merge(&issues[i].0.comments);
        i = i + 1;
    }
    proof {
        assert(ts.take(i as int) =~= ts);
    }
    r
}

fn pr_comments_by_author(prs: &Vec<PR>) -> (r: Tally)
    requires
        forall|k: Seq<char>| #[trigger] count_in(comment_totals(pr_view(prs@)), k) <= usize::MAX,
    ensures
        r@ == comment_totals(pr_view(prs@)),
{
    let ghost ts = pr_view(prs@);
    let mut r = Tally::new();
    let mut i: usize = 0;
    while i < prs.len()
        invariant
            i <= prs@.len(),
            ts == pr_view(prs@),
            forall|k: Seq<char>| #[trigger] count_in(comment_totals(ts), k) <= usize::MAX,
            r@ == comment_totals(ts.take(i as int)),
        decreases prs@.len() - i,
    {
        proof {
            assert(ts.take(i as int + 1).drop_last() =~= ts.take(i as int));
            assert forall|k: Seq<char>|
                count_in(r@, k) + count_in(prs@[i as int].thread.comments@, k) <= usize::MAX by {
                lemma_comment_prefix(ts, i as int + 1, k);
                lemma_sum_count(r@, prs@[i as int].thread.comments@, k);
                assert(count_in(comment_totals(ts), k) <= usize::MAX);
            }
        }
        r.merge(&prs[i].thread.comments);
        i = i + 1;
    }
    proof {
        assert(ts.take(i as int) =~= ts);
    }
    r
}

/// No distribution without data: the times to an event are absent exactly
/// when no thread reached it, and never a zero-valued placeholder.
pub proof fn lemma_times_absent_iff_none(evs: Seq<(Timestamp, Option<Timestamp>)>)
    ensures
        times_of(delays(evs)) is None <==> happened(evs) == 0,
{
}

proof fn lemma_comment_totals_append(s1: Seq<Thread>, s2: Seq<Thread>, k: Seq<char>)
    ensures
        count_in(comment_totals(s1 + s2), k) == count_in(comment_totals(s1), k) + count_in(
            comment_totals(s2),
            k,
        ),
    decreases s2.len(),
{
    if s2.len() == 0 {
        assert(s1 + s2 =~= s1);
    } else {
        lemma_comment_totals_append(s1, s2.drop_last(), k);
        assert((s1 + s2).drop_last() =~= s1 + s2.drop_last());
        lemma_sum_count(comment_totals(s1 + s2.drop_last()), s2.last().comments@, k);
        lemma_sum_count(comment_totals(s2.drop_last()), s2.last().comments@, k);
    }
}

/// Combining the postings of two repositories double-counts nothing: the
/// combined postings hold the issues and pull requests of both, and each
/// commenter's total is the sum of their totals in each.
pub proof fn lemma_combine_adds(a: Postings, b: Postings, k: Seq<char>)
    ensures
        (a.issues@ + b.issues@).len() == a.issues@.len() + b.issues@.len(),
        (a.prs@ + b.prs@).len() == a.prs@.len() + b.prs@.len(),
        count_in(commentor_totals(a.issues@ + b.issues@, a.prs@ + b.prs@), k) == count_in(
            commentor_totals(a.issues@, a.prs@),
            k,
        ) + count_in(commentor_totals(b.issues@, b.prs@), k),
{
    assert(issue_view(a.issues@ + b.issues@) =~= issue_view(a.issues@) + issue_view(b.issues@));
    assert(pr_view(a.prs@ + b.prs@) =~= pr_view(a.prs@) + pr_view(b.prs@));
    lemma_comment_totals_append(issue_view(a.issues@), issue_view(b.issues@), k);
    lemma_comment_totals_append(pr_view(a.prs@), pr_view(b.prs@), k);
    lemma_sum_count(
        comment_totals(issue_view(a.issues@ + b.issues@)),
        comment_totals(pr_view(a.prs@ + b.prs@)),
        k,
    );
    lemma_sum_count(comment_totals(issue_view(a.issues@)), comment_totals(pr_view(a.prs@)), k);
    lemma_sum_count(comment_totals(issue_view(b.issues@)), comment_totals(pr_view(b.prs@)), k);
}

/// The postings among the results that arrived, in order.
pub open spec fn successes<E>(rs: Seq<Result<Postings, E>>) -> Seq<Postings>
    decreases rs.len(),
{
    if rs.len() == 0 {
        Seq::empty()
    } else {
        let rest = successes(rs.drop_last());
        match rs.last() {
            Ok(p) => rest.push(p),
            Err(_) => rest,
        }
    }
}

/// The errors among the results, in order.
pub open spec fn failures<E>(rs: Seq<Result<Postings, E>>) -> Seq<E>
    decreases rs.len(),
{
    if rs.len() == 0 {
        Seq::empty()
    } else {
        let rest = failures(rs.drop_last());
        match rs.last() {
            Ok(_) => rest,
            Err(e) => rest.push(e),
        }
    }
}

/// The issues of all the postings, one after another.
pub open spec fn issues_of(ps: Seq<Postings>) -> Seq<Issue>
    decreases ps.len(),
{
    if ps.len() == 0 {
        Seq::empty()
    } else {
        issues_of(ps.drop_last()) + ps.last().issues@
    }
}

/// The pull requests of all the postings, one after another.
pub open spec fn prs_of(ps: Seq<Postings>) -> Seq<PR>
    decreases ps.len(),
{
    if ps.len() == 0 {
        Seq::empty()
    } else {
        prs_of(ps.drop_last()) + ps.last().prs@
    }
}

/// Sorts the results of several repositories: the postings of those that
/// arrived, combined in order, and the errors of those that failed, in
/// order. A failure does not drop the others; where none arrived there are
/// no postings, not empty ones.
pub fn gather<E>(results: Vec<Result<Postings, E>>) -> (r: (Option<Postings>, Vec<E>))
    ensures
        r.1@ == failures(results@),
        r.0 is Some <==> successes(results@).len() > 0,
        r.0 matches Some(p) ==> p.issues@ == issues_of(successes(results@)) && p.prs@ == prs_of(
            successes(results@),
        ),
{
    let ghost all = results@;
    let n: usize = results.len();
    let mut rest = results;
    let mut acc: Option<Postings> = None;
    let mut errors: Vec<E> = Vec::new();
    let mut k: usize = 0;
    while rest.len() > 0
        invariant
            all.len() == n,
            k + rest@.len() == n,
            rest@ == all.skip(k as int),
            errors@ == failures(all.take(k as int)),
            acc is Some <==> successes(all.take(k as int)).len() > 0,
            acc matches Some(p) ==> p.issues@ == issues_of(successes(all.take(k as int)))
                && p.prs@ == prs_of(successes(all.take(k as int))),
        decreases rest@.len(),
    {
        let x = rest.remove(0);
        proof {
            assert(x == all[k as int]);
            assert(rest@ =~= all.skip(k as int + 1));
            assert(all.take(k as int + 1).drop_last() =~= all.take(k as int));
        }
        match x {
            Ok(p) => {
                let ghost before = successes(all.take(k as int));
                proof {
                    assert(successes(all.take(k as int + 1)) == before.push(p));
                    assert(before.push(p).drop_last() =~= before);
                }
                acc = match acc {
                    Some(a) => Some(a.combine(p)),
                    None => {
                        proof {
                            assert(issues_of(before) =~= Seq::<Issue>::empty());
                            assert(prs_of(before) =~= Seq::<PR>::empty());
                            assert(Seq::<Issue>::empty() + p.issues@ =~= p.issues@);
                            assert(Seq::<PR>::empty() + p.prs@ =~= p.prs@);
                        }
                        Some(p)
                    },
                };
            },
            Err(e) => {
                errors.push(e);
            },
        }
        k = k + 1;
    }
    proof {
        assert(all.take(k as int) =~= all);
    }
    (acc, errors)
}

/// The issues and pull requests of one or more repositories.
pub struct Postings {
    pub issues: Vec<Issue>,
    pub prs: Vec<PR>,
}

/// Statistics of the issues and pull requests of one or more repositories.
///
/// An "official" response is one from a repository owner, an organization
/// member or an invited collaborator. Times are in seconds.
pub struct Statistics {
    /// Comments per commenter, over all issues and pull requests.
    pub commentors: Tally,
    /// Merged pull requests per author.
    pub code_contributors: Tally,
    /// Commits in merged pull requests per author.
    pub contributor_commits: Tally,
    /// All issues, open or closed.
    pub all_issues: usize,
    /// Issues that have been closed.
    pub all_closed_issues: usize,
    /// Issues that received a response.
    pub issues_with_responses: usize,
    /// Issues that received an official response.
    pub issues_with_official_responses: usize,
    /// How long issues waited for a response.
    pub issue_first_resp_time: Option<ResponseTimes>,
    /// How long issues waited for an official response.
    pub issue_official_first_resp_time: Option<ResponseTimes>,
    /// All pull requests, open or closed.
    pub all_prs: usize,
    /// Pull requests that received a response.
    pub prs_with_responses: usize,
    /// Pull requests that received an official response.
    pub prs_with_official_responses: usize,
    /// How long pull requests waited for a response.
    pub pr_first_resp_time: Option<ResponseTimes>,
    /// How long pull requests waited for an official response.
    pub pr_official_first_resp_time: Option<ResponseTimes>,
    /// Pull requests that were merged.
    pub prs_merged: usize,
    /// Pull requests that were closed without being merged.
    pub prs_closed_without_merging: usize,
    /// How long pull requests took to be merged.
    pub pr_merge_time: Option<ResponseTimes>,
}

impl Postings {
    /// The per-author totals fit in `usize`: each commenter's comments over
    /// all threads, and each author's commits in merged pull requests.
    pub open spec fn totals_fit(self) -> bool {
        &&& forall|k: Seq<char>|
            #[trigger] count_in(comment_totals(issue_view(self.issues@)), k) + count_in(
                comment_totals(pr_view(self.prs@)),
                k,
            ) <= usize::MAX
        &&& forall|k: Seq<char>| #[trigger] count_in(commit_totals(self.prs@), k) <= usize::MAX
    }

    /// Whether the per-author totals fit in `usize`, as
    /// [`Postings::statistics`] needs.
    pub fn counts_fit(&self) -> (r: bool)
        ensures
            r == self.totals_fit(),
    {
        let ghost its = issue_view(self.issues@);
        let ghost pts = pr_view(self.prs@);
        let mut ic = Tally::new();
        let mut i: usize = 0;
        while i < self.issues.len()
            invariant
                i <= self.issues@.len(),
                its == issue_view(self.issues@),
                ic@ == comment_totals(its.take(i as int)),
            decreases self.issues@.len() - i,
        {
            proof {
                assert(its.take(i as int + 1).drop_last() =~= its.take(i as int));
            }
            let ghost before = ic@;
            if !ic.checked_merge(&self.issues[i].0.comments) {
                proof {
                    let k = choose|k: Seq<char>|
                        count_in(before, k) + count_in(self.issues@[i as int].0.comments@, k)
                            > usize::MAX;
                    lemma_sum_count(before, self.issues@[i as int].0.comments@, k);
                    lemma_comment_prefix(its, i as int + 1, k);
                }
                return false;
            }
            i = i + 1;
        }
        proof {
            assert(its.take(i as int) =~= its);
        }
        let mut pc = Tally::new();
        let mut j: usize = 0;
        while j < self.prs.len()
            invariant
                j <= self.prs@.len(),
                pts == pr_view(self.prs@),
                its == issue_view(self.issues@),
                ic@ == comment_totals(its),
                pc@ == comment_totals(pts.take(j as int)),
            decreases self.prs@.len() - j,
        {
            proof {
                assert(pts.take(j as int + 1).drop_last() =~= pts.take(j as int));
            }
            let ghost before = pc@;
            if !pc.checked_merge(&self.prs[j].thread.comments) {
                proof {
                    let k = choose|k: Seq<char>|
                        count_in(before, k) + count_in(self.prs@[j as int].thread.comments@, k)
                            > usize::MAX;
                    lemma_sum_count(before, self.prs@[j as int].thread.comments@, k);
                    lemma_comment_prefix(pts, j as int + 1, k);
                    assert(pts.take(j as int + 1).last() == self.prs@[j as int].thread);
                    assert(count_in(comment_totals(pts), k) > usize::MAX);
                    assert(count_in(comment_totals(issue_view(self.issues@)), k) + count_in(
                        comment_totals(pr_view(self.prs@)),
                        k,
                    ) > usize::MAX);
                }
                return false;
            }
            j = j + 1;
        }
        proof {
            assert(pts.take(j as int) =~= pts);
        }
        let ghost ic_view = ic@;
        if !ic.checked_merge(&pc) {
            proof {
                let k = choose|k: Seq<char>| count_in(ic_view, k) + count_in(pc@, k) > usize::MAX;
                assert(count_in(comment_totals(its), k) + count_in(comment_totals(pts), k) > usize::MAX);
            }
            return false;
        }
        let mut ct = Tally::new();
        let mut p: usize = 0;
        while p < self.prs.len()
            invariant
                p <= self.prs@.len(),
                ct@ == commit_totals(self.prs@.take(p as int)),
            decreases self.prs@.len() - p,
        {
            proof {
                assert(self.prs@.take(p as int + 1).drop_last() =~= self.prs@.take(p as int));
            }
            if self.prs[p].is_merged() {
                let name = self.prs[p].thread.author.clone();
                let have = ct.get(&name);
                if have > usize::MAX - self.prs[p].commits {
                    proof {
                        lemma_commit_prefix(self.prs@, p as int + 1, name@);
                        assert(count_in(commit_totals(self.prs@), name@) > usize::MAX);
                    }
                    return false;
                }
                ct.add(name, self.prs[p].commits);
            }
            p = p + 1;
        }
        proof {
            assert(self.prs@.take(p as int) =~= self.prs@);
            assert forall|k: Seq<char>| #[trigger] count_in(commit_totals(self.prs@), k) <= usize::MAX by {
                lemma_count_bounded(&ct, k);
            }
        }
        true
    }

    /// The issues and pull requests of both, those of `self` first.
    pub fn combine(self, other: Postings) -> (r: Postings)
        ensures
            r.issues@ == self.issues@ + other.issues@,
            r.prs@ == self.prs@ + other.prs@,
    {
        let mut issues = self.issues;
        let mut prs = self.prs;
        let mut more_issues = other.issues;
        let mut more_prs = other.prs;
        issues.append(&mut more_issues);
        prs.append(&mut more_prs);
        Postings { issues, prs }
    }

    /// Folds the issues and pull requests into their statistics.
    ///
    /// Counts are of the threads where the event occurred; times are
    /// measured from each thread's opening, and are absent where no thread
    /// reached the event.
    pub fn statistics(self) -> (r: Statistics)
        requires
            self.totals_fit(),
        ensures
            r.all_issues == self.issues@.len(),
            r.all_closed_issues == happened(events(issue_view(self.issues@), Milestone::Closed)),
            r.issues_with_responses == happened(
                events(issue_view(self.issues@), Milestone::Response),
            ),
            r.issues_with_official_responses == happened(
                events(issue_view(self.issues@), Milestone::OfficialResponse),
            ),
            r.issue_first_resp_time == times_of(
                delays(events(issue_view(self.issues@), Milestone::Response)),
            ),
            r.issue_official_first_resp_time == times_of(
                delays(events(issue_view(self.issues@), Milestone::OfficialResponse)),
            ),
            r.all_prs == self.prs@.len(),
            r.prs_with_responses == happened(events(pr_view(self.prs@), Milestone::Response)),
            r.prs_with_official_responses == happened(
                events(pr_view(self.prs@), Milestone::OfficialResponse),
            ),
            r.pr_first_resp_time == times_of(delays(events(pr_view(self.prs@), Milestone::Response))),
            r.pr_official_first_resp_time == times_of(
                delays(events(pr_view(self.prs@), Milestone::OfficialResponse)),
            ),
            r.prs_merged == happened(merge_events(self.prs@)),
            r.prs_closed_without_merging == closed_unmerged(self.prs@),
            r.pr_merge_time == times_of(delays(merge_events(self.prs@))),
            r.code_contributors@ == occurrences(merged_authors(self.prs@)),
            r.contributor_commits@ == commit_totals(self.prs@),
            r.commentors@ == commentor_totals(self.issues@, self.prs@),
    {
        let closed = issue_events(&self.issues, Milestone::Closed);
        let issue_any = issue_events(&self.issues, Milestone::Response);
        let issue_official = issue_events(&self.issues, Milestone::OfficialResponse);
        let pr_any = pr_events(&self.prs, Milestone::Response);
        let pr_official = pr_events(&self.prs, Milestone::OfficialResponse);
        let merges = pr_merge_events(&self.prs);
        let names = merged_author_names(&self.prs);
        proof {
            assert forall|k: Seq<char>|
                #[trigger] count_in(comment_totals(issue_view(self.issues@)), k) <= usize::MAX by {
                assert(count_in(comment_totals(issue_view(self.issues@)), k) + count_in(
                    comment_totals(pr_view(self.prs@)),
                    k,
                ) <= usize::MAX);
            }
            assert forall|k: Seq<char>|
                #[trigger] count_in(comment_totals(pr_view(self.prs@)), k) <= usize::MAX by {
                assert(count_in(comment_totals(issue_view(self.issues@)), k) + count_in(
                    comment_totals(pr_view(self.prs@)),
                    k,
                ) <= usize::MAX);
            }
        }
        let mut commentors = issue_comments_by_author(&self.issues);
        let pr_commentors = pr_comments_by_author(&self.prs);
        commentors.merge(&pr_commentors);
        Statistics {
            commentors,
            code_contributors: Tally::count(&names),
            contributor_commits: commits_by_author(&self.prs),
            all_issues: self.issues.len(),
            all_closed_issues: count_happened(&closed),
            issues_with_responses: count_happened(&issue_any),
            issues_with_official_responses: count_happened(&issue_official),
            issue_first_resp_time: resp_times(&issue_any),
            issue_official_first_resp_time: resp_times(&issue_official),
            all_prs: self.prs.len(),
            prs_with_responses: count_happened(&pr_any),
            prs_with_official_responses: count_happened(&pr_official),
            pr_first_resp_time: resp_times(&pr_any),
            pr_official_first_resp_time: resp_times(&pr_official),
            prs_merged: count_happened(&merges),
            prs_closed_without_merging: count_closed_unmerged(&self.prs),
            pr_merge_time: resp_times(&merges),
        }
    }
}

} // verus!
