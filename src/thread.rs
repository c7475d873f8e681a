//! Threads of conversation: who opened an issue or pull request, who
//! answered first and when, and who commented how often.

use crate::github::{into_nodes, nodes_of};
use crate::repo::{self, Author, Comment};
use crate::tally::{occurrences, texts, Tally};
use crate::time::Timestamp;
use vstd::prelude::*;

verus! {

/// The login under which a deleted or unresolvable account is counted.
pub const GHOST: &'static str = "@ghost";

/// The login of an account, or [`GHOST`] where there is none.
pub open spec fn login_of(author: Option<Author>) -> Seq<char> {
    match author {
        Some(a) => a.login@,
        None => GHOST@,
    }
}

/// The text of an optional login.
pub open spec fn name_view(name: Option<String>) -> Option<Seq<char>> {
    match name {
        Some(s) => Some(s@),
        None => None,
    }
}

/// Whether a comment answers the thread: for `official`, it comes from
/// someone who answers for the project; otherwise from anyone but the
/// thread's opener.
pub open spec fn answers(c: Comment, official: bool) -> bool {
    if official {
        c.author_association.is_official()
    } else {
        !c.author_association.is_author()
    }
}

/// The first comment at or after `i` that answers the thread.
pub open spec fn first_answer(cs: Seq<Comment>, i: int, official: bool) -> Option<int>
    decreases cs.len() - i,
{
    if i < 0 || i >= cs.len() {
        None
    } else if answers(cs[i], official) {
        Some(i)
    } else {
        first_answer(cs, i + 1, official)
    }
}

/// When the thread was first answered, if it was.
pub open spec fn answered_at(cs: Seq<Comment>, official: bool) -> Option<Timestamp> {
    match first_answer(cs, 0, official) {
        Some(i) => Some(cs[i].created_at),
        None => None,
    }
}

/// Who answered the thread first, if anyone did.
pub open spec fn first_answerer(cs: Seq<Comment>) -> Option<Seq<char>> {
    match first_answer(cs, 0, false) {
        Some(i) => Some(login_of(cs[i].author)),
        None => None,
    }
}

/// The login of each comment's author, in order.
pub open spec fn commenters(cs: Seq<Comment>) -> Seq<Seq<char>> {
    cs.map_values(|c: Comment| login_of(c.author))
}

/// A thread of conversation on GitHub, that of an issue or of a pull
/// request.
pub struct Thread {
    /// Who opened the thread.
    pub author: String,
    /// When the thread was opened.
    pub posted: Timestamp,
    /// When the thread was closed, if it is.
    pub closed: Option<Timestamp>,
    /// Who answered first, if anyone did.
    pub first_responder: Option<String>,
    /// When the first answer came, if one did.
    pub first_response: Option<Timestamp>,
    /// When someone who answers for the project first commented, if anyone
    /// did.
    pub first_official_response: Option<Timestamp>,
    /// How many comments each participant left.
    pub comments: Tally,
}

/// `t` is the thread that `issue` describes: opener, times, first answers
/// and comment counts are read from it as [`issue_thread`] reads them.
pub open spec fn classified(t: Thread, issue: repo::Issue) -> bool {
    let cs = nodes_of(issue.comments.edges@);
    &&& t.author@ == login_of(issue.author)
    &&& t.posted == issue.created_at
    &&& t.closed == issue.closed_at
    &&& name_view(t.first_responder) == first_answerer(cs)
    &&& t.first_response == answered_at(cs, false)
    &&& t.first_official_response == answered_at(cs, true)
    &&& t.comments@ == occurrences(commenters(cs))
}

/// The login of an account, or [`GHOST`] where there is none.
pub fn ghost(author: &Option<Author>) -> (r: String)
    ensures
        r@ == login_of(*author),
{
    match author {
        Some(a) => a.login.clone(),
        None => String::from_str(GHOST),
    }
}

/// Where the first comment that answers the thread stands, or `cs.len()`.
fn find_answer(cs: &Vec<Comment>, official: bool) -> (r: usize)
    ensures
        r <= cs@.len(),
        first_answer(cs@, 0, official) == if r < cs@.len() {
            Some(r as int)
        } else {
            None::<int>
        },
{
    let mut i: usize = 0;
    while i < cs.len()
        invariant
            i <= cs@.len(),
            first_answer(cs@, 0, official) == first_answer(cs@, i as int, official),
        decreases cs@.len() - i,
    {
        let hit = if official {
            cs[i].author_association.is_official()
        } else {
            !cs[i].author_association.is_author()
        };
        if hit {
            return i;
        }
        i = i + 1;
    }
    i
}

/// Reads the thread of an issue or pull request from its comments, which
/// come oldest first.
///
/// The first response is the first comment not by the thread's opener, so
/// that an opener's own follow-up does not count as an answer. The first
/// official response is sought from the start again, among comments of
/// owners, members and collaborators. Comments without an author count
/// under [`GHOST`].
pub fn issue_thread(issue: repo::Issue) -> (r: Thread)
    ensures
        classified(r, issue),
{
    let ghost cs_view = nodes_of(issue.comments.edges@);
    let author = ghost(&issue.author);
    let cs = into_nodes(issue.comments.edges);
    let first = find_answer(&cs, false);
    let official = find_answer(&cs, true);
    let (first_responder, first_response) = if first < cs.len() {
        (Some(ghost(&cs[first].author)), Some(cs[first].created_at))
    } else {
        (None, None)
    };
    let first_official_response = if official < cs.len() {
        Some(cs[official].created_at)
    } else {
        None
    };
    let mut names: Vec<String> = Vec::new();
    let mut i: usize = 0;
    while i < cs.len()
        invariant
            i <= cs@.len(),
            texts(names@) == commenters(cs@).take(i as int),
        decreases cs@.len() - i,
    {
        let name = ghost(&cs[i].author);
        proof {
            assert(texts(names@.push(name)) =~= texts(names@).push(name@));
            assert(commenters(cs@).take(i as int + 1) =~= commenters(cs@).take(i as int).push(
                login_of(cs@[i as int].author),
            ));
        }
        names.push(name);
        i = i + 1;
    }
    proof {
        assert(commenters(cs@).take(i as int) =~= commenters(cs@));
    }
    let comments = Tally::count(&names);
    Thread {
        author,
        posted: issue.created_at,
        closed: issue.closed_at,
        first_responder,
        first_response,
        first_official_response,
        comments,
    }
}

/// The first response skips the opener: where the opener commented first
/// and someone else second, the second commenter is the first responder,
/// and their comment the first response.
pub proof fn lemma_skips_opener(t: Thread, issue: repo::Issue)
    requires
        classified(t, issue),
        nodes_of(issue.comments.edges@).len() >= 2,
        nodes_of(issue.comments.edges@)[0].author_association.is_author(),
        !nodes_of(issue.comments.edges@)[1].author_association.is_author(),
    ensures
        name_view(t.first_responder) == Some(login_of(nodes_of(issue.comments.edges@)[1].author)),
        t.first_response == Some(nodes_of(issue.comments.edges@)[1].created_at),
{
    let cs = nodes_of(issue.comments.edges@);
    assert(first_answer(cs, 1, false) == Some(1int));
    assert(first_answer(cs, 0, false) == Some(1int));
}

/// The first official response is sought on its own: where an unofficial
/// reply by someone other than the opener came first and an official one
/// second, the first response is the first comment and the first official
/// response the second.
pub proof fn lemma_official_independent(t: Thread, issue: repo::Issue)
    requires
        classified(t, issue),
        nodes_of(issue.comments.edges@).len() >= 2,
        !nodes_of(issue.comments.edges@)[0].author_association.is_author(),
        !nodes_of(issue.comments.edges@)[0].author_association.is_official(),
        nodes_of(issue.comments.edges@)[1].author_association.is_official(),
    ensures
        t.first_response == Some(nodes_of(issue.comments.edges@)[0].created_at),
        t.first_official_response == Some(nodes_of(issue.comments.edges@)[1].created_at),
{
    let cs = nodes_of(issue.comments.edges@);
    assert(first_answer(cs, 0, false) == Some(0int));
    assert(first_answer(cs, 1, true) == Some(1int));
    assert(first_answer(cs, 0, true) == Some(1int));
}

proof fn lemma_occurs_counted(names: Seq<Seq<char>>, i: int)
    requires
        0 <= i < names.len(),
    ensures
        occurrences(names).contains_key(names[i]),
        occurrences(names)[names[i]] >= 1,
    decreases names.len(),
{
    if i < names.len() - 1 {
        lemma_occurs_counted(names.drop_last(), i);
        assert(names.drop_last()[i] == names[i]);
    }
}

/// A comment whose author is gone is counted, under [`GHOST`]; and where it
/// is the first response, [`GHOST`] is the first responder.
pub proof fn lemma_ghost_counted(t: Thread, issue: repo::Issue, i: int)
    requires
        classified(t, issue),
        0 <= i < nodes_of(issue.comments.edges@).len(),
        nodes_of(issue.comments.edges@)[i].author is None,
    ensures
        t.comments@.contains_key(GHOST@),
        t.comments@[GHOST@] >= 1,
        first_answer(nodes_of(issue.comments.edges@), 0, false) == Some(i) ==> name_view(
            t.first_responder,
        ) == Some(GHOST@),
{
    let cs = nodes_of(issue.comments.edges@);
    assert(commenters(cs)[i] == GHOST@);
    lemma_occurs_counted(commenters(cs), i);
}

/// A GitHub issue.
pub struct Issue(pub Thread);

/// A GitHub pull request.
pub struct PR {
    pub thread: Thread,
    /// How many commits it holds; zero where they were not asked for.
    pub commits: usize,
    /// When it was merged, if it was.
    pub merged: Option<Timestamp>,
}

impl PR {
    /// Whether the pull request was merged.
    pub fn is_merged(&self) -> (r: bool)
        ensures
            r == self.merged is Some,
    {
        self.merged.is_some()
    }

    /// Whether the pull request was closed without being merged.
    pub fn is_closed_not_merged(&self) -> (r: bool)
        ensures
            r == (self.thread.closed is Some && self.merged is None),
    {
        self.thread.closed.is_some() && !self.is_merged()
    }
}

/// `t` falls within the optional bounds, both inclusive.
pub open spec fn within(t: Timestamp, start: Option<Timestamp>, end: Option<Timestamp>) -> bool {
    &&& start matches Some(s) ==> s.seconds() <= t.seconds()
    &&& end matches Some(e) ==> t.seconds() <= e.seconds()
}

/// The raw issues or pull requests opened within the bounds, in order.
pub open spec fn opened_within(
    raw: Seq<repo::Issue>,
    start: Option<Timestamp>,
    end: Option<Timestamp>,
) -> Seq<repo::Issue>
    decreases raw.len(),
{
    if raw.len() == 0 {
        Seq::empty()
    } else {
        let kept = opened_within(raw.drop_last(), start, end);
        if within(raw.last().created_at, start, end) {
            kept.push(raw.last())
        } else {
            kept
        }
    }
}

/// `p` is the pull request that `issue` describes.
pub open spec fn classified_pr(p: PR, issue: repo::Issue) -> bool {
    &&& classified(p.thread, issue)
    &&& p.merged == issue.merged_at
    &&& p.commits == match issue.commits {
        Some(c) => c.total_count,
        None => 0,
    }
}

fn is_within(t: Timestamp, start: &Option<Timestamp>, end: &Option<Timestamp>) -> (r: bool)
    ensures
        r == within(t, *start, *end),
{
    let after = match start {
        Some(s) => s.seconds_since_epoch() <= t.seconds_since_epoch(),
        None => true,
    };
    let before = match end {
        Some(e) => t.seconds_since_epoch() <= e.seconds_since_epoch(),
        None => true,
    };
    after && before
}

/// The issues among `raw` that were opened within the bounds (both
/// inclusive, either optional), read into threads, in order.
pub fn all_issues(
    raw: Vec<repo::Issue>,
    start: &Option<Timestamp>,
    end: &Option<Timestamp>,
) -> (r: Vec<Issue>)
    ensures
        r@.len() == opened_within(raw@, *start, *end).len(),
        forall|i: int|
            0 <= i < r@.len() ==> classified(#[trigger] r@[i].0, opened_within(raw@, *start, *end)[i]),
{
    let ghost all = raw@;
    let n: usize = raw.len();
    let mut rest = raw;
    let mut r: Vec<Issue> = Vec::new();
    let mut k: usize = 0;
    while rest.len() > 0
        invariant
            k + rest@.len() == all.len(),
            rest@ == all.skip(k as int),
            all.len() == n,
            r@.len() == opened_within(all.take(k as int), *start, *end).len(),
            forall|i: int|
                0 <= i < r@.len() ==> classified(#[trigger] r@[i].0, opened_within(all.take(k as int), *start, *end)[i]),
        decreases rest@.len(),
    {
        let x = rest.remove(0);
        proof {
            assert(x == all[k as int]);
            assert(rest@ =~= all.skip(k as int + 1));
            assert(all.take(k as int + 1).drop_last() =~= all.take(k as int));
        }
        if is_within(x.created_at, start, end) {
            r.push(Issue(issue_thread(x)));
        }
        k = k + 1;
    }
    proof {
        assert(all.take(k as int) =~= all);
    }
    r
}

/// The pull requests among `raw` that were opened within the bounds (both
/// inclusive, either optional), read into threads with their merge times
/// and commit counts, in order.
pub fn all_prs(
    raw: Vec<repo::Issue>,
    start: &Option<Timestamp>,
    end: &Option<Timestamp>,
) -> (r: Vec<PR>)
    ensures
        r@.len() == opened_within(raw@, *start, *end).len(),
        forall|i: int|
            0 <= i < r@.len() ==> classified_pr(#[trigger] r@[i], opened_within(raw@, *start, *end)[i]),
{
    let ghost all = raw@;
    let n: usize = raw.len();
    let mut rest = raw;
    let mut r: Vec<PR> = Vec::new();
    let mut k: usize = 0;
    while rest.len() > 0
        invariant
            k + rest@.len() == all.len(),
            rest@ == all.skip(k as int),
            all.len() == n,
            r@.len() == opened_within(all.take(k as int), *start, *end).len(),
            forall|i: int|
                0 <= i < r@.len() ==> classified_pr(#[trigger] r@[i], opened_within(all.take(k as int), *start, *end)[i]),
        decreases rest@.len(),
    {
        let x = rest.remove(0);
        proof {
            assert(x == all[k as int]);
            assert(rest@ =~= all.skip(k as int + 1));
            assert(all.take(k as int + 1).drop_last() =~= all.take(k as int));
        }
        if is_within(x.created_at, start, end) {
            let merged = x.merged_at;
            let commits = match &x.commits {
                Some(c) => c.total_count,
                None => 0,
            };
            let thread = issue_thread(x);
            r.push(PR { thread, commits, merged });
        }
        k = k + 1;
    }
    proof {
        assert(all.take(k as int) =~= all);
    }
    r
}

} // verus!
