//! Issues and pull requests as the GraphQL API returns them, and the query
//! that asks for one page of them.

use crate::github::{
    concat_items, continues, fresh_walk, lemma_walk_stops_early, page_model, walk, Edges, PageModel, Paged,
};
use crate::time::Timestamp;
use vstd::prelude::*;

verus! {

/// An issue or a pull request as one page of a query returns it; the merge
/// time and commit count come only with pull requests that asked for them.
pub struct Issue {
    pub author: Option<Author>,
    pub created_at: Timestamp,
    pub closed_at: Option<Timestamp>,
    pub merged_at: Option<Timestamp>,
    pub comments: Edges<Comment>,
    pub commits: Option<CommitCount>,
}

/// A GitHub account.
pub struct Author {
    pub login: String,
}

/// A comment on an issue or a pull request; a deleted account leaves
/// `author` empty.
pub struct Comment {
    pub author: Option<Author>,
    pub author_association: Association,
    pub created_at: Timestamp,
}

/// How many commits a pull request holds.
pub struct CommitCount {
    pub total_count: usize,
}

/// The page that a repository query returns, under the field that the
/// query asked for.
pub enum Issues {
    Issue { issues: Paged<Issue> },
    PullRequest { pull_requests: Paged<Issue> },
}

impl Issues {
    /// The page, whichever field it came under.
    pub fn page(self) -> (r: Paged<Issue>)
        ensures
            r == match self {
                Issues::Issue { issues } => issues,
                Issues::PullRequest { pull_requests } => pull_requests,
            },
    {
        match self {
            Issues::Issue { issues } => issues,
            Issues::PullRequest { pull_requests } => pull_requests,
        }
    }
}

/// What a repository query asks for.
#[derive(Clone, Copy, Debug, PartialEq, Eq, Structural)]
pub enum Mode {
    Issues,
    PRs,
    PRsWithCommits,
}

/// The connection that a query in `mode` walks.
pub open spec fn graph_call_text(mode: Mode) -> Seq<char> {
    match mode {
        Mode::Issues => "issues"@,
        _ => "pullRequests"@,
    }
}

/// The field that asks for the merge time, where `mode` has one.
pub open spec fn merged_field_text(mode: Mode) -> Seq<char> {
    match mode {
        Mode::Issues => ""@,
        _ => "mergedAt"@,
    }
}

/// The field that asks for the commit count, where `mode` wants it.
pub open spec fn commits_text(mode: Mode) -> Seq<char> {
    match mode {
        Mode::PRsWithCommits => "commits { totalCount }"@,
        _ => ""@,
    }
}

impl Mode {
    /// The connection that a query in this mode walks.
    pub fn graph_call(&self) -> (r: &'static str)
        ensures
            r@ == graph_call_text(*self),
    {
        match self {
            Mode::Issues => "issues",
            _ => "pullRequests",
        }
    }

    /// The field that asks for the merge time; empty for issues.
    pub fn merged_field(&self) -> (r: &'static str)
        ensures
            r@ == merged_field_text(*self),
    {
        match self {
            Mode::Issues => "",
            _ => "mergedAt",
        }
    }

    /// The field that asks for the commit count; empty unless it is wanted.
    pub fn commits(&self) -> (r: &'static str)
        ensures
            r@ == commits_text(*self),
    {
        match self {
            Mode::PRsWithCommits => "commits { totalCount }",
            _ => "",
        }
    }
}

/// The clause that starts a page after `page`, if a cursor is given.
pub open spec fn after_text(page: Option<Seq<char>>) -> Seq<char> {
    match page {
        Some(p) => ", after: \\\""@ + p + "\\\""@,
        None => Seq::empty(),
    }
}

/// The request body that asks for one page of a repository's issues or
/// pull requests, a hundred to the page, each with its first hundred
/// comments. Owner, name and cursor go in as given.
pub open spec fn issue_query_text(
    mode: Mode,
    owner: Seq<char>,
    repo: Seq<char>,
    page: Option<Seq<char>>,
) -> Seq<char> {
    "{ \"query\": \"{ repository(owner: \\\""@ + owner + "\\\", name: \\\""@ + repo
        + "\\\") { "@ + graph_call_text(mode) + "(first: 100"@ + after_text(page)
        + ") { pageInfo { hasNextPage endCursor } edges { node { author { login } createdAt closedAt "@
        + merged_field_text(mode) + " "@ + commits_text(mode)
        + " comments(first: 100) { edges { node { author { login } authorAssociation createdAt } } } } } } } }\" }"@
}

/// The optional text of a borrowed cursor.
pub open spec fn page_view(page: Option<&str>) -> Option<Seq<char>> {
    match page {
        Some(p) => Some(p@),
        None => None,
    }
}

/// Builds the request body for one page of a repository's issues or pull
/// requests, starting after the cursor `page` if one is given.
pub fn issue_query(mode: &Mode, owner: &str, repo: &str, page: Option<&str>) -> (r: String)
    ensures
        r@ == issue_query_text(*mode, owner@, repo@, page_view(page)),
{
    let mut q = String::from_str("{ \"query\": \"{ repository(owner: \\\"");
    q.append(owner);
    q.append("\\\", name: \\\"");
    q.append(repo);
    q.append("\\\") { ");
    q.append(mode.graph_call());
    q.append("(first: 100");
    let ghost before = q@;
    match page {
        Some(p) => {
            q.append(", after: \\\"");
            q.append(p);
            q.append("\\\"");
            assert(q@ =~= before + after_text(page_view(page)));
        },
        None => {
            assert(q@ =~= before + after_text(page_view(page)));
        },
    }
    q.append(
        ") { pageInfo { hasNextPage endCursor } edges { node { author { login } createdAt closedAt ",
    );
    q.append(mode.merged_field());
    q.append(" ");
    q.append(mode.commits());
    q.append(
        " comments(first: 100) { edges { node { author { login } authorAssociation createdAt } } } } } } } }\" }",
    );
    q
}

/// A page of issues runs past `end`: its last issue was opened after it.
pub open spec fn runs_past(end: Option<Timestamp>, page: Paged<Issue>) -> bool {
    end matches Some(e) && page.edges@.len() > 0 && page.edges@.last().node.created_at.seconds()
        > e.seconds()
}

/// Whether a page of issues runs past the end of the requested range: its
/// last issue was opened after `end`. Pages come oldest first, so no later
/// page can hold an issue in range.
pub fn past_end(end: &Option<Timestamp>, page: &Paged<Issue>) -> (r: bool)
    ensures
        r == runs_past(*end, *page),
{
    match end {
        Some(e) => {
            let n = page.edges.len();
            if n == 0 {
                false
            } else {
                page.edges[n - 1].node.created_at.seconds_since_epoch() > e.seconds_since_epoch()
            }
        },
        None => false,
    }
}

/// The pages as a walk sees them when each is tested with [`past_end`].
pub open spec fn bounded_pages(end: Option<Timestamp>, ps: Seq<Paged<Issue>>) -> Seq<
    PageModel<Issue>,
> {
    Seq::new(ps.len(), |i: int| page_model(ps[i], runs_past(end, ps[i])))
}

/// Early stop at a date boundary: where each page is tested with
/// [`past_end`], the walk ends right after the first page that runs past
/// the boundary. It holds the issues of that page and those before it, and
/// takes no later page.
pub proof fn lemma_stops_past_end(
    max_pages: nat,
    max_attempts: nat,
    end: Timestamp,
    ps: Seq<Paged<Issue>>,
    k: int,
)
    requires
        0 <= k < ps.len(),
        k < max_pages,
        runs_past(Some(end), ps[k]),
        forall|i: int|
            0 <= i < k ==> (#[trigger] ps[i]).page_info.has_next_page
                && ps[i].page_info.end_cursor is Some && !runs_past(Some(end), ps[i]),
    ensures
        walk(fresh_walk::<Issue>(max_pages, max_attempts), bounded_pages(Some(end), ps)) == walk(
            fresh_walk::<Issue>(max_pages, max_attempts),
            bounded_pages(Some(end), ps).take(k + 1),
        ),
        walk(fresh_walk::<Issue>(max_pages, max_attempts), bounded_pages(Some(end), ps)).done,
        walk(fresh_walk::<Issue>(max_pages, max_attempts), bounded_pages(Some(end), ps)).items
            == concat_items(bounded_pages(Some(end), ps).take(k + 1)),
{
    let models = bounded_pages(Some(end), ps);
    assert forall|i: int| 0 <= i < k implies continues(#[trigger] models[i]) by {
        assert(models[i] == page_model(ps[i], runs_past(Some(end), ps[i])));
    }
    lemma_walk_stops_early(max_pages, max_attempts, models, k);
}

/// Where the first `/` at or after `i` stands, or the length where there is
/// none.
pub open spec fn slash_from(s: Seq<char>, i: int) -> int
    decreases s.len() - i,
{
    if i < 0 || i >= s.len() {
        s.len() as int
    } else if s[i] == '/' {
        i
    } else {
        slash_from(s, i + 1)
    }
}

/// The owner and name in `owner/name`: the text before the first `/`, and
/// the text after it up to the next `/` or the end. `None` without a `/`.
pub open spec fn split_repo_text(s: Seq<char>) -> Option<(Seq<char>, Seq<char>)> {
    let a = slash_from(s, 0);
    if a >= s.len() {
        None
    } else {
        Some((s.subrange(0, a), s.subrange(a + 1, slash_from(s, a + 1))))
    }
}

proof fn lemma_slash_from_bounds(s: Seq<char>, i: int)
    requires
        0 <= i <= s.len(),
    ensures
        i <= slash_from(s, i) <= s.len(),
    decreases s.len() - i,
{
    if i < s.len() && s[i] != '/' {
        lemma_slash_from_bounds(s, i + 1);
    }
}

fn find_slash(s: &str, from: usize) -> (r: usize)
    requires
        from <= s@.len(),
    ensures
        r == slash_from(s@, from as int),
{
    proof {
        lemma_slash_from_bounds(s@, from as int);
    }
    let n = s.unicode_len();
    let mut i = from;
    while i < n
        invariant
            from <= i <= n,
            n == s@.len(),
            slash_from(s@, from as int) == slash_from(s@, i as int),
        decreases n - i,
    {
        if s.get_char(i) == '/' {
            return i;
        }
        i = i + 1;
    }
    i
}

/// Splits `owner/name` into its owner and name; `None` without a `/`.
pub fn split_repo(repo: &str) -> (r: Option<(String, String)>)
    ensures
        match (r, split_repo_text(repo@)) {
            (Some((o, p)), Some((ot, pt))) => o@ == ot && p@ == pt,
            (None, None) => true,
            _ => false,
        },
{
    let n = repo.unicode_len();
    let a = find_slash(repo, 0);
    if a >= n {
        return None;
    }
    let b = find_slash(repo, a + 1);
    proof {
        lemma_slash_from_bounds(repo@, a as int + 1);
    }
    let owner = String::from_str(repo.substring_char(0, a));
    let name = String::from_str(repo.substring_char(a + 1, b));
    Some((owner, name))
}

/// A commenter's standing in the repository.
#[derive(Clone, Copy, Debug, PartialEq, Eq, Structural)]
pub enum Association {
    Owner,
    Member,
    Collaborator,
    Contributor,
    Author,
    /// No standing in the repository (GitHub's `NONE`).
    Unassociated,
}

impl Association {
    /// Owners, members and collaborators answer for the project.
    pub open spec fn spec_is_official(&self) -> bool {
        self is Owner || self is Member || self is Collaborator
    }

    /// The commenter opened the thread.
    pub open spec fn spec_is_author(&self) -> bool {
        self is Author
    }

    /// Whether the commenter answers for the project: an owner, a member or
    /// a collaborator.
    #[verifier::when_used_as_spec(spec_is_official)]
    pub fn is_official(&self) -> (r: bool)
        ensures
            r == self.spec_is_official(),
    {
        match self {
            Association::Owner => true,
            Association::Member => true,
            Association::Collaborator => true,
            _ => false,
        }
    }

    /// Whether the commenter opened the thread.
    #[verifier::when_used_as_spec(spec_is_author)]
    pub fn is_author(&self) -> (r: bool)
        ensures
            r == self.spec_is_author(),
    {
        match self {
            Association::Author => true,
            _ => false,
        }
    }
}

} // verus!
