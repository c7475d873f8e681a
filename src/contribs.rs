//! Users of a location and their contributions, as the user search of the
//! GraphQL API returns them, and the queries that ask for them.

use crate::github::Paged;
use crate::repo::{after_text, page_view};
use crate::text::{decimal, decimal_text};
use vstd::prelude::*;

verus! {

/// Users asked for per page of a user search.
pub const PAGE_SIZE: u32 = 5;

/// Pages of a user search fetched at most: enough for a thousand users.
pub const MAX_PAGES: u32 = 10 * (100 / PAGE_SIZE);

/// Times one page of a user search is tried before giving up.
pub const MAX_ATTEMPTS: u32 = 10;

/// A user found by a search, with their followers and contributions.
pub struct UserContribs {
    pub login: String,
    pub name: Option<String>,
    pub followers: Followers,
    pub contributions_collection: Contributions,
}

/// How many follow a user.
pub struct Followers {
    pub total_count: u32,
}

/// A user's contributions over the last year.
pub struct Contributions {
    pub contribution_calendar: Calendar,
    pub restricted_contributions_count: u32,
}

/// The contribution calendar's total, private contributions included.
pub struct Calendar {
    pub total_contributions: u32,
}

/// The answer to a user-count search.
pub struct UserCountQuery {
    pub search: UserCount,
}

/// How many users a search matched.
pub struct UserCount {
    pub user_count: u32,
}

/// A user's public contributions: the calendar's total less the private
/// ones it includes.
pub open spec fn public_contributions(u: UserContribs) -> int {
    u.contributions_collection.contribution_calendar.total_contributions
        - u.contributions_collection.restricted_contributions_count
}

/// The private contributions are counted within the calendar's total.
pub open spec fn counts_consistent(u: UserContribs) -> bool {
    u.contributions_collection.restricted_contributions_count
        <= u.contributions_collection.contribution_calendar.total_contributions
}

impl UserContribs {
    /// Whether the private contributions are counted within the total, as
    /// [`UserContribs::contribs`] needs.
    pub fn is_consistent(&self) -> (r: bool)
        ensures
            r == counts_consistent(*self),
    {
        self.contributions_collection.restricted_contributions_count
            <= self.contributions_collection.contribution_calendar.total_contributions
    }

    /// The user's public contributions.
    pub fn contribs(&self) -> (r: u32)
        requires
            counts_consistent(*self),
        ensures
            r == public_contributions(*self),
    {
        let total = self.contributions_collection.contribution_calendar.total_contributions;
        total - self.contributions_collection.restricted_contributions_count
    }
}

/// The request body that asks how many users give `location` as theirs.
pub open spec fn user_count_query_text(location: Seq<char>) -> Seq<char> {
    "{ \"query\": \"{ search(type: USER, query: \\\"type:user location:"@ + location
        + "\\\") { userCount } }\" }"@
}

/// The request body that asks for one page of the users of `location`,
/// most followed first, starting after the cursor `page` if one is given.
pub open spec fn users_query_text(location: Seq<char>, page: Option<Seq<char>>) -> Seq<char> {
    "{ \"query\": \"{ search(type: USER, query: \\\"type:user location:"@ + location
        + " sort:followers-desc\\\", first: "@ + decimal_text(PAGE_SIZE as nat) + after_text(page)
        + ") { pageInfo { hasNextPage endCursor } edges { node { ... on User { login name followers { totalCount } contributionsCollection { contributionCalendar { totalContributions } restrictedContributionsCount } } } } } }\" }"@
}

/// Builds the request body that asks how many users give `location` as
/// theirs.
pub fn user_count_query(location: &str) -> (r: String)
    ensures
        r@ == user_count_query_text(location@),
{
    let mut q = String::from_str("{ \"query\": \"{ search(type: USER, query: \\\"type:user location:");
    q.append(location);
    q.append("\\\") { userCount } }\" }");
    q
}

/// Builds the request body for one page of the users of `location`.
pub fn users_query(location: &str, page: Option<&str>) -> (r: String)
    ensures
        r@ == users_query_text(location@, page_view(page)),
{
    let mut q = String::from_str("{ \"query\": \"{ search(type: USER, query: \\\"type:user location:");
    q.append(location);
    q.append(" sort:followers-desc\\\", first: ");
    q.append(decimal(PAGE_SIZE as u64).as_str());
    let ghost before = q@;
    match page {
        Some(p) => {
            q.append(", after: \\\"");
            q.append(p);
            q.append("\\\"");
            assert(q@ =~= before + after_text(page_view(page)));
        },
        None => {
            assert(q@ =~= before + after_text(page_view(page)));
        },
    }
    q.append(
        ") { pageInfo { hasNextPage endCursor } edges { node { ... on User { login name followers { totalCount } contributionsCollection { contributionCalendar { totalContributions } restrictedContributionsCount } } } } } }\" }",
    );
    q
}

/// How many users the search matched.
pub fn user_count(answer: UserCountQuery) -> (r: UserCount)
    ensures
        r == answer.search,
{
    answer.search
}

/// Whether a page of users, most followed first, ends the search: it does
/// unless its last user has followers, since no later user would.
pub fn users_exhausted(page: &Paged<UserContribs>) -> (r: bool)
    ensures
        r == !(page.edges@.len() > 0 && page.edges@.last().node.followers.total_count > 0),
{
    let n = page.edges.len();
    if n == 0 {
        true
    } else {
        !(page.edges[n - 1].node.followers.total_count > 0)
    }
}

} // verus!
