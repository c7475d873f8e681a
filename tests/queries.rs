use credit::contribs::{user_count, user_count_query, users_query, UserCount, UserCountQuery};
use credit::repo::{issue_query, split_repo, Mode};
use credit::some::Someable;
use credit::text::decimal;
use credit::time::datetime;

#[test]
fn issue_query_first_page() {
    let q = issue_query(&Mode::Issues, "rust-lang", "rust", None);
    assert_eq!(
        q,
        "{ \"query\": \"{ repository(owner: \\\"rust-lang\\\", name: \\\"rust\\\") { issues(first: 100) { pageInfo { hasNextPage endCursor } edges { node { author { login } createdAt closedAt   comments(first: 100) { edges { node { author { login } authorAssociation createdAt } } } } } } } }\" }"
    );
}

#[test]
fn pull_request_query_with_cursor_and_commits() {
    let q = issue_query(&Mode::PRsWithCommits, "o", "r", Some("Y3Vy"));
    assert_eq!(
        q,
        "{ \"query\": \"{ repository(owner: \\\"o\\\", name: \\\"r\\\") { pullRequests(first: 100, after: \\\"Y3Vy\\\") { pageInfo { hasNextPage endCursor } edges { node { author { login } createdAt closedAt mergedAt commits { totalCount } comments(first: 100) { edges { node { author { login } authorAssociation createdAt } } } } } } } }\" }"
    );
    let q = issue_query(&Mode::PRs, "o", "r", None);
    assert!(q.contains("pullRequests(first: 100) {"));
    assert!(q.contains("closedAt mergedAt  comments"));
}

#[test]
fn mode_fields() {
    assert_eq!(Mode::Issues.graph_call(), "issues");
    assert_eq!(Mode::PRs.graph_call(), "pullRequests");
    assert_eq!(Mode::Issues.merged_field(), "");
    assert_eq!(Mode::PRsWithCommits.merged_field(), "mergedAt");
    assert_eq!(Mode::PRs.commits(), "");
    assert_eq!(Mode::PRsWithCommits.commits(), "commits { totalCount }");
}

#[test]
fn user_queries() {
    assert_eq!(
        user_count_query("Japan"),
        "{ \"query\": \"{ search(type: USER, query: \\\"type:user location:Japan\\\") { userCount } }\" }"
    );
    assert_eq!(
        users_query("Japan", Some("abc")),
        "{ \"query\": \"{ search(type: USER, query: \\\"type:user location:Japan sort:followers-desc\\\", first: 5, after: \\\"abc\\\") { pageInfo { hasNextPage endCursor } edges { node { ... on User { login name followers { totalCount } contributionsCollection { contributionCalendar { totalContributions } restrictedContributionsCount } } } } } }\" }"
    );
    assert!(users_query("Japan", None).contains("first: 5) {"));
    let answer = UserCountQuery { search: UserCount { user_count: 77 } };
    assert_eq!(user_count(answer).user_count, 77);
}

#[test]
fn repositories_split_at_slash() {
    assert_eq!(split_repo("rust-lang/rust"), Some(("rust-lang".to_string(), "rust".to_string())));
    assert_eq!(split_repo("a/b/c"), Some(("a".to_string(), "b".to_string())));
    assert_eq!(split_repo("a/"), Some(("a".to_string(), "".to_string())));
    assert_eq!(split_repo("norepo"), None);
    assert_eq!(split_repo(""), None);
}

#[test]
fn dates_start_at_midnight_utc() {
    assert_eq!(datetime("1970-01-01").unwrap().seconds_since_epoch(), 0);
    assert_eq!(datetime("2020-01-02").unwrap().seconds_since_epoch(), 1_577_923_200);
    assert!(datetime("2020-13-01").is_none());
    assert!(datetime("yesterday").is_none());
}

#[test]
fn decimals() {
    assert_eq!(decimal(0), "0");
    assert_eq!(decimal(7), "7");
    assert_eq!(decimal(1234567890), "1234567890");
    assert_eq!(decimal(u64::MAX), "18446744073709551615");
}

#[test]
fn bool_some() {
    assert_eq!(true.bool_some(3), Some(3));
    assert_eq!(false.bool_some(3), None);
}
