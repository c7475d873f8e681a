use credit::github::{Edges, Node};
use credit::repo::{self, Association, Author, Comment, CommitCount};
use credit::thread::{all_issues, all_prs, ghost, issue_thread, GHOST};
use credit::Timestamp;

fn ts(secs: i64) -> Timestamp {
    Timestamp::from_seconds(secs).unwrap()
}

fn who(login: &str) -> Option<Author> {
    Some(Author { login: login.to_string() })
}

fn comment(author: Option<Author>, assoc: Association, at: i64) -> Comment {
    Comment { author, author_association: assoc, created_at: ts(at) }
}

fn raw(author: Option<Author>, created: i64, comments: Vec<Comment>) -> repo::Issue {
    repo::Issue {
        author,
        created_at: ts(created),
        closed_at: None,
        merged_at: None,
        comments: Edges { edges: comments.into_iter().map(|node| Node { node }).collect() },
        commits: None,
    }
}

#[test]
fn first_responder_skips_the_opener() {
    let issue = raw(
        who("opener"),
        0,
        vec![
            comment(who("opener"), Association::Author, 10),
            comment(who("helper"), Association::Contributor, 20),
        ],
    );
    let t = issue_thread(issue);
    assert_eq!(t.first_responder, Some("helper".to_string()));
    assert_eq!(t.first_response, Some(ts(20)));
    assert_eq!(t.first_official_response, None);
    assert_eq!(t.author, "opener");
}

#[test]
fn official_response_is_found_independently() {
    let issue = raw(
        who("opener"),
        0,
        vec![
            comment(who("visitor"), Association::Unassociated, 100),
            comment(who("maintainer"), Association::Member, 200),
        ],
    );
    let t = issue_thread(issue);
    assert_eq!(t.first_response, Some(ts(100)));
    assert_eq!(t.first_official_response, Some(ts(200)));
    assert_eq!(t.first_responder, Some("visitor".to_string()));
}

#[test]
fn owner_and_collaborator_are_official() {
    assert!(Association::Owner.is_official());
    assert!(Association::Member.is_official());
    assert!(Association::Collaborator.is_official());
    assert!(!Association::Contributor.is_official());
    assert!(!Association::Author.is_official());
    assert!(!Association::Unassociated.is_official());
    assert!(Association::Author.is_author());
    assert!(!Association::Owner.is_author());
}

#[test]
fn ghost_author_is_counted_under_sentinel() {
    let issue = raw(
        None,
        0,
        vec![
            comment(None, Association::Unassociated, 5),
            comment(who("ann"), Association::Owner, 6),
            comment(None, Association::Unassociated, 7),
        ],
    );
    let t = issue_thread(issue);
    assert_eq!(t.author, GHOST);
    assert_eq!(t.first_responder, Some("@ghost".to_string()));
    assert_eq!(t.comments.get(&"@ghost".to_string()), 2);
    assert_eq!(t.comments.get(&"ann".to_string()), 1);
    assert_eq!(t.comments.len(), 2);
    assert_eq!(ghost(&None), "@ghost");
    assert_eq!(ghost(&who("bob")), "bob");
}

#[test]
fn thread_without_comments_has_no_responses() {
    let mut issue = raw(who("opener"), 42, vec![]);
    issue.closed_at = Some(ts(50));
    let t = issue_thread(issue);
    assert_eq!(t.first_responder, None);
    assert_eq!(t.first_response, None);
    assert_eq!(t.first_official_response, None);
    assert_eq!(t.comments.len(), 0);
    assert_eq!(t.posted, ts(42));
    assert_eq!(t.closed, Some(ts(50)));
}

#[test]
fn only_opener_comments_means_no_response() {
    let issue = raw(who("opener"), 0, vec![comment(who("opener"), Association::Author, 3)]);
    let t = issue_thread(issue);
    assert_eq!(t.first_response, None);
    assert_eq!(t.first_responder, None);
    assert_eq!(t.comments.get(&"opener".to_string()), 1);
}

#[test]
fn issues_are_kept_within_date_bounds() {
    let raws = vec![raw(who("a"), 5, vec![]), raw(who("b"), 10, vec![]), raw(who("c"), 20, vec![]), raw(who("d"), 30, vec![])];
    let kept = all_issues(raws, &Some(ts(10)), &Some(ts(20)));
    let authors: Vec<String> = kept.iter().map(|i| i.0.author.clone()).collect();
    assert_eq!(authors, vec!["b".to_string(), "c".to_string()]);

    let raws = vec![raw(who("a"), 5, vec![]), raw(who("b"), 10, vec![])];
    assert_eq!(all_issues(raws, &None, &None).len(), 2);
}

#[test]
fn pull_requests_carry_merge_and_commits() {
    let mut merged = raw(who("a"), 1, vec![]);
    merged.closed_at = Some(ts(9));
    merged.merged_at = Some(ts(9));
    merged.commits = Some(CommitCount { total_count: 4 });
    let mut closed = raw(who("b"), 2, vec![]);
    closed.closed_at = Some(ts(5));
    let open = raw(who("c"), 3, vec![]);
    let late = raw(who("d"), 100, vec![]);
    let prs = all_prs(vec![merged, closed, open, late], &None, &Some(ts(50)));
    assert_eq!(prs.len(), 3);
    assert!(prs[0].is_merged());
    assert_eq!(prs[0].commits, 4);
    assert_eq!(prs[0].merged, Some(ts(9)));
    assert!(!prs[0].is_closed_not_merged());
    assert!(!prs[1].is_merged());
    assert!(prs[1].is_closed_not_merged());
    assert_eq!(prs[1].commits, 0);
    assert!(!prs[2].is_closed_not_merged());
}
