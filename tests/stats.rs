use credit::stats::{count_happened, resp_times};
use credit::{gather, Issue, Postings, ResponseTimes, Tally, Thread, Timestamp, PR};

fn ts(secs: i64) -> Timestamp {
    Timestamp::from_seconds(secs).unwrap()
}

fn thread(author: &str, posted: i64, response: Option<i64>, official: Option<i64>, commenters: &[&str]) -> Thread {
    let names: Vec<String> = commenters.iter().map(|s| s.to_string()).collect();
    Thread {
        author: author.to_string(),
        posted: ts(posted),
        closed: None,
        first_responder: response.map(|_| "someone".to_string()),
        first_response: response.map(ts),
        first_official_response: official.map(ts),
        comments: Tally::count(&names),
    }
}

fn events(delays: &[i64]) -> Vec<(Timestamp, Option<Timestamp>)> {
    delays.iter().map(|&d| (ts(1000), Some(ts(1000 + d)))).collect()
}

#[test]
fn response_times_odd_count() {
    let rt = resp_times(&events(&[60, 120, 300])).unwrap();
    assert_eq!(rt, ResponseTimes { median: 120, mean: 160 });
}

#[test]
fn response_times_unsorted_input() {
    let rt = resp_times(&events(&[300, 60, 120])).unwrap();
    assert_eq!(rt.median, 120);
    assert_eq!(rt.mean, 160);
}

#[test]
fn response_times_even_count_takes_upper_middle() {
    let rt = resp_times(&events(&[60, 120])).unwrap();
    assert_eq!(rt.median, 120);
    assert_eq!(rt.mean, 90);
}

#[test]
fn response_times_skip_events_that_did_not_happen() {
    let mut evs = events(&[10, 30]);
    evs.insert(1, (ts(0), None));
    let rt = resp_times(&evs).unwrap();
    assert_eq!(rt, ResponseTimes { median: 30, mean: 20 });
    assert_eq!(count_happened(&evs), 2);
}

#[test]
fn response_times_negative_delay_passes_through() {
    let rt = resp_times(&events(&[-7, 1])).unwrap();
    assert_eq!(rt.median, 1);
    assert_eq!(rt.mean, -3);
}

#[test]
fn empty_distribution_is_absent() {
    assert_eq!(resp_times(&vec![]), None);
    assert_eq!(resp_times(&vec![(ts(0), None), (ts(5), None)]), None);
    let p = Postings { issues: vec![Issue(thread("a", 0, None, None, &[]))], prs: vec![] };
    let s = p.statistics();
    assert_eq!(s.issues_with_responses, 0);
    assert_eq!(s.issue_first_resp_time, None);
    assert_eq!(s.issue_official_first_resp_time, None);
    assert_eq!(s.pr_first_resp_time, None);
    assert_eq!(s.pr_merge_time, None);
}

fn repo_postings(issues: usize, commenter: &str, comments_each: usize) -> Postings {
    let mut list = Vec::new();
    for i in 0..issues {
        let names: Vec<&str> = if i == 0 { vec![commenter; comments_each] } else { vec![] };
        list.push(Issue(thread("opener", 0, None, None, &names)));
    }
    Postings { issues: list, prs: vec![] }
}

#[test]
fn combined_postings_count_without_double_counting() {
    let a = repo_postings(5, "ann", 2);
    let b = repo_postings(3, "ann", 3);
    let s = a.combine(b).statistics();
    assert_eq!(s.all_issues, 8);
    assert_eq!(s.commentors.get(&"ann".to_string()), 5);
    assert_eq!(s.commentors.len(), 1);
}

#[test]
fn statistics_of_issues_and_prs() {
    let mut closed_issue = thread("a", 0, Some(60), Some(600), &["x", "y"]);
    closed_issue.closed = Some(ts(1000));
    let issues = vec![Issue(closed_issue), Issue(thread("b", 100, Some(220), None, &["x"]))];
    let mut merged = PR { thread: thread("dev", 0, Some(30), Some(30), &["x"]), commits: 3, merged: Some(ts(3600)) };
    merged.thread.closed = Some(ts(3600));
    let mut merged_again = PR { thread: thread("dev", 0, None, None, &[]), commits: 2, merged: Some(ts(7200)) };
    merged_again.thread.closed = Some(ts(7200));
    let mut rejected = PR { thread: thread("new", 0, None, None, &["y"]), commits: 9, merged: None };
    rejected.thread.closed = Some(ts(10));
    let open = PR { thread: thread("zed", 0, None, None, &[]), commits: 0, merged: None };
    let p = Postings { issues, prs: vec![merged, merged_again, rejected, open] };
    let s = p.statistics();
    assert_eq!(s.all_issues, 2);
    assert_eq!(s.all_closed_issues, 1);
    assert_eq!(s.issues_with_responses, 2);
    assert_eq!(s.issues_with_official_responses, 1);
    assert_eq!(s.issue_first_resp_time, Some(ResponseTimes { median: 120, mean: 90 }));
    assert_eq!(s.issue_official_first_resp_time, Some(ResponseTimes { median: 600, mean: 600 }));
    assert_eq!(s.all_prs, 4);
    assert_eq!(s.prs_merged, 2);
    assert_eq!(s.prs_closed_without_merging, 1);
    assert_eq!(s.prs_with_responses, 1);
    assert_eq!(s.prs_with_official_responses, 1);
    assert_eq!(s.pr_merge_time, Some(ResponseTimes { median: 7200, mean: 5400 }));
    assert_eq!(s.code_contributors.get(&"dev".to_string()), 2);
    assert_eq!(s.code_contributors.get(&"new".to_string()), 0);
    assert_eq!(s.code_contributors.len(), 1);
    assert_eq!(s.contributor_commits.get(&"dev".to_string()), 5);
    assert_eq!(s.contributor_commits.len(), 1);
    assert_eq!(s.commentors.get(&"x".to_string()), 3);
    assert_eq!(s.commentors.get(&"y".to_string()), 2);
}

#[test]
fn gather_keeps_successes_and_collects_failures() {
    let results: Vec<Result<Postings, String>> = vec![
        Ok(repo_postings(2, "ann", 1)),
        Err("first failed".to_string()),
        Ok(repo_postings(3, "bob", 1)),
        Err("second failed".to_string()),
    ];
    let (postings, errors) = gather(results);
    assert_eq!(errors, vec!["first failed".to_string(), "second failed".to_string()]);
    let p = postings.unwrap();
    assert_eq!(p.issues.len(), 5);
}

#[test]
fn gather_with_no_success_gives_nothing() {
    let results: Vec<Result<Postings, String>> = vec![Err("down".to_string())];
    let (postings, errors) = gather(results);
    assert!(postings.is_none());
    assert_eq!(errors.len(), 1);
    let (postings, errors) = gather(Vec::<Result<Postings, String>>::new());
    assert!(postings.is_none());
    assert!(errors.is_empty());
}

#[test]
fn periods_read_well() {
    assert_eq!(ResponseTimes::period(0), "0 minutes");
    assert_eq!(ResponseTimes::period(59), "0 minutes");
    assert_eq!(ResponseTimes::period(61), "1 minutes");
    assert_eq!(ResponseTimes::period(3599), "59 minutes");
    assert_eq!(ResponseTimes::period(3600), "1 hour");
    assert_eq!(ResponseTimes::period(7200), "2 hours");
    assert_eq!(ResponseTimes::period(48 * 3600 + 3599), "48 hours");
    assert_eq!(ResponseTimes::period(49 * 3600), "2 days");
    assert_eq!(ResponseTimes::period(30 * 86400), "30 days");
    assert_eq!(ResponseTimes::period(-120), "-2 minutes");
    assert_eq!(ResponseTimes::period(-30), "0 minutes");
    let rt = ResponseTimes { median: 7200, mean: 120 };
    assert_eq!(rt.median_time(), "2 hours");
    assert_eq!(rt.average_time(), "2 minutes");
}

#[test]
fn counts_fit_detects_overflowing_totals() {
    let small = Postings { issues: vec![Issue(thread("a", 0, None, None, &["x", "x"]))], prs: vec![] };
    assert!(small.counts_fit());

    let mut big = Tally::new();
    big.insert("x".to_string(), usize::MAX);
    let mut one = thread("a", 0, None, None, &[]);
    one.comments = big;
    let pr = PR { thread: thread("b", 0, None, None, &["x"]), commits: 0, merged: None };
    let over = Postings { issues: vec![Issue(one)], prs: vec![pr] };
    assert!(!over.counts_fit());

    let commits = |n: usize| PR { thread: thread("dev", 0, None, None, &[]), commits: n, merged: Some(ts(1)) };
    let heavy = Postings { issues: vec![], prs: vec![commits(usize::MAX), commits(1)] };
    assert!(!heavy.counts_fit());
    let fine = Postings { issues: vec![], prs: vec![commits(usize::MAX - 1), commits(1)] };
    assert!(fine.counts_fit());
    assert_eq!(fine.statistics().contributor_commits.get(&"dev".to_string()), usize::MAX);
}
