use credit::github::{Node, PageInfo, Paged, Pager};
use credit::repo::{self, past_end};
use credit::github::Edges;
use credit::Timestamp;

fn page(items: Vec<u32>, more: bool, cursor: Option<&str>) -> Paged<u32> {
    Paged {
        page_info: PageInfo { has_next_page: more, end_cursor: cursor.map(|c| c.to_string()) },
        edges: items.into_iter().map(|node| Node { node }).collect(),
    }
}

/// A source of `n` items, `size` to a page, walked to the end.
fn walk_source(n: u32, size: u32, budget: u32) -> (Vec<u32>, Vec<Option<String>>) {
    let all: Vec<u32> = (0..n).collect();
    let chunks: Vec<Vec<u32>> = if all.is_empty() {
        vec![vec![]]
    } else {
        all.chunks(size as usize).map(|c| c.to_vec()).collect()
    };
    let mut pager: Pager<u32> = Pager::new(budget, 1);
    let mut asked = Vec::new();
    let mut i = 0;
    while !pager.is_done() {
        asked.push(pager.cursor());
        let last = i + 1 == chunks.len();
        let cursor = format!("c{}", i);
        pager.accept(page(chunks[i].clone(), !last, Some(&cursor)), false);
        i += 1;
    }
    (pager.into_items(), asked)
}

#[test]
fn pagination_returns_every_item_in_order() {
    for &(n, size) in &[(0u32, 5u32), (1, 5), (10, 1), (10, 3), (10, 10), (100, 7), (250, 100)] {
        let (items, asked) = walk_source(n, size, u32::MAX);
        let expected: Vec<u32> = (0..n).collect();
        assert_eq!(items, expected, "n = {}, size = {}", n, size);
        let pages = if n == 0 { 1 } else { ((n + size - 1) / size) as usize };
        assert_eq!(asked.len(), pages);
        assert_eq!(asked[0], None);
        for (i, c) in asked.iter().enumerate().skip(1) {
            assert_eq!(c.clone(), Some(format!("c{}", i - 1)));
        }
    }
}

#[test]
fn page_budget_stops_unbounded_source() {
    let mut pager: Pager<u32> = Pager::new(3, 1);
    let mut fetched = 0;
    while !pager.is_done() {
        pager.accept(page(vec![fetched], true, Some("more")), false);
        fetched += 1;
    }
    assert_eq!(fetched, 3);
    assert_eq!(pager.into_items(), vec![0, 1, 2]);
}

#[test]
fn missing_cursor_ends_walk() {
    let mut pager: Pager<u32> = Pager::new(10, 1);
    pager.accept(page(vec![1, 2], true, None), false);
    assert!(pager.is_done());
    assert_eq!(pager.into_items(), vec![1, 2]);
}

fn ts(secs: i64) -> Timestamp {
    Timestamp::from_seconds(secs).unwrap()
}

fn raw_issue(created: i64) -> repo::Issue {
    repo::Issue {
        author: None,
        created_at: ts(created),
        closed_at: None,
        merged_at: None,
        comments: Edges { edges: vec![] },
        commits: None,
    }
}

fn issue_page(created: &[i64], more: bool, cursor: &str) -> Paged<repo::Issue> {
    Paged {
        page_info: PageInfo { has_next_page: more, end_cursor: Some(cursor.to_string()) },
        edges: created.iter().map(|&c| Node { node: raw_issue(c) }).collect(),
    }
}

#[test]
fn early_stop_after_first_page_past_boundary() {
    let pages = vec![
        issue_page(&[10, 20, 30], true, "a"),
        issue_page(&[40, 50, 60], true, "b"),
        issue_page(&[70, 80, 90], true, "c"),
        issue_page(&[100], false, "d"),
    ];
    let end = Some(ts(55));
    let mut pager: Pager<repo::Issue> = Pager::new(u32::MAX, 1);
    let mut fetched = 0;
    let mut source = pages.into_iter();
    while !pager.is_done() {
        let p = source.next().expect("no page should be fetched past the boundary");
        fetched += 1;
        let stop = past_end(&end, &p);
        pager.accept(p, stop);
    }
    assert_eq!(fetched, 2);
    let created: Vec<i64> =
        pager.into_items().iter().map(|i| i.created_at.seconds_since_epoch()).collect();
    assert_eq!(created, vec![10, 20, 30, 40, 50, 60]);
}

#[test]
fn past_end_looks_at_last_item() {
    let p = issue_page(&[10, 60], true, "a");
    assert!(past_end(&Some(ts(55)), &p));
    assert!(!past_end(&Some(ts(60)), &p));
    assert!(!past_end(&None, &p));
    assert!(!past_end(&Some(ts(0)), &issue_page(&[], true, "a")));
}

#[test]
fn retries_are_bounded_per_page() {
    let mut pager: Pager<u32> = Pager::new(10, 3);
    assert!(pager.retry());
    assert!(pager.retry());
    assert!(!pager.retry());
    pager.accept(page(vec![1], true, Some("x")), false);
    assert!(pager.retry());
    assert!(pager.retry());
    assert!(!pager.retry());
    assert_eq!(pager.cursor(), Some("x".to_string()));
}

#[test]
fn single_attempt_means_no_retry() {
    let mut pager: Pager<u32> = Pager::new(10, 1);
    assert!(!pager.retry());
    assert!(!pager.is_done());
}
