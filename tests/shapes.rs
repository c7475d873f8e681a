use credit::github::{into_nodes, Node, PageInfo, Paged};
use credit::repo::Issues;
use credit::time::TIME_LIMIT;
use credit::Timestamp;

#[test]
fn timestamps_hold_only_the_supported_range() {
    assert_eq!(Timestamp::from_seconds(TIME_LIMIT).unwrap().seconds_since_epoch(), TIME_LIMIT);
    assert_eq!(Timestamp::from_seconds(-TIME_LIMIT).unwrap().seconds_since_epoch(), -TIME_LIMIT);
    assert!(Timestamp::from_seconds(TIME_LIMIT + 1).is_none());
    assert!(Timestamp::from_seconds(i64::MIN).is_none());
}

#[test]
fn nodes_keep_their_order() {
    let edges: Vec<Node<&str>> = vec![Node { node: "a" }, Node { node: "b" }, Node { node: "c" }];
    assert_eq!(into_nodes(edges), vec!["a", "b", "c"]);
    assert!(into_nodes(Vec::<Node<u8>>::new()).is_empty());
}

fn empty_page(cursor: &str) -> Paged<credit::repo::Issue> {
    Paged { page_info: PageInfo { has_next_page: false, end_cursor: Some(cursor.to_string()) }, edges: vec![] }
}

#[test]
fn either_field_gives_the_page() {
    let p = Issues::Issue { issues: empty_page("i") }.page();
    assert_eq!(p.page_info.end_cursor, Some("i".to_string()));
    let p = Issues::PullRequest { pull_requests: empty_page("p") }.page();
    assert_eq!(p.page_info.end_cursor, Some("p".to_string()));
}
