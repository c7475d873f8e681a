use credit::Tally;

fn tally_of(pairs: &[(&str, usize)]) -> Tally {
    let mut t = Tally::new();
    for (name, n) in pairs {
        t.insert(name.to_string(), *n);
    }
    t
}

#[test]
fn hashmap_extend() {
    let mut first = Tally::new();
    let mut second = Tally::new();
    let message = "ABCDEF";

    for c in message.chars() {
        first.insert(c.to_string(), 1);
        second.insert(c.to_string(), 1);
    }

    let third = first.combine(second);
    let elems: Vec<usize> = third.pairs().iter().map(|p| p.1).collect();

    assert_eq!(vec![2, 2, 2, 2, 2, 2], elems);
}

#[test]
fn counting_names_counts_each_occurrence() {
    let names: Vec<String> = vec!["ann".into(), "bob".into(), "ann".into(), "cy".into(), "ann".into()];
    let t = Tally::count(&names);
    assert_eq!(t.get(&"ann".to_string()), 3);
    assert_eq!(t.get(&"bob".to_string()), 1);
    assert_eq!(t.get(&"cy".to_string()), 1);
    assert_eq!(t.get(&"dee".to_string()), 0);
    assert_eq!(t.len(), 3);
    let order: Vec<String> = t.pairs().into_iter().map(|p| p.0).collect();
    assert_eq!(order, vec!["ann".to_string(), "bob".to_string(), "cy".to_string()]);
}

#[test]
fn combining_sums_shared_keys_and_keeps_the_rest() {
    let a = tally_of(&[("ann", 2), ("bob", 1)]);
    let b = tally_of(&[("bob", 4), ("cy", 7)]);
    let c = a.combine(b);
    assert_eq!(c.len(), 3);
    assert_eq!(c.get(&"ann".to_string()), 2);
    assert_eq!(c.get(&"bob".to_string()), 5);
    assert_eq!(c.get(&"cy".to_string()), 7);
}

#[test]
fn adding_and_inserting() {
    let mut t = Tally::new();
    t.add("ann".to_string(), 3);
    t.add("ann".to_string(), 4);
    assert_eq!(t.get(&"ann".to_string()), 7);
    t.insert("ann".to_string(), 1);
    assert_eq!(t.get(&"ann".to_string()), 1);
    t.add("bob".to_string(), 0);
    assert_eq!(t.len(), 2);
    assert_eq!(t.get(&"bob".to_string()), 0);
}

#[test]
fn empty_tally() {
    let t = Tally::new();
    assert_eq!(t.len(), 0);
    assert!(t.pairs().is_empty());
}

#[test]
fn top_lists_most_counted_first_ties_in_first_counted_order() {
    let t = tally_of(&[("ann", 3), ("bob", 5), ("cy", 3), ("dee", 1)]);
    let top = t.top(3);
    assert_eq!(
        top,
        vec![("bob".to_string(), 5), ("ann".to_string(), 3), ("cy".to_string(), 3)]
    );
    assert!(t.top(0).is_empty());
    assert_eq!(t.top(10).len(), 4);
    assert_eq!(t.top(10)[3], ("dee".to_string(), 1));
}

#[test]
fn checked_merge_refuses_overflow() {
    let mut a = tally_of(&[("x", usize::MAX - 1)]);
    assert!(a.checked_merge(&tally_of(&[("x", 1), ("y", 2)])));
    assert_eq!(a.get(&"x".to_string()), usize::MAX);
    assert_eq!(a.get(&"y".to_string()), 2);
    assert!(!a.checked_merge(&tally_of(&[("x", 1)])));
}
