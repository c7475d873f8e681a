use credit::contribs::{Calendar, Contributions, Followers, UserContribs as Found};
use credit::users::{rank, Rank};
use credit::{user_contributions, User};

fn found(login: &str, followers: u32, total: u32, restricted: u32) -> Found {
    Found {
        login: login.to_string(),
        name: None,
        followers: Followers { total_count: followers },
        contributions_collection: Contributions {
            contribution_calendar: Calendar { total_contributions: total },
            restricted_contributions_count: restricted,
        },
    }
}

fn logins(us: &[Found]) -> Vec<String> {
    us.iter().map(|u| u.login.clone()).collect()
}

#[test]
fn public_contributions_exclude_private_ones() {
    assert_eq!(found("a", 1, 50, 20).contribs(), 30);
    let u = User::from_contribs(found("a", 1, 50, 20));
    assert_eq!(u.public_contributions, 30);
    assert_eq!(u.login, "a");
}

#[test]
fn ranking_is_descending_and_stable() {
    let us = vec![found("a", 5, 10, 0), found("b", 9, 30, 0), found("c", 9, 10, 0), found("d", 1, 30, 0)];
    assert_eq!(logins(&rank(&us, Rank::Contributions, 10)), vec!["b", "d", "a", "c"]);
    assert_eq!(logins(&rank(&us, Rank::Followers, 3)), vec!["b", "c", "a"]);
    assert!(rank(&us, Rank::Followers, 0).is_empty());
}

#[test]
fn top_users_are_chosen_by_contributions_then_followers() {
    let mut us = Vec::new();
    for i in 0..300u32 {
        // Followers fall as i grows; contributions rise.
        us.push(found(&format!("u{}", i), 1000 - i, i, 0));
    }
    let r = user_contributions(12345, us);
    assert_eq!(r.total_users, 12345);
    assert_eq!(r.contributions.len(), 100);
    // The 250 most followed are u0..u249; of those, most contributions first.
    assert_eq!(r.contributions[0].login, "u249");
    assert_eq!(r.contributions[0].public_contributions, 249);
    assert_eq!(r.contributions[99].login, "u150");
}

#[test]
fn fewer_users_than_the_cut() {
    let us = vec![found("a", 1, 3, 1), found("b", 2, 5, 0)];
    let r = user_contributions(2, us);
    let names: Vec<String> = r.contributions.iter().map(|u| u.login.clone()).collect();
    assert_eq!(names, vec!["b".to_string(), "a".to_string()]);
    assert_eq!(r.contributions[1].public_contributions, 2);
}

#[test]
fn private_contributions_beyond_total_are_inconsistent() {
    assert!(found("a", 1, 5, 5).is_consistent());
    assert!(!found("a", 1, 5, 6).is_consistent());
}
