//! The most active users of a location: ranked by public contributions,
//! weighted by followers.

use crate::contribs::{self, counts_consistent, public_contributions};
use crate::order::{key_ints, lemma_order_sorts, order_of, rank_order};
use vstd::prelude::*;

verus! {

/// A user and their public contributions.
pub struct User {
    pub login: String,
    pub name: Option<String>,
    pub public_contributions: u32,
}

/// The users of a location most worth knowing, with how many users the
/// location has in all.
pub struct UserContribs {
    pub total_users: u32,
    pub contributions: Vec<User>,
}

/// What users are ranked by.
#[derive(Clone, Copy, Debug, PartialEq, Eq, Structural)]
pub enum Rank {
    Contributions,
    Followers,
}

/// The value a user is ranked by.
pub open spec fn rank_key(u: contribs::UserContribs, by: Rank) -> int {
    match by {
        Rank::Contributions => public_contributions(u),
        Rank::Followers => u.followers.total_count as int,
    }
}

/// Each user's key, negated: sorting these ascending puts the largest
/// key first.
pub open spec fn rank_keys(us: Seq<contribs::UserContribs>, by: Rank) -> Seq<int> {
    Seq::new(us.len(), |i: int| -rank_key(us[i], by))
}

/// The users ordered by key, most first; users with equal keys keep their
/// order.
pub open spec fn ranked(us: Seq<contribs::UserContribs>, by: Rank) -> Seq<contribs::UserContribs> {
    let order = order_of(rank_keys(us, by));
    Seq::new(us.len(), |j: int| us[order[j]])
}

/// The first `limit` users by key, or all of them where there are fewer.
pub open spec fn top(
    us: Seq<contribs::UserContribs>,
    by: Rank,
    limit: nat,
) -> Seq<contribs::UserContribs> {
    if limit < us.len() {
        ranked(us, by).take(limit as int)
    } else {
        ranked(us, by)
    }
}

/// The users that the ranking keeps: the 500 with most contributions, of
/// those the 250 most followed, and of those the 100 with most
/// contributions, in that order.
pub open spec fn chosen(us: Seq<contribs::UserContribs>) -> Seq<contribs::UserContribs> {
    top(top(top(us, Rank::Contributions, 500), Rank::Followers, 250), Rank::Contributions, 100)
}

/// The user as reported.
pub open spec fn user_of(u: contribs::UserContribs) -> User {
    User {
        login: u.login,
        name: u.name,
        public_contributions: public_contributions(u) as u32,
    }
}

fn duplicate(u: &contribs::UserContribs) -> (r: contribs::UserContribs)
    ensures
        r == *u,
{
    contribs::UserContribs {
        login: u.login.clone(),
        name: match &u.name {
            Some(n) => Some(n.clone()),
            None => None,
        },
        followers: contribs::Followers { total_count: u.followers.total_count },
        contributions_collection: contribs::Contributions {
            contribution_calendar: contribs::Calendar {
                total_contributions: u.contributions_collection.contribution_calendar.total_contributions,
            },
            restricted_contributions_count: u.contributions_collection.restricted_contributions_count,
        },
    }
}

/// The first `limit` users by key, most first, ties in their order.
pub fn rank(
    users: &Vec<contribs::UserContribs>,
    by: Rank,
    limit: usize,
) -> (r: Vec<contribs::UserContribs>)
    requires
        by is Contributions ==> forall|i: int|
            0 <= i < users@.len() ==> counts_consistent(#[trigger] users@[i]),
    ensures
        r@ == top(users@, by, limit as nat),
        forall|j: int| 0 <= j < r@.len() ==> users@.contains(#[trigger] r@[j]),
{
    let ghost keys_view = rank_keys(users@, by);
    let n = users.len();
    let mut keys: Vec<i128> = Vec::new();
    let mut i: usize = 0;
    while i < n
        invariant
            i <= n,
            n == users@.len(),
            keys_view == rank_keys(users@, by),
            key_ints(keys@) == keys_view.take(i as int),
            by is Contributions ==> forall|i: int|
                0 <= i < users@.len() ==> counts_consistent(#[trigger] users@[i]),
        decreases n - i,
    {
        let key = match by {
            Rank::Contributions => users[i].contribs(),
            Rank::Followers => users[i].followers.total_count,
        };
        let ghost before = keys@;
        keys.push(-(key as i128));
        proof {
            assert(key_ints(keys@) =~= key_ints(before).push(keys_view[i as int]));
            assert(keys_view.take(i as int + 1) =~= keys_view.take(i as int).push(keys_view[i as int]));
        }
        i = i + 1;
    }
    proof {
        assert(keys_view.take(i as int) =~= keys_view);
        lemma_order_sorts(keys_view);
    }
    let order = rank_order(&keys);
    let m = if limit < n {
        limit
    } else {
        n
    };
    let mut r: Vec<contribs::UserContribs> = Vec::new();
    let mut j: usize = 0;
    while j < m
        invariant
            j <= m,
            m <= n,
            n == users@.len(),
            order@.len() == n,
            keys_view == rank_keys(users@, by),
            forall|k: int| 0 <= k < n ==> #[trigger] order@[k] as int == order_of(keys_view)[k],
            forall|k: int| 0 <= k < n ==> 0 <= #[trigger] order_of(keys_view)[k] < n,
            r@ == ranked(users@, by).take(j as int),
            forall|k: int| 0 <= k < r@.len() ==> users@.contains(#[trigger] r@[k]),
        decreases m - j,
    {
        let idx = order[j];
        proof {
            assert(order@[j as int] as int == order_of(keys_view)[j as int]);
            assert(0 <= order_of(keys_view)[j as int] < n);
        }
        let u = duplicate(&users[idx]);
        let ghost before = r@;
        r.push(u);
        proof {
            assert(ranked(users@, by)[j as int] == users@[idx as int]);
            assert(ranked(users@, by).take(j as int + 1) =~= before.push(u));
            assert(users@.contains(users@[idx as int]));
        }
        j = j + 1;
    }
    proof {
        if m == n {
            assert(ranked(users@, by).take(j as int) =~= ranked(users@, by));
        }
    }
    r
}

impl User {
    /// The user as reported: login, name and public contributions.
    pub fn from_contribs(uc: contribs::UserContribs) -> (r: User)
        requires
            counts_consistent(uc),
        ensures
            r == user_of(uc),
    {
        let public_contributions = uc.contribs();
        User { login: uc.login, name: uc.name, public_contributions }
    }
}

/// A curated list of the top 100 users of a location, ranked by their
/// public contributions and weighted by followers: of the 500 with most
/// contributions, the 250 most followed are kept, and of those the 100 with
/// most contributions. Ties keep the order in which the users were found.
pub fn user_contributions(
    total_users: u32,
    found: Vec<contribs::UserContribs>,
) -> (r: UserContribs)
    requires
        forall|i: int| 0 <= i < found@.len() ==> counts_consistent(#[trigger] found@[i]),
    ensures
        r.total_users == total_users,
        r.contributions@.len() == chosen(found@).len(),
        forall|j: int|
            0 <= j < r.contributions@.len() ==> #[trigger] r.contributions@[j] == user_of(
                chosen(found@)[j],
            ),
{
    let first = rank(&found, Rank::Contributions, 500);
    let second = rank(&first, Rank::Followers, 250);
    proof {
        assert forall|i: int| 0 <= i < second@.len() implies counts_consistent(
            #[trigger] second@[i],
        ) by {
            assert(first@.contains(second@[i]));
            let k = choose|k: int| 0 <= k < first@.len() && first@[k] == second@[i];
            assert(found@.contains(first@[k]));
        }
    }
    let third = rank(&second, Rank::Contributions, 100);
    let ghost picked = third@;
    let mut rest = third;
    let mut out: Vec<User> = Vec::new();
    let mut k: usize = 0;
    while rest.len() > 0
        invariant
            k + rest@.len() == picked.len(),
            rest@ == picked.skip(k as int),
            picked == chosen(found@),
            forall|i: int| 0 <= i < picked.len() ==> counts_consistent(#[trigger] picked[i]),
            out@.len() == k,
            forall|j: int| 0 <= j < k ==> #[trigger] out@[j] == user_of(picked[j]),
        decreases rest@.len(),
    {
        let u = rest.remove(0);
        proof {
            assert(u == picked[k as int]);
            assert(rest@ =~= picked.skip(k as int + 1));
        }
        out.push(User::from_contribs(u));
        k = k + 1;
    }
    proof {
        assert forall|i: int| 0 <= i < picked.len() implies counts_consistent(#[trigger] picked[i]) by {
            assert(second@.contains(picked[i]));
        }
    }
    UserContribs { total_users, contributions: out }
}

} // verus!
