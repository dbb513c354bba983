//! What a table of accounts means, and how traffic, connections and drains change it.

use crate::user_traffic::usage::Usage;
use std::sync::Arc;
use vstd::prelude::*;

verus! {

/// What the endpoint holds of one user.
pub struct Account {
    /// The traffic since the last drain.
    pub usage: Usage,
    /// How many connections hold the user's counter.
    pub connections: nat,
}

/// The accounts of all tracked users, by username.
pub type Accounts = Map<Seq<char>, Account>;

/// The traffic of `user` since the last drain; a user who is not tracked has none.
pub open spec fn usage_of(accounts: Accounts, user: Seq<char>) -> Usage {
    if accounts.contains_key(user) {
        accounts[user].usage
    } else {
        Usage::zero()
    }
}

/// The number of connections by `user`; a user who is not tracked has none.
pub open spec fn connections_of(accounts: Accounts, user: Seq<char>) -> nat {
    if accounts.contains_key(user) {
        accounts[user].connections
    } else {
        0
    }
}

/// The accounts once `user` has opened one more connection.
pub open spec fn connected(accounts: Accounts, user: Seq<char>) -> Accounts {
    accounts.insert(
        user,
        Account {
            usage: usage_of(accounts, user),
            connections: connections_of(accounts, user) + 1,
        },
    )
}

/// The accounts once `user` has closed one connection.
pub open spec fn disconnected(accounts: Accounts, user: Seq<char>) -> Accounts
    recommends
        connections_of(accounts, user) > 0,
{
    accounts.insert(
        user,
        Account {
            usage: usage_of(accounts, user),
            connections: (connections_of(accounts, user) - 1) as nat,
        },
    )
}

/// The accounts with the traffic of `user` set to `usage`.
pub open spec fn with_usage(accounts: Accounts, user: Seq<char>, usage: Usage) -> Accounts {
    accounts.insert(user, Account { usage, connections: connections_of(accounts, user) })
}

/// The accounts after a drain: connected users stay, with nothing to report.
pub open spec fn drained(accounts: Accounts) -> Accounts {
    Map::new(
        |user: Seq<char>| connections_of(accounts, user) > 0,
        |user: Seq<char>|
            Account { usage: Usage::zero(), connections: connections_of(accounts, user) },
    )
}

/// How many places for counters there are once every tracked user has one, where there were
/// `places` before: a place that is free is used before another is made.
pub open spec fn places_needed(places: nat, accounts: Accounts) -> nat {
    if accounts.len() > places {
        accounts.len()
    } else {
        places
    }
}

/// The traffic that a drain reports: that of every user who has any.
pub open spec fn billable(accounts: Accounts) -> Map<Seq<char>, Usage> {
    Map::new(
        |user: Seq<char>| usage_of(accounts, user) != Usage::zero(),
        |user: Seq<char>| usage_of(accounts, user),
    )
}

/// The traffic of every tracked user.
pub open spec fn usages(accounts: Accounts) -> Map<Seq<char>, Usage> {
    accounts.map_values(|account: Account| account.usage)
}

/// The rows list the table: each user once, with their usage, in whatever order.
pub open spec fn lists(rows: Seq<(Arc<str>, Usage)>, table: Map<Seq<char>, Usage>) -> bool {
    &&& forall|i: int, j: int|
        0 <= i < j < rows.len() ==> (#[trigger] rows[i]).0@ != (#[trigger] rows[j]).0@
    &&& forall|i: int|
        0 <= i < rows.len() ==> table.contains_pair((#[trigger] rows[i]).0@, rows[i].1)
    &&& forall|user: Seq<char>| #[trigger]
        table.contains_key(user) ==> exists|i: int|
            0 <= i < rows.len() && (#[trigger] rows[i]).0@ == user
}

} // verus!
