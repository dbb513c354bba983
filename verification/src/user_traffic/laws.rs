//! What holds of the accounts whatever the connections do and whenever a drain lands.

use crate::user_traffic::accounts;
use crate::user_traffic::accounts::{Account, Accounts};
use crate::user_traffic::usage;
use crate::user_traffic::usage::Usage;
use std::sync::Arc;
use vstd::prelude::*;

verus! {

/// The direction of a chunk of traffic.
pub enum Direction {
    Uplink,
    Downlink,
}

/// One thing that happens to a table.
pub enum Event {
    /// A user opens a connection.
    Connect(Seq<char>),
    /// A connection of the user's moves some bytes.
    Traffic(Seq<char>, Direction, u64),
    /// A user closes a connection.
    Disconnect(Seq<char>),
    /// Somebody collects the traffic.
    Drain,
}

/// The bytes of a usage in one direction.
pub open spec fn amount(usage: Usage, direction: Direction) -> u64 {
    match direction {
        Direction::Uplink => usage.uplink,
        Direction::Downlink => usage.downlink,
    }
}

/// A usage with `n` more bytes counted in one direction.
pub open spec fn plus(usage: Usage, direction: Direction, n: u64) -> Usage {
    match direction {
        Direction::Uplink => Usage { uplink: usage::counted(usage.uplink, n), ..usage },
        Direction::Downlink => Usage { downlink: usage::counted(usage.downlink, n), ..usage },
    }
}

/// The accounts after an event.
pub open spec fn next(accounts: Accounts, event: Event) -> Accounts {
    match event {
        Event::Connect(user) => accounts::connected(accounts, user),
        Event::Traffic(user, direction, n) => accounts::with_usage(
            accounts,
            user,
            plus(accounts::usage_of(accounts, user), direction, n),
        ),
        Event::Disconnect(user) => accounts::disconnected(accounts, user),
        Event::Drain => accounts::drained(accounts),
    }
}

/// The accounts after a run of events that begins with an empty table.
pub open spec fn run(events: Seq<Event>) -> Accounts
    decreases events.len(),
{
    if events.len() == 0 {
        Map::empty()
    } else {
        next(run(events.drop_last()), events.last())
    }
}

/// The bytes that an event adds to the traffic of `user` in one direction.
pub open spec fn moved(event: Event, user: Seq<char>, direction: Direction) -> nat {
    match event {
        Event::Traffic(mover, way, n) => if mover == user && way == direction {
            n as nat
        } else {
            0
        },
        _ => 0,
    }
}

/// The bytes that the connections of `user` moved in one direction.
pub open spec fn sent(events: Seq<Event>, user: Seq<char>, direction: Direction) -> nat
    decreases events.len(),
{
    if events.len() == 0 {
        0
    } else {
        sent(events.drop_last(), user, direction) + moved(events.last(), user, direction)
    }
}

/// The bytes counted for `user` in one direction that no drain has reported yet.
pub open spec fn pending(accounts: Accounts, user: Seq<char>, direction: Direction) -> nat {
    amount(accounts::usage_of(accounts, user), direction) as nat
}

/// The bytes that the drains of the run reported for `user` in one direction.
pub open spec fn reported(events: Seq<Event>, user: Seq<char>, direction: Direction) -> nat
    decreases events.len(),
{
    if events.len() == 0 {
        0
    } else {
        reported(events.drop_last(), user, direction) + (if events.last() is Drain {
            pending(run(events.drop_last()), user, direction)
        } else {
            0
        })
    }
}

/// The counter of `user` in one direction never passes its largest value between two drains.
pub open spec fn never_wraps(events: Seq<Event>, user: Seq<char>, direction: Direction) -> bool
    decreases events.len(),
{
    events.len() == 0 || {
        &&& never_wraps(events.drop_last(), user, direction)
        &&& pending(run(events.drop_last()), user, direction) + moved(
            events.last(),
            user,
            direction,
        ) <= u64::MAX
    }
}

/// Nothing is lost and nothing is counted twice, however drains and traffic interleave: the bytes
/// reported and the bytes still to report are together the bytes that were moved.
pub proof fn law_nothing_is_lost(events: Seq<Event>, user: Seq<char>, direction: Direction)
    requires
        never_wraps(events, user, direction),
    ensures
        reported(events, user, direction) + pending(run(events), user, direction) == sent(
            events,
            user,
            direction,
        ),
    decreases events.len(),
{
    if events.len() > 0 {
        law_nothing_is_lost(events.drop_last(), user, direction);
    }
}

/// A drain at the end of a run reports the rest: every byte is then reported exactly once.
pub proof fn law_every_byte_is_reported_once(
    events: Seq<Event>,
    user: Seq<char>,
    direction: Direction,
)
    requires
        never_wraps(events, user, direction),
    ensures
        reported(events.push(Event::Drain), user, direction) == sent(events, user, direction),
{
    law_nothing_is_lost(events, user, direction);
    assert(events.push(Event::Drain).drop_last() =~= events);
}

proof fn lemma_counting_keeps_the_remainder(done: nat, left: nat, total: nat, n: nat)
    requires
        (done + left) % 0x1_0000_0000_0000_0000 == total % 0x1_0000_0000_0000_0000,
    ensures
        (done + (left + n) % 0x1_0000_0000_0000_0000) % 0x1_0000_0000_0000_0000 == (total + n)
            % 0x1_0000_0000_0000_0000,
{
}

/// Where a counter does wrap round, what is reported and what was moved still agree up to
/// multiples of `2^64`.
pub proof fn law_totals_agree_up_to_wrapping(
    events: Seq<Event>,
    user: Seq<char>,
    direction: Direction,
)
    ensures
        (reported(events, user, direction) + pending(run(events), user, direction))
            % 0x1_0000_0000_0000_0000 == sent(events, user, direction) % 0x1_0000_0000_0000_0000,
    decreases events.len(),
{
    if events.len() > 0 {
        let front = events.drop_last();
        law_totals_agree_up_to_wrapping(front, user, direction);
        let n = moved(events.last(), user, direction);
        let left = pending(run(front), user, direction);
        if !(events.last() is Drain) {
            assert(pending(run(events), user, direction) == (left + n) % 0x1_0000_0000_0000_0000);
            lemma_counting_keeps_the_remainder(
                reported(front, user, direction),
                left,
                sent(front, user, direction),
                n,
            );
        } else {
            assert(pending(run(events), user, direction) == 0);
        }
    }
}

/// What the rows of a report say of `user`; a user without a row has no traffic.
pub open spec fn usage_in(rows: Seq<(Arc<str>, Usage)>, user: Seq<char>) -> Usage {
    if exists|i: int| 0 <= i < rows.len() && (#[trigger] rows[i]).0@ == user {
        rows[choose|i: int| 0 <= i < rows.len() && (#[trigger] rows[i]).0@ == user].1
    } else {
        Usage::zero()
    }
}

/// The rows of a drain give every user's traffic since the last drain, and no other.
pub proof fn law_a_drain_reports_all_traffic(
    accounts: Accounts,
    rows: Seq<(Arc<str>, Usage)>,
    user: Seq<char>,
)
    requires
        accounts::lists(rows, accounts::billable(accounts)),
    ensures
        usage_in(rows, user) == accounts::usage_of(accounts, user),
{
    if exists|i: int| 0 <= i < rows.len() && (#[trigger] rows[i]).0@ == user {
        let i = choose|i: int| 0 <= i < rows.len() && (#[trigger] rows[i]).0@ == user;
        assert(accounts::billable(accounts).contains_pair(rows[i].0@, rows[i].1));
    } else {
        assert(!accounts::billable(accounts).contains_key(user));
    }
}

/// A snapshot shows the accounts as they are: one row for each tracked user and none for anybody
/// else, with the bytes pending in each direction.
pub proof fn law_a_snapshot_shows_every_account(
    accounts: Accounts,
    rows: Seq<(Arc<str>, Usage)>,
    user: Seq<char>,
)
    requires
        accounts::lists(rows, accounts::usages(accounts)),
    ensures
        accounts.contains_key(user) <==> exists|i: int|
            0 <= i < rows.len() && (#[trigger] rows[i]).0@ == user,
        forall|i: int|
            0 <= i < rows.len() && (#[trigger] rows[i]).0@ == user ==> rows[i].1.uplink
                == accounts[user].usage.uplink && rows[i].1.downlink
                == accounts[user].usage.downlink,
        forall|i: int, j: int|
            0 <= i < rows.len() && 0 <= j < rows.len() && (#[trigger] rows[i]).0@ == (
            #[trigger] rows[j]).0@ ==> i == j,
        usage_in(rows, user) == accounts::usage_of(accounts, user),
{
    let table = accounts::usages(accounts);
    assert forall|i: int| 0 <= i < rows.len() && (#[trigger] rows[i]).0@ == user implies table.contains_pair(
        user,
        rows[i].1,
    ) by {
        assert(table.contains_pair(rows[i].0@, rows[i].1));
    }
    if accounts.contains_key(user) {
        assert(table.contains_key(user));
    }
}

/// A drain leaves out everybody who has nothing to report, connected or not: no row is zero, a
/// user has a row exactly when they moved a byte in some direction, and the row says how many.
pub proof fn law_no_row_of_a_drain_is_zero(
    accounts: Accounts,
    rows: Seq<(Arc<str>, Usage)>,
    user: Seq<char>,
)
    requires
        accounts::lists(rows, accounts::billable(accounts)),
    ensures
        forall|i: int|
            0 <= i < rows.len() ==> (#[trigger] rows[i]).1.uplink > 0 || rows[i].1.downlink > 0,
        (exists|i: int| 0 <= i < rows.len() && (#[trigger] rows[i]).0@ == user) <==> (
        accounts.contains_key(user) && (accounts[user].usage.uplink > 0
            || accounts[user].usage.downlink > 0)),
        forall|i: int|
            0 <= i < rows.len() && (#[trigger] rows[i]).0@ == user ==> rows[i].1.uplink
                == accounts[user].usage.uplink && rows[i].1.downlink
                == accounts[user].usage.downlink,
        forall|i: int, j: int|
            0 <= i < rows.len() && 0 <= j < rows.len() && (#[trigger] rows[i]).0@ == (
            #[trigger] rows[j]).0@ ==> i == j,
{
    let table = accounts::billable(accounts);
    assert forall|i: int| 0 <= i < rows.len() implies (#[trigger] rows[i]).1.uplink > 0
        || rows[i].1.downlink > 0 by {
        assert(table.contains_pair(rows[i].0@, rows[i].1));
        assert(rows[i].1 != Usage::zero());
    }
    assert forall|i: int| 0 <= i < rows.len() && (#[trigger] rows[i]).0@ == user implies table.contains_pair(
        user,
        rows[i].1,
    ) by {
        assert(table.contains_pair(rows[i].0@, rows[i].1));
    }
    if accounts.contains_key(user) && (accounts[user].usage.uplink > 0
        || accounts[user].usage.downlink > 0) {
        assert(accounts::usage_of(accounts, user) != Usage::zero());
        assert(table.contains_key(user));
    }
}

/// What a drain leaves behind: exactly the users with a connection, each with as many connections
/// as before and no bytes.
pub proof fn law_a_drain_leaves_connected_users_at_zero(accounts: Accounts, user: Seq<char>)
    ensures
        accounts::drained(accounts).contains_key(user) <==> accounts.contains_key(user)
            && accounts[user].connections > 0,
        accounts::drained(accounts).contains_key(user) ==> {
            let after = accounts::drained(accounts)[user];
            &&& after.connections == accounts[user].connections
            &&& after.usage.uplink == 0
            &&& after.usage.downlink == 0
        },
{
}

/// Opening a connection adds one to the user's connections and leaves their bytes; a user who was
/// not tracked begins with none. Nobody else is touched.
pub proof fn law_a_connection_opens(accounts: Accounts, user: Seq<char>)
    ensures
        accounts::connected(accounts, user).dom() == accounts.dom().insert(user),
        accounts.contains_key(user) ==> {
            let after = accounts::connected(accounts, user)[user];
            &&& after.connections == accounts[user].connections + 1
            &&& after.usage.uplink == accounts[user].usage.uplink
            &&& after.usage.downlink == accounts[user].usage.downlink
        },
        !accounts.contains_key(user) ==> {
            let after = accounts::connected(accounts, user)[user];
            &&& after.connections == 1
            &&& after.usage.uplink == 0
            &&& after.usage.downlink == 0
        },
        accounts::connected(accounts, user).remove(user) == accounts.remove(user),
{
    assert(accounts::connected(accounts, user).remove(user) =~= accounts.remove(user));
}

/// Ending a connection takes one from the user's connections. Their bytes stay, and so do they,
/// until the next drain. Nobody else is touched.
pub proof fn law_a_connection_ends(accounts: Accounts, user: Seq<char>)
    requires
        accounts.contains_key(user),
        accounts[user].connections > 0,
    ensures
        accounts::disconnected(accounts, user).dom() == accounts.dom(),
        accounts::disconnected(accounts, user)[user].connections == accounts[user].connections - 1,
        accounts::disconnected(accounts, user)[user].usage.uplink == accounts[user].usage.uplink,
        accounts::disconnected(accounts, user)[user].usage.downlink
            == accounts[user].usage.downlink,
        accounts::disconnected(accounts, user).remove(user) == accounts.remove(user),
{
    assert(accounts::disconnected(accounts, user).dom() =~= accounts.dom());
    assert(accounts::disconnected(accounts, user).remove(user) =~= accounts.remove(user));
}

/// Opening a connection and ending it again leaves a tracked user's account as it was.
pub proof fn law_ending_undoes_opening(accounts: Accounts, user: Seq<char>)
    requires
        accounts.contains_key(user),
    ensures
        accounts::disconnected(accounts::connected(accounts, user), user) == accounts,
{
    assert(accounts::disconnected(accounts::connected(accounts, user), user) =~= accounts);
}

/// Traffic of a user sets their bytes, and nothing else of anybody's.
pub proof fn law_traffic_touches_only_its_account(
    accounts: Accounts,
    user: Seq<char>,
    usage: Usage,
)
    requires
        accounts.contains_key(user),
    ensures
        accounts::with_usage(accounts, user, usage).dom() == accounts.dom(),
        accounts::with_usage(accounts, user, usage)[user].usage.uplink == usage.uplink,
        accounts::with_usage(accounts, user, usage)[user].usage.downlink == usage.downlink,
        accounts::with_usage(accounts, user, usage)[user].connections
            == accounts[user].connections,
        accounts::with_usage(accounts, user, usage).remove(user) == accounts.remove(user),
{
    assert(accounts::with_usage(accounts, user, usage).dom() =~= accounts.dom());
    assert(accounts::with_usage(accounts, user, usage).remove(user) =~= accounts.remove(user));
}

/// A user's bytes and connections are those of their account, and none where they have none.
pub proof fn law_accounts_are_looked_up_by_name(accounts: Accounts, user: Seq<char>)
    ensures
        accounts.contains_key(user) ==> accounts::usage_of(accounts, user) == accounts[user].usage
            && accounts::connections_of(accounts, user) == accounts[user].connections,
        !accounts.contains_key(user) ==> accounts::usage_of(accounts, user).uplink == 0
            && accounts::usage_of(accounts, user).downlink == 0 && accounts::connections_of(
            accounts,
            user,
        ) == 0,
{
}

/// A drain takes everything once, whoever has departed since: drained twice with no traffic
/// between, whatever connections open and end, the second time there are no rows.
pub proof fn law_a_quiet_spell_has_nothing_to_report(
    accounts: Accounts,
    events: Seq<Event>,
    rows: Seq<(Arc<str>, Usage)>,
)
    requires
        forall|i: int| 0 <= i < events.len() ==> !((#[trigger] events[i]) is Traffic),
        accounts::lists(rows, accounts::billable(run_from(accounts::drained(accounts), events))),
    ensures
        rows.len() == 0,
{
    lemma_no_traffic_no_bytes(accounts::drained(accounts), events);
    if rows.len() > 0 {
        let after = run_from(accounts::drained(accounts), events);
        law_no_row_of_a_drain_is_zero(after, rows, rows[0].0@);
        assert(accounts::usage_of(after, rows[0].0@) == Usage::zero());
    }
}

/// The accounts after a run of events that begins with the given ones.
pub open spec fn run_from(accounts: Accounts, events: Seq<Event>) -> Accounts
    decreases events.len(),
{
    if events.len() == 0 {
        accounts
    } else {
        next(run_from(accounts, events.drop_last()), events.last())
    }
}

proof fn lemma_no_traffic_no_bytes(accounts: Accounts, events: Seq<Event>)
    requires
        forall|i: int| 0 <= i < events.len() ==> !((#[trigger] events[i]) is Traffic),
        forall|user: Seq<char>| #[trigger]
            accounts::usage_of(accounts, user) == Usage::zero(),
    ensures
        forall|user: Seq<char>| #[trigger]
            accounts::usage_of(run_from(accounts, events), user) == Usage::zero(),
    decreases events.len(),
{
    if events.len() > 0 {
        let front = events.drop_last();
        assert forall|i: int| 0 <= i < front.len() implies !((#[trigger] front[i]) is Traffic) by {
            assert(front[i] == events[i]);
        }
        lemma_no_traffic_no_bytes(accounts, front);
        let before = run_from(accounts, front);
        assert(!(events[events.len() - 1] is Traffic));
        assert forall|user: Seq<char>| #[trigger]
            accounts::usage_of(run_from(accounts, events), user) == Usage::zero() by {
            assert(accounts::usage_of(before, user) == Usage::zero());
            match events.last() {
                Event::Connect(mover) => {
                    assert(accounts::usage_of(before, mover) == Usage::zero());
                },
                Event::Disconnect(mover) => {
                    assert(accounts::usage_of(before, mover) == Usage::zero());
                },
                _ => {},
            }
        }
    }
}

/// A drain takes everything once: a second drain right after it has nothing to report.
pub proof fn law_a_drain_takes_everything_once(
    accounts: Accounts,
    rows: Seq<(Arc<str>, Usage)>,
)
    requires
        accounts::lists(rows, accounts::billable(accounts::drained(accounts))),
    ensures
        rows.len() == 0,
{
    if rows.len() > 0 {
        assert(accounts::billable(accounts::drained(accounts)).contains_pair(rows[0].0@, rows[0].1));
    }
}

/// A live connection keeps counting after a drain: the next drain reports what moved since.
pub proof fn law_a_live_connection_keeps_counting(
    accounts: Accounts,
    user: Seq<char>,
    direction: Direction,
    n: u64,
)
    requires
        accounts::connections_of(accounts, user) > 0,
    ensures
        accounts::connections_of(accounts::drained(accounts), user) == accounts::connections_of(
            accounts,
            user,
        ),
        accounts::usage_of(
            next(accounts::drained(accounts), Event::Traffic(user, direction, n)),
            user,
        ) == plus(Usage::zero(), direction, n),
        n > 0 ==> accounts::billable(
            next(accounts::drained(accounts), Event::Traffic(user, direction, n)),
        ) == Map::<Seq<char>, Usage>::empty().insert(user, plus(Usage::zero(), direction, n)),
{
    let after = next(accounts::drained(accounts), Event::Traffic(user, direction, n));
    if n > 0 {
        assert(accounts::billable(after) =~= Map::<Seq<char>, Usage>::empty().insert(
            user,
            plus(Usage::zero(), direction, n),
        ));
    }
}

/// A departed user stops costing memory: a drain reports what they used and drops them.
pub proof fn law_a_departed_user_is_dropped(accounts: Accounts, user: Seq<char>)
    requires
        accounts.contains_key(user),
        accounts[user].connections == 0,
    ensures
        !accounts::drained(accounts).contains_key(user),
        accounts[user].usage != Usage::zero() ==> accounts::billable(accounts).contains_pair(
            user,
            accounts[user].usage,
        ),
{
}

/// A connected user is kept by a drain, even with nothing to report.
pub proof fn law_a_connected_user_is_kept(accounts: Accounts, user: Seq<char>)
    requires
        accounts.contains_key(user),
        accounts[user].connections > 0,
    ensures
        accounts::drained(accounts).contains_pair(
            user,
            Account { usage: Usage::zero(), connections: accounts[user].connections },
        ),
{
}

/// Users are kept apart: what one user does leaves the account of every other as it is.
pub proof fn law_users_are_kept_apart(
    accounts: Accounts,
    event: Event,
    user: Seq<char>,
    other: Seq<char>,
)
    requires
        user != other,
        match event {
            Event::Connect(mover) => mover == user,
            Event::Traffic(mover, _, _) => mover == user,
            Event::Disconnect(mover) => mover == user,
            Event::Drain => false,
        },
    ensures
        next(accounts, event).get(other) == accounts.get(other),
{
}

/// Each direction is counted separately.
pub proof fn law_directions_are_counted_separately(usage: Usage, n: u64)
    ensures
        plus(usage, Direction::Uplink, n).downlink == usage.downlink,
        plus(usage, Direction::Downlink, n).uplink == usage.uplink,
{
}

/// The traffic of several connections by one user adds up, whichever of them moves it.
pub proof fn law_traffic_by_one_user_adds_up(
    accounts: Accounts,
    user: Seq<char>,
    direction: Direction,
    n: u64,
    m: u64,
)
    ensures
        pending(
            next(
                next(accounts, Event::Traffic(user, direction, n)),
                Event::Traffic(user, direction, m),
            ),
            user,
            direction,
        ) == (pending(accounts, user, direction) + n + m) % 0x1_0000_0000_0000_0000,
{
    let before = pending(accounts, user, direction);
    let between = next(accounts, Event::Traffic(user, direction, n));
    assert(pending(between, user, direction) == (before + n) % 0x1_0000_0000_0000_0000);
    let after = next(between, Event::Traffic(user, direction, m));
    assert(pending(after, user, direction) == (pending(between, user, direction) + m)
        % 0x1_0000_0000_0000_0000);
    lemma_counting_keeps_the_remainder(m as nat, before, before + m as nat, n as nat);
}

/// Traffic and the end of a connection come from a connected user.
pub open spec fn is_orderly(events: Seq<Event>) -> bool
    decreases events.len(),
{
    events.len() == 0 || {
        &&& is_orderly(events.drop_last())
        &&& match events.last() {
            Event::Traffic(user, _, _) => accounts::connections_of(
                run(events.drop_last()),
                user,
            ) > 0,
            Event::Disconnect(user) => accounts::connections_of(run(events.drop_last()), user) > 0,
            _ => true,
        }
    }
}

/// How often `user` has opened a connection.
pub open spec fn opened(events: Seq<Event>, user: Seq<char>) -> nat
    decreases events.len(),
{
    if events.len() == 0 {
        0
    } else {
        opened(events.drop_last(), user) + (if events.last() == Event::Connect(user) {
            1nat
        } else {
            0nat
        })
    }
}

/// How often `user` has ended a connection.
pub open spec fn ended(events: Seq<Event>, user: Seq<char>) -> nat
    decreases events.len(),
{
    if events.len() == 0 {
        0
    } else {
        ended(events.drop_last(), user) + (if events.last() == Event::Disconnect(user) {
            1nat
        } else {
            0nat
        })
    }
}

/// The connections of a user are those opened and not ended, whatever traffic and drains come
/// between.
pub proof fn law_connections_are_counted(events: Seq<Event>, user: Seq<char>)
    requires
        is_orderly(events),
    ensures
        accounts::connections_of(run(events), user) == opened(events, user) - ended(events, user),
    decreases events.len(),
{
    if events.len() > 0 {
        law_connections_are_counted(events.drop_last(), user);
    }
}

/// A drain keeps exactly the users who have opened more connections than they have ended.
pub proof fn law_a_drain_keeps_the_connected(events: Seq<Event>, user: Seq<char>)
    requires
        is_orderly(events),
    ensures
        run(events.push(Event::Drain)).contains_key(user) <==> opened(events, user) > ended(
            events,
            user,
        ),
{
    law_connections_are_counted(events, user);
    assert(events.push(Event::Drain).drop_last() =~= events);
}

/// The places for counters that a table has made by the end of a run: only a new connection may
/// take another.
pub open spec fn places_made(events: Seq<Event>) -> nat
    decreases events.len(),
{
    if events.len() == 0 {
        0
    } else if events.last() is Connect {
        accounts::places_needed(places_made(events.drop_last()), run(events))
    } else {
        places_made(events.drop_last())
    }
}

/// The largest number of users tracked at once in the course of a run.
pub open spec fn most_tracked(events: Seq<Event>) -> nat
    decreases events.len(),
{
    if events.len() == 0 {
        0
    } else if run(events).len() > most_tracked(events.drop_last()) {
        run(events).len()
    } else {
        most_tracked(events.drop_last())
    }
}

/// Departed users cost no memory for long: a table never makes more places for counters than
/// there were users tracked at once.
pub proof fn law_places_are_used_again(events: Seq<Event>)
    requires
        is_orderly(events),
    ensures
        run(events).dom().finite(),
        places_made(events) == most_tracked(events),
    decreases events.len(),
{
    if events.len() > 0 {
        let front = events.drop_last();
        law_places_are_used_again(front);
        let before = run(front);
        lemma_tracked_at_most(front);
        match events.last() {
            Event::Connect(_) => {},
            Event::Traffic(user, _, _) => {
                assert(run(events).dom() =~= before.dom());
            },
            Event::Disconnect(user) => {
                assert(run(events).dom() =~= before.dom());
            },
            Event::Drain => {
                assert(run(events).dom().subset_of(before.dom()));
                vstd::set_lib::lemma_len_subset(run(events).dom(), before.dom());
            },
        }
    }
}

proof fn lemma_tracked_at_most(events: Seq<Event>)
    ensures
        run(events).len() <= most_tracked(events),
{
}

} // verus!
