//! The table of counters.

use crate::user_traffic::accounts;
use crate::user_traffic::accounts::{Account, Accounts};
use crate::user_traffic::usage::{Usage, UserCounter};
use std::sync::Arc;
use vstd::hash_map::StringHashMap;
use vstd::prelude::*;

verus! {

/// A connection's claim on the counter of its user.
///
/// It names the place of the counter, so that counting a chunk of traffic takes no map lookup. The
/// connection gives it back with [`UserTraffic::release`] when it ends: nothing else ends the
/// claim. A handle that merely goes out of scope leaves its connection counted, and every later
/// drain keeps the user's account, at zero, for as long as the table lives.
#[must_use]
pub struct CounterHandle {
    slot: usize,
    user: Ghost<Seq<char>>,
}

impl View for CounterHandle {
    type V = Seq<char>;

    /// The user whose connection holds the handle.
    closed spec fn view(&self) -> Seq<char> {
        self.user@
    }
}

impl CounterHandle {
    /// The place of the counter in its table.
    pub closed spec fn place(&self) -> int {
        self.slot as int
    }
}

/// A place for one user's counter. Without a user it is free.
struct Slot {
    user: Option<Arc<str>>,
    counter: UserCounter,
    connections: u64,
}

impl Slot {
    spec fn is_of(&self, user: Seq<char>) -> bool {
        match self.user {
            Some(name) => name@ == user,
            None => false,
        }
    }

    spec fn account(&self) -> Account {
        Account { usage: self.counter@, connections: self.connections as nat }
    }
}

/// A sequence that grows holds what it held, and the new element.
proof fn lemma_push_contains(origins: Seq<int>, next: int)
    ensures
        origins.push(next).contains(next),
        forall|j: int| #[trigger] origins.contains(j) ==> origins.push(next).contains(j),
{
    let grown = origins.push(next);
    assert(grown[origins.len() as int] == next);
    assert forall|j: int| #[trigger] origins.contains(j) implies grown.contains(j) by {
        assert(grown[origins.index_of(j)] == j);
    }
}

/// Traffic for every user the endpoint has served since the last drain.
pub struct UserTraffic {
    slots: Vec<Slot>,
    /// The slot of each tracked user.
    index: StringHashMap<usize>,
    /// The slots without a user, to be used again.
    free: Vec<usize>,
}

impl View for UserTraffic {
    type V = Accounts;

    closed spec fn view(&self) -> Accounts {
        self.index@.map_values(|slot: usize| self.slots@[slot as int].account())
    }
}

impl UserTraffic {
    /// The index and the slots name each other, and every slot without a user is listed as free,
    /// once.
    pub closed spec fn wf(&self) -> bool {
        &&& self.index@.dom().finite()
        &&& forall|user: Seq<char>| #[trigger]
            self.index@.contains_key(user) ==> self.index@[user] < self.slots@.len()
                && self.slots@[self.index@[user] as int].is_of(user)
        &&& forall|i: int|
            0 <= i < self.slots@.len() ==> match (#[trigger] self.slots@[i]).user {
                Some(name) => self.index@.contains_key(name@) && self.index@[name@] == i,
                None => true,
            }
        &&& forall|k: int|
            0 <= k < self.free@.len() ==> (#[trigger] self.free@[k]) < self.slots@.len()
                && self.slots@[self.free@[k] as int].user is None
        &&& self.free@.no_duplicates()
        &&& self.index@.len() + self.free@.len() == self.slots@.len()
    }

    /// How many places for counters the table has made, in use or not.
    pub closed spec fn places(&self) -> nat {
        self.slots@.len()
    }

    /// Where the counter of `user` is kept.
    pub closed spec fn place_of(&self, user: Seq<char>) -> int {
        self.index@[user] as int
    }

    /// The handle is held by a connection of this table's.
    pub open spec fn issued(&self, handle: CounterHandle) -> bool {
        &&& accounts::connections_of(self@, handle@) > 0
        &&& self.place_of(handle@) == handle.place()
    }

    /// No counter has moved since `earlier`: the handles of connected users stay good.
    pub open spec fn keeps_places_of(&self, earlier: UserTraffic) -> bool {
        forall|user: Seq<char>|
            self@.contains_key(user) && earlier@.contains_key(user) ==> #[trigger] self.place_of(user)
                == earlier.place_of(user)
    }

    /// A table that tracks nobody yet.
    pub fn new() -> (traffic: UserTraffic)
        ensures
            traffic.wf(),
            traffic@ == Map::<Seq<char>, Account>::empty(),
            traffic.places() == 0,
    {
        let traffic = UserTraffic {
            slots: Vec::new(),
            index: StringHashMap::new(),
            free: Vec::new(),
        };
        assert(traffic@ =~= Map::empty());
        traffic
    }

    /// The number of users the table holds an account for.
    pub fn tracked_users(&self) -> (count: usize)
        ensures
            count == self@.len(),
    {
        assert(self@.dom() =~= self.index@.dom());
        self.index.len()
    }

    /// The number of connections that hold the counter of `user`.
    pub fn connections(&self, user: &str) -> (count: u64)
        requires
            self.wf(),
        ensures
            count == accounts::connections_of(self@, user@),
            count == (if self@.contains_key(user@) {
                self@[user@].connections
            } else {
                0
            }),
    {
        match self.index.get(user) {
            Some(slot) => self.slots[*slot].connections,
            None => 0,
        }
    }

    /// The handle to count this connection's traffic with.
    ///
    /// Called once per connection - the returned handle is what the hot path uses. Two connections
    /// by the same user share one counter, which is what makes their traffic add up.
    pub fn counter_for(&mut self, user: &Arc<str>) -> (handle: CounterHandle)
        requires
            old(self).wf(),
            accounts::connections_of(old(self)@, user@) < u64::MAX,
        ensures
            final(self).wf(),
            final(self)@ == accounts::connected(old(self)@, user@),
            final(self).keeps_places_of(*old(self)),
            final(self).places() == accounts::places_needed(old(self).places(), final(self)@),
            handle@ == user@,
            final(self).issued(handle),
            final(self)@.contains_key(user@),
            final(self)@[user@].connections == (if old(self)@.contains_key(user@) {
                old(self)@[user@].connections + 1
            } else {
                1
            }),
            final(self)@[user@].usage == (if old(self)@.contains_key(user@) {
                old(self)@[user@].usage
            } else {
                Usage { uplink: 0, downlink: 0 }
            }),
            final(self)@.remove(user@) == old(self)@.remove(user@),
    {
        let slot: usize = match self.index.get(user) {
            Some(slot) => *slot,
            None => {
                let fresh = Slot {
                    user: Some(user.clone()),
                    counter: UserCounter::default(),
                    connections: 0,
                };
                let slot: usize = match self.free.pop() {
                    Some(slot) => {
                        self.slots[slot] = fresh;
                        slot
                    },
                    None => {
                        let slot: usize = self.slots.len();
                        self.slots.push(fresh);
                        slot
                    },
                };
                self.index.insert((**user).to_owned(), slot);
                slot
            },
        };
        self.slots[slot].connections = self.slots[slot].connections + 1;
        assert(self@.dom() =~= self.index@.dom());
        CounterHandle { slot, user: Ghost(user@) }
    }

    /// The counter behind a handle, to add this connection's traffic to.
    pub fn counter(&mut self, handle: &CounterHandle) -> (counter: &mut UserCounter)
        requires
            old(self).wf(),
            old(self).issued(*handle),
        ensures
            counter@ == old(self)@[handle@].usage,
            final(self).wf(),
            final(self)@ == accounts::with_usage(old(self)@, handle@, final(counter)@),
            final(self)@.dom() == old(self)@.dom(),
            final(self)@[handle@].usage == final(counter)@,
            final(self)@[handle@].connections == old(self)@[handle@].connections,
            final(self)@.remove(handle@) == old(self)@.remove(handle@),
            final(self).keeps_places_of(*old(self)),
            final(self).places() == old(self).places(),
    {
        &mut self.slots[handle.slot].counter
    }

    /// Ends a connection's claim on its counter. What it counted stays for the next drain.
    pub fn release(&mut self, handle: CounterHandle)
        requires
            old(self).wf(),
            old(self).issued(handle),
        ensures
            final(self).wf(),
            final(self)@ == accounts::disconnected(old(self)@, handle@),
            final(self)@.dom() == old(self)@.dom(),
            final(self)@[handle@].usage == old(self)@[handle@].usage,
            final(self)@[handle@].connections == old(self)@[handle@].connections - 1,
            final(self)@.remove(handle@) == old(self)@.remove(handle@),
            final(self).keeps_places_of(*old(self)),
            final(self).places() == old(self).places(),
    {
        self.slots[handle.slot].connections = self.slots[handle.slot].connections - 1;
    }

    /// Takes everything accumulated since the last call, leaving the counters at zero.
    ///
    /// Live connections keep their handles and go on adding to their counters, so nothing is lost
    /// by draining mid-connection: the bytes simply land in the next drain instead of this one.
    ///
    /// Users with nothing to report are left out, and departed users are dropped, so a user who
    /// disconnects and never returns stops costing memory. A user still connected is kept even at
    /// zero, because their handle is about to be used again.
    pub fn drain(&mut self) -> (collected: Vec<(Arc<str>, Usage)>)
        requires
            old(self).wf(),
        ensures
            accounts::lists(collected@, accounts::billable(old(self)@)),
            forall|i: int|
                0 <= i < collected@.len() ==> old(self)@.contains_key((#[trigger] collected@[i]).0@)
                    && old(self)@[collected@[i].0@].usage == collected@[i].1 && (
                collected@[i].1.uplink > 0 || collected@[i].1.downlink > 0),
            forall|user: Seq<char>| #[trigger]
                old(self)@.contains_key(user) && (old(self)@[user].usage.uplink > 0
                    || old(self)@[user].usage.downlink > 0) ==> exists|i: int|
                    0 <= i < collected@.len() && (#[trigger] collected@[i]).0@ == user,
            forall|i: int, j: int|
                0 <= i < j < collected@.len() ==> (#[trigger] collected@[i]).0@ != (
                #[trigger] collected@[j]).0@,
            final(self).wf(),
            final(self)@ == accounts::drained(old(self)@),
            forall|user: Seq<char>| #[trigger]
                final(self)@.contains_key(user) <==> old(self)@.contains_key(user)
                    && old(self)@[user].connections > 0,
            forall|user: Seq<char>| #[trigger]
                final(self)@.contains_key(user) ==> final(self)@[user].usage == (Usage {
                    uplink: 0,
                    downlink: 0,
                }) && final(self)@[user].connections == old(self)@[user].connections,
            final(self).keeps_places_of(*old(self)),
            final(self).places() == old(self).places(),
    {
        let mut collected: Vec<(Arc<str>, Usage)> = Vec::new();
        let ghost mut origins: Seq<int> = seq![];
        let mut i: usize = 0;
        while i < self.slots.len()
            invariant
                i <= self.slots@.len(),
                old(self).wf(),
                self.wf(),
                self.slots@.len() == old(self).slots@.len(),
                forall|j: int| i <= j < self.slots@.len() ==> self.slots@[j] == old(self).slots@[j],
                forall|j: int|
                    0 <= j < i ==> (#[trigger] self.slots@[j]).counter@ == Usage::zero()
                        || self.slots@[j].user is None,
                forall|j: int|
                    0 <= j < i ==> (#[trigger] self.slots@[j]).connections
                        == old(self).slots@[j].connections,
                forall|user: Seq<char>| #[trigger]
                    self.index@.contains_key(user) <==> old(self).index@.contains_key(user) && (
                    old(self).index@[user] >= i || accounts::connections_of(old(self)@, user) > 0),
                forall|user: Seq<char>| #[trigger]
                    self.index@.contains_key(user) ==> self.index@[user] == old(self).index@[user],
                origins.len() == collected@.len(),
                forall|k: int, l: int| 0 <= k < l < origins.len() ==> origins[k] < origins[l],
                forall|k: int|
                    #![trigger collected@[k]]
                    #![trigger origins[k]]
                    0 <= k < origins.len() ==> {
                        &&& 0 <= origins[k] < i
                        &&& old(self).slots@[origins[k]].is_of(collected@[k].0@)
                        &&& old(self).slots@[origins[k]].counter@ == collected@[k].1
                        &&& collected@[k].1 != Usage::zero()
                    },
                forall|j: int|
                    0 <= j < i && (#[trigger] old(self).slots@[j]).user is Some
                        && old(self).slots@[j].counter@ != Usage::zero() ==> origins.contains(j),
            decreases self.slots@.len() - i,
        {
            let user: Option<Arc<str>> = match &self.slots[i].user {
                Some(user) => Some(user.clone()),
                None => None,
            };
            if let Some(user) = user {
                let usage = self.slots[i].counter.take();
                if self.slots[i].connections == 0 {
                    self.slots[i].user = None;
                    self.index.remove(&user);
                    self.free.push(i);
                }
                if !usage.is_zero() {
                    collected.push((user, usage));
                    proof {
                        lemma_push_contains(origins, i as int);
                        origins = origins.push(i as int);
                    }
                }
            }
            i += 1;
        }
        collected
    }

    /// Reads without resetting, for a status page or a test.
    pub fn snapshot(&self) -> (rows: Vec<(Arc<str>, Usage)>)
        requires
            self.wf(),
        ensures
            accounts::lists(rows@, accounts::usages(self@)),
            forall|i: int|
                0 <= i < rows@.len() ==> self@.contains_key((#[trigger] rows@[i]).0@)
                    && self@[rows@[i].0@].usage == rows@[i].1,
            forall|user: Seq<char>| #[trigger]
                self@.contains_key(user) ==> exists|i: int|
                    0 <= i < rows@.len() && (#[trigger] rows@[i]).0@ == user,
            forall|i: int, j: int|
                0 <= i < j < rows@.len() ==> (#[trigger] rows@[i]).0@ != (#[trigger] rows@[j]).0@,
    {
        let mut rows: Vec<(Arc<str>, Usage)> = Vec::new();
        let ghost mut origins: Seq<int> = seq![];
        for i in 0..self.slots.len()
            invariant
                self.wf(),
                origins.len() == rows@.len(),
                forall|k: int, l: int| 0 <= k < l < origins.len() ==> origins[k] < origins[l],
                forall|k: int|
                    #![trigger rows@[k]]
                    #![trigger origins[k]]
                    0 <= k < origins.len() ==> {
                        &&& 0 <= origins[k] < i
                        &&& self.slots@[origins[k]].is_of(rows@[k].0@)
                        &&& self.slots@[origins[k]].counter@ == rows@[k].1
                    },
                forall|j: int|
                    0 <= j < i && (#[trigger] self.slots@[j]).user is Some ==> origins.contains(j),
        {
            if let Some(user) = &self.slots[i].user {
                rows.push((user.clone(), self.slots[i].counter.read()));
                proof {
                    lemma_push_contains(origins, i as int);
                    origins = origins.push(i as int);
                }
            }
        }
        rows
    }

    /// There is a place for every tracked user.
    pub proof fn law_users_have_places(&self)
        requires
            self.wf(),
        ensures
            self@.len() <= self.places(),
    {
        assert(self@.dom() =~= self.index@.dom());
    }

    /// The connections of one user share a counter, and those of two users never do.
    pub proof fn law_counters_follow_users(&self, first: CounterHandle, second: CounterHandle)
        requires
            self.wf(),
            self.issued(first),
            self.issued(second),
        ensures
            first.place() == second.place() <==> first@ == second@,
    {
    }

    /// A drain leaves the handle of every live connection good.
    pub proof fn law_handles_survive_a_drain(&self, later: UserTraffic, handle: CounterHandle)
        requires
            self.issued(handle),
            later@ == accounts::drained(self@),
            later.keeps_places_of(*self),
        ensures
            later.issued(handle),
    {
    }

    /// Any number of drains leaves the handle of a live connection good.
    pub proof fn law_handles_survive_all_drains(tables: Seq<UserTraffic>, handle: CounterHandle)
        requires
            tables.len() > 0,
            tables[0].issued(handle),
            forall|i: int|
                0 < i < tables.len() ==> (#[trigger] tables[i])@ == accounts::drained(
                    tables[i - 1]@,
                ) && tables[i].keeps_places_of(tables[i - 1]),
        ensures
            tables.last().issued(handle),
        decreases tables.len(),
    {
        if tables.len() > 1 {
            let earlier = tables.drop_last();
            assert forall|i: int| 0 < i < earlier.len() implies (#[trigger] earlier[i])@
                == accounts::drained(earlier[i - 1]@) && earlier[i].keeps_places_of(
                earlier[i - 1],
            ) by {
                assert(earlier[i] == tables[i]);
            }
            Self::law_handles_survive_all_drains(earlier, handle);
            let last = tables[tables.len() - 1];
            earlier.last().law_handles_survive_a_drain(last, handle);
        }
    }

    /// A new connection by a user who is still connected joins the counter of the others.
    pub proof fn law_new_connections_join_the_old(
        &self,
        later: UserTraffic,
        held: CounterHandle,
        fresh: CounterHandle,
    )
        requires
            self.issued(held),
            later@ == accounts::connected(self@, held@),
            later.keeps_places_of(*self),
            later.issued(fresh),
            fresh@ == held@,
        ensures
            later.issued(held),
            fresh.place() == held.place(),
    {
    }
}

impl Default for UserTraffic {
    /// A table that tracks nobody yet.
    fn default() -> (traffic: UserTraffic)
        ensures
            traffic.wf(),
            traffic@ == Map::<Seq<char>, Account>::empty(),
            traffic.places() == 0,
    {
        UserTraffic::new()
    }
}

} // verus!
