//! What is known of one source address: its destinations and their
//! connections.

use vstd::prelude::*;
use crate::address::{Address, Protocol, Timestamp};
use crate::connection::{Connection, ConnectionSet};
use crate::entries::{
    as_map, distinct_keys, has_key, lemma_as_map_empty, lemma_as_map_entry, lemma_as_map_len,
    lemma_as_map_push, lemma_as_map_update, lemma_merged_none, lemma_merged_step, lemma_take_all,
    lookup, merged,
};
use crate::model::{
    connections_of, destination_merger, fresh_communication, merge_communication,
    merge_destination, merge_destinations, CommunicationView, ConnectionsView, Stamp,
};

verus! {

/// One destination address with the connections observed towards it.
#[derive(Debug)]
pub struct Destination {
    address: Address,
    connections: ConnectionSet,
}

impl Destination {
    /// The address of this destination.
    pub closed spec fn spec_address(&self) -> Address {
        self.address
    }

    /// The connections towards this destination.
    pub closed spec fn spec_connections(&self) -> ConnectionSet {
        self.connections
    }

    /// The address of this destination.
    pub fn address(&self) -> (a: Address)
        ensures
            a == self.spec_address(),
    {
        self.address
    }

    /// The connections towards this destination.
    pub fn connections(&self) -> (c: &ConnectionSet)
        ensures
            *c == self.spec_connections(),
    {
        &self.connections
    }
}

/// The destination as an entry of a map.
pub open spec fn entry_of(d: Destination) -> (Address, ConnectionsView) {
    (d.spec_address(), d.spec_connections()@)
}

/// The entries that a sequence of destinations spells.
pub open spec fn entries_of(s: Seq<Destination>) -> Seq<(Address, ConnectionsView)> {
    s.map_values(|d: Destination| entry_of(d))
}

/// What is known of one source address. No two of its destinations share an
/// address, and no two connections of a destination share port and protocol.
#[derive(Debug)]
pub struct Communication {
    destinations: Vec<Destination>,
    created_at: Timestamp,
    updated_at: Timestamp,
}

impl View for Communication {
    type V = CommunicationView;

    closed spec fn view(&self) -> CommunicationView {
        CommunicationView {
            connections: as_map(entries_of(self.destinations@)),
            created_at: self.created_at,
            updated_at: self.updated_at,
        }
    }
}

impl Communication {
    /// The destinations in the order in which they were first seen.
    pub closed spec fn destinations(&self) -> Seq<Destination> {
        self.destinations@
    }

    /// Destinations are distinct and each holds a well-formed set.
    pub closed spec fn wf(&self) -> bool {
        &&& distinct_keys(entries_of(self.destinations@))
        &&& forall|i: int|
            0 <= i < self.destinations@.len() ==> (#[trigger] self.destinations@[i]).connections.wf()
    }

    /// What `wf` and the view mean for the destinations.
    pub proof fn lemma_destinations(&self)
        requires
            self.wf(),
        ensures
            self@.connections.dom().finite(),
            self@.connections.dom().len() == self.destinations().len(),
            forall|i: int, j: int|
                0 <= i < j < self.destinations().len() ==> self.destinations()[i].spec_address()
                    != self.destinations()[j].spec_address(),
            forall|i: int|
                0 <= i < self.destinations().len() ==> {
                    let d = #[trigger] self.destinations()[i];
                    &&& d.spec_connections().wf()
                    &&& self@.connections.contains_key(d.spec_address())
                    &&& self@.connections[d.spec_address()] == d.spec_connections()@
                },
            forall|a: Address|
                self@.connections.contains_key(a) ==> exists|i: int|
                    0 <= i < self.destinations().len() && (#[trigger] self.destinations()[i]).spec_address()
                        == a,
    {
        let e = entries_of(self.destinations@);
        lemma_as_map_len(e);
        assert forall|i: int, j: int| 0 <= i < j < self.destinations().len() implies self.destinations()[i].spec_address()
            != self.destinations()[j].spec_address() by {
            assert(e[i].0 != e[j].0);
        }
        assert forall|i: int| 0 <= i < self.destinations().len() implies {
            let d = #[trigger] self.destinations()[i];
            &&& d.spec_connections().wf()
            &&& self@.connections.contains_key(d.spec_address())
            &&& self@.connections[d.spec_address()] == d.spec_connections()@
        } by {
            lemma_as_map_entry(e, i);
            assert(self.destinations@[i].connections.wf());
        }
        assert forall|a: Address| self@.connections.contains_key(a) implies exists|i: int|
            0 <= i < self.destinations().len() && (#[trigger] self.destinations()[i]).spec_address()
                == a by {
            let i = choose|i: int| 0 <= i < e.len() && (#[trigger] e[i]).0 == a;
            assert(self.destinations()[i].spec_address() == a);
        }
    }

    /// A communication without destinations, first seen at `created_at` and
    /// last updated at `updated_at`.
    fn empty(created_at: Timestamp, updated_at: Timestamp) -> (c: Communication)
        ensures
            c.wf(),
            c@ == (CommunicationView { connections: Map::empty(), created_at, updated_at }),
    {
        proof {
            lemma_as_map_empty::<Address, ConnectionsView>();
        }
        let c = Communication { destinations: Vec::new(), created_at, updated_at };
        assert(entries_of(c.destinations@) =~= Seq::empty());
        c
    }

    /// A communication without destinations, first seen at `now`.
    pub fn new(now: Timestamp) -> (c: Communication)
        ensures
            c.wf(),
            c@ == fresh_communication(now),
    {
        Communication::empty(now, now)
    }

    /// When this source was first seen.
    pub fn created_at(&self) -> (t: Timestamp)
        ensures
            t == self@.created_at,
    {
        self.created_at
    }

    /// When a connection under this source last changed.
    pub fn updated_at(&self) -> (t: Timestamp)
        ensures
            t == self@.updated_at,
    {
        self.updated_at
    }

    /// How many destinations this source has talked to.
    pub fn len(&self) -> (n: usize)
        requires
            self.wf(),
        ensures
            n == self@.connections.dom().len(),
            n == self.destinations().len(),
    {
        proof {
            self.lemma_destinations();
        }
        self.destinations.len()
    }

    /// The `i`-th destination, in the order in which they were first seen.
    pub fn nth(&self, i: usize) -> (d: &Destination)
        requires
            i < self.destinations().len(),
        ensures
            *d == self.destinations()[i as int],
    {
        &self.destinations[i]
    }

    /// Where the destination with this address stands, if it is here.
    fn find(&self, dst: Address) -> (r: Option<usize>)
        ensures
            match r {
                Some(i) => i < self.destinations@.len() && self.destinations@[i as int].address == dst,
                None => !has_key(entries_of(self.destinations@), dst),
            },
    {
        let mut i: usize = 0;
        while i < self.destinations.len()
            invariant
                i <= self.destinations@.len(),
                forall|j: int| 0 <= j < i ==> self.destinations@[j].address != dst,
            decreases self.destinations@.len() - i,
        {
            if self.destinations[i].address == dst {
                return Some(i);
            }
            i += 1;
        }
        proof {
            let e = entries_of(self.destinations@);
            if has_key(e, dst) {
                let j = choose|j: int| 0 <= j < e.len() && (#[trigger] e[j]).0 == dst;
                assert(self.destinations@[j].address == dst);
            }
        }
        None
    }

    /// The connections towards `dst`, if this source has talked to it.
    pub fn get(&self, dst: Address) -> (r: Option<&ConnectionSet>)
        requires
            self.wf(),
        ensures
            r is Some <==> self@.connections.contains_key(dst),
            r matches Some(set) ==> set.wf() && set@ == self@.connections[dst],
    {
        match self.find(dst) {
            Some(i) => {
                proof {
                    lemma_as_map_entry(entries_of(self.destinations@), i as int);
                }
                Some(&self.destinations[i].connections)
            },
            None => None,
        }
    }

    /// The index of `dst`, which is appended with no connections if it is new.
    fn slot(&mut self, dst: Address) -> (i: usize)
        requires
            old(self).wf(),
        ensures
            final(self).wf(),
            i < final(self).destinations@.len(),
            final(self).destinations@[i as int].address == dst,
            final(self).destinations@[i as int].connections@ == connections_of(
                old(self)@.connections,
                dst,
            ),
            final(self)@.connections == old(self)@.connections.insert(
                dst,
                connections_of(old(self)@.connections, dst),
            ),
            lookup(final(self)@.connections, dst) == Some(connections_of(old(self)@.connections, dst)),
            final(self).created_at == old(self).created_at,
            final(self).updated_at == old(self).updated_at,
    {
        let ghost before = entries_of(self.destinations@);
        match self.find(dst) {
            Some(i) => {
                proof {
                    lemma_as_map_entry(before, i as int);
                    assert(self@.connections =~= self@.connections.insert(
                        dst,
                        connections_of(self@.connections, dst),
                    ));
                }
                i
            },
            None => {
                let set = ConnectionSet::new();
                self.destinations.push(Destination { address: dst, connections: set });
                proof {
                    lemma_as_map_push(before, dst, set@);
                    assert(entries_of(self.destinations@) =~= before.push((dst, set@)));
                }
                self.destinations.len() - 1
            },
        }
    }

    /// Records one observation at `now`: the connection to `dst` on `port` and
    /// `protocol` gets a fresh pair of timestamps, and this source is marked
    /// as updated.
    pub fn record(&mut self, dst: Address, port: u16, protocol: Protocol, now: Timestamp)
        requires
            old(self).wf(),
        ensures
            final(self).wf(),
            final(self)@ == (CommunicationView {
                connections: old(self)@.connections.insert(
                    dst,
                    connections_of(old(self)@.connections, dst).insert(
                        (port, protocol),
                        Stamp { created_at: now, updated_at: now },
                    ),
                ),
                created_at: old(self)@.created_at,
                updated_at: now,
            }),
    {
        let i = self.slot(dst);
        let ghost before = entries_of(self.destinations@);
        let ghost middle = self@;
        self.destinations[i].connections.replace(Connection::new(port, protocol, now));
        self.updated_at = now;
        proof {
            let after = self.destinations@[i as int].connections@;
            lemma_as_map_update(before, i as int, after);
            assert(entries_of(self.destinations@) =~= before.update(i as int, (dst, after)));
            assert(middle.connections.insert(dst, after) =~= old(self)@.connections.insert(
                dst,
                after,
            ));
        }
    }

    /// Merges the connections of one foreign destination in at `now`.
    fn merge_destination(&mut self, dst: Address, incoming: &ConnectionSet, now: Timestamp)
        requires
            old(self).wf(),
            incoming.wf(),
        ensures
            final(self).wf(),
            final(self)@.connections == old(self)@.connections.insert(
                dst,
                merge_destination(lookup(old(self)@.connections, dst), incoming@, now),
            ),
            final(self).created_at == old(self).created_at,
            final(self).updated_at == old(self).updated_at,
    {
        let i = self.slot(dst);
        let ghost before = entries_of(self.destinations@);
        let ghost middle = self@;
        self.destinations[i].connections.merge(incoming, now);
        proof {
            let after = self.destinations@[i as int].connections@;
            lemma_as_map_update(before, i as int, after);
            assert(entries_of(self.destinations@) =~= before.update(i as int, (dst, after)));
            assert(middle.connections.insert(dst, after) =~= old(self)@.connections.insert(
                dst,
                after,
            ));
        }
    }

    /// Merges every destination of `foreign` in at `now`.
    fn merge_destinations(&mut self, foreign: &Communication, now: Timestamp)
        requires
            old(self).wf(),
            foreign.wf(),
        ensures
            final(self).wf(),
            final(self)@.connections == merge_destinations(
                old(self)@.connections,
                foreign@.connections,
                now,
            ),
            final(self).created_at == old(self).created_at,
            final(self).updated_at == old(self).updated_at,
    {
        let ghost start = self@.connections;
        let ghost incoming = entries_of(foreign.destinations@);
        let n = foreign.destinations.len();
        let mut i: usize = 0;
        proof {
            lemma_merged_none::<Address, ConnectionsView, ConnectionsView>(
                start,
                destination_merger(now),
            );
            assert(incoming.take(0) =~= Seq::empty());
        }
        while i < n
            invariant
                i <= n,
                n == foreign.destinations@.len(),
                incoming == entries_of(foreign.destinations@),
                foreign.wf(),
                self.wf(),
                self@.connections == merged(
                    start,
                    as_map(incoming.take(i as int)),
                    destination_merger(now),
                ),
                self.created_at == old(self).created_at,
                self.updated_at == old(self).updated_at,
            decreases n - i,
        {
            proof {
                lemma_merged_step(start, incoming, i as int, destination_merger(now));
            }
            let d = &foreign.destinations[i];
            self.merge_destination(d.address, &d.connections, now);
            i += 1;
        }
        proof {
            lemma_take_all(incoming);
        }
    }

    /// Merges the foreign record of this source in at `now`.
    pub fn merge(&mut self, foreign: &Communication, now: Timestamp)
        requires
            old(self).wf(),
            foreign.wf(),
        ensures
            final(self).wf(),
            final(self)@ == merge_communication(Some(old(self)@), foreign@, now),
    {
        self.merge_destinations(foreign, now);
        self.updated_at = now;
    }

    /// The record of a source that was unknown here, after its foreign record
    /// was merged in at `now`.
    pub fn adopt(foreign: &Communication, now: Timestamp) -> (c: Communication)
        requires
            foreign.wf(),
        ensures
            c.wf(),
            c@ == merge_communication(None, foreign@, now),
    {
        let mut c = Communication::empty(foreign.created_at, now);
        c.merge_destinations(foreign, now);
        c
    }
}

impl Clone for Destination {
    /// A destination with the same address and the same connections.
    fn clone(&self) -> (r: Destination)
        ensures
            r.spec_address() == self.spec_address(),
            r.spec_connections()@ == self.spec_connections()@,
            r.spec_connections().wf() == self.spec_connections().wf(),
            r.spec_connections().items() == self.spec_connections().items(),
    {
        Destination { address: self.address, connections: self.connections.clone() }
    }
}

impl Clone for Communication {
    /// A record that holds the same as this one.
    fn clone(&self) -> (r: Communication)
        ensures
            r@ == self@,
            r.wf() == self.wf(),
    {
        let mut destinations: Vec<Destination> = Vec::new();
        let mut i: usize = 0;
        while i < self.destinations.len()
            invariant
                i <= self.destinations@.len(),
                destinations@.len() == i,
                forall|j: int|
                    0 <= j < i ==> {
                        let copy = #[trigger] destinations@[j];
                        &&& entry_of(copy) == entry_of(self.destinations@[j])
                        &&& copy.connections.wf() == self.destinations@[j].connections.wf()
                    },
            decreases self.destinations@.len() - i,
        {
            destinations.push(self.destinations[i].clone());
            i += 1;
        }
        let r = Communication {
            destinations,
            created_at: self.created_at,
            updated_at: self.updated_at,
        };
        proof {
            assert(entries_of(r.destinations@) =~= entries_of(self.destinations@));
            if self.wf() {
                assert forall|j: int| 0 <= j < r.destinations@.len() implies (#[trigger] r.destinations@[j]).connections.wf() by {
                    assert(self.destinations@[j].connections.wf());
                }
            }
            if r.wf() {
                assert forall|j: int| 0 <= j < self.destinations@.len() implies (#[trigger] self.destinations@[j]).connections.wf() by {
                    assert(r.destinations@[j].connections.wf());
                }
            }
        }
        r
    }
}

} // verus!
