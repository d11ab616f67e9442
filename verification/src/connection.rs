//! One observed flow leg, and the set of them under one destination.

use vstd::prelude::*;
use vstd::std_specs::cmp::PartialEqSpecImpl;
use crate::address::{Protocol, Timestamp};
use crate::entries::{
    as_map, distinct_keys, has_key, lemma_as_map_empty, lemma_as_map_entry, lemma_as_map_len,
    lemma_as_map_push, lemma_as_map_update, lemma_merged_none, lemma_merged_step, lemma_take_all,
    lookup, merged,
};
use crate::model::{
    merge_connections, merge_stamp, stamp_merger, ConnectionKey, ConnectionsView, Stamp,
};

verus! {

/// One observed flow leg. Its identity is the pair of port and protocol; the
/// two timestamps say when it was first and last seen and take no part in
/// `==`.
#[derive(Clone, Copy, Debug)]
pub struct Connection {
    pub port: u16,
    pub protocol: Protocol,
    pub created_at: Timestamp,
    pub updated_at: Timestamp,
}

impl PartialEq for Connection {
    fn eq(&self, other: &Self) -> (r: bool) {
        self.port == other.port && self.protocol == other.protocol
    }
}

impl Eq for Connection {}

impl PartialEqSpecImpl for Connection {
    open spec fn obeys_eq_spec() -> bool {
        true
    }

    open spec fn eq_spec(&self, other: &Self) -> bool {
        self.port == other.port && self.protocol == other.protocol
    }
}

impl Connection {
    /// The port and protocol that identify this connection.
    pub open spec fn key(self) -> ConnectionKey {
        (self.port, self.protocol)
    }

    /// When this connection was first and last seen.
    pub open spec fn stamp(self) -> Stamp {
        Stamp { created_at: self.created_at, updated_at: self.updated_at }
    }

    /// A connection first and last seen at `now`.
    pub fn new(port: u16, protocol: Protocol, now: Timestamp) -> (c: Connection)
        ensures
            c.key() == (port, protocol),
            c.stamp() == (Stamp { created_at: now, updated_at: now }),
    {
        Connection { port, protocol, created_at: now, updated_at: now }
    }
}

/// The connection as an entry of a map.
pub open spec fn entry_of(c: Connection) -> (ConnectionKey, Stamp) {
    (c.key(), c.stamp())
}

/// The entries that a sequence of connections spells.
pub open spec fn entries_of(s: Seq<Connection>) -> Seq<(ConnectionKey, Stamp)> {
    s.map_values(|c: Connection| entry_of(c))
}

/// The connections under one destination: no two of them share port and
/// protocol.
#[derive(Debug)]
pub struct ConnectionSet {
    items: Vec<Connection>,
}

impl View for ConnectionSet {
    type V = ConnectionsView;

    closed spec fn view(&self) -> ConnectionsView {
        as_map(entries_of(self.items@))
    }
}

impl ConnectionSet {
    /// The connections in the order in which they were first inserted.
    pub closed spec fn items(&self) -> Seq<Connection> {
        self.items@
    }

    /// No two connections share port and protocol.
    pub closed spec fn wf(&self) -> bool {
        distinct_keys(entries_of(self.items@))
    }

    /// What `wf` and the view mean for the items.
    pub proof fn lemma_items(&self)
        requires
            self.wf(),
        ensures
            self@.dom().finite(),
            self@.dom().len() == self.items().len(),
            forall|i: int, j: int|
                0 <= i < j < self.items().len() ==> self.items()[i].key() != self.items()[j].key(),
            forall|i: int|
                0 <= i < self.items().len() ==> self@.contains_key(
                    (#[trigger] self.items()[i]).key(),
                ) && self@[self.items()[i].key()] == self.items()[i].stamp(),
            forall|k: ConnectionKey|
                self@.contains_key(k) ==> exists|i: int|
                    0 <= i < self.items().len() && (#[trigger] self.items()[i]).key() == k,
    {
        let e = entries_of(self.items@);
        lemma_as_map_len(e);
        assert forall|i: int, j: int| 0 <= i < j < self.items().len() implies self.items()[i].key()
            != self.items()[j].key() by {
            assert(e[i].0 != e[j].0);
        }
        assert forall|i: int| 0 <= i < self.items().len() implies self@.contains_key(
            (#[trigger] self.items()[i]).key(),
        ) && self@[self.items()[i].key()] == self.items()[i].stamp() by {
            lemma_as_map_entry(e, i);
        }
        assert forall|k: ConnectionKey| self@.contains_key(k) implies exists|i: int|
            0 <= i < self.items().len() && (#[trigger] self.items()[i]).key() == k by {
            let i = choose|i: int| 0 <= i < e.len() && (#[trigger] e[i]).0 == k;
            assert(self.items()[i].key() == k);
        }
    }

    /// The empty set.
    pub fn new() -> (s: ConnectionSet)
        ensures
            s.wf(),
            s@ == Map::<ConnectionKey, Stamp>::empty(),
    {
        proof {
            lemma_as_map_empty::<ConnectionKey, Stamp>();
        }
        let s = ConnectionSet { items: Vec::new() };
        assert(entries_of(s.items@) =~= Seq::empty());
        s
    }

    /// How many connections the set holds.
    pub fn len(&self) -> (n: usize)
        requires
            self.wf(),
        ensures
            n == self@.dom().len(),
            n == self.items().len(),
    {
        proof {
            self.lemma_items();
        }
        self.items.len()
    }

    /// Where the connection with this port and protocol stands, if it is here.
    fn find(&self, port: u16, protocol: Protocol) -> (r: Option<usize>)
        ensures
            match r {
                Some(i) => i < self.items@.len() && self.items@[i as int].key() == (port, protocol),
                None => !has_key(entries_of(self.items@), (port, protocol)),
            },
    {
        let mut i: usize = 0;
        while i < self.items.len()
            invariant
                i <= self.items@.len(),
                forall|j: int| 0 <= j < i ==> self.items@[j].key() != (port, protocol),
            decreases self.items@.len() - i,
        {
            if self.items[i].port == port && self.items[i].protocol == protocol {
                return Some(i);
            }
            i += 1;
        }
        proof {
            let e = entries_of(self.items@);
            if has_key(e, (port, protocol)) {
                let j = choose|j: int| 0 <= j < e.len() && (#[trigger] e[j]).0 == (port, protocol);
                assert(self.items@[j].key() == (port, protocol));
            }
        }
        None
    }

    /// The connection with this port and protocol, if the set holds one.
    pub fn get(&self, port: u16, protocol: Protocol) -> (r: Option<Connection>)
        requires
            self.wf(),
        ensures
            r is Some <==> self@.contains_key((port, protocol)),
            r matches Some(c) ==> c.key() == (port, protocol) && c.stamp() == self@[(port, protocol)],
    {
        match self.find(port, protocol) {
            Some(i) => {
                proof {
                    lemma_as_map_entry(entries_of(self.items@), i as int);
                }
                Some(self.items[i])
            },
            None => None,
        }
    }

    /// The `i`-th connection, in the order of first insertion.
    pub fn nth(&self, i: usize) -> (c: Connection)
        requires
            i < self.items().len(),
        ensures
            c == self.items()[i as int],
    {
        self.items[i]
    }

    /// Puts `connection` in the place of the one that shares its port and
    /// protocol, or adds it if there is none.
    pub fn replace(&mut self, connection: Connection)
        requires
            old(self).wf(),
        ensures
            final(self).wf(),
            final(self)@ == old(self)@.insert(connection.key(), connection.stamp()),
    {
        let ghost before = entries_of(self.items@);
        match self.find(connection.port, connection.protocol) {
            Some(i) => {
                self.items.set(i, connection);
                proof {
                    lemma_as_map_update(before, i as int, connection.stamp());
                    assert(entries_of(self.items@) =~= before.update(
                        i as int,
                        (before[i as int].0, connection.stamp()),
                    ));
                }
            },
            None => {
                self.items.push(connection);
                proof {
                    lemma_as_map_push(before, connection.key(), connection.stamp());
                    assert(entries_of(self.items@) =~= before.push(
                        (connection.key(), connection.stamp()),
                    ));
                }
            },
        }
    }

    /// Merges one foreign connection in at `now`: it is last seen at `now`,
    /// and first seen when the connection that it replaces was, or, if it
    /// replaces none, when the foreign store first saw it.
    pub fn merge_one(&mut self, incoming: Connection, now: Timestamp)
        requires
            old(self).wf(),
        ensures
            final(self).wf(),
            final(self)@ == old(self)@.insert(
                incoming.key(),
                merge_stamp(lookup(old(self)@, incoming.key()), incoming.stamp(), now),
            ),
    {
        let created_at = match self.get(incoming.port, incoming.protocol) {
            Some(known) => known.created_at,
            None => incoming.created_at,
        };
        self.replace(
            Connection { port: incoming.port, protocol: incoming.protocol, created_at, updated_at: now },
        );
    }

    /// Merges every connection of `foreign` in at `now`.
    pub fn merge(&mut self, foreign: &ConnectionSet, now: Timestamp)
        requires
            old(self).wf(),
            foreign.wf(),
        ensures
            final(self).wf(),
            final(self)@ == merge_connections(old(self)@, foreign@, now),
    {
        let ghost start = self@;
        let ghost incoming = entries_of(foreign.items@);
        let n = foreign.items.len();
        let mut i: usize = 0;
        proof {
            lemma_merged_none::<ConnectionKey, Stamp, Stamp>(start, stamp_merger(now));
            assert(incoming.take(0) =~= Seq::empty());
        }
        while i < n
            invariant
                i <= n,
                n == foreign.items@.len(),
                incoming == entries_of(foreign.items@),
                distinct_keys(incoming),
                self.wf(),
                self@ == merged(start, as_map(incoming.take(i as int)), stamp_merger(now)),
            decreases n - i,
        {
            proof {
                lemma_merged_step(start, incoming, i as int, stamp_merger(now));
            }
            self.merge_one(foreign.items[i], now);
            i += 1;
        }
        proof {
            lemma_take_all(incoming);
        }
    }
}

impl Clone for ConnectionSet {
    /// A set with the same connections in the same order.
    fn clone(&self) -> (r: ConnectionSet)
        ensures
            r.items() == self.items(),
            r@ == self@,
            r.wf() == self.wf(),
    {
        let mut items: Vec<Connection> = Vec::new();
        let mut i: usize = 0;
        while i < self.items.len()
            invariant
                i <= self.items@.len(),
                items@ == self.items@.take(i as int),
            decreases self.items@.len() - i,
        {
            items.push(self.items[i]);
            proof {
                assert(items@ =~= self.items@.take(i + 1));
            }
            i += 1;
        }
        proof {
            assert(items@ =~= self.items@);
        }
        ConnectionSet { items }
    }
}

} // verus!
